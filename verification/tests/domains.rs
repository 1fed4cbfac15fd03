use shopify_scraper::domain::{add_scheme, is_shopify_store, normalize_domain, normalize_domain_fast, DomainError};

#[test]
fn test_domain_normalization() {
    let normalized = normalize_domain("example.myshopify.com").unwrap();
    assert_eq!(normalized, "https://example.myshopify.com");

    let normalized_with_https = normalize_domain("https://example.myshopify.com").unwrap();
    assert_eq!(normalized_with_https, "https://example.myshopify.com");

    let normalized_with_trailing_slash = normalize_domain("https://example.myshopify.com/").unwrap();
    assert_eq!(normalized_with_trailing_slash, "https://example.myshopify.com");
}

#[test]
fn test_shopify_store_detection() {
    assert!(is_shopify_store("example.myshopify.com"));
    assert!(is_shopify_store("https://example.myshopify.com"));
    assert!(is_shopify_store("store.shopify.com"));
    assert!(!is_shopify_store("example.com"));
    assert!(!is_shopify_store("not-shopify.com"));
}

#[test]
fn shopify_detection_ignores_case() {
    assert!(is_shopify_store("STORE.MYSHOPIFY.COM"));
    assert!(is_shopify_store("ShopifyPartner.example"));
    assert!(!is_shopify_store("shop.example"));
    assert!(is_shopify_store("https://cdn.shopify.com/s/files"));
    assert!(!is_shopify_store("myshopify.org"));
}

#[test]
fn normalization_trims_and_lowercases_host() {
    assert_eq!(normalize_domain("  Example.COM  ").unwrap(), "https://example.com");
    assert_eq!(normalize_domain("http://example.com/path/").unwrap(), "http://example.com/path");
    assert_eq!(normalize_domain("https://example.com///").unwrap(), "https://example.com");
}

#[test]
fn normalization_refuses_what_the_parser_refuses() {
    assert_eq!(normalize_domain(""), Err(DomainError::InvalidUrl));
    assert_eq!(normalize_domain("https://exa mple.com"), Err(DomainError::InvalidUrl));
    assert_eq!(normalize_domain("http://[::1"), Err(DomainError::InvalidUrl));
}

#[test]
fn fast_normalization_only_adds_a_scheme() {
    assert_eq!(normalize_domain_fast(" shop.com "), "https://shop.com");
    assert_eq!(normalize_domain_fast("http://shop.com/"), "http://shop.com/");
    assert_eq!(normalize_domain_fast(""), "https://");
    let once = normalize_domain_fast("a.b");
    assert_eq!(normalize_domain_fast(&once), once);
    assert_eq!(add_scheme("https://x"), "https://x");
}
