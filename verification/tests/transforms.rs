use shopify_scraper::lightning::{from_raw_product, lightning_product, process_raw_products, RawProduct};
use shopify_scraper::models::{RawProductImage, RawProductVariant, RawShopifyProduct, Timestamp};
use shopify_scraper::multi_website::multi_product;
use shopify_scraper::scraper::transform_to_canonical;
use shopify_scraper::transform::{clean_html_fast, product_json_url, product_url, strip_paragraphs, transform_variant};
use shopify_scraper::text::parse_tags;

fn stamp(secs: i64) -> Timestamp {
    Timestamp { unix_seconds: secs, nanos: 0 }
}

fn raw_variant(id: u64, price: &str) -> RawProductVariant {
    RawProductVariant {
        id,
        title: "Default Title".to_string(),
        price: price.to_string(),
        sku: "TEST-SKU".to_string(),
        inventory_quantity: Some(100),
        available: Some(true),
        weight_milli: Some(500),
        weight_unit: Some("kg".to_string()),
        option1: None,
        option2: None,
        option3: None,
        barcode: None,
        compare_at_price: None,
        fulfillment_service: None,
        inventory_management: None,
        inventory_policy: None,
        requires_shipping: None,
        taxable: None,
        tax_code: None,
    }
}

fn raw_image(src: &str) -> RawProductImage {
    RawProductImage { src: src.to_string(), alt: None, width: None, height: None, position: None }
}

fn raw_product(body: Option<&str>) -> RawShopifyProduct {
    RawShopifyProduct {
        id: 123456789,
        title: "Test Product".to_string(),
        body_html: body.map(|b| b.to_string()),
        vendor: "Test Vendor".to_string(),
        product_type: "Test Type".to_string(),
        tags: "test, product, example".to_string(),
        available: Some(true),
        created_at: stamp(1_700_000_000),
        updated_at: stamp(1_700_000_100),
        handle: "test-product".to_string(),
        variants: vec![raw_variant(987654321, "29.99")],
        images: vec![raw_image("https://example.com/image1.jpg"), raw_image("https://example.com/image2.jpg")],
        options: None,
        metafields: None,
    }
}

#[test]
fn test_data_transformation() {
    let canonical_product = transform_to_canonical(raw_product(Some("<p>This is a test product description</p>")));
    assert_eq!(canonical_product.id, "123456789");
    assert_eq!(canonical_product.title, "Test Product");
    assert_eq!(canonical_product.description, "This is a test product description");
    assert_eq!(canonical_product.price_cents, 2999);
    assert_eq!(canonical_product.currency, "USD");
    assert_eq!(canonical_product.variants.len(), 1);
    assert_eq!(canonical_product.images.len(), 2);
    assert_eq!(canonical_product.product_type, "Test Type");
    assert!(canonical_product.title_de.is_none());
}

#[test]
fn canonical_keeps_identity_fields_and_parses_tags() {
    let p = transform_to_canonical(raw_product(None));
    assert_eq!(p.description, "");
    assert_eq!(p.vendor, "Test Vendor");
    assert_eq!(p.handle, "test-product");
    assert_eq!(p.tags, vec!["test".to_string(), "product".to_string(), "example".to_string()]);
    assert!(p.availability);
    assert_eq!(p.created_at, stamp(1_700_000_000));
    assert_eq!(p.updated_at, stamp(1_700_000_100));
    assert_eq!(p.url, "");
    assert_eq!(p.images[1].src, "https://example.com/image2.jpg");
    assert_eq!(p.variants[0].id, "987654321");
    assert_eq!(p.variants[0].price_cents, 2999);
    assert_eq!(p.variants[0].weight_milli, 500);
    assert!(p.custom_fields.is_none());
    assert!(p.description_es.is_none());
}

#[test]
fn canonical_price_is_zero_without_variants_or_with_bad_price() {
    let mut raw = raw_product(None);
    raw.variants = vec![];
    assert_eq!(transform_to_canonical(raw).price_cents, 0);
    let mut raw = raw_product(None);
    raw.variants = vec![raw_variant(1, "abc")];
    let p = transform_to_canonical(raw);
    assert_eq!(p.price_cents, 0);
    assert_eq!(p.variants[0].price_cents, 0);
}

#[test]
fn prices_with_more_places_round_to_the_cent() {
    let mut raw = raw_product(None);
    raw.variants = vec![raw_variant(1, "29.999")];
    let p = transform_to_canonical(raw);
    assert_eq!(p.price_cents, 3000);
    assert_eq!(p.variants[0].price_cents, 3000);
    let q = multi_product(raw_product_with_price("2.345"), "https://a.com");
    assert_eq!(q.price_cents, 235);
    let r = lightning_product(raw_product_with_price("1e1"), "https://a.com");
    assert_eq!(r.price_cents, 1000);
    assert_eq!(transform_variant(raw_variant(2, "0.125")).price_cents, 13);
    assert_eq!(transform_variant(raw_variant(3, "1e20")).price_cents, i64::MAX);
    assert_eq!(transform_variant(raw_variant(4, "nan")).price_cents, 0);
}

fn raw_product_with_price(price: &str) -> RawShopifyProduct {
    let mut raw = raw_product(None);
    raw.variants = vec![raw_variant(1, price)];
    raw
}

#[test]
fn canonical_availability_defaults_to_false() {
    let mut raw = raw_product(None);
    raw.available = None;
    assert!(!transform_to_canonical(raw).availability);
}

#[test]
fn lightning_product_cleans_html_and_builds_url() {
    let raw = raw_product(Some("<p>Fish &amp; Chips</p><br>&lt;hot&gt;&nbsp;now"));
    let p = lightning_product(raw, "https://shop.example.com");
    assert_eq!(p.description, "Fish & Chips\n<hot> now");
    assert_eq!(p.url, "https://shop.example.com/products/test-product");
    assert_eq!(p.id, "123456789");
}

#[test]
fn multi_product_keeps_the_html_body() {
    let raw = raw_product(Some("<p>Raw <b>body</b></p>"));
    let p = multi_product(raw, "https://a.com");
    assert_eq!(p.description, "<p>Raw <b>body</b></p>");
    assert_eq!(p.url, "https://a.com/products/test-product");
}

#[test]
fn variant_defaults_and_compare_price() {
    let mut v = raw_variant(5, "10");
    v.inventory_quantity = None;
    v.available = None;
    v.weight_milli = None;
    v.weight_unit = None;
    v.compare_at_price = Some("12.5".to_string());
    let c = transform_variant(v);
    assert_eq!(c.id, "5");
    assert_eq!(c.price_cents, 1000);
    assert_eq!(c.inventory_quantity, 0);
    assert!(!c.available);
    assert_eq!(c.weight_milli, 0);
    assert_eq!(c.weight_unit, "kg");
    assert_eq!(c.compare_at_price_cents, Some(1250));
    let mut w = raw_variant(6, "1");
    w.compare_at_price = Some("n/a".to_string());
    assert_eq!(transform_variant(w).compare_at_price_cents, None);
}

#[test]
fn html_cleaning_steps() {
    assert_eq!(strip_paragraphs("<p>a</p><p>b</p><br>"), "ab<br>");
    assert_eq!(clean_html_fast("a<br/>b<br />c&amp;amp;"), "a\nb\nc&amp;");
    assert_eq!(clean_html_fast("plain"), "plain");
}

#[test]
fn product_url_joins_domain_and_handle() {
    assert_eq!(product_url("https://x.com", "h"), "https://x.com/products/h");
    assert_eq!(product_json_url("https://x.com", "h"), "https://x.com/products/h.json");
}

#[test]
fn tags_are_split_trimmed_and_nonempty() {
    assert_eq!(parse_tags(" a , ,b,  c d ,"), vec!["a".to_string(), "b".to_string(), "c d".to_string()]);
    assert!(parse_tags("").is_empty());
    assert!(parse_tags(" , ").is_empty());
}

fn channel_entry(id: &str) -> RawProduct {
    RawProduct {
        id: id.to_string(),
        title: "T".to_string(),
        price_cents: 1234,
        currency: "EUR".to_string(),
        vendor: "V".to_string(),
        url: "https://u".to_string(),
        domain: "d".to_string(),
        raw_data: vec![1, 2, 3],
    }
}

#[test]
fn channel_entries_become_minimal_products() {
    let p = from_raw_product(channel_entry("7"), stamp(42));
    assert_eq!(p.id, "7");
    assert_eq!(p.price_cents, 1234);
    assert_eq!(p.currency, "EUR");
    assert!(p.availability);
    assert_eq!(p.description, "");
    assert!(p.tags.is_empty());
    assert_eq!(p.created_at, stamp(42));
    assert_eq!(p.updated_at, stamp(42));
    assert_eq!(p.url, "https://u");
    let all = process_raw_products(vec![channel_entry("1"), channel_entry("2")]);
    assert_eq!(all.len(), 2);
    assert_eq!(all[0].id, "1");
    assert_eq!(all[1].id, "2");
    assert_eq!(all[1].created_at, all[1].updated_at);
    assert!(all[0].created_at.unix_seconds > 1_600_000_000);
}
