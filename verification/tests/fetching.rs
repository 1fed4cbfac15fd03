use shopify_scraper::dataset::{
    bearer, cloud_items_url, created_dataset_id, dataset_key, fresh_item_path, local_dataset_dir,
    local_item_path, plan_dataset, DatasetError, DatasetPlan,
};
use shopify_scraper::discovery::{
    discovery_step, discovery_urls, lightning_handles, listing_handles, multi_discovery_step, sitemap_handles,
    take_handles, DiscoveryError,
};
use shopify_scraper::lightning::{client_timeout, handle_batches, lightning_scraper_config, LightningConfig, AtomicMetrics};
use shopify_scraper::models::ShopifyProduct;
use shopify_scraper::multi_website::{listing_url, multi_scraper_config, MultiWebsiteConfig, ScrapingMetrics};
use shopify_scraper::retry::{
    next_fetch_action, record_failure, request_host, should_rate_limit, should_retry, CacheEntry, FetchAction,
    FetchOutcome,
};
use shopify_scraper::schema::{
    default_concurrent, default_false, default_max_products, default_max_retries, default_timeout, default_true,
    ExtractionOptions, OutputFormat, PerformanceSettings, ProductFilters, ScraperInput,
};
use shopify_scraper::sites::collect_site_results;
use shopify_scraper::output;

fn strings(v: &[&str]) -> Vec<String> {
    v.iter().map(|s| s.to_string()).collect()
}

#[test]
fn listing_bodies_give_handles() {
    let body = br#"{"products":[{"handle":"a"},{"title":"no handle"},{"handle":"b"},{"handle":"c"}]}"#;
    assert_eq!(listing_handles(body, 10).unwrap(), strings(&["a", "b", "c"]));
    assert_eq!(listing_handles(body, 2).unwrap(), strings(&["a"]));
    assert_eq!(listing_handles(br#"{"other":1}"#, 10).unwrap(), Vec::<String>::new());
    assert_eq!(listing_handles(b"not json", 10), Err(DiscoveryError::InvalidJson));
    assert_eq!(listing_handles(br#"{"products":[{"handle":5}]}"#, 10).unwrap(), Vec::<String>::new());
}

#[test]
fn sitemaps_give_handles() {
    let xml = br#"<loc>https://s.com/products/alpha"</loc><loc>https://s.com/products/beta"</loc>"#;
    assert_eq!(sitemap_handles(xml, 10).unwrap(), strings(&["alpha", "beta"]));
    assert_eq!(sitemap_handles(xml, 1).unwrap(), strings(&["alpha"]));
    assert!(sitemap_handles(b"nothing here", 5).unwrap().is_empty());
    let bad = b"<loc>/products/caf\xff\"</loc>";
    assert_eq!(sitemap_handles(bad, 5).unwrap(), vec!["caf\u{fffd}".to_string()]);
}

#[test]
fn handle_taking_respects_the_limit() {
    let entries = vec![Some("x".to_string()), None, Some("y".to_string())];
    assert_eq!(take_handles(entries.clone(), 3), strings(&["x", "y"]));
    assert_eq!(take_handles(entries.clone(), 2), strings(&["x"]));
    assert!(take_handles(entries, 0).is_empty());
}

#[test]
fn discovery_listings_and_steps() {
    assert_eq!(
        discovery_urls("https://s.com"),
        strings(&[
            "https://s.com/collections/all/products.json",
            "https://s.com/products.json",
            "https://s.com/sitemap_products_1.xml",
        ])
    );
    let body = br#"{"products":[{"handle":"h"}]}"#;
    assert_eq!(discovery_step("https://s.com/products.json", body, 5), Ok(Some(strings(&["h"]))));
    assert_eq!(discovery_step("https://s.com/products.json", br#"{"products":[]}"#, 5), Ok(None));
    assert_eq!(discovery_step("https://s.com/products.json", b"<html>", 5), Err(DiscoveryError::InvalidJson));
    assert_eq!(discovery_step("https://s.com/page", body, 5), Ok(None));
    assert_eq!(lightning_handles(Some(body.to_vec()), 5), strings(&["h"]));
    assert!(lightning_handles(Some(b"oops".to_vec()), 5).is_empty());
    assert!(lightning_handles(None, 5).is_empty());
}

#[test]
fn multi_website_discovery_steps() {
    let body = br#"{"products":[{"handle":"h1"},{"handle":"h2"}]}"#;
    assert_eq!(multi_discovery_step("https://s.com/products.json?limit=5", body.to_vec(), 1), Ok(Some(strings(&["h1"]))));
    assert_eq!(multi_discovery_step("https://s.com/products.json?limit=5", b"bad".to_vec(), 1), Ok(None));
    let xml = b"<loc>https://s.com/products/one/</loc><loc>https://s.com/products/two</loc>".to_vec();
    assert_eq!(multi_discovery_step("https://s.com/sitemap.xml", xml, 9), Ok(Some(strings(&["one", "two<"]))));
    assert_eq!(multi_discovery_step("https://s.com/sitemap.xml", vec![0xff, 0xfe], 9), Ok(None));
    assert_eq!(multi_discovery_step("https://s.com/list", body.to_vec(), 9), Ok(None));
}

#[test]
fn listing_urls_of_the_multi_website_scraper() {
    assert_eq!(listing_url("https://s.com", 250, 2, true), "https://s.com/products.json?limit=250&page=2");
    assert_eq!(listing_url("https://s.com", 50, 7, false), "https://s.com/products.json?limit=50");
}

fn entry(count: u32, last_ms: u64, wait: Option<u64>) -> CacheEntry {
    CacheEntry {
        url: "u".to_string(),
        last_failure_ms: last_ms,
        failure_count: count,
        last_error: "e".to_string(),
        retry_after_ms: wait,
    }
}

#[test]
fn retry_waits_follow_the_back_off() {
    assert!(should_retry(None, 0));
    assert!(!should_retry(Some(&entry(1, 1000, None)), 2999));
    assert!(should_retry(Some(&entry(1, 1000, None)), 3000));
    assert!(!should_retry(Some(&entry(20, 0, None)), 1_023_999));
    assert!(should_retry(Some(&entry(20, 0, None)), 1_024_000));
    assert!(!should_retry(Some(&entry(1, 0, Some(60_000))), 59_999));
    assert!(should_retry(Some(&entry(1, 0, Some(60_000))), 60_000));
    assert!(!should_retry(Some(&entry(0, 500, None)), 100));
}

#[test]
fn failures_are_recorded_with_imposed_waits() {
    let e = record_failure(None, "https://a", "HTTP 429 Too Many Requests for https://a", 77);
    assert_eq!(e.url, "https://a");
    assert_eq!(e.failure_count, 1);
    assert_eq!(e.last_failure_ms, 77);
    assert_eq!(e.retry_after_ms, Some(60_000));
    let e = record_failure(Some(e), "https://a", "service unavailable", 80);
    assert_eq!(e.failure_count, 2);
    assert_eq!(e.retry_after_ms, Some(30_000));
    assert_eq!(e.last_error, "service unavailable");
    let e = record_failure(Some(e), "https://other", "Request failed: timeout", 90);
    assert_eq!(e.url, "https://a");
    assert_eq!(e.retry_after_ms, Some(30_000));
    assert!(!should_retry(Some(&e), 90));
}

#[test]
fn domains_are_rate_limited() {
    assert!(!should_rate_limit(None, 5, 100));
    assert!(should_rate_limit(Some(0), 99, 100));
    assert!(!should_rate_limit(Some(0), 100, 100));
    assert!(!should_rate_limit(Some(0), 0, 0));
    assert_eq!(request_host("https://Shop.example.com:8080/x"), Some("shop.example.com".to_string()));
    assert_eq!(request_host("not a url"), None);
}

#[test]
fn fetch_actions_follow_each_answer() {
    assert!(matches!(next_fetch_action("u", 0, FetchOutcome::Found), FetchAction::Succeed));
    assert!(matches!(next_fetch_action("u", 2, FetchOutcome::NotFound), FetchAction::Missing));
    match next_fetch_action("https://u", 1, FetchOutcome::TooManyRequests) {
        FetchAction::Retry { failure, delay_ms } => {
            assert_eq!(failure, "Rate limited: https://u");
            assert_eq!(delay_ms, 2000);
        }
        _ => panic!("expected a retry"),
    }
    match next_fetch_action("https://u", 2, FetchOutcome::TooManyRequests) {
        FetchAction::Fail { error, .. } => assert_eq!(error, "Rate limited after 3 attempts"),
        _ => panic!("expected a failure"),
    }
    match next_fetch_action("https://u", 0, FetchOutcome::OtherStatus("500 Internal Server Error".to_string())) {
        FetchAction::Fail { failure, error } => {
            assert_eq!(failure, "HTTP 500 Internal Server Error for https://u");
            assert_eq!(error, "HTTP error: 500 Internal Server Error");
        }
        _ => panic!("expected a failure"),
    }
    match next_fetch_action("https://u", 0, FetchOutcome::SendFailed("timeout".to_string())) {
        FetchAction::Retry { failure, delay_ms } => {
            assert_eq!(failure, "Request failed: timeout");
            assert_eq!(delay_ms, 1000);
        }
        _ => panic!("expected a retry"),
    }
    match next_fetch_action("https://u", 2, FetchOutcome::SendFailed("timeout".to_string())) {
        FetchAction::Fail { error, .. } => assert_eq!(error, "Request failed after 3 attempts: timeout"),
        _ => panic!("expected a failure"),
    }
}

#[test]
fn a_failing_server_gets_three_requests() {
    let mut sent = 0;
    let mut attempt: u32 = 0;
    loop {
        sent += 1;
        match next_fetch_action("https://u", attempt, FetchOutcome::TooManyRequests) {
            FetchAction::Retry { .. } => attempt += 1,
            _ => break,
        }
    }
    assert_eq!(sent, 3);
}

fn product(id: &str) -> ShopifyProduct {
    shopify_scraper::lightning::from_raw_product(
        shopify_scraper::lightning::RawProduct {
            id: id.to_string(),
            title: String::new(),
            price_cents: 0,
            currency: String::new(),
            vendor: String::new(),
            url: String::new(),
            domain: String::new(),
            raw_data: Vec::new(),
        },
        shopify_scraper::models::Timestamp { unix_seconds: 0, nanos: 0 },
    )
}

#[test]
fn site_results_form_a_map_with_last_wins() {
    let outcomes = vec![
        Some(("a".to_string(), vec![product("1")])),
        None,
        Some(("b".to_string(), vec![])),
        Some(("a".to_string(), vec![product("2"), product("3")])),
    ];
    let m = collect_site_results(outcomes);
    assert_eq!(m.len(), 2);
    assert_eq!(m[0].0, "a");
    assert_eq!(m[0].1.len(), 2);
    assert_eq!(m[0].1[0].id, "2");
    assert_eq!(m[1].0, "b");
    assert!(collect_site_results(vec![None, None]).is_empty());
}

#[test]
fn handles_are_batched_in_order() {
    let hs = strings(&["a", "b", "c", "d", "e"]);
    let b = handle_batches(&hs, 2);
    assert_eq!(b, vec![strings(&["a", "b"]), strings(&["c", "d"]), strings(&["e"])]);
    assert_eq!(handle_batches(&hs, 100), vec![hs.clone()]);
    assert!(handle_batches(&Vec::new(), 3).is_empty());
}

#[test]
fn scraper_settings() {
    let c = lightning_scraper_config(ScraperInput::default());
    assert_eq!(c.user_agent, "LightningScraper/3.0 (Rust)");
    assert_eq!(c.rate_limit_delay, 0);
    assert_eq!(c.max_redirects, 3);
    let m = MultiWebsiteConfig::default();
    let c = multi_scraper_config(&m, ScraperInput::default());
    assert_eq!(c.user_agent, "MultiWebsiteScraper/2.0 (Rust)");
    assert_eq!(c.rate_limit_delay, 100);
    assert_eq!(c.max_redirects, 5);
    assert_eq!(client_timeout(0), None);
    assert_eq!(client_timeout(10), Some(10));
    let l = LightningConfig::default();
    assert_eq!(l.global_max_concurrent, 1000);
    assert_eq!(l.timeout_seconds, 10);
    assert_eq!(m.global_max_concurrent, 200);
    assert_eq!(m.max_retries, 3);
    let s = ScrapingMetrics::default();
    assert_eq!(s.total_requests, 0);
    assert!(s.total_duration_ms.is_none());
    let a = AtomicMetrics::default();
    assert_eq!(a.total_requests.load(std::sync::atomic::Ordering::Relaxed), 0);
}

#[test]
fn input_defaults() {
    assert!(default_true());
    assert!(!default_false());
    assert_eq!(default_max_products(), 1000);
    assert_eq!(default_concurrent(), 100);
    assert_eq!(default_timeout(), 30);
    assert_eq!(default_max_retries(), 3);
    let i = ScraperInput::default();
    assert_eq!(i.max_products, 1000);
    assert_eq!(i.timeout_seconds, 30);
    assert!(i.auto_discover);
    assert_eq!(i.output_format, OutputFormat::Json);
    assert_eq!(OutputFormat::default(), OutputFormat::Json);
    let e = ExtractionOptions::default();
    assert!(e.include_images && e.include_variants && !e.include_custom_fields);
    let p = PerformanceSettings::default();
    assert_eq!(p.max_retries, 3);
    assert!(ProductFilters::default().vendors.is_empty());
    assert_ne!(output::OutputFormat::Json, output::OutputFormat::Csv);
}

#[test]
fn dataset_locations() {
    assert_eq!(dataset_key(None), "default");
    assert_eq!(dataset_key(Some("mine")), "mine");
    assert_eq!(plan_dataset(None, true, false), DatasetPlan::CloudDefault);
    assert_eq!(plan_dataset(Some("x"), false, true), DatasetPlan::CloudNamed { name: "x".to_string() });
    assert_eq!(plan_dataset(None, false, false), DatasetPlan::Local { name: "default".to_string() });
    assert_eq!(plan_dataset(Some("y"), false, false), DatasetPlan::Local { name: "y".to_string() });
    assert_eq!(local_dataset_dir("d"), "apify_storage/datasets/d");
    assert_eq!(local_item_path("d", -42), "apify_storage/datasets/d/-42.json");
    assert_eq!(local_item_path("d", i32::MIN), "apify_storage/datasets/d/-2147483648.json");
    assert_eq!(local_item_path("d", 7), "apify_storage/datasets/d/7.json");
    let p = fresh_item_path("d");
    assert!(p.starts_with("apify_storage/datasets/d/") && p.ends_with(".json"));
    assert_eq!(cloud_items_url("ID", "TOK"), "https://api.apify.com/v2/datasets/ID/items?token=TOK");
    assert_eq!(bearer("t"), "Bearer t");
    assert_eq!(created_dataset_id(br#"{"data":{"id":"abc"}}"#), Ok("abc".to_string()));
    assert_eq!(created_dataset_id(br#"{"data":{}}"#), Err(DatasetError::MissingDatasetId));
    assert_eq!(created_dataset_id(b"{"), Err(DatasetError::InvalidResponse));
}
