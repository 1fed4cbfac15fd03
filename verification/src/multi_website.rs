//! The multi-website scraper's settings and transforms: its configuration,
//! the listing it asks each store for, how a fetched product becomes
//! canonical, and how a website's products go through the pipeline.
use vstd::prelude::*;
use crate::models::{ShopifyProduct, RawShopifyProduct};
use crate::numfmt::{decimal_seq, push_decimal};
use crate::pipeline::{pipeline_spec, DataWranglingPipeline};
use crate::schema::{ScraperConfig, ScraperInput};
use crate::text::copy_str;
use crate::transform::{body_text, build_canonical, canonical_core, product_url, product_url_spec, DescriptionCleaning};
use crate::validation::products_view;

verus! {

/// Counters of a run; times in milliseconds on the caller's clock.
#[derive(Debug)]
pub struct ScrapingMetrics {
    pub total_requests: u64,
    pub successful_requests: u64,
    pub failed_requests: u64,
    pub cached_responses: u64,
    pub retry_attempts: u64,
    pub start_time_ms: Option<u64>,
    pub total_duration_ms: Option<u64>,
}

impl Default for ScrapingMetrics {
    /// All counters zero, no times.
    fn default() -> (r: Self)
        ensures
            r.total_requests == 0 && r.successful_requests == 0 && r.failed_requests == 0,
            r.cached_responses == 0 && r.retry_attempts == 0,
            r.start_time_ms is None && r.total_duration_ms is None,
    {
        ScrapingMetrics {
            total_requests: 0,
            successful_requests: 0,
            failed_requests: 0,
            cached_responses: 0,
            retry_attempts: 0,
            start_time_ms: None,
            total_duration_ms: None,
        }
    }
}

/// What the multi-website scraper is asked to scrape, and its limits.
#[derive(Debug, Clone)]
pub struct MultiWebsiteConfig {
    pub websites: Vec<String>,
    pub max_products_per_site: usize,
    pub max_concurrent_per_domain: usize,
    pub global_max_concurrent: usize,
    pub cache_ttl_seconds: u64,
    pub retry_delay_ms: u64,
    pub max_retries: u32,
    pub enable_response_caching: bool,
    pub enable_failure_caching: bool,
    pub rate_limit_per_domain_ms: u64,
    pub timeout_seconds: u64,
}

impl Default for MultiWebsiteConfig {
    /// No websites; 1000 products per site; 50 requests per domain and 200
    /// in all; caches kept an hour; a second between retries, at most 3;
    /// both caches on; 100 ms between requests to a domain; 30 s timeout.
    fn default() -> (r: Self)
        ensures
            r.websites@.len() == 0,
            r.max_products_per_site == 1000,
            r.max_concurrent_per_domain == 50,
            r.global_max_concurrent == 200,
            r.cache_ttl_seconds == 3600,
            r.retry_delay_ms == 1000,
            r.max_retries == 3,
            r.enable_response_caching && r.enable_failure_caching,
            r.rate_limit_per_domain_ms == 100,
            r.timeout_seconds == 30,
    {
        MultiWebsiteConfig {
            websites: Vec::new(),
            max_products_per_site: 1000,
            max_concurrent_per_domain: 50,
            global_max_concurrent: 200,
            cache_ttl_seconds: 3600,
            retry_delay_ms: 1000,
            max_retries: 3,
            enable_response_caching: true,
            enable_failure_caching: true,
            rate_limit_per_domain_ms: 100,
            timeout_seconds: 30,
        }
    }
}

/// The settings the multi-website scraper derives: its own user agent,
/// the configured delay between requests to a domain, at most five
/// redirects.
pub fn multi_scraper_config(config: &MultiWebsiteConfig, input: ScraperInput) -> (r: ScraperConfig)
    ensures
        r.input == input,
        r.user_agent@ == "MultiWebsiteScraper/2.0 (Rust)"@,
        r.rate_limit_delay == config.rate_limit_per_domain_ms,
        r.max_redirects == 5,
{
    ScraperConfig {
        input,
        user_agent: copy_str("MultiWebsiteScraper/2.0 (Rust)"),
        rate_limit_delay: config.rate_limit_per_domain_ms,
        max_redirects: 5,
    }
}

/// `{domain}/products.json?limit={limit}`, followed by `&page={page}` when
/// pages are asked for.
pub open spec fn listing_url_spec(domain: Seq<char>, limit: u64, page: u64, paginate: bool) -> Seq<char> {
    let base = domain + "/products.json?limit="@ + decimal_seq(limit as nat);
    if paginate {
        base + "&page="@ + decimal_seq(page as nat)
    } else {
        base
    }
}

/// The listing the multi-website scraper asks a store for.
pub fn listing_url(domain: &str, limit: u64, page: u64, paginate: bool) -> (r: String)
    ensures
        r@ == listing_url_spec(domain@, limit, page, paginate),
{
    let mut r = copy_str(domain);
    r.append("/products.json?limit=");
    push_decimal(&mut r, limit);
    if paginate {
        r.append("&page=");
        push_decimal(&mut r, page);
    }
    r
}

/// The multi-website scraper's product once it is read:
/// the canonical product with the HTML body kept as description and its
/// page URL under `domain`.
pub fn multi_product(raw: RawShopifyProduct, domain: &str) -> (p: ShopifyProduct)
    ensures
        canonical_core(p, raw),
        p.description@ == body_text(raw.body_html),
        p.url@ == product_url_spec(domain@, raw.handle@),
{
    let url = product_url(domain, raw.handle.as_str());
    build_canonical(raw, DescriptionCleaning::Keep, url)
}

/// The products kept for a scraped website: none
/// scraped gives none; else the pipeline's products, or the scraped ones
/// unchanged when the pipeline fails.
pub fn wrangle_site_products(pipeline: &DataWranglingPipeline, raw: Vec<ShopifyProduct>, domain: &str) -> (r: Vec<ShopifyProduct>)
    requires
        pipeline.validation_rules.required_fields@.len() <= 0x0fff_ffff_ffff_ffff,
    ensures
        raw@.len() == 0 ==> products_view(r@) == products_view(raw@),
        raw@.len() > 0 ==> exists|t: Seq<char>| #[trigger] pipeline_spec(*pipeline, products_view(raw@), domain@, t) == Some(products_view(r@))
            || (pipeline_spec(*pipeline, products_view(raw@), domain@, t) is None && products_view(r@) == products_view(raw@)),
{
    if raw.len() == 0 {
        return raw;
    }
    match pipeline.process_products(raw.as_slice(), domain) {
        Ok(products) => products,
        Err(_) => raw,
    }
}

} // verus!
