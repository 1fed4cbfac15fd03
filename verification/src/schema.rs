//! The actor's input: the store, what to scrape, filters and settings,
//! with the defaults that apply when a field is left out.
use vstd::prelude::*;

verus! {

/// The value of a flag that is on unless given.
pub fn default_true() -> (b: bool)
    ensures
        b,
{
    true
}

/// The value of a flag that is off unless given.
pub fn default_false() -> (b: bool)
    ensures
        !b,
{
    false
}

/// The number of products scraped unless given.
pub fn default_max_products() -> (n: usize)
    ensures
        n == 1000,
{
    1000
}

/// The number of concurrent requests unless given.
pub fn default_concurrent() -> (n: usize)
    ensures
        n == 100,
{
    100
}

/// The request timeout in seconds unless given.
pub fn default_timeout() -> (n: u64)
    ensures
        n == 30,
{
    30
}

/// The number of retries unless given.
pub fn default_max_retries() -> (n: u32)
    ensures
        n == 3,
{
    3
}

/// The formats a run can write its products in.
#[derive(Debug, Clone, Copy, PartialEq, Eq, Structural)]
pub enum OutputFormat {
    Json,
    JsonL,
    Csv,
    Xml,
    Parquet,
}

impl Default for OutputFormat {
    /// JSON.
    fn default() -> (r: Self)
        ensures
            r == OutputFormat::Json,
    {
        OutputFormat::Json
    }
}

/// Which products to keep; prices in cents.
#[derive(Debug, Clone)]
pub struct ProductFilters {
    pub min_price_cents: Option<i64>,
    pub max_price_cents: Option<i64>,
    pub currency: Option<String>,
    pub vendors: Vec<String>,
    pub product_types: Vec<String>,
    /// Products with any of these tags.
    pub tags_any: Vec<String>,
    pub availability: Option<bool>,
    /// Text searched in the title and description.
    pub search_query: Option<String>,
}

impl Default for ProductFilters {
    /// No filter set.
    fn default() -> (r: Self)
        ensures
            r.min_price_cents is None && r.max_price_cents is None && r.currency is None,
            r.vendors@.len() == 0 && r.product_types@.len() == 0 && r.tags_any@.len() == 0,
            r.availability is None && r.search_query is None,
    {
        ProductFilters {
            min_price_cents: None,
            max_price_cents: None,
            currency: None,
            vendors: Vec::new(),
            product_types: Vec::new(),
            tags_any: Vec::new(),
            availability: None,
            search_query: None,
        }
    }
}

/// Which parts of a product are extracted.
#[derive(Debug, Clone, Copy, PartialEq, Eq, Structural)]
pub struct ExtractionOptions {
    pub include_images: bool,
    pub include_variants: bool,
    pub include_custom_fields: bool,
}

impl Default for ExtractionOptions {
    /// Images and variants, no custom fields.
    fn default() -> (r: Self)
        ensures
            r.include_images && r.include_variants && !r.include_custom_fields,
    {
        ExtractionOptions {
            include_images: default_true(),
            include_variants: default_true(),
            include_custom_fields: default_false(),
        }
    }
}

/// Connection and retry settings.
#[derive(Debug, Clone, Copy, PartialEq, Eq, Structural)]
pub struct PerformanceSettings {
    pub enable_connection_pooling: bool,
    pub enable_compression: bool,
    pub enable_retries: bool,
    pub max_retries: u32,
}

impl Default for PerformanceSettings {
    /// Pooling, compression and retries on; three retries.
    fn default() -> (r: Self)
        ensures
            r.enable_connection_pooling && r.enable_compression && r.enable_retries,
            r.max_retries == 3,
    {
        PerformanceSettings {
            enable_connection_pooling: default_true(),
            enable_compression: default_true(),
            enable_retries: default_true(),
            max_retries: default_max_retries(),
        }
    }
}

/// What a run is asked to do.
#[derive(Debug, Clone)]
pub struct ScraperInput {
    /// The store's domain.
    pub domain: String,
    /// Products to scrape by handle.
    pub product_handles: Vec<String>,
    pub auto_discover: bool,
    pub max_products: usize,
    pub max_concurrent: usize,
    pub timeout_seconds: u64,
    pub output_format: OutputFormat,
    pub filters: ProductFilters,
    pub extraction: ExtractionOptions,
    pub performance: PerformanceSettings,
}

impl Default for ScraperInput {
    /// No domain or handles; discovery on; at most 1000 products, 100
    /// concurrent requests, 30 s timeout; JSON output; default filters,
    /// extraction and performance settings.
    fn default() -> (r: Self)
        ensures
            r.domain@.len() == 0,
            r.product_handles@.len() == 0,
            r.auto_discover,
            r.max_products == 1000,
            r.max_concurrent == 100,
            r.timeout_seconds == 30,
            r.output_format == OutputFormat::Json,
            r.filters.min_price_cents is None && r.filters.max_price_cents is None,
            r.filters.currency is None && r.filters.availability is None && r.filters.search_query is None,
            r.filters.vendors@.len() == 0 && r.filters.product_types@.len() == 0 && r.filters.tags_any@.len() == 0,
            r.extraction.include_images && r.extraction.include_variants && !r.extraction.include_custom_fields,
            r.performance.enable_connection_pooling && r.performance.enable_compression,
            r.performance.enable_retries && r.performance.max_retries == 3,
    {
        ScraperInput {
            domain: String::new(),
            product_handles: Vec::new(),
            auto_discover: true,
            max_products: 1000,
            max_concurrent: 100,
            timeout_seconds: 30,
            output_format: OutputFormat::Json,
            filters: ProductFilters::default(),
            extraction: ExtractionOptions::default(),
            performance: PerformanceSettings::default(),
        }
    }
}

/// The input of a run and the settings the scraper derived from it.
#[derive(Debug, Clone)]
pub struct ScraperConfig {
    pub input: ScraperInput,
    pub user_agent: String,
    /// Milliseconds between requests to one domain.
    pub rate_limit_delay: u64,
    pub max_redirects: usize,
}

} // verus!
