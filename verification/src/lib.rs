//! Verified core of a Shopify product scraper: canonical product data and
//! the transforms from Shopify's API, store domains and product discovery,
//! the retry decisions of the fetchers, the data-wrangling pipeline, the
//! scrapers' settings, and the actor's dataset locations.
pub mod vecs;
pub mod text;
pub mod numfmt;
pub mod models;
pub mod fieldmap;
pub mod transform;
pub mod domain;
pub mod patterns;
pub mod discovery;
pub mod retry;
pub mod rules;
pub mod validation;
pub mod cleaning;
pub mod enrichment;
pub mod merge;
pub mod dedup;
pub mod pipeline;
pub mod schema;
pub mod output;
pub mod scraper;
pub mod lightning;
pub mod multi_website;
pub mod sites;
pub mod dataset;
pub mod decimal;
pub mod binary64;
