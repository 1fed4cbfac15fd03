//! The data-wrangling pipeline: validation, cleaning, enrichment and
//! deduplication in turn.
use vstd::prelude::*;
use crate::cleaning::{clean_all_spec, clean_products};
use crate::dedup::{deduplicate_products, dedup_state, lemma_dedup_state};
use crate::enrichment::{enrich_all_spec, enrich_products};
use crate::models::{ProductView, ShopifyProduct};
use crate::rules::{
    is_default_cleaning, is_default_deduplication, is_default_enrichment, is_default_validation,
    CleaningRules, DeduplicationRules, EnrichmentRules, MergeStrategy, ValidationError, ValidationRules,
};
use crate::validation::{lemma_valid_products_complete, products_view, validate_products, validate_spec, WranglingError};

verus! {

/// Counters of a pipeline run; scores and completeness in thousandths.
pub struct DataQualityMetrics {
    pub total_records: u64,
    pub valid_records: u64,
    pub invalid_records: u64,
    pub duplicate_records: u64,
    pub enriched_records: u64,
    pub cleaned_records: u64,
    pub processing_time_ms: u64,
    pub quality_score_milli: i64,
    /// Each field with the share of records that have it.
    pub field_completeness: Vec<(String, i64)>,
    pub validation_errors: Vec<ValidationError>,
}

/// All counters zero, no completeness figures, no errors.
pub open spec fn is_empty_metrics(r: DataQualityMetrics) -> bool {
    &&& r.total_records == 0 && r.valid_records == 0 && r.invalid_records == 0
    &&& r.duplicate_records == 0 && r.enriched_records == 0 && r.cleaned_records == 0
    &&& r.processing_time_ms == 0 && r.quality_score_milli == 0
    &&& r.field_completeness@.len() == 0
    &&& r.validation_errors@.len() == 0
}

impl Default for DataQualityMetrics {
    /// All counters zero, no completeness figures, no errors.
    fn default() -> (r: Self)
        ensures
            is_empty_metrics(r),
    {
        DataQualityMetrics {
            total_records: 0,
            valid_records: 0,
            invalid_records: 0,
            duplicate_records: 0,
            enriched_records: 0,
            cleaned_records: 0,
            processing_time_ms: 0,
            quality_score_milli: 0,
            field_completeness: Vec::new(),
            validation_errors: Vec::new(),
        }
    }
}

/// The two metrics hold the same figures and errors.
pub open spec fn same_metrics(a: DataQualityMetrics, b: DataQualityMetrics) -> bool {
    &&& a.total_records == b.total_records && a.valid_records == b.valid_records
    &&& a.invalid_records == b.invalid_records && a.duplicate_records == b.duplicate_records
    &&& a.enriched_records == b.enriched_records && a.cleaned_records == b.cleaned_records
    &&& a.processing_time_ms == b.processing_time_ms && a.quality_score_milli == b.quality_score_milli
    &&& a.field_completeness@ == b.field_completeness@
    &&& a.validation_errors@ == b.validation_errors@
}

impl Clone for DataQualityMetrics {
    fn clone(&self) -> (r: Self)
        ensures
            same_metrics(r, *self),
    {
        let mut field_completeness: Vec<(String, i64)> = Vec::new();
        let mut i: usize = 0;
        while i < self.field_completeness.len()
            invariant
                i <= self.field_completeness@.len(),
                field_completeness@ == self.field_completeness@.take(i as int),
            decreases self.field_completeness@.len() - i,
        {
            let e = (self.field_completeness[i].0.clone(), self.field_completeness[i].1);
            field_completeness.push(e);
            proof {
                assert(self.field_completeness@.take(i + 1) == self.field_completeness@.take(i as int).push(self.field_completeness@[i as int]));
            }
            i += 1;
        }
        let mut validation_errors: Vec<ValidationError> = Vec::new();
        let mut k: usize = 0;
        while k < self.validation_errors.len()
            invariant
                k <= self.validation_errors@.len(),
                validation_errors@ == self.validation_errors@.take(k as int),
            decreases self.validation_errors@.len() - k,
        {
            validation_errors.push(self.validation_errors[k].clone());
            proof {
                assert(self.validation_errors@.take(k + 1) == self.validation_errors@.take(k as int).push(self.validation_errors@[k as int]));
            }
            k += 1;
        }
        proof {
            assert(self.field_completeness@.take(self.field_completeness@.len() as int) == self.field_completeness@);
            assert(self.validation_errors@.take(self.validation_errors@.len() as int) == self.validation_errors@);
        }
        DataQualityMetrics {
            total_records: self.total_records,
            valid_records: self.valid_records,
            invalid_records: self.invalid_records,
            duplicate_records: self.duplicate_records,
            enriched_records: self.enriched_records,
            cleaned_records: self.cleaned_records,
            processing_time_ms: self.processing_time_ms,
            quality_score_milli: self.quality_score_milli,
            field_completeness,
            validation_errors,
        }
    }
}

/// The rules of each stage, and the metrics of the last run.
pub struct DataWranglingPipeline {
    pub validation_rules: ValidationRules,
    pub cleaning_rules: CleaningRules,
    pub enrichment_rules: EnrichmentRules,
    pub deduplication_rules: DeduplicationRules,
    pub quality_metrics: DataQualityMetrics,
}

/// The default rules of each stage, and empty metrics.
pub open spec fn is_default_pipeline(p: DataWranglingPipeline) -> bool {
    &&& is_default_validation(p.validation_rules)
    &&& is_default_cleaning(p.cleaning_rules)
    &&& is_default_enrichment(p.enrichment_rules)
    &&& is_default_deduplication(p.deduplication_rules)
    &&& is_empty_metrics(p.quality_metrics)
}

impl Default for DataWranglingPipeline {
    /// The pipeline of `new`.
    fn default() -> (r: Self)
        ensures
            is_default_pipeline(r),
    {
        DataWranglingPipeline::new()
    }
}

impl Clone for DataWranglingPipeline {
    /// The same rules and metrics; custom validators and a custom merger
    /// cannot be copied: the copies reject every value and keep the first
    /// product.
    fn clone(&self) -> (r: Self)
        ensures
            r.validation_rules.required_fields@ == self.validation_rules.required_fields@,
            r.validation_rules.field_formats@ == self.validation_rules.field_formats@,
            r.validation_rules.field_ranges@ == self.validation_rules.field_ranges@,
            r.validation_rules.unique_fields@ == self.validation_rules.unique_fields@,
            r.validation_rules.custom_validators@.len() == self.validation_rules.custom_validators@.len(),
            forall|i: int| 0 <= i < r.validation_rules.custom_validators@.len() ==> crate::rules::validator_copy(
                #[trigger] r.validation_rules.custom_validators@[i],
                self.validation_rules.custom_validators@[i],
            ),
            r.cleaning_rules == self.cleaning_rules,
            r.enrichment_rules == self.enrichment_rules,
            r.deduplication_rules.primary_key_fields@ == self.deduplication_rules.primary_key_fields@,
            r.deduplication_rules.similarity_threshold_milli == self.deduplication_rules.similarity_threshold_milli,
            r.deduplication_rules.conflict_resolution == self.deduplication_rules.conflict_resolution,
            match self.deduplication_rules.merge_strategy {
                MergeStrategy::KeepFirst => r.deduplication_rules.merge_strategy is KeepFirst,
                MergeStrategy::KeepLast => r.deduplication_rules.merge_strategy is KeepLast,
                MergeStrategy::MergeFields => r.deduplication_rules.merge_strategy is MergeFields,
                MergeStrategy::Custom(_) => r.deduplication_rules.merge_strategy is KeepFirst,
            },
            same_metrics(r.quality_metrics, self.quality_metrics),
    {
        DataWranglingPipeline {
            validation_rules: self.validation_rules.clone(),
            cleaning_rules: self.cleaning_rules,
            enrichment_rules: self.enrichment_rules,
            deduplication_rules: self.deduplication_rules.clone(),
            quality_metrics: self.quality_metrics.clone(),
        }
    }
}

/// What the pipeline gives for `raw` from `domain` at `scraped_at`: the
/// valid products, cleaned, enriched and deduplicated; `None` when a
/// pattern of the rules is refused.
pub open spec fn pipeline_spec(
    pipeline: DataWranglingPipeline,
    raw: Seq<ProductView>,
    domain: Seq<char>,
    scraped_at: Seq<char>,
) -> Option<Seq<ProductView>> {
    match validate_spec(raw, pipeline.validation_rules) {
        None => None,
        Some((valid, _)) => match clean_all_spec(valid, pipeline.cleaning_rules) {
            None => None,
            Some(cleaned) => {
                let enriched = enrich_all_spec(
                    cleaned,
                    pipeline.enrichment_rules,
                    pipeline.validation_rules.required_fields@,
                    domain,
                    scraped_at,
                );
                Some(dedup_state(enriched, pipeline.deduplication_rules).1)
            },
        },
    }
}

/// Cleaning keeps the number of products.
pub proof fn lemma_clean_all_len(ps: Seq<ProductView>, rules: CleaningRules)
    ensures
        clean_all_spec(ps, rules) matches Some(out) ==> out.len() == ps.len(),
    decreases ps.len(),
{
    if ps.len() > 0 {
        lemma_clean_all_len(ps.drop_last(), rules);
    }
}

/// The pipeline never gives more products than it was given.
pub proof fn lemma_pipeline_shrinks(
    pipeline: DataWranglingPipeline,
    raw: Seq<ProductView>,
    domain: Seq<char>,
    scraped_at: Seq<char>,
)
    ensures
        pipeline_spec(pipeline, raw, domain, scraped_at) matches Some(out) ==> out.len() <= raw.len(),
{
    if let Some((valid, _)) = validate_spec(raw, pipeline.validation_rules) {
        lemma_valid_products_complete(raw, pipeline.validation_rules);
        lemma_clean_all_len(valid, pipeline.cleaning_rules);
        if let Some(cleaned) = clean_all_spec(valid, pipeline.cleaning_rules) {
            let enriched = enrich_all_spec(
                cleaned,
                pipeline.enrichment_rules,
                pipeline.validation_rules.required_fields@,
                domain,
                scraped_at,
            );
            lemma_dedup_state(enriched, pipeline.deduplication_rules);
        }
    }
}

/// The current time in RFC 3339 form, by `chrono::Utc::now().to_rfc3339()`.
/// Nothing is stated of it: it is the time.
#[verifier::external_body]
fn utc_now_rfc3339() -> (r: String) {
    chrono::Utc::now().to_rfc3339()
}

impl DataWranglingPipeline {
    /// A pipeline with the default rules of each stage and empty metrics.
    pub fn new() -> (r: Self)
        ensures
            is_default_pipeline(r),
    {
        DataWranglingPipeline {
            validation_rules: ValidationRules::default(),
            cleaning_rules: CleaningRules::default(),
            enrichment_rules: EnrichmentRules::default(),
            deduplication_rules: DeduplicationRules::default(),
            quality_metrics: DataQualityMetrics::default(),
        }
    }

    /// The pipeline run on `raw` from `domain`, with `scraped_at` as the
    /// scrape time written into each product.
    pub fn process_products_at(&self, raw: &[ShopifyProduct], domain: &str, scraped_at: &str) -> (r: Result<Vec<ShopifyProduct>, WranglingError>)
        requires
            self.validation_rules.required_fields@.len() <= 0x0fff_ffff_ffff_ffff,
        ensures
            match r {
                Ok(out) => pipeline_spec(*self, products_view(raw@), domain@, scraped_at@) == Some(products_view(out@))
                    && out@.len() <= raw@.len(),
                Err(_) => pipeline_spec(*self, products_view(raw@), domain@, scraped_at@) is None,
            },
    {
        proof {
            lemma_pipeline_shrinks(*self, products_view(raw@), domain@, scraped_at@);
        }
        let (valid, _errors) = match validate_products(raw, &self.validation_rules) {
            Ok(v) => v,
            Err(e) => return Err(e),
        };
        let cleaned = match clean_products(valid, &self.cleaning_rules) {
            Ok(c) => c,
            Err(e) => return Err(e),
        };
        let enriched = enrich_products(cleaned, &self.enrichment_rules, &self.validation_rules, domain, scraped_at);
        let out = deduplicate_products(enriched, &self.deduplication_rules);
        Ok(out)
    }

    /// `process_products`: the pipeline run at the current time.
    pub fn process_products(&self, raw: &[ShopifyProduct], domain: &str) -> (r: Result<Vec<ShopifyProduct>, WranglingError>)
        requires
            self.validation_rules.required_fields@.len() <= 0x0fff_ffff_ffff_ffff,
        ensures
            exists|t: Seq<char>| match r {
                Ok(out) => pipeline_spec(*self, products_view(raw@), domain@, t) == Some(products_view(out@)),
                Err(_) => pipeline_spec(*self, products_view(raw@), domain@, t) is None,
            },
            r matches Ok(out) ==> out@.len() <= raw@.len(),
    {
        let now = utc_now_rfc3339();
        self.process_products_at(raw, domain, now.as_str())
    }
}

} // verus!
