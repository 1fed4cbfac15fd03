//! The rules of the data-wrangling pipeline and their defaults, and the
//! named fields of a product that the rules refer to.
use vstd::prelude::*;
use crate::models::{texts_of, ProductView, ShopifyProduct};
use crate::numfmt::{cents_text, format_cents};
use crate::text::{copy_str, str_eq};

verus! {

/// Kinds of validation failure.
#[derive(Debug, Clone, Copy, PartialEq, Eq, Structural)]
pub enum ValidationErrorType {
    MissingRequired,
    InvalidFormat,
    OutOfRange,
    DuplicateValue,
    InvalidUrl,
    InvalidEmail,
    InvalidPrice,
    InvalidDate,
}

/// The name of a validation failure kind.
pub open spec fn error_type_name(t: ValidationErrorType) -> Seq<char> {
    match t {
        ValidationErrorType::MissingRequired => "MissingRequired"@,
        ValidationErrorType::InvalidFormat => "InvalidFormat"@,
        ValidationErrorType::OutOfRange => "OutOfRange"@,
        ValidationErrorType::DuplicateValue => "DuplicateValue"@,
        ValidationErrorType::InvalidUrl => "InvalidUrl"@,
        ValidationErrorType::InvalidEmail => "InvalidEmail"@,
        ValidationErrorType::InvalidPrice => "InvalidPrice"@,
        ValidationErrorType::InvalidDate => "InvalidDate"@,
    }
}

impl ValidationErrorType {
    /// The text the kind is displayed as: its variant's name.
    pub fn to_text(&self) -> (s: String)
        ensures
            s@ == error_type_name(*self),
    {
        match self {
            ValidationErrorType::MissingRequired => copy_str("MissingRequired"),
            ValidationErrorType::InvalidFormat => copy_str("InvalidFormat"),
            ValidationErrorType::OutOfRange => copy_str("OutOfRange"),
            ValidationErrorType::DuplicateValue => copy_str("DuplicateValue"),
            ValidationErrorType::InvalidUrl => copy_str("InvalidUrl"),
            ValidationErrorType::InvalidEmail => copy_str("InvalidEmail"),
            ValidationErrorType::InvalidPrice => copy_str("InvalidPrice"),
            ValidationErrorType::InvalidDate => copy_str("InvalidDate"),
        }
    }
}

/// One validation failure of one product.
#[derive(Debug)]
pub struct ValidationError {
    pub field: String,
    pub error_type: ValidationErrorType,
    pub message: String,
    pub record_id: String,
}

impl Clone for ValidationError {
    fn clone(&self) -> (r: Self)
        ensures
            r == *self,
    {
        ValidationError {
            field: self.field.clone(),
            error_type: self.error_type,
            message: self.message.clone(),
            record_id: self.record_id.clone(),
        }
    }
}

/// A format a field's text must match: a regular expression's source.
#[derive(Debug)]
pub struct FieldFormat {
    pub pattern: String,
    pub error_message: String,
}

impl Clone for FieldFormat {
    fn clone(&self) -> (r: Self)
        ensures
            r == *self,
    {
        FieldFormat { pattern: self.pattern.clone(), error_message: self.error_message.clone() }
    }
}

/// Bounds for a field's numeric value, in hundredths.
#[derive(Debug)]
pub struct FieldRange {
    pub min_value: Option<i64>,
    pub max_value: Option<i64>,
    pub error_message: String,
}

impl Clone for FieldRange {
    fn clone(&self) -> (r: Self)
        ensures
            r == *self,
    {
        FieldRange { min_value: self.min_value, max_value: self.max_value, error_message: self.error_message.clone() }
    }
}

/// A check a user supplies for the text of one field.
pub trait FieldCheck: Send + Sync {
    /// Whether the check accepts `value`.
    spec fn accepts(&self, value: Seq<char>) -> bool;

    /// Runs the check.
    fn check(&self, value: &str) -> (b: bool)
        ensures
            b == self.accepts(value@),
    ;
}

/// The check that accepts nothing: what a copied custom validator holds.
pub struct RejectAll;

impl FieldCheck for RejectAll {
    open spec fn accepts(&self, value: Seq<char>) -> bool {
        false
    }

    fn check(&self, value: &str) -> (b: bool) {
        false
    }
}

/// A user-supplied check on one field.
pub struct CustomValidator {
    pub field: String,
    pub validator: Box<dyn FieldCheck>,
    pub error_message: String,
}

impl Clone for CustomValidator {
    /// The copy keeps the field and message but rejects every value.
    fn clone(&self) -> (r: Self)
        ensures
            r.field == self.field,
            r.error_message == self.error_message,
            forall|v: Seq<char>| !r.validator.accepts(v),
    {
        CustomValidator {
            field: self.field.clone(),
            validator: Box::new(RejectAll),
            error_message: self.error_message.clone(),
        }
    }
}

/// The checks a product must pass.
pub struct ValidationRules {
    pub required_fields: Vec<String>,
    /// Each field with the format its text must match.
    pub field_formats: Vec<(String, FieldFormat)>,
    /// Each field with the bounds of its value.
    pub field_ranges: Vec<(String, FieldRange)>,
    pub unique_fields: Vec<String>,
    pub custom_validators: Vec<CustomValidator>,
}

/// A copy of a list of named formats.
fn clone_formats(v: &Vec<(String, FieldFormat)>) -> (r: Vec<(String, FieldFormat)>)
    ensures
        r@ == v@,
{
    let mut r: Vec<(String, FieldFormat)> = Vec::new();
    let mut i: usize = 0;
    while i < v.len()
        invariant
            i <= v.len(),
            r@ == v@.take(i as int),
        decreases v.len() - i,
    {
        let e = (v[i].0.clone(), v[i].1.clone());
        r.push(e);
        proof {
            assert(v@.take(i + 1) == v@.take(i as int).push(v@[i as int]));
        }
        i += 1;
    }
    proof {
        assert(v@.take(v.len() as int) == v@);
    }
    r
}

/// A copy of a list of named ranges.
fn clone_ranges(v: &Vec<(String, FieldRange)>) -> (r: Vec<(String, FieldRange)>)
    ensures
        r@ == v@,
{
    let mut r: Vec<(String, FieldRange)> = Vec::new();
    let mut i: usize = 0;
    while i < v.len()
        invariant
            i <= v.len(),
            r@ == v@.take(i as int),
        decreases v.len() - i,
    {
        let e = (v[i].0.clone(), v[i].1.clone());
        r.push(e);
        proof {
            assert(v@.take(i + 1) == v@.take(i as int).push(v@[i as int]));
        }
        i += 1;
    }
    proof {
        assert(v@.take(v.len() as int) == v@);
    }
    r
}

/// `c` is a copy of the custom validator `v`: same field and message, and
/// a check that rejects everything.
pub open spec fn validator_copy(c: CustomValidator, v: CustomValidator) -> bool {
    &&& c.field == v.field
    &&& c.error_message == v.error_message
    &&& forall|t: Seq<char>| !c.validator.accepts(t)
}

/// Copies of custom validators.
fn clone_validators(v: &Vec<CustomValidator>) -> (r: Vec<CustomValidator>)
    ensures
        r@.len() == v@.len(),
        forall|i: int| 0 <= i < r@.len() ==> validator_copy(#[trigger] r@[i], v@[i]),
{
    let mut r: Vec<CustomValidator> = Vec::new();
    let mut i: usize = 0;
    while i < v.len()
        invariant
            i <= v.len(),
            r@.len() == i,
            forall|j: int| 0 <= j < i ==> validator_copy(#[trigger] r@[j], v@[j]),
        decreases v.len() - i,
    {
        r.push(v[i].clone());
        i += 1;
    }
    r
}

impl Clone for ValidationRules {
    /// The same rules, except that the copied custom validators reject
    /// every value.
    fn clone(&self) -> (r: Self)
        ensures
            r.required_fields@ == self.required_fields@,
            r.field_formats@ == self.field_formats@,
            r.field_ranges@ == self.field_ranges@,
            r.unique_fields@ == self.unique_fields@,
            r.custom_validators@.len() == self.custom_validators@.len(),
            forall|i: int| 0 <= i < r.custom_validators@.len() ==> validator_copy(#[trigger] r.custom_validators@[i], self.custom_validators@[i]),
    {
        ValidationRules {
            required_fields: crate::models::clone_strings(&self.required_fields),
            field_formats: clone_formats(&self.field_formats),
            field_ranges: clone_ranges(&self.field_ranges),
            unique_fields: crate::models::clone_strings(&self.unique_fields),
            custom_validators: clone_validators(&self.custom_validators),
        }
    }
}

/// Which cleaning steps run.
#[derive(Debug, Clone, Copy)]
pub struct CleaningRules {
    pub normalize_text: bool,
    pub remove_html_tags: bool,
    pub standardize_currency: bool,
    pub standardize_dates: bool,
    pub trim_whitespace: bool,
    pub remove_duplicates: bool,
    pub fix_urls: bool,
}

/// Which enrichment steps run.
#[derive(Debug, Clone, Copy)]
pub struct EnrichmentRules {
    pub add_timestamps: bool,
    pub add_source_info: bool,
    pub add_quality_scores: bool,
    pub add_computed_fields: bool,
    pub geocode_addresses: bool,
    pub categorize_products: bool,
}

/// How two products with the same key are combined.
pub trait ProductMerger: Send + Sync {
    /// The product made of `existing` and `new`.
    spec fn merged(&self, existing: ProductView, new: ProductView) -> ProductView;

    /// Combines two products.
    fn merge(&self, existing: &ShopifyProduct, new: &ShopifyProduct) -> (r: ShopifyProduct)
        ensures
            r@ == self.merged(existing@, new@),
    ;
}

/// What deduplication keeps of products with the same key.
pub enum MergeStrategy {
    KeepFirst,
    KeepLast,
    MergeFields,
    Custom(Box<dyn ProductMerger>),
}

impl MergeStrategy {
    /// The strategy's name; a custom merger is `Custom`.
    pub fn to_text(&self) -> (s: String)
        ensures
            s@ == match *self {
                MergeStrategy::KeepFirst => "KeepFirst"@,
                MergeStrategy::KeepLast => "KeepLast"@,
                MergeStrategy::MergeFields => "MergeFields"@,
                MergeStrategy::Custom(_) => "Custom"@,
            },
    {
        match self {
            MergeStrategy::KeepFirst => copy_str("KeepFirst"),
            MergeStrategy::KeepLast => copy_str("KeepLast"),
            MergeStrategy::MergeFields => copy_str("MergeFields"),
            MergeStrategy::Custom(_) => copy_str("Custom"),
        }
    }
}

impl Clone for MergeStrategy {
    /// The same strategy; a custom merger cannot be copied, and its copy
    /// keeps the first product.
    fn clone(&self) -> (r: Self)
        ensures
            match *self {
                MergeStrategy::KeepFirst => r is KeepFirst,
                MergeStrategy::KeepLast => r is KeepLast,
                MergeStrategy::MergeFields => r is MergeFields,
                MergeStrategy::Custom(_) => r is KeepFirst,
            },
    {
        match self {
            MergeStrategy::KeepFirst => MergeStrategy::KeepFirst,
            MergeStrategy::KeepLast => MergeStrategy::KeepLast,
            MergeStrategy::MergeFields => MergeStrategy::MergeFields,
            MergeStrategy::Custom(_) => MergeStrategy::KeepFirst,
        }
    }
}

/// How conflicting values are meant to be resolved.
#[derive(Debug, Clone, Copy, PartialEq, Eq, Structural)]
pub enum ConflictResolution {
    PreferNewer,
    PreferHigherPrice,
    PreferMoreComplete,
    ManualReview,
}

/// How duplicates are found and combined; the similarity threshold in
/// thousandths.
pub struct DeduplicationRules {
    pub primary_key_fields: Vec<String>,
    pub similarity_threshold_milli: i64,
    pub merge_strategy: MergeStrategy,
    pub conflict_resolution: ConflictResolution,
}

impl Clone for DeduplicationRules {
    /// The same rules; a custom merger is copied as keeping the first.
    fn clone(&self) -> (r: Self)
        ensures
            r.primary_key_fields@ == self.primary_key_fields@,
            r.similarity_threshold_milli == self.similarity_threshold_milli,
            r.conflict_resolution == self.conflict_resolution,
            match self.merge_strategy {
                MergeStrategy::KeepFirst => r.merge_strategy is KeepFirst,
                MergeStrategy::KeepLast => r.merge_strategy is KeepLast,
                MergeStrategy::MergeFields => r.merge_strategy is MergeFields,
                MergeStrategy::Custom(_) => r.merge_strategy is KeepFirst,
            },
    {
        DeduplicationRules {
            primary_key_fields: crate::models::clone_strings(&self.primary_key_fields),
            similarity_threshold_milli: self.similarity_threshold_milli,
            merge_strategy: self.merge_strategy.clone(),
            conflict_resolution: self.conflict_resolution,
        }
    }
}

/// The text of a named field of a product: `id`, `title`, `description`,
/// `price` (as printed), `currency`, `vendor`, `product_type` or `url`;
/// `None` for any other name.
pub open spec fn field_value_spec(p: ProductView, field: Seq<char>) -> Option<Seq<char>> {
    if field == "id"@ {
        Some(p.id)
    } else if field == "title"@ {
        Some(p.title)
    } else if field == "description"@ {
        Some(p.description)
    } else if field == "price"@ {
        Some(cents_text(p.price_cents as int))
    } else if field == "currency"@ {
        Some(p.currency)
    } else if field == "vendor"@ {
        Some(p.vendor)
    } else if field == "product_type"@ {
        Some(p.product_type)
    } else if field == "url"@ {
        Some(p.url)
    } else {
        None
    }
}

/// Whether a named field is present: a nonempty text, or for `price` a
/// positive amount; no other name is present.
pub open spec fn field_present_spec(p: ProductView, field: Seq<char>) -> bool {
    if field == "id"@ {
        p.id.len() > 0
    } else if field == "title"@ {
        p.title.len() > 0
    } else if field == "description"@ {
        p.description.len() > 0
    } else if field == "price"@ {
        p.price_cents > 0
    } else if field == "currency"@ {
        p.currency.len() > 0
    } else if field == "vendor"@ {
        p.vendor.len() > 0
    } else if field == "product_type"@ {
        p.product_type.len() > 0
    } else if field == "url"@ {
        p.url.len() > 0
    } else {
        false
    }
}

/// The text of a named field of a product.
pub fn field_value(p: &ShopifyProduct, field: &str) -> (r: Option<String>)
    ensures
        match r {
            Some(v) => field_value_spec(p@, field@) == Some(v@),
            None => field_value_spec(p@, field@) is None,
        },
{
    if str_eq(field, "id") {
        Some(p.id.clone())
    } else if str_eq(field, "title") {
        Some(p.title.clone())
    } else if str_eq(field, "description") {
        Some(p.description.clone())
    } else if str_eq(field, "price") {
        Some(format_cents(p.price_cents))
    } else if str_eq(field, "currency") {
        Some(p.currency.clone())
    } else if str_eq(field, "vendor") {
        Some(p.vendor.clone())
    } else if str_eq(field, "product_type") {
        Some(p.product_type.clone())
    } else if str_eq(field, "url") {
        Some(p.url.clone())
    } else {
        None
    }
}

/// Whether a named field of a product is present.
pub fn field_present(p: &ShopifyProduct, field: &str) -> (b: bool)
    ensures
        b == field_present_spec(p@, field@),
{
    if str_eq(field, "id") {
        !p.id.as_str().is_empty()
    } else if str_eq(field, "title") {
        !p.title.as_str().is_empty()
    } else if str_eq(field, "description") {
        !p.description.as_str().is_empty()
    } else if str_eq(field, "price") {
        p.price_cents > 0
    } else if str_eq(field, "currency") {
        !p.currency.as_str().is_empty()
    } else if str_eq(field, "vendor") {
        !p.vendor.as_str().is_empty()
    } else if str_eq(field, "product_type") {
        !p.product_type.as_str().is_empty()
    } else if str_eq(field, "url") {
        !p.url.as_str().is_empty()
    } else {
        false
    }
}


/// A two-string list.
fn two(a: &str, b: &str) -> (r: Vec<String>)
    ensures
        texts_of(r@) == seq![a@, b@],
{
    let r = vec![copy_str(a), copy_str(b)];
    proof {
        assert(texts_of(r@) =~= seq![a@, b@]);
    }
    r
}

/// The default validation rules: id, title, price and currency required;
/// the URL must start with `http://` or `https://` and the price must read
/// as digits with optionally two decimals; the price must lie between 0
/// and 100000; the id is unique; no custom validators.
pub open spec fn is_default_validation(r: ValidationRules) -> bool {
    &&& texts_of(r.required_fields@) == seq!["id"@, "title"@, "price"@, "currency"@]
    &&& r.field_formats@.len() == 2
    &&& r.field_formats@[0].0@ == "url"@
    &&& r.field_formats@[0].1.pattern@ == "^https?://"@
    &&& r.field_formats@[0].1.error_message@ == "URL must start with http:// or https://"@
    &&& r.field_formats@[1].0@ == "price"@
    &&& r.field_formats@[1].1.pattern@ == "^\\d+(\\.\\d{2})?$"@
    &&& r.field_formats@[1].1.error_message@ == "Price must be a valid decimal number"@
    &&& r.field_ranges@.len() == 1
    &&& r.field_ranges@[0].0@ == "price"@
    &&& r.field_ranges@[0].1.min_value == Some(0i64)
    &&& r.field_ranges@[0].1.max_value == Some(10_000_000i64)
    &&& r.field_ranges@[0].1.error_message@ == "Price must be between 0 and 100000"@
    &&& texts_of(r.unique_fields@) == seq!["id"@]
    &&& r.custom_validators@.len() == 0
}

/// Every cleaning step on.
pub open spec fn is_default_cleaning(r: CleaningRules) -> bool {
    r.normalize_text && r.remove_html_tags && r.standardize_currency && r.standardize_dates
        && r.trim_whitespace && r.remove_duplicates && r.fix_urls
}

/// Every enrichment step on except geocoding.
pub open spec fn is_default_enrichment(r: EnrichmentRules) -> bool {
    r.add_timestamps && r.add_source_info && r.add_quality_scores && r.add_computed_fields
        && !r.geocode_addresses && r.categorize_products
}

/// Products are duplicates when id and title agree; duplicates are merged
/// field by field, preferring the more complete; the similarity threshold
/// is 0.8.
pub open spec fn is_default_deduplication(r: DeduplicationRules) -> bool {
    &&& texts_of(r.primary_key_fields@) == seq!["id"@, "title"@]
    &&& r.similarity_threshold_milli == 800
    &&& r.merge_strategy is MergeFields
    &&& r.conflict_resolution == ConflictResolution::PreferMoreComplete
}

impl Default for ValidationRules {
    /// The default validation rules.
    fn default() -> (r: Self)
        ensures
            is_default_validation(r),
    {
        let required_fields = vec![copy_str("id"), copy_str("title"), copy_str("price"), copy_str("currency")];
        proof {
            assert(texts_of(required_fields@) =~= seq!["id"@, "title"@, "price"@, "currency"@]);
        }
        let url_format = FieldFormat {
            pattern: copy_str("^https?://"),
            error_message: copy_str("URL must start with http:// or https://"),
        };
        let price_format = FieldFormat {
            pattern: copy_str("^\\d+(\\.\\d{2})?$"),
            error_message: copy_str("Price must be a valid decimal number"),
        };
        let field_formats = vec![(copy_str("url"), url_format), (copy_str("price"), price_format)];
        let price_range = FieldRange {
            min_value: Some(0),
            max_value: Some(10_000_000),
            error_message: copy_str("Price must be between 0 and 100000"),
        };
        let field_ranges = vec![(copy_str("price"), price_range)];
        let unique_fields = vec![copy_str("id")];
        proof {
            assert(texts_of(unique_fields@) =~= seq!["id"@]);
        }
        ValidationRules {
            required_fields,
            field_formats,
            field_ranges,
            unique_fields,
            custom_validators: Vec::new(),
        }
    }
}

impl Default for CleaningRules {
    /// Every cleaning step on.
    fn default() -> (r: Self)
        ensures
            is_default_cleaning(r),
    {
        CleaningRules {
            normalize_text: true,
            remove_html_tags: true,
            standardize_currency: true,
            standardize_dates: true,
            trim_whitespace: true,
            remove_duplicates: true,
            fix_urls: true,
        }
    }
}

impl Default for EnrichmentRules {
    /// Every enrichment step on except geocoding.
    fn default() -> (r: Self)
        ensures
            is_default_enrichment(r),
    {
        EnrichmentRules {
            add_timestamps: true,
            add_source_info: true,
            add_quality_scores: true,
            add_computed_fields: true,
            geocode_addresses: false,
            categorize_products: true,
        }
    }
}

impl Default for DeduplicationRules {
    /// The default deduplication rules.
    fn default() -> (r: Self)
        ensures
            is_default_deduplication(r),
    {
        DeduplicationRules {
            primary_key_fields: two("id", "title"),
            similarity_threshold_milli: 800,
            merge_strategy: MergeStrategy::MergeFields,
            conflict_resolution: ConflictResolution::PreferMoreComplete,
        }
    }
}

} // verus!
