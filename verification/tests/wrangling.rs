use shopify_scraper::cleaning::{clean_product, clean_tags, clean_url, remove_html_tags, standardize_currency};
use shopify_scraper::dedup::{dedup_key, deduplicate_products};
use shopify_scraper::enrichment::{categorize_price, completeness_score, enrich_product};
use shopify_scraper::fieldmap::FieldMap;
use shopify_scraper::merge::{merge_products, sorted_unique_tags, text_less};
use shopify_scraper::models::{ProductImage, ProductView, ShopifyProduct, Timestamp};
use shopify_scraper::pipeline::{DataQualityMetrics, DataWranglingPipeline};
use shopify_scraper::rules::{
    field_present, field_value, CleaningRules, ConflictResolution, CustomValidator, DeduplicationRules,
    EnrichmentRules, FieldCheck, FieldFormat, FieldRange, MergeStrategy, RejectAll, ValidationErrorType,
    ValidationRules,
};
use shopify_scraper::validation::{product_errors, validate_products, WranglingError};

fn stamp(secs: i64) -> Timestamp {
    Timestamp { unix_seconds: secs, nanos: 0 }
}

fn product(id: &str, title: &str, price_cents: i64) -> ShopifyProduct {
    ShopifyProduct {
        id: id.to_string(),
        title: title.to_string(),
        description: String::new(),
        price_cents,
        currency: "USD".to_string(),
        availability: true,
        vendor: String::new(),
        product_type: String::new(),
        tags: Vec::new(),
        images: Vec::new(),
        variants: Vec::new(),
        created_at: stamp(1),
        updated_at: stamp(2),
        handle: String::new(),
        url: "https://shop.com/products/x".to_string(),
        seo_data: None,
        analytics_data: None,
        related_products: None,
        reviews: None,
        collections: None,
        custom_fields: None,
        shipping_info: None,
        return_policy: None,
        warranty: None,
        title_de: None,
        title_fr: None,
        title_es: None,
        description_de: None,
        description_fr: None,
        description_es: None,
    }
}

fn strings(v: &[&str]) -> Vec<String> {
    v.iter().map(|s| s.to_string()).collect()
}

#[test]
fn named_fields_of_a_product() {
    let p = product("9", "Mug", 1250);
    assert_eq!(field_value(&p, "price"), Some("12.5".to_string()));
    assert_eq!(field_value(&p, "id"), Some("9".to_string()));
    assert_eq!(field_value(&p, "sku"), None);
    assert!(field_present(&p, "title"));
    assert!(!field_present(&p, "vendor"));
    assert!(!field_present(&product("9", "Mug", 0), "price"));
    assert!(!field_present(&p, "unknown"));
}

#[test]
fn default_rules_report_missing_fields_in_order() {
    let rules = ValidationRules::default();
    let p = product("", "", 0);
    let errors = product_errors(&p, &rules).unwrap();
    let fields: Vec<&str> = errors.iter().map(|e| e.field.as_str()).collect();
    assert_eq!(fields, vec!["id", "title", "price"]);
    assert_eq!(errors[0].message, "Required field 'id' is missing");
    assert_eq!(errors[0].error_type, ValidationErrorType::MissingRequired);
    assert_eq!(errors[2].message, "Required field 'price' is missing");
}

#[test]
fn format_and_range_failures() {
    let rules = ValidationRules::default();
    let mut p = product("1", "Lamp", 20_000_000);
    p.url = "ftp://shop.com".to_string();
    let errors = product_errors(&p, &rules).unwrap();
    assert_eq!(errors.len(), 2);
    assert_eq!(errors[0].field, "url");
    assert_eq!(errors[0].error_type, ValidationErrorType::InvalidFormat);
    assert_eq!(errors[0].message, "^https?://");
    assert_eq!(errors[1].error_type, ValidationErrorType::OutOfRange);
    assert_eq!(errors[1].message, "Value 200000 above maximum 100000");
    assert_eq!(errors[1].record_id, "1");
    let ok = product("2", "Lamp", 1999);
    assert!(product_errors(&ok, &rules).unwrap().is_empty());
    let mut low = product("3", "Lamp", 1999);
    low.price_cents = 5;
    let mut r = ValidationRules::default();
    r.field_ranges[0].1.min_value = Some(10);
    let e = product_errors(&low, &r).unwrap();
    assert_eq!(e.len(), 1);
    assert_eq!(e[0].message, "Value 0.05 below minimum 0.1");
}

fn title_range_rules(min: Option<i64>, max: Option<i64>) -> ValidationRules {
    ValidationRules {
        required_fields: Vec::new(),
        field_formats: Vec::new(),
        field_ranges: vec![(
            "title".to_string(),
            FieldRange { min_value: min, max_value: max, error_message: String::new() },
        )],
        unique_fields: Vec::new(),
        custom_validators: Vec::new(),
    }
}

#[test]
fn ranges_read_any_float_text() {
    let rules = title_range_rules(None, Some(100));
    let three_places = product("1", "1.234", 1999);
    let e = product_errors(&three_places, &rules).unwrap();
    assert_eq!(e.len(), 1);
    assert_eq!(e[0].error_type, ValidationErrorType::OutOfRange);
    assert_eq!(e[0].message, "Value 1.234 above maximum 1");
    let (valid, errs) = validate_products(&[three_places.clone()], &rules).unwrap();
    assert!(valid.is_empty());
    assert_eq!(errs.len(), 1);
    let infinite = product("2", "inf", 1999);
    assert_eq!(product_errors(&infinite, &rules).unwrap()[0].message, "Value inf above maximum 1");
    let nan = product("3", "NaN", 1999);
    assert!(product_errors(&nan, &rules).unwrap().is_empty());
    let exact = product("4", "1.00", 1999);
    assert!(product_errors(&exact, &rules).unwrap().is_empty());
    let words = product("5", "Lamp", 1999);
    assert!(product_errors(&words, &rules).unwrap().is_empty());
    let low = title_range_rules(Some(1), None);
    let tiny = product("6", "1e-3", 1999);
    assert_eq!(product_errors(&tiny, &low).unwrap()[0].message, "Value 1e-3 below minimum 0.01");
}

#[test]
fn validating_the_valid_products_again_keeps_them() {
    let rules = ValidationRules::default();
    let mut bad = product("2", "Lamp", 1999);
    bad.url = "ftp://shop.com".to_string();
    let ps = vec![product("1", "Mug", 1999), bad, product("3", "Cup", 800)];
    let (valid, errs) = validate_products(&ps, &rules).unwrap();
    assert_eq!(valid.len(), 2);
    assert_eq!(errs.len(), 1);
    let (again, none) = validate_products(&valid, &rules).unwrap();
    let ids = |v: &Vec<ShopifyProduct>| v.iter().map(|p| p.id.clone()).collect::<Vec<String>>();
    assert_eq!(ids(&again), vec!["1".to_string(), "3".to_string()]);
    assert_eq!(ids(&again), ids(&valid));
    assert!(none.is_empty());
}

#[test]
fn a_refused_pattern_stops_validation() {
    let mut rules = ValidationRules::default();
    rules.field_formats.push((
        "title".to_string(),
        FieldFormat { pattern: "(".to_string(), error_message: "bad".to_string() },
    ));
    let p = product("1", "Lamp", 100);
    assert_eq!(product_errors(&p, &rules).err(), Some(WranglingError::PatternRejected));
    assert_eq!(validate_products(&[p], &rules).err(), Some(WranglingError::PatternRejected));
}

#[test]
fn custom_validators_reject_through_their_check() {
    let mut rules = ValidationRules::default();
    rules.custom_validators.push(CustomValidator {
        field: "title".to_string(),
        validator: Box::new(RejectAll),
        error_message: "title refused".to_string(),
    });
    let p = product("1", "Lamp", 100);
    let e = product_errors(&p, &rules).unwrap();
    assert_eq!(e.len(), 1);
    assert_eq!(e[0].message, "title refused");
    assert_eq!(e[0].error_type, ValidationErrorType::InvalidFormat);
    assert!(!RejectAll.check("anything"));
    let copy = rules.custom_validators[0].clone();
    assert_eq!(copy.field, "title");
    assert!(!copy.validator.check("Lamp"));
}

#[test]
fn validation_keeps_valid_products_and_collects_errors() {
    let rules = ValidationRules::default();
    let products = vec![product("1", "A", 100), product("", "B", 100), product("3", "C", 300)];
    let (valid, errors) = validate_products(&products, &rules).unwrap();
    assert_eq!(valid.len(), 2);
    assert_eq!(valid[0].id, "1");
    assert_eq!(valid[1].id, "3");
    assert_eq!(errors.len(), 1);
    assert_eq!(errors[0].field, "id");
}

#[test]
fn validation_error_kind_names() {
    assert_eq!(ValidationErrorType::MissingRequired.to_text(), "MissingRequired");
    assert_eq!(ValidationErrorType::InvalidDate.to_text(), "InvalidDate");
    assert_eq!(ValidationErrorType::OutOfRange.to_text(), "OutOfRange");
}

#[test]
fn cleaning_helpers() {
    assert_eq!(remove_html_tags("<b>Bold</b> and <i>it</i>"), Some("Bold and it".to_string()));
    assert_eq!(clean_url("https://Shop.COM"), "https://shop.com/");
    assert_eq!(clean_url("not a url"), "not a url");
    assert_eq!(standardize_currency("us$"), "USD");
    assert_eq!(standardize_currency("$"), "USD");
    assert_eq!(standardize_currency("€"), "EUR");
    assert_eq!(standardize_currency("gbp"), "GBP");
    assert_eq!(standardize_currency("jpy"), "jpy");
    assert_eq!(clean_tags(strings(&[" b ", "a", "", "b", "  ", "a  x"])), strings(&["b", "a", "a x"]));
}

#[test]
fn cleaning_a_product() {
    let mut p = product("1", "  Big   Lamp ", 100);
    p.description = "<p>Bright</p>".to_string();
    p.currency = "eur".to_string();
    p.vendor = " Acme\tInc ".to_string();
    p.tags = strings(&["x", " x ", "y"]);
    p.url = "HTTPS://SHOP.COM/a".to_string();
    let q = clean_product(p, &CleaningRules::default()).unwrap();
    assert_eq!(q.title, "Big Lamp");
    assert_eq!(q.description, "Bright");
    assert_eq!(q.currency, "EUR");
    assert_eq!(q.vendor, "Acme Inc");
    assert_eq!(q.tags, strings(&["x", "y"]));
    assert_eq!(q.url, "https://shop.com/a");
    let off = CleaningRules {
        normalize_text: false,
        remove_html_tags: false,
        standardize_currency: false,
        standardize_dates: false,
        trim_whitespace: false,
        remove_duplicates: false,
        fix_urls: false,
    };
    let mut p = product("1", " T ", 100);
    p.tags = strings(&["x", "x"]);
    let q = clean_product(p, &off).unwrap();
    assert_eq!(q.title, " T ");
    assert_eq!(q.tags, strings(&["x"]));
}

#[test]
fn cleaning_twice_changes_nothing_more() {
    let mut p = product("1", "  Big   Lamp ", 100);
    p.description = "<p>Bright <b>and</b> warm</p><<x>>".to_string();
    p.currency = "$".to_string();
    p.product_type = " Home \n Decor".to_string();
    p.tags = strings(&["b", " a ", "b", ""]);
    p.url = "HTTPS://SHOP.COM/a/../b".to_string();
    let rules = CleaningRules::default();
    let once = clean_product(p, &rules).unwrap();
    let twice = clean_product(once.clone(), &rules).unwrap();
    assert_eq!(twice.title, once.title);
    assert_eq!(twice.description, once.description);
    assert_eq!(once.description, "Bright and warm>");
    assert_eq!(twice.currency, "USD");
    assert_eq!(twice.product_type, once.product_type);
    assert_eq!(twice.tags, once.tags);
    assert_eq!(twice.tags, strings(&["b", "a"]));
    assert_eq!(twice.url, once.url);
    assert_eq!(once.url, "https://shop.com/b");
}

#[test]
fn price_bands() {
    assert_eq!(categorize_price(999), "budget");
    assert_eq!(categorize_price(1000), "affordable");
    assert_eq!(categorize_price(4999), "affordable");
    assert_eq!(categorize_price(5000), "mid_range");
    assert_eq!(categorize_price(10000), "premium");
    assert_eq!(categorize_price(49999), "premium");
    assert_eq!(categorize_price(50000), "luxury");
    assert_eq!(categorize_price(-5), "budget");
}

#[test]
fn completeness_scores() {
    let rules = ValidationRules::default();
    assert_eq!(completeness_score(&product("1", "T", 100), &rules), "1");
    assert_eq!(completeness_score(&product("1", "T", 0), &rules), "0.75");
    assert_eq!(completeness_score(&product("", "", 0), &rules), "0.25");
    let mut three = ValidationRules::default();
    three.required_fields = strings(&["id", "title", "vendor"]);
    assert_eq!(completeness_score(&product("1", "", 0), &three), "0.3333333333333333");
    let mut six = ValidationRules::default();
    six.required_fields = strings(&["id", "title", "vendor", "handle", "product_type", "url"]);
    assert_eq!(completeness_score(&product("", "", 0), &six), "0.16666666666666666");
    assert_eq!(completeness_score(&product("1", "T", 0), &six), "0.5");
    three.required_fields = Vec::new();
    assert_eq!(completeness_score(&product("", "", 0), &three), "1");
}

#[test]
fn enrichment_adds_fields() {
    let mut p = product("1", "T", 2500);
    p.images = vec![ProductImage { src: "a".to_string(), alt: None, width: None, height: None, position: None }];
    let q = enrich_product(p, &EnrichmentRules::default(), &ValidationRules::default(), "shop.com", "2024-01-01T00:00:00+00:00");
    let f = q.custom_fields.unwrap();
    assert_eq!(f.get("source_domain"), Some(&"shop.com".to_string()));
    assert_eq!(f.get("scraped_at"), Some(&"2024-01-01T00:00:00+00:00".to_string()));
    assert_eq!(f.get("price_category"), Some(&"affordable".to_string()));
    assert_eq!(f.get("availability_status"), Some(&"in_stock".to_string()));
    assert_eq!(f.get("image_count"), Some(&"1".to_string()));
    assert_eq!(f.get("variant_count"), Some(&"0".to_string()));
    assert_eq!(f.get("completeness_score"), Some(&"1".to_string()));
    assert_eq!(f.len(), 7);
    let none = EnrichmentRules {
        add_timestamps: true,
        add_source_info: false,
        add_quality_scores: false,
        add_computed_fields: false,
        geocode_addresses: false,
        categorize_products: true,
    };
    let q = enrich_product(product("1", "T", 1), &none, &ValidationRules::default(), "d", "t");
    assert!(q.custom_fields.is_none());
}

#[test]
fn merging_prefers_existing_values() {
    let mut a = product("1", "", 0);
    a.tags = strings(&["b", "a"]);
    a.created_at = stamp(10);
    let mut fa = FieldMap::new();
    fa.insert("k".to_string(), "old".to_string());
    a.custom_fields = Some(fa);
    let mut b = product("2", "Title", 700);
    b.tags = strings(&["c", "a"]);
    b.updated_at = stamp(20);
    b.availability = false;
    b.title_fr = Some("Titre".to_string());
    let mut fb = FieldMap::new();
    fb.insert("k".to_string(), "new".to_string());
    b.custom_fields = Some(fb);
    let m = merge_products(&a, &b);
    assert_eq!(m.id, "1");
    assert_eq!(m.title, "Title");
    assert_eq!(m.price_cents, 700);
    assert!(m.availability);
    assert_eq!(m.tags, strings(&["a", "b", "c"]));
    assert_eq!(m.created_at, stamp(10));
    assert_eq!(m.updated_at, stamp(20));
    assert_eq!(m.title_fr, Some("Titre".to_string()));
    assert_eq!(m.custom_fields.unwrap().get("k"), Some(&"new".to_string()));
}

#[test]
fn text_order_and_sorted_tags() {
    assert!(text_less("a", "b"));
    assert!(text_less("ab", "abc"));
    assert!(!text_less("b", "a"));
    assert!(!text_less("a", "a"));
    assert!(text_less("Z", "a"));
    assert_eq!(sorted_unique_tags(strings(&["b", "a", "b", "A"])), strings(&["A", "a", "b"]));
}

fn dedup_rules(strategy: MergeStrategy) -> DeduplicationRules {
    DeduplicationRules {
        primary_key_fields: strings(&["id", "title"]),
        similarity_threshold_milli: 800,
        merge_strategy: strategy,
        conflict_resolution: ConflictResolution::PreferNewer,
    }
}

#[test]
fn dedup_keys_join_named_fields() {
    let p = product("1", "Lamp", 100);
    assert_eq!(dedup_key(&p, &strings(&["id", "title"])), "id:1|title:Lamp");
    assert_eq!(dedup_key(&p, &strings(&["price", "nope", "currency"])), "price:1|currency:USD");
    assert_eq!(dedup_key(&p, &Vec::new()), "");
}

#[test]
fn deduplication_strategies() {
    let items = || vec![product("1", "A", 100), product("2", "B", 200), product("1", "A", 300)];
    let first = deduplicate_products(items(), &dedup_rules(MergeStrategy::KeepFirst));
    assert_eq!(first.len(), 2);
    assert_eq!(first[0].price_cents, 100);
    assert_eq!(first[1].id, "2");
    let last = deduplicate_products(items(), &dedup_rules(MergeStrategy::KeepLast));
    assert_eq!(last.len(), 2);
    assert_eq!(last[0].price_cents, 300);
    let mut zero = items();
    zero[0].price_cents = 0;
    let merged = deduplicate_products(zero, &dedup_rules(MergeStrategy::MergeFields));
    assert_eq!(merged.len(), 2);
    assert_eq!(merged[0].price_cents, 300);
    assert!(merged[0].custom_fields.is_some());
    assert!(deduplicate_products(Vec::new(), &DeduplicationRules::default()).is_empty());
}

#[test]
fn merge_strategy_copies_and_names() {
    assert_eq!(MergeStrategy::MergeFields.to_text(), "MergeFields");
    assert!(matches!(MergeStrategy::KeepLast.clone(), MergeStrategy::KeepLast));
    assert!(matches!(DeduplicationRules::default().merge_strategy, MergeStrategy::MergeFields));
}

#[test]
fn pipeline_runs_every_stage() {
    let pipeline = DataWranglingPipeline::new();
    let mut a = product("1", "  Lamp  ", 2500);
    a.description = "<p>Nice</p>".to_string();
    let b = product("", "No id", 100);
    let c = product("1", "Lamp", 100);
    let out = pipeline.process_products_at(&[a, b, c], "shop.com", "T0").unwrap();
    assert_eq!(out.len(), 1);
    assert_eq!(out[0].title, "Lamp");
    assert_eq!(out[0].description, "Nice");
    assert_eq!(out[0].price_cents, 2500);
    let f = out[0].custom_fields.as_ref().unwrap();
    assert_eq!(f.get("scraped_at"), Some(&"T0".to_string()));
    assert_eq!(f.get("source_domain"), Some(&"shop.com".to_string()));
    let now = pipeline.process_products(&[product("5", "X", 100)], "d").unwrap();
    assert_eq!(now.len(), 1);
    let stamp = now[0].custom_fields.as_ref().unwrap().get("scraped_at").unwrap().clone();
    assert!(stamp.starts_with("20") && stamp.contains('T') && stamp.ends_with("+00:00"));
}

#[test]
fn pipeline_defaults() {
    let p = DataWranglingPipeline::default();
    assert_eq!(p.validation_rules.required_fields, strings(&["id", "title", "price", "currency"]));
    assert!(p.cleaning_rules.fix_urls);
    assert!(!p.enrichment_rules.geocode_addresses);
    assert_eq!(p.deduplication_rules.similarity_threshold_milli, 800);
    let m = DataQualityMetrics::default();
    assert_eq!(m.total_records, 0);
    assert!(m.validation_errors.is_empty());
    assert_eq!(FieldRange { min_value: None, max_value: Some(1), error_message: String::new() }.max_value, Some(1));
}

struct TakeNew;

impl shopify_scraper::rules::ProductMerger for TakeNew {
    fn merged(&self, _existing: ProductView, _new: ProductView) -> ProductView {
        unreachable!("only read by the verifier")
    }

    fn merge(&self, _existing: &ShopifyProduct, new: &ShopifyProduct) -> ShopifyProduct {
        new.clone()
    }
}

#[test]
fn custom_mergers_combine_duplicates_and_are_not_copied() {
    let items = vec![product("1", "A", 100), product("1", "A", 900)];
    let out = deduplicate_products(items, &dedup_rules(MergeStrategy::Custom(Box::new(TakeNew))));
    assert_eq!(out.len(), 1);
    assert_eq!(out[0].price_cents, 900);
    let rules = dedup_rules(MergeStrategy::Custom(Box::new(TakeNew)));
    assert_eq!(rules.merge_strategy.to_text(), "Custom");
    let copy = rules.clone();
    assert!(matches!(copy.merge_strategy, MergeStrategy::KeepFirst));
    assert_eq!(copy.primary_key_fields, strings(&["id", "title"]));
}

#[test]
fn pipeline_copies_lose_custom_checks() {
    let mut pipeline = DataWranglingPipeline::new();
    pipeline.validation_rules.custom_validators.push(CustomValidator {
        field: "title".to_string(),
        validator: Box::new(RejectAll),
        error_message: "no".to_string(),
    });
    pipeline.deduplication_rules.merge_strategy = MergeStrategy::Custom(Box::new(TakeNew));
    let copy = pipeline.clone();
    assert_eq!(copy.validation_rules.custom_validators.len(), 1);
    assert_eq!(copy.validation_rules.custom_validators[0].error_message, "no");
    assert!(matches!(copy.deduplication_rules.merge_strategy, MergeStrategy::KeepFirst));
    assert_eq!(copy.validation_rules.field_formats.len(), 2);
    assert_eq!(copy.validation_rules.field_formats[1].1.pattern, "^\\d+(\\.\\d{2})?$");
    assert!(copy.cleaning_rules.normalize_text);
}

#[test]
fn deduplicating_twice_changes_nothing() {
    let items = vec![product("1", "A", 100), product("2", "B", 200), product("1", "A", 300), product("2", "B", 5)];
    let once = deduplicate_products(items, &dedup_rules(MergeStrategy::KeepLast));
    let prices: Vec<i64> = once.iter().map(|p| p.price_cents).collect();
    assert_eq!(prices, vec![300, 5]);
    let twice = deduplicate_products(once, &dedup_rules(MergeStrategy::KeepLast));
    let again: Vec<i64> = twice.iter().map(|p| p.price_cents).collect();
    assert_eq!(again, prices);
}
