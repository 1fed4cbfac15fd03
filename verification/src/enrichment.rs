//! Enrichment of products with derived custom fields.
use vstd::prelude::*;
use crate::fieldmap::FieldMap;
use crate::models::{ProductView, ShopifyProduct};
use crate::binary64::{float_ratio_text, float_ratio_text_exec};
use crate::numfmt::{decimal_seq, decimal_string};
use crate::rules::{field_present, field_present_spec, EnrichmentRules, ValidationRules};
use crate::text::copy_str;
use crate::validation::products_view;

verus! {

/// The price band of an amount in cents: under 10 `budget`, under 50
/// `affordable`, under 100 `mid_range`, under 500 `premium`, else `luxury`.
pub open spec fn price_category_spec(cents: i64) -> Seq<char> {
    if cents < 1000 {
        "budget"@
    } else if cents < 5000 {
        "affordable"@
    } else if cents < 10000 {
        "mid_range"@
    } else if cents < 50000 {
        "premium"@
    } else {
        "luxury"@
    }
}

/// The price band of an amount in cents.
pub fn categorize_price(cents: i64) -> (r: String)
    ensures
        r@ == price_category_spec(cents),
{
    if cents < 1000 {
        copy_str("budget")
    } else if cents < 5000 {
        copy_str("affordable")
    } else if cents < 10000 {
        copy_str("mid_range")
    } else if cents < 50000 {
        copy_str("premium")
    } else {
        copy_str("luxury")
    }
}

/// The bands are ordered: a higher price never falls in a cheaper band.
pub open spec fn band_rank(c: Seq<char>) -> int {
    if c == "budget"@ {
        0
    } else if c == "affordable"@ {
        1
    } else if c == "mid_range"@ {
        2
    } else if c == "premium"@ {
        3
    } else {
        4
    }
}

/// A dearer product is in the same band or a dearer one.
pub proof fn lemma_price_bands_monotone(a: i64, b: i64)
    requires
        a <= b,
    ensures
        band_rank(price_category_spec(a)) <= band_rank(price_category_spec(b)),
{
    reveal_strlit("budget");
    reveal_strlit("affordable");
    reveal_strlit("mid_range");
    reveal_strlit("premium");
    reveal_strlit("luxury");
    assert("budget"@ != "affordable"@) by {
        assert("budget"@.len() != "affordable"@.len());
    }
    assert("budget"@ != "mid_range"@) by {
        assert("budget"@[0] != "mid_range"@[0]);
    }
    assert("budget"@ != "premium"@) by {
        assert("budget"@[0] != "premium"@[0]);
    }
    assert("affordable"@ != "mid_range"@) by {
        assert("affordable"@[0] != "mid_range"@[0]);
    }
    assert("affordable"@ != "premium"@) by {
        assert("affordable"@[0] != "premium"@[0]);
    }
    assert("mid_range"@ != "premium"@) by {
        assert("mid_range"@[0] != "premium"@[0]);
    }
    assert("luxury"@ != "budget"@) by {
        assert("luxury"@[0] != "budget"@[0]);
    }
    assert("luxury"@ != "affordable"@) by {
        assert("luxury"@[0] != "affordable"@[0]);
    }
    assert("luxury"@ != "mid_range"@) by {
        assert("luxury"@[1] != "mid_range"@[1]);
    }
    assert("luxury"@ != "premium"@) by {
        assert("luxury"@[0] != "premium"@[0]);
    }
}

/// How many of the named fields are present.
pub open spec fn present_count(p: ProductView, fields: Seq<String>) -> nat
    decreases fields.len(),
{
    if fields.len() == 0 {
        0
    } else {
        present_count(p, fields.drop_last()) + if field_present_spec(p, fields.last()@) {
            1nat
        } else {
            0nat
        }
    }
}

/// The completeness score of a product: the share of the required fields
/// that are present, as Rust prints it when computed as a binary64 float.
pub open spec fn completeness_text(p: ProductView, fields: Seq<String>) -> Seq<char> {
    float_ratio_text(present_count(p, fields), fields.len())
}

/// The completeness score of a product, as text.
pub fn completeness_score(p: &ShopifyProduct, rules: &ValidationRules) -> (r: String)
    requires
        rules.required_fields@.len() <= 0x0fff_ffff_ffff_ffff,
    ensures
        r@ == completeness_text(p@, rules.required_fields@),
{
    let fields = &rules.required_fields;
    let mut k: u64 = 0;
    let mut i: usize = 0;
    while i < fields.len()
        invariant
            i <= fields.len() <= 0x0fff_ffff_ffff_ffff,
            k == present_count(p@, fields@.take(i as int)),
            k <= i,
        decreases fields.len() - i,
    {
        proof {
            assert(fields@.take(i + 1).drop_last() == fields@.take(i as int));
        }
        if field_present(p, fields[i].as_str()) {
            k = k + 1;
        }
        i += 1;
    }
    proof {
        assert(fields@.take(fields@.len() as int) == fields@);
    }
    let n = fields.len() as u64;
    float_ratio_text_exec(k, n)
}

/// The custom fields that enrichment adds.
pub open spec fn enriched_fields(p: ProductView, rules: EnrichmentRules, required: Seq<String>, domain: Seq<char>, scraped_at: Seq<char>) -> Map<Seq<char>, Seq<char>> {
    let m0 = match p.custom_fields {
        Some(m) => m,
        None => Map::empty(),
    };
    let m1 = if rules.add_source_info {
        m0.insert("source_domain"@, domain).insert("scraped_at"@, scraped_at)
    } else {
        m0
    };
    let m2 = if rules.add_computed_fields {
        m1.insert("price_category"@, price_category_spec(p.price_cents)).insert(
            "availability_status"@,
            if p.availability {
                "in_stock"@
            } else {
                "out_of_stock"@
            },
        ).insert("image_count"@, decimal_seq(p.images.len())).insert("variant_count"@, decimal_seq(p.variants.len()))
    } else {
        m1
    };
    if rules.add_quality_scores {
        m2.insert("completeness_score"@, completeness_text(p, required))
    } else {
        m2
    }
}

/// What enrichment makes of a product: when any of the source, computed
/// and quality steps runs, the custom fields (empty when absent) gain the
/// source domain and scrape time, the price band, availability and image
/// and variant counts, and the completeness score, each when its step
/// runs; nothing else changes.
pub open spec fn enrich_spec(p: ProductView, rules: EnrichmentRules, required: Seq<String>, domain: Seq<char>, scraped_at: Seq<char>) -> ProductView {
    if rules.add_source_info || rules.add_computed_fields || rules.add_quality_scores {
        ProductView { custom_fields: Some(enriched_fields(p, rules, required, domain, scraped_at)), ..p }
    } else {
        p
    }
}

proof fn lemma_enrichment_names_differ()
    ensures
        "source_domain"@ != "scraped_at"@,
        "source_domain"@ != "price_category"@,
        "source_domain"@ != "availability_status"@,
        "source_domain"@ != "image_count"@,
        "source_domain"@ != "variant_count"@,
        "source_domain"@ != "completeness_score"@,
        "scraped_at"@ != "price_category"@,
        "scraped_at"@ != "availability_status"@,
        "scraped_at"@ != "image_count"@,
        "scraped_at"@ != "variant_count"@,
        "scraped_at"@ != "completeness_score"@,
        "price_category"@ != "availability_status"@,
        "price_category"@ != "image_count"@,
        "price_category"@ != "variant_count"@,
        "price_category"@ != "completeness_score"@,
        "availability_status"@ != "image_count"@,
        "availability_status"@ != "variant_count"@,
        "availability_status"@ != "completeness_score"@,
        "image_count"@ != "variant_count"@,
        "image_count"@ != "completeness_score"@,
        "variant_count"@ != "completeness_score"@,
{
    reveal_strlit("source_domain");
    reveal_strlit("scraped_at");
    reveal_strlit("price_category");
    reveal_strlit("availability_status");
    reveal_strlit("image_count");
    reveal_strlit("variant_count");
    reveal_strlit("completeness_score");
    assert("source_domain"@.len() == 13);
    assert("scraped_at"@.len() == 10);
    assert("price_category"@.len() == 14);
    assert("availability_status"@.len() == 19);
    assert("image_count"@.len() == 11);
    assert("variant_count"@.len() == 13);
    assert("completeness_score"@.len() == 18);
    assert("source_domain"@[0] != "variant_count"@[0]);
}

/// What enrichment writes into the custom fields. Only the custom fields
/// change, and only when some step runs; then they hold every field the
/// product had, and: with the source step, `source_domain` and `scraped_at`
/// set to the domain and scrape time; with the computed step,
/// `availability_status` `in_stock` for an available product and
/// `out_of_stock` for one that is not, `price_category` the price band
/// (`budget` under 10, `affordable` under 50, `mid_range` under 100,
/// `premium` under 500, else `luxury`), and the numbers of images and
/// variants in decimal; with the quality step, `completeness_score` the
/// share of the required fields present. Fields the steps do not write
/// keep their values.
pub proof fn lemma_enriched_fields(p: ProductView, rules: EnrichmentRules, required: Seq<String>, domain: Seq<char>, scraped_at: Seq<char>)
    ensures
        ({
            let r = enrich_spec(p, rules, required, domain, scraped_at);
            let base = match p.custom_fields {
                Some(x) => x,
                None => Map::<Seq<char>, Seq<char>>::empty(),
            };
            let any = rules.add_source_info || rules.add_computed_fields || rules.add_quality_scores;
            &&& r == ProductView { custom_fields: r.custom_fields, ..p }
            &&& !any ==> r == p
            &&& any ==> r.custom_fields is Some
            &&& any ==> forall|k: Seq<char>| #[trigger] base.contains_key(k) ==> r.custom_fields->0.contains_key(k)
            &&& rules.add_source_info ==> r.custom_fields->0.contains_key("source_domain"@) && r.custom_fields->0["source_domain"@]
                == domain && r.custom_fields->0.contains_key("scraped_at"@) && r.custom_fields->0["scraped_at"@] == scraped_at
            &&& rules.add_computed_fields ==> r.custom_fields->0.contains_key("availability_status"@)
            &&& rules.add_computed_fields && p.availability ==> r.custom_fields->0["availability_status"@] == "in_stock"@
            &&& rules.add_computed_fields && !p.availability ==> r.custom_fields->0["availability_status"@] == "out_of_stock"@
            &&& rules.add_computed_fields ==> r.custom_fields->0.contains_key("price_category"@)
            &&& rules.add_computed_fields && p.price_cents < 1000 ==> r.custom_fields->0["price_category"@] == "budget"@
            &&& rules.add_computed_fields && 1000 <= p.price_cents < 5000 ==> r.custom_fields->0["price_category"@]
                == "affordable"@
            &&& rules.add_computed_fields && 5000 <= p.price_cents < 10000 ==> r.custom_fields->0["price_category"@]
                == "mid_range"@
            &&& rules.add_computed_fields && 10000 <= p.price_cents < 50000 ==> r.custom_fields->0["price_category"@]
                == "premium"@
            &&& rules.add_computed_fields && 50000 <= p.price_cents ==> r.custom_fields->0["price_category"@] == "luxury"@
            &&& rules.add_computed_fields ==> r.custom_fields->0.contains_key("image_count"@) && r.custom_fields->0["image_count"@]
                == decimal_seq(p.images.len()) && r.custom_fields->0.contains_key("variant_count"@)
                && r.custom_fields->0["variant_count"@] == decimal_seq(p.variants.len())
            &&& rules.add_quality_scores ==> r.custom_fields->0.contains_key("completeness_score"@)
                && r.custom_fields->0["completeness_score"@] == float_ratio_text(present_count(p, required), required.len())
            &&& any ==> forall|k: Seq<char>|
                #[trigger] base.contains_key(k) && !(rules.add_source_info && (k == "source_domain"@ || k == "scraped_at"@))
                    && !(rules.add_computed_fields && (k == "price_category"@ || k == "availability_status"@ || k
                    == "image_count"@ || k == "variant_count"@)) && !(rules.add_quality_scores && k == "completeness_score"@)
                    ==> r.custom_fields->0[k] == base[k]
        }),
{
    lemma_enrichment_names_differ();
}

/// One product enriched.
pub fn enrich_product(p: ShopifyProduct, rules: &EnrichmentRules, validation: &ValidationRules, domain: &str, scraped_at: &str) -> (r: ShopifyProduct)
    requires
        validation.required_fields@.len() <= 0x0fff_ffff_ffff_ffff,
    ensures
        r@ == enrich_spec(p@, *rules, validation.required_fields@, domain@, scraped_at@),
{
    if !(rules.add_source_info || rules.add_computed_fields || rules.add_quality_scores) {
        return p;
    }
    let mut q = p;
    let score = if rules.add_quality_scores {
        completeness_score(&q, validation)
    } else {
        String::new()
    };
    let mut fields = match q.custom_fields {
        Some(m) => m,
        None => FieldMap::new(),
    };
    q.custom_fields = None;
    if rules.add_source_info {
        fields.insert(copy_str("source_domain"), copy_str(domain));
        fields.insert(copy_str("scraped_at"), copy_str(scraped_at));
    }
    if rules.add_computed_fields {
        fields.insert(copy_str("price_category"), categorize_price(q.price_cents));
        let status = if q.availability {
            copy_str("in_stock")
        } else {
            copy_str("out_of_stock")
        };
        fields.insert(copy_str("availability_status"), status);
        fields.insert(copy_str("image_count"), decimal_string(q.images.len() as u64));
        fields.insert(copy_str("variant_count"), decimal_string(q.variants.len() as u64));
    }
    if rules.add_quality_scores {
        fields.insert(copy_str("completeness_score"), score);
    }
    q.custom_fields = Some(fields);
    q
}

/// Each product enriched in turn.
pub open spec fn enrich_all_spec(ps: Seq<ProductView>, rules: EnrichmentRules, required: Seq<String>, domain: Seq<char>, scraped_at: Seq<char>) -> Seq<ProductView> {
    ps.map_values(|p: ProductView| enrich_spec(p, rules, required, domain, scraped_at))
}

/// The enrichment stage of the pipeline, at the given scrape time.
pub fn enrich_products(products: Vec<ShopifyProduct>, rules: &EnrichmentRules, validation: &ValidationRules, domain: &str, scraped_at: &str) -> (r: Vec<ShopifyProduct>)
    requires
        validation.required_fields@.len() <= 0x0fff_ffff_ffff_ffff,
    ensures
        products_view(r@) == enrich_all_spec(products_view(products@), *rules, validation.required_fields@, domain@, scraped_at@),
{
    let ghost orig = products@;
    let n = products.len();
    let mut rest = crate::vecs::reversed(products);
    let mut out: Vec<ShopifyProduct> = Vec::new();
    let mut i: usize = 0;
    while i < n
        invariant
            i <= n == orig.len(),
            validation.required_fields@.len() <= 0x0fff_ffff_ffff_ffff,
            rest@.len() == n - i,
            forall|j: int| 0 <= j < rest@.len() ==> #[trigger] rest@[j] == orig[n - 1 - j],
            products_view(out@) == enrich_all_spec(products_view(orig.take(i as int)), *rules, validation.required_fields@, domain@, scraped_at@),
        decreases n - i,
    {
        let p = rest.pop().unwrap();
        proof {
            assert(p == orig[i as int]);
        }
        let q = enrich_product(p, rules, validation, domain, scraped_at);
        let ghost before = products_view(out@);
        out.push(q);
        proof {
            assert(products_view(out@) =~= before.push(q@));
            assert(orig.take(i + 1) == orig.take(i as int).push(orig[i as int]));
            assert(products_view(orig.take(i + 1)) =~= products_view(orig.take(i as int)).push(orig[i as int]@));
            assert(enrich_all_spec(products_view(orig.take(i + 1)), *rules, validation.required_fields@, domain@, scraped_at@) =~= enrich_all_spec(products_view(orig.take(i as int)), *rules, validation.required_fields@, domain@, scraped_at@).push(q@));
        }
        i += 1;
    }
    proof {
        assert(orig.take(n as int) == orig);
    }
    out
}

} // verus!
