//! From Shopify's raw product shape to the canonical one.
use vstd::prelude::*;
use crate::models::{
    ProductImage, ProductVariant, RawProductImage, RawProductVariant, RawShopifyProduct,
    ShopifyProduct,
};
use crate::decimal::{parse_price_cents, parse_price_spec};
use crate::numfmt::{decimal_seq, decimal_string};
use crate::text::{chars_of, copy_str, parse_tags, parse_tags_spec, replace_chars, replace_seq, string_of};

verus! {

/// A price text read as cents, or zero when it is not a price.
pub open spec fn price_or_zero(s: Seq<char>) -> i64 {
    match parse_price_spec(s) {
        Some(c) => c,
        None => 0,
    }
}

/// The canonical image made from a raw one: the same fields.
pub open spec fn image_from_raw(raw: RawProductImage) -> ProductImage {
    ProductImage {
        src: raw.src,
        alt: raw.alt,
        width: raw.width,
        height: raw.height,
        position: raw.position,
    }
}

/// The canonical variant made from a raw one: the id as decimal text, the
/// price read as cents (zero when unreadable), missing counts, flags and
/// weights as zero or false, a missing weight unit as `kg`, the
/// compare-at price read as cents when it is a price.
pub open spec fn variant_matches_raw(v: ProductVariant, raw: RawProductVariant) -> bool {
    &&& v.id@ == decimal_seq(raw.id as nat)
    &&& v.title == raw.title
    &&& v.price_cents == price_or_zero(raw.price@)
    &&& v.sku == raw.sku
    &&& v.inventory_quantity == (match raw.inventory_quantity {
        Some(q) => q,
        None => 0i32,
    })
    &&& v.available == (match raw.available {
        Some(a) => a,
        None => false,
    })
    &&& v.weight_milli == (match raw.weight_milli {
        Some(w) => w,
        None => 0i64,
    })
    &&& v.weight_unit@ == (match raw.weight_unit {
        Some(u) => u@,
        None => "kg"@,
    })
    &&& v.option1 == raw.option1
    &&& v.option2 == raw.option2
    &&& v.option3 == raw.option3
    &&& v.barcode == raw.barcode
    &&& v.compare_at_price_cents == (match raw.compare_at_price {
        Some(p) => parse_price_spec(p@),
        None => None,
    })
    &&& v.fulfillment_service == raw.fulfillment_service
    &&& v.inventory_management == raw.inventory_management
    &&& v.inventory_policy == raw.inventory_policy
    &&& v.requires_shipping == raw.requires_shipping
    &&& v.taxable == raw.taxable
    &&& v.tax_code == raw.tax_code
}

/// One raw image in canonical form (`transform_images_fast` on one item).
pub fn transform_image(raw: RawProductImage) -> (r: ProductImage)
    ensures
        r == image_from_raw(raw),
{
    ProductImage {
        src: raw.src,
        alt: raw.alt,
        width: raw.width,
        height: raw.height,
        position: raw.position,
    }
}

/// Every raw image in canonical form, in order.
pub fn transform_images(raw: Vec<RawProductImage>) -> (r: Vec<ProductImage>)
    ensures
        r@.len() == raw@.len(),
        forall|i: int| 0 <= i < r@.len() ==> r@[i] == image_from_raw(#[trigger] raw@[i]),
{
    let mut out: Vec<ProductImage> = Vec::new();
    let ghost orig = raw@;
    let mut rest = crate::vecs::reversed(raw);
    while rest.len() > 0
        invariant
            out@.len() + rest@.len() == orig.len(),
            forall|i: int| 0 <= i < out@.len() ==> out@[i] == image_from_raw(#[trigger] orig[i]),
            forall|j: int| 0 <= j < rest@.len() ==> #[trigger] rest@[j] == orig[orig.len() - 1 - j],
        decreases rest@.len(),
    {
        let img = rest.pop().unwrap();
        proof {
            assert(img == orig[out@.len() as int]);
        }
        out.push(transform_image(img));
    }
    out
}

/// A missing weight unit reads as `kg`.
fn weight_unit_or_kg(u: Option<String>) -> (r: String)
    ensures
        r@ == (match u {
            Some(x) => x@,
            None => "kg"@,
        }),
{
    match u {
        Some(x) => x,
        None => copy_str("kg"),
    }
}

/// One raw variant in canonical form (`transform_variants_fast` on one
/// item).
pub fn transform_variant(raw: RawProductVariant) -> (r: ProductVariant)
    ensures
        variant_matches_raw(r, raw),
{
    let price_cents = match parse_price_cents(raw.price.as_str()) {
        Some(c) => c,
        None => 0,
    };
    let compare_at_price_cents = match &raw.compare_at_price {
        Some(p) => parse_price_cents(p.as_str()),
        None => None,
    };
    ProductVariant {
        id: decimal_string(raw.id),
        title: raw.title,
        price_cents,
        sku: raw.sku,
        inventory_quantity: match raw.inventory_quantity {
            Some(q) => q,
            None => 0,
        },
        available: match raw.available {
            Some(a) => a,
            None => false,
        },
        weight_milli: match raw.weight_milli {
            Some(w) => w,
            None => 0,
        },
        weight_unit: weight_unit_or_kg(raw.weight_unit),
        option1: raw.option1,
        option2: raw.option2,
        option3: raw.option3,
        barcode: raw.barcode,
        compare_at_price_cents,
        fulfillment_service: raw.fulfillment_service,
        inventory_management: raw.inventory_management,
        inventory_policy: raw.inventory_policy,
        requires_shipping: raw.requires_shipping,
        taxable: raw.taxable,
        tax_code: raw.tax_code,
    }
}

/// Every raw variant in canonical form, in order.
pub fn transform_variants(raw: Vec<RawProductVariant>) -> (r: Vec<ProductVariant>)
    ensures
        r@.len() == raw@.len(),
        forall|i: int| 0 <= i < r@.len() ==> variant_matches_raw(#[trigger] r@[i], raw@[i]),
{
    let mut out: Vec<ProductVariant> = Vec::new();
    let ghost orig = raw@;
    let mut rest = crate::vecs::reversed(raw);
    while rest.len() > 0
        invariant
            out@.len() + rest@.len() == orig.len(),
            forall|i: int| 0 <= i < out@.len() ==> variant_matches_raw(#[trigger] out@[i], orig[i]),
            forall|j: int| 0 <= j < rest@.len() ==> #[trigger] rest@[j] == orig[orig.len() - 1 - j],
        decreases rest@.len(),
    {
        let v = rest.pop().unwrap();
        proof {
            assert(v == orig[out@.len() as int]);
        }
        out.push(transform_variant(v));
    }
    out
}

/// The price of a product: that of its first variant read as cents, or
/// zero when there is none or it is not a price.
pub open spec fn first_variant_price(variants: Seq<RawProductVariant>) -> i64 {
    if variants.len() > 0 {
        price_or_zero(variants[0].price@)
    } else {
        0
    }
}

fn first_price(variants: &Vec<RawProductVariant>) -> (c: i64)
    ensures
        c == first_variant_price(variants@),
{
    if variants.len() > 0 {
        match parse_price_cents(variants[0].price.as_str()) {
            Some(c) => c,
            None => 0,
        }
    } else {
        0
    }
}

/// Applies `str::replace` with a literal nonempty pattern.
pub fn replace_literal(s: &Vec<char>, pat: &str, rep: &str) -> (r: Vec<char>)
    requires
        pat@.len() > 0,
    ensures
        r@ == replace_seq(s@, pat@, rep@),
{
    let p = chars_of(pat);
    let q = chars_of(rep);
    replace_chars(s, &p, &q)
}

/// `<p>` and `</p>` removed, in that order.
pub open spec fn strip_paragraphs_spec(s: Seq<char>) -> Seq<char> {
    replace_seq(replace_seq(s, "<p>"@, ""@), "</p>"@, ""@)
}

/// The description cleaning of the basic scraper: paragraph tags removed.
pub fn strip_paragraphs(html: &str) -> (r: String)
    ensures
        r@ == strip_paragraphs_spec(html@),
{
    proof {
        reveal_strlit("<p>");
        reveal_strlit("</p>");
    }
    let s = chars_of(html);
    let s = replace_literal(&s, "<p>", "");
    let s = replace_literal(&s, "</p>", "");
    string_of(&s)
}

/// The fast HTML cleaning: paragraph tags removed, line breaks turned
/// into newlines and the common entities decoded, each replacement applied
/// to the result of the previous one.
pub open spec fn clean_html_spec(s: Seq<char>) -> Seq<char> {
    let s1 = replace_seq(s, "<p>"@, ""@);
    let s2 = replace_seq(s1, "</p>"@, ""@);
    let s3 = replace_seq(s2, "<br>"@, "\n"@);
    let s4 = replace_seq(s3, "<br/>"@, "\n"@);
    let s5 = replace_seq(s4, "<br />"@, "\n"@);
    let s6 = replace_seq(s5, "&nbsp;"@, " "@);
    let s7 = replace_seq(s6, "&amp;"@, "&"@);
    let s8 = replace_seq(s7, "&lt;"@, "<"@);
    replace_seq(s8, "&gt;"@, ">"@)
}

/// The fast HTML cleaning.
pub fn clean_html_fast(html: &str) -> (r: String)
    ensures
        r@ == clean_html_spec(html@),
{
    proof {
        reveal_strlit("<p>");
        reveal_strlit("</p>");
        reveal_strlit("<br>");
        reveal_strlit("<br/>");
        reveal_strlit("<br />");
        reveal_strlit("&nbsp;");
        reveal_strlit("&amp;");
        reveal_strlit("&lt;");
        reveal_strlit("&gt;");
    }
    let s = chars_of(html);
    let s = replace_literal(&s, "<p>", "");
    let s = replace_literal(&s, "</p>", "");
    let s = replace_literal(&s, "<br>", "\n");
    let s = replace_literal(&s, "<br/>", "\n");
    let s = replace_literal(&s, "<br />", "\n");
    let s = replace_literal(&s, "&nbsp;", " ");
    let s = replace_literal(&s, "&amp;", "&");
    let s = replace_literal(&s, "&lt;", "<");
    let s = replace_literal(&s, "&gt;", ">");
    string_of(&s)
}

/// The text of an optional HTML body, empty when absent.
pub open spec fn body_text(b: Option<String>) -> Seq<char> {
    match b {
        Some(s) => s@,
        None => Seq::<char>::empty(),
    }
}

/// `{domain}/products/{handle}`.
pub open spec fn product_url_spec(domain: Seq<char>, handle: Seq<char>) -> Seq<char> {
    domain + "/products/"@ + handle
}

/// The URL of a product page.
pub fn product_url(domain: &str, handle: &str) -> (r: String)
    ensures
        r@ == product_url_spec(domain@, handle@),
{
    let mut r = copy_str(domain);
    r.append("/products/");
    r.append(handle);
    r
}

/// The address of a product's data: its page URL followed by `.json`.
pub fn product_json_url(domain: &str, handle: &str) -> (r: String)
    ensures
        r@ == product_url_spec(domain@, handle@) + ".json"@,
{
    let mut r = product_url(domain, handle);
    r.append(".json");
    r
}

/// The fields every canonical transform fills the same way: id as decimal
/// text, title, vendor, product type, handle and timestamps carried over,
/// price from the first variant, currency `USD`, availability defaulting
/// to false, tags parsed from the comma list, images and variants
/// converted one by one, and none of the optional extras set.
pub open spec fn canonical_core(p: ShopifyProduct, raw: RawShopifyProduct) -> bool {
    &&& p.id@ == decimal_seq(raw.id as nat)
    &&& p.title == raw.title
    &&& p.price_cents == first_variant_price(raw.variants@)
    &&& p.currency@ == "USD"@
    &&& p.availability == (match raw.available {
        Some(a) => a,
        None => false,
    })
    &&& p.vendor == raw.vendor
    &&& p.product_type == raw.product_type
    &&& p.tags@.map_values(|t: String| t@) == parse_tags_spec(raw.tags@)
    &&& p.images@.len() == raw.images@.len()
    &&& (forall|i: int| 0 <= i < p.images@.len() ==> p.images@[i] == image_from_raw(#[trigger] raw.images@[i]))
    &&& p.variants@.len() == raw.variants@.len()
    &&& (forall|i: int| 0 <= i < p.variants@.len() ==> variant_matches_raw(#[trigger] p.variants@[i], raw.variants@[i]))
    &&& p.created_at == raw.created_at
    &&& p.updated_at == raw.updated_at
    &&& p.handle == raw.handle
    &&& p.seo_data is None
    &&& p.analytics_data is None
    &&& p.related_products is None
    &&& p.reviews is None
    &&& p.collections is None
    &&& p.custom_fields is None
    &&& p.shipping_info is None
    &&& p.return_policy is None
    &&& p.warranty is None
    &&& p.title_de is None
    &&& p.title_fr is None
    &&& p.title_es is None
    &&& p.description_de is None
    &&& p.description_fr is None
    &&& p.description_es is None
}

/// A canonical product takes its price from its first variant, read as
/// cents (zero without variants or when the text writes no number), and
/// each variant's price likewise; its currency is `USD`; it is available
/// only when the raw product says so; it keeps the raw title, vendor,
/// product type, handle and timestamps, one image and one variant per raw
/// one, and carries none of the optional extras.
pub proof fn lemma_canonical_fields(p: ShopifyProduct, raw: RawShopifyProduct)
    requires
        canonical_core(p, raw),
    ensures
        raw.variants@.len() == 0 ==> p.price_cents == 0,
        raw.variants@.len() > 0 && parse_price_spec(raw.variants@[0].price@) is Some ==> p.price_cents == parse_price_spec(
            raw.variants@[0].price@,
        )->0,
        raw.variants@.len() > 0 && parse_price_spec(raw.variants@[0].price@) is None ==> p.price_cents == 0,
        forall|i: int| 0 <= i < p.variants@.len() ==> (#[trigger] p.variants@[i]).price_cents == (match parse_price_spec(
            raw.variants@[i].price@,
        ) {
            Some(c) => c,
            None => 0i64,
        }),
        p.currency@ == "USD"@,
        p.availability <==> raw.available == Some(true),
        p.title == raw.title && p.vendor == raw.vendor && p.product_type == raw.product_type && p.handle == raw.handle,
        p.created_at == raw.created_at && p.updated_at == raw.updated_at,
        p.images@.len() == raw.images@.len() && p.variants@.len() == raw.variants@.len(),
        p.custom_fields is None && p.seo_data is None && p.reviews is None,
{
    assert forall|i: int| 0 <= i < p.variants@.len() implies (#[trigger] p.variants@[i]).price_cents == (match parse_price_spec(
        raw.variants@[i].price@,
    ) {
        Some(c) => c,
        None => 0i64,
    }) by {
        assert(variant_matches_raw(p.variants@[i], raw.variants@[i]));
    }
}

/// How the description is derived from the raw HTML body.
pub enum DescriptionCleaning {
    /// Kept as it is.
    Keep,
    /// Paragraph tags removed.
    StripParagraphs,
    /// Paragraph tags removed, breaks and entities decoded.
    CleanHtml,
}

/// The description that `cleaning` derives from `body`.
pub open spec fn description_spec(cleaning: DescriptionCleaning, body: Seq<char>) -> Seq<char> {
    match cleaning {
        DescriptionCleaning::Keep => body,
        DescriptionCleaning::StripParagraphs => strip_paragraphs_spec(body),
        DescriptionCleaning::CleanHtml => clean_html_spec(body),
    }
}

/// A raw product in canonical form, with the description derived by
/// `cleaning` from the HTML body (empty when absent) and the given page URL.
pub fn build_canonical(raw: RawShopifyProduct, cleaning: DescriptionCleaning, url: String) -> (p: ShopifyProduct)
    ensures
        canonical_core(p, raw),
        p.description@ == description_spec(cleaning, body_text(raw.body_html)),
        p.url == url,
{
    let body = match &raw.body_html {
        Some(b) => copy_str(b.as_str()),
        None => String::new(),
    };
    let description = match cleaning {
        DescriptionCleaning::Keep => body,
        DescriptionCleaning::StripParagraphs => strip_paragraphs(body.as_str()),
        DescriptionCleaning::CleanHtml => clean_html_fast(body.as_str()),
    };
    let price_cents = first_price(&raw.variants);
    let tags = parse_tags(raw.tags.as_str());
    ShopifyProduct {
        id: decimal_string(raw.id),
        title: raw.title,
        description,
        price_cents,
        currency: copy_str("USD"),
        availability: match raw.available {
            Some(a) => a,
            None => false,
        },
        vendor: raw.vendor,
        product_type: raw.product_type,
        tags,
        images: transform_images(raw.images),
        variants: transform_variants(raw.variants),
        created_at: raw.created_at,
        updated_at: raw.updated_at,
        handle: raw.handle,
        url,
        seo_data: None,
        analytics_data: None,
        related_products: None,
        reviews: None,
        collections: None,
        custom_fields: None,
        shipping_info: None,
        return_policy: None,
        warranty: None,
        title_de: None,
        title_fr: None,
        title_es: None,
        description_de: None,
        description_fr: None,
        description_es: None,
    }
}

} // verus!
