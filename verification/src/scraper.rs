//! The single-store scraper's transform of a fetched product.
use vstd::prelude::*;
use crate::models::{RawShopifyProduct, ShopifyProduct};
use crate::transform::{body_text, build_canonical, canonical_core, strip_paragraphs_spec, DescriptionCleaning};

verus! {

/// The single-store scraper's canonical product: paragraph tags removed
/// from the description, and no page URL.
pub fn transform_to_canonical(raw: RawShopifyProduct) -> (p: ShopifyProduct)
    ensures
        canonical_core(p, raw),
        p.description@ == strip_paragraphs_spec(body_text(raw.body_html)),
        p.url@.len() == 0,
{
    build_canonical(raw, DescriptionCleaning::StripParagraphs, String::new())
}

} // verus!
