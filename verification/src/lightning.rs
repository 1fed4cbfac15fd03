//! The fast scraper's settings and its transforms: the configuration it
//! derives from the input, how fetched products become canonical, and how
//! handles are split into batches.
use vstd::prelude::*;
use std::sync::atomic::AtomicU64;
use crate::models::{ProductView, ShopifyProduct, Timestamp, RawShopifyProduct};
use crate::schema::{ScraperConfig, ScraperInput};
use crate::text::copy_str;
use crate::transform::{
    body_text, build_canonical, canonical_core, clean_html_spec, product_url, product_url_spec,
    DescriptionCleaning,
};
use crate::validation::products_view;

verus! {

/// Counters shared by all tasks of a run, updated without locks.
pub struct AtomicMetrics {
    pub total_requests: AtomicU64,
    pub successful_requests: AtomicU64,
    pub failed_requests: AtomicU64,
    pub cached_responses: AtomicU64,
    pub processing_time_ms: AtomicU64,
}

impl Default for AtomicMetrics {
    /// Every counter made with `AtomicU64::new(0)`. Nothing is stated of
    /// the values: atomics carry none that a contract can read.
    fn default() -> (r: Self) {
        AtomicMetrics {
            total_requests: AtomicU64::new(0),
            successful_requests: AtomicU64::new(0),
            failed_requests: AtomicU64::new(0),
            cached_responses: AtomicU64::new(0),
            processing_time_ms: AtomicU64::new(0),
        }
    }
}

/// A product as it enters the processing channel; price in cents.
#[derive(Debug, Clone)]
pub struct RawProduct {
    pub id: String,
    pub title: String,
    pub price_cents: i64,
    pub currency: String,
    pub vendor: String,
    pub url: String,
    pub domain: String,
    /// The JSON the product was read from.
    pub raw_data: Vec<u8>,
}

/// What the fast scraper is asked to scrape and how hard.
#[derive(Debug, Clone)]
pub struct LightningConfig {
    pub websites: Vec<String>,
    pub max_products_per_site: usize,
    pub max_concurrent_per_domain: usize,
    pub global_max_concurrent: usize,
    pub cache_ttl_seconds: u64,
    pub timeout_seconds: u64,
    pub enable_zero_copy: bool,
    pub enable_simd: bool,
    pub enable_memory_pool: bool,
    pub batch_size: usize,
}

impl Default for LightningConfig {
    /// No websites; 1000 products per site; 100 requests per domain and
    /// 1000 in all; responses cached for an hour; 10 s timeout; every
    /// optimisation on; batches of 1000.
    fn default() -> (r: Self)
        ensures
            r.websites@.len() == 0,
            r.max_products_per_site == 1000,
            r.max_concurrent_per_domain == 100,
            r.global_max_concurrent == 1000,
            r.cache_ttl_seconds == 3600,
            r.timeout_seconds == 10,
            r.enable_zero_copy && r.enable_simd && r.enable_memory_pool,
            r.batch_size == 1000,
    {
        LightningConfig {
            websites: Vec::new(),
            max_products_per_site: 1000,
            max_concurrent_per_domain: 100,
            global_max_concurrent: 1000,
            cache_ttl_seconds: 3600,
            timeout_seconds: 10,
            enable_zero_copy: true,
            enable_simd: true,
            enable_memory_pool: true,
            batch_size: 1000,
        }
    }
}

/// The HTTP client's timeout: the configured seconds, or none when zero.
pub fn client_timeout(timeout_seconds: u64) -> (r: Option<u64>)
    ensures
        r == (if timeout_seconds > 0 {
            Some(timeout_seconds)
        } else {
            None::<u64>
        }),
{
    if timeout_seconds > 0 {
        Some(timeout_seconds)
    } else {
        None
    }
}

/// The settings the fast scraper derives from the input: its own
/// user agent, no rate limiting, at most three redirects.
pub fn lightning_scraper_config(input: ScraperInput) -> (r: ScraperConfig)
    ensures
        r.input == input,
        r.user_agent@ == "LightningScraper/3.0 (Rust)"@,
        r.rate_limit_delay == 0,
        r.max_redirects == 3,
{
    ScraperConfig {
        input,
        user_agent: copy_str("LightningScraper/3.0 (Rust)"),
        rate_limit_delay: 0,
        max_redirects: 3,
    }
}

/// The fast scraper's product once it is read: the canonical product with its description cleaned of HTML and
/// its page URL under `domain`.
pub fn lightning_product(raw: RawShopifyProduct, domain: &str) -> (p: ShopifyProduct)
    ensures
        canonical_core(p, raw),
        p.description@ == clean_html_spec(body_text(raw.body_html)),
        p.url@ == product_url_spec(domain@, raw.handle@),
{
    let url = product_url(domain, raw.handle.as_str());
    build_canonical(raw, DescriptionCleaning::CleanHtml, url)
}

/// The canonical product a channel entry becomes at time `now`: its id,
/// title, price, currency, vendor and URL kept; available; both
/// timestamps `now`; everything else empty.
pub open spec fn from_raw_product_spec(raw: RawProduct, now: Timestamp) -> ProductView {
    ProductView {
        id: raw.id@,
        title: raw.title@,
        description: Seq::empty(),
        price_cents: raw.price_cents,
        currency: raw.currency@,
        availability: true,
        vendor: raw.vendor@,
        product_type: Seq::empty(),
        tags: Seq::empty(),
        images: Seq::empty(),
        variants: Seq::empty(),
        created_at: now,
        updated_at: now,
        handle: Seq::empty(),
        url: raw.url@,
        seo_data: None,
        analytics_data: None,
        related_products: None,
        reviews: None,
        collections: None,
        custom_fields: None,
        shipping_info: None,
        return_policy: None,
        warranty: None,
        title_de: None,
        title_fr: None,
        title_es: None,
        description_de: None,
        description_fr: None,
        description_es: None,
    }
}

/// A channel entry becomes an available product with the entry's id,
/// title, price, currency, vendor and URL, created and updated at the
/// processing time, with no description, tags, images or variants.
pub proof fn lemma_from_raw_fields(raw: RawProduct, now: Timestamp)
    ensures
        from_raw_product_spec(raw, now).availability,
        from_raw_product_spec(raw, now).id == raw.id@ && from_raw_product_spec(raw, now).title == raw.title@,
        from_raw_product_spec(raw, now).price_cents == raw.price_cents,
        from_raw_product_spec(raw, now).currency == raw.currency@ && from_raw_product_spec(raw, now).vendor == raw.vendor@,
        from_raw_product_spec(raw, now).url == raw.url@,
        from_raw_product_spec(raw, now).created_at == now && from_raw_product_spec(raw, now).updated_at == now,
        from_raw_product_spec(raw, now).description.len() == 0 && from_raw_product_spec(raw, now).tags.len() == 0,
        from_raw_product_spec(raw, now).images.len() == 0 && from_raw_product_spec(raw, now).variants.len() == 0,
{
}

/// One channel entry in canonical form at time `now`.
pub fn from_raw_product(raw: RawProduct, now: Timestamp) -> (p: ShopifyProduct)
    ensures
        p@ == from_raw_product_spec(raw, now),
{
    let p = ShopifyProduct {
        id: raw.id,
        title: raw.title,
        description: String::new(),
        price_cents: raw.price_cents,
        currency: raw.currency,
        availability: true,
        vendor: raw.vendor,
        product_type: String::new(),
        tags: Vec::new(),
        images: Vec::new(),
        variants: Vec::new(),
        created_at: now,
        updated_at: now,
        handle: String::new(),
        url: raw.url,
        seo_data: None,
        analytics_data: None,
        related_products: None,
        reviews: None,
        collections: None,
        custom_fields: None,
        shipping_info: None,
        return_policy: None,
        warranty: None,
        title_de: None,
        title_fr: None,
        title_es: None,
        description_de: None,
        description_fr: None,
        description_es: None,
    };
    proof {
        assert(p@.tags =~= Seq::<Seq<char>>::empty());
    }
    p
}

/// `p` is `raw` in canonical form at some time.
pub open spec fn stamped_from(p: ProductView, raw: RawProduct) -> bool {
    exists|t: Timestamp| p == from_raw_product_spec(raw, t)
}

/// The current time, by `chrono::Utc::now()`, as seconds and nanoseconds
/// since the Unix epoch. Nothing is stated of it: it is the time.
#[verifier::external_body]
fn utc_now() -> (t: Timestamp) {
    let now = chrono::Utc::now();
    Timestamp { unix_seconds: now.timestamp(), nanos: now.timestamp_subsec_nanos() }
}

/// The entries that came through the processing channel: each in canonical form, stamped with the time it
/// was processed.
pub fn process_raw_products(raws: Vec<RawProduct>) -> (r: Vec<ShopifyProduct>)
    ensures
        r@.len() == raws@.len(),
        forall|i: int| 0 <= i < r@.len() ==> stamped_from((#[trigger] r@[i])@, raws@[i]),
{
    let ghost orig = raws@;
    let n = raws.len();
    let mut rest = crate::vecs::reversed(raws);
    let mut out: Vec<ShopifyProduct> = Vec::new();
    while out.len() < n
        invariant
            n == orig.len(),
            out@.len() + rest@.len() == n,
            forall|j: int| 0 <= j < rest@.len() ==> #[trigger] rest@[j] == orig[n - 1 - j],
            forall|i: int| 0 <= i < out@.len() ==> stamped_from((#[trigger] out@[i])@, orig[i]),
        decreases n - out@.len(),
    {
        let raw = rest.pop().unwrap();
        proof {
            assert(raw == orig[out@.len() as int]);
        }
        let now = utc_now();
        let p = from_raw_product(raw, now);
        let ghost before = out@;
        out.push(p);
        proof {
            assert forall|i: int| 0 <= i < out@.len() implies stamped_from((#[trigger] out@[i])@, orig[i]) by {
                if i == out@.len() - 1 {
                    assert(out@[i]@ == from_raw_product_spec(orig[i], now));
                    assert(stamped_from(out@[i]@, orig[i]));
                } else {
                    assert(out@[i] == before[i]);
                }
            }
        }
    }
    out
}

/// `handles` cut into consecutive batches of `size`, the last one shorter
/// when they do not divide evenly.
pub open spec fn batches_spec(handles: Seq<Seq<char>>, size: nat) -> Seq<Seq<Seq<char>>>
    decreases handles.len(),
{
    if handles.len() == 0 || size == 0 {
        Seq::empty()
    } else if handles.len() <= size {
        seq![handles]
    } else {
        seq![handles.take(size as int)] + batches_spec(handles.skip(size as int), size)
    }
}

/// The batches put back together.
pub open spec fn flatten(batches: Seq<Seq<Seq<char>>>) -> Seq<Seq<char>>
    decreases batches.len(),
{
    if batches.len() == 0 {
        Seq::empty()
    } else {
        batches[0] + flatten(batches.drop_first())
    }
}

/// The texts of a list of batches of strings.
pub open spec fn batch_texts(v: Seq<Vec<String>>) -> Seq<Seq<Seq<char>>> {
    v.map_values(|b: Vec<String>| crate::models::texts_of(b@))
}

/// Batches lose and reorder nothing: put back together they are the
/// handles, each batch is nonempty and no longer than `size`.
pub proof fn lemma_batches(handles: Seq<Seq<char>>, size: nat)
    requires
        size > 0,
    ensures
        flatten(batches_spec(handles, size)) == handles,
        forall|i: int| 0 <= i < batches_spec(handles, size).len() ==> 0 < (#[trigger] batches_spec(handles, size)[i]).len() <= size,
    decreases handles.len(),
{
    if handles.len() == 0 {
    } else if handles.len() <= size {
        let b = batches_spec(handles, size);
        assert(b.drop_first() =~= Seq::<Seq<Seq<char>>>::empty());
        assert(flatten(b.drop_first()) == Seq::<Seq<char>>::empty());
        assert(flatten(b) =~= handles);
    } else {
        let rest = batches_spec(handles.skip(size as int), size);
        lemma_batches(handles.skip(size as int), size);
        let b = batches_spec(handles, size);
        assert(b.drop_first() =~= rest);
        assert(handles.take(size as int) + handles.skip(size as int) =~= handles);
        assert forall|i: int| 0 <= i < b.len() implies 0 < (#[trigger] b[i]).len() <= size by {
            if i > 0 {
                assert(b[i] == rest[i - 1]);
            }
        }
    }
}

/// The batches of handles the fast scraper scrapes one after the other.
pub fn handle_batches(handles: &Vec<String>, size: usize) -> (r: Vec<Vec<String>>)
    requires
        size > 0,
    ensures
        batch_texts(r@) == batches_spec(crate::models::texts_of(handles@), size as nat),
{
    let ghost all = crate::models::texts_of(handles@);
    let mut out: Vec<Vec<String>> = Vec::new();
    let mut start: usize = 0;
    proof {
        assert(batch_texts(out@) =~= Seq::<Seq<Seq<char>>>::empty());
        assert(all.skip(0) =~= all);
        assert(batch_texts(out@) + batches_spec(all.skip(0), size as nat) =~= batches_spec(all, size as nat));
    }
    while start < handles.len()
        invariant
            size > 0,
            start <= handles@.len(),
            all == crate::models::texts_of(handles@),
            batch_texts(out@) + batches_spec(all.skip(start as int), size as nat) == batches_spec(all, size as nat),
        decreases handles@.len() - start,
    {
        let end: usize = if handles.len() - start <= size {
            handles.len()
        } else {
            start + size
        };
        let mut batch: Vec<String> = Vec::new();
        let mut k: usize = start;
        proof {
            assert(crate::models::texts_of(batch@) =~= all.subrange(start as int, start as int));
        }
        while k < end
            invariant
                start <= k <= end <= handles@.len(),
                all == crate::models::texts_of(handles@),
                crate::models::texts_of(batch@) == all.subrange(start as int, k as int),
            decreases end - k,
        {
            let ghost bt = crate::models::texts_of(batch@);
            let h = copy_str(handles[k].as_str());
            batch.push(h);
            proof {
                assert(all[k as int] == handles@[k as int]@);
                assert(crate::models::texts_of(batch@) =~= bt.push(h@));
                assert(crate::models::texts_of(batch@) =~= all.subrange(start as int, k + 1));
            }
            k += 1;
        }
        let ghost rest = all.skip(start as int);
        proof {
            assert(rest.len() > 0);
            if rest.len() <= size {
                assert(batches_spec(rest, size as nat) == seq![rest]);
                assert(all.subrange(start as int, end as int) =~= rest);
                assert(all.skip(end as int) =~= Seq::<Seq<char>>::empty());
            } else {
                assert(rest.take(size as int) =~= all.subrange(start as int, end as int));
                assert(rest.skip(size as int) =~= all.skip(end as int));
            }
        }
        let ghost before = batch_texts(out@);
        out.push(batch);
        proof {
            assert(batch_texts(out@) =~= before.push(all.subrange(start as int, end as int)));
            if rest.len() <= size {
                assert(batches_spec(all.skip(end as int), size as nat) =~= Seq::<Seq<Seq<char>>>::empty());
                assert(batch_texts(out@) + batches_spec(all.skip(end as int), size as nat) =~= before + seq![rest]);
            } else {
                assert(batches_spec(rest, size as nat) =~= seq![all.subrange(start as int, end as int)] + batches_spec(all.skip(end as int), size as nat));
                assert(batch_texts(out@) + batches_spec(all.skip(end as int), size as nat) =~= before + batches_spec(rest, size as nat));
            }
        }
        start = end;
    }
    proof {
        assert(all.skip(start as int) =~= Seq::<Seq<char>>::empty());
        assert(batch_texts(out@) + Seq::<Seq<Seq<char>>>::empty() =~= batch_texts(out@));
    }
    out
}

} // verus!
