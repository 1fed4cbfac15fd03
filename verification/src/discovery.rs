//! Finding product handles in a store's product listing (`products.json`)
//! or in its product sitemap.
use vstd::prelude::*;
use crate::text::{copy_str, str_contains, str_ends_with, contains_seq, ends_with_seq};
use crate::models::texts_of;
use crate::patterns::{capture_groups, opt_texts, regex_captures};

verus! {

#[verifier::external_type_specification]
#[verifier::external_body]
pub struct ExJsonError(serde_json::Error);

/// What `serde_json` reads from a listing body: `None` when the bytes are
/// not JSON; `Some(None)` when they are but hold no `products` array;
/// otherwise, for each element of that array, its `handle` when that is a
/// string.
pub uninterp spec fn json_listing(data: Seq<u8>) -> Option<Option<Seq<Option<Seq<char>>>>>;

/// What `String::from_utf8_lossy` makes of bytes that are not UTF-8.
pub uninterp spec fn utf8_lossy(data: Seq<u8>) -> Seq<char>;

/// `serde_json::from_slice` into a JSON value, then, when it has a
/// `products` array (`Value::get`, `Value::as_array`), the `handle` string
/// of each element (`Value::get`, `Value::as_str`), converted to owned
/// strings. Named as a function of the bytes alone.
#[verifier::external_body]
fn read_listing(data: &[u8]) -> (r: Result<Option<Vec<Option<String>>>, serde_json::Error>)
    ensures
        match r {
            Ok(Some(v)) => json_listing(data@) == Some(Some(opt_texts(v@))),
            Ok(None) => json_listing(data@) == Some(None::<Seq<Option<Seq<char>>>>),
            Err(_) => json_listing(data@) is None,
        },
{
    let value: serde_json::Value = serde_json::from_slice(data)?;
    match value.get("products").and_then(|p| p.as_array()) {
        Some(items) => Ok(Some(items.iter().map(|p| p.get("handle").and_then(|h| h.as_str()).map(|s| s.to_string())).collect())),
        None => Ok(None),
    }
}

/// `String::from_utf8_lossy`: the decoded text when the bytes are UTF-8;
/// otherwise a named result (invalid sequences become U+FFFD).
#[verifier::external_body]
fn decode_lossy(data: &[u8]) -> (r: String)
    ensures
        vstd::utf8::valid_utf8(data@) ==> r@ == vstd::utf8::decode_utf8(data@),
        !vstd::utf8::valid_utf8(data@) ==> r@ == utf8_lossy(data@),
{
    String::from_utf8_lossy(data).into_owned()
}

/// `String::from_utf8`: the text when the bytes are UTF-8.
#[verifier::external_body]
fn decode_strict(data: Vec<u8>) -> (r: Option<String>)
    ensures
        r is Some <==> vstd::utf8::valid_utf8(data@),
        r matches Some(s) ==> s@ == vstd::utf8::decode_utf8(data@),
{
    match String::from_utf8(data) {
        Ok(s) => Some(s),
        Err(_) => None,
    }
}

/// The first `max` entries (all when there are fewer).
pub open spec fn first_n<T>(s: Seq<T>, max: nat) -> Seq<T> {
    if max < s.len() {
        s.take(max as int)
    } else {
        s
    }
}

/// The handles that are present, in order.
pub open spec fn present(s: Seq<Option<Seq<char>>>) -> Seq<Seq<char>>
    decreases s.len(),
{
    if s.len() == 0 {
        seq![]
    } else {
        let p = present(s.drop_last());
        match s.last() {
            Some(h) => p.push(h),
            None => p,
        }
    }
}

/// The handles among the first `max` entries (`take(max)` then
/// `filter_map`).
pub open spec fn take_handles_spec(s: Seq<Option<Seq<char>>>, max: nat) -> Seq<Seq<char>> {
    present(first_n(s, max))
}

proof fn lemma_present(s: Seq<Option<Seq<char>>>)
    ensures
        present(s).len() <= s.len(),
        forall|h: Seq<char>| #[trigger] present(s).contains(h) <==> exists|i: int| 0 <= i < s.len() && s[i] == Some(h),
    decreases s.len(),
{
    if s.len() > 0 {
        let init = s.drop_last();
        lemma_present(init);
        let p = present(init);
        assert forall|h: Seq<char>| #[trigger] present(s).contains(h) <==> exists|i: int| 0 <= i < s.len() && s[i] == Some(h) by {
            if present(s).contains(h) {
                let j = choose|j: int| 0 <= j < present(s).len() && present(s)[j] == h;
                if j < p.len() {
                    assert(present(s)[j] == p[j]);
                    assert(p.contains(h));
                    let i = choose|i: int| 0 <= i < init.len() && init[i] == Some(h);
                    assert(s[i] == init[i]);
                } else {
                    assert(s[s.len() - 1] == Some(h));
                }
            }
            if exists|i: int| 0 <= i < s.len() && s[i] == Some(h) {
                let i = choose|i: int| 0 <= i < s.len() && s[i] == Some(h);
                if i < s.len() - 1 {
                    assert(init[i] == s[i]);
                    assert(p.contains(h));
                    let j = choose|j: int| 0 <= j < p.len() && p[j] == h;
                    assert(present(s)[j] == h);
                } else {
                    assert(present(s)[p.len() as int] == h);
                }
            }
        }
    }
}

/// At most `max` handles are taken, and a handle is taken exactly when it
/// is one of the present entries among the first `max`.
pub proof fn lemma_take_handles(s: Seq<Option<Seq<char>>>, max: nat)
    ensures
        take_handles_spec(s, max).len() <= max,
        forall|h: Seq<char>| #[trigger] take_handles_spec(s, max).contains(h) <==> exists|i: int| 0 <= i < s.len() && i < max
            && s[i] == Some(h),
{
    let f = first_n(s, max);
    lemma_present(f);
    assert forall|h: Seq<char>| #[trigger] take_handles_spec(s, max).contains(h) <==> exists|i: int| 0 <= i < s.len() && i
        < max && s[i] == Some(h) by {
        if exists|i: int| 0 <= i < s.len() && i < max && s[i] == Some(h) {
            let i = choose|i: int| 0 <= i < s.len() && i < max && s[i] == Some(h);
            assert(f[i] == s[i]);
        }
        if exists|i: int| 0 <= i < f.len() && f[i] == Some(h) {
            let i = choose|i: int| 0 <= i < f.len() && f[i] == Some(h);
            assert(f[i] == s[i]);
        }
    }
}

/// The present handles among the first `max` entries.
pub fn take_handles(entries: Vec<Option<String>>, max: usize) -> (r: Vec<String>)
    ensures
        texts_of(r@) == take_handles_spec(opt_texts(entries@), max as nat),
{
    let ghost all = opt_texts(entries@);
    let ghost firsts = first_n(all, max as nat);
    let mut out: Vec<String> = Vec::new();
    let n = if max < entries.len() {
        max
    } else {
        entries.len()
    };
    let ghost orig = entries@;
    let mut rest = crate::vecs::reversed(entries);
    let mut i: usize = 0;
    proof {
        assert(firsts.len() == n);
    }
    while i < n
        invariant
            i <= n <= orig.len(),
            rest@.len() == orig.len() - i,
            all == opt_texts(orig),
            firsts == first_n(all, max as nat),
            firsts.len() == n,
            forall|j: int| 0 <= j < rest@.len() ==> #[trigger] rest@[j] == orig[orig.len() - 1 - j],
            texts_of(out@) == present(firsts.take(i as int)),
        decreases n - i,
    {
        let e = rest.pop().unwrap();
        proof {
            assert(e == orig[i as int]);
            assert(firsts[i as int] == all[i as int]);
            assert(firsts.take(i + 1).drop_last() == firsts.take(i as int));
            assert(firsts.take(i + 1).last() == firsts[i as int]);
        }
        match e {
            Some(h) => {
                let ghost before = texts_of(out@);
                out.push(h);
                proof {
                    assert(texts_of(out@) == before.push(h@));
                }
            },
            None => {},
        }
        i += 1;
    }
    proof {
        assert(firsts.take(n as int) == firsts);
    }
    out
}

/// Why discovery stopped with an error.
#[derive(Debug, Clone, Copy, PartialEq, Eq, Structural)]
pub enum DiscoveryError {
    /// A listing body was not JSON.
    InvalidJson,
    /// The regex crate refused the sitemap pattern.
    PatternRejected,
}

/// Handles from a listing body: `Err` when it is not JSON, none when it
/// has no `products` array, else the handles among the first `max`
/// products.
pub open spec fn listing_handles_spec(data: Seq<u8>, max: nat) -> Result<Seq<Seq<char>>, DiscoveryError> {
    match json_listing(data) {
        None => Err(DiscoveryError::InvalidJson),
        Some(None) => Ok(Seq::<Seq<char>>::empty()),
        Some(Some(entries)) => Ok(take_handles_spec(entries, max)),
    }
}

/// Handles from a `products.json` body.
pub fn listing_handles(data: &[u8], max: usize) -> (r: Result<Vec<String>, DiscoveryError>)
    ensures
        match r {
            Ok(v) => listing_handles_spec(data@, max as nat) == Ok::<Seq<Seq<char>>, DiscoveryError>(texts_of(v@)),
            Err(e) => listing_handles_spec(data@, max as nat) == Err::<Seq<Seq<char>>, DiscoveryError>(e),
        },
{
    match read_listing(data) {
        Ok(Some(entries)) => Ok(take_handles(entries, max)),
        Ok(None) => {
            let v: Vec<String> = Vec::new();
            proof {
                assert(texts_of(v@) == Seq::<Seq<char>>::empty());
            }
            Ok(v)
        },
        Err(_) => Err(DiscoveryError::InvalidJson),
    }
}

/// The sitemap pattern of the basic scraper: the text after `/products/` up
/// to a double quote.
pub open spec fn sitemap_pattern() -> Seq<char> {
    "/products/([^\"]+)"@
}

/// The text of a sitemap body as the HTTP client decodes it.
pub open spec fn lossy_text(data: Seq<u8>) -> Seq<char> {
    if vstd::utf8::valid_utf8(data) {
        vstd::utf8::decode_utf8(data)
    } else {
        utf8_lossy(data)
    }
}

/// Handles from a sitemap body: group 1 of the first `max` matches of the
/// sitemap pattern; `Err` when the regex crate refuses the pattern.
pub open spec fn sitemap_handles_spec(data: Seq<u8>, max: nat) -> Result<Seq<Seq<char>>, DiscoveryError> {
    match regex_captures(sitemap_pattern(), lossy_text(data), 1) {
        None => Err(DiscoveryError::PatternRejected),
        Some(groups) => Ok(take_handles_spec(groups, max)),
    }
}

/// Handles from a sitemap body.
pub fn sitemap_handles(data: &[u8], max: usize) -> (r: Result<Vec<String>, DiscoveryError>)
    ensures
        match r {
            Ok(v) => sitemap_handles_spec(data@, max as nat) == Ok::<Seq<Seq<char>>, DiscoveryError>(texts_of(v@)),
            Err(e) => sitemap_handles_spec(data@, max as nat) == Err::<Seq<Seq<char>>, DiscoveryError>(e),
        },
{
    let text = decode_lossy(data);
    match capture_groups("/products/([^\"]+)", text.as_str(), 1) {
        Ok(groups) => Ok(take_handles(groups, max)),
        Err(_) => Err(DiscoveryError::PatternRejected),
    }
}

/// The listings the basic scraper tries, in order: all products of the
/// `all` collection, the store's product list, the product sitemap.
pub open spec fn discovery_urls_spec(domain: Seq<char>) -> Seq<Seq<char>> {
    seq![
        domain + "/collections/all/products.json"@,
        domain + "/products.json"@,
        domain + "/sitemap_products_1.xml"@,
    ]
}

/// The listing URLs the single-store scraper tries, in order.
pub fn discovery_urls(domain: &str) -> (r: Vec<String>)
    ensures
        texts_of(r@) == discovery_urls_spec(domain@),
{
    let mut a = copy_str(domain);
    a.append("/collections/all/products.json");
    let mut b = copy_str(domain);
    b.append("/products.json");
    let mut c = copy_str(domain);
    c.append("/sitemap_products_1.xml");
    let r = vec![a, b, c];
    proof {
        assert(texts_of(r@) =~= discovery_urls_spec(domain@));
    }
    r
}

/// What one fetched listing tells the basic scraper: `Ok(Some(handles))`
/// to stop with these (nonempty) handles, `Ok(None)` to try the next
/// listing, `Err` to stop with an error. A `.json` URL is read as a
/// listing, a `.xml` URL as a sitemap.
pub open spec fn discovery_step_spec(url: Seq<char>, data: Seq<u8>, max: nat) -> Result<Option<Seq<Seq<char>>>, DiscoveryError> {
    let found = if ends_with_seq(url, ".json"@) {
        listing_handles_spec(data, max)
    } else if ends_with_seq(url, ".xml"@) {
        sitemap_handles_spec(data, max)
    } else {
        Ok(Seq::<Seq<char>>::empty())
    };
    match found {
        Err(e) => Err(e),
        Ok(hs) => Ok(if hs.len() > 0 {
            Some(hs)
        } else {
            None
        }),
    }
}

/// What the single-store scraper makes of the body of a listing that
/// answered `200 OK`.
pub fn discovery_step(url: &str, data: &[u8], max: usize) -> (r: Result<Option<Vec<String>>, DiscoveryError>)
    ensures
        match r {
            Ok(Some(v)) => discovery_step_spec(url@, data@, max as nat) == Ok::<Option<Seq<Seq<char>>>, DiscoveryError>(Some(texts_of(v@))),
            Ok(None) => discovery_step_spec(url@, data@, max as nat) == Ok::<Option<Seq<Seq<char>>>, DiscoveryError>(None),
            Err(e) => discovery_step_spec(url@, data@, max as nat) == Err::<Option<Seq<Seq<char>>>, DiscoveryError>(e),
        },
{
    let found = if str_ends_with(url, ".json") {
        listing_handles(data, max)
    } else if str_ends_with(url, ".xml") {
        sitemap_handles(data, max)
    } else {
        let v: Vec<String> = Vec::new();
        proof {
            assert(texts_of(v@) == Seq::<Seq<char>>::empty());
        }
        Ok(v)
    };
    match found {
        Err(e) => Err(e),
        Ok(hs) => if hs.len() > 0 {
            Ok(Some(hs))
        } else {
            Ok(None)
        },
    }
}

/// Handles from a listing body, reading a body that is not JSON or has no
/// `products` array as no handles.
pub open spec fn lenient_handles_spec(data: Seq<u8>, max: nat) -> Seq<Seq<char>> {
    match listing_handles_spec(data, max) {
        Ok(hs) => hs,
        Err(_) => Seq::<Seq<char>>::empty(),
    }
}

/// The fast scraper's handles once its listing is fetched: none when
/// nothing came back, else the handles of the listing, reading a bad
/// listing as none.
pub fn lightning_handles(fetched: Option<Vec<u8>>, max: usize) -> (r: Vec<String>)
    ensures
        texts_of(r@) == match fetched {
            Some(d) => lenient_handles_spec(d@, max as nat),
            None => Seq::<Seq<char>>::empty(),
        },
{
    match fetched {
        Some(d) => match listing_handles(d.as_slice(), max) {
            Ok(v) => v,
            Err(_) => {
                let v: Vec<String> = Vec::new();
                proof {
                    assert(texts_of(v@) == Seq::<Seq<char>>::empty());
                }
                v
            },
        },
        None => {
            let v: Vec<String> = Vec::new();
            proof {
                assert(texts_of(v@) == Seq::<Seq<char>>::empty());
            }
            v
        },
    }
}

/// The sitemap pattern of the multi-website scraper: one path segment
/// after `/products/`.
pub open spec fn segment_pattern() -> Seq<char> {
    "/products/([^/]+)"@
}

/// What one fetched listing tells the multi-website scraper: a URL that
/// contains `.json` is read as a listing (a bad one gives no handles), one
/// that contains `.xml` as a sitemap of UTF-8 text (other bytes give no
/// handles); nonempty handles end the search.
pub open spec fn multi_step_spec(url: Seq<char>, data: Seq<u8>, max: nat) -> Result<Option<Seq<Seq<char>>>, DiscoveryError> {
    let found = if contains_seq(url, ".json"@) {
        Ok(lenient_handles_spec(data, max))
    } else if contains_seq(url, ".xml"@) {
        if vstd::utf8::valid_utf8(data) {
            match regex_captures(segment_pattern(), vstd::utf8::decode_utf8(data), 1) {
                None => Err(DiscoveryError::PatternRejected),
                Some(groups) => Ok(take_handles_spec(groups, max)),
            }
        } else {
            Ok(Seq::<Seq<char>>::empty())
        }
    } else {
        Ok(Seq::<Seq<char>>::empty())
    };
    match found {
        Err(e) => Err(e),
        Ok(hs) => Ok(if hs.len() > 0 {
            Some(hs)
        } else {
            None
        }),
    }
}

/// What the multi-website scraper makes of a fetched listing body.
pub fn multi_discovery_step(url: &str, data: Vec<u8>, max: usize) -> (r: Result<Option<Vec<String>>, DiscoveryError>)
    ensures
        match r {
            Ok(Some(v)) => multi_step_spec(url@, data@, max as nat) == Ok::<Option<Seq<Seq<char>>>, DiscoveryError>(Some(texts_of(v@))),
            Ok(None) => multi_step_spec(url@, data@, max as nat) == Ok::<Option<Seq<Seq<char>>>, DiscoveryError>(None),
            Err(e) => multi_step_spec(url@, data@, max as nat) == Err::<Option<Seq<Seq<char>>>, DiscoveryError>(e),
        },
{
    let ghost bytes = data@;
    let found: Result<Vec<String>, DiscoveryError> = if str_contains(url, ".json") {
        Ok(lightning_handles(Some(data), max))
    } else if str_contains(url, ".xml") {
        match decode_strict(data) {
            Some(text) => match capture_groups("/products/([^/]+)", text.as_str(), 1) {
                Ok(groups) => Ok(take_handles(groups, max)),
                Err(_) => Err(DiscoveryError::PatternRejected),
            },
            None => {
                let v: Vec<String> = Vec::new();
                proof {
                    assert(texts_of(v@) == Seq::<Seq<char>>::empty());
                }
                Ok(v)
            },
        }
    } else {
        let v: Vec<String> = Vec::new();
        proof {
            assert(texts_of(v@) == Seq::<Seq<char>>::empty());
        }
        Ok(v)
    };
    match found {
        Err(e) => Err(e),
        Ok(hs) => if hs.len() > 0 {
            Ok(Some(hs))
        } else {
            Ok(None)
        },
    }
}

} // verus!
