//! Store domains: normalising what a user types into a base URL, and
//! recognising Shopify stores.
use vstd::prelude::*;
use crate::text::{
    matches_at, concat_str, contains_seq, lowercase_of, starts_with_seq, str_contains, str_starts_with,
    to_lowercase, trim_chars, string_of, chars_of, trim_end_char, trim_end_char_seq, trim_seq,
};

verus! {

#[verifier::external_type_specification]
#[verifier::external_body]
pub struct ExUrlParseError(url::ParseError);

/// The serialization that the `url` crate gives for `input` when it parses
/// it as an absolute URL; `None` when it refuses it.
pub uninterp spec fn url_serialization(input: Seq<char>) -> Option<Seq<char>>;

/// The host that the `url` crate finds in `input`, when it parses it and
/// the URL has a host.
pub uninterp spec fn url_host(input: Seq<char>) -> Option<Seq<char>>;

/// `url::Url::parse` followed by the URL's serialization (`String::from`).
/// The contract names the result: it is a function of `input` alone, and
/// the call fails exactly when that name gives no serialization. It also
/// states the invariant that `Url::check_invariants` asserts of every
/// parsed URL: its serialization parses again, to the same serialization.
#[verifier::external_body]
pub(crate) fn parse_url(input: &str) -> (r: Result<String, url::ParseError>)
    ensures
        match r {
            Ok(s) => url_serialization(input@) == Some(s@) && url_serialization(s@) == Some(s@),
            Err(_) => url_serialization(input@) is None,
        },
{
    match url::Url::parse(input) {
        Ok(u) => Ok(String::from(u)),
        Err(e) => Err(e),
    }
}

/// `url::Url::host_str` of the URL that `url::Url::parse` makes of `input`;
/// `None` when it does not parse or has no host. Named as a function of
/// `input` alone.
#[verifier::external_body]
pub(crate) fn host_of(input: &str) -> (r: Option<String>)
    ensures
        match r {
            Some(h) => url_host(input@) == Some(h@),
            None => url_host(input@) is None,
        },
{
    match url::Url::parse(input) {
        Ok(u) => match u.host_str() {
            Some(h) => Some(h.to_string()),
            None => None,
        },
        Err(_) => None,
    }
}

/// Why a domain could not be normalised.
#[derive(Debug, Clone, Copy, PartialEq, Eq, Structural)]
pub enum DomainError {
    /// The URL parser refused the domain.
    InvalidUrl,
}

/// The domain trimmed and given a scheme: kept when it starts with
/// `http://` or `https://`, else prefixed with `https://`.
pub open spec fn with_scheme(domain: Seq<char>) -> Seq<char> {
    let d = trim_seq(domain);
    if starts_with_seq(d, "http://"@) || starts_with_seq(d, "https://"@) {
        d
    } else {
        "https://"@ + d
    }
}

/// The normalised form of a domain: the URL parser's serialization of
/// `with_scheme(domain)` without trailing slashes, or an error when the
/// parser refuses it.
pub open spec fn normalize_domain_spec(domain: Seq<char>) -> Result<Seq<char>, DomainError> {
    match url_serialization(with_scheme(domain)) {
        Some(u) => Ok(trim_end_char_seq(u, '/')),
        None => Err(DomainError::InvalidUrl),
    }
}

/// The trimmed domain with `https://` added unless it has a scheme.
pub fn add_scheme(domain: &str) -> (r: String)
    ensures
        r@ == with_scheme(domain@),
{
    let d = string_of(&trim_chars(&chars_of(domain)));
    if str_starts_with(d.as_str(), "http://") || str_starts_with(d.as_str(), "https://") {
        d
    } else {
        concat_str("https://", d.as_str())
    }
}

/// The store's base URL, without a trailing slash.
pub fn normalize_domain(domain: &str) -> (r: Result<String, DomainError>)
    ensures
        match r {
            Ok(s) => normalize_domain_spec(domain@) == Ok::<Seq<char>, DomainError>(s@),
            Err(e) => normalize_domain_spec(domain@) == Err::<Seq<char>, DomainError>(e),
        },
{
    let input = add_scheme(domain);
    match parse_url(input.as_str()) {
        Ok(u) => Ok(trim_end_char(u.as_str(), '/')),
        Err(_) => Err(DomainError::InvalidUrl),
    }
}

/// A character that continues a domain label: a lower-case ASCII letter,
/// a digit or `-`.
pub open spec fn is_label_char(c: char) -> bool {
    ('a' <= c && c <= 'z') || ('0' <= c && c <= '9') || c == '-'
}

/// `shopify` occurs in `d` at `i` at the start of a label: first in the
/// text, or after a character that does not continue a label.
pub open spec fn shopify_label_at(d: Seq<char>, i: int) -> bool {
    &&& 0 <= i
    &&& i + 7 <= d.len()
    &&& d.subrange(i, i + 7) == "shopify"@
    &&& (i == 0 || !is_label_char(d[i - 1]))
}

/// Whether a domain looks like a Shopify store: its lower case contains
/// `myshopify.com`, or a label that starts with `shopify` (such as
/// `shopify.com` or `cdn.shopify.com`). `shopify` glued to the end of
/// another word, as in `not-shopify.com`, does not count.
pub open spec fn is_shopify_store_spec(domain: Seq<char>) -> bool {
    let d = lowercase_of(domain);
    contains_seq(d, "myshopify.com"@) || exists|i: int| shopify_label_at(d, i)
}

fn label_char(c: char) -> (b: bool)
    ensures
        b == is_label_char(c),
{
    ('a' <= c && c <= 'z') || ('0' <= c && c <= '9') || c == '-'
}

fn has_shopify_label(d: &Vec<char>) -> (b: bool)
    ensures
        b == exists|i: int| shopify_label_at(d@, i),
{
    proof {
        reveal_strlit("shopify");
    }
    let pat = chars_of("shopify");
    if d.len() < 7 {
        return false;
    }
    let mut i: usize = 0;
    while i <= d.len() - 7
        invariant
            7 <= d.len(),
            pat@ == "shopify"@,
            i <= d.len() - 6,
            forall|j: int| 0 <= j < i ==> !#[trigger] shopify_label_at(d@, j),
        decreases d.len() - 6 - i,
    {
        proof {
            reveal_strlit("shopify");
        }
        if matches_at(d, i, &pat) && (i == 0 || !label_char(d[i - 1])) {
            proof {
                reveal_strlit("shopify");
                assert(pat@.len() == 7);
                if i > 0 {
                    assert(d@[i - 1] == d[i - 1]);
                }
                assert(shopify_label_at(d@, i as int));
            }
            return true;
        }
        i += 1;
    }
    false
}

/// Whether a domain looks like a Shopify store.
pub fn is_shopify_store(domain: &str) -> (b: bool)
    ensures
        b == is_shopify_store_spec(domain@),
{
    let d = to_lowercase(domain);
    str_contains(d.as_str(), "myshopify.com") || has_shopify_label(&chars_of(d.as_str()))
}

proof fn lemma_contains_inner(s: Seq<char>, big: Seq<char>, small: Seq<char>, off: int)
    requires
        contains_seq(s, big),
        0 <= off,
        off + small.len() <= big.len(),
        big.subrange(off, off + small.len()) == small,
    ensures
        contains_seq(s, small),
{
    let i = choose|i: int| 0 <= i <= s.len() - big.len() && #[trigger] s.subrange(i, i + big.len()) == big;
    assert(s.subrange(i + off, i + off + small.len()) == big.subrange(off, off + small.len()));
}

/// Only a domain that names Shopify is taken for a store: its lower case
/// contains `shopify`.
pub proof fn lemma_shopify_store_names_shopify(domain: Seq<char>)
    ensures
        is_shopify_store_spec(domain) ==> contains_seq(lowercase_of(domain), "shopify"@),
{
    reveal_strlit("myshopify.com");
    reveal_strlit("shopify");
    let d = lowercase_of(domain);
    if contains_seq(d, "myshopify.com"@) {
        assert("myshopify.com"@.subrange(2, 9) == "shopify"@);
        lemma_contains_inner(d, "myshopify.com"@, "shopify"@, 2);
    }
    if exists|i: int| shopify_label_at(d, i) {
        let i = choose|i: int| shopify_label_at(d, i);
        assert(d.subrange(i, i + "shopify"@.len()) == "shopify"@);
    }
}

/// The fast normalisation: the trimmed domain, with
/// `https://` added unless it already has a scheme; it never fails.
pub fn normalize_domain_fast(domain: &str) -> (r: String)
    ensures
        r@ == with_scheme(domain@),
{
    add_scheme(domain)
}

/// A domain with a scheme keeps it when normalised again: normalising is
/// idempotent.
pub proof fn lemma_with_scheme_idempotent(domain: Seq<char>)
    ensures
        starts_with_seq(with_scheme(domain), "http://"@) || starts_with_seq(with_scheme(domain), "https://"@),
        with_scheme(with_scheme(domain)) == with_scheme(domain),
{
    reveal_strlit("http://");
    reveal_strlit("https://");
    let d = trim_seq(domain);
    crate::text::lemma_trim_is_trimmed(domain);
    let w = with_scheme(domain);
    if !(starts_with_seq(d, "http://"@) || starts_with_seq(d, "https://"@)) {
        assert(w.take(8) == "https://"@);
    }
    if starts_with_seq(d, "http://"@) {
        assert(d.take(7)[0] == d[0]);
    } else if starts_with_seq(d, "https://"@) {
        assert(d.take(8)[0] == d[0]);
    } else {
        assert(w.take(8)[0] == w[0]);
    }
    assert(w.len() > 0);
    assert(w[0] == 'h');
    assert(!crate::text::is_space_char(w[0]));
    if starts_with_seq(d, "http://"@) || starts_with_seq(d, "https://"@) {
        assert(crate::text::is_trimmed(w));
    } else {
        assert(w.last() == if d.len() > 0 { d.last() } else { '/' });
        assert(crate::text::is_trimmed(w));
    }
    crate::text::lemma_trimmed_fixed(w);
}

} // verus!
