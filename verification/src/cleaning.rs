//! Cleaning of products: text normalisation, HTML removal, URL and
//! currency standardisation, tag clean-up.
use vstd::prelude::*;
use crate::domain::{parse_url, url_serialization};
use crate::models::{texts_of, ProductView, ShopifyProduct};
use crate::patterns::{regex_replaced, replace_all};
use crate::rules::CleaningRules;
use crate::text::{
    copy_str, is_normalized, lemma_normalize_text, normalize_text, normalize_text_spec,
    str_eq, to_uppercase, uppercase_of,
};
use crate::validation::{products_view, WranglingError};

verus! {

/// The pattern of an HTML tag: from `<` to the next `>`.
pub open spec fn html_tag_pattern() -> Seq<char> {
    "<[^>]*>"@
}

/// The text with every HTML tag removed by the
/// regex crate; `None` when it refuses the pattern.
pub fn remove_html_tags(html: &str) -> (r: Option<String>)
    ensures
        match r {
            Some(s) => regex_replaced(html_tag_pattern(), html@, ""@) == Some(s@),
            None => regex_replaced(html_tag_pattern(), html@, ""@) is None,
        },
{
    match replace_all("<[^>]*>", html, "") {
        Ok(s) => Some(s),
        Err(_) => None,
    }
}

/// A URL as the parser serialises it, or unchanged when it does not parse.
pub open spec fn clean_url_spec(url: Seq<char>) -> Seq<char> {
    match url_serialization(url) {
        Some(u) => u,
        None => url,
    }
}

/// A URL that cleaning leaves as it is.
pub open spec fn url_settled(url: Seq<char>) -> bool {
    clean_url_spec(url) == url
}

/// A URL in the parser's serialised form, or unchanged when it does not
/// parse; cleaning the result again leaves it as it is.
pub fn clean_url(url: &str) -> (r: String)
    ensures
        r@ == clean_url_spec(url@),
        url_settled(r@),
{
    match parse_url(url) {
        Ok(u) => u,
        Err(_) => copy_str(url),
    }
}

/// The standard code of a currency: `USD` for `USD`, `US$` or `$`, `EUR`
/// for `EUR` or `€`, `GBP` for `GBP` or `£`, compared in upper case;
/// anything else unchanged.
pub open spec fn standardize_currency_spec(c: Seq<char>) -> Seq<char> {
    let u = uppercase_of(c);
    if u == "USD"@ || u == "US$"@ || u == "$"@ {
        "USD"@
    } else if u == "EUR"@ || u == "€"@ {
        "EUR"@
    } else if u == "GBP"@ || u == "£"@ {
        "GBP"@
    } else {
        c
    }
}

/// The standard code of a currency.
pub fn standardize_currency(currency: &str) -> (r: String)
    ensures
        r@ == standardize_currency_spec(currency@),
{
    let u = to_uppercase(currency);
    let u = u.as_str();
    if str_eq(u, "USD") || str_eq(u, "US$") || str_eq(u, "$") {
        copy_str("USD")
    } else if str_eq(u, "EUR") || str_eq(u, "€") {
        copy_str("EUR")
    } else if str_eq(u, "GBP") || str_eq(u, "£") {
        copy_str("GBP")
    } else {
        copy_str(currency)
    }
}

/// Currency codes are standardised by their upper case: `USD`, `US$` and
/// `$` become `USD`; `EUR` and `€` become `EUR`; `GBP` and `£` become
/// `GBP`; any other code is kept exactly as written.
pub proof fn lemma_currency_codes(c: Seq<char>)
    ensures
        (uppercase_of(c) == "USD"@ || uppercase_of(c) == "US$"@ || uppercase_of(c) == "$"@) ==> standardize_currency_spec(c)
            == "USD"@,
        (uppercase_of(c) == "EUR"@ || uppercase_of(c) == "€"@) ==> standardize_currency_spec(c) == "EUR"@,
        (uppercase_of(c) == "GBP"@ || uppercase_of(c) == "£"@) ==> standardize_currency_spec(c) == "GBP"@,
        !(uppercase_of(c) == "USD"@ || uppercase_of(c) == "US$"@ || uppercase_of(c) == "$"@ || uppercase_of(c) == "EUR"@
            || uppercase_of(c) == "€"@ || uppercase_of(c) == "GBP"@ || uppercase_of(c) == "£"@) ==> standardize_currency_spec(c)
            == c,
{
    reveal_strlit("USD");
    reveal_strlit("US$");
    reveal_strlit("$");
    reveal_strlit("EUR");
    reveal_strlit("€");
    reveal_strlit("GBP");
    reveal_strlit("£");
    assert("EUR"@[0] != "USD"@[0] && "EUR"@[0] != "US$"@[0] && "EUR"@.len() != "$"@.len());
    assert("€"@.len() != "USD"@.len() && "€"@.len() != "US$"@.len() && "€"@[0] != "$"@[0]);
    assert("GBP"@[0] != "USD"@[0] && "GBP"@[0] != "US$"@[0] && "GBP"@.len() != "$"@.len() && "GBP"@[0] != "EUR"@[0]
        && "GBP"@.len() != "€"@.len());
    assert("£"@.len() != "USD"@.len() && "£"@.len() != "US$"@.len() && "£"@[0] != "$"@[0] && "£"@.len() != "EUR"@.len()
        && "£"@[0] != "€"@[0]);
}

/// The elements of `s` without repeats, each where it first occurs.
pub open spec fn dedup_first(s: Seq<Seq<char>>) -> Seq<Seq<char>>
    decreases s.len(),
{
    if s.len() == 0 {
        seq![]
    } else {
        let prev = dedup_first(s.drop_last());
        if prev.contains(s.last()) {
            prev
        } else {
            prev.push(s.last())
        }
    }
}

/// Nonempty text.
pub open spec fn nonempty(t: Seq<char>) -> bool {
    t.len() > 0
}

/// Tags cleaned: each normalised, empty ones dropped, repeats dropped.
pub open spec fn clean_tags_spec(tags: Seq<Seq<char>>) -> Seq<Seq<char>> {
    dedup_first(tags.map_values(|t: Seq<char>| normalize_text_spec(t)).filter(|t: Seq<char>| nonempty(t)))
}

/// Tags normalised, without empty ones and without repeats; each tag
/// stays where it first occurs.
pub fn clean_tags(tags: Vec<String>) -> (r: Vec<String>)
    ensures
        texts_of(r@) == clean_tags_spec(texts_of(tags@)),
{
    let ghost norm = |t: Seq<char>| normalize_text_spec(t);
    let ghost keep = |t: Seq<char>| nonempty(t);
    let ghost input = texts_of(tags@);
    let mut out: Vec<String> = Vec::new();
    let mut i: usize = 0;
    while i < tags.len()
        invariant
            i <= tags.len(),
            input == texts_of(tags@),
            norm == (|t: Seq<char>| normalize_text_spec(t)),
            keep == (|t: Seq<char>| nonempty(t)),
            texts_of(out@) == dedup_first(input.take(i as int).map_values(norm).filter(keep)),
        decreases tags.len() - i,
    {
        let ghost pre = input.take(i as int);
        let ghost pre_f = pre.map_values(norm).filter(keep);
        proof {
            assert(input.take(i + 1) == pre.push(input[i as int]));
            pre.lemma_push_map_commute(norm, input[i as int]);
            pre.map_values(norm).lemma_filter_push(norm(input[i as int]), keep);
            assert(input[i as int] == tags@[i as int]@);
            assert(pre_f.push(norm(input[i as int])).drop_last() == pre_f);
        }
        let t = normalize_text(tags[i].as_str());
        let ghost prev = texts_of(out@);
        if !t.as_str().is_empty() {
            let mut seen = false;
            let mut k: usize = 0;
            while k < out.len()
                invariant
                    k <= out.len(),
                    prev == texts_of(out@),
                    seen == prev.take(k as int).contains(t@),
                decreases out.len() - k,
            {
                let ghost tk = prev.take(k as int);
                proof {
                    assert(prev.take(k + 1) == tk.push(prev[k as int]));
                    assert(prev[k as int] == out@[k as int]@);
                }
                let eq = str_eq(out[k].as_str(), t.as_str());
                proof {
                    lemma_contains_push(tk, prev[k as int], t@);
                }
                if !seen && eq {
                    seen = true;
                }
                k += 1;
            }
            proof {
                assert(prev.take(out@.len() as int) == prev);
            }
            if !seen {
                out.push(t);
                proof {
                    assert(texts_of(out@) == prev.push(t@));
                }
            }
            proof {
                assert(input.take(i + 1).map_values(norm).filter(keep) == pre_f.push(t@));
            }
        } else {
            proof {
                assert(input.take(i + 1).map_values(norm).filter(keep) == pre_f);
            }
        }
        i += 1;
    }
    proof {
        assert(input.take(tags@.len() as int) == input);
    }
    out
}

proof fn lemma_contains_push(s: Seq<Seq<char>>, x: Seq<char>, y: Seq<char>)
    ensures
        s.push(x).contains(y) <==> (s.contains(y) || x == y),
{
    if s.contains(y) {
        let j = choose|j: int| 0 <= j < s.len() && s[j] == y;
        assert(s.push(x)[j] == y);
    }
    if x == y {
        assert(s.push(x)[s.len() as int] == y);
    }
    if s.push(x).contains(y) && x != y {
        let j = choose|j: int| 0 <= j < s.push(x).len() && s.push(x)[j] == y;
        assert(s[j] == y);
    }
}

/// `dedup_first` leaves no repeats and keeps exactly the elements of its
/// input.
pub proof fn lemma_dedup_first(s: Seq<Seq<char>>)
    ensures
        dedup_first(s).no_duplicates(),
        forall|t: Seq<char>| dedup_first(s).contains(t) <==> s.contains(t),
    decreases s.len(),
{
    if s.len() > 0 {
        let p = s.drop_last();
        let x = s.last();
        lemma_dedup_first(p);
        let prev = dedup_first(p);
        assert(s == p.push(x));
        assert forall|t: Seq<char>| dedup_first(s).contains(t) <==> s.contains(t) by {
            lemma_contains_push(p, x, t);
            lemma_contains_push(prev, x, t);
        }
        if !prev.contains(x) {
            assert forall|a: int, b: int| 0 <= a < b < dedup_first(s).len() implies dedup_first(s)[a] != dedup_first(s)[b] by {
                if b == prev.len() {
                    assert(dedup_first(s)[a] == prev[a]);
                    assert(dedup_first(s)[b] == x);
                } else {
                    assert(dedup_first(s)[a] == prev[a]);
                    assert(dedup_first(s)[b] == prev[b]);
                }
            }
        }
    }
}

/// Cleaned tags are distinct, nonempty and in normal form.
pub proof fn lemma_clean_tags(tags: Seq<Seq<char>>)
    ensures
        clean_tags_spec(tags).no_duplicates(),
        forall|k: int| 0 <= k < clean_tags_spec(tags).len() ==> (#[trigger] clean_tags_spec(tags)[k]).len() > 0
            && is_normalized(clean_tags_spec(tags)[k]),
{
    let norm = |t: Seq<char>| normalize_text_spec(t);
    let keep = |t: Seq<char>| nonempty(t);
    let m = tags.map_values(norm);
    let f = m.filter(keep);
    lemma_dedup_first(f);
    assert forall|k: int| 0 <= k < clean_tags_spec(tags).len() implies (#[trigger] clean_tags_spec(tags)[k]).len() > 0
        && is_normalized(clean_tags_spec(tags)[k]) by {
        let t = clean_tags_spec(tags)[k];
        assert(dedup_first(f).contains(t));
        assert(f.contains(t));
        broadcast use vstd::seq_lib::group_filter_ensures;
        let j = choose|j: int| 0 <= j < f.len() && f[j] == t;
        assert(keep(f[j]));
        m.lemma_filter_contains_rev(keep, t);
        assert(m.contains(t));
        let i = choose|i: int| 0 <= i < m.len() && m[i] == t;
        assert(t == normalize_text_spec(tags[i]));
        lemma_normalize_text(tags[i]);
    }
}

proof fn lemma_filter_all(s: Seq<Seq<char>>, keep: spec_fn(Seq<char>) -> bool)
    requires
        forall|k: int| 0 <= k < s.len() ==> keep(#[trigger] s[k]),
    ensures
        s.filter(keep) == s,
    decreases s.len(),
{
    if s.len() == 0 {
        reveal(Seq::filter);
    } else {
        let p = s.drop_last();
        assert forall|k: int| 0 <= k < p.len() implies keep(#[trigger] p[k]) by {
            assert(p[k] == s[k]);
        }
        lemma_filter_all(p, keep);
        assert(keep(s.last()));
        assert(p.push(s.last()) =~= s);
        p.lemma_filter_push(s.last(), keep);
    }
}

proof fn lemma_dedup_distinct(s: Seq<Seq<char>>)
    requires
        s.no_duplicates(),
    ensures
        dedup_first(s) == s,
    decreases s.len(),
{
    if s.len() > 0 {
        let p = s.drop_last();
        assert(p.no_duplicates()) by {
            assert forall|a: int, b: int| 0 <= a < p.len() && 0 <= b < p.len() && a != b implies p[a] != p[b] by {
                assert(p[a] == s[a] && p[b] == s[b]);
            }
        }
        lemma_dedup_distinct(p);
        if p.contains(s.last()) {
            let j = choose|j: int| 0 <= j < p.len() && p[j] == s.last();
            assert(s[j] == s[s.len() - 1]);
        }
        assert(p.push(s.last()) == s);
    }
}

/// Cleaning cleaned tags gives them back unchanged.
pub proof fn lemma_clean_tags_idempotent(tags: Seq<Seq<char>>)
    ensures
        clean_tags_spec(clean_tags_spec(tags)) == clean_tags_spec(tags),
{
    let norm = |t: Seq<char>| normalize_text_spec(t);
    let keep = |t: Seq<char>| nonempty(t);
    let m = tags.map_values(norm);
    let f = m.filter(keep);
    let c = clean_tags_spec(tags);
    lemma_clean_tags(tags);
    lemma_dedup_first(f);
    assert forall|k: int| 0 <= k < c.len() implies #[trigger] norm(c[k]) == c[k] by {
        let t = c[k];
        assert(dedup_first(f).contains(t));
        assert(f.contains(t));
        m.lemma_filter_contains_rev(keep, t);
        let i = choose|i: int| 0 <= i < m.len() && m[i] == t;
        lemma_normalize_text(tags[i]);
    }
    let cm = c.map_values(norm);
    assert(cm =~= c);
    assert forall|k: int| 0 <= k < cm.len() implies keep(#[trigger] cm[k]) by {
        assert(cm[k] == c[k]);
    }
    lemma_filter_all(cm, keep);
    lemma_dedup_distinct(c);
}

/// What cleaning makes of a product: title, vendor and product type
/// normalised (when `normalize_text`), tags removed from the description
/// (when `remove_html_tags`; `None` when the regex crate refuses the
/// pattern), the URL re-serialised (when `fix_urls`), the currency
/// standardised (when `standardize_currency`), and the tags always
/// cleaned. Nothing else changes.
pub open spec fn clean_spec(p: ProductView, rules: CleaningRules) -> Option<ProductView> {
    let description = if rules.remove_html_tags {
        regex_replaced(html_tag_pattern(), p.description, ""@)
    } else {
        Some(p.description)
    };
    match description {
        None => None,
        Some(description) => Some(ProductView {
            title: if rules.normalize_text {
                normalize_text_spec(p.title)
            } else {
                p.title
            },
            description,
            url: if rules.fix_urls {
                clean_url_spec(p.url)
            } else {
                p.url
            },
            currency: if rules.standardize_currency {
                standardize_currency_spec(p.currency)
            } else {
                p.currency
            },
            tags: clean_tags_spec(p.tags),
            vendor: if rules.normalize_text {
                normalize_text_spec(p.vendor)
            } else {
                p.vendor
            },
            product_type: if rules.normalize_text {
                normalize_text_spec(p.product_type)
            } else {
                p.product_type
            },
            ..p
        }),
    }
}

/// Each tag normalised: trimmed, runs of white space collapsed to single
/// spaces.
pub open spec fn normalized_tags(tags: Seq<Seq<char>>) -> Seq<Seq<char>> {
    tags.map_values(|t: Seq<char>| normalize_text_spec(t))
}

/// What cleaning does to a product. With text normalisation, the title,
/// vendor and product type are each trimmed with their runs of white space
/// collapsed to single spaces; without it they stay as they were. With
/// HTML removal the description loses every match of the tag pattern;
/// without it it stays. With URL fixing the URL is re-serialised (when it
/// parses); with currency standardisation the currency becomes its
/// standard code. The tags are always cleaned: normalised, the empty ones
/// dropped, each kept once. Nothing else changes.
pub proof fn lemma_clean_product_fields(p: ProductView, rules: CleaningRules, q: ProductView)
    requires
        clean_spec(p, rules) == Some(q),
    ensures
        rules.normalize_text ==> q.title == normalize_text_spec(p.title) && is_normalized(q.title),
        rules.normalize_text ==> q.vendor == normalize_text_spec(p.vendor) && is_normalized(q.vendor),
        rules.normalize_text ==> q.product_type == normalize_text_spec(p.product_type) && is_normalized(q.product_type),
        !rules.normalize_text ==> q.title == p.title && q.vendor == p.vendor && q.product_type == p.product_type,
        rules.remove_html_tags ==> regex_replaced(html_tag_pattern(), p.description, ""@) == Some(q.description),
        !rules.remove_html_tags ==> q.description == p.description,
        rules.fix_urls ==> q.url == clean_url_spec(p.url),
        !rules.fix_urls ==> q.url == p.url,
        rules.standardize_currency ==> q.currency == standardize_currency_spec(p.currency),
        !rules.standardize_currency ==> q.currency == p.currency,
        q.tags.no_duplicates(),
        forall|t: Seq<char>| #[trigger] q.tags.contains(t) <==> (t.len() > 0 && (normalized_tags(p.tags).contains(t))),
        q == (ProductView {
            title: q.title,
            description: q.description,
            url: q.url,
            currency: q.currency,
            tags: q.tags,
            vendor: q.vendor,
            product_type: q.product_type,
            ..p
        }),
{
    lemma_normalize_text(p.title);
    lemma_normalize_text(p.vendor);
    lemma_normalize_text(p.product_type);
    lemma_clean_tags(p.tags);
    let norm = |t: Seq<char>| normalize_text_spec(t);
    let keep = |t: Seq<char>| nonempty(t);
    let m = p.tags.map_values(norm);
    let f = m.filter(keep);
    lemma_dedup_first(f);
    assert(m == normalized_tags(p.tags));
    assert forall|t: Seq<char>| #[trigger] q.tags.contains(t) <==> (t.len() > 0 && (m.contains(t))) by {
        broadcast use vstd::seq_lib::group_filter_ensures;
        if q.tags.contains(t) {
            assert(f.contains(t));
            m.lemma_filter_contains_rev(keep, t);
            let j = choose|j: int| 0 <= j < f.len() && f[j] == t;
            assert(keep(f[j]));
        }
        if t.len() > 0 && m.contains(t) {
            let i = choose|i: int| 0 <= i < m.len() && m[i] == t;
            assert(keep(m[i]));
            m.lemma_filter_contains(keep, i);
            assert(f.contains(t));
        }
    }
}

/// Cleaning a cleaned product gives it back unchanged, provided the
/// outside steps give back what they produced: the tag pattern finds
/// nothing more to remove from the cleaned description, the cleaned URL is
/// settled, and upper case leaves the codes `USD`, `EUR` and `GBP` as they
/// are. The regex crate's and `str::to_uppercase`'s results are only named
/// here, so those facts are hypotheses; a settled URL is what
/// `clean_product` and `clean_products` ensure of every product they
/// return.
pub proof fn lemma_clean_product_idempotent(p: ProductView, rules: CleaningRules, q: ProductView)
    requires
        clean_spec(p, rules) == Some(q),
        rules.remove_html_tags ==> regex_replaced(html_tag_pattern(), q.description, ""@) == Some(q.description),
        rules.fix_urls ==> url_settled(q.url),
        rules.standardize_currency ==> uppercase_of("USD"@) == "USD"@ && uppercase_of("EUR"@) == "EUR"@
            && uppercase_of("GBP"@) == "GBP"@,
    ensures
        clean_spec(q, rules) == Some(q),
{
    lemma_normalize_text(p.title);
    lemma_normalize_text(p.vendor);
    lemma_normalize_text(p.product_type);
    lemma_clean_tags_idempotent(p.tags);
    if rules.standardize_currency {
        reveal_strlit("USD");
        reveal_strlit("US$");
        reveal_strlit("$");
        reveal_strlit("EUR");
        reveal_strlit("€");
        reveal_strlit("GBP");
        reveal_strlit("£");
        let c = p.currency;
        let u = uppercase_of(c);
        assert(q.currency == standardize_currency_spec(c));
        if u == "USD"@ || u == "US$"@ || u == "$"@ {
            assert(q.currency == "USD"@);
            assert(standardize_currency_spec("USD"@) == "USD"@);
        } else if u == "EUR"@ || u == "€"@ {
            assert(q.currency == "EUR"@);
            assert("EUR"@ != "USD"@ && "EUR"@ != "US$"@ && "EUR"@ != "$"@) by {
                assert("EUR"@[0] != "USD"@[0]);
                assert("EUR"@[0] != "US$"@[0]);
                assert("EUR"@.len() != "$"@.len());
            }
            assert(standardize_currency_spec("EUR"@) == "EUR"@);
        } else if u == "GBP"@ || u == "£"@ {
            assert(q.currency == "GBP"@);
            assert("GBP"@ != "USD"@ && "GBP"@ != "US$"@ && "GBP"@ != "$"@ && "GBP"@ != "EUR"@ && "GBP"@ != "€"@) by {
                assert("GBP"@[0] != "USD"@[0]);
                assert("GBP"@[0] != "US$"@[0]);
                assert("GBP"@.len() != "$"@.len());
                assert("GBP"@[0] != "EUR"@[0]);
                assert("GBP"@.len() != "€"@.len());
            }
            assert(standardize_currency_spec("GBP"@) == "GBP"@);
        } else {
            assert(q.currency == c);
        }
    }
}

/// One product cleaned.
pub fn clean_product(p: ShopifyProduct, rules: &CleaningRules) -> (r: Result<ShopifyProduct, WranglingError>)
    ensures
        match r {
            Ok(q) => clean_spec(p@, *rules) == Some(q@) && (rules.fix_urls ==> url_settled(q@.url)),
            Err(_) => clean_spec(p@, *rules) is None,
        },
{
    let mut q = p;
    if rules.normalize_text {
        q.title = normalize_text(q.title.as_str());
    }
    if rules.remove_html_tags {
        match remove_html_tags(q.description.as_str()) {
            Some(d) => {
                q.description = d;
            },
            None => {
                return Err(WranglingError::PatternRejected);
            },
        }
    }
    if rules.fix_urls {
        q.url = clean_url(q.url.as_str());
    }
    if rules.standardize_currency {
        q.currency = standardize_currency(q.currency.as_str());
    }
    let mut tags: Vec<String> = Vec::new();
    std::mem::swap(&mut tags, &mut q.tags);
    q.tags = clean_tags(tags);
    if rules.normalize_text {
        q.vendor = normalize_text(q.vendor.as_str());
        q.product_type = normalize_text(q.product_type.as_str());
    }
    Ok(q)
}

/// Each product cleaned in turn; `None` when a pattern is refused.
pub open spec fn clean_all_spec(ps: Seq<ProductView>, rules: CleaningRules) -> Option<Seq<ProductView>>
    decreases ps.len(),
{
    if ps.len() == 0 {
        Some(seq![])
    } else {
        match clean_all_spec(ps.drop_last(), rules) {
            None => None,
            Some(prev) => match clean_spec(ps.last(), rules) {
                None => None,
                Some(q) => Some(prev.push(q)),
            },
        }
    }
}

/// Cleaning the cleaned products gives them back unchanged, under the
/// hypotheses of `lemma_clean_product_idempotent` on each of them.
pub proof fn lemma_clean_all_idempotent(ps: Seq<ProductView>, rules: CleaningRules, qs: Seq<ProductView>)
    requires
        clean_all_spec(ps, rules) == Some(qs),
        forall|k: int| 0 <= k < qs.len() ==> (rules.remove_html_tags ==> regex_replaced(html_tag_pattern(), (#[trigger] qs[k]).description, ""@) == Some(qs[k].description)),
        forall|k: int| 0 <= k < qs.len() ==> (rules.fix_urls ==> url_settled((#[trigger] qs[k]).url)),
        rules.standardize_currency ==> uppercase_of("USD"@) == "USD"@ && uppercase_of("EUR"@) == "EUR"@
            && uppercase_of("GBP"@) == "GBP"@,
    ensures
        clean_all_spec(qs, rules) == Some(qs),
    decreases ps.len(),
{
    if ps.len() > 0 {
        let prev = clean_all_spec(ps.drop_last(), rules).unwrap();
        let q = clean_spec(ps.last(), rules).unwrap();
        assert(qs == prev.push(q));
        assert forall|k: int| 0 <= k < prev.len() implies (rules.remove_html_tags ==> regex_replaced(html_tag_pattern(), (#[trigger] prev[k]).description, ""@) == Some(prev[k].description)) && (rules.fix_urls ==> url_settled(prev[k].url)) by {
            assert(prev[k] == qs[k]);
        }
        lemma_clean_all_idempotent(ps.drop_last(), rules, prev);
        assert(qs[qs.len() - 1] == q);
        lemma_clean_product_idempotent(ps.last(), rules, q);
        assert(qs.drop_last() =~= prev);
    }
}

proof fn lemma_clean_all_stuck(ps: Seq<ProductView>, rules: CleaningRules, k: int)
    requires
        0 <= k <= ps.len(),
        clean_all_spec(ps.take(k), rules) is None,
    ensures
        clean_all_spec(ps, rules) is None,
    decreases ps.len() - k,
{
    if k < ps.len() {
        assert(ps.take(k + 1).drop_last() == ps.take(k));
        lemma_clean_all_stuck(ps, rules, k + 1);
    } else {
        assert(ps.take(k) == ps);
    }
}

/// The cleaning stage of the pipeline: each product cleaned in turn.
pub fn clean_products(products: Vec<ShopifyProduct>, rules: &CleaningRules) -> (r: Result<Vec<ShopifyProduct>, WranglingError>)
    ensures
        match r {
            Ok(v) => clean_all_spec(products_view(products@), *rules) == Some(products_view(v@))
                && (rules.fix_urls ==> forall|k: int| 0 <= k < v@.len() ==> url_settled(#[trigger] v@[k]@.url)),
            Err(_) => clean_all_spec(products_view(products@), *rules) is None,
        },
{
    let ghost all = products_view(products@);
    let ghost orig = products@;
    let n = products.len();
    let mut rest = crate::vecs::reversed(products);
    let mut out: Vec<ShopifyProduct> = Vec::new();
    let mut i: usize = 0;
    while i < n
        invariant
            i <= n == orig.len(),
            orig == products@,
            all == products_view(orig),
            rest@.len() == n - i,
            forall|j: int| 0 <= j < rest@.len() ==> #[trigger] rest@[j] == orig[n - 1 - j],
            clean_all_spec(all.take(i as int), *rules) == Some(products_view(out@)),
            rules.fix_urls ==> forall|k: int| 0 <= k < out@.len() ==> url_settled(#[trigger] out@[k]@.url),
        decreases n - i,
    {
        let p = rest.pop().unwrap();
        proof {
            assert(p == orig[i as int]);
            assert(all.take(i + 1).drop_last() == all.take(i as int));
            assert(all.take(i + 1).last() == p@);
        }
        match clean_product(p, rules) {
            Err(e) => {
                proof {
                    let ghost t1 = all.take(i + 1);
                    assert(t1.drop_last() == all.take(i as int));
                    assert(t1.last() == orig[i as int]@);
                    assert(clean_all_spec(t1, *rules) is None);
                    lemma_clean_all_stuck(all, *rules, i as int + 1);
                    assert(clean_all_spec(all, *rules) is None);
                    assert(all == products_view(orig));
                    assert(orig == products@);
                }
                return Err(e);
            },
            Ok(q) => {
                let ghost before = products_view(out@);
                let ghost old_out = out@;
                out.push(q);
                proof {
                    assert(products_view(out@) =~= before.push(q@));
                    assert forall|k: int| 0 <= k < out@.len() && rules.fix_urls implies url_settled(#[trigger] out@[k]@.url) by {
                        if k < old_out.len() {
                            assert(out@[k] == old_out[k]);
                        }
                    }
                }
            },
        }
        i += 1;
    }
    proof {
        assert(all.take(n as int) == all);
    }
    Ok(out)
}

} // verus!
