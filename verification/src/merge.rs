//! Merging two records of the same product, and the sorted, repeat-free
//! tag lists that merging produces.
use vstd::prelude::*;
use crate::fieldmap::FieldMap;
use crate::models::{
    clone_strings, opt_view, texts_of, ProductImage, ProductVariant, ProductView, ReviewsData,
    ShippingInfo, ShopifyProduct,
};
use crate::text::chars_of;

verus! {

/// Text order: lexicographic by code point (the order of `String`'s `Ord`,
/// since UTF-8 preserves code point order).
pub open spec fn text_lt(a: Seq<char>, b: Seq<char>) -> bool
    decreases a.len(),
{
    if a.len() == 0 {
        b.len() > 0
    } else if b.len() == 0 {
        false
    } else if a[0] != b[0] {
        (a[0] as int) < (b[0] as int)
    } else {
        text_lt(a.drop_first(), b.drop_first())
    }
}

/// Texts in strictly increasing order.
pub open spec fn strictly_sorted(t: Seq<Seq<char>>) -> bool {
    forall|i: int, j: int| 0 <= i < j < t.len() ==> text_lt(#[trigger] t[i], #[trigger] t[j])
}

/// Nothing is before itself.
pub proof fn lemma_text_lt_irreflexive(a: Seq<char>)
    ensures
        !text_lt(a, a),
    decreases a.len(),
{
    if a.len() > 0 {
        lemma_text_lt_irreflexive(a.drop_first());
    }
}

/// Of two different texts, exactly one is before the other.
pub proof fn lemma_text_lt_total(a: Seq<char>, b: Seq<char>)
    ensures
        a != b ==> (text_lt(a, b) || text_lt(b, a)),
        !(text_lt(a, b) && text_lt(b, a)),
    decreases a.len(),
{
    if a.len() > 0 && b.len() > 0 {
        lemma_text_lt_total(a.drop_first(), b.drop_first());
        if a[0] == b[0] && a != b {
            assert(a.drop_first() != b.drop_first()) by {
                if a.drop_first() == b.drop_first() {
                    assert(a =~= b) by {
                        assert forall|k: int| 0 <= k < a.len() implies a[k] == b[k] by {
                            if k > 0 {
                                assert(a[k] == a.drop_first()[k - 1]);
                                assert(b[k] == b.drop_first()[k - 1]);
                            }
                        }
                    }
                }
            }
        }
        if a[0] != b[0] {
            assert((a[0] as int) != (b[0] as int));
        }
    } else if a.len() == 0 && b.len() == 0 {
        assert(a =~= b);
    }
}

/// The text order is transitive.
pub proof fn lemma_text_lt_transitive(a: Seq<char>, b: Seq<char>, c: Seq<char>)
    requires
        text_lt(a, b),
        text_lt(b, c),
    ensures
        text_lt(a, c),
    decreases a.len(),
{
    if a.len() > 0 && b.len() > 0 && c.len() > 0 {
        if a[0] == b[0] && b[0] == c[0] {
            lemma_text_lt_transitive(a.drop_first(), b.drop_first(), c.drop_first());
        }
    }
}

/// `t` with `x` put in order, unless it is already there.
pub open spec fn insert_sorted(t: Seq<Seq<char>>, x: Seq<char>) -> Seq<Seq<char>>
    decreases t.len(),
{
    if t.len() == 0 {
        seq![x]
    } else if x == t[0] {
        t
    } else if text_lt(x, t[0]) {
        seq![x] + t
    } else {
        seq![t[0]] + insert_sorted(t.drop_first(), x)
    }
}

/// The texts of `s` sorted and without repeats (`sort` then `dedup`).
pub open spec fn sort_unique(s: Seq<Seq<char>>) -> Seq<Seq<char>>
    decreases s.len(),
{
    if s.len() == 0 {
        seq![]
    } else {
        insert_sorted(sort_unique(s.drop_last()), s.last())
    }
}

proof fn lemma_insert_sorted(t: Seq<Seq<char>>, x: Seq<char>)
    requires
        strictly_sorted(t),
    ensures
        strictly_sorted(insert_sorted(t, x)),
        forall|y: Seq<char>| #[trigger] insert_sorted(t, x).contains(y) <==> (t.contains(y) || y == x),
        insert_sorted(t, x).len() > 0,
        t.len() > 0 ==> (insert_sorted(t, x)[0] == t[0] || insert_sorted(t, x)[0] == x),
    decreases t.len(),
{
    let r = insert_sorted(t, x);
    if t.len() == 0 {
        assert(r[0] == x);
        assert forall|y: Seq<char>| r.contains(y) <==> (t.contains(y) || y == x) by {
            if y == x {
                assert(r[0] == y);
            }
        }
    } else if x == t[0] {
        assert forall|y: Seq<char>| r.contains(y) <==> (t.contains(y) || y == x) by {
            if y == x {
                assert(t[0] == y);
            }
        }
    } else if text_lt(x, t[0]) {
        assert forall|i: int, j: int| 0 <= i < j < r.len() implies text_lt(#[trigger] r[i], #[trigger] r[j]) by {
            if i == 0 {
                assert(r[0] == x);
                assert(r[j] == t[j - 1]);
                if j - 1 > 0 {
                    assert(text_lt(t[0], t[j - 1]));
                    lemma_text_lt_transitive(x, t[0], t[j - 1]);
                }
            } else {
                assert(r[i] == t[i - 1]);
                assert(r[j] == t[j - 1]);
            }
        }
        assert forall|y: Seq<char>| r.contains(y) <==> (t.contains(y) || y == x) by {
            if y == x {
                assert(r[0] == y);
            }
            if t.contains(y) {
                let k = choose|k: int| 0 <= k < t.len() && t[k] == y;
                assert(r[k + 1] == y);
            }
            if r.contains(y) && y != x {
                let k = choose|k: int| 0 <= k < r.len() && r[k] == y;
                assert(t[k - 1] == y);
            }
        }
    } else {
        let rest = t.drop_first();
        assert(strictly_sorted(rest)) by {
            assert forall|i: int, j: int| 0 <= i < j < rest.len() implies text_lt(#[trigger] rest[i], #[trigger] rest[j]) by {
                assert(rest[i] == t[i + 1]);
                assert(rest[j] == t[j + 1]);
            }
        }
        lemma_insert_sorted(rest, x);
        let ir = insert_sorted(rest, x);
        lemma_text_lt_total(x, t[0]);
        assert(text_lt(t[0], x));
        assert forall|i: int, j: int| 0 <= i < j < r.len() implies text_lt(#[trigger] r[i], #[trigger] r[j]) by {
            if i == 0 {
                assert(r[0] == t[0]);
                assert(r[j] == ir[j - 1]);
                assert(ir.contains(ir[j - 1]));
                if ir[j - 1] == x {
                } else {
                    assert(rest.contains(ir[j - 1]));
                    let k = choose|k: int| 0 <= k < rest.len() && rest[k] == ir[j - 1];
                    assert(rest[k] == t[k + 1]);
                }
            } else {
                assert(r[i] == ir[i - 1]);
                assert(r[j] == ir[j - 1]);
            }
        }
        assert forall|y: Seq<char>| r.contains(y) <==> (t.contains(y) || y == x) by {
            if r.contains(y) {
                let k = choose|k: int| 0 <= k < r.len() && r[k] == y;
                if k > 0 {
                    assert(r[k] == ir[k - 1]);
                    assert(ir[k - 1] == y);
                    assert(ir.contains(y));
                    if rest.contains(y) {
                        let m = choose|m: int| 0 <= m < rest.len() && rest[m] == y;
                        assert(t[m + 1] == y);
                    }
                } else {
                    assert(t[0] == y);
                }
            }
            if t.contains(y) {
                let k = choose|k: int| 0 <= k < t.len() && t[k] == y;
                if k == 0 {
                    assert(r[0] == y);
                } else {
                    assert(rest[k - 1] == y);
                    assert(ir.contains(y));
                    let m = choose|m: int| 0 <= m < ir.len() && ir[m] == y;
                    assert(r[m + 1] == y);
                }
            }
            if y == x {
                assert(ir.contains(y));
                let m = choose|m: int| 0 <= m < ir.len() && ir[m] == y;
                assert(r[m + 1] == y);
            }
        }
    }
}

/// Sorting with repeats removed gives a strictly increasing list of exactly
/// the input's texts.
pub proof fn lemma_sort_unique(s: Seq<Seq<char>>)
    ensures
        strictly_sorted(sort_unique(s)),
        forall|y: Seq<char>| sort_unique(s).contains(y) <==> s.contains(y),
    decreases s.len(),
{
    if s.len() > 0 {
        lemma_sort_unique(s.drop_last());
        lemma_insert_sorted(sort_unique(s.drop_last()), s.last());
        assert forall|y: Seq<char>| sort_unique(s).contains(y) <==> s.contains(y) by {
            if s.drop_last().contains(y) {
                let k = choose|k: int| 0 <= k < s.drop_last().len() && s.drop_last()[k] == y;
                assert(s[k] == y);
            }
            if y == s.last() {
                assert(s[s.len() - 1] == y);
            }
            if s.contains(y) && y != s.last() {
                let k = choose|k: int| 0 <= k < s.len() && s[k] == y;
                assert(s.drop_last()[k] == y);
            }
        }
    }
}

/// A strictly increasing list has no repeats.
pub proof fn lemma_strictly_sorted_distinct(t: Seq<Seq<char>>)
    requires
        strictly_sorted(t),
    ensures
        t.no_duplicates(),
{
    assert forall|i: int, j: int| 0 <= i < t.len() && 0 <= j < t.len() && i != j implies t[i] != t[j] by {
        if i < j {
            assert(text_lt(t[i], t[j]));
            lemma_text_lt_irreflexive(t[i]);
        } else {
            assert(text_lt(t[j], t[i]));
            lemma_text_lt_irreflexive(t[j]);
        }
    }
}

/// Whether `a` comes before `b` in text order.
pub fn text_less(a: &str, b: &str) -> (r: bool)
    ensures
        r == text_lt(a@, b@),
{
    let av = chars_of(a);
    let bv = chars_of(b);
    let mut i: usize = 0;
    proof {
        assert(av@.skip(0) == av@);
        assert(bv@.skip(0) == bv@);
    }
    while i < av.len() && i < bv.len() && av[i] == bv[i]
        invariant
            i <= av.len(),
            i <= bv.len(),
            text_lt(av@, bv@) == text_lt(av@.skip(i as int), bv@.skip(i as int)),
        decreases av.len() - i,
    {
        proof {
            let x = av@.skip(i as int);
            let y = bv@.skip(i as int);
            assert(x[0] == av@[i as int]);
            assert(y[0] == bv@[i as int]);
            assert(x.drop_first() == av@.skip(i + 1));
            assert(y.drop_first() == bv@.skip(i + 1));
        }
        i += 1;
    }
    proof {
        assert(av@.skip(0) == av@);
        assert(bv@.skip(0) == bv@);
    }
    let ghost x = av@.skip(i as int);
    let ghost y = bv@.skip(i as int);
    if i == av.len() {
        proof {
            assert(x.len() == 0);
        }
        i < bv.len()
    } else if i == bv.len() {
        proof {
            assert(y.len() == 0);
        }
        false
    } else {
        proof {
            assert(x[0] == av@[i as int]);
            assert(y[0] == bv@[i as int]);
        }
        av[i] < bv[i]
    }
}

/// `tags.sort(); tags.dedup();` on the concatenation: the texts sorted,
/// each once.
pub fn sorted_unique_tags(tags: Vec<String>) -> (r: Vec<String>)
    ensures
        texts_of(r@) == sort_unique(texts_of(tags@)),
{
    let ghost all = texts_of(tags@);
    let mut out: Vec<String> = Vec::new();
    let mut k: usize = 0;
    while k < tags.len()
        invariant
            k <= tags.len(),
            all == texts_of(tags@),
            texts_of(out@) == sort_unique(all.take(k as int)),
        decreases tags.len() - k,
    {
        proof {
            assert(all.take(k + 1).drop_last() == all.take(k as int));
            assert(all.take(k + 1).last() == tags@[k as int]@);
            lemma_sort_unique(all.take(k as int));
        }
        let x = &tags[k];
        let ghost t = texts_of(out@);
        let mut i: usize = 0;
        while i < out.len() && text_less(out[i].as_str(), x.as_str())
            invariant
                i <= out.len(),
                t == texts_of(out@),
                strictly_sorted(t),
                forall|m: int| 0 <= m < i ==> text_lt(#[trigger] t[m], x@),
            decreases out.len() - i,
        {
            i += 1;
        }
        let present = i < out.len() && crate::text::str_eq(out[i].as_str(), x.as_str());
        proof {
            lemma_insert_at(t, x@, i as int);
        }
        if !present {
            out.insert(i, x.clone());
            proof {
                assert(texts_of(out@) =~= t.take(i as int).push(x@) + t.skip(i as int));
            }
        }
        k += 1;
    }
    proof {
        assert(all.take(tags@.len() as int) == all);
    }
    out
}

proof fn lemma_insert_at(t: Seq<Seq<char>>, x: Seq<char>, i: int)
    requires
        strictly_sorted(t),
        0 <= i <= t.len(),
        forall|m: int| 0 <= m < i ==> text_lt(#[trigger] t[m], x),
        i < t.len() ==> !text_lt(t[i], x),
    ensures
        i < t.len() && t[i] == x ==> insert_sorted(t, x) == t,
        !(i < t.len() && t[i] == x) ==> insert_sorted(t, x) == t.take(i).push(x) + t.skip(i),
    decreases i,
{
    if i == 0 {
        if t.len() > 0 && t[0] != x {
            lemma_text_lt_total(t[0], x);
            assert(text_lt(x, t[0]));
            assert(seq![x] + t == t.take(0).push(x) + t.skip(0));
        } else if t.len() == 0 {
            assert(seq![x] == t.take(0).push(x) + t.skip(0));
        }
    } else {
        let rest = t.drop_first();
        assert(strictly_sorted(rest)) by {
            assert forall|a: int, b: int| 0 <= a < b < rest.len() implies text_lt(#[trigger] rest[a], #[trigger] rest[b]) by {
                assert(rest[a] == t[a + 1]);
                assert(rest[b] == t[b + 1]);
            }
        }
        assert forall|m: int| 0 <= m < i - 1 implies text_lt(#[trigger] rest[m], x) by {
            assert(rest[m] == t[m + 1]);
        }
        if i < t.len() {
            assert(rest[i - 1] == t[i]);
        }
        lemma_insert_at(rest, x, i - 1);
        assert(text_lt(t[0], x));
        lemma_text_lt_irreflexive(x);
        lemma_text_lt_total(x, t[0]);
        assert(x != t[0]);
        assert(!text_lt(x, t[0]));
        if i < t.len() && t[i] == x {
            assert(seq![t[0]] + rest == t);
        } else {
            assert(seq![t[0]] + (rest.take(i - 1).push(x) + rest.skip(i - 1)) == t.take(i).push(x) + t.skip(i));
        }
    }
}

/// `a` when it is nonempty, else `b`.
pub open spec fn pick_text(a: Seq<char>, b: Seq<char>) -> Seq<char> {
    if a.len() > 0 {
        a
    } else {
        b
    }
}

/// The first when it is present, else the second (`Option::or`).
pub open spec fn or_else<T>(a: Option<T>, b: Option<T>) -> Option<T> {
    match a {
        Some(x) => Some(x),
        None => b,
    }
}

/// The map of optional custom fields, empty when absent.
pub open spec fn fields_or_empty(m: Option<Map<Seq<char>, Seq<char>>>) -> Map<Seq<char>, Seq<char>> {
    match m {
        Some(x) => x,
        None => Map::empty(),
    }
}

/// The product that merging `new` into `existing` gives: each text,
/// price, list and optional part of `existing` when it has one, else that
/// of `new`; available when either is; the tags of both sorted and each
/// kept once; created when `existing` was, updated when `new` was; custom
/// fields of both, those of `new` winning.
pub open spec fn merge_spec(e: ProductView, n: ProductView) -> ProductView {
    ProductView {
        id: pick_text(e.id, n.id),
        title: pick_text(e.title, n.title),
        description: pick_text(e.description, n.description),
        price_cents: if e.price_cents > 0 {
            e.price_cents
        } else {
            n.price_cents
        },
        currency: pick_text(e.currency, n.currency),
        availability: e.availability || n.availability,
        vendor: pick_text(e.vendor, n.vendor),
        product_type: pick_text(e.product_type, n.product_type),
        tags: sort_unique(e.tags + n.tags),
        images: if e.images.len() > 0 {
            e.images
        } else {
            n.images
        },
        variants: if e.variants.len() > 0 {
            e.variants
        } else {
            n.variants
        },
        created_at: e.created_at,
        updated_at: n.updated_at,
        handle: pick_text(e.handle, n.handle),
        url: pick_text(e.url, n.url),
        seo_data: or_else(e.seo_data, n.seo_data),
        analytics_data: or_else(e.analytics_data, n.analytics_data),
        related_products: or_else(e.related_products, n.related_products),
        reviews: or_else(e.reviews, n.reviews),
        collections: or_else(e.collections, n.collections),
        custom_fields: Some(fields_or_empty(e.custom_fields).union_prefer_right(fields_or_empty(n.custom_fields))),
        shipping_info: or_else(e.shipping_info, n.shipping_info),
        return_policy: or_else(e.return_policy, n.return_policy),
        warranty: or_else(e.warranty, n.warranty),
        title_de: or_else(e.title_de, n.title_de),
        title_fr: or_else(e.title_fr, n.title_fr),
        title_es: or_else(e.title_es, n.title_es),
        description_de: or_else(e.description_de, n.description_de),
        description_fr: or_else(e.description_fr, n.description_fr),
        description_es: or_else(e.description_es, n.description_es),
    }
}

fn pick(a: &String, b: &String) -> (r: String)
    ensures
        r@ == pick_text(a@, b@),
{
    if !a.as_str().is_empty() {
        a.clone()
    } else {
        b.clone()
    }
}

fn or_string(a: &Option<String>, b: &Option<String>) -> (r: Option<String>)
    ensures
        r == or_else(*a, *b),
{
    match a {
        Some(x) => Some(x.clone()),
        None => b.clone(),
    }
}

fn or_strings(a: &Option<Vec<String>>, b: &Option<Vec<String>>) -> (r: Option<Vec<String>>)
    ensures
        crate::models::opt_texts_of(r) == or_else(crate::models::opt_texts_of(*a), crate::models::opt_texts_of(*b)),
{
    match a {
        Some(x) => Some(clone_strings(x)),
        None => match b {
            Some(y) => Some(clone_strings(y)),
            None => None,
        },
    }
}

fn or_reviews(a: &Option<ReviewsData>, b: &Option<ReviewsData>) -> (r: Option<ReviewsData>)
    ensures
        opt_view(r) == or_else(opt_view(*a), opt_view(*b)),
{
    match a {
        Some(x) => Some(x.clone()),
        None => match b {
            Some(y) => Some(y.clone()),
            None => None,
        },
    }
}

fn or_shipping(a: &Option<ShippingInfo>, b: &Option<ShippingInfo>) -> (r: Option<ShippingInfo>)
    ensures
        opt_view(r) == or_else(opt_view(*a), opt_view(*b)),
{
    match a {
        Some(x) => Some(x.clone()),
        None => match b {
            Some(y) => Some(y.clone()),
            None => None,
        },
    }
}

fn pick_images(a: &Vec<ProductImage>, b: &Vec<ProductImage>) -> (r: Vec<ProductImage>)
    ensures
        r@ == if a@.len() > 0 {
            a@
        } else {
            b@
        },
{
    let r = if a.len() > 0 {
        a.clone()
    } else {
        b.clone()
    };
    proof {
        if a@.len() > 0 {
            assert(r@ =~= a@);
        } else {
            assert(r@ =~= b@);
        }
    }
    r
}

fn pick_variants(a: &Vec<ProductVariant>, b: &Vec<ProductVariant>) -> (r: Vec<ProductVariant>)
    ensures
        r@ == if a@.len() > 0 {
            a@
        } else {
            b@
        },
{
    let r = if a.len() > 0 {
        a.clone()
    } else {
        b.clone()
    };
    proof {
        if a@.len() > 0 {
            assert(r@ =~= a@);
        } else {
            assert(r@ =~= b@);
        }
    }
    r
}

/// Two duplicates merged: each text and option from the first product
/// when it has one, else from the second; tags combined, sorted and
/// unique; custom fields combined, the second's winning.
pub fn merge_products(existing: &ShopifyProduct, new: &ShopifyProduct) -> (r: ShopifyProduct)
    ensures
        r@ == merge_spec(existing@, new@),
{
    let mut tags = clone_strings(&existing.tags);
    let mut more = clone_strings(&new.tags);
    let ghost t1 = texts_of(tags@);
    let ghost t2 = texts_of(more@);
    tags.append(&mut more);
    proof {
        assert(texts_of(tags@) =~= t1 + t2);
    }
    let tags = sorted_unique_tags(tags);
    let mut fields = match &existing.custom_fields {
        Some(m) => m.clone(),
        None => FieldMap::new(),
    };
    match &new.custom_fields {
        Some(m) => fields.extend(m),
        None => {
            proof {
                assert(fields@.union_prefer_right(Map::<Seq<char>, Seq<char>>::empty()) =~= fields@);
            }
        },
    }
    ShopifyProduct {
        id: pick(&existing.id, &new.id),
        title: pick(&existing.title, &new.title),
        description: pick(&existing.description, &new.description),
        price_cents: if existing.price_cents > 0 {
            existing.price_cents
        } else {
            new.price_cents
        },
        currency: pick(&existing.currency, &new.currency),
        availability: existing.availability || new.availability,
        vendor: pick(&existing.vendor, &new.vendor),
        product_type: pick(&existing.product_type, &new.product_type),
        tags,
        images: pick_images(&existing.images, &new.images),
        variants: pick_variants(&existing.variants, &new.variants),
        created_at: existing.created_at,
        updated_at: new.updated_at,
        handle: pick(&existing.handle, &new.handle),
        url: pick(&existing.url, &new.url),
        seo_data: match &existing.seo_data {
            Some(x) => Some(x.clone()),
            None => new.seo_data.clone(),
        },
        analytics_data: match existing.analytics_data {
            Some(x) => Some(x),
            None => new.analytics_data,
        },
        related_products: or_strings(&existing.related_products, &new.related_products),
        reviews: or_reviews(&existing.reviews, &new.reviews),
        collections: or_strings(&existing.collections, &new.collections),
        custom_fields: Some(fields),
        shipping_info: or_shipping(&existing.shipping_info, &new.shipping_info),
        return_policy: or_string(&existing.return_policy, &new.return_policy),
        warranty: or_string(&existing.warranty, &new.warranty),
        title_de: or_string(&existing.title_de, &new.title_de),
        title_fr: or_string(&existing.title_fr, &new.title_fr),
        title_es: or_string(&existing.title_es, &new.title_es),
        description_de: or_string(&existing.description_de, &new.description_de),
        description_fr: or_string(&existing.description_fr, &new.description_fr),
        description_es: or_string(&existing.description_es, &new.description_es),
    }
}

/// Merging keeps, for each text (id, title, description, currency, vendor,
/// product type, handle, URL), the existing product's when it is nonempty
/// and else the new one's; the existing price when positive, else the new
/// one; the existing images and variants when there are any, else the new
/// ones; each optional part of the existing product when present, else the
/// new one's. The merged product is available exactly when either product
/// is; it was created when the existing product was and updated when the
/// new one was; its custom fields are those of both, the new product's
/// values winning on shared names.
pub proof fn lemma_merge_fields(e: ProductView, n: ProductView)
    ensures
        ({
            let r = merge_spec(e, n);
            let a = match e.custom_fields {
                Some(x) => x,
                None => Map::<Seq<char>, Seq<char>>::empty(),
            };
            let b = match n.custom_fields {
                Some(x) => x,
                None => Map::<Seq<char>, Seq<char>>::empty(),
            };
            &&& r.availability <==> (e.availability || n.availability)
            &&& (e.id.len() > 0 ==> r.id == e.id) && (e.id.len() == 0 ==> r.id == n.id)
            &&& (e.title.len() > 0 ==> r.title == e.title) && (e.title.len() == 0 ==> r.title == n.title)
            &&& (e.description.len() > 0 ==> r.description == e.description) && (e.description.len() == 0
                ==> r.description == n.description)
            &&& (e.currency.len() > 0 ==> r.currency == e.currency) && (e.currency.len() == 0 ==> r.currency
                == n.currency)
            &&& (e.vendor.len() > 0 ==> r.vendor == e.vendor) && (e.vendor.len() == 0 ==> r.vendor == n.vendor)
            &&& (e.product_type.len() > 0 ==> r.product_type == e.product_type) && (e.product_type.len() == 0
                ==> r.product_type == n.product_type)
            &&& (e.handle.len() > 0 ==> r.handle == e.handle) && (e.handle.len() == 0 ==> r.handle == n.handle)
            &&& (e.url.len() > 0 ==> r.url == e.url) && (e.url.len() == 0 ==> r.url == n.url)
            &&& (e.price_cents > 0 ==> r.price_cents == e.price_cents) && (e.price_cents <= 0 ==> r.price_cents
                == n.price_cents)
            &&& (e.images.len() > 0 ==> r.images == e.images) && (e.images.len() == 0 ==> r.images == n.images)
            &&& (e.variants.len() > 0 ==> r.variants == e.variants) && (e.variants.len() == 0 ==> r.variants
                == n.variants)
            &&& r.created_at == e.created_at
            &&& r.updated_at == n.updated_at
            &&& (e.seo_data is Some ==> r.seo_data == e.seo_data) && (e.seo_data is None ==> r.seo_data == n.seo_data)
            &&& (e.analytics_data is Some ==> r.analytics_data == e.analytics_data) && (e.analytics_data is None
                ==> r.analytics_data == n.analytics_data)
            &&& (e.related_products is Some ==> r.related_products == e.related_products) && (e.related_products is None
                ==> r.related_products == n.related_products)
            &&& (e.reviews is Some ==> r.reviews == e.reviews) && (e.reviews is None ==> r.reviews == n.reviews)
            &&& (e.collections is Some ==> r.collections == e.collections) && (e.collections is None ==> r.collections
                == n.collections)
            &&& (e.shipping_info is Some ==> r.shipping_info == e.shipping_info) && (e.shipping_info is None
                ==> r.shipping_info == n.shipping_info)
            &&& (e.return_policy is Some ==> r.return_policy == e.return_policy) && (e.return_policy is None
                ==> r.return_policy == n.return_policy)
            &&& (e.warranty is Some ==> r.warranty == e.warranty) && (e.warranty is None ==> r.warranty == n.warranty)
            &&& (e.title_de is Some ==> r.title_de == e.title_de) && (e.title_de is None ==> r.title_de == n.title_de)
            &&& (e.title_fr is Some ==> r.title_fr == e.title_fr) && (e.title_fr is None ==> r.title_fr == n.title_fr)
            &&& (e.title_es is Some ==> r.title_es == e.title_es) && (e.title_es is None ==> r.title_es == n.title_es)
            &&& (e.description_de is Some ==> r.description_de == e.description_de) && (e.description_de is None
                ==> r.description_de == n.description_de)
            &&& (e.description_fr is Some ==> r.description_fr == e.description_fr) && (e.description_fr is None
                ==> r.description_fr == n.description_fr)
            &&& (e.description_es is Some ==> r.description_es == e.description_es) && (e.description_es is None
                ==> r.description_es == n.description_es)
            &&& r.custom_fields is Some
            &&& forall|k: Seq<char>| #[trigger] r.custom_fields->0.contains_key(k) <==> (a.contains_key(k) || b.contains_key(k))
            &&& forall|k: Seq<char>| #[trigger] b.contains_key(k) ==> r.custom_fields->0[k] == b[k]
            &&& forall|k: Seq<char>| #[trigger] a.contains_key(k) && !b.contains_key(k) ==> r.custom_fields->0[k] == a[k]
        }),
{
}

/// The tags of a merged product are sorted, each once, and are exactly
/// the tags of the two products merged.
pub proof fn lemma_merged_tags(e: ProductView, n: ProductView)
    ensures
        strictly_sorted(merge_spec(e, n).tags),
        merge_spec(e, n).tags.no_duplicates(),
        forall|t: Seq<char>| merge_spec(e, n).tags.contains(t) <==> (e.tags.contains(t) || n.tags.contains(t)),
{
    lemma_sort_unique(e.tags + n.tags);
    lemma_strictly_sorted_distinct(sort_unique(e.tags + n.tags));
    assert forall|t: Seq<char>| (e.tags + n.tags).contains(t) <==> (e.tags.contains(t) || n.tags.contains(t)) by {
        if e.tags.contains(t) {
            let k = choose|k: int| 0 <= k < e.tags.len() && e.tags[k] == t;
            assert((e.tags + n.tags)[k] == t);
        }
        if n.tags.contains(t) {
            let k = choose|k: int| 0 <= k < n.tags.len() && n.tags[k] == t;
            assert((e.tags + n.tags)[e.tags.len() + k] == t);
        }
        if (e.tags + n.tags).contains(t) {
            let k = choose|k: int| 0 <= k < (e.tags + n.tags).len() && (e.tags + n.tags)[k] == t;
            if k < e.tags.len() {
                assert(e.tags[k] == t);
            } else {
                assert(n.tags[k - e.tags.len()] == t);
            }
        }
    }
}

} // verus!
