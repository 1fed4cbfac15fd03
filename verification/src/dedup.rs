//! Deduplication of products by a key made of named fields.
use vstd::prelude::*;
use crate::merge::{merge_products, merge_spec};
use crate::models::{texts_of, ProductView, ShopifyProduct};
use crate::rules::{field_present_spec, field_value, field_value_spec, DeduplicationRules, MergeStrategy};
use crate::text::{copy_str, join, lemma_join_push, str_eq};
use crate::validation::products_view;

verus! {

/// `field:value` for each key field that names a value, in order.
pub open spec fn key_parts(p: ProductView, fields: Seq<String>) -> Seq<Seq<char>>
    decreases fields.len(),
{
    if fields.len() == 0 {
        seq![]
    } else {
        let prev = key_parts(p, fields.drop_last());
        let f = fields.last()@;
        match field_value_spec(p, f) {
            Some(v) => prev.push(f + ":"@ + v),
            None => prev,
        }
    }
}

/// The deduplication key of a product: its key parts joined by `|`.
pub open spec fn dedup_key_spec(p: ProductView, fields: Seq<String>) -> Seq<char> {
    join(key_parts(p, fields), "|"@)
}

/// The deduplication key of a product.
pub fn dedup_key(p: &ShopifyProduct, fields: &Vec<String>) -> (r: String)
    ensures
        r@ == dedup_key_spec(p@, fields@),
{
    let mut s = String::new();
    let mut any = false;
    let mut i: usize = 0;
    while i < fields.len()
        invariant
            i <= fields.len(),
            s@ == join(key_parts(p@, fields@.take(i as int)), "|"@),
            any == (key_parts(p@, fields@.take(i as int)).len() > 0),
        decreases fields.len() - i,
    {
        proof {
            assert(fields@.take(i + 1).drop_last() == fields@.take(i as int));
        }
        let f = &fields[i];
        match field_value(p, f.as_str()) {
            Some(v) => {
                let ghost parts = key_parts(p@, fields@.take(i as int));
                let ghost part = f@ + ":"@ + v@;
                proof {
                    lemma_join_push(parts, "|"@, part);
                }
                if any {
                    s.append("|");
                }
                s.append(f.as_str());
                s.append(":");
                s.append(v.as_str());
                any = true;
                proof {
                    if parts.len() > 0 {
                        assert(s@ == join(parts, "|"@) + "|"@ + part);
                    } else {
                        assert(s@ == part);
                    }
                }
            },
            None => {},
        }
        i += 1;
    }
    proof {
        assert(fields@.take(fields@.len() as int) == fields@);
    }
    s
}

/// What a strategy keeps of an earlier product and a later one with the
/// same key.
pub open spec fn combine_spec(strategy: MergeStrategy, existing: ProductView, new: ProductView) -> ProductView {
    match strategy {
        MergeStrategy::KeepFirst => existing,
        MergeStrategy::KeepLast => new,
        MergeStrategy::MergeFields => merge_spec(existing, new),
        MergeStrategy::Custom(m) => m.merged(existing, new),
    }
}

/// The keys seen and the product kept for each, after the products `ps`:
/// a product with a new key is appended; one with a seen key is combined
/// with the product kept for it.
pub open spec fn dedup_state(ps: Seq<ProductView>, rules: DeduplicationRules) -> (Seq<Seq<char>>, Seq<ProductView>)
    decreases ps.len(),
{
    if ps.len() == 0 {
        (seq![], seq![])
    } else {
        let (keys, kept) = dedup_state(ps.drop_last(), rules);
        let p = ps.last();
        let k = dedup_key_spec(p, rules.primary_key_fields@);
        if keys.contains(k) {
            let j = choose|j: int| 0 <= j < keys.len() && keys[j] == k;
            (keys, kept.update(j, combine_spec(rules.merge_strategy, kept[j], p)))
        } else {
            (keys.push(k), kept.push(p))
        }
    }
}

/// The keys are distinct, in the order they first occur, one product
/// kept for each, and every input's key is among them.
pub proof fn lemma_dedup_state(ps: Seq<ProductView>, rules: DeduplicationRules)
    ensures
        dedup_state(ps, rules).0.no_duplicates(),
        dedup_state(ps, rules).0.len() == dedup_state(ps, rules).1.len(),
        dedup_state(ps, rules).1.len() <= ps.len(),
        forall|i: int| 0 <= i < ps.len() ==> dedup_state(ps, rules).0.contains(dedup_key_spec(#[trigger] ps[i], rules.primary_key_fields@)),
        forall|j: int| 0 <= j < dedup_state(ps, rules).0.len() ==> exists|i: int| 0 <= i < ps.len() && dedup_key_spec(#[trigger] ps[i], rules.primary_key_fields@) == #[trigger] dedup_state(ps, rules).0[j],
    decreases ps.len(),
{
    if ps.len() > 0 {
        let pre = ps.drop_last();
        lemma_dedup_state(pre, rules);
        let (keys, kept) = dedup_state(pre, rules);
        let p = ps.last();
        let k = dedup_key_spec(p, rules.primary_key_fields@);
        let (nk, nv) = dedup_state(ps, rules);
        assert forall|i: int| 0 <= i < ps.len() implies nk.contains(dedup_key_spec(#[trigger] ps[i], rules.primary_key_fields@)) by {
            if i < ps.len() - 1 {
                assert(pre[i] == ps[i]);
                assert(keys.contains(dedup_key_spec(pre[i], rules.primary_key_fields@)));
                let m = choose|m: int| 0 <= m < keys.len() && keys[m] == dedup_key_spec(pre[i], rules.primary_key_fields@);
                if !keys.contains(k) {
                    assert(nk[m] == keys[m]);
                }
            } else if !keys.contains(k) {
                assert(nk[keys.len() as int] == k);
            }
        }
        assert forall|j: int| 0 <= j < nk.len() implies exists|i: int| 0 <= i < ps.len() && dedup_key_spec(#[trigger] ps[i], rules.primary_key_fields@) == #[trigger] nk[j] by {
            if j < keys.len() {
                let i = choose|i: int| 0 <= i < pre.len() && dedup_key_spec(#[trigger] pre[i], rules.primary_key_fields@) == keys[j];
                assert(ps[i] == pre[i]);
                if !keys.contains(k) {
                    assert(nk[j] == keys[j]);
                }
            } else {
                assert(ps[ps.len() - 1] == p);
            }
        }
        if !keys.contains(k) {
            assert forall|a: int, b: int| 0 <= a < nk.len() && 0 <= b < nk.len() && a != b implies nk[a] != nk[b] by {
                if a == keys.len() {
                    assert(nk[b] == keys[b]);
                } else if b == keys.len() {
                    assert(nk[a] == keys[a]);
                } else {
                    assert(nk[a] == keys[a]);
                    assert(nk[b] == keys[b]);
                }
            }
        }
    }
}

/// Every key field of `p` is present, or names no field at all.
pub open spec fn key_fields_present(p: ProductView, fields: Seq<String>) -> bool {
    forall|i: int| 0 <= i < fields.len() ==> #[trigger] field_present_spec(p, fields[i]@) || field_value_spec(p, fields[i]@) is None
}

/// Merging into a product whose key fields are present keeps their
/// values, so the merged product has the same key and still has them all.
proof fn lemma_merge_keeps_key(e: ProductView, n: ProductView, fields: Seq<String>)
    requires
        key_fields_present(e, fields),
    ensures
        key_parts(merge_spec(e, n), fields) == key_parts(e, fields),
        key_fields_present(merge_spec(e, n), fields),
    decreases fields.len(),
{
    let m = merge_spec(e, n);
    assert forall|i: int| 0 <= i < fields.len() implies field_value_spec(m, #[trigger] fields[i]@) == field_value_spec(e, fields[i]@)
        && (field_present_spec(m, fields[i]@) || field_value_spec(m, fields[i]@) is None) by {
        assert(field_present_spec(e, fields[i]@) || field_value_spec(e, fields[i]@) is None);
    }
    if fields.len() > 0 {
        let pre = fields.drop_last();
        assert forall|i: int| 0 <= i < pre.len() implies #[trigger] field_present_spec(e, pre[i]@) || field_value_spec(e, pre[i]@) is None by {
            assert(pre[i] == fields[i]);
            assert(field_present_spec(e, fields[i]@) || field_value_spec(e, fields[i]@) is None);
        }
        lemma_merge_keeps_key(e, n, pre);
        assert(field_value_spec(m, fields[fields.len() - 1]@) == field_value_spec(e, fields[fields.len() - 1]@));
    }
    assert forall|i: int| 0 <= i < fields.len() implies #[trigger] field_present_spec(m, fields[i]@) || field_value_spec(m, fields[i]@) is None by {
        assert(field_value_spec(m, fields[i]@) == field_value_spec(e, fields[i]@));
    }
}

/// The strategy combines duplicates without changing the kept product's
/// key: keeping the first or the last, or merging products whose key
/// fields are all present.
pub open spec fn keeps_keys(ps: Seq<ProductView>, rules: DeduplicationRules) -> bool {
    ||| rules.merge_strategy is KeepFirst
    ||| rules.merge_strategy is KeepLast
    ||| (rules.merge_strategy is MergeFields && forall|i: int| 0 <= i < ps.len() ==> key_fields_present(#[trigger] ps[i], rules.primary_key_fields@))
}

/// Deduplication removes duplicates: when the strategy keeps keys (keeping
/// the first or the last, or merging products whose key fields are all
/// present), every kept product has the key of its slot, so no two kept
/// products share a key.
pub proof fn lemma_dedup_distinct_keys(ps: Seq<ProductView>, rules: DeduplicationRules)
    requires
        keeps_keys(ps, rules),
    ensures
        forall|j: int| 0 <= j < dedup_state(ps, rules).1.len() ==>
            dedup_key_spec(#[trigger] dedup_state(ps, rules).1[j], rules.primary_key_fields@) == dedup_state(ps, rules).0[j],
        forall|a: int, b: int| 0 <= a < dedup_state(ps, rules).1.len() && 0 <= b < dedup_state(ps, rules).1.len() && a != b ==>
            dedup_key_spec(#[trigger] dedup_state(ps, rules).1[a], rules.primary_key_fields@)
                != dedup_key_spec(#[trigger] dedup_state(ps, rules).1[b], rules.primary_key_fields@),
        rules.merge_strategy is MergeFields ==> forall|j: int| 0 <= j < dedup_state(ps, rules).1.len() ==>
            key_fields_present(#[trigger] dedup_state(ps, rules).1[j], rules.primary_key_fields@),
    decreases ps.len(),
{
    lemma_dedup_state(ps, rules);
    let fields = rules.primary_key_fields@;
    if ps.len() > 0 {
        let pre = ps.drop_last();
        assert(keeps_keys(pre, rules)) by {
            if rules.merge_strategy is MergeFields {
                assert forall|i: int| 0 <= i < pre.len() implies key_fields_present(#[trigger] pre[i], fields) by {
                    assert(pre[i] == ps[i]);
                }
            }
        }
        lemma_dedup_distinct_keys(pre, rules);
        lemma_dedup_state(pre, rules);
        let (keys, kept) = dedup_state(pre, rules);
        let p = ps.last();
        let k = dedup_key_spec(p, fields);
        let (nk, nv) = dedup_state(ps, rules);
        if rules.merge_strategy is MergeFields {
            assert(key_fields_present(ps[ps.len() - 1], fields));
        }
        if keys.contains(k) {
            let j = choose|j: int| 0 <= j < keys.len() && keys[j] == k;
            if rules.merge_strategy is MergeFields {
                assert(key_fields_present(kept[j], fields));
                lemma_merge_keeps_key(kept[j], p, fields);
                assert(nv[j] == merge_spec(kept[j], p));
            }
            assert forall|i: int| 0 <= i < nv.len() implies dedup_key_spec(#[trigger] nv[i], fields) == nk[i] by {
                if i != j {
                    assert(nv[i] == kept[i]);
                }
            }
            if rules.merge_strategy is MergeFields {
                assert forall|i: int| 0 <= i < nv.len() implies key_fields_present(#[trigger] nv[i], fields) by {
                    if i != j {
                        assert(nv[i] == kept[i]);
                    }
                }
            }
        } else {
            assert forall|i: int| 0 <= i < nv.len() implies dedup_key_spec(#[trigger] nv[i], fields) == nk[i] by {
                if i < kept.len() {
                    assert(nv[i] == kept[i]);
                    assert(nk[i] == keys[i]);
                }
            }
            if rules.merge_strategy is MergeFields {
                assert forall|i: int| 0 <= i < nv.len() implies key_fields_present(#[trigger] nv[i], fields) by {
                    if i < kept.len() {
                        assert(nv[i] == kept[i]);
                    }
                }
            }
        }
    }
    let (nk, nv) = dedup_state(ps, rules);
    assert forall|a: int, b: int| 0 <= a < nv.len() && 0 <= b < nv.len() && a != b implies
        dedup_key_spec(#[trigger] nv[a], fields) != dedup_key_spec(#[trigger] nv[b], fields) by {
        assert(nk[a] != nk[b]);
    }
}

/// The input that is kept for key `k` among `ps`: with `KeepFirst` the
/// first input with that key, with `KeepLast` the last one.
pub open spec fn is_kept_input(ps: Seq<ProductView>, fields: Seq<String>, k: Seq<char>, i: int, first: bool) -> bool {
    &&& 0 <= i < ps.len()
    &&& dedup_key_spec(ps[i], fields) == k
    &&& first ==> forall|a: int| 0 <= a < i ==> dedup_key_spec(#[trigger] ps[a], fields) != k
    &&& !first ==> forall|a: int| i < a < ps.len() ==> dedup_key_spec(#[trigger] ps[a], fields) != k
}

/// Keeping the first (or the last) of each set of duplicates keeps, for
/// each key, exactly the first (or the last) input with that key.
pub proof fn lemma_dedup_keeps_first_or_last(ps: Seq<ProductView>, rules: DeduplicationRules)
    requires
        rules.merge_strategy is KeepFirst || rules.merge_strategy is KeepLast,
    ensures
        forall|j: int| 0 <= j < dedup_state(ps, rules).1.len() ==> exists|i: int| is_kept_input(
            ps,
            rules.primary_key_fields@,
            dedup_state(ps, rules).0[j],
            i,
            rules.merge_strategy is KeepFirst,
        ) && #[trigger] dedup_state(ps, rules).1[j] == ps[i],
    decreases ps.len(),
{
    lemma_dedup_state(ps, rules);
    let fields = rules.primary_key_fields@;
    let first = rules.merge_strategy is KeepFirst;
    if ps.len() > 0 {
        let pre = ps.drop_last();
        lemma_dedup_keeps_first_or_last(pre, rules);
        lemma_dedup_state(pre, rules);
        let (keys, kept) = dedup_state(pre, rules);
        let p = ps.last();
        let n = ps.len() - 1;
        assert(ps[n] == p);
        let k = dedup_key_spec(p, fields);
        let (nk, nv) = dedup_state(ps, rules);
        assert forall|j: int| 0 <= j < nv.len() implies exists|i: int| is_kept_input(ps, fields, nk[j], i, first) && #[trigger] nv[j]
            == ps[i] by {
            if j < kept.len() && !(keys.contains(k) && keys[j] == k) {
                let i = choose|i: int| is_kept_input(pre, fields, keys[j], i, first) && kept[j] == pre[i];
                assert(ps[i] == pre[i]);
                if !keys.contains(k) {
                    assert(nk[j] == keys[j]);
                    assert(nv[j] == kept[j]);
                } else {
                    let j0 = choose|j0: int| 0 <= j0 < keys.len() && keys[j0] == k;
                    assert(nv[j] == kept[j]);
                }
                assert(nk[j] == keys[j]);
                assert(keys[j] != k) by {
                    if keys.contains(k) {
                    } else {
                        assert(keys.contains(keys[j]));
                    }
                }
                assert forall|a: int| first && 0 <= a < i implies dedup_key_spec(#[trigger] ps[a], fields) != nk[j] by {
                    assert(ps[a] == pre[a]);
                }
                assert forall|a: int| !first && i < a < ps.len() implies dedup_key_spec(#[trigger] ps[a], fields) != nk[j] by {
                    if a < n {
                        assert(ps[a] == pre[a]);
                    }
                }
                assert(is_kept_input(ps, fields, nk[j], i, first));
            } else if j < kept.len() {
                let i = choose|i: int| is_kept_input(pre, fields, keys[j], i, first) && kept[j] == pre[i];
                let j0 = choose|j0: int| 0 <= j0 < keys.len() && keys[j0] == k;
                assert(keys[j0] == keys[j]);
                assert(j0 == j);
                if first {
                    assert(nv[j] == kept[j]);
                    assert(ps[i] == pre[i]);
                    assert forall|a: int| 0 <= a < i implies dedup_key_spec(#[trigger] ps[a], fields) != nk[j] by {
                        assert(ps[a] == pre[a]);
                    }
                    assert(is_kept_input(ps, fields, nk[j], i, first));
                } else {
                    assert(nv[j] == p);
                    assert(is_kept_input(ps, fields, nk[j], n, first));
                }
            } else {
                assert(!keys.contains(k));
                assert(nv[j] == p && nk[j] == k);
                assert forall|a: int| 0 <= a < n implies dedup_key_spec(#[trigger] ps[a], fields) != k by {
                    assert(ps[a] == pre[a]);
                    assert(keys.contains(dedup_key_spec(pre[a], fields)));
                }
                assert(is_kept_input(ps, fields, nk[j], n, first));
            }
        }
    }
}

/// The keys of the products, in order.
pub open spec fn keys_of(ps: Seq<ProductView>, fields: Seq<String>) -> Seq<Seq<char>> {
    ps.map_values(|p: ProductView| dedup_key_spec(p, fields))
}

/// Products whose keys are pairwise distinct are kept as they are.
pub proof fn lemma_dedup_distinct_input(ps: Seq<ProductView>, rules: DeduplicationRules)
    requires
        forall|a: int, b: int| 0 <= a < ps.len() && 0 <= b < ps.len() && a != b ==>
            dedup_key_spec(#[trigger] ps[a], rules.primary_key_fields@) != dedup_key_spec(#[trigger] ps[b], rules.primary_key_fields@),
    ensures
        dedup_state(ps, rules).0 == keys_of(ps, rules.primary_key_fields@),
        dedup_state(ps, rules).1 == ps,
    decreases ps.len(),
{
    let fields = rules.primary_key_fields@;
    if ps.len() > 0 {
        let pre = ps.drop_last();
        assert forall|a: int, b: int| 0 <= a < pre.len() && 0 <= b < pre.len() && a != b implies
            dedup_key_spec(#[trigger] pre[a], fields) != dedup_key_spec(#[trigger] pre[b], fields) by {
            assert(pre[a] == ps[a] && pre[b] == ps[b]);
        }
        lemma_dedup_distinct_input(pre, rules);
        let (keys, kept) = dedup_state(pre, rules);
        let p = ps.last();
        let k = dedup_key_spec(p, fields);
        if keys.contains(k) {
            let j = choose|j: int| 0 <= j < keys.len() && keys[j] == k;
            assert(keys[j] == dedup_key_spec(pre[j], fields));
            assert(pre[j] == ps[j]);
            assert(ps[ps.len() - 1] == p);
            assert(false);
        }
        assert(keys_of(ps, fields) =~= keys.push(k));
        assert(ps =~= pre.push(p));
    } else {
        assert(keys_of(ps, fields) =~= Seq::<Seq<char>>::empty());
        assert(ps =~= Seq::<ProductView>::empty());
    }
}

/// Deduplicating what deduplication returned changes nothing, when the
/// strategy keeps keys.
pub proof fn lemma_dedup_idempotent(ps: Seq<ProductView>, rules: DeduplicationRules)
    requires
        keeps_keys(ps, rules),
    ensures
        dedup_state(dedup_state(ps, rules).1, rules).1 == dedup_state(ps, rules).1,
{
    lemma_dedup_distinct_keys(ps, rules);
    lemma_dedup_distinct_input(dedup_state(ps, rules).1, rules);
}

/// Position of `k` among `keys`, if any.
fn find_key(keys: &Vec<String>, k: &String) -> (r: Option<usize>)
    requires
        texts_of(keys@).no_duplicates(),
    ensures
        match r {
            Some(j) => j < keys@.len() && keys@[j as int]@ == k@ && texts_of(keys@).contains(k@)
                && (forall|m: int| 0 <= m < keys@.len() && #[trigger] keys@[m]@ == k@ ==> m == j),
            None => !texts_of(keys@).contains(k@),
        },
{
    let mut i: usize = 0;
    while i < keys.len()
        invariant
            i <= keys.len(),
            texts_of(keys@).no_duplicates(),
            forall|m: int| 0 <= m < i ==> (#[trigger] keys@[m])@ != k@,
        decreases keys.len() - i,
    {
        if str_eq(keys[i].as_str(), k.as_str()) {
            proof {
                assert(texts_of(keys@)[i as int] == k@);
                assert forall|m: int| 0 <= m < keys@.len() && #[trigger] keys@[m]@ == k@ implies m == i by {
                    assert(texts_of(keys@)[m] == k@);
                }
            }
            return Some(i);
        }
        i += 1;
    }
    proof {
        if texts_of(keys@).contains(k@) {
            let m = choose|m: int| 0 <= m < texts_of(keys@).len() && texts_of(keys@)[m] == k@;
            assert(keys@[m]@ == k@);
        }
    }
    None
}

/// The deduplication stage of the pipeline: one product per key, the
/// duplicates combined by the merge strategy, in the order their keys
/// first occur.
pub fn deduplicate_products(products: Vec<ShopifyProduct>, rules: &DeduplicationRules) -> (r: Vec<ShopifyProduct>)
    ensures
        products_view(r@) == dedup_state(products_view(products@), *rules).1,
{
    let ghost orig = products@;
    let ghost all = products_view(orig);
    let n = products.len();
    let mut rest = crate::vecs::reversed(products);
    let mut keys: Vec<String> = Vec::new();
    let mut kept: Vec<ShopifyProduct> = Vec::new();
    let mut i: usize = 0;
    while i < n
        invariant
            i <= n == orig.len(),
            all == products_view(orig),
            rest@.len() == n - i,
            forall|j: int| 0 <= j < rest@.len() ==> #[trigger] rest@[j] == orig[n - 1 - j],
            texts_of(keys@) == dedup_state(all.take(i as int), *rules).0,
            products_view(kept@) == dedup_state(all.take(i as int), *rules).1,
            texts_of(keys@).no_duplicates(),
        decreases n - i,
    {
        let p = rest.pop().unwrap();
        let ghost pre = all.take(i as int);
        proof {
            assert(p == orig[i as int]);
            assert(all.take(i + 1).drop_last() == pre);
            assert(all.take(i + 1).last() == p@);
            lemma_dedup_state(pre, *rules);
        }
        let k = dedup_key(&p, &rules.primary_key_fields);
        match find_key(&keys, &k) {
            Some(j) => {
                let ghost kv = products_view(kept@);
                proof {
                    let c = choose|c: int| 0 <= c < texts_of(keys@).len() && texts_of(keys@)[c] == k@;
                    assert(keys@[c]@ == k@);
                    assert(c == j);
                }
                match &rules.merge_strategy {
                    MergeStrategy::KeepFirst => {},
                    MergeStrategy::KeepLast => {
                        kept.set(j, p);
                    },
                    MergeStrategy::MergeFields => {
                        let m = merge_products(&kept[j], &p);
                        kept.set(j, m);
                    },
                    MergeStrategy::Custom(merger) => {
                        let m = merger.merge(&kept[j], &p);
                        kept.set(j, m);
                    },
                }
                proof {
                    assert(products_view(kept@) =~= kv.update(j as int, combine_spec(rules.merge_strategy, kv[j as int], p@)));
                }
            },
            None => {
                let ghost kt = texts_of(keys@);
                let ghost kv = products_view(kept@);
                keys.push(k);
                kept.push(p);
                proof {
                    assert(texts_of(keys@) =~= kt.push(k@));
                    assert(products_view(kept@) =~= kv.push(p@));
                    lemma_dedup_state(all.take(i + 1), *rules);
                }
            },
        }
        i += 1;
    }
    proof {
        assert(all.take(n as int) == all);
    }
    kept
}

} // verus!
