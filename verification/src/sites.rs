//! The products of each scraped website, gathered as a map from website to
//! products: a later result for the same website replaces the earlier one.
use vstd::prelude::*;
use crate::models::{ProductView, ShopifyProduct};
use crate::text::str_eq;
use crate::validation::products_view;

verus! {

/// One website's result: its name and its products.
pub type SiteResult = (String, Vec<ShopifyProduct>);

/// The contents of one website's result.
pub open spec fn site_entry(e: SiteResult) -> (Seq<char>, Seq<ProductView>) {
    (e.0@, products_view(e.1@))
}

/// The contents of a list of results.
pub open spec fn sites_view(v: Seq<SiteResult>) -> Seq<(Seq<char>, Seq<ProductView>)> {
    v.map_values(|e: SiteResult| site_entry(e))
}

/// The contents of a list of task outcomes, `None` for a task that failed.
pub open spec fn outcomes_view(v: Seq<Option<SiteResult>>) -> Seq<Option<(Seq<char>, Seq<ProductView>)>> {
    v.map_values(|o: Option<SiteResult>| match o {
        Some(e) => Some(site_entry(e)),
        None => None,
    })
}

/// Whether `site` has an entry in `m`.
pub open spec fn has_site(m: Seq<(Seq<char>, Seq<ProductView>)>, site: Seq<char>) -> bool {
    exists|j: int| 0 <= j < m.len() && (#[trigger] m[j]).0 == site
}

/// No website has two entries.
pub open spec fn distinct_sites(m: Seq<(Seq<char>, Seq<ProductView>)>) -> bool {
    forall|a: int, b: int| 0 <= a < m.len() && 0 <= b < m.len() && a != b ==> (#[trigger] m[a]).0 != (#[trigger] m[b]).0
}

/// The products recorded for `site`, if any.
pub open spec fn lookup_site(m: Seq<(Seq<char>, Seq<ProductView>)>, site: Seq<char>) -> Option<Seq<ProductView>> {
    if has_site(m, site) {
        let j = choose|j: int| 0 <= j < m.len() && (#[trigger] m[j]).0 == site;
        Some(m[j].1)
    } else {
        None
    }
}

/// `m` with `products` recorded for `site`: the earlier entry replaced in
/// place, or a new entry at the end.
pub open spec fn insert_site(m: Seq<(Seq<char>, Seq<ProductView>)>, site: Seq<char>, products: Seq<ProductView>) -> Seq<(Seq<char>, Seq<ProductView>)> {
    if has_site(m, site) {
        let j = choose|j: int| 0 <= j < m.len() && (#[trigger] m[j]).0 == site;
        m.update(j, (site, products))
    } else {
        m.push((site, products))
    }
}

/// The map made of the successful outcomes, in order.
pub open spec fn collect_spec(outcomes: Seq<Option<(Seq<char>, Seq<ProductView>)>>) -> Seq<(Seq<char>, Seq<ProductView>)>
    decreases outcomes.len(),
{
    if outcomes.len() == 0 {
        Seq::empty()
    } else {
        let m = collect_spec(outcomes.drop_last());
        match outcomes.last() {
            Some((site, products)) => insert_site(m, site, products),
            None => m,
        }
    }
}

/// The products of the last successful outcome for `site`.
pub open spec fn last_for(outcomes: Seq<Option<(Seq<char>, Seq<ProductView>)>>, site: Seq<char>) -> Option<Seq<ProductView>>
    decreases outcomes.len(),
{
    if outcomes.len() == 0 {
        None
    } else {
        match outcomes.last() {
            Some((s, products)) if s == site => Some(products),
            _ => last_for(outcomes.drop_last(), site),
        }
    }
}

/// Recording keeps websites distinct, and afterwards `site` has `products`
/// while every other website keeps what it had.
pub proof fn lemma_insert_site(m: Seq<(Seq<char>, Seq<ProductView>)>, site: Seq<char>, products: Seq<ProductView>)
    requires
        distinct_sites(m),
    ensures
        distinct_sites(insert_site(m, site, products)),
        forall|s: Seq<char>| #[trigger] lookup_site(insert_site(m, site, products), s) == if s == site {
            Some(products)
        } else {
            lookup_site(m, s)
        },
{
    let r = insert_site(m, site, products);
    if has_site(m, site) {
        let j = choose|j: int| 0 <= j < m.len() && (#[trigger] m[j]).0 == site;
        assert forall|a: int, b: int| 0 <= a < r.len() && 0 <= b < r.len() && a != b implies (#[trigger] r[a]).0 != (#[trigger] r[b]).0 by {
            if a != j && b != j {
                assert(r[a] == m[a] && r[b] == m[b]);
            } else if a == j {
                assert(r[b] == m[b]);
                assert(m[j].0 != m[b].0);
            } else {
                assert(r[a] == m[a]);
                assert(m[j].0 != m[a].0);
            }
        }
        assert forall|s: Seq<char>| #[trigger] lookup_site(r, s) == if s == site {
            Some(products)
        } else {
            lookup_site(m, s)
        } by {
            if s == site {
                assert(r[j].0 == site);
                let k = choose|k: int| 0 <= k < r.len() && (#[trigger] r[k]).0 == s;
                if k != j {
                    assert(r[k] == m[k]);
                }
            } else if has_site(m, s) {
                let k = choose|k: int| 0 <= k < m.len() && (#[trigger] m[k]).0 == s;
                assert(k != j);
                assert(r[k] == m[k]);
                assert(has_site(r, s));
                let k2 = choose|k2: int| 0 <= k2 < r.len() && (#[trigger] r[k2]).0 == s;
                if k2 != j {
                    assert(r[k2] == m[k2]);
                }
            } else {
                if has_site(r, s) {
                    let k2 = choose|k2: int| 0 <= k2 < r.len() && (#[trigger] r[k2]).0 == s;
                    if k2 != j {
                        assert(r[k2] == m[k2]);
                    }
                }
            }
        }
    } else {
        let n = m.len() as int;
        assert forall|a: int, b: int| 0 <= a < r.len() && 0 <= b < r.len() && a != b implies (#[trigger] r[a]).0 != (#[trigger] r[b]).0 by {
            if a < n && b < n {
                assert(r[a] == m[a] && r[b] == m[b]);
            } else if a == n {
                assert(r[b] == m[b]);
            } else {
                assert(r[a] == m[a]);
            }
        }
        assert forall|s: Seq<char>| #[trigger] lookup_site(r, s) == if s == site {
            Some(products)
        } else {
            lookup_site(m, s)
        } by {
            if s == site {
                assert(r[n].0 == site);
                let k = choose|k: int| 0 <= k < r.len() && (#[trigger] r[k]).0 == s;
                if k != n {
                    assert(r[k] == m[k]);
                }
            } else if has_site(m, s) {
                let k = choose|k: int| 0 <= k < m.len() && (#[trigger] m[k]).0 == s;
                assert(r[k] == m[k]);
                assert(has_site(r, s));
                let k2 = choose|k2: int| 0 <= k2 < r.len() && (#[trigger] r[k2]).0 == s;
                if k2 != n {
                    assert(r[k2] == m[k2]);
                }
            } else {
                if has_site(r, s) {
                    let k2 = choose|k2: int| 0 <= k2 < r.len() && (#[trigger] r[k2]).0 == s;
                    if k2 != n {
                        assert(r[k2] == m[k2]);
                    }
                }
            }
        }
    }
}

/// The gathered results are a map: no website twice, and each website has
/// the products of its last successful outcome (none if it never had one).
pub proof fn lemma_collect(outcomes: Seq<Option<(Seq<char>, Seq<ProductView>)>>)
    ensures
        distinct_sites(collect_spec(outcomes)),
        forall|s: Seq<char>| #[trigger] lookup_site(collect_spec(outcomes), s) == last_for(outcomes, s),
    decreases outcomes.len(),
{
    if outcomes.len() > 0 {
        let prev = outcomes.drop_last();
        lemma_collect(prev);
        let m = collect_spec(prev);
        match outcomes.last() {
            Some((site, products)) => {
                lemma_insert_site(m, site, products);
                assert forall|s: Seq<char>| #[trigger] lookup_site(collect_spec(outcomes), s) == last_for(outcomes, s) by {
                    assert(lookup_site(insert_site(m, site, products), s) == if s == site {
                        Some(products)
                    } else {
                        lookup_site(m, s)
                    });
                    assert(lookup_site(m, s) == last_for(prev, s));
                }
            },
            None => {
                assert forall|s: Seq<char>| #[trigger] lookup_site(collect_spec(outcomes), s) == last_for(outcomes, s) by {
                    assert(lookup_site(m, s) == last_for(prev, s));
                }
            },
        }
    } else {
        assert forall|s: Seq<char>| #[trigger] lookup_site(collect_spec(outcomes), s) == last_for(outcomes, s) by {
            assert(!has_site(collect_spec(outcomes), s));
        }
    }
}

/// Records `products` for `site`, replacing an earlier result for it.
fn insert_site_result(results: &mut Vec<SiteResult>, site: String, products: Vec<ShopifyProduct>)
    requires
        distinct_sites(sites_view(old(results)@)),
    ensures
        sites_view(final(results)@) == insert_site(sites_view(old(results)@), site@, products_view(products@)),
{
    let ghost m = sites_view(results@);
    let mut j: usize = 0;
    while j < results.len()
        invariant
            j <= results@.len(),
            m == sites_view(results@),
            m == sites_view(old(results)@),
            distinct_sites(m),
            forall|k: int| 0 <= k < j ==> (#[trigger] m[k]).0 != site@,
        decreases results@.len() - j,
    {
        if str_eq(results[j].0.as_str(), site.as_str()) {
            proof {
                assert(m[j as int].0 == site@);
                assert(has_site(m, site@));
            }
            let ghost c = choose|c: int| 0 <= c < m.len() && (#[trigger] m[c]).0 == site@;
            proof {
                assert(c == j);
            }
            let ghost pv = products_view(products@);
            results.set(j, (site, products));
            proof {
                assert(sites_view(results@) =~= m.update(j as int, (site@, pv)));
                assert(insert_site(m, site@, pv) == m.update(j as int, (site@, pv)));
            }
            return;
        }
        j += 1;
    }
    proof {
        assert(!has_site(m, site@));
    }
    results.push((site, products));
    proof {
        assert(sites_view(results@) =~= m.push((site@, products_view(products@))));
    }
}

/// The outcomes of the website tasks of a run gathered into a map from
/// website to products; a failed task (`None`) adds nothing.
pub fn collect_site_results(outcomes: Vec<Option<SiteResult>>) -> (r: Vec<SiteResult>)
    ensures
        sites_view(r@) == collect_spec(outcomes_view(outcomes@)),
        distinct_sites(sites_view(r@)),
{
    let ghost all = outcomes_view(outcomes@);
    let n = outcomes.len();
    let mut rest = crate::vecs::reversed(outcomes);
    let mut out: Vec<SiteResult> = Vec::new();
    let mut i: usize = 0;
    proof {
        assert(all.take(0) =~= Seq::<Option<(Seq<char>, Seq<ProductView>)>>::empty());
        assert(sites_view(out@) =~= Seq::<(Seq<char>, Seq<ProductView>)>::empty());
    }
    while i < n
        invariant
            i <= n == all.len(),
            all == outcomes_view(outcomes@),
            rest@.len() == n - i,
            forall|j: int| 0 <= j < rest@.len() ==> #[trigger] rest@[j] == outcomes@[n - 1 - j],
            sites_view(out@) == collect_spec(all.take(i as int)),
            distinct_sites(sites_view(out@)),
        decreases n - i,
    {
        let o = rest.pop().unwrap();
        proof {
            assert(o == outcomes@[i as int]);
            assert(all.take(i + 1).drop_last() == all.take(i as int));
            assert(all.take(i + 1).last() == all[i as int]);
            lemma_collect(all.take(i + 1));
        }
        match o {
            Some((site, products)) => {
                insert_site_result(&mut out, site, products);
            },
            None => {},
        }
        i += 1;
    }
    proof {
        assert(all.take(n as int) == all);
    }
    out
}

} // verus!
