//! A string-to-string map for the free-form custom fields of a product.
use vstd::prelude::*;

verus! {

/// One key and its value.
#[derive(Debug)]
pub struct FieldEntry {
    pub key: String,
    pub value: String,
}

impl Clone for FieldEntry {
    fn clone(&self) -> (r: Self)
        ensures
            r == *self,
    {
        FieldEntry { key: self.key.clone(), value: self.value.clone() }
    }
}

/// The map that a sequence of entries with distinct keys stands for.
pub open spec fn entries_map(s: Seq<FieldEntry>) -> Map<Seq<char>, Seq<char>>
    decreases s.len(),
{
    if s.len() == 0 {
        Map::empty()
    } else {
        entries_map(s.drop_last()).insert(s.last().key@, s.last().value@)
    }
}

/// No key occurs twice.
pub open spec fn distinct_keys(s: Seq<FieldEntry>) -> bool {
    forall|i: int, j: int| 0 <= i < j < s.len() ==> s[i].key@ != s[j].key@
}

/// Custom fields of a product: each key has one value.
#[derive(Debug)]
pub struct FieldMap {
    entries: Vec<FieldEntry>,
}

proof fn lemma_entries_map_dom(s: Seq<FieldEntry>)
    ensures
        forall|k: Seq<char>| #[trigger] entries_map(s).contains_key(k) <==> exists|i: int| 0 <= i < s.len() && s[i].key@ == k,
    decreases s.len(),
{
    if s.len() > 0 {
        lemma_entries_map_dom(s.drop_last());
        assert forall|k: Seq<char>| #[trigger] entries_map(s).contains_key(k) <==> exists|i: int| 0 <= i < s.len() && s[i].key@ == k by {
            if entries_map(s).contains_key(k) {
                if k == s.last().key@ {
                    assert(s[s.len() - 1].key@ == k);
                } else {
                    assert(entries_map(s.drop_last()).contains_key(k));
                    let i = choose|i: int| 0 <= i < s.drop_last().len() && s.drop_last()[i].key@ == k;
                    assert(s[i].key@ == k);
                }
            }
            if exists|i: int| 0 <= i < s.len() && s[i].key@ == k {
                let i = choose|i: int| 0 <= i < s.len() && s[i].key@ == k;
                if i < s.len() - 1 {
                    assert(s.drop_last()[i].key@ == k);
                }
            }
        }
    }
}

proof fn lemma_entries_map_value(s: Seq<FieldEntry>, i: int)
    requires
        distinct_keys(s),
        0 <= i < s.len(),
    ensures
        entries_map(s).contains_key(s[i].key@),
        entries_map(s)[s[i].key@] == s[i].value@,
    decreases s.len(),
{
    if i < s.len() - 1 {
        assert(distinct_keys(s.drop_last()));
        assert(s.drop_last()[i] == s[i]);
        lemma_entries_map_value(s.drop_last(), i);
        assert(s[i].key@ != s.last().key@);
    }
}

proof fn lemma_entries_map_update(s: Seq<FieldEntry>, i: int, e: FieldEntry)
    requires
        distinct_keys(s),
        0 <= i < s.len(),
        e.key@ == s[i].key@,
    ensures
        distinct_keys(s.update(i, e)),
        entries_map(s.update(i, e)) == entries_map(s).insert(e.key@, e.value@),
    decreases s.len(),
{
    let u = s.update(i, e);
    assert(distinct_keys(u)) by {
        assert forall|a: int, b: int| 0 <= a < b < u.len() implies u[a].key@ != u[b].key@ by {
            assert(u[a].key@ == s[a].key@);
            assert(u[b].key@ == s[b].key@);
        }
    }
    if i == s.len() - 1 {
        assert(u.drop_last() == s.drop_last());
        assert(u.last() == e);
    } else {
        assert(distinct_keys(s.drop_last()));
        assert(u.drop_last() == s.drop_last().update(i, e));
        lemma_entries_map_update(s.drop_last(), i, e);
        assert(s.last().key@ != e.key@);
        assert(u.last() == s.last());
        assert(entries_map(u) =~= entries_map(s).insert(e.key@, e.value@));
    }
}

impl View for FieldMap {
    type V = Map<Seq<char>, Seq<char>>;

    closed spec fn view(&self) -> Map<Seq<char>, Seq<char>> {
        entries_map(self.entries@)
    }
}

impl FieldMap {
    #[verifier::type_invariant]
    closed spec fn inv(self) -> bool {
        distinct_keys(self.entries@)
    }

    /// An empty map.
    pub fn new() -> (m: Self)
        ensures
            m@ == Map::<Seq<char>, Seq<char>>::empty(),
    {
        FieldMap { entries: Vec::new() }
    }

    /// Number of keys.
    pub fn len(&self) -> (n: usize)
        ensures
            n == self@.dom().len(),
    {
        proof {
            use_type_invariant(self);
            lemma_entries_map_len(self.entries@);
        }
        self.entries.len()
    }

    /// The value of `key`, if any.
    pub fn get(&self, key: &str) -> (r: Option<&String>)
        ensures
            match r {
                Some(v) => self@.contains_key(key@) && self@[key@] == v@,
                None => !self@.contains_key(key@),
            },
    {
        proof {
            use_type_invariant(self);
            lemma_entries_map_dom(self.entries@);
        }
        let mut i: usize = 0;
        while i < self.entries.len()
            invariant
                i <= self.entries.len(),
                distinct_keys(self.entries@),
                forall|j: int| 0 <= j < i ==> self.entries@[j].key@ != key@,
            decreases self.entries.len() - i,
        {
            if crate::text::str_eq(self.entries[i].key.as_str(), key) {
                proof {
                    lemma_entries_map_value(self.entries@, i as int);
                }
                return Some(&self.entries[i].value);
            }
            i += 1;
        }
        None
    }

    /// Sets `key` to `value`, replacing any value it had (`HashMap::insert`).
    pub fn insert(&mut self, key: String, value: String)
        ensures
            final(self)@ == old(self)@.insert(key@, value@),
    {
        proof {
            use_type_invariant(&*self);
        }
        let mut i: usize = 0;
        while i < self.entries.len()
            invariant
                i <= self.entries.len(),
                self.entries@ == old(self).entries@,
                distinct_keys(self.entries@),
                forall|j: int| 0 <= j < i ==> self.entries@[j].key@ != key@,
            decreases self.entries.len() - i,
        {
            if crate::text::str_eq(self.entries[i].key.as_str(), key.as_str()) {
                let e = FieldEntry { key, value };
                proof {
                    lemma_entries_map_update(self.entries@, i as int, e);
                }
                let mut entries: Vec<FieldEntry> = Vec::new();
                std::mem::swap(&mut entries, &mut self.entries);
                entries.set(i, e);
                self.entries = entries;
                return;
            }
            i += 1;
        }
        let ghost before = self.entries@;
        let e = FieldEntry { key, value };
        proof {
            let after = before.push(e);
            assert(after.drop_last() == before);
            assert(distinct_keys(after)) by {
                assert forall|a: int, b: int| 0 <= a < b < after.len() implies after[a].key@ != after[b].key@ by {
                    if b < before.len() {
                        assert(after[a] == before[a]);
                        assert(after[b] == before[b]);
                    } else {
                        assert(after[a] == before[a]);
                    }
                }
            }
        }
        let mut entries: Vec<FieldEntry> = Vec::new();
        std::mem::swap(&mut entries, &mut self.entries);
        entries.push(e);
        self.entries = entries;
    }

    /// Inserts every entry of `other` in turn, so its values win
    /// (`HashMap::extend`).
    pub fn extend(&mut self, other: &FieldMap)
        ensures
            final(self)@ == old(self)@.union_prefer_right(other@),
    {
        proof {
            use_type_invariant(other);
        }
        let mut i: usize = 0;
        while i < other.entries.len()
            invariant
                i <= other.entries.len(),
                self@ == old(self)@.union_prefer_right(entries_map(other.entries@.take(i as int))),
            decreases other.entries.len() - i,
        {
            let e = other.entries[i].clone();
            proof {
                assert(other.entries@.take(i + 1).drop_last() == other.entries@.take(i as int));
                assert(other.entries@.take(i + 1).last() == other.entries@[i as int]);
            }
            self.insert(e.key, e.value);
            proof {
                assert(self@ =~= old(self)@.union_prefer_right(entries_map(other.entries@.take(i + 1))));
            }
            i += 1;
        }
        proof {
            assert(other.entries@.take(other.entries@.len() as int) == other.entries@);
        }
    }

    /// The entries, each key once.
    pub fn entries(&self) -> (r: &Vec<FieldEntry>)
        ensures
            entries_map(r@) == self@,
            distinct_keys(r@),
    {
        proof {
            use_type_invariant(self);
        }
        &self.entries
    }
}

proof fn lemma_entries_map_len(s: Seq<FieldEntry>)
    requires
        distinct_keys(s),
    ensures
        entries_map(s).dom().finite(),
        entries_map(s).dom().len() == s.len(),
    decreases s.len(),
{
    if s.len() > 0 {
        assert(distinct_keys(s.drop_last()));
        lemma_entries_map_len(s.drop_last());
        lemma_entries_map_dom(s.drop_last());
        assert(!entries_map(s.drop_last()).contains_key(s.last().key@)) by {
            if entries_map(s.drop_last()).contains_key(s.last().key@) {
                let i = choose|i: int| 0 <= i < s.drop_last().len() && s.drop_last()[i].key@ == s.last().key@;
                assert(s[i].key@ == s[s.len() - 1].key@);
            }
        }
    }
}

/// What a read gives back after a write: the written value for the
/// written key, and for any other key what it had before.
pub proof fn lemma_read_after_write(m: Map<Seq<char>, Seq<char>>, key: Seq<char>, value: Seq<char>, other: Seq<char>)
    ensures
        m.insert(key, value).contains_key(key),
        m.insert(key, value)[key] == value,
        other != key ==> (m.insert(key, value).contains_key(other) == m.contains_key(other)),
        other != key && m.contains_key(other) ==> m.insert(key, value)[other] == m[other],
{
}

impl Clone for FieldMap {
    fn clone(&self) -> (r: Self)
        ensures
            r@ == self@,
    {
        proof {
            use_type_invariant(self);
        }
        let entries = self.entries.clone();
        proof {
            assert(entries@ =~= self.entries@);
        }
        FieldMap { entries }
    }
}

} // verus!
