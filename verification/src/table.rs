//! A table keyed by module name.
//!
//! Import records map a module name to the sequence of places where the
//! module is imported. The table is an association list: insertion order
//! of keys is kept, keys are unique, and the mathematical image is a map
//! from the key's bytes to the concatenated value sequence.

use vstd::prelude::*;

verus! {

broadcast use crate::bytes_util::lemma_bytes_deep_view;

/// Folds an entry sequence into the map it denotes; a later entry for the
/// same key would win, but well-formed tables have unique keys.
pub open spec fn pairs_to_map<T>(ps: Seq<(Seq<u8>, T)>) -> Map<Seq<u8>, T>
    decreases ps,
{
    if ps.len() == 0 {
        Map::empty()
    } else {
        pairs_to_map(ps.drop_last()).insert(ps.last().0, ps.last().1)
    }
}

/// A sequence-of-values table keyed by byte strings, with unique keys and
/// stable key order.
pub struct ModuleTable<V> {
    entries: Vec<(Vec<u8>, Vec<V>)>,
}

impl<V: DeepView> ModuleTable<V> {
    /// The entry list as (key, values) images, in insertion order.
    pub closed spec fn pairs(&self) -> Seq<(Seq<u8>, Seq<V::V>)> {
        self.entries.deep_view()
    }

    /// Keys are pairwise distinct.
    pub open spec fn wf(&self) -> bool {
        forall|i: int, j: int|
            0 <= i < j < self.pairs().len() ==> self.pairs()[i].0 != self.pairs()[j].0
    }

    /// Whether some entry has this key.
    pub open spec fn spec_contains_key(&self, key: Seq<u8>) -> bool {
        exists|i: int| 0 <= i < self.pairs().len() && self.pairs()[i].0 == key
    }

    pub fn new() -> (r: Self)
        ensures
            r@ == Map::<Seq<u8>, Seq<V::V>>::empty(),
            r.pairs() == Seq::<(Seq<u8>, Seq<V::V>)>::empty(),
            r.wf(),
    {
        ModuleTable { entries: Vec::new() }
    }

    pub fn len(&self) -> (n: usize)
        ensures
            n == self.pairs().len(),
    {
        self.entries.len()
    }

    pub fn key_at(&self, i: usize) -> (k: &Vec<u8>)
        requires
            i < self.pairs().len(),
        ensures
            k@ == self.pairs()[i as int].0,
    {
        &self.entries[i].0
    }

    pub fn values_at(&self, i: usize) -> (vs: &Vec<V>)
        requires
            i < self.pairs().len(),
        ensures
            vs.deep_view() == self.pairs()[i as int].1,
    {
        &self.entries[i].1
    }

    /// Index of the entry with this key, if any.
    fn find(&self, key: &Vec<u8>) -> (r: Option<usize>)
        ensures
            match r {
                Some(i) => i < self.pairs().len() && self.pairs()[i as int].0 == key@,
                None => !self.spec_contains_key(key@),
            },
    {
        let mut i: usize = 0;
        while i < self.entries.len()
            invariant
                i <= self.pairs().len(),
                forall|j: int| 0 <= j < i ==> self.pairs()[j].0 != key@,
            decreases self.pairs().len() - i,
        {
            if crate::bytes_util::bytes_eq(&self.entries[i].0, key) {
                return Some(i);
            }
            i = i + 1;
        }
        None
    }

    /// Appends one value under `key`, creating the entry if the key is new.
    pub fn push_value(&mut self, key: Vec<u8>, val: V)
        requires
            old(self).wf(),
        ensures
            final(self).wf(),
            final(self)@ == old(self)@.insert(
                key@,
                (if old(self)@.dom().contains(key@) {
                    old(self)@[key@]
                } else {
                    Seq::<V::V>::empty()
                }).push(val.deep_view()),
            ),
    {
        match self.find(&key) {
            Some(i) => {
                let ghost ps0 = self.pairs();
                let e = &mut self.entries[i];
                e.1.push(val);
                proof {
                    assert(self.pairs() =~~= ps0.update(
                        i as int,
                        (ps0[i as int].0, ps0[i as int].1.push(val.deep_view())),
                    ));
                    lemma_pairs_to_map_update(ps0, i as int, val.deep_view());
                    lemma_pairs_to_map_get(ps0, i as int);
                    assert forall|x: int, y: int|
                        0 <= x < y < self.pairs().len() implies self.pairs()[x].0
                        != self.pairs()[y].0 by {
                        assert(self.pairs()[x].0 == ps0[x].0);
                        assert(self.pairs()[y].0 == ps0[y].0);
                    }
                }
            },
            None => {
                let ghost ps0 = self.pairs();
                let mut vals: Vec<V> = Vec::new();
                vals.push(val);
                self.entries.push((key, vals));
                proof {
                    assert(self.pairs().drop_last() =~~= ps0);
                    assert(self.pairs().last().1 =~= Seq::<V::V>::empty().push(val.deep_view()));
                    lemma_pairs_to_map_absent(ps0, self.pairs().last().0);
                    assert forall|x: int, y: int|
                        0 <= x < y < self.pairs().len() implies self.pairs()[x].0
                        != self.pairs()[y].0 by {
                        if y < self.pairs().len() - 1 {
                            assert(self.pairs()[x].0 == ps0[x].0);
                            assert(self.pairs()[y].0 == ps0[y].0);
                        } else {
                            assert(self.pairs()[x].0 == ps0[x].0);
                            assert(self.pairs()[y].0 == key@);
                        }
                    }
                }
            },
        }
    }

    /// Appends a whole value sequence under `key`, creating the entry if
    /// the key is new.
    pub fn append_values(&mut self, key: Vec<u8>, mut vals: Vec<V>)
        requires
            old(self).wf(),
        ensures
            final(self).wf(),
            final(self)@ == old(self)@.insert(
                key@,
                (if old(self)@.dom().contains(key@) {
                    old(self)@[key@]
                } else {
                    Seq::<V::V>::empty()
                }) + vals.deep_view(),
            ),
    {
        match self.find(&key) {
            Some(i) => {
                let ghost ps0 = self.pairs();
                let ghost added = vals.deep_view();
                let e = &mut self.entries[i];
                e.1.append(&mut vals);
                proof {
                    assert(self.pairs() =~~= ps0.update(
                        i as int,
                        (ps0[i as int].0, ps0[i as int].1 + added),
                    ));
                    lemma_pairs_to_map_update_concat(ps0, i as int, added);
                    lemma_pairs_to_map_get(ps0, i as int);
                    assert forall|x: int, y: int|
                        0 <= x < y < self.pairs().len() implies self.pairs()[x].0
                        != self.pairs()[y].0 by {
                        assert(self.pairs()[x].0 == ps0[x].0);
                        assert(self.pairs()[y].0 == ps0[y].0);
                    }
                }
            },
            None => {
                let ghost ps0 = self.pairs();
                let ghost added = vals.deep_view();
                self.entries.push((key, vals));
                proof {
                    assert(self.pairs().drop_last() =~~= ps0);
                    assert(self.pairs().last().1 =~= Seq::<V::V>::empty() + added);
                    lemma_pairs_to_map_absent(ps0, self.pairs().last().0);
                    assert forall|x: int, y: int|
                        0 <= x < y < self.pairs().len() implies self.pairs()[x].0
                        != self.pairs()[y].0 by {
                        if y < self.pairs().len() - 1 {
                            assert(self.pairs()[x].0 == ps0[x].0);
                            assert(self.pairs()[y].0 == ps0[y].0);
                        } else {
                            assert(self.pairs()[x].0 == ps0[x].0);
                            assert(self.pairs()[y].0 == key@);
                        }
                    }
                }
            },
        }
    }

    /// Hands the entries out, in insertion order.
    pub fn into_entries(self) -> (r: Vec<(Vec<u8>, Vec<V>)>)
        ensures
            r.deep_view() == self.pairs(),
    {
        let ModuleTable { entries } = self;
        entries
    }

    /// The values under `key`, if the key is present.
    pub fn get(&self, key: &Vec<u8>) -> (r: Option<&Vec<V>>)
        requires
            self.wf(),
        ensures
            match r {
                Some(vs) => self@.dom().contains(key@) && vs.deep_view() == self@[key@],
                None => !self@.dom().contains(key@),
            },
    {
        proof {
            lemma_pairs_to_map_dom(self.pairs());
        }
        match self.find(key) {
            Some(i) => {
                proof {
                    lemma_pairs_to_map_get(self.pairs(), i as int);
                }
                Some(&self.entries[i].1)
            },
            None => None,
        }
    }
}

impl<V: DeepView> View for ModuleTable<V> {
    type V = Map<Seq<u8>, Seq<V::V>>;

    open spec fn view(&self) -> Map<Seq<u8>, Seq<V::V>> {
        pairs_to_map(self.pairs())
    }
}

/// The domain of the denoted map is exactly the set of keys.
pub proof fn lemma_pairs_to_map_dom<T>(ps: Seq<(Seq<u8>, T)>)
    ensures
        forall|key: Seq<u8>|
            pairs_to_map(ps).dom().contains(key) <==> exists|i: int|
                0 <= i < ps.len() && ps[i].0 == key,
    decreases ps,
{
    if ps.len() > 0 {
        lemma_pairs_to_map_dom(ps.drop_last());
        assert(pairs_to_map(ps) == pairs_to_map(ps.drop_last()).insert(ps.last().0, ps.last().1));
        assert forall|key: Seq<u8>| pairs_to_map(ps).dom().contains(key) implies exists|i: int|
            0 <= i < ps.len() && ps[i].0 == key by {
            if key == ps.last().0 {
                assert(ps[ps.len() - 1].0 == key);
            } else {
                assert(pairs_to_map(ps.drop_last()).dom().contains(key));
                let i = choose|i: int| 0 <= i < ps.drop_last().len() && ps.drop_last()[i].0 == key;
                assert(ps.drop_last()[i] == ps[i]);
                assert(ps[i].0 == key);
            }
        }
        assert forall|key: Seq<u8>|
            (exists|i: int| 0 <= i < ps.len() && ps[i].0 == key) implies pairs_to_map(
            ps,
        ).dom().contains(key) by {
            let i = choose|i: int| 0 <= i < ps.len() && ps[i].0 == key;
            if i < ps.len() - 1 {
                assert(ps.drop_last()[i].0 == key);
                assert(pairs_to_map(ps.drop_last()).dom().contains(key));
            }
        }
    }
}

/// With unique keys, the entry at `k` gives the map's value at its key.
pub proof fn lemma_pairs_to_map_get<T>(ps: Seq<(Seq<u8>, T)>, k: int)
    requires
        0 <= k < ps.len(),
        forall|i: int, j: int| 0 <= i < j < ps.len() ==> ps[i].0 != ps[j].0,
    ensures
        pairs_to_map(ps).dom().contains(ps[k].0),
        pairs_to_map(ps)[ps[k].0] == ps[k].1,
    decreases ps,
{
    if k == ps.len() - 1 {
    } else {
        lemma_pairs_to_map_get(ps.drop_last(), k);
        assert(ps.last().0 != ps[k].0);
    }
}

/// A key held by no entry is outside the denoted map's domain.
pub proof fn lemma_pairs_to_map_absent<T>(ps: Seq<(Seq<u8>, T)>, key: Seq<u8>)
    requires
        forall|i: int| 0 <= i < ps.len() ==> ps[i].0 != key,
    ensures
        !pairs_to_map(ps).dom().contains(key),
    decreases ps,
{
    if ps.len() > 0 {
        lemma_pairs_to_map_absent(ps.drop_last(), key);
    }
}

/// Replacing the value part of entry `k` updates the denoted map at that
/// entry's key alone.
proof fn lemma_pairs_to_map_update_entry<T>(ps: Seq<(Seq<u8>, T)>, k: int, v: T)
    requires
        0 <= k < ps.len(),
        forall|i: int, j: int| 0 <= i < j < ps.len() ==> ps[i].0 != ps[j].0,
    ensures
        pairs_to_map(ps.update(k, (ps[k].0, v))) == pairs_to_map(ps).insert(ps[k].0, v),
    decreases ps,
{
    let ps2 = ps.update(k, (ps[k].0, v));
    if k == ps.len() - 1 {
        assert(ps2.drop_last() =~= ps.drop_last());
        assert(pairs_to_map(ps2) =~= pairs_to_map(ps).insert(ps[k].0, v));
    } else {
        lemma_pairs_to_map_update_entry(ps.drop_last(), k, v);
        assert(ps2.drop_last() =~= ps.drop_last().update(k, (ps[k].0, v)));
        assert(ps2.last() == ps.last());
        assert(ps.last().0 != ps[k].0);
        assert(pairs_to_map(ps2) =~= pairs_to_map(ps).insert(ps[k].0, v));
    }
}

/// Pushing one value onto entry `k` updates the denoted map at that key.
proof fn lemma_pairs_to_map_update<T>(ps: Seq<(Seq<u8>, Seq<T>)>, k: int, v: T)
    requires
        0 <= k < ps.len(),
        forall|i: int, j: int| 0 <= i < j < ps.len() ==> ps[i].0 != ps[j].0,
    ensures
        pairs_to_map(ps.update(k, (ps[k].0, ps[k].1.push(v)))) == pairs_to_map(ps).insert(
            ps[k].0,
            ps[k].1.push(v),
        ),
{
    lemma_pairs_to_map_update_entry(ps, k, ps[k].1.push(v));
}

/// Concatenating onto entry `k` updates the denoted map at that key.
proof fn lemma_pairs_to_map_update_concat<T>(ps: Seq<(Seq<u8>, Seq<T>)>, k: int, vs: Seq<T>)
    requires
        0 <= k < ps.len(),
        forall|i: int, j: int| 0 <= i < j < ps.len() ==> ps[i].0 != ps[j].0,
    ensures
        pairs_to_map(ps.update(k, (ps[k].0, ps[k].1 + vs))) == pairs_to_map(ps).insert(
            ps[k].0,
            ps[k].1 + vs,
        ),
{
    lemma_pairs_to_map_update_entry(ps, k, ps[k].1 + vs);
}

} // verus!
