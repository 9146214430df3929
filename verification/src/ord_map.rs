//! A map from names to values that keeps its entries in the order of the
//! names, so that walking it never depends on how it was filled.

use vstd::prelude::*;
use crate::util::{
    lemma_lex_asymmetric, lemma_lex_irreflexive, lemma_lex_total, lemma_lex_transitive, lex_lt,
    Ident,
};

verus! {

/// A name and the value that stands under it.
#[derive(Clone, Eq, PartialEq, Debug)]
pub struct Entry<V> {
    pub key: Ident,
    pub value: V,
}

/// The names of the entries, in their order.
pub open spec fn keys_of<V>(entries: Seq<Entry<V>>) -> Seq<Seq<char>> {
    entries.map_values(|e: Entry<V>| e.key@)
}

/// Each name comes before all the names behind it.
pub open spec fn strictly_sorted(keys: Seq<Seq<char>>) -> bool {
    forall|i: int, j: int| 0 <= i < j < keys.len() ==> lex_lt(#[trigger] keys[i], #[trigger] keys[j])
}

/// Two sequences of names in order that hold the same names are the same
/// sequence.
pub proof fn lemma_sorted_same_keys(a: Seq<Seq<char>>, b: Seq<Seq<char>>)
    requires
        strictly_sorted(a),
        strictly_sorted(b),
        forall|k: Seq<char>| a.contains(k) <==> b.contains(k),
    ensures
        a == b,
    decreases a.len(),
{
    if a.len() == 0 {
        if b.len() > 0 {
            assert(b.contains(b[0]));
        }
        assert(a =~= b);
    } else {
        assert(a.contains(a[0]));
        if b.len() == 0 {
            assert(false);
        }
        assert(b.contains(b[0]));
        // the first names are the least names of the same set
        let i = choose|i: int| 0 <= i < b.len() && b[i] == a[0];
        let j = choose|j: int| 0 <= j < a.len() && a[j] == b[0];
        if i > 0 {
            assert(lex_lt(b[0], b[i]));
            if j > 0 {
                assert(lex_lt(a[0], a[j]));
                lemma_lex_asymmetric(b[0], b[i]);
            } else {
                lemma_lex_irreflexive(b[0]);
            }
        }
        assert(a[0] == b[0]);
        let a1 = a.drop_first();
        let b1 = b.drop_first();
        assert forall|k: Seq<char>| a1.contains(k) <==> b1.contains(k) by {
            if a1.contains(k) {
                let p = choose|p: int| 0 <= p < a1.len() && a1[p] == k;
                assert(a[p + 1] == k);
                assert(a.contains(k));
                assert(lex_lt(a[0], a[p + 1]));
                let q = choose|q: int| 0 <= q < b.len() && b[q] == k;
                if q == 0 {
                    lemma_lex_irreflexive(k);
                }
                assert(b1[q - 1] == k);
            }
            if b1.contains(k) {
                let p = choose|p: int| 0 <= p < b1.len() && b1[p] == k;
                assert(b[p + 1] == k);
                assert(b.contains(k));
                assert(lex_lt(b[0], b[p + 1]));
                let q = choose|q: int| 0 <= q < a.len() && a[q] == k;
                if q == 0 {
                    lemma_lex_irreflexive(k);
                }
                assert(a1[q - 1] == k);
            }
        }
        assert(strictly_sorted(a1)) by {
            assert forall|x: int, y: int| 0 <= x < y < a1.len() implies lex_lt(
                #[trigger] a1[x],
                #[trigger] a1[y],
            ) by {
                assert(lex_lt(a[x + 1], a[y + 1]));
            }
        }
        assert(strictly_sorted(b1)) by {
            assert forall|x: int, y: int| 0 <= x < y < b1.len() implies lex_lt(
                #[trigger] b1[x],
                #[trigger] b1[y],
            ) by {
                assert(lex_lt(b[x + 1], b[y + 1]));
            }
        }
        lemma_sorted_same_keys(a1, b1);
        assert(a =~= seq![a[0]] + a1);
        assert(b =~= seq![b[0]] + b1);
    }
}

/// A map from names to values, held in the order of the names.
#[derive(Eq, PartialEq, Debug)]
pub struct OrdMap<V> {
    entries: Vec<Entry<V>>,
}

impl<V> View for OrdMap<V> {
    type V = Seq<Entry<V>>;

    closed spec fn view(&self) -> Seq<Entry<V>> {
        self.entries@
    }
}

impl<V: Clone> Clone for OrdMap<V> {
    fn clone(&self) -> (r: Self)
        ensures
            r.keys() == self.keys(),
    {
        proof {
            use_type_invariant(self);
        }
        let mut entries: Vec<Entry<V>> = Vec::new();
        let mut i: usize = 0;
        while i < self.entries.len()
            invariant
                i <= self.entries.len(),
                entries@.len() == i,
                forall|j: int| 0 <= j < i ==> entries@[j].key@ == self.entries@[j].key@,
            decreases self.entries.len() - i,
        {
            let e = &self.entries[i];
            entries.push(Entry { key: e.key.clone(), value: e.value.clone() });
            i += 1;
        }
        assert(keys_of(entries@) =~= keys_of(self.entries@));
        OrdMap { entries }
    }
}

impl<V> OrdMap<V> {
    /// The entries stand in the strict order of their names.
    #[verifier::type_invariant]
    pub open spec fn wf(&self) -> bool {
        strictly_sorted(keys_of(self@))
    }

    /// The names of the map, in their order.
    pub open spec fn keys(&self) -> Seq<Seq<char>> {
        keys_of(self@)
    }

    /// Whether the map holds a value under `key`.
    pub open spec fn has(&self, key: Seq<char>) -> bool {
        self.keys().contains(key)
    }

    /// The position of `key` among the names.
    pub open spec fn position(&self, key: Seq<char>) -> int {
        choose|i: int| 0 <= i < self@.len() && self@[i].key@ == key
    }

    /// The value under `key`.
    pub open spec fn value(&self, key: Seq<char>) -> V {
        self@[self.position(key)].value
    }

    /// The map as a mathematical map.
    pub open spec fn spec_map(&self) -> Map<Seq<char>, V> {
        Map::new(|key: Seq<char>| self.has(key), |key: Seq<char>| self.value(key))
    }

    /// No name stands at two positions.
    pub proof fn lemma_keys_distinct(&self, a: int, b: int)
        requires
            self.wf(),
            0 <= a < self@.len(),
            0 <= b < self@.len(),
            self@[a].key@ == self@[b].key@,
        ensures
            a == b,
    {
        if a != b {
            let lo = if a < b {
                a
            } else {
                b
            };
            let hi = if a < b {
                b
            } else {
                a
            };
            assert(lex_lt(self.keys()[lo], self.keys()[hi]));
            lemma_lex_irreflexive(self@[a].key@);
        }
    }

    /// The entry at a position stands in the map under its name.
    pub proof fn lemma_entry(&self, i: int)
        requires
            self.wf(),
            0 <= i < self@.len(),
        ensures
            self.has(self@[i].key@),
            self.position(self@[i].key@) == i,
            self.value(self@[i].key@) == self@[i].value,
            self.spec_map().dom().contains(self@[i].key@),
            self.spec_map()[self@[i].key@] == self@[i].value,
    {
        assert(self.keys()[i] == self@[i].key@);
        self.lemma_keys_distinct(i, self.position(self@[i].key@));
    }

    /// A name of the map stands at a position.
    pub proof fn lemma_has(&self, key: Seq<char>)
        requires
            self.has(key),
        ensures
            0 <= self.position(key) < self@.len(),
            self@[self.position(key)].key@ == key,
    {
        let j = choose|j: int| 0 <= j < self.keys().len() && self.keys()[j] == key;
        assert(self@[j].key@ == key);
    }

    /// The map without entries.
    pub fn new() -> (r: Self)
        ensures
            r@.len() == 0,
            r.wf(),
            r.spec_map() == Map::<Seq<char>, V>::empty(),
    {
        let r = OrdMap { entries: Vec::new() };
        assert(r.spec_map() =~= Map::<Seq<char>, V>::empty()) by {
            assert forall|k: Seq<char>| !r.has(k) by {
                if r.has(k) {
                    r.lemma_has(k);
                }
            }
        }
        return r;
    }


    /// The number of entries.
    pub fn len(&self) -> (n: usize)
        ensures
            n == self@.len(),
    {
        self.entries.len()
    }

    /// The entry at position `i` in the order of the names.
    pub fn entry(&self, i: usize) -> (e: &Entry<V>)
        requires
            i < self@.len(),
        ensures
            *e == self@[i as int],
    {
        &self.entries[i]
    }

    /// Finds the position of `key`.
    pub fn find(&self, key: &Ident) -> (r: Option<usize>)
        ensures
            self.wf(),
            match r {
                Some(i) => i < self@.len() && self@[i as int].key@ == key@ && self.has(key@)
                    && self.position(key@) == i,
                None => !self.has(key@),
            },
    {
        proof {
            use_type_invariant(self);
        }
        let mut i: usize = 0;
        while i < self.entries.len()
            invariant
                i <= self.entries.len(),
                self.wf(),
                forall|j: int| 0 <= j < i ==> self@[j].key@ != key@,
            decreases self.entries.len() - i,
        {
            if self.entries[i].key.same(key) {
                proof {
                    assert(self.keys()[i as int] == key@);
                    let p = self.position(key@);
                    if p != i {
                        let lo = if p < i {
                            p
                        } else {
                            i as int
                        };
                        let hi = if p < i {
                            i as int
                        } else {
                            p
                        };
                        assert(lex_lt(self.keys()[lo], self.keys()[hi]));
                        lemma_lex_irreflexive(key@);
                    }
                }
                return Some(i);
            }
            i += 1;
        }
        proof {
            if self.has(key@) {
                let j = choose|j: int| 0 <= j < self.keys().len() && self.keys()[j] == key@;
                assert(self@[j].key@ == key@);
            }
        }
        None
    }

    /// The value under `key`, if there is one.
    pub fn get(&self, key: &Ident) -> (r: Option<&V>)
        ensures
            match r {
                Some(v) => self.has(key@) && *v == self.value(key@),
                None => !self.has(key@),
            },
            self.wf(),
    {
        match self.find(key) {
            Some(i) => Some(&self.entries[i].value),
            None => None,
        }
    }

    /// Whether the map holds a value under `key`.
    pub fn contains_key(&self, key: &Ident) -> (r: bool)
        ensures
            r == self.has(key@),
    {
        self.find(key).is_some()
    }

    /// Puts `value` under `key`, in the place that the order of the names
    /// gives it, and hands back the value that stood there before.
    pub fn insert(&mut self, key: Ident, value: V) -> (r: Option<V>)
        ensures
            final(self).wf(),
            match r {
                Some(v) => old(self).has(key@) && v == old(self).value(key@) && final(self)@
                    == old(self)@.update(old(self).position(key@), Entry { key, value }),
                None => !old(self).has(key@) && exists|i: int|
                    0 <= i <= old(self)@.len() && final(self)@ == old(self)@.insert(
                        i,
                        Entry { key, value },
                    ),
            },
            forall|k: Seq<char>| final(self).has(k) <==> (old(self).has(k) || k == key@),
            final(self).spec_map() == old(self).spec_map().insert(key@, value),
    {
        proof {
            use_type_invariant(&*self);
        }
        let ghost before = self@;
        let mut entries: Vec<Entry<V>> = Vec::new();
        core::mem::swap(&mut entries, &mut self.entries);
        let mut i: usize = 0;
        while i < entries.len() && entries[i].key.less(&key)
            invariant
                i <= entries.len(),
                entries@ == before,
                strictly_sorted(keys_of(before)),
                forall|j: int| 0 <= j < i ==> lex_lt(#[trigger] keys_of(before)[j], key@),
            decreases entries.len() - i,
        {
            assert(keys_of(before)[i as int] == before[i as int].key@);
            i += 1;
        }
        let found = i < entries.len() && entries[i].key.same(&key);
        let ghost keys = keys_of(before);
        proof {
            // the names from position i on do not come before `key`
            assert forall|j: int| i <= j < before.len() implies !lex_lt(#[trigger] keys[j], key@) by {
                assert(keys[i as int] == before[i as int].key@);
                if j > i && lex_lt(keys[j], key@) {
                    assert(lex_lt(keys[i as int], keys[j]));
                    lemma_lex_transitive(keys[i as int], keys[j], key@);
                }
            }
        }
        if found {
            let mut fresh = Entry { key, value };
            core::mem::swap(&mut fresh, &mut entries[i]);
            proof {
                assert(keys[i as int] == before[i as int].key@);
                assert(keys.contains(key@));
                assert(keys_of(entries@) =~= keys);
                let p = old(self).position(key@);
                if p != i {
                    let lo = if p < i {
                        p
                    } else {
                        i as int
                    };
                    let hi = if p < i {
                        i as int
                    } else {
                        p
                    };
                    assert(keys[p] == before[p].key@);
                    assert(lex_lt(keys[lo], keys[hi]));
                    lemma_lex_irreflexive(key@);
                }
            }
            *self = OrdMap { entries };
            proof {
                let fin = *self;
                let old_map = old(self).spec_map();
                assert(fin@ =~= before.update(i as int, Entry { key, value }));
                assert(fin.keys() =~= keys);
                assert forall|k: Seq<char>| fin.has(k) implies #[trigger] fin.spec_map()[k]
                    == old_map.insert(key@, value)[k] by {
                    fin.lemma_has(k);
                    let p = fin.position(k);
                    assert(before[p].key@ == k);
                    old(self).lemma_entry(p);
                    fin.lemma_entry(p);
                    if k == key@ {
                        old(self).lemma_keys_distinct(p, i as int);
                    }
                }
                assert(fin.spec_map() =~= old_map.insert(key@, value));
            }
            Some(fresh.value)
        } else {
            entries.insert(i, Entry { key, value });
            proof {
                let after = keys_of(entries@);
                assert(after =~= keys.insert(i as int, key@));
                assert forall|j: int| i <= j < before.len() implies lex_lt(key@, #[trigger] keys[j]) by {
                    lemma_lex_total(key@, keys[j]);
                    if j == i {
                        assert(keys[i as int] == before[i as int].key@);
                    } else {
                        if key@ == keys[j] {
                            assert(lex_lt(keys[i as int], keys[j]));
                        }
                    }
                }
                assert(!keys.contains(key@)) by {
                    if keys.contains(key@) {
                        let j = choose|j: int| 0 <= j < keys.len() && keys[j] == key@;
                        lemma_lex_irreflexive(key@);
                    }
                }
                assert forall|x: int, y: int| 0 <= x < y < after.len() implies lex_lt(
                    #[trigger] after[x],
                    #[trigger] after[y],
                ) by {
                    if y < i {
                        assert(lex_lt(keys[x], keys[y]));
                    } else if y == i {
                        assert(lex_lt(keys[x], key@));
                    } else if x == i {
                        assert(lex_lt(key@, keys[y - 1]));
                    } else if x < i {
                        assert(lex_lt(keys[x], key@));
                        assert(lex_lt(key@, keys[y - 1]));
                        lemma_lex_transitive(keys[x], key@, keys[y - 1]);
                    } else {
                        assert(lex_lt(keys[x - 1], keys[y - 1]));
                    }
                }
                assert forall|k: Seq<char>| after.contains(k) <==> (keys.contains(k) || k
                    == key@) by {
                    if after.contains(k) {
                        let j = choose|j: int| 0 <= j < after.len() && after[j] == k;
                        if j < i {
                            assert(keys[j] == k);
                        } else if j > i {
                            assert(keys[j - 1] == k);
                        }
                    }
                    if keys.contains(k) {
                        let j = choose|j: int| 0 <= j < keys.len() && keys[j] == k;
                        if j < i {
                            assert(after[j] == k);
                        } else {
                            assert(after[j + 1] == k);
                        }
                    }
                    if k == key@ {
                        assert(after[i as int] == k);
                    }
                }
            }
            *self = OrdMap { entries };
            proof {
                let fin = *self;
                let old_map = old(self).spec_map();
                assert(fin@ =~= before.insert(i as int, Entry { key, value }));
                assert forall|k: Seq<char>| fin.has(k) implies #[trigger] fin.spec_map()[k]
                    == old_map.insert(key@, value)[k] by {
                    fin.lemma_has(k);
                    let p = fin.position(k);
                    fin.lemma_entry(p);
                    if p < i {
                        assert(before[p].key@ == k);
                        old(self).lemma_entry(p);
                    } else if p > i {
                        assert(before[p - 1].key@ == k);
                        old(self).lemma_entry(p - 1);
                    }
                }
                assert(fin.spec_map() =~= old_map.insert(key@, value));
            }
            None
        }
    }
}

} // verus!
