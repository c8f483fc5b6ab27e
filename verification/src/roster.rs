use vstd::prelude::*;
use crate::keyed::{
    keys_unique, pairs_to_map, lemma_pairs_to_map_unique, lemma_pairs_to_map_len, lemma_push_fresh,
    lemma_update_value, lemma_remove_at,
};

verus! {

/// Values keyed by name, kept in the order their names were first inserted.
pub struct Roster<V> {
    entries: Vec<(String, V)>,
}

/// The entries of a roster with each name taken by its view.
pub open spec fn named_pairs<V>(s: Seq<(String, V)>) -> Seq<(Seq<char>, V)> {
    s.map_values(|p: (String, V)| (p.0@, p.1))
}

impl<V> View for Roster<V> {
    type V = Map<Seq<char>, V>;

    closed spec fn view(&self) -> Map<Seq<char>, V> {
        pairs_to_map(named_pairs(self.entries@))
    }
}

impl<V> Roster<V> {
    /// Well-formedness: no name occurs twice.
    pub closed spec fn wf(&self) -> bool {
        keys_unique(named_pairs(self.entries@))
    }

    /// The names, in the order they were first inserted.
    pub closed spec fn keys(&self) -> Seq<Seq<char>> {
        self.entries@.map_values(|p: (String, V)| p.0@)
    }

    /// Each name with its value, in `keys()` order.
    pub open spec fn pairs(&self) -> Seq<(Seq<char>, V)> {
        Seq::new(self.keys().len(), |i: int| (self.keys()[i], self@[self.keys()[i]]))
    }

    proof fn lemma_entries(&self)
        requires
            self.wf(),
        ensures
            named_pairs(self.entries@) == self.pairs(),
            self.keys().len() == self.entries@.len(),
    {
        let p = named_pairs(self.entries@);
        lemma_pairs_to_map_unique(p);
        assert forall|i: int| 0 <= i < p.len() implies #[trigger] p[i] == self.pairs()[i] by {
            assert(p[i].0 == self.keys()[i]);
        }
        assert(p =~= self.pairs());
    }

    /// `keys()` lists each name of the map exactly once, and `pairs()` read as
    /// a map is the roster itself.
    pub proof fn lemma_keys(&self)
        requires
            self.wf(),
        ensures
            forall|i: int, j: int|
                0 <= i < self.keys().len() && 0 <= j < self.keys().len() && i != j
                    ==> #[trigger] self.keys()[i] != #[trigger] self.keys()[j],
            forall|k: Seq<char>|
                #[trigger] self@.contains_key(k) <==> exists|i: int|
                    0 <= i < self.keys().len() && #[trigger] self.keys()[i] == k,
            self.keys().len() == self@.len(),
            keys_unique(self.pairs()),
            pairs_to_map(self.pairs()) == self@,
    {
        let p = named_pairs(self.entries@);
        self.lemma_entries();
        lemma_pairs_to_map_unique(p);
        lemma_pairs_to_map_len(p);
        assert forall|i: int, j: int|
            0 <= i < self.keys().len() && 0 <= j < self.keys().len() && i != j
                implies #[trigger] self.keys()[i] != #[trigger] self.keys()[j] by {
            assert(p[i].0 != p[j].0);
        }
        assert forall|k: Seq<char>| #[trigger] self@.contains_key(k) <==> exists|i: int|
            0 <= i < self.keys().len() && #[trigger] self.keys()[i] == k by {
            if self@.contains_key(k) {
                let i = choose|i: int| 0 <= i < p.len() && #[trigger] p[i].0 == k;
                assert(self.keys()[i] == k);
            }
            if exists|i: int| 0 <= i < self.keys().len() && #[trigger] self.keys()[i] == k {
                let i = choose|i: int| 0 <= i < self.keys().len() && #[trigger] self.keys()[i] == k;
                assert(p[i].0 == k);
            }
        }
    }

    /// An empty roster.
    pub fn new() -> (r: Roster<V>)
        ensures
            r.wf(),
            r@ == Map::<Seq<char>, V>::empty(),
            r.keys() == Seq::<Seq<char>>::empty(),
    {
        let r = Roster { entries: Vec::new() };
        assert(named_pairs(r.entries@) =~= Seq::empty());
        assert(r.keys() =~= Seq::empty());
        r
    }

    /// Forgets every entry.
    pub fn clear(&mut self)
        ensures
            final(self).wf(),
            final(self)@ == Map::<Seq<char>, V>::empty(),
            final(self).keys() == Seq::<Seq<char>>::empty(),
    {
        self.entries.clear();
        assert(named_pairs(self.entries@) =~= Seq::empty());
        assert(self.keys() =~= Seq::empty());
    }

    /// Number of entries.
    pub fn len(&self) -> (n: usize)
        requires
            self.wf(),
        ensures
            n == self@.len(),
            n == self.keys().len(),
    {
        proof {
            lemma_pairs_to_map_len(named_pairs(self.entries@));
        }
        self.entries.len()
    }

    /// Position of `key` in `keys()`, if present.
    pub fn find(&self, key: &String) -> (r: Option<usize>)
        requires
            self.wf(),
        ensures
            match r {
                Some(i) => i < self.keys().len() && self.keys()[i as int] == key@ && self@.contains_key(
                    key@,
                ),
                None => !self@.contains_key(key@),
            },
    {
        let ghost p = named_pairs(self.entries@);
        proof {
            lemma_pairs_to_map_unique(p);
        }
        let mut i: usize = 0;
        while i < self.entries.len()
            invariant
                i <= self.entries@.len(),
                p == named_pairs(self.entries@),
                self.wf(),
                forall|a: int| 0 <= a < i ==> #[trigger] self.entries@[a].0@ != key@,
            decreases self.entries@.len() - i,
        {
            if self.entries[i].0 == *key {
                proof {
                    lemma_pairs_to_map_unique(p);
                }
                assert(p[i as int].0 == key@);
                assert(self.keys()[i as int] == key@);
                assert(pairs_to_map(p).contains_key(key@));
                return Some(i);
            }
            i = i + 1;
        }
        proof {
            assert forall|a: int| 0 <= a < p.len() implies #[trigger] p[a].0 != key@ by {
                assert(self.entries@[a].0@ != key@);
            }
        }
        None
    }

    /// The name at position `i` of `keys()`.
    pub fn key_at(&self, i: usize) -> (k: &String)
        requires
            i < self.keys().len(),
        ensures
            k@ == self.keys()[i as int],
    {
        &self.entries[i].0
    }

    /// The value of the name at position `i` of `keys()`.
    pub fn value_at(&self, i: usize) -> (v: &V)
        requires
            self.wf(),
            i < self.keys().len(),
        ensures
            self@.contains_key(self.keys()[i as int]),
            *v == self@[self.keys()[i as int]],
    {
        proof {
            lemma_pairs_to_map_unique(named_pairs(self.entries@));
            assert(named_pairs(self.entries@)[i as int].0 == self.keys()[i as int]);
        }
        &self.entries[i].1
    }

    /// Replaces the value of the name at position `i` of `keys()` by `v`.
    pub fn set_value_at(&mut self, i: usize, v: V)
        requires
            old(self).wf(),
            i < old(self).keys().len(),
        ensures
            final(self).wf(),
            final(self)@ == old(self)@.insert(old(self).keys()[i as int], v),
            final(self).keys() == old(self).keys(),
    {
        let ghost s = self.entries@;
        proof {
            lemma_update_value(named_pairs(s), i as int, v);
        }
        let k = self.entries[i].0.clone();
        self.entries.set(i, (k, v));
        assert(named_pairs(self.entries@) =~= named_pairs(s).update(i as int, (named_pairs(s)[i as int].0, v)));
        assert(self.keys() =~= old(self).keys());
    }

    /// The value stored under `key`, if any.
    pub fn get(&self, key: &String) -> (r: Option<&V>)
        requires
            self.wf(),
        ensures
            match r {
                Some(v) => self@.contains_key(key@) && *v == self@[key@],
                None => !self@.contains_key(key@),
            },
    {
        match self.find(key) {
            Some(i) => Some(self.value_at(i)),
            None => None,
        }
    }

    /// Stores `v` under `key`. A new name goes last in `keys()`; a present one
    /// keeps its place.
    pub fn insert(&mut self, key: String, v: V)
        requires
            old(self).wf(),
        ensures
            final(self).wf(),
            final(self)@ == old(self)@.insert(key@, v),
            final(self).keys() == if old(self)@.contains_key(key@) {
                old(self).keys()
            } else {
                old(self).keys().push(key@)
            },
    {
        match self.find(&key) {
            Some(i) => {
                self.set_value_at(i, v);
            },
            None => {
                let ghost s = self.entries@;
                let ghost k = key@;
                proof {
                    lemma_push_fresh(named_pairs(s), k, v);
                }
                self.entries.push((key, v));
                assert(named_pairs(self.entries@) =~= named_pairs(s).push((k, v)));
                assert(self.keys() =~= old(self).keys().push(k));
            },
        }
    }

    /// Removes `key`, if present; the other names keep their order.
    pub fn remove(&mut self, key: &String)
        requires
            old(self).wf(),
        ensures
            final(self).wf(),
            final(self)@ == old(self)@.remove(key@),
            old(self)@.contains_key(key@) ==> exists|i: int|
                0 <= i < old(self).keys().len() && old(self).keys()[i] == key@ && final(self).keys()
                    == old(self).keys().remove(i),
            !old(self)@.contains_key(key@) ==> final(self).keys() == old(self).keys(),
    {
        let ghost s = self.entries@;
        match self.find(key) {
            Some(i) => {
                proof {
                    lemma_remove_at(named_pairs(s), i as int);
                }
                let _gone = self.entries.remove(i);
                assert(named_pairs(self.entries@) =~= named_pairs(s).remove(i as int));
                assert(self.keys() =~= old(self).keys().remove(i as int));
            },
            None => {
                assert(self@ =~= old(self)@.remove(key@));
            },
        }
    }
}

} // verus!
