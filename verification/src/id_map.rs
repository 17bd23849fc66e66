//! A small map from project ids to per-project bookkeeping, kept as a list
//! of entries whose ids never repeat.

use crate::text::{str_eq, to_owned_string};
use vstd::prelude::*;

verus! {

/// Per-id values, stored as `(id, value)` entries with distinct ids.
pub struct IdMap<V> {
    entries: Vec<(String, V)>,
}

impl<V> IdMap<V> {
    /// No id occurs in two entries.
    #[verifier::type_invariant]
    pub closed spec fn wf(&self) -> bool {
        forall|i: int, j: int|
            0 <= i < j < self.entries@.len() ==> #[trigger] self.entries@[i].0@
                != #[trigger] self.entries@[j].0@
    }

    /// The ids, in storage order.
    pub closed spec fn ids(&self) -> Seq<Seq<char>> {
        Seq::new(self.entries@.len(), |i: int| self.entries@[i].0@)
    }

    proof fn lemma_position(&self, k: Seq<char>, i: int)
        requires
            self.wf(),
            has_id_at_in(self.entries@, k, i),
        ensures
            position_in(self.entries@, k) == i,
    {
        let p = position_in(self.entries@, k);
        assert(has_id_at_in(self.entries@, k, p));
        if p < i {
            assert(self.entries@[p].0@ != self.entries@[i].0@);
        } else if i < p {
            assert(self.entries@[i].0@ != self.entries@[p].0@);
        }
    }
}

/// The map a list of entries stands for: each id to the value of the
/// entry that holds it.
spec fn entries_map<V>(es: Seq<(String, V)>) -> Map<Seq<char>, V> {
    Map::new(|k: Seq<char>| exists|i: int| has_id_at_in(es, k, i), |k: Seq<char>| es[position_in(es, k)].1)
}

/// Entry `i` of `es` holds id `k`.
spec fn has_id_at_in<V>(es: Seq<(String, V)>, k: Seq<char>, i: int) -> bool {
    0 <= i < es.len() && es[i].0@ == k
}

spec fn position_in<V>(es: Seq<(String, V)>, k: Seq<char>) -> int {
    choose|i: int| has_id_at_in(es, k, i)
}

impl<V> View for IdMap<V> {
    type V = Map<Seq<char>, V>;

    closed spec fn view(&self) -> Map<Seq<char>, V> {
        entries_map(self.entries@)
    }
}

impl<V> IdMap<V> {
    /// An empty map.
    pub fn new() -> (m: Self)
        ensures
            m@ == Map::<Seq<char>, V>::empty(),
            m.ids() == Seq::<Seq<char>>::empty(),
    {
        let m = IdMap { entries: Vec::new() };
        assert(m@ =~= Map::<Seq<char>, V>::empty());
        assert(m.ids() =~= Seq::<Seq<char>>::empty());
        m
    }

    /// The number of entries.
    pub fn len(&self) -> (n: usize)
        ensures
            n == self.ids().len(),
            n == self@.dom().len(),
    {
        proof {
            use_type_invariant(self);
            self.lemma_dom_is_ids();
        }
        self.entries.len()
    }

    pub proof fn lemma_dom_is_ids(&self)
        requires
            self.wf(),
        ensures
            self@.dom() == self.ids().to_set(),
            self.ids().no_duplicates(),
            self@.dom().len() == self.ids().len(),
            self@.dom().finite(),
    {
        assert forall|k: Seq<char>| self@.dom().contains(k) <==> self.ids().to_set().contains(k) by {
            if self@.dom().contains(k) {
                let i = choose|i: int| has_id_at_in(self.entries@, k, i);
                assert(self.ids()[i] == k);
            }
            if self.ids().to_set().contains(k) {
                let i = choose|i: int| 0 <= i < self.ids().len() && self.ids()[i] == k;
                assert(has_id_at_in(self.entries@, k, i));
            }
        }
        assert(self@.dom() =~= self.ids().to_set());
        assert forall|i: int, j: int| 0 <= i < self.ids().len() && 0 <= j < self.ids().len() && i != j
            implies self.ids()[i] != self.ids()[j] by {
            if i < j {
                assert(self.entries@[i].0@ != self.entries@[j].0@);
            } else {
                assert(self.entries@[j].0@ != self.entries@[i].0@);
            }
        }
        self.ids().unique_seq_to_set();
    }

    /// The id and value stored at position `i`.
    pub fn entry(&self, i: usize) -> (r: (&String, &V))
        requires
            i < self.ids().len(),
        ensures
            r.0@ == self.ids()[i as int],
            self@.contains_key(r.0@),
            *r.1 == self@[r.0@],
    {
        proof {
            use_type_invariant(self);
            assert(has_id_at_in(self.entries@, self.entries@[i as int].0@, i as int));
            self.lemma_position(self.entries@[i as int].0@, i as int);
        }
        let e = &self.entries[i];
        (&e.0, &e.1)
    }

    /// Where `id` is stored, if anywhere.
    pub fn find(&self, id: &str) -> (r: Option<usize>)
        ensures
            match r {
                Some(i) => i < self.ids().len() && self.ids()[i as int] == id@
                    && self@.contains_key(id@),
                None => !self@.contains_key(id@),
            },
    {
        let mut i: usize = 0;
        while i < self.entries.len()
            invariant
                0 <= i <= self.entries@.len(),
                forall|j: int| 0 <= j < i ==> self.entries@[j].0@ != id@,
            decreases self.entries@.len() - i,
        {
            if str_eq(self.entries[i].0.as_str(), id) {
                assert(has_id_at_in(self.entries@, id@, i as int));
                return Some(i);
            }
            i += 1;
        }
        None
    }

    /// The value stored for `id`.
    pub fn get(&self, id: &str) -> (r: Option<&V>)
        ensures
            match r {
                Some(v) => self@.contains_key(id@) && *v == self@[id@],
                None => !self@.contains_key(id@),
            },
    {
        match self.find(id) {
            Some(i) => {
                proof {
                    use_type_invariant(self);
                    self.lemma_position(id@, i as int);
                }
                Some(&self.entries[i].1)
            },
            None => None,
        }
    }

    /// Whether `id` has a value.
    pub fn contains(&self, id: &str) -> (r: bool)
        ensures
            r == self@.contains_key(id@),
    {
        self.find(id).is_some()
    }

    /// Removes and returns the value stored for `id`.
    pub fn remove(&mut self, id: &str) -> (r: Option<V>)
        ensures
            final(self)@ == old(self)@.remove(id@),
            match r {
                Some(v) => old(self)@.contains_key(id@) && v == old(self)@[id@],
                None => !old(self)@.contains_key(id@),
            },
    {
        proof { use_type_invariant(&*self); }
        match self.find(id) {
            None => {
                assert(self@ =~= old(self)@.remove(id@));
                None
            },
            Some(i) => {
                proof { self.lemma_position(id@, i as int); }
                let ghost before = *self;
                let mut entries: Vec<(String, V)> = Vec::new();
                std::mem::swap(&mut entries, &mut self.entries);
                let (_k, v) = entries.remove(i);
                assert forall|a: int, b: int| 0 <= a < b < entries@.len() implies
                    #[trigger] entries@[a].0@ != #[trigger] entries@[b].0@ by {
                    let a0 = if a < i { a } else { a + 1 };
                    let b0 = if b < i { b } else { b + 1 };
                    assert(before.entries@[a0].0@ != before.entries@[b0].0@);
                }
                self.entries = entries;
                assert forall|k: Seq<char>| #[trigger] self@.contains_key(k)
                    <==> old(self)@.remove(id@).contains_key(k) by {
                    if self@.contains_key(k) {
                        let j = choose|j: int| has_id_at_in(self.entries@, k, j);
                        let j0 = if j < i { j } else { j + 1 };
                        assert(has_id_at_in(before.entries@, k, j0));
                        assert(k != id@);
                    }
                    if old(self)@.remove(id@).contains_key(k) {
                        let j0 = choose|j: int| has_id_at_in(before.entries@, k, j);
                        assert(j0 != i);
                        let j = if j0 < i { j0 } else { j0 - 1 };
                        assert(has_id_at_in(self.entries@, k, j));
                    }
                }
                assert forall|k: Seq<char>| #[trigger] self@.contains_key(k) implies
                    self@[k] == old(self)@.remove(id@)[k] by {
                    let j = position_in(self.entries@, k);
                    assert(has_id_at_in(self.entries@, k, j));
                    let j0 = if j < i { j } else { j + 1 };
                    assert(has_id_at_in(before.entries@, k, j0));
                    before.lemma_position(k, j0);
                }
                assert(self@ =~= old(self)@.remove(id@));
                Some(v)
            },
        }
    }

    /// Stores `value` for `id`, replacing (and returning) any previous value.
    pub fn insert(&mut self, id: &str, value: V) -> (r: Option<V>)
        ensures
            final(self)@ == old(self)@.insert(id@, value),
            match r {
                Some(v) => old(self)@.contains_key(id@) && v == old(self)@[id@],
                None => !old(self)@.contains_key(id@),
            },
    {
        let previous = self.remove(id);
        proof { use_type_invariant(&*self); }
        let ghost mid = *self;
        let key = to_owned_string(id);
        let mut entries: Vec<(String, V)> = Vec::new();
        std::mem::swap(&mut entries, &mut self.entries);
        entries.push((key, value));
        let n = entries.len() - 1;
        assert(has_id_at_in(entries@, id@, n as int));
        assert forall|a: int, b: int| 0 <= a < b < entries@.len() implies
            #[trigger] entries@[a].0@ != #[trigger] entries@[b].0@ by {
            if b == n {
                assert(!mid@.contains_key(id@));
                assert(!has_id_at_in(mid.entries@, id@, a));
            } else {
                assert(mid.entries@[a].0@ != mid.entries@[b].0@);
            }
        }
        self.entries = entries;
        assert forall|k: Seq<char>| #[trigger] self@.contains_key(k)
            <==> old(self)@.insert(id@, value).contains_key(k) by {
            if self@.contains_key(k) && k != id@ {
                let j = choose|j: int| has_id_at_in(self.entries@, k, j);
                assert(j != n);
                assert(has_id_at_in(mid.entries@, k, j));
                assert(mid@.contains_key(k));
            }
            if old(self)@.insert(id@, value).contains_key(k) && k != id@ {
                assert(mid@.contains_key(k));
                let j = choose|j: int| has_id_at_in(mid.entries@, k, j);
                assert(has_id_at_in(self.entries@, k, j));
            }
        }
        assert forall|k: Seq<char>| #[trigger] self@.contains_key(k) implies
            self@[k] == old(self)@.insert(id@, value)[k] by {
            if k == id@ {
                self.lemma_position(k, n as int);
            } else {
                let j = position_in(self.entries@, k);
                assert(has_id_at_in(self.entries@, k, j));
                assert(j != n);
                assert(has_id_at_in(mid.entries@, k, j));
                mid.lemma_position(k, j);
                assert(mid@.contains_key(k));
                assert(self@[k] == mid@[k]);
            }
        }
        assert(self@ =~= old(self)@.insert(id@, value));
        previous
    }
}


impl<V: Copy> IdMap<V> {
    /// A copy holding the same entries in the same order.
    pub fn copy(&self) -> (r: Self)
        ensures
            r@ == self@,
            r.ids() == self.ids(),
    {
        let mut entries: Vec<(String, V)> = Vec::new();
        let mut i: usize = 0;
        while i < self.entries.len()
            invariant
                i <= self.entries@.len(),
                entries@ == self.entries@.take(i as int),
            decreases self.entries@.len() - i,
        {
            let e = &self.entries[i];
            entries.push((e.0.clone(), e.1));
            assert(entries@ =~= self.entries@.take(i + 1));
            i += 1;
        }
        assert(entries@ =~= self.entries@);
        proof { use_type_invariant(self); }
        let r = IdMap { entries };
        assert(r.ids() =~= self.ids());
        assert(r@ =~= self@);
        r
    }
}

} // verus!
