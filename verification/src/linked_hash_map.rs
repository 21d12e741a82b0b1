//! A map from `u64` keys to values that keeps a LIFO order of entries: the
//! most recently inserted entry stands at the front, and an entry can be
//! _bumped_ back to the front without changing its value.
//!
//! The map is a sequence of key-value pairs with distinct keys; the front of
//! the order is index `0` of the sequence.

use vstd::prelude::*;

verus! {

pub struct LinkedHashMap<V> {
    entries: Vec<(u64, V)>,
}

/// No key occurs twice in the sequence.
pub open spec fn distinct_keys<V>(s: Seq<(u64, V)>) -> bool {
    forall|i: int, j: int| 0 <= i < j < s.len() ==> s[i].0 != s[j].0
}

/// Some entry of the sequence carries the key.
pub open spec fn seq_contains_key<V>(s: Seq<(u64, V)>, k: u64) -> bool {
    exists|i: int| 0 <= i < s.len() && s[i].0 == k
}

/// The position of the entry carrying the key; meaningful only when the key
/// occurs, and unique when the keys are distinct.
pub open spec fn key_index<V>(s: Seq<(u64, V)>, k: u64) -> int {
    choose|i: int| 0 <= i < s.len() && s[i].0 == k
}

/// A key range that is wholly present in an entry sequence cannot be longer
/// than the sequence: the pigeonhole fact behind fresh-key search.
pub proof fn lemma_full_key_range<V>(s: Seq<(u64, V)>, lo: u64, hi: u64)
    requires
        lo <= hi,
        forall|j: u64| lo <= j < hi ==> seq_contains_key(s, j),
    ensures
        hi - lo <= s.len(),
{
    broadcast use vstd::seq_lib::seq_to_set_is_finite;

    let keys = s.map_values(|p: (u64, V)| p.0 as int);
    assert forall|x: int|
        vstd::set_lib::set_int_range(lo as int, hi as int).contains(x) implies keys.to_set().contains(
        x,
    ) by {
        let j = x as u64;
        assert(seq_contains_key(s, j));
        let w = choose|w: int| 0 <= w < s.len() && s[w].0 == j;
        assert(keys[w] == x);
        assert(keys.contains(x));
    }
    keys.lemma_cardinality_of_set();
    vstd::set_lib::lemma_int_range(lo as int, hi as int);
    vstd::set_lib::lemma_len_subset(
        vstd::set_lib::set_int_range(lo as int, hi as int),
        keys.to_set(),
    );
}

impl<V> View for LinkedHashMap<V> {
    type V = Seq<(u64, V)>;

    closed spec fn view(&self) -> Seq<(u64, V)> {
        self.entries@
    }
}

impl<V> LinkedHashMap<V> {
    /// The map's invariant: entry keys are distinct.
    pub open spec fn wf(&self) -> bool {
        distinct_keys(self@)
    }

    pub fn new() -> (r: Self)
        ensures
            r@ =~= Seq::<(u64, V)>::empty(),
            r.wf(),
    {
        LinkedHashMap { entries: Vec::new() }
    }

    pub fn with_capacity(capacity: usize) -> (r: Self)
        ensures
            r@ =~= Seq::<(u64, V)>::empty(),
            r.wf(),
    {
        LinkedHashMap { entries: Vec::with_capacity(capacity) }
    }

    /// Index of the entry carrying `k`, scanning from the front.
    fn position_of(&self, k: u64) -> (r: Option<usize>)
        ensures
            match r {
                Some(i) => i < self@.len() && self@[i as int].0 == k && (forall|j: int|
                    0 <= j < i ==> self@[j].0 != k),
                None => !seq_contains_key(self@, k),
            },
    {
        let mut i: usize = 0;
        while i < self.entries.len()
            invariant
                i <= self.entries.len(),
                forall|j: int| 0 <= j < i ==> self.entries@[j].0 != k,
            decreases self.entries.len() - i,
        {
            if self.entries[i].0 == k {
                return Some(i);
            }
            i += 1;
        }
        None
    }

    pub fn contains_key(&self, k: u64) -> (r: bool)
        ensures
            r == seq_contains_key(self@, k),
    {
        self.position_of(k).is_some()
    }

    pub fn len(&self) -> (r: usize)
        ensures
            r == self@.len(),
    {
        self.entries.len()
    }

    /// Attempts to insert an entry at the front of the order.
    ///
    /// An existing entry is not overwritten: the value is handed back, which
    /// signals that nothing was inserted. `None` means the entry went in, at
    /// the front.
    pub fn insert(&mut self, k: u64, v: V) -> (r: Option<V>)
        requires
            old(self).wf(),
        ensures
            final(self).wf(),
            seq_contains_key(old(self)@, k) ==> r == Some(v) && final(self)@ == old(self)@,
            !seq_contains_key(old(self)@, k) ==> r is None && final(self)@ == seq![(k, v)]
                + old(self)@,
    {
        if self.position_of(k).is_some() {
            Some(v)
        } else {
            self.entries.insert(0, (k, v));
            proof {
                assert(self@ =~= seq![(k, v)] + old(self)@);
            }
            None
        }
    }

    pub fn get(&self, k: u64) -> (r: Option<&V>)
        requires
            self.wf(),
        ensures
            r is Some <==> seq_contains_key(self@, k),
            r is Some ==> r == Some(&self@[key_index(self@, k)].1),
    {
        match self.position_of(k) {
            Some(i) => {
                proof {
                    assert(self@[key_index(self@, k)].0 == k);
                }
                Some(&self.entries[i].1)
            },
            None => None,
        }
    }

    /// Mutable access to the value stored under a key that is known to be
    /// present. Only the value at that key may change through the returned
    /// reference; the order and the other entries stay as they were.
    pub fn get_mut(&mut self, k: u64) -> (r: &mut V)
        requires
            old(self).wf(),
            seq_contains_key(old(self)@, k),
        ensures
            *r == old(self)@[key_index(old(self)@, k)].1,
            final(self)@ == old(self)@.update(key_index(old(self)@, k), (k, *final(r))),
            final(self).wf(),
    {
        let i = match self.position_of(k) {
            Some(i) => i,
            None => unreached(),
        };
        proof {
            assert(old(self)@[key_index(old(self)@, k)].0 == k);
            assert(i == key_index(old(self)@, k));
        }
        &mut self.entries[i].1
    }

    /// Removes the entry carrying the key, closing the gap in the order.
    pub fn remove(&mut self, k: u64) -> (r: Option<V>)
        requires
            old(self).wf(),
        ensures
            final(self).wf(),
            r is Some <==> seq_contains_key(old(self)@, k),
            seq_contains_key(old(self)@, k) ==> r == Some(
                old(self)@[key_index(old(self)@, k)].1,
            ) && final(self)@ == old(self)@.remove(key_index(old(self)@, k)),
            !seq_contains_key(old(self)@, k) ==> final(self)@ == old(self)@,
    {
        match self.position_of(k) {
            Some(i) => {
                proof {
                    assert(old(self)@[key_index(old(self)@, k)].0 == k);
                    assert(i == key_index(old(self)@, k));
                }
                let e = self.entries.remove(i);
                Some(e.1)
            },
            None => None,
        }
    }

    /// Relinks the entry carrying the key to the front of the order; the
    /// relative order of all other entries is preserved. Returns whether the
    /// key was present.
    pub fn bump(&mut self, k: u64) -> (r: bool)
        requires
            old(self).wf(),
        ensures
            final(self).wf(),
            r == seq_contains_key(old(self)@, k),
            r ==> final(self)@ == seq![old(self)@[key_index(old(self)@, k)]] + old(
                self,
            )@.remove(key_index(old(self)@, k)),
            !r ==> final(self)@ == old(self)@,
    {
        match self.position_of(k) {
            Some(i) => {
                proof {
                    assert(old(self)@[key_index(old(self)@, k)].0 == k);
                    assert(i == key_index(old(self)@, k));
                }
                let e = self.entries.remove(i);
                self.entries.insert(0, e);
                proof {
                    assert(self@ =~= seq![old(self)@[i as int]] + old(self)@.remove(i as int));
                }
                true
            },
            None => false,
        }
    }

    /// The entries from the front of the order to the back.
    pub fn iter(&self) -> (r: &Vec<(u64, V)>)
        ensures
            r@ == self@,
    {
        &self.entries
    }
}

} // verus!
