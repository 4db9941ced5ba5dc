//! A small table from numbers to values.

use std::collections::HashMap;
use vstd::prelude::*;
use vstd::std_specs::iter::IteratorSpec;

verus! {

/// A value under each of some numbers.
pub struct Table<V> {
    map: HashMap<u64, V>,
}

impl<V> View for Table<V> {
    type V = Map<u64, V>;

    closed spec fn view(&self) -> Map<u64, V> {
        self.map@
    }
}

impl<V> Table<V> {
    pub fn new() -> (r: Self)
        ensures
            r@ == Map::<u64, V>::empty(),
    {
        broadcast use vstd::std_specs::hash::group_hash_axioms;

        Table { map: HashMap::new() }
    }

    pub fn contains_key(&self, key: u64) -> (r: bool)
        ensures
            r == self@.dom().contains(key),
    {
        broadcast use vstd::std_specs::hash::group_hash_axioms;

        self.map.contains_key(&key)
    }

    pub fn get(&self, key: u64) -> (r: Option<&V>)
        ensures
            match r {
                Some(v) => self@.dom().contains(key) && *v == self@[key],
                None => !self@.dom().contains(key),
            },
    {
        broadcast use vstd::std_specs::hash::group_hash_axioms;

        self.map.get(&key)
    }

    pub fn remove(&mut self, key: u64) -> (r: Option<V>)
        ensures
            final(self)@ == old(self)@.remove(key),
            match r {
                Some(v) => old(self)@.dom().contains(key) && v == old(self)@[key],
                None => !old(self)@.dom().contains(key),
            },
    {
        broadcast use vstd::std_specs::hash::group_hash_axioms;

        let r: Option<V> = self.map.remove(&key);
        assert(self@ =~= old(self)@.remove(key));
        r
    }

    pub fn insert(&mut self, key: u64, value: V) -> (r: Option<V>)
        ensures
            final(self)@ == old(self)@.insert(key, value),
            match r {
                Some(v) => old(self)@.dom().contains(key) && v == old(self)@[key],
                None => !old(self)@.dom().contains(key),
            },
    {
        broadcast use vstd::std_specs::hash::group_hash_axioms;

        self.map.insert(key, value)
    }

    /// The numbers that there are values under, in some order.
    fn keys(&self) -> (r: Vec<u64>)
        ensures
            forall|key: u64| r@.contains(key) <==> self@.dom().contains(key),
    {
        broadcast use vstd::std_specs::hash::group_hash_axioms;

        let mut r: Vec<u64> = Vec::new();
        let ghost all = vstd::std_specs::hash::spec_keys_iter(&self.map).remaining();
        for key in walk: self.map.keys()
            invariant
                walk.seq() == all,
                r@.len() == walk.index(),
                forall|i: int| 0 <= i < r@.len() ==> #[trigger] r@[i] == *all[i],
        {
            r.push(*key);
        }
        proof {
            assert(r@ =~= all.unref());
            assert forall|key: u64| r@.contains(key) <==> self@.dom().contains(key) by {
                assert(all.unref().to_set().contains(key) <==> self@.dom().contains(key));
            }
        }
        r
    }

    /// Takes some entry out.
    pub fn take_any(&mut self) -> (r: Option<(u64, V)>)
        ensures
            match r {
                Some((key, v)) => {
                    &&& old(self)@.dom().contains(key)
                    &&& v == old(self)@[key]
                    &&& final(self)@ == old(self)@.remove(key)
                    &&& final(self)@.dom().len() < old(self)@.dom().len()
                },
                None => {
                    &&& old(self)@ == Map::<u64, V>::empty()
                    &&& final(self)@ == old(self)@
                },
            },
    {
        broadcast use vstd::std_specs::hash::group_hash_axioms;

        let keys: Vec<u64> = self.keys();
        if keys.len() == 0 {
            assert forall|k: u64| !self@.dom().contains(k) by {
                assert(!keys@.contains(k));
            }
            assert(self@ =~= Map::<u64, V>::empty());
            return None;
        }
        let key: u64 = keys[0];
        assert(keys@.contains(key));
        match self.remove(key) {
            Some(v) => Some((key, v)),
            None => None,
        }
    }

    pub fn is_empty(&self) -> (r: bool)
        ensures
            r == (self@ == Map::<u64, V>::empty()),
    {
        broadcast use vstd::std_specs::hash::group_hash_axioms;

        proof {
            if self@.dom().len() == 0 {
                assert(self@ =~= Map::<u64, V>::empty());
            }
        }
        self.map.is_empty()
    }

    /// How many values there are.
    pub fn len(&self) -> (n: usize)
        ensures
            n == self@.dom().len(),
            self@.dom().finite(),
    {
        broadcast use vstd::std_specs::hash::group_hash_axioms;

        self.map.len()
    }
}

/// A map without the entries that lead to a number.
pub open spec fn without_target(map: Map<u64, u64>, target: u64) -> Map<u64, u64> {
    map.restrict(map.dom().filter(|k: u64| map[k] != target))
}

impl Table<u64> {
    /// Drops every entry that leads to a number.
    pub fn remove_target(&mut self, target: u64)
        ensures
            final(self)@ == without_target(old(self)@, target),
    {
        let keys: Vec<u64> = self.keys();
        let ghost all = self@;
        let mut i: usize = 0;
        while i < keys.len()
            invariant
                all == old(self)@,
                i <= keys@.len(),
                forall|key: u64| keys@.contains(key) <==> all.dom().contains(key),
                forall|k: u64| #[trigger]
                    self@.dom().contains(k) ==> all.dom().contains(k) && self@[k] == all[k],
                forall|k: u64| #[trigger]
                    all.dom().contains(k) && all[k] != target ==> self@.dom().contains(k),
                forall|j: int|
                    0 <= j < i ==> !(self@.dom().contains(#[trigger] keys@[j])
                        && all[keys@[j]] == target),
            decreases keys@.len() - i,
        {
            let key: u64 = keys[i];
            let drop: bool = match self.get(key) {
                Some(t) => *t == target,
                None => false,
            };
            if drop {
                let _ = self.remove(key);
            }
            i = i + 1;
        }
        proof {
            assert forall|k: u64| self@.dom().contains(k) implies all[k] != target by {
                assert(keys@.contains(k));
                let j = choose|j: int| 0 <= j < keys@.len() && keys@[j] == k;
                assert(!(self@.dom().contains(keys@[j]) && all[keys@[j]] == target));
            }
            assert(self@ =~= without_target(all, target));
        }
    }
}

/// Of the entries of a map exactly those that lead to a number are dropped.
pub proof fn law_only_entries_to_the_target_go(map: Map<u64, u64>, target: u64, key: u64)
    ensures
        without_target(map, target).dom().contains(key) == (map.dom().contains(key) && map[key]
            != target),
        without_target(map, target).dom().contains(key) ==> without_target(map, target)[key]
            == map[key],
{
}

} // verus!
