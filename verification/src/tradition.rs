//! Collections of traditions forming a cultural landscape.
//!
//! A set holds its traditions in insertion order. The geometric queries
//! (nearest tradition, traditions within a radius) are decided here from the
//! order keys of the distances of the traditions to the query position, one
//! key per tradition, in the set's order.

use vstd::prelude::*;

use crate::rank;
use crate::rank::{first_min_index, indices_below};

verus! {

/// A collection of traditions forming a cultural landscape.
pub struct TraditionSet<T> {
    /// The traditions in this set.
    pub traditions: Vec<T>,
}

impl<T> TraditionSet<T> {
    /// The traditions of the set, in order.
    pub open spec fn items(&self) -> Seq<T> {
        self.traditions@
    }

    /// Create an empty tradition set.
    pub fn new() -> (s: Self)
        ensures
            s.items() == Seq::<T>::empty(),
    {
        TraditionSet { traditions: Vec::new() }
    }

    /// Create from a vector of traditions.
    pub fn from_vec(traditions: Vec<T>) -> (s: Self)
        ensures
            s.items() == traditions@,
    {
        TraditionSet { traditions }
    }

    /// Add a tradition at the end.
    pub fn add(&mut self, tradition: T)
        ensures
            final(self).items() == old(self).items().push(tradition),
    {
        self.traditions.push(tradition);
    }

    /// Number of traditions.
    pub fn len(&self) -> (r: usize)
        ensures
            r == self.items().len(),
    {
        self.traditions.len()
    }

    /// True if empty.
    pub fn is_empty(&self) -> (r: bool)
        ensures
            r <==> self.items().len() == 0,
    {
        self.traditions.len() == 0
    }

    /// The tradition closest to a position, given the order key of each
    /// tradition's distance to it: the first tradition with a minimal key, or
    /// `None` for an empty set.
    ///
    /// Distances are compared partially, and a comparison with a value that is
    /// not a number fails; with two or more traditions every key must be a
    /// number.
    pub fn nearest_by_key(&self, keys: &Vec<Option<u64>>) -> (r: Option<&T>)
        requires
            keys.len() == self.items().len(),
            keys.len() < 2 || rank::all_numbers(keys@),
        ensures
            r is None <==> self.items().len() == 0,
            r matches Some(t) ==> exists|i: int| rank::is_first_min(keys@, i) && *t == self.items()[i],
            r matches Some(t) ==> exists|i: int|
                0 <= i < keys.len() && *t == self.items()[i] && (keys.len() >= 2 ==> forall|j: int|
                    0 <= j < keys.len() ==> keys@[i]->0 <= (#[trigger] keys@[j])->0),
    {
        match first_min_index(keys) {
            None => None,
            Some(i) => {
                assert(keys.len() >= 2 ==> forall|j: int|
                    0 <= j < keys.len() ==> keys@[i as int]->0 <= (#[trigger] keys@[j])->0);
                Some(&self.traditions[i])
            },
        }
    }

    /// The traditions whose distance to a position is strictly less than the
    /// radius, in the set's order, given the order key of each tradition's
    /// distance and of the radius.
    pub fn within_radius_by_key(&self, keys: &Vec<Option<u64>>, radius: Option<u64>) -> (r: Vec<&T>)
        requires
            keys.len() == self.items().len(),
        ensures
            r@.len() == rank::below(keys@, radius).len(),
            forall|k: int| 0 <= k < r@.len() ==> *(#[trigger] r@[k]) == self.items()[rank::below(keys@, radius)[k] as int],
    {
        let idx = indices_below(keys, radius);
        proof {
            rank::lemma_below_bounded(keys@, radius);
        }
        let mut r: Vec<&T> = Vec::new();
        let mut k: usize = 0;
        while k < idx.len()
            invariant
                k <= idx.len(),
                idx@ == rank::below(keys@, radius),
                keys.len() == self.items().len(),
                forall|m: int| 0 <= m < idx@.len() ==> (#[trigger] idx@[m]) < keys.len(),
                r@.len() == k,
                forall|m: int| 0 <= m < k ==> *(#[trigger] r@[m]) == self.items()[idx@[m] as int],
            decreases idx.len() - k,
        {
            r.push(&self.traditions[idx[k]]);
            k += 1;
        }
        r
    }
}

impl<T> Default for TraditionSet<T> {
    /// An empty tradition set.
    fn default() -> (s: Self)
        ensures
            s.items() == Seq::<T>::empty(),
    {
        Self::new()
    }
}

} // verus!
