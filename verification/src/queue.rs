//! The candidate queue: a priority queue keyed by distance.
//!
//! Search and insertion keep candidates in queues ordered by their distance
//! lower bounds, and the reranker keeps exactly evaluated candidates in a
//! second one.  The queue hands out a held entry with the least key; ties
//! go to the entry pushed first.

use vstd::prelude::*;

use crate::Distance;

verus! {

/// A priority queue of `(key, value)` entries that pops a least key first.
pub struct MinQueue<T> {
    pub entries: Vec<(Distance, T)>,
}

impl<T> MinQueue<T> {
    /// The keys currently held, in internal order.
    pub open spec fn keys(self) -> Seq<Distance> {
        self.entries@.map_values(|e: (Distance, T)| e.0)
    }

    /// An empty queue.
    pub fn new() -> (r: MinQueue<T>)
        ensures
            r.entries@.len() == 0,
    {
        MinQueue { entries: Vec::new() }
    }

    /// A queue holding the given entries.
    pub fn from_vec(v: Vec<(Distance, T)>) -> (r: MinQueue<T>)
        ensures
            r.entries@ == v@,
    {
        MinQueue { entries: v }
    }

    /// Number of entries held.
    pub fn len(&self) -> (n: usize)
        ensures
            n == self.entries@.len(),
    {
        self.entries.len()
    }

    /// Whether the queue holds nothing.
    pub fn is_empty(&self) -> (r: bool)
        ensures
            r == (self.entries@.len() == 0),
    {
        self.entries.len() == 0
    }

    /// Adds an entry.
    pub fn push(&mut self, key: Distance, value: T)
        ensures
            final(self).entries@ == old(self).entries@.push((key, value)),
    {
        self.entries.push((key, value));
    }

    /// The least key held, if any.
    pub fn peek_key(&self) -> (r: Option<Distance>)
        ensures
            match r {
                Some(d) => {
                    &&& self.entries@.len() > 0
                    &&& exists|i: int|
                        0 <= i < self.entries@.len() && (#[trigger] self.entries@[i]).0 == d
                    &&& forall|j: int|
                        0 <= j < self.entries@.len() ==> (#[trigger] self.entries@[j]).0 >= d
                },
                None => self.entries@.len() == 0,
            },
    {
        let n = self.entries.len();
        if n == 0 {
            return None;
        }
        let mut best: Distance = self.entries[0].0;
        for i in 1..n
            invariant
                n == self.entries@.len(),
                n > 0,
                exists|k: int| 0 <= k < i && (#[trigger] self.entries@[k]).0 == best,
                forall|j: int| 0 <= j < i ==> (#[trigger] self.entries@[j]).0 >= best,
        {
            if self.entries[i].0 < best {
                best = self.entries[i].0;
            }
        }
        Some(best)
    }

    /// Removes and returns an entry with the least key; among equal keys the
    /// one pushed first leaves first.
    pub fn pop_min(&mut self) -> (r: Option<(Distance, T)>)
        ensures
            match r {
                Some(entry) => exists|i: int|
                    {
                        &&& 0 <= i < old(self).entries@.len()
                        &&& #[trigger] old(self).entries@[i] == entry
                        &&& final(self).entries@ == old(self).entries@.remove(i)
                        &&& forall|j: int|
                            0 <= j < old(self).entries@.len() ==> (#[trigger] old(
                                self,
                            ).entries@[j]).0 >= entry.0
                        &&& forall|j: int| 0 <= j < i ==> (#[trigger] old(self).entries@[j]).0 > entry.0
                    },
                None => {
                    &&& old(self).entries@.len() == 0
                    &&& final(self).entries@ == old(self).entries@
                },
            },
    {
        let n = self.entries.len();
        if n == 0 {
            return None;
        }
        let mut at: usize = 0;
        let mut best: Distance = self.entries[0].0;
        for i in 1..n
            invariant
                n == self.entries@.len(),
                n > 0,
                at < i,
                self.entries@[at as int].0 == best,
                forall|j: int| 0 <= j < i ==> (#[trigger] self.entries@[j]).0 >= best,
                forall|j: int| 0 <= j < at ==> (#[trigger] self.entries@[j]).0 > best,
        {
            if self.entries[i].0 < best {
                at = i;
                best = self.entries[i].0;
            }
        }
        let entry = self.entries.remove(at);
        Some(entry)
    }
}

} // verus!
