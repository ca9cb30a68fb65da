//! Prefetching queues over search candidates.
//!
//! A prefetcher holds scored candidates and hands them out in non-decreasing
//! score order; the variants differ in how they hint upcoming page reads to
//! the storage layer.  [`PlainPrefetcher`] hints nothing.
//! [`SimplePrefetcher`] keeps a sliding window of the next
//! [`WINDOW_SIZE`] candidates and records a read hint for every page such a
//! candidate will touch.  Both deliver candidates in the same order, which
//! is what the reranker's ordering guarantee rests on.

use vstd::prelude::*;

use vstd::multiset::Multiset;

use crate::queue::MinQueue;
use crate::Distance;

verus! {

/// Number of candidates a windowed prefetcher keeps ahead.
pub const WINDOW_SIZE: usize = 32;

/// A candidate that knows which pages it will touch.
pub trait Fetch {
    /// The pages the candidate will touch.
    spec fn spec_fetch(&self) -> Seq<u32>;

    fn fetch(&self) -> (r: Vec<u32>)
        ensures
            r@ == self.spec_fetch(),
    ;
}

/// The concatenated page hints of a sequence of candidates, in order.
pub open spec fn flat_pages<T: Fetch>(log: Seq<T>) -> Seq<u32>
    decreases log.len(),
{
    if log.len() == 0 {
        Seq::empty()
    } else {
        flat_pages(log.drop_last()) + log.last().spec_fetch()
    }
}

/// A source of scored candidates delivered in non-decreasing score order.
///
/// `pop_if` hands out a least-scored held candidate, but only when its
/// score is below the given bound; with no bound it always hands one out
/// while any is held.
pub trait Prefetcher: Sized {
    type Item;

    /// The variant's internal invariant.
    spec fn wf(&self) -> bool;

    /// The candidates currently held.
    spec fn items(&self) -> Multiset<(Distance, Self::Item)>;

    fn pop_if(&mut self, bound: Option<Distance>) -> (r: Option<(Distance, Self::Item)>)
        requires
            old(self).wf(),
        ensures
            final(self).wf(),
            match r {
                Some(entry) => {
                    &&& old(self).items().count(entry) > 0
                    &&& final(self).items() == old(self).items().remove(entry)
                    &&& forall|e: (Distance, Self::Item)|
                        #[trigger] old(self).items().count(e) > 0 ==> entry.0 <= e.0
                    &&& (bound matches Some(b) ==> entry.0 < b)
                },
                None => {
                    &&& final(self).items() == old(self).items()
                    &&& (old(self).items().len() == 0 || (bound matches Some(b) && (forall|
                        e: (Distance, Self::Item),
                    |
                        #[trigger] old(self).items().count(e) > 0 ==> e.0 >= b)))
                },
            },
    ;
}

/// A prefetcher that reads page by page on demand, with no hinting.
pub struct PlainPrefetcher<T> {
    pub queue: MinQueue<T>,
}

impl<T> PlainPrefetcher<T> {
    /// Builds the prefetcher over a batch of scored candidates.
    pub fn new(vec: Vec<(Distance, T)>) -> (r: Self)
        ensures
            r.wf(),
            r.items() == vec@.to_multiset(),
    {
        PlainPrefetcher { queue: MinQueue::from_vec(vec) }
    }
}

impl<T> Prefetcher for PlainPrefetcher<T> {
    type Item = T;

    open spec fn wf(&self) -> bool {
        true
    }

    open spec fn items(&self) -> Multiset<(Distance, T)> {
        self.queue.entries@.to_multiset()
    }

    fn pop_if(&mut self, bound: Option<Distance>) -> (r: Option<(Distance, T)>) {
        proof {
            broadcast use vstd::seq_lib::group_to_multiset_ensures;

        }
        let proceed = match (self.queue.peek_key(), bound) {
            (Some(d), Some(b)) => d < b,
            (Some(_), None) => true,
            (None, _) => false,
        };
        if !proceed {
            proof {
                assert forall|e: (Distance, T)|
                    #[trigger] self.items().count(e) > 0 implies self.queue.entries@.contains(
                    e,
                ) by {}
            }
            return None;
        }
        let r = self.queue.pop_min();
        proof {
            if r is Some {
                let entry = r->Some_0;
                {
                    let i = choose|i: int|
                        {
                            &&& 0 <= i < old(self).queue.entries@.len()
                            &&& #[trigger] old(self).queue.entries@[i] == entry
                            &&& self.queue.entries@ == old(self).queue.entries@.remove(i)
                            &&& forall|j: int|
                                0 <= j < old(self).queue.entries@.len() ==> (#[trigger] old(
                                    self,
                                ).queue.entries@[j]).0 >= entry.0
                        };
                    assert(old(self).queue.entries@.contains(entry));
                    assert(self.queue.entries@.to_multiset() =~= old(
                        self,
                    ).queue.entries@.to_multiset().remove(entry));
                    assert forall|e: (Distance, T)|
                        #[trigger] old(self).items().count(e) > 0 implies entry.0 <= e.0 by {
                        assert(old(self).queue.entries@.contains(e));
                        let j = choose|j: int|
                            0 <= j < old(self).queue.entries@.len() && old(
                                self,
                            ).queue.entries@[j] == e;
                        assert(old(self).queue.entries@[j].0 >= entry.0);
                    }
                }
            }
        }
        r
    }
}

/// A prefetcher that keeps a sliding window of upcoming candidates and
/// records a read hint for every page a windowed candidate will touch.
pub struct SimplePrefetcher<T> {
    pub window: Vec<(Distance, T)>,
    pub queue: MinQueue<T>,
    pub hints: Vec<u32>,
    pub hinted_items: Ghost<Seq<T>>,
}

impl<T: Fetch> SimplePrefetcher<T> {
    /// Builds the prefetcher over a batch of scored candidates.
    pub fn new(vec: Vec<(Distance, T)>) -> (r: Self)
        ensures
            r.wf(),
            r.items() == vec@.to_multiset(),
            r.hints@.len() == 0,
    {
        let r = SimplePrefetcher {
            window: Vec::new(),
            queue: MinQueue::from_vec(vec),
            hints: Vec::new(),
            hinted_items: Ghost(Seq::empty()),
        };
        proof {
            broadcast use vstd::seq_lib::group_to_multiset_ensures;

            assert(r.window@.to_multiset().len() == 0);
            assert(r.items() =~= vec@.to_multiset());
        }
        r
    }

    /// The pages hinted so far, in hint order.
    pub fn hinted(&self) -> (r: &Vec<u32>)
        ensures
            r@ == self.hints@,
    {
        &self.hints
    }
}

impl<T: Fetch> Prefetcher for SimplePrefetcher<T> {
    type Item = T;

    open spec fn wf(&self) -> bool {
        &&& forall|i: int, j: int|
            0 <= i <= j < self.window@.len() ==> (#[trigger] self.window@[i]).0 <= (
            #[trigger] self.window@[j]).0
        &&& forall|i: int, j: int|
            0 <= i < self.window@.len() && 0 <= j < self.queue.entries@.len() ==> (
            #[trigger] self.window@[i]).0 <= (#[trigger] self.queue.entries@[j]).0
        &&& self.window@.len() <= WINDOW_SIZE
        &&& self.hints@ == flat_pages(self.hinted_items@)
    }

    open spec fn items(&self) -> Multiset<(Distance, T)> {
        self.window@.to_multiset().add(self.queue.entries@.to_multiset())
    }

    fn pop_if(&mut self, bound: Option<Distance>) -> (r: Option<(Distance, T)>) {
        proof {
            broadcast use vstd::seq_lib::group_to_multiset_ensures;

        }
        let ghost items0 = self.items();
        while self.window.len() < WINDOW_SIZE && self.queue.len() > 0
            invariant
                self.wf(),
                self.items() == items0,
            decreases self.queue.entries@.len(),
        {
            let ghost pre = *self;
            let got = self.queue.pop_min();
            proof {
                broadcast use vstd::seq_lib::group_to_multiset_ensures;

            }
            if let Some(entry) = got {
                proof {
                    let i = choose|i: int|
                        {
                            &&& 0 <= i < pre.queue.entries@.len()
                            &&& #[trigger] pre.queue.entries@[i] == entry
                            &&& self.queue.entries@ == pre.queue.entries@.remove(i)
                            &&& forall|j: int|
                                0 <= j < pre.queue.entries@.len() ==> (#[trigger] pre.queue.entries@[j]).0
                                    >= entry.0
                        };
                    pre.queue.entries@.remove_ensures(i);
                    assert(pre.queue.entries@.contains(entry));
                    assert(self.queue.entries@.to_multiset() =~= pre.queue.entries@.to_multiset()
                        .remove(entry));
                    assert forall|j: int|
                        0 <= j < self.queue.entries@.len() implies (
                    #[trigger] self.queue.entries@[j]).0 >= entry.0 by {
                        if j < i {
                            assert(self.queue.entries@[j] == pre.queue.entries@[j]);
                        } else {
                            assert(self.queue.entries@[j] == pre.queue.entries@[j + 1]);
                        }
                    }
                    assert forall|j: int|
                        0 <= j < self.window@.len() implies (#[trigger] self.window@[j]).0
                        <= entry.0 by {
                        assert(pre.window@[j].0 <= pre.queue.entries@[i].0);
                    }
                }
                let ghost wsnap = self.window@;
                let ghost qsnap = self.queue.entries@;
                let ghost hsnap = self.hints@;
                let ghost lsnap = self.hinted_items@;
                let ids = entry.1.fetch();
                let n_ids = ids.len();
                for h in 0..n_ids
                    invariant
                        n_ids == ids@.len(),
                        self.window@ == wsnap,
                        self.queue.entries@ == qsnap,
                        self.hinted_items@ == lsnap,
                        flat_pages(lsnap) == hsnap,
                        self.hints@ == hsnap + ids@.take(h as int),
                {
                    self.hints.push(ids[h]);
                    proof {
                        assert(self.hints@ =~= hsnap + ids@.take(h + 1));
                    }
                }
                proof {
                    assert(ids@.take(n_ids as int) =~= ids@);
                    let log0 = self.hinted_items@;
                    assert(flat_pages(log0) == hsnap);
                    self.hinted_items@ = log0.push(entry.1);
                    assert(self.hinted_items@.drop_last() =~= log0);
                    assert(self.hinted_items@.last() == entry.1);
                    assert(flat_pages(self.hinted_items@) == flat_pages(log0)
                        + entry.1.spec_fetch());
                    assert(self.hints@ =~= flat_pages(self.hinted_items@));
                }
                let ghost key = entry.0;
                self.window.push(entry);
                proof {
                    assert forall|i2: int, j2: int|
                        0 <= i2 <= j2 < self.window@.len() implies (#[trigger] self.window@[i2]).0
                        <= (#[trigger] self.window@[j2]).0 by {
                        if j2 < self.window@.len() - 1 {
                            assert(pre.window@[i2].0 <= pre.window@[j2].0);
                        } else {
                            if i2 < self.window@.len() - 1 {
                                assert(wsnap[i2].0 <= key);
                            }
                        }
                    }
                    assert forall|i2: int, j2: int|
                        0 <= i2 < self.window@.len() && 0 <= j2
                            < self.queue.entries@.len() implies (#[trigger] self.window@[i2]).0
                        <= (#[trigger] self.queue.entries@[j2]).0 by {
                        if i2 < self.window@.len() - 1 {
                            assert(wsnap[i2].0 <= key);
                        }
                        assert(self.queue.entries@[j2].0 >= key);
                    }
                    assert(self.window@.to_multiset() =~= wsnap.to_multiset().insert(entry));
                    assert(self.items() =~= items0) by {
                        assert(pre.queue.entries@.to_multiset().count(entry) > 0);
                        assert(self.items() =~= wsnap.to_multiset().insert(entry).add(
                            pre.queue.entries@.to_multiset().remove(entry),
                        ));
                    };
                }
            } else {
                proof {
                    assert(false);
                }
            }
        }
        if self.window.len() == 0 {
            proof {
                assert(self.queue.entries@.len() == 0);
                assert(self.items().len() == 0);
            }
            return None;
        }
        let key = self.window[0].0;
        let proceed = match bound {
            Some(b) => key < b,
            None => true,
        };
        if !proceed {
            proof {
                let b = bound->0;
                assert forall|e: (Distance, T)|
                    #[trigger] self.items().count(e) > 0 implies e.0 >= b by {
                    if self.window@.to_multiset().count(e) > 0 {
                        assert(self.window@.contains(e));
                        let j = choose|j: int|
                            0 <= j < self.window@.len() && self.window@[j] == e;
                        assert(self.window@[0].0 <= self.window@[j].0);
                    } else {
                        assert(self.queue.entries@.to_multiset().count(e) > 0);
                        assert(self.queue.entries@.contains(e));
                        let j = choose|j: int|
                            0 <= j < self.queue.entries@.len() && self.queue.entries@[j] == e;
                        assert(self.window@[0].0 <= self.queue.entries@[j].0);
                    }
                }
            }
            return None;
        }
        let ghost pre = *self;
        let entry = self.window.remove(0);
        proof {
            broadcast use vstd::seq_lib::group_to_multiset_ensures;

            pre.window@.remove_ensures(0);
            assert(pre.window@.contains(entry)) by {
                assert(pre.window@[0] == entry);
            };
            assert(self.window@.to_multiset() =~= pre.window@.to_multiset().remove(entry));
            assert(pre.items().count(entry) > 0);
            assert(self.items() =~= pre.items().remove(entry));
            assert forall|e: (Distance, T)|
                #[trigger] pre.items().count(e) > 0 implies entry.0 <= e.0 by {
                if pre.window@.to_multiset().count(e) > 0 {
                    assert(pre.window@.contains(e));
                    let j = choose|j: int| 0 <= j < pre.window@.len() && pre.window@[j] == e;
                    assert(pre.window@[0].0 <= pre.window@[j].0);
                } else {
                    assert(pre.queue.entries@.to_multiset().count(e) > 0);
                    assert(pre.queue.entries@.contains(e));
                    let j = choose|j: int|
                        0 <= j < pre.queue.entries@.len() && pre.queue.entries@[j] == e;
                    assert(pre.window@[0].0 <= pre.queue.entries@[j].0);
                }
            }
            assert forall|i2: int, j2: int|
                0 <= i2 <= j2 < self.window@.len() implies (#[trigger] self.window@[i2]).0 <= (
            #[trigger] self.window@[j2]).0 by {
                assert(self.window@[i2] == pre.window@[i2 + 1]);
                assert(self.window@[j2] == pre.window@[j2 + 1]);
            }
            assert forall|i2: int, j2: int|
                0 <= i2 < self.window@.len() && 0 <= j2 < self.queue.entries@.len() implies (
            #[trigger] self.window@[i2]).0 <= (#[trigger] self.queue.entries@[j2]).0 by {
                assert(self.window@[i2] == pre.window@[i2 + 1]);
            }
        }
        Some(entry)
    }
}

} // verus!
