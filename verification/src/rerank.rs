//! The reranking state machine.
//!
//! Search narrows candidates by quantized lower bounds and reranks the
//! survivors by exact distance.  The reranker alternates two moves: *pull*
//! a candidate whose lower bound undercuts the best exactly-evaluated
//! distance so far, and *emit* the best exactly-evaluated candidate once no
//! held candidate can still undercut it.  The caller computes each exact
//! distance between a pull and the matching supply.
//!
//! The ordering guarantee: as long as every supplied exact distance is at
//! least the candidate's lower bound — which is what a sound quantization
//! promises — the emitted distances never decrease.

use vstd::prelude::*;

use crate::page::Store;
use crate::prefetcher::Prefetcher;
use crate::queue::MinQueue;
use crate::tuples::Tuple;
use crate::Distance;

verus! {

/// Where exact vectors for reranking come from: the index's own vector
/// chains, or the caller's row storage.
#[derive(Clone, Copy, PartialEq, Eq, Structural, Debug)]
pub enum RerankMethod {
    Index,
    Heap,
}

/// Reads the meta tuple and reports which reranking source the index was
/// built for.
pub fn how(store: &Store) -> (r: RerankMethod)
    requires
        store.pages@.len() > 0,
        store.pages@[0].spec_get(0) matches Some(Tuple::Meta(_)),
    ensures
        (match store.pages@[0].spec_get(0) {
            Some(Tuple::Meta(m)) => r == (if m.rerank_in_heap {
                RerankMethod::Heap
            } else {
                RerankMethod::Index
            }),
            _ => false,
        }),
{
    match store.get_tuple(0, 0) {
        Some(Tuple::Meta(m)) => {
            if m.rerank_in_heap {
                RerankMethod::Heap
            } else {
                RerankMethod::Index
            }
        },
        _ => {
            proof {
                assert(false);
            }
            RerankMethod::Index
        },
    }
}

/// The reranker over a prefetcher `P`: candidates pulled from `P` in lower
/// bound order, a cache of exactly evaluated candidates, and the ghost
/// record of the protocol.
///
/// `sound` tracks whether every exact distance supplied so far was at least
/// its candidate's lower bound; `last` is the last emitted distance; a
/// pulled candidate's lower bound is `pending` until its exact distance is
/// supplied or the candidate is skipped.
pub struct Reranker<P: Prefetcher, C> {
    pub prefetcher: P,
    pub cache: MinQueue<C>,
    pub pending: Ghost<Option<Distance>>,
    pub sound: Ghost<bool>,
    pub last: Ghost<Option<Distance>>,
}

impl<P: Prefetcher, C> Reranker<P, C> {
    /// The reranker's invariant: under a sound supply history, everything
    /// still held — cached or not yet pulled — is at least the last emitted
    /// distance, and so is a pending lower bound.
    pub open spec fn inv(self) -> bool {
        &&& self.prefetcher.wf()
        &&& (self.sound@ && self.last@ is Some ==> {
            &&& forall|j: int|
                0 <= j < self.cache.entries@.len() ==> (#[trigger] self.cache.entries@[j]).0
                    >= self.last@->0
            &&& forall|e: (Distance, P::Item)|
                #[trigger] self.prefetcher.items().count(e) > 0 ==> e.0 >= self.last@->0
            &&& (self.pending@ is Some ==> self.pending@->0 >= self.last@->0)
        })
    }

    /// No pull is outstanding.
    pub open spec fn ready(self) -> bool {
        self.pending@ is None
    }

    /// The prefetcher cannot undercut the cache any more: everything it
    /// still holds is at least some cached distance.
    pub open spec fn drained(self) -> bool {
        forall|e: (Distance, P::Item)|
            #[trigger] self.prefetcher.items().count(e) > 0 ==> exists|j: int|
                0 <= j < self.cache.entries@.len() && (#[trigger] self.cache.entries@[j]).0 <= e.0
    }

    /// Starts reranking over the given prefetcher.
    pub fn new(prefetcher: P) -> (r: Self)
        requires
            prefetcher.wf(),
        ensures
            r.inv(),
            r.ready(),
            r.sound@ == true,
            r.last@ is None,
            r.cache.entries@.len() == 0,
            r.prefetcher == prefetcher,
    {
        Reranker {
            prefetcher,
            cache: MinQueue::new(),
            pending: Ghost(None),
            sound: Ghost(true),
            last: Ghost(None),
        }
    }

    /// Pulls the next candidate whose lower bound undercuts the best cached
    /// exact distance.  Returns `None` when no held candidate can undercut
    /// the cache — the time to emit.
    pub fn pull(&mut self) -> (r: Option<(Distance, P::Item)>)
        requires
            old(self).inv(),
            old(self).ready(),
        ensures
            final(self).inv(),
            final(self).sound@ == old(self).sound@,
            final(self).last@ == old(self).last@,
            final(self).cache == old(self).cache,
            match r {
                Some(entry) => {
                    &&& final(self).pending@ == Some(entry.0)
                    &&& old(self).prefetcher.items().count(entry) > 0
                    &&& final(self).prefetcher.items() == old(self).prefetcher.items().remove(
                        entry,
                    )
                    &&& forall|e: (Distance, P::Item)|
                        #[trigger] old(self).prefetcher.items().count(e) > 0 ==> entry.0 <= e.0
                    &&& (old(self).cache.entries@.len() > 0 ==> exists|j: int|
                        0 <= j < old(self).cache.entries@.len() && (#[trigger] old(
                            self,
                        ).cache.entries@[j]).0 > entry.0)
                },
                None => {
                    &&& final(self).ready()
                    &&& final(self).prefetcher.items() == old(self).prefetcher.items()
                    &&& final(self).drained()
                },
            },
    {
        let bound = self.cache.peek_key();
        let ghost pre = *self;
        let r = self.prefetcher.pop_if(bound);
        match &r {
            Some(entry) => {
                proof {
                    self.pending@ = Some(entry.0);
                }
                proof {
                    if self.sound@ && self.last@ is Some {
                        assert forall|e: (Distance, P::Item)|
                            #[trigger] self.prefetcher.items().count(e) > 0 implies e.0
                            >= self.last@->0 by {
                            assert(pre.prefetcher.items().count(e) > 0);
                        }
                        assert(pre.prefetcher.items().count(*entry) > 0);
                    }
                }
            },
            None => {
                proof {
                    if pre.prefetcher.items().len() == 0 {
                        assert forall|e: (Distance, P::Item)|
                            #[trigger] self.prefetcher.items().count(e) > 0 implies exists|j: int|
                            0 <= j < self.cache.entries@.len() && (
                            #[trigger] self.cache.entries@[j]).0 <= e.0 by {
                            assert(self.prefetcher.items().len() >= self.prefetcher.items().count(
                                e,
                            )) by {
                                vstd::multiset::axiom_count_le_len(self.prefetcher.items(), e);
                            };
                        }
                    } else {
                        let b = bound->0;
                        let bi = choose|i: int|
                            0 <= i < self.cache.entries@.len() && (
                            #[trigger] self.cache.entries@[i]).0 == b;
                        assert forall|e: (Distance, P::Item)|
                            #[trigger] self.prefetcher.items().count(e) > 0 implies exists|j: int|
                            0 <= j < self.cache.entries@.len() && (
                            #[trigger] self.cache.entries@[j]).0 <= e.0 by {
                            assert(self.cache.entries@[bi].0 <= e.0);
                        }
                    }
                }
            },
        }
        r
    }

    /// Supplies the exact distance for the pulled candidate.
    pub fn supply(&mut self, payload: C, d: Distance)
        requires
            old(self).inv(),
            !old(self).ready(),
        ensures
            final(self).inv(),
            final(self).ready(),
            final(self).prefetcher == old(self).prefetcher,
            final(self).last@ == old(self).last@,
            final(self).cache.entries@ == old(self).cache.entries@.push((d, payload)),
            final(self).sound@ == (old(self).sound@ && d >= old(self).pending@->0),
    {
        self.cache.push(d, payload);
        proof {
            self.sound@ = self.sound@ && d >= self.pending@->0;
            self.pending@ = None;
        }
    }

    /// Drops the pulled candidate without evaluating it.
    pub fn skip(&mut self)
        requires
            old(self).inv(),
            !old(self).ready(),
        ensures
            final(self).inv(),
            final(self).ready(),
            final(self).prefetcher == old(self).prefetcher,
            final(self).cache == old(self).cache,
            final(self).sound@ == old(self).sound@,
            final(self).last@ == old(self).last@,
    {
        proof {
            self.pending@ = None;
        }
    }

    /// Emits the best exactly evaluated candidate.  Under a sound supply
    /// history the emitted distances never decrease.
    pub fn emit(&mut self) -> (r: Option<(Distance, C)>)
        requires
            old(self).inv(),
            old(self).ready(),
            old(self).drained(),
        ensures
            final(self).inv(),
            final(self).ready(),
            final(self).prefetcher == old(self).prefetcher,
            final(self).sound@ == old(self).sound@,
            match r {
                Some(entry) => {
                    &&& (old(self).sound@ && old(self).last@ is Some ==> entry.0 >= old(
                        self,
                    ).last@->0)
                    &&& final(self).last@ == Some(entry.0)
                    &&& exists|i: int|
                        {
                            &&& 0 <= i < old(self).cache.entries@.len()
                            &&& #[trigger] old(self).cache.entries@[i] == (entry.0, entry.1)
                            &&& final(self).cache.entries@ == old(self).cache.entries@.remove(i)
                        }
                },
                None => {
                    &&& old(self).cache.entries@.len() == 0
                    &&& final(self).cache.entries@ == old(self).cache.entries@
                    &&& final(self).last@ == old(self).last@
                },
            },
    {
        let ghost pre = *self;
        let r = self.cache.pop_min();
        match &r {
            Some(entry) => {
                proof {
                    self.last@ = Some(entry.0);
                }
                proof {
                    let i = choose|i: int|
                        {
                            &&& 0 <= i < pre.cache.entries@.len()
                            &&& #[trigger] pre.cache.entries@[i] == *entry
                            &&& self.cache.entries@ == pre.cache.entries@.remove(i)
                            &&& forall|j: int|
                                0 <= j < pre.cache.entries@.len() ==> (
                                #[trigger] pre.cache.entries@[j]).0 >= entry.0
                        };
                    pre.cache.entries@.remove_ensures(i);
                    if pre.sound@ && pre.last@ is Some {
                        assert(pre.cache.entries@[i].0 >= pre.last@->0);
                    }
                    if self.sound@ {
                        assert forall|j: int|
                            0 <= j < self.cache.entries@.len() implies (
                        #[trigger] self.cache.entries@[j]).0 >= self.last@->0 by {
                            if j < i {
                                assert(self.cache.entries@[j] == pre.cache.entries@[j]);
                            } else {
                                assert(self.cache.entries@[j] == pre.cache.entries@[j + 1]);
                            }
                        }
                        assert forall|e: (Distance, P::Item)|
                            #[trigger] self.prefetcher.items().count(e) > 0 implies e.0
                            >= self.last@->0 by {
                            let j = choose|j: int|
                                0 <= j < pre.cache.entries@.len() && (
                                #[trigger] pre.cache.entries@[j]).0 <= e.0;
                            assert(pre.cache.entries@[j].0 >= entry.0);
                        }
                    }
                }
            },
            None => {},
        }
        r
    }

    /// Hands back the remaining prefetcher and cache, letting the caller
    /// continue with unprocessed state.
    pub fn finish(self) -> (r: (P, MinQueue<C>))
        ensures
            r.0 == self.prefetcher,
            r.1 == self.cache,
    {
        (self.prefetcher, self.cache)
    }
}

} // verus!
