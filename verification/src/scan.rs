//! Hierarchical search.
//!
//! A search walks the centroid tree from the root down, keeping a beam of
//! `probes[level]` clusters per internal level: every batch tuple of a
//! cluster's chain is fast-scanned for lower bounds, and candidates are
//! promoted by exact centroid distance through the reranking state machine.
//! At the leaf level the surviving candidates are reranked by exact
//! distance — against the stored vector chains or the caller's rows — and
//! handed out in non-decreasing distance order.

use vstd::prelude::*;

use crate::kernel::SearchKernel;
use crate::packing::accumulate_block;
use crate::page::{Page, Store};
use crate::prefetcher::{Fetch, PlainPrefetcher, Prefetcher, SimplePrefetcher};
use crate::rerank::{Reranker, RerankMethod};
use crate::tuples::{copy_vec, Tuple, TuplePointer, BATCH, NO_PAGE};
use crate::vectors::read_vector;
use crate::Distance;
use crate::IndexError;

verus! {

/// How the search reads pages: one by one, or with a prefetch window.
#[derive(Clone, Copy, PartialEq, Eq, Structural, Debug)]
pub enum SearchIo {
    ReadBuffer,
    PrefetchBuffer,
}

/// A leaf candidate: the stored payload and the pointer to its vector
/// chain.
#[derive(Clone, Copy, PartialEq, Eq, Structural, Debug)]
pub struct LeafCandidate {
    pub payload: u64,
    pub mean: TuplePointer,
}

impl Fetch for LeafCandidate {
    open spec fn spec_fetch(&self) -> Seq<u32> {
        seq![self.mean.page]
    }

    fn fetch(&self) -> (r: Vec<u32>) {
        let mut r: Vec<u32> = Vec::new();
        r.push(self.mean.page);
        proof {
            assert(r@ =~= seq![self.mean.page]);
        }
        r
    }
}

/// Whether leaf slot `j` of the tuple at `(pid, slot)` is live and carries
/// `payload`.
pub open spec fn h0_slot_has(
    pages: Seq<Page>,
    pid: int,
    slot: int,
    j: int,
    payload: u64,
) -> bool {
    &&& 0 <= pid < pages.len()
    &&& 0 <= slot < pages[pid].slots@.len()
    &&& match pages[pid].slots@[slot] {
        Some(Tuple::H0(h)) => 0 <= j < BATCH && h.mask@[j] && h.payload@[j] == payload,
        _ => false,
    }
}

/// Whether some live leaf slot of the store carries `payload`.
pub open spec fn h0_has_payload(pages: Seq<Page>, payload: u64) -> bool {
    exists|pid: int, slot: int, j: int| #[trigger] h0_slot_has(pages, pid, slot, j, payload)
}

/// A full leaf entry: leaf slot `j` of the tuple at `(pid, slot)` is live,
/// carries `payload`, and points at the vector chain head `mean`.
pub open spec fn h0_slot_entry(
    pages: Seq<Page>,
    pid: int,
    slot: int,
    j: int,
    payload: u64,
    mean: TuplePointer,
) -> bool {
    &&& 0 <= pid < pages.len()
    &&& 0 <= slot < pages[pid].slots@.len()
    &&& match pages[pid].slots@[slot] {
        Some(Tuple::H0(h)) => 0 <= j < BATCH && h.mask@[j] && h.payload@[j] == payload
            && h.mean@[j] == mean,
        _ => false,
    }
}

/// Whether some returned result carries the payload.
pub open spec fn payload_in(results: Seq<(Distance, u64)>, p: u64) -> bool {
    exists|k: int| 0 <= k < results.len() && (#[trigger] results[k]).1 == p
}

/// A leaf candidate whose vector chain is present, readable and marked
/// with the candidate's own payload: exactly the candidates the
/// index-source rerank is guaranteed to evaluate rather than skip.
pub open spec fn candidate_readable(pages: Seq<Page>, c: LeafCandidate) -> bool {
    &&& crate::vectors::vector_at(pages, c.mean, Some(c.payload))
    &&& crate::vectors::chain_elems(pages, c.mean, crate::vectors::chain_fuel()) matches Some(_)
}

/// Collects the scored leaf candidates of one leaf chain: every live slot
/// of every batch tuple, scored by its fast-scan lower bound.
fn collect_leaf_chain<K: SearchKernel>(
    store: &Store,
    kernel: &K,
    first: u32,
    lut: &Vec<u8>,
    results: &mut Vec<(Distance, LeafCandidate)>,
) -> (r: Result<(), IndexError>)
    requires
        store.wf(),
        first == NO_PAGE || first < store.pages@.len(),
        forall|k: int|
            0 <= k < old(results)@.len() ==> h0_has_payload(
                store.pages@,
                (#[trigger] old(results)@[k]).1.payload,
            ),
    ensures
        forall|k: int|
            0 <= k < final(results)@.len() ==> h0_has_payload(
                store.pages@,
                (#[trigger] final(results)@[k]).1.payload,
            ),
{
    let mut current = first;
    loop
        invariant
            store.wf(),
            forall|k: int|
                0 <= k < results@.len() ==> h0_has_payload(
                    store.pages@,
                    (#[trigger] results@[k]).1.payload,
                ),
            current == NO_PAGE || current < store.pages@.len(),
        decreases (if current == NO_PAGE { 0int } else { store.pages@.len() - current }),
    {
        if current == NO_PAGE {
            return Ok(());
        }
        let n = store.slot_count(current);
        for slot in 0..n
            invariant
                store.wf(),
                current < store.pages@.len(),
                n == store.pages@[current as int].spec_len(),
                forall|k: int|
                    0 <= k < results@.len() ==> h0_has_payload(
                        store.pages@,
                        (#[trigger] results@[k]).1.payload,
                    ),
        {
            match store.get_tuple(current, slot) {
                Some(Tuple::H0(h)) => {
                    proof {
                        assert(store.pages@[current as int].wf());
                        assert(crate::tuples::tuple_wf(
                            store.pages@[current as int].slots@[slot as int]->Some_0,
                        ));
                    }
                    if h.t.len() % 2 != 0 {
                        return Err(IndexError::DataCorruption);
                    }
                    let groups = h.t.len() / 2;
                    if groups > 16384 || lut.len() != 16 * groups {
                        return Err(IndexError::DataCorruption);
                    }
                    let accum = accumulate_block(&h.t, lut, groups);
                    for j in 0..BATCH
                        invariant
                            store.wf(),
                            current < store.pages@.len(),
                            slot < store.pages@[current as int].spec_len(),
                            store.pages@[current as int].spec_get(slot as int) == Some(
                                Tuple::H0(*h),
                            ),
                            h.mask@.len() == BATCH,
                            h.mean@.len() == BATCH,
                            h.payload@.len() == BATCH,
                            h.metas@.len() == BATCH,
                            accum@.len() == BATCH,
                            forall|k: int|
                                0 <= k < results@.len() ==> h0_has_payload(
                                    store.pages@,
                                    (#[trigger] results@[k]).1.payload,
                                ),
                    {
                        if h.mask[j] {
                            let lb = kernel.lower_bound(&h.metas[j], accum[j]);
                            let cand = LeafCandidate { payload: h.payload[j], mean: h.mean[j] };
                            proof {
                                assert(h0_slot_has(
                                    store.pages@,
                                    current as int,
                                    slot as int,
                                    j as int,
                                    cand.payload,
                                ));
                            }
                            results.push((lb, cand));
                        }
                    }
                },
                _ => {
                    return Err(IndexError::DataCorruption);
                },
            }
        }
        let nxt = store.opaque_of(current).next;
        proof {
            if nxt != NO_PAGE {
                assert(current < nxt < store.pages@.len());
            }
        }
        current = nxt;
    }
}

/// Reranks collected leaf candidates by exact distance, emitting payloads
/// in non-decreasing distance order as long as the kernel's exact
/// distances respect the lower bounds it handed out.  With the index as
/// the vector source, every candidate whose stored vector is readable and
/// carries the candidate's own payload is evaluated and emitted; a
/// candidate whose stored payload mismatches is skipped without error.
pub fn rerank_leaf<K: SearchKernel, P: Prefetcher<Item = LeafCandidate>>(
    store: &Store,
    kernel: &K,
    prefetcher: P,
    method: RerankMethod,
) -> (r: Result<(Vec<(Distance, u64)>, Ghost<bool>), IndexError>)
    requires
        store.wf(),
        prefetcher.wf(),
        forall|e: (Distance, LeafCandidate)|
            #[trigger] prefetcher.items().count(e) > 0 ==> h0_has_payload(
                store.pages@,
                e.1.payload,
            ),
    ensures
        match r {
            Ok(out) => {
                &&& forall|k: int|
                    0 <= k < out.0@.len() ==> h0_has_payload(
                        store.pages@,
                        (#[trigger] out.0@[k]).1,
                    )
                &&& (out.1@ ==> forall|i: int, j: int|
                    0 <= i <= j < out.0@.len() ==> (#[trigger] out.0@[i]).0 <= (
                    #[trigger] out.0@[j]).0)
                &&& (method == RerankMethod::Index ==> forall|e: (Distance, LeafCandidate)|
                    (#[trigger] prefetcher.items().count(e) > 0 && candidate_readable(
                        store.pages@,
                        e.1,
                    )) ==> payload_in(out.0@, e.1.payload))
            },
            Err(e) => e == IndexError::DataCorruption,
        },
{
    let ghost pf0 = prefetcher;
    let ghost items0 = pf0.items();
    let mut rr = Reranker::<P, u64>::new(prefetcher);
    let mut out: Vec<(Distance, u64)> = Vec::new();
    loop
        invariant
            store.wf(),
            rr.inv(),
            rr.ready(),
            method == RerankMethod::Index ==> forall|e: (Distance, LeafCandidate)|
                (#[trigger] items0.count(e) > 0 && candidate_readable(store.pages@, e.1)) ==> (
                rr.prefetcher.items().count(e) > 0 || (exists|j: int|
                    0 <= j < rr.cache.entries@.len() && (#[trigger] rr.cache.entries@[j]).1
                        == e.1.payload) || payload_in(out@, e.1.payload)),
            forall|e: (Distance, LeafCandidate)|
                #[trigger] rr.prefetcher.items().count(e) > 0 ==> h0_has_payload(
                    store.pages@,
                    e.1.payload,
                ),
            forall|j: int|
                0 <= j < rr.cache.entries@.len() ==> h0_has_payload(
                    store.pages@,
                    (#[trigger] rr.cache.entries@[j]).1,
                ),
            forall|k: int|
                0 <= k < out@.len() ==> h0_has_payload(store.pages@, (#[trigger] out@[k]).1),
            rr.sound@ ==> {
                &&& forall|i: int, j: int|
                    0 <= i <= j < out@.len() ==> (#[trigger] out@[i]).0 <= (#[trigger] out@[j]).0
                &&& (out@.len() == 0 ==> rr.last@ is None)
                &&& (out@.len() > 0 ==> rr.last@ == Some(out@[out@.len() - 1].0))
            },
        ensures
            forall|k: int|
                0 <= k < out@.len() ==> h0_has_payload(store.pages@, (#[trigger] out@[k]).1),
            rr.sound@ ==> forall|i: int, j: int|
                0 <= i <= j < out@.len() ==> (#[trigger] out@[i]).0 <= (#[trigger] out@[j]).0,
            method == RerankMethod::Index ==> forall|e: (Distance, LeafCandidate)|
                (#[trigger] items0.count(e) > 0 && candidate_readable(store.pages@, e.1))
                    ==> payload_in(out@, e.1.payload),
        decreases 2 * rr.prefetcher.items().len() + rr.cache.entries@.len(),
    {
        proof {
            broadcast use vstd::multiset::group_multiset_axioms;

        }
        let ghost pre_pull = rr;
        let pulled = rr.pull();
        match pulled {
            Some((lb, cand)) => {
                let ghost entry = (lb, cand);
                let evaluated: Option<Distance> = match method {
                    RerankMethod::Index => {
                        match read_vector(store, cand.mean) {
                            Ok((v, vpayload)) => {
                                if vpayload == Some(cand.payload) {
                                    Some(kernel.exact(&v))
                                } else {
                                    proof {
                                        assert(!candidate_readable(store.pages@, entry.1));
                                    }
                                    None
                                }
                            },
                            Err(_) => {
                                proof {
                                    assert(!candidate_readable(store.pages@, entry.1));
                                }
                                None
                            },
                        }
                    },
                    RerankMethod::Heap => kernel.exact_by_payload(cand.payload),
                };
                match evaluated {
                    Some(d) => {
                        rr.supply(cand.payload, d);
                        proof {
                            if method == RerankMethod::Index {
                                assert forall|e: (Distance, LeafCandidate)|
                                    (#[trigger] items0.count(e) > 0 && candidate_readable(
                                        store.pages@,
                                        e.1,
                                    )) implies (rr.prefetcher.items().count(e) > 0 || (exists|
                                    j: int,
                                |
                                    0 <= j < rr.cache.entries@.len() && (
                                    #[trigger] rr.cache.entries@[j]).1 == e.1.payload)
                                    || payload_in(out@, e.1.payload)) by {
                                    if e == entry {
                                        let j = rr.cache.entries@.len() - 1;
                                        assert(rr.cache.entries@[j].1 == e.1.payload);
                                    } else {
                                        if pre_pull.prefetcher.items().count(e) > 0 {
                                            assert(rr.prefetcher.items().count(e) > 0);
                                        } else if exists|j: int|
                                            0 <= j < pre_pull.cache.entries@.len() && (
                                            #[trigger] pre_pull.cache.entries@[j]).1
                                                == e.1.payload {
                                            let j = choose|j: int|
                                                0 <= j < pre_pull.cache.entries@.len() && (
                                                #[trigger] pre_pull.cache.entries@[j]).1
                                                    == e.1.payload;
                                            assert(rr.cache.entries@[j].1 == e.1.payload);
                                        }
                                    }
                                }
                            }
                        }
                    },
                    None => {
                        rr.skip();
                        proof {
                            if method == RerankMethod::Index {
                                assert forall|e: (Distance, LeafCandidate)|
                                    (#[trigger] items0.count(e) > 0 && candidate_readable(
                                        store.pages@,
                                        e.1,
                                    )) implies (rr.prefetcher.items().count(e) > 0 || (exists|
                                    j: int,
                                |
                                    0 <= j < rr.cache.entries@.len() && (
                                    #[trigger] rr.cache.entries@[j]).1 == e.1.payload)
                                    || payload_in(out@, e.1.payload)) by {
                                    if e == entry {
                                        assert(false);
                                    } else {
                                        if pre_pull.prefetcher.items().count(e) > 0 {
                                            assert(rr.prefetcher.items().count(e) > 0);
                                        } else if exists|j: int|
                                            0 <= j < pre_pull.cache.entries@.len() && (
                                            #[trigger] pre_pull.cache.entries@[j]).1
                                                == e.1.payload {
                                            let j = choose|j: int|
                                                0 <= j < pre_pull.cache.entries@.len() && (
                                                #[trigger] pre_pull.cache.entries@[j]).1
                                                    == e.1.payload;
                                            assert(rr.cache.entries@[j].1 == e.1.payload);
                                        }
                                    }
                                }
                            }
                        }
                    },
                }
            },
            None => {
                let ghost pre = rr;
                let emitted = rr.emit();
                match emitted {
                    Some((d, payload)) => {
                        proof {
                            let i = choose|i: int|
                                {
                                    &&& 0 <= i < pre.cache.entries@.len()
                                    &&& #[trigger] pre.cache.entries@[i] == (d, payload)
                                    &&& rr.cache.entries@ == pre.cache.entries@.remove(i)
                                };
                            pre.cache.entries@.remove_ensures(i);
                            assert(h0_has_payload(store.pages@, payload));
                            assert forall|j: int|
                                0 <= j < rr.cache.entries@.len() implies h0_has_payload(
                                store.pages@,
                                (#[trigger] rr.cache.entries@[j]).1,
                            ) by {
                                if j < i {
                                    assert(rr.cache.entries@[j] == pre.cache.entries@[j]);
                                } else {
                                    assert(rr.cache.entries@[j] == pre.cache.entries@[j + 1]);
                                }
                            }
                        }
                        let ghost out0 = out@;
                        out.push((d, payload));
                        proof {
                            let i = choose|i: int|
                                {
                                    &&& 0 <= i < pre.cache.entries@.len()
                                    &&& #[trigger] pre.cache.entries@[i] == (d, payload)
                                    &&& rr.cache.entries@ == pre.cache.entries@.remove(i)
                                };
                            pre.cache.entries@.remove_ensures(i);
                            if method == RerankMethod::Index {
                                assert forall|e: (Distance, LeafCandidate)|
                                    (#[trigger] items0.count(e) > 0 && candidate_readable(
                                        store.pages@,
                                        e.1,
                                    )) implies (rr.prefetcher.items().count(e) > 0 || (exists|
                                    j: int,
                                |
                                    0 <= j < rr.cache.entries@.len() && (
                                    #[trigger] rr.cache.entries@[j]).1 == e.1.payload)
                                    || payload_in(out@, e.1.payload)) by {
                                    if exists|j: int|
                                        0 <= j < pre.cache.entries@.len() && (
                                        #[trigger] pre.cache.entries@[j]).1 == e.1.payload {
                                        let j = choose|j: int|
                                            0 <= j < pre.cache.entries@.len() && (
                                            #[trigger] pre.cache.entries@[j]).1 == e.1.payload;
                                        if j == i {
                                            assert(out@[out@.len() - 1].1 == e.1.payload);
                                            assert(payload_in(out@, e.1.payload));
                                        } else if j < i {
                                            assert(rr.cache.entries@[j] == pre.cache.entries@[j]);
                                        } else {
                                            assert(rr.cache.entries@[j - 1]
                                                == pre.cache.entries@[j]);
                                        }
                                    } else if payload_in(out0, e.1.payload) {
                                        let k = choose|k: int|
                                            0 <= k < out0.len() && (#[trigger] out0[k]).1
                                                == e.1.payload;
                                        assert(out@[k].1 == e.1.payload);
                                        assert(payload_in(out@, e.1.payload));
                                    }
                                }
                            }
                        }
                    },
                    None => {
                        proof {
                            if method == RerankMethod::Index {
                                assert(pre.drained());
                                assert forall|e: (Distance, LeafCandidate)|
                                    (#[trigger] items0.count(e) > 0 && candidate_readable(
                                        store.pages@,
                                        e.1,
                                    )) implies payload_in(out@, e.1.payload) by {
                                    if pre.prefetcher.items().count(e) > 0 {
                                        // drained with an empty cache holds nothing
                                        let j = choose|j: int|
                                            0 <= j < pre.cache.entries@.len() && (
                                            #[trigger] pre.cache.entries@[j]).0 <= e.0;
                                        assert(false);
                                    }
                                }
                            }
                        }
                        break ;
                    },
                }
            },
        }
    }
    proof {
        if method == RerankMethod::Index {
            assert forall|e: (Distance, LeafCandidate)|
                (#[trigger] prefetcher.items().count(e) > 0 && candidate_readable(
                    store.pages@,
                    e.1,
                )) implies payload_in(out@, e.1.payload) by {
                assert(items0.count(e) > 0);
            }
        }
    }
    Ok((out, Ghost(rr.sound@)))
}

/// Searches the index: descends the centroid tree with the given per-level
/// beam widths, then reranks the leaf candidates.  Returns `(distance,
/// payload)` pairs; every returned payload is carried by a live leaf slot
/// of the store, and under a sound kernel the distances are non-decreasing.
pub fn scan<K: SearchKernel>(
    store: &Store,
    kernel: &K,
    probes: &Vec<u32>,
    method: RerankMethod,
    io: SearchIo,
) -> (r: Result<(Vec<(Distance, u64)>, Ghost<bool>), IndexError>)
    requires
        store.wf(),
    ensures
        match r {
            Ok(out) => {
                &&& forall|k: int|
                    0 <= k < out.0@.len() ==> h0_has_payload(
                        store.pages@,
                        (#[trigger] out.0@[k]).1,
                    )
                &&& (out.1@ ==> forall|i: int, j: int|
                    0 <= i <= j < out.0@.len() ==> (#[trigger] out.0@[i]).0 <= (
                    #[trigger] out.0@[j]).0)
            },
            Err(_) => true,
        },
        store.pages@.len() == 0 ==> r is Err,
        store.pages@.len() > 0 && !(store.pages@[0].spec_get(0) matches Some(Tuple::Meta(_)))
            ==> r is Err,
        (match (if store.pages@.len() > 0 {
            store.pages@[0].spec_get(0)
        } else {
            None
        }) {
            Some(Tuple::Meta(m)) => probes@.len() + 1 != m.height_of_root ==> r is Err,
            _ => true,
        }),
{
    if store.page_count() == 0 {
        return Err(IndexError::DataCorruption);
    }
    let meta = match store.get_tuple(0, 0) {
        Some(Tuple::Meta(m)) => *m,
        _ => {
            return Err(IndexError::DataCorruption);
        },
    };
    if meta.height_of_root == 0 || probes.len() > 7 || probes.len() + 1
        != meta.height_of_root as usize {
        return Err(IndexError::InvalidInput);
    }
    if kernel.dims() != meta.dims {
        return Err(IndexError::InvalidInput);
    }
    let is_residual = meta.is_residual;
    let root_center: Option<Vec<u32>> = if is_residual {
        match read_vector(store, meta.root_mean) {
            Ok((v, _)) => Some(v),
            Err(e) => {
                return Err(e);
            },
        }
    } else {
        None
    };
    let default_lut: Vec<u8> = kernel.lut(None);
    let mut lists: Vec<(u32, Option<Vec<u32>>)> = Vec::new();
    lists.push((meta.root_first, root_center));
    let height = meta.height_of_root;
    let mut level = height;
    while level > 1
        invariant
            store.wf(),
            level >= 1,
            probes@.len() + 1 == height,
            level <= height,
        decreases level,
    {
        let probes_at = probes[(level - 2) as usize];
        lists =
        match make_level_lists(store, kernel, lists, probes_at, is_residual, &default_lut) {
            Ok(ls) => ls,
            Err(e) => {
                return Err(e);
            },
        };
        level = level - 1;
    }
    // the remaining lists name leaf clusters through their jump tuples
    let mut leaf_results: Vec<(Distance, LeafCandidate)> = Vec::new();
    let n_lists = lists.len();
    for li in 0..n_lists
        invariant
            store.wf(),
            n_lists == lists@.len(),
            forall|k: int|
                0 <= k < leaf_results@.len() ==> h0_has_payload(
                    store.pages@,
                    (#[trigger] leaf_results@[k]).1.payload,
                ),
    {
        let (jump_page, center) = &lists[li];
        let lut: Vec<u8> = if is_residual {
            match center {
                Some(c) => kernel.lut(Some(c)),
                None => {
                    return Err(IndexError::DataCorruption);
                },
            }
        } else {
            copy_vec(&default_lut)
        };
        if *jump_page == NO_PAGE || *jump_page as usize >= store.page_count() {
            return Err(IndexError::DataCorruption);
        }
        let h0_first = match store.get_tuple(*jump_page, 0) {
            Some(Tuple::Jump(j)) => j.first,
            _ => {
                return Err(IndexError::DataCorruption);
            },
        };
        if h0_first != NO_PAGE && h0_first as usize >= store.page_count() {
            return Err(IndexError::DataCorruption);
        }
        match collect_leaf_chain(store, kernel, h0_first, &lut, &mut leaf_results) {
            Ok(()) => {},
            Err(e) => {
                return Err(e);
            },
        }
    }
    match io {
        SearchIo::ReadBuffer => {
            let prefetcher = PlainPrefetcher::new(leaf_results);
            proof {
                broadcast use vstd::seq_lib::group_to_multiset_ensures;

            }
            rerank_leaf(store, kernel, prefetcher, method)
        },
        SearchIo::PrefetchBuffer => {
            let prefetcher = SimplePrefetcher::new(leaf_results);
            proof {
                broadcast use vstd::seq_lib::group_to_multiset_ensures;

            }
            rerank_leaf(store, kernel, prefetcher, method)
        },
    }
}

/// Cuts a sorted result list to the caller's bounds: keeps the longest
/// prefix whose distances stay below the radius, capped at the scan
/// budget; exactly one of "everything kept", "budget reached" or "radius
/// reached" explains where it stops.
pub fn truncate_results(
    results: Vec<(Distance, u64)>,
    radius: Option<Distance>,
    max_scan: Option<usize>,
) -> (r: Vec<(Distance, u64)>)
    ensures
        exists|n: int|
            {
                &&& 0 <= n <= results@.len()
                &&& r@ == #[trigger] results@.take(n)
                &&& (forall|i: int|
                    0 <= i < n ==> (radius matches Some(b) ==> (#[trigger] results@[i]).0 < b))
                &&& (max_scan matches Some(m) ==> n <= m)
                &&& (n < results@.len() ==> ((max_scan matches Some(m) && n == m) || (
                radius matches Some(b) && results@[n as int].0 >= b)))
            },
{
    let mut r: Vec<(Distance, u64)> = Vec::new();
    let total = results.len();
    for n in 0..total
        invariant
            total == results@.len(),
            r@ == results@.take(n as int),
            forall|i: int|
                0 <= i < n ==> (radius matches Some(b) ==> (#[trigger] results@[i]).0 < b),
            max_scan matches Some(m) ==> n <= m,
    {
        match max_scan {
            Some(m) => {
                if n >= m {
                    proof {
                        assert(r@ == results@.take(n as int));
                    }
                    return r;
                }
            },
            None => {},
        }
        let (d, p) = results[n];
        match radius {
            Some(b) => {
                if d >= b {
                    return r;
                }
            },
            None => {},
        }
        r.push((d, p));
        proof {
            assert(r@ =~= results@.take(n + 1));
        }
    }
    proof {
        assert(r@ == results@.take(total as int));
    }
    r
}

/// Expands one internal level: fast-scans the chains of the current beam,
/// then promotes up to `probes_at` children by exact centroid distance.
pub(crate) fn make_level_lists<K: SearchKernel>(
    store: &Store,
    kernel: &K,
    lists: Vec<(u32, Option<Vec<u32>>)>,
    probes_at: u32,
    is_residual: bool,
    default_lut: &Vec<u8>,
) -> (r: Result<Vec<(u32, Option<Vec<u32>>)>, IndexError>)
    requires
        store.wf(),
{
    let mut results: Vec<(Distance, (TuplePointer, u32))> = Vec::new();
    let n_lists = lists.len();
    for li in 0..n_lists
        invariant
            store.wf(),
            n_lists == lists@.len(),
    {
        let (first, center) = &lists[li];
        let lut: Vec<u8> = if is_residual {
            match center {
                Some(c) => kernel.lut(Some(c)),
                None => {
                    return Err(IndexError::DataCorruption);
                },
            }
        } else {
            copy_vec(default_lut)
        };
        let mut current = *first;
        if current != NO_PAGE && current as usize >= store.page_count() {
            return Err(IndexError::DataCorruption);
        }
        loop
            invariant
                store.wf(),
                current == NO_PAGE || current < store.pages@.len(),
            decreases (if current == NO_PAGE { 0int } else { store.pages@.len() - current }),
        {
            if current == NO_PAGE {
                break ;
            }
            let n = store.slot_count(current);
            for slot in 0..n
                invariant
                    store.wf(),
                    current < store.pages@.len(),
                    n == store.pages@[current as int].spec_len(),
            {
                match store.get_tuple(current, slot) {
                    Some(Tuple::H1(h)) => {
                        proof {
                            assert(store.pages@[current as int].wf());
                            assert(crate::tuples::tuple_wf(
                                store.pages@[current as int].slots@[slot as int]->Some_0,
                            ));
                        }
                        if h.t.len() % 2 != 0 {
                            return Err(IndexError::DataCorruption);
                        }
                        let groups = h.t.len() / 2;
                        if groups > 16384 || lut.len() != 16 * groups {
                            return Err(IndexError::DataCorruption);
                        }
                        let accum = accumulate_block(&h.t, &lut, groups);
                        for j in 0..BATCH
                            invariant
                                store.wf(),
                                current < store.pages@.len(),
                                h.mask@.len() == BATCH,
                                h.mean@.len() == BATCH,
                                h.first@.len() == BATCH,
                                h.metas@.len() == BATCH,
                                accum@.len() == BATCH,
                        {
                            if h.mask[j] {
                                let lb = kernel.lower_bound(&h.metas[j], accum[j]);
                                results.push((lb, (h.mean[j], h.first[j])));
                            }
                        }
                    },
                    _ => {
                        return Err(IndexError::DataCorruption);
                    },
                }
            }
            let nxt = store.opaque_of(current).next;
            proof {
                if nxt != NO_PAGE {
                    assert(current < nxt < store.pages@.len());
                }
            }
            current = nxt;
        }
    }
    // promote by exact centroid distance
    let prefetcher = PlainPrefetcher::new(results);
    let mut rr = Reranker::<PlainPrefetcher<(TuplePointer, u32)>, (u32, Option<Vec<u32>>)>::new(
        prefetcher,
    );
    let mut out: Vec<(u32, Option<Vec<u32>>)> = Vec::new();
    loop
        invariant
            store.wf(),
            rr.inv(),
            rr.ready(),
            out@.len() <= probes_at,
        decreases 2 * rr.prefetcher.items().len() + rr.cache.entries@.len(),
    {
        proof {
            broadcast use vstd::multiset::group_multiset_axioms;

        }
        if out.len() >= probes_at as usize {
            return Ok(out);
        }
        let pulled = rr.pull();
        match pulled {
            Some((_lb, (mean, child_first))) => {
                match read_vector(store, mean) {
                    Ok((v, _)) => {
                        let d = kernel.exact(&v);
                        let kept: Option<Vec<u32>> = if is_residual {
                            Some(v)
                        } else {
                            None
                        };
                        rr.supply((child_first, kept), d);
                    },
                    Err(e) => {
                        return Err(e);
                    },
                }
            },
            None => {
                let emitted = rr.emit();
                match emitted {
                    Some((_, entry)) => {
                        out.push(entry);
                    },
                    None => {
                        return Ok(out);
                    },
                }
            },
        }
    }
}

} // verus!
