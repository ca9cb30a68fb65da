//! Vacuum: two-pass removal of dead rows.
//!
//! The first pass sweeps every leaf batch tuple of the store, clearing
//! every slot whose payload the caller declared dead while keeping the
//! numbering and contents of live slots.  The second pass walks the
//! vectors tape and frees every vector tuple of a dead row, reporting the
//! pages that became entirely empty so the caller can recycle them through
//! the freepage allocator.

use vstd::prelude::*;

use crate::page::{chain_nth, lemma_chain_congruence, lemma_chain_in_range, Page, Store};
use crate::tuples::{copy_vec, H0Tuple, Tuple, BATCH, NO_PAGE};
use crate::IndexError;

verus! {

/// The set of payloads a vacuum is asked to remove.
pub struct DeadSet {
    pub dead: Vec<u64>,
}

impl DeadSet {
    /// Builds the set from a list of payloads.
    pub fn new(dead: Vec<u64>) -> (r: DeadSet)
        ensures
            r.dead@ == dead@,
    {
        DeadSet { dead }
    }

    /// Whether `p` is to be removed.
    pub fn is_dead(&self, p: u64) -> (r: bool)
        ensures
            r == self.dead@.contains(p),
    {
        let n = self.dead.len();
        for i in 0..n
            invariant
                n == self.dead@.len(),
                forall|j: int| 0 <= j < i ==> self.dead@[j] != p,
        {
            if self.dead[i] == p {
                return true;
            }
        }
        false
    }
}

/// A leaf batch tuple is clean when none of its live slots carries a dead
/// payload.
pub open spec fn h0_clean(t: H0Tuple, dead: Seq<u64>) -> bool {
    forall|j: int| 0 <= j < BATCH && t.mask@[j] ==> !dead.contains(#[trigger] t.payload@[j])
}

/// A page is leaf-clean when each of its leaf batch tuples is clean.
pub open spec fn page_h0_clean(pg: Page, dead: Seq<u64>) -> bool {
    forall|slot: int|
        0 <= slot < pg.slots@.len() ==> match #[trigger] pg.slots@[slot] {
            Some(Tuple::H0(h)) => h0_clean(h, dead),
            _ => true,
        }
}

/// A page is vector-clean when none of its vector tuples carries a dead
/// payload.
pub open spec fn page_vec_clean(pg: Page, dead: Seq<u64>) -> bool {
    forall|slot: int|
        0 <= slot < pg.slots@.len() ==> match #[trigger] pg.slots@[slot] {
            Some(Tuple::Vector(v)) => match v.payload {
                Some(p) => !dead.contains(p),
                None => true,
            },
            _ => true,
        }
}

/// The exact effect of the leaf sweep on one tuple: dead slots lose their
/// mask bit, everything else — live bits, payloads, pointers, metadata and
/// the code block — stays.
pub open spec fn h0_swept(before: H0Tuple, after: H0Tuple, dead: Seq<u64>) -> bool {
    &&& after.mask@.len() == before.mask@.len()
    &&& forall|j: int|
        0 <= j < BATCH ==> #[trigger] after.mask@[j] == (before.mask@[j] && !dead.contains(
            before.payload@[j],
        ))
    &&& after.mean@ == before.mean@
    &&& after.payload@ == before.payload@
    &&& after.metas@ == before.metas@
    &&& after.t@ == before.t@
}

/// The exact effect of the whole vacuum on one slot: a leaf batch tuple is
/// swept, a vector tuple of a dead row is freed, everything else stays.
pub open spec fn slot_swept(before: Option<Tuple>, after: Option<Tuple>, dead: Seq<u64>) -> bool {
    match before {
        Some(Tuple::H0(h)) => match after {
            Some(Tuple::H0(h2)) => h0_swept(h, h2, dead),
            _ => false,
        },
        Some(Tuple::Vector(v)) => after == before || (match v.payload {
            Some(p) => dead.contains(p) && after is None,
            None => false,
        }),
        _ => after == before,
    }
}

/// Clears the dead slots of one leaf batch tuple, keeping everything else.
fn h0_sweep(h: &H0Tuple, dead: &DeadSet) -> (r: H0Tuple)
    requires
        crate::tuples::tuple_wf(Tuple::H0(*h)),
    ensures
        crate::tuples::tuple_wf(Tuple::H0(r)),
        h0_swept(*h, r, dead.dead@),
        h0_clean(r, dead.dead@),
{
    let mut mask: Vec<bool> = Vec::new();
    for j in 0..BATCH
        invariant
            crate::tuples::tuple_wf(Tuple::H0(*h)),
            mask@.len() == j,
            forall|k: int|
                0 <= k < j ==> #[trigger] mask@[k] == (h.mask@[k] && !dead.dead@.contains(
                    h.payload@[k],
                )),
    {
        let keep = h.mask[j] && !dead.is_dead(h.payload[j]);
        proof {
            assert(keep == (h.mask@[j as int] && !dead.dead@.contains(h.payload@[j as int])));
        }
        let ghost mprev = mask@;
        mask.push(keep);
        proof {
            assert forall|k: int|
                0 <= k < j + 1 implies #[trigger] mask@[k] == (h.mask@[k]
                && !dead.dead@.contains(h.payload@[k])) by {
                if k < j {
                    assert(mask@[k] == mprev[k]);
                    assert(mprev[k] == (h.mask@[k] && !dead.dead@.contains(h.payload@[k])));
                } else {
                    assert(mask@[k] == keep);
                }
            }
        }
    }
    let r = H0Tuple {
        mask,
        mean: copy_vec(&h.mean),
        payload: copy_vec(&h.payload),
        metas: copy_vec(&h.metas),
        t: copy_vec(&h.t),
    };
    r
}

/// First pass: sweeps every leaf batch tuple of the store.  Afterwards
/// every slot holds exactly what the sweep prescribes — dead leaf entries
/// cleared, everything else untouched — so no live leaf slot anywhere
/// carries a dead payload.
pub fn sweep_leaf_slots(store: &mut Store, dead: &DeadSet)
    requires
        old(store).wf(),
    ensures
        final(store).wf(),
        final(store).pages@.len() == old(store).pages@.len(),
        forall|pid: int|
            0 <= pid < old(store).pages@.len() ==> (#[trigger] final(store).pages@[pid]).opaque
                == old(store).pages@[pid].opaque,
        forall|pid: int|
            0 <= pid < old(store).pages@.len() ==> (#[trigger] final(store).pages@[pid].slots@).len() == old(store).pages@[pid].slots@.len(),
        forall|pid: int, slot: int|
            0 <= pid < old(store).pages@.len() && 0 <= slot < old(store).pages@[pid].slots@.len()
                ==> (match #[trigger] old(store).pages@[pid].slots@[slot] {
                Some(Tuple::H0(h)) => final(store).pages@[pid].slots@[slot] matches Some(
                    Tuple::H0(h2),
                ) && h0_swept(h, h2, dead.dead@),
                _ => final(store).pages@[pid].slots@[slot] == old(
                    store,
                ).pages@[pid].slots@[slot],
            }),
        forall|pid: int|
            0 <= pid < final(store).pages@.len() ==> page_h0_clean(
                #[trigger] final(store).pages@[pid],
                dead.dead@,
            ),
{
    let ghost pages0 = old(store).pages@;
    let count = store.page_count();
    for pid in 0..count
        invariant
            store.wf(),
            pages0 == old(store).pages@,
            count == pages0.len(),
            store.pages@.len() == pages0.len(),
            forall|i: int|
                0 <= i < pages0.len() ==> (#[trigger] store.pages@[i]).opaque == pages0[i].opaque,
            forall|i: int|
                0 <= i < pages0.len() ==> (#[trigger] store.pages@[i].slots@).len()
                    == pages0[i].slots@.len(),
            forall|i: int| pid <= i < pages0.len() ==> #[trigger] store.pages@[i] == pages0[i],
            forall|i: int, slot: int|
                0 <= i < pid && 0 <= slot < pages0[i].slots@.len() ==> (
                match #[trigger] pages0[i].slots@[slot] {
                    Some(Tuple::H0(h)) => store.pages@[i].slots@[slot] matches Some(Tuple::H0(h2))
                        && h0_swept(h, h2, dead.dead@),
                    _ => store.pages@[i].slots@[slot] == pages0[i].slots@[slot],
                }),
    {
        let n = store.slot_count(pid as u32);
        let ghost snap = store.pages@;
        let mut slot: usize = 0;
        while slot < n
            invariant
                store.wf(),
                pid < count == pages0.len(),
                store.pages@.len() == snap.len() == pages0.len(),
                n == store.pages@[pid as int].spec_len(),
                n == snap[pid as int].spec_len(),
                snap[pid as int] == pages0[pid as int],
                forall|i: int| 0 <= i < snap.len() && i != pid ==> store.pages@[i] == snap[i],
                forall|i: int|
                    0 <= i < snap.len() ==> (#[trigger] store.pages@[i]).opaque == snap[i].opaque,
                forall|s2: int|
                    0 <= s2 < slot ==> (match #[trigger] pages0[pid as int].slots@[s2] {
                        Some(Tuple::H0(h)) => store.pages@[pid as int].slots@[s2] matches Some(
                            Tuple::H0(h2),
                        ) && h0_swept(h, h2, dead.dead@),
                        _ => store.pages@[pid as int].slots@[s2] == pages0[pid as int].slots@[s2],
                    }),
                forall|s2: int|
                    slot <= s2 < n ==> store.pages@[pid as int].slots@[s2]
                        == pages0[pid as int].slots@[s2],
            decreases n - slot,
        {
            match store.get_tuple(pid as u32, slot) {
                Some(Tuple::H0(h)) => {
                    proof {
                        assert(store.pages@[pid as int].wf());
                        assert(crate::tuples::tuple_wf(
                            store.pages@[pid as int].slots@[slot as int]->Some_0,
                        ));
                    }
                    let swept = h0_sweep(h, dead);
                    proof {
                        assert(crate::tuples::spec_size_of(Tuple::H0(swept))
                            == crate::tuples::spec_size_of(
                            store.pages@[pid as int].slots@[slot as int]->Some_0,
                        ));
                    }
                    store.set_at(pid as u32, slot, Tuple::H0(swept));
                },
                _ => {},
            }
            slot = slot + 1;
        }
        proof {
            assert forall|i: int, s2: int|
                0 <= i < pid + 1 && 0 <= s2 < pages0[i].slots@.len() implies (
            match #[trigger] pages0[i].slots@[s2] {
                Some(Tuple::H0(h)) => store.pages@[i].slots@[s2] matches Some(Tuple::H0(h2))
                    && h0_swept(h, h2, dead.dead@),
                _ => store.pages@[i].slots@[s2] == pages0[i].slots@[s2],
            }) by {
                if i < pid {
                    assert(store.pages@[i] == snap[i]);
                }
            }
        }
    }
    proof {
        assert forall|pid: int|
            0 <= pid < store.pages@.len() implies page_h0_clean(
            #[trigger] store.pages@[pid],
            dead.dead@,
        ) by {
            assert forall|slot: int|
                0 <= slot < store.pages@[pid].slots@.len() implies match #[trigger] store.pages@[pid].slots@[slot] {
                Some(Tuple::H0(h)) => h0_clean(h, dead.dead@),
                _ => true,
            } by {
                match pages0[pid].slots@[slot] {
                    Some(Tuple::H0(h)) => {},
                    _ => {},
                }
            }
        }
    }
}

/// Whether a page holds nothing at all: every slot is freed.
pub open spec fn page_all_free(pg: Page) -> bool {
    forall|slot: int| 0 <= slot < pg.slots@.len() ==> (#[trigger] pg.slots@[slot]) is None
}

/// Second pass: walks the vectors tape and frees every vector tuple whose
/// payload is dead.  Every slot of the store either keeps its tuple or
/// loses a dead vector tuple; on the tape no dead vector tuple remains;
/// and the returned list holds exactly the tape pages, other than the tape
/// head, that end up entirely empty.
pub fn vacuum_vectors(store: &mut Store, vectors_first: u32, dead: &DeadSet) -> (empties: Vec<
    u32,
>)
    requires
        old(store).wf(),
        vectors_first == NO_PAGE || vectors_first < old(store).pages@.len(),
    ensures
        final(store).wf(),
        final(store).pages@.len() == old(store).pages@.len(),
        forall|pid: int|
            0 <= pid < old(store).pages@.len() ==> (#[trigger] final(store).pages@[pid]).opaque
                == old(store).pages@[pid].opaque,
        forall|pid: int|
            0 <= pid < old(store).pages@.len() ==> (#[trigger] final(store).pages@[pid].slots@).len() == old(store).pages@[pid].slots@.len(),
        forall|pid: int, slot: int|
            0 <= pid < old(store).pages@.len() && 0 <= slot < old(store).pages@[pid].slots@.len()
                ==> (#[trigger] final(store).pages@[pid].slots@[slot] == old(
                store,
            ).pages@[pid].slots@[slot] || (old(store).pages@[pid].slots@[slot] matches Some(
                Tuple::Vector(v),
            ) && v.payload matches Some(p) && dead.dead@.contains(p) && final(store).pages@[pid].slots@[slot] is None)),
        forall|n: nat|
            #[trigger] chain_nth(final(store).pages@, vectors_first, n) != NO_PAGE
                ==> page_vec_clean(
                final(store).pages@[chain_nth(final(store).pages@, vectors_first, n) as int],
                dead.dead@,
            ),
        forall|p: u32|
            #[trigger] empties@.contains(p) ==> (p != vectors_first && (p as int) < final(store).pages@.len() && page_all_free(final(store).pages@[p as int]) && exists|n: nat|
                chain_nth(final(store).pages@, vectors_first, n) == p),
{
    let ghost pages0 = old(store).pages@;
    let mut empties: Vec<u32> = Vec::new();
    let mut current = vectors_first;
    let mut k: u32 = 0;
    loop
        invariant
            store.wf(),
            pages0 == old(store).pages@,
            store.pages@.len() == pages0.len(),
            forall|i: int|
                0 <= i < store.pages@.len() ==> (#[trigger] store.pages@[i]).opaque
                    == pages0[i].opaque,
            forall|i: int|
                0 <= i < pages0.len() ==> (#[trigger] store.pages@[i].slots@).len()
                    == pages0[i].slots@.len(),
            forall|i: int, slot: int|
                0 <= i < pages0.len() && 0 <= slot < pages0[i].slots@.len() ==> (
                #[trigger] store.pages@[i].slots@[slot] == pages0[i].slots@[slot] || (
                pages0[i].slots@[slot] matches Some(Tuple::Vector(v)) && v.payload matches Some(p)
                    && dead.dead@.contains(p) && store.pages@[i].slots@[slot] is None)),
            forall|nn: nat| #[trigger]
                chain_nth(store.pages@, vectors_first, nn) == chain_nth(pages0, vectors_first, nn),
            current == chain_nth(store.pages@, vectors_first, k as nat),
            current == NO_PAGE || current < store.pages@.len(),
            forall|n: nat|
                n < k ==> (#[trigger] chain_nth(store.pages@, vectors_first, n) != NO_PAGE
                    && page_vec_clean(
                    store.pages@[chain_nth(store.pages@, vectors_first, n) as int],
                    dead.dead@,
                )),
            current != NO_PAGE ==> k <= current,
            forall|p: u32|
                #[trigger] empties@.contains(p) ==> (p != vectors_first && (p as int)
                    < store.pages@.len() && page_all_free(store.pages@[p as int]) && exists|
                    n: nat,
                |
                    n < k && chain_nth(store.pages@, vectors_first, n) == p),
        decreases (if current == NO_PAGE {
            0int
        } else {
            store.pages@.len() - current
        }),
    {
        if current == NO_PAGE {
            proof {
                assert forall|n: nat|
                    #[trigger] chain_nth(store.pages@, vectors_first, n)
                        != NO_PAGE implies page_vec_clean(
                    store.pages@[chain_nth(store.pages@, vectors_first, n) as int],
                    dead.dead@,
                ) by {
                    if n >= k as nat {
                        crate::page::lemma_chain_split(store.pages@, vectors_first, k as nat, (n
                            - k) as nat);
                        crate::page::lemma_chain_absent(store.pages@, NO_PAGE, (n - k) as nat);
                        assert(false);
                    }
                }
            }
            return empties;
        }
        let n = store.slot_count(current);
        let ghost snap = store.pages@;
        let mut slot: usize = 0;
        let mut any_live = false;
        while slot < n
            invariant
                store.wf(),
                store.pages@.len() == snap.len(),
                current < store.pages@.len(),
                n == store.pages@[current as int].spec_len(),
                n == snap[current as int].spec_len(),
                forall|i: int|
                    0 <= i < snap.len() && i != current ==> store.pages@[i] == snap[i],
                forall|i: int|
                    0 <= i < store.pages@.len() ==> (#[trigger] store.pages@[i]).opaque
                        == snap[i].opaque,
                forall|s2: int|
                    0 <= s2 < slot ==> (#[trigger] store.pages@[current as int].slots@[s2]
                        == snap[current as int].slots@[s2] || (
                    snap[current as int].slots@[s2] matches Some(Tuple::Vector(v))
                        && v.payload matches Some(p) && dead.dead@.contains(p)
                        && store.pages@[current as int].slots@[s2] is None)),
                forall|s2: int|
                    0 <= s2 < slot ==> (match #[trigger] store.pages@[current as int].slots@[s2] {
                        Some(Tuple::Vector(v)) => match v.payload {
                            Some(p) => !dead.dead@.contains(p),
                            None => true,
                        },
                        _ => true,
                    }),
                forall|s2: int|
                    slot <= s2 < n ==> store.pages@[current as int].slots@[s2]
                        == snap[current as int].slots@[s2],
                !any_live ==> forall|s2: int|
                    0 <= s2 < slot ==> (#[trigger] store.pages@[current as int].slots@[s2])
                        is None,
            decreases n - slot,
        {
            let ghost before_iter = store.pages@;
            let mut kill = false;
            let mut occupied = false;
            match store.get_tuple(current, slot) {
                Some(Tuple::Vector(v)) => {
                    occupied = true;
                    match v.payload {
                        Some(p) => {
                            if dead.is_dead(p) {
                                kill = true;
                                occupied = false;
                            }
                        },
                        None => {},
                    }
                },
                Some(_) => {
                    occupied = true;
                },
                None => {},
            }
            if kill {
                store.free_at(current, slot);
            }
            if occupied {
                any_live = true;
            }
            proof {
                assert forall|s2: int|
                    0 <= s2 < slot + 1 implies (#[trigger] store.pages@[current as int].slots@[s2]
                    == snap[current as int].slots@[s2] || (
                snap[current as int].slots@[s2] matches Some(Tuple::Vector(v))
                    && v.payload matches Some(p) && dead.dead@.contains(p)
                    && store.pages@[current as int].slots@[s2] is None)) by {
                    if s2 < slot {
                        if !kill {
                        } else {
                            assert(store.pages@[current as int].slots@[s2] == before_iter[current
                                as int].slots@[s2]);
                        }
                    }
                }
            }
            slot = slot + 1;
        }
        proof {
            assert forall|nn: nat| #[trigger]
                chain_nth(store.pages@, vectors_first, nn) == chain_nth(
                pages0,
                vectors_first,
                nn,
            ) by {
                lemma_chain_congruence(pages0, store.pages@, vectors_first, nn);
            }
            assert forall|p: u32| #[trigger] empties@.contains(p) implies (p != vectors_first
                && (p as int) < store.pages@.len() && page_all_free(store.pages@[p as int])
                && exists|n2: nat|
                n2 < k && chain_nth(store.pages@, vectors_first, n2) == p) by {
                let n2 = choose|n2: nat| n2 < k && chain_nth(snap, vectors_first, n2) == p;
                crate::page::lemma_chain_monotone(snap, vectors_first, n2, k as nat);
                assert(chain_nth(snap, vectors_first, k as nat) == current);
                assert(p != current);
                assert(store.pages@[p as int] == snap[p as int]);
                assert(chain_nth(store.pages@, vectors_first, n2) == p);
            }
        }
        if !any_live && current != vectors_first {
            let ghost e0 = empties@;
            empties.push(current);
            proof {
                assert(chain_nth(store.pages@, vectors_first, k as nat) == current);
                assert forall|p: u32| #[trigger] empties@.contains(p) implies (p != vectors_first
                    && (p as int) < store.pages@.len() && page_all_free(store.pages@[p as int])
                    && exists|n2: nat|
                    n2 < k + 1 && chain_nth(store.pages@, vectors_first, n2) == p) by {
                    if e0.contains(p) {
                        let n2 = choose|n2: nat|
                            n2 < k && chain_nth(store.pages@, vectors_first, n2) == p;
                        assert(n2 < k + 1);
                    } else {
                        assert(p == current);
                        assert(page_all_free(store.pages@[current as int])) by {
                            assert forall|s2: int|
                                0 <= s2 < store.pages@[current as int].slots@.len() implies (
                            #[trigger] store.pages@[current as int].slots@[s2]) is None by {}
                        };
                    }
                }
            }
        }
        proof {
            assert(page_vec_clean(store.pages@[current as int], dead.dead@));
            assert forall|n2: nat|
                n2 < k + 1 implies (#[trigger] chain_nth(store.pages@, vectors_first, n2)
                != NO_PAGE && page_vec_clean(
                store.pages@[chain_nth(store.pages@, vectors_first, n2) as int],
                dead.dead@,
            )) by {
                if n2 < k as nat {
                    assert(chain_nth(snap, vectors_first, n2) == chain_nth(
                        store.pages@,
                        vectors_first,
                        n2,
                    ));
                    let p = chain_nth(snap, vectors_first, n2);
                    lemma_chain_in_range(snap, vectors_first, n2);
                    if p != current {
                        assert(store.pages@[p as int] == snap[p as int]);
                    }
                } else {
                    assert(chain_nth(store.pages@, vectors_first, n2) == current);
                }
            }
            assert forall|i: int, slot2: int|
                0 <= i < pages0.len() && 0 <= slot2 < pages0[i].slots@.len() implies (
            #[trigger] store.pages@[i].slots@[slot2] == pages0[i].slots@[slot2] || (
            pages0[i].slots@[slot2] matches Some(Tuple::Vector(v)) && v.payload matches Some(p)
                && dead.dead@.contains(p) && store.pages@[i].slots@[slot2] is None)) by {
                if i != current {
                    assert(store.pages@[i] == snap[i]);
                }
            }
        }
        let nxt = store.opaque_of(current).next;
        proof {
            if nxt != NO_PAGE {
                assert(current < nxt < store.pages@.len());
            }
            crate::page::lemma_chain_split(store.pages@, vectors_first, k as nat, 1);
            assert(chain_nth(store.pages@, vectors_first, (k + 1) as nat) == chain_nth(
                store.pages@,
                nxt,
                0,
            ));
            if nxt != NO_PAGE {
                crate::page::lemma_chain_monotone(store.pages@, vectors_first, k as nat, (k
                    + 1) as nat);
            }
        }
        current = nxt;
        k = k + 1;
    }
}

/// The whole vacuum: sweeps every leaf batch tuple of the store, then
/// frees the dead vector tuples along the vectors tape.  It succeeds
/// exactly when the meta tuple is in place; afterwards no live leaf slot
/// anywhere carries a dead payload, every other slot either kept its tuple
/// or lost a dead vector tuple, and the returned pages are empty tape
/// pages ready for the freepage allocator.
pub fn vacuum(store: &mut Store, dead: &DeadSet) -> (r: Result<Vec<u32>, IndexError>)
    requires
        old(store).wf(),
        old(store).pages@.len() > 0,
    ensures
        final(store).wf(),
        final(store).pages@.len() == old(store).pages@.len(),
        (r is Ok) <==> (old(store).pages@[0].spec_get(0) matches Some(Tuple::Meta(_))),
        r is Err ==> final(store).pages@ == old(store).pages@,
        match r {
            Ok(empties) => {
                &&& forall|pid: int|
                    0 <= pid < final(store).pages@.len() ==> page_h0_clean(
                        #[trigger] final(store).pages@[pid],
                        dead.dead@,
                    )
                &&& forall|pid: int, slot: int|
                    0 <= pid < old(store).pages@.len() && 0 <= slot < old(
                        store,
                    ).pages@[pid].slots@.len() ==> slot_swept(
                        #[trigger] old(store).pages@[pid].slots@[slot],
                        final(store).pages@[pid].slots@[slot],
                        dead.dead@,
                    )
                &&& (match old(store).pages@[0].spec_get(0) {
                    Some(Tuple::Meta(m)) => forall|n: nat|
                        #[trigger] chain_nth(final(store).pages@, m.vectors_first, n) != NO_PAGE
                            ==> page_vec_clean(
                            final(store).pages@[chain_nth(
                                final(store).pages@,
                                m.vectors_first,
                                n,
                            ) as int],
                            dead.dead@,
                        ),
                    _ => true,
                })
                &&& (match old(store).pages@[0].spec_get(0) {
                    Some(Tuple::Meta(m)) => forall|p: u32|
                        #[trigger] empties@.contains(p) ==> (p != m.vectors_first && (p as int)
                            < final(store).pages@.len() && page_all_free(
                            final(store).pages@[p as int],
                        )),
                    _ => true,
                })
            },
            Err(e) => e == IndexError::DataCorruption,
        },
{
    let meta = match store.get_tuple(0, 0) {
        Some(Tuple::Meta(m)) => *m,
        _ => {
            return Err(IndexError::DataCorruption);
        },
    };
    let ghost pages0 = store.pages@;
    sweep_leaf_slots(store, dead);
    let ghost mid = store.pages@;
    let vf = if meta.vectors_first != NO_PAGE && (meta.vectors_first as usize)
        < store.page_count() {
        meta.vectors_first
    } else {
        NO_PAGE
    };
    let empties = vacuum_vectors(store, vf, dead);
    proof {
        // the leaf sweep survives the vector pass: vector frees never touch
        // a leaf batch slot
        assert forall|pid: int|
            0 <= pid < store.pages@.len() implies page_h0_clean(
            #[trigger] store.pages@[pid],
            dead.dead@,
        ) by {
            assert forall|slot: int|
                0 <= slot < store.pages@[pid].slots@.len() implies match #[trigger] store.pages@[pid].slots@[slot] {
                Some(Tuple::H0(h)) => h0_clean(h, dead.dead@),
                _ => true,
            } by {
                if store.pages@[pid].slots@[slot] matches Some(Tuple::H0(h)) {
                    assert(store.pages@[pid].slots@[slot] == mid[pid].slots@[slot] || (
                    mid[pid].slots@[slot] matches Some(Tuple::Vector(_))));
                    assert(page_h0_clean(mid[pid], dead.dead@));
                }
            }
        }
        // the two passes compose to the per-slot sweep relation
        assert forall|pid: int, slot: int|
            0 <= pid < pages0.len() && 0 <= slot < pages0[pid].slots@.len() implies slot_swept(
            #[trigger] pages0[pid].slots@[slot],
            store.pages@[pid].slots@[slot],
            dead.dead@,
        ) by {
            match pages0[pid].slots@[slot] {
                Some(Tuple::H0(h)) => {
                    assert(mid[pid].slots@[slot] matches Some(Tuple::H0(h2)) && h0_swept(
                        h,
                        h2,
                        dead.dead@,
                    ));
                    assert(store.pages@[pid].slots@[slot] == mid[pid].slots@[slot] || (
                    mid[pid].slots@[slot] matches Some(Tuple::Vector(_))));
                },
                Some(Tuple::Vector(v)) => {
                    assert(mid[pid].slots@[slot] == pages0[pid].slots@[slot]);
                },
                _ => {
                    assert(mid[pid].slots@[slot] == pages0[pid].slots@[slot]);
                    assert(store.pages@[pid].slots@[slot] == mid[pid].slots@[slot] || (
                    mid[pid].slots@[slot] matches Some(Tuple::Vector(_))));
                },
            }
        }
    }
    Ok(empties)
}

/// Vacuum consistency: when every live leaf slot of the store is clean and
/// every search result's payload comes from a live leaf slot, no search
/// result carries a dead payload.
pub proof fn lemma_vacuum_consistency(
    pages: Seq<Page>,
    dead: Seq<u64>,
    results: Seq<(crate::Distance, u64)>,
)
    requires
        forall|pid: int, slot: int|
            0 <= pid < pages.len() && 0 <= slot < pages[pid].slots@.len()
                ==> match #[trigger] pages[pid].slots@[slot] {
                Some(Tuple::H0(h)) => h0_clean(h, dead),
                _ => true,
            },
        forall|k: int|
            0 <= k < results.len() ==> crate::scan::h0_has_payload(
                pages,
                (#[trigger] results[k]).1,
            ),
    ensures
        forall|k: int| 0 <= k < results.len() ==> !dead.contains((#[trigger] results[k]).1),
{
    assert forall|k: int| 0 <= k < results.len() implies !dead.contains(
        (#[trigger] results[k]).1,
    ) by {
        let (pid, slot, j) = choose|pid: int, slot: int, j: int|
            #[trigger] crate::scan::h0_slot_has(pages, pid, slot, j, results[k].1);
        assert(match pages[pid].slots@[slot] {
            Some(Tuple::H0(h)) => h0_clean(h, dead),
            _ => true,
        });
    }
}

} // verus!
