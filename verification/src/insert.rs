//! Insertion.
//!
//! Inserting a vector stores its full-precision elements as a chain of
//! vector tuples placed first-fit along the fast-forward chain of the
//! vectors tape, descends the centroid tree to the closest leaf cluster,
//! encodes the vector — against its parent centroid in residual mode — and
//! appends the code into the first leaf batch tuple with a free slot,
//! growing the leaf chain when none has room.

use vstd::prelude::*;

use crate::kernel::{CodeKernel, SearchKernel};
use crate::packing::{block_set_column, pack_to_u4};
use crate::page::{Store, PAGE_CAPACITY, SLOT_OVERHEAD};
use crate::scan::{h0_has_payload, h0_slot_has, make_level_lists};
use crate::tuples::{
    copy_vec, spec_size_of, tuple_wf, CodeMeta, H0Tuple, Tuple, TuplePointer, VectorTuple, BATCH,
    NO_PAGE,
};
use crate::vectors::vector_split_ranges;
use crate::IndexError;

verus! {

/// Copies the element range `[a, b)` of a vector.
pub(crate) fn copy_range(v: &Vec<u32>, a: usize, b: usize) -> (r: Vec<u32>)
    requires
        a <= b <= v@.len(),
    ensures
        r@ == v@.subrange(a as int, b as int),
{
    let mut r: Vec<u32> = Vec::new();
    let mut i = a;
    while i < b
        invariant
            a <= i <= b <= v@.len(),
            r@ == v@.subrange(a as int, i as int),
        decreases b - i,
    {
        r.push(v[i]);
        proof {
            assert(r@ =~= v@.subrange(a as int, i + 1));
        }
        i = i + 1;
    }
    r
}

/// Places one vector tuple on a page of the vectors tape, walking the
/// fast-forward chain first-fit and extending the tape when nothing fits.
/// Returns where the tuple landed.  Placement never fails: a fresh page
/// always holds one slice.  Every slot that existed before the call is
/// left exactly as it was.
pub(crate) fn place_vector_tuple(store: &mut Store, vectors_head: u32, tuple: VectorTuple) -> (r:
    TuplePointer)
    requires
        old(store).wf(),
        vectors_head < old(store).pages@.len(),
        spec_size_of(Tuple::Vector(tuple)) + SLOT_OVERHEAD <= PAGE_CAPACITY,
        old(store).pages@.len() + 1 < NO_PAGE,
    ensures
        final(store).wf(),
        final(store).pages@.len() >= old(store).pages@.len(),
        final(store).pages@.len() <= old(store).pages@.len() + 1,
        forall|pid: int, slot: int|
            0 <= pid < old(store).pages@.len() && 0 <= slot < old(store).pages@[pid].slots@.len()
                ==> #[trigger] final(store).pages@[pid].slots@[slot]
                == old(store).pages@[pid].slots@[slot],
        forall|pid: int|
            0 <= pid < old(store).pages@.len() ==> (#[trigger] old(
                store,
            ).pages@[pid].slots@).len() <= final(store).pages@[pid].slots@.len(),
        (r.page as int) < final(store).pages@.len(),
        final(store).pages@[r.page as int].spec_get(r.slot as int) == Some(Tuple::Vector(tuple)),
{
    let size = 24 + 4 * (tuple.elements.len() as u32);
    proof {
        assert(size == spec_size_of(Tuple::Vector(tuple)));
    }
    let ff = store.opaque_of(vectors_head).fast_forward;
    let mut current = if ff != NO_PAGE && (ff as usize) < store.page_count() {
        ff
    } else {
        vectors_head
    };
    let mut changed = false;
    loop
        invariant
            store.wf(),
            store.pages@ == old(store).pages@,
            current < store.pages@.len(),
            vectors_head < store.pages@.len(),
            size == spec_size_of(Tuple::Vector(tuple)),
            size + SLOT_OVERHEAD <= PAGE_CAPACITY,
            old(store).pages@.len() + 1 < NO_PAGE,
        decreases store.pages@.len() - current,
    {
        let free = store.freespace_at(current);
        if size + SLOT_OVERHEAD <= free && store.slot_count(current) < u16::MAX as usize {
            let got = store.alloc_at(current, Tuple::Vector(tuple));
            match got {
                Some(slot) => {
                    if changed {
                        store.set_fast_forward(vectors_head, current);
                    }
                    return TuplePointer { page: current, slot };
                },
                None => {
                    proof {
                        assert(false);
                    }
                    return TuplePointer { page: 0, slot: 0 };
                },
            }
        }
        let nxt = store.opaque_of(current).next;
        if nxt == NO_PAGE {
            let nid = store.extend();
            store.set_next(current, nid);
            proof {
                assert(store.pages@[nid as int].spec_freespace() == PAGE_CAPACITY) by {
                    assert(crate::page::used_bytes(store.pages@[nid as int].slots@) == 0);
                };
            }
            let got2 = store.alloc_at(nid, Tuple::Vector(tuple));
            match got2 {
                Some(slot) => {
                    if changed {
                        store.set_fast_forward(vectors_head, current);
                    }
                    return TuplePointer { page: nid, slot };
                },
                None => {
                    // an empty page always has room for one slice
                    proof {
                        assert(false);
                    }
                    return TuplePointer { page: 0, slot: 0 };
                },
            }
        }
        proof {
            assert(current < nxt < store.pages@.len());
        }
        current = nxt;
        changed = true;
    }
}

/// Stores a full vector as a tuple chain on the vectors tape, last slice
/// first, and returns the chain head.  Afterwards the chain reads back as
/// exactly the given elements under the given payload mark, and every slot
/// that existed before is untouched.
pub(crate) fn store_vector_chain(
    store: &mut Store,
    vectors_head: u32,
    payload: Option<u64>,
    vector: &Vec<u32>,
) -> (r: TuplePointer)
    requires
        old(store).wf(),
        vectors_head < old(store).pages@.len(),
        vector@.len() <= 60000,
        old(store).pages@.len() + 34 <= NO_PAGE,
    ensures
        final(store).wf(),
        final(store).pages@.len() >= old(store).pages@.len(),
        final(store).pages@.len() <= old(store).pages@.len() + 33,
        forall|pid: int, slot: int|
            0 <= pid < old(store).pages@.len() && 0 <= slot < old(store).pages@[pid].slots@.len()
                ==> #[trigger] final(store).pages@[pid].slots@[slot]
                == old(store).pages@[pid].slots@[slot],
        forall|pid: int|
            0 <= pid < old(store).pages@.len() ==> (#[trigger] old(
                store,
            ).pages@[pid].slots@).len() <= final(store).pages@[pid].slots@.len(),
        crate::vectors::vector_at(final(store).pages@, r, payload),
        crate::vectors::chain_elems(final(store).pages@, r, crate::vectors::chain_fuel()) == Some(
            vector@,
        ),
{
    let ranges = vector_split_ranges(vector.len());
    let mut chain: Option<TuplePointer> = None;
    let mut ri = ranges.len();
    while ri > 0
        invariant
            store.wf(),
            store.pages@.len() + ri + 1 <= NO_PAGE,
            store.pages@.len() >= old(store).pages@.len(),
            store.pages@.len() <= old(store).pages@.len() + (ranges@.len() - ri),
            ri <= ranges@.len(),
            ranges@.len() <= 32,
            vectors_head < store.pages@.len(),
            vector@.len() <= 60000,
            forall|i: int|
                0 <= i < ranges@.len() ==> (#[trigger] ranges@[i]).0 <= ranges@[i].1
                    <= vector@.len(),
            forall|i: int|
                0 <= i < ranges@.len() ==> (#[trigger] ranges@[i]).1 - ranges@[i].0 <= 1920,
            ranges@.len() > 0 && ranges@[0].0 == 0 && ranges@[ranges@.len() - 1].1
                == vector@.len(),
            forall|i: int| 0 <= i < ranges@.len() - 1 ==> (#[trigger] ranges@[i]).1 == ranges@[i
                + 1].0,
            forall|pid: int, slot: int|
                0 <= pid < old(store).pages@.len() && 0 <= slot < old(
                    store,
                ).pages@[pid].slots@.len() ==> #[trigger] store.pages@[pid].slots@[slot] == old(
                    store,
                ).pages@[pid].slots@[slot],
            forall|pid: int|
                0 <= pid < old(store).pages@.len() ==> (#[trigger] old(
                    store,
                ).pages@[pid].slots@).len() <= store.pages@[pid].slots@.len(),
            ri == ranges@.len() ==> chain is None,
            ri < ranges@.len() ==> (chain matches Some(p) && crate::vectors::vector_at(
                store.pages@,
                p,
                payload,
            ) && crate::vectors::chain_elems(
                store.pages@,
                p,
                (ranges@.len() - ri) as nat,
            ) == Some(vector@.skip(ranges@[ri as int].0 as int))),
        decreases ri,
    {
        ri = ri - 1;
        let (a, b) = ranges[ri];
        let elements = copy_range(vector, a, b);
        let tuple = VectorTuple { payload, elements, next: chain };
        proof {
            assert(spec_size_of(Tuple::Vector(tuple)) <= 24 + 4 * 1920);
        }
        let ghost pre = store.pages@;
        let ghost old_chain = chain;
        let ptr = place_vector_tuple(store, vectors_head, tuple);
        chain = Some(ptr);
        proof {
            assert(crate::vectors::vector_slots_preserved(pre, store.pages@));
            let fuel = (ranges@.len() - ri) as nat;
            assert(fuel >= 1);
            if ri + 1 < ranges@.len() {
                let p0 = old_chain->Some_0;
                let tail = vector@.skip(ranges@[ri + 1].0 as int);
                crate::vectors::lemma_chain_elems_stable(
                    pre,
                    store.pages@,
                    p0,
                    (fuel - 1) as nat,
                    tail,
                );
                assert(crate::vectors::chain_elems(store.pages@, ptr, fuel) == Some(
                    vector@.subrange(a as int, b as int) + tail,
                ));
                assert(vector@.subrange(a as int, b as int) + vector@.skip(b as int)
                    =~= vector@.skip(a as int));
                assert(ranges@[ri + 1].0 == b);
            } else {
                assert(b == vector@.len());
                assert(crate::vectors::chain_elems(store.pages@, ptr, fuel) == Some(
                    vector@.subrange(a as int, b as int),
                ));
                assert(vector@.subrange(a as int, b as int) =~= vector@.skip(a as int));
            }
        }
    }
    let r = match chain {
        Some(p) => p,
        None => {
            proof {
                assert(false);
            }
            TuplePointer { page: 0, slot: 0 }
        },
    };
    proof {
        assert(ranges@[0].0 == 0);
        assert(vector@.skip(0) =~= vector@);
        crate::vectors::lemma_chain_elems_fuel_mono(
            store.pages@,
            r,
            ranges@.len() as nat,
            crate::vectors::chain_fuel(),
            vector@,
        );
    }
    r
}

/// An empty leaf batch tuple with a code block of `groups` groups.
fn fresh_h0(groups: usize) -> (r: H0Tuple)
    requires
        groups <= 16384,
    ensures
        tuple_wf(Tuple::H0(r)),
        r.t@.len() == 2 * groups,
        forall|j: int| 0 <= j < BATCH ==> !(#[trigger] r.mask@[j]),
{
    let mut mask: Vec<bool> = Vec::new();
    let mut mean: Vec<TuplePointer> = Vec::new();
    let mut payload: Vec<u64> = Vec::new();
    let mut metas: Vec<CodeMeta> = Vec::new();
    for _i in 0..BATCH
        invariant
            mask@.len() == _i,
            mean@.len() == _i,
            payload@.len() == _i,
            metas@.len() == _i,
            forall|j: int| 0 <= j < _i ==> !(#[trigger] mask@[j]),
    {
        mask.push(false);
        mean.push(TuplePointer { page: NO_PAGE, slot: 0 });
        payload.push(0);
        metas.push(CodeMeta { dis_u_2: 0, factor_ppc: 0, factor_ip: 0, factor_err: 0 });
    }
    let mut t: Vec<u64> = Vec::new();
    for _i in 0..2 * groups
        invariant
            t@.len() == _i,
    {
        t.push(0);
    }
    H0Tuple { mask, mean, payload, metas, t }
}

/// Writes a new entry into the first free slot of a leaf batch tuple.
/// Returns the slot used, or `None` when every slot is taken, leaving the
/// tuple unchanged.
fn h0_put(
    h: &mut H0Tuple,
    groups: usize,
    vec_ptr: TuplePointer,
    payload: u64,
    meta: CodeMeta,
    nibbles: &Vec<u8>,
) -> (r: Option<usize>)
    requires
        tuple_wf(Tuple::H0(*old(h))),
        old(h).t@.len() == 2 * groups,
        groups <= 16384,
        nibbles@.len() >= groups,
        forall|g: int| 0 <= g < nibbles@.len() ==> #[trigger] nibbles@[g] < 16,
    ensures
        tuple_wf(Tuple::H0(*final(h))),
        final(h).t@.len() == 2 * groups,
        match r {
            Some(j) => {
                &&& j < BATCH
                &&& !old(h).mask@[j as int]
                &&& final(h).mask@[j as int]
                &&& final(h).payload@[j as int] == payload
                &&& final(h).mean@[j as int] == vec_ptr
                &&& final(h).metas@[j as int] == meta
                &&& forall|g: int|
                    0 <= g < groups ==> crate::packing::block_nibble(final(h).t@, g, j as int)
                        == nibbles@[g]
            },
            None => {
                &&& *final(h) == *old(h)
                &&& forall|j: int| 0 <= j < BATCH ==> old(h).mask@[j]
            },
        },
{
    let mut j: usize = 0;
    while j < BATCH
        invariant
            h == old(h),
            tuple_wf(Tuple::H0(*h)),
            h.t@.len() == 2 * groups,
            groups <= 16384,
            nibbles@.len() >= groups,
            forall|g: int| 0 <= g < nibbles@.len() ==> #[trigger] nibbles@[g] < 16,
            j <= BATCH,
            forall|k: int| 0 <= k < j ==> old(h).mask@[k],
        decreases BATCH - j,
    {
        if !h.mask[j] {
            h.mask.set(j, true);
            h.mean.set(j, vec_ptr);
            h.payload.set(j, payload);
            h.metas.set(j, meta);
            proof {
                assert(h.t@.len() == 2 * groups);
            }
            block_set_column(&mut h.t, j, nibbles, groups);
            return Some(j);
        }
        j = j + 1;
    }
    None
}

/// Inserts `(payload, vector)` into the index.  The vector is given in the
/// rotated coordinate system the index stores; its elements are opaque
/// 32-bit patterns.  On success a live leaf slot carries the payload and
/// points at a freshly stored vector chain that reads back as exactly the
/// given elements; a vector of the wrong dimension is rejected with
/// nothing written.
pub fn insert<K: SearchKernel + CodeKernel>(
    store: &mut Store,
    kernel: &K,
    payload: u64,
    vector: Vec<u32>,
) -> (r: Result<(), IndexError>)
    requires
        old(store).wf(),
        old(store).pages@.len() > 0,
        old(store).pages@.len() + 40 < NO_PAGE,
    ensures
        final(store).wf(),
        match r {
            Ok(()) => {
                &&& h0_has_payload(final(store).pages@, payload)
                &&& exists|vp: TuplePointer, pid: int, slot: int, j: int|
                    {
                        &&& #[trigger] crate::scan::h0_slot_entry(
                            final(store).pages@,
                            pid,
                            slot,
                            j,
                            payload,
                            vp,
                        )
                        &&& crate::vectors::vector_at(final(store).pages@, vp, Some(payload))
                        &&& crate::vectors::chain_elems(
                            final(store).pages@,
                            vp,
                            crate::vectors::chain_fuel(),
                        ) == Some(vector@)
                    }
            },
            Err(_) => true,
        },
        !(old(store).pages@[0].spec_get(0) matches Some(Tuple::Meta(_))) ==> (r is Err
            && final(store).pages@ == old(store).pages@),
        (match old(store).pages@[0].spec_get(0) {
            Some(Tuple::Meta(m)) => vector@.len() != m.dims ==> (r is Err
                && final(store).pages@ == old(store).pages@),
            _ => true,
        }),
{
    let meta = match store.get_tuple(0, 0) {
        Some(Tuple::Meta(m)) => *m,
        _ => {
            return Err(IndexError::DataCorruption);
        },
    };
    if vector.len() > 60000 || vector.len() != meta.dims as usize || meta.height_of_root == 0 {
        return Err(IndexError::InvalidInput);
    }
    if meta.vectors_first == NO_PAGE || meta.vectors_first as usize >= store.page_count() {
        return Err(IndexError::DataCorruption);
    }
    // store the full-precision vector as a tuple chain, last slice first
    let vec_ptr = store_vector_chain(store, meta.vectors_first, Some(payload), &vector);
    // descend to the closest leaf cluster, one winner per level
    let is_residual = meta.is_residual;
    let root_center: Option<Vec<u32>> = if is_residual {
        match crate::vectors::read_vector(store, meta.root_mean) {
            Ok((v, _)) => Some(v),
            Err(e) => {
                return Err(e);
            },
        }
    } else {
        None
    };
    let default_lut: Vec<u8> = kernel.lut(None);
    let mut lists: Vec<(u32, Option<Vec<u32>>)> = Vec::new();
    lists.push((meta.root_first, root_center));
    let mut level = meta.height_of_root;
    while level > 1
        invariant
            store.wf(),
            old(store).pages@[0].spec_get(0) == Some(Tuple::Meta(meta)),
            vector@.len() == meta.dims,
            level >= 1,
            lists@.len() <= 1,
        decreases level,
    {
        lists =
        match make_level_lists(store, kernel, lists, 1, is_residual, &default_lut) {
            Ok(ls) => ls,
            Err(e) => {
                return Err(e);
            },
        };
        if lists.len() > 1 {
            return Err(IndexError::DataCorruption);
        }
        level = level - 1;
    }
    let (jump_page, center) = match lists.pop() {
        Some(l) => l,
        None => {
            return Err(IndexError::DataCorruption);
        },
    };
    // encode the vector, against its parent centroid in residual mode
    let code = if is_residual {
        match &center {
            Some(c) => {
                let res = kernel.residual(&vector, c);
                kernel.code(&res)
            },
            None => {
                return Err(IndexError::DataCorruption);
            },
        }
    } else {
        kernel.code(&vector)
    };
    if code.bits.len() > 60000 {
        return Err(IndexError::InvalidInput);
    }
    let nibbles = pack_to_u4(&code.bits);
    let truncated = if meta.dims > 1600 {
        1600usize
    } else {
        meta.dims as usize
    };
    let groups = (truncated + 3) / 4;
    if nibbles.len() < groups || groups > 400 {
        return Err(IndexError::InvalidInput);
    }
    // resolve the jump tuple to the leaf chain
    if jump_page == NO_PAGE || jump_page as usize >= store.page_count() {
        return Err(IndexError::DataCorruption);
    }
    let h0_first = match store.get_tuple(jump_page, 0) {
        Some(Tuple::Jump(j)) => j.first,
        _ => {
            return Err(IndexError::DataCorruption);
        },
    };
    if h0_first == NO_PAGE || h0_first as usize >= store.page_count() {
        return Err(IndexError::DataCorruption);
    }
    // append into the first leaf batch tuple with a free slot
    let mut current = h0_first;
    loop
        invariant
            store.wf(),
            old(store).pages@[0].spec_get(0) == Some(Tuple::Meta(meta)),
            vector@.len() == meta.dims,
            current < store.pages@.len(),
            store.pages@.len() + 2 < NO_PAGE,
            groups <= 400,
            nibbles@.len() >= groups,
            forall|g: int| 0 <= g < nibbles@.len() ==> #[trigger] nibbles@[g] < 16,
            crate::vectors::vector_at(store.pages@, vec_ptr, Some(payload)),
            crate::vectors::chain_elems(store.pages@, vec_ptr, crate::vectors::chain_fuel())
                == Some(vector@),
        decreases store.pages@.len() - current,
    {
        let n = store.slot_count(current);
        let ghost snap = store.pages@;
        let mut slot: usize = 0;
        while slot < n
            invariant
                store.wf(),
                old(store).pages@[0].spec_get(0) == Some(Tuple::Meta(meta)),
                vector@.len() == meta.dims,
                store.pages@ == snap,
                current < store.pages@.len(),
                n == store.pages@[current as int].spec_len(),
                store.pages@.len() + 2 < NO_PAGE,
                groups <= 400,
                nibbles@.len() >= groups,
                forall|g: int| 0 <= g < nibbles@.len() ==> #[trigger] nibbles@[g] < 16,
                crate::vectors::vector_at(store.pages@, vec_ptr, Some(payload)),
                crate::vectors::chain_elems(store.pages@, vec_ptr, crate::vectors::chain_fuel())
                    == Some(vector@),
            decreases n - slot,
        {
            let found = match store.get_tuple(current, slot) {
                Some(Tuple::H0(h)) => {
                    proof {
                        assert(store.pages@[current as int].wf());
                        assert(tuple_wf(store.pages@[current as int].slots@[slot as int]->Some_0));
                    }
                    if h.t.len() == 2 * groups {
                        let mut updated = H0Tuple {
                            mask: copy_vec(&h.mask),
                            mean: copy_vec(&h.mean),
                            payload: copy_vec(&h.payload),
                            metas: copy_vec(&h.metas),
                            t: copy_vec(&h.t),
                        };
                        match h0_put(&mut updated, groups, vec_ptr, payload, code.meta, &nibbles) {
                            Some(j) => Some((updated, j)),
                            None => None,
                        }
                    } else {
                        None
                    }
                },
                _ => None,
            };
            match found {
                Some((updated, j)) => {
                    proof {
                        assert(spec_size_of(Tuple::H0(updated)) == spec_size_of(
                            store.pages@[current as int].slots@[slot as int]->Some_0,
                        ));
                    }
                    let ghost pre = store.pages@;
                    store.set_at(current, slot, Tuple::H0(updated));
                    proof {
                        assert(h0_slot_has(
                            store.pages@,
                            current as int,
                            slot as int,
                            j as int,
                            payload,
                        ));
                        assert(crate::vectors::vector_slots_preserved(pre, store.pages@));
                        crate::vectors::lemma_chain_elems_stable(
                            pre,
                            store.pages@,
                            vec_ptr,
                            crate::vectors::chain_fuel(),
                            vector@,
                        );
                        assert(crate::vectors::vector_at(store.pages@, vec_ptr, Some(payload)));
                        assert(crate::scan::h0_slot_entry(
                            store.pages@,
                            current as int,
                            slot as int,
                            j as int,
                            payload,
                            vec_ptr,
                        ));
                    }
                    return Ok(());
                },
                None => {},
            }
            slot = slot + 1;
        }
        // no tuple on this page had a free matching slot: try to add one
        let mut fresh = fresh_h0(groups);
        let ghost fresh0 = fresh;
        let put = h0_put(&mut fresh, groups, vec_ptr, payload, code.meta, &nibbles);
        let j = match put {
            Some(j) => j,
            None => {
                proof {
                    assert(!fresh0.mask@[0]);
                    assert(fresh0.mask@[0]);
                    assert(false);
                }
                return Err(IndexError::DataCorruption);
            },
        };
        if 964 + 8 * (2 * groups as u32) + SLOT_OVERHEAD <= PAGE_CAPACITY {
            proof {
                assert(spec_size_of(Tuple::H0(fresh)) + SLOT_OVERHEAD <= PAGE_CAPACITY);
            }
            let ghost gfresh = fresh;
            let ghost pre = store.pages@;
            match store.alloc_at(current, Tuple::H0(fresh)) {
                Some(s) => {
                    proof {
                        assert(h0_slot_has(
                            store.pages@,
                            current as int,
                            s as int,
                            j as int,
                            payload,
                        ));
                        assert(crate::vectors::vector_slots_preserved(pre, store.pages@));
                        crate::vectors::lemma_chain_elems_stable(
                            pre,
                            store.pages@,
                            vec_ptr,
                            crate::vectors::chain_fuel(),
                            vector@,
                        );
                        assert(crate::vectors::vector_at(store.pages@, vec_ptr, Some(payload)));
                        assert(crate::scan::h0_slot_entry(
                            store.pages@,
                            current as int,
                            s as int,
                            j as int,
                            payload,
                            vec_ptr,
                        ));
                    }
                    return Ok(());
                },
                None => {},
            }
        } else {
            return Err(IndexError::InvalidInput);
        }
        let nxt = store.opaque_of(current).next;
        if nxt == NO_PAGE {
            let ghost pre_ext = store.pages@;
            let nid = store.extend();
            store.set_next(current, nid);
            proof {
                assert(crate::vectors::vector_slots_preserved(pre_ext, store.pages@));
                crate::vectors::lemma_chain_elems_stable(
                    pre_ext,
                    store.pages@,
                    vec_ptr,
                    crate::vectors::chain_fuel(),
                    vector@,
                );
                assert(crate::vectors::vector_at(store.pages@, vec_ptr, Some(payload)));
            }
            let mut fresh2 = fresh_h0(groups);
            let ghost fresh20 = fresh2;
            let put2 = h0_put(&mut fresh2, groups, vec_ptr, payload, code.meta, &nibbles);
            let j2 = match put2 {
                Some(j2) => j2,
                None => {
                    proof {
                        assert(!fresh20.mask@[0]);
                        assert(fresh20.mask@[0]);
                        assert(false);
                    }
                    return Err(IndexError::DataCorruption);
                },
            };
            let ghost gfresh2 = fresh2;
            proof {
                assert(store.pages@[nid as int].spec_freespace() == PAGE_CAPACITY) by {
                    assert(crate::page::used_bytes(store.pages@[nid as int].slots@) == 0);
                };
                assert(spec_size_of(Tuple::H0(gfresh2)) == 964 + 16 * groups);
            }
            let ghost pre3 = store.pages@;
            match store.alloc_at(nid, Tuple::H0(fresh2)) {
                Some(s) => {
                    proof {
                        assert(h0_slot_has(
                            store.pages@,
                            nid as int,
                            s as int,
                            j2 as int,
                            payload,
                        ));
                        assert(crate::vectors::vector_slots_preserved(pre3, store.pages@));
                        crate::vectors::lemma_chain_elems_stable(
                            pre3,
                            store.pages@,
                            vec_ptr,
                            crate::vectors::chain_fuel(),
                            vector@,
                        );
                        assert(crate::vectors::vector_at(store.pages@, vec_ptr, Some(payload)));
                        assert(crate::scan::h0_slot_entry(
                            store.pages@,
                            nid as int,
                            s as int,
                            j2 as int,
                            payload,
                            vec_ptr,
                        ));
                    }
                    return Ok(());
                },
                None => {
                    // a fresh page always has room for one batch tuple
                    proof {
                        assert(false);
                    }
                    return Err(IndexError::DataCorruption);
                },
            }
        }
        proof {
            assert(current < nxt < store.pages@.len());
        }
        current = nxt;
    }
}

} // verus!
