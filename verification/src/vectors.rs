//! Reading and splitting full-precision vectors stored on pages.
//!
//! A vector larger than a page is split into slices, each stored as one
//! [`VectorTuple`] of a chain; reading walks the chain and reassembles the
//! elements in order.

use vstd::prelude::*;

use crate::operator::Gather;
use crate::page::Store;
use crate::tuples::{Tuple, TuplePointer, VectorTuple};
use crate::IndexError;

verus! {

/// The longest tuple chain a single stored vector may span; a longer chain
/// is malformed data.
pub const MAX_VECTOR_CHAIN: usize = 1024;

/// Elements per slice when a vector is split across tuples.
pub const SLICE_LIMIT: usize = 1920;

/// Splits `len` elements into slice ranges, each at most [`SLICE_LIMIT`]
/// long, mirroring the on-page split: short vectors stay whole, mid-sized
/// ones split once, long ones go piecewise.
pub fn vector_split_ranges(len: usize) -> (r: Vec<(usize, usize)>)
    requires
        len <= 60000,
    ensures
        r@.len() > 0,
        r@.len() <= 32,
        r@[0].0 == 0,
        r@[r@.len() - 1].1 == len,
        forall|i: int| 0 <= i < r@.len() ==> (#[trigger] r@[i]).0 <= r@[i].1 <= len,
        forall|i: int| 0 <= i < r@.len() - 1 ==> (#[trigger] r@[i]).1 == r@[i + 1].0,
        forall|i: int| 0 <= i < r@.len() ==> (#[trigger] r@[i]).1 - r@[i].0 <= SLICE_LIMIT,
{
    let mut r: Vec<(usize, usize)> = Vec::new();
    if len <= 960 {
        r.push((0, len));
    } else if len <= 1280 {
        r.push((0, 640));
        r.push((640, len));
    } else {
        let mut at: usize = 0;
        while len - at > SLICE_LIMIT
            invariant
                at < len <= 60000,
                at == r@.len() * 1920,
                r@.len() > 0 ==> r@[0].0 == 0 && r@[r@.len() - 1].1 == at,
                r@.len() == 0 ==> at == 0,
                forall|i: int| 0 <= i < r@.len() ==> (#[trigger] r@[i]).0 <= r@[i].1 <= len,
                forall|i: int| 0 <= i < r@.len() - 1 ==> (#[trigger] r@[i]).1 == r@[i + 1].0,
                forall|i: int|
                    0 <= i < r@.len() ==> (#[trigger] r@[i]).1 - r@[i].0 <= SLICE_LIMIT,
            decreases len - at,
        {
            r.push((at, at + SLICE_LIMIT));
            at = at + SLICE_LIMIT;
        }
        r.push((at, len));
    }
    r
}

/// Whether `ptr` refers to an occupied vector-tuple slot carrying the given
/// payload mark.
pub open spec fn vector_at(
    pages: Seq<crate::page::Page>,
    ptr: TuplePointer,
    payload: Option<u64>,
) -> bool {
    &&& (ptr.page as int) < pages.len()
    &&& match pages[ptr.page as int].spec_get(ptr.slot as int) {
        Some(Tuple::Vector(v)) => v.payload == payload,
        _ => false,
    }
}

/// The elements stored along a vector tuple chain, concatenated in chain
/// order, or `None` when the chain is malformed or longer than `fuel`.
pub open spec fn chain_elems(
    pages: Seq<crate::page::Page>,
    at: TuplePointer,
    fuel: nat,
) -> Option<Seq<u32>>
    decreases fuel,
{
    if fuel == 0 {
        None
    } else if at.page as int >= pages.len() {
        None
    } else {
        match pages[at.page as int].spec_get(at.slot as int) {
            Some(Tuple::Vector(v)) => match v.next {
                None => Some(v.elements@),
                Some(nxt) => match chain_elems(pages, nxt, (fuel - 1) as nat) {
                    Some(rest) => Some(v.elements@ + rest),
                    None => None,
                },
            },
            _ => None,
        }
    }
}

/// The fuel that lets [`chain_elems`] traverse any chain the store accepts.
pub open spec fn chain_fuel() -> nat {
    MAX_VECTOR_CHAIN as nat
}

/// Whether every occupied vector-tuple slot of `pages1` still holds the
/// same tuple in `pages2`, and no slot range shrank.  Appending slots or
/// pages, touching opaque footers, or rewriting slots of other tuple kinds
/// all qualify.
pub open spec fn vector_slots_preserved(
    pages1: Seq<crate::page::Page>,
    pages2: Seq<crate::page::Page>,
) -> bool {
    &&& pages1.len() <= pages2.len()
    &&& forall|pid: int|
        0 <= pid < pages1.len() ==> (#[trigger] pages1[pid].slots@).len()
            <= pages2[pid].slots@.len()
    &&& forall|pid: int, slot: int|
        (0 <= pid < pages1.len() && 0 <= slot < pages1[pid].slots@.len() && ((
        #[trigger] pages1[pid].slots@[slot]) matches Some(Tuple::Vector(_))))
            ==> pages2[pid].slots@[slot] == pages1[pid].slots@[slot]
}

/// Chain contents survive any change that preserves the vector slots.
pub proof fn lemma_chain_elems_stable(
    pages1: Seq<crate::page::Page>,
    pages2: Seq<crate::page::Page>,
    at: TuplePointer,
    fuel: nat,
    s: Seq<u32>,
)
    requires
        vector_slots_preserved(pages1, pages2),
        chain_elems(pages1, at, fuel) == Some(s),
    ensures
        chain_elems(pages2, at, fuel) == Some(s),
    decreases fuel,
{
    let p = at.page as int;
    match pages1[p].spec_get(at.slot as int) {
        Some(Tuple::Vector(v)) => {
            assert(pages2[p].spec_get(at.slot as int) == Some(Tuple::Vector(v)));
            match v.next {
                None => {},
                Some(nxt) => {
                    let rest = chain_elems(pages1, nxt, (fuel - 1) as nat);
                    lemma_chain_elems_stable(pages1, pages2, nxt, (fuel - 1) as nat, rest->Some_0);
                },
            }
        },
        _ => {},
    }
}

/// More fuel never changes a successful read.
pub proof fn lemma_chain_elems_fuel_mono(
    pages: Seq<crate::page::Page>,
    at: TuplePointer,
    f1: nat,
    f2: nat,
    s: Seq<u32>,
)
    requires
        chain_elems(pages, at, f1) == Some(s),
        f1 <= f2,
    ensures
        chain_elems(pages, at, f2) == Some(s),
    decreases f1,
{
    match pages[at.page as int].spec_get(at.slot as int) {
        Some(Tuple::Vector(v)) => {
            match v.next {
                None => {},
                Some(nxt) => {
                    let rest = chain_elems(pages, nxt, (f1 - 1) as nat);
                    lemma_chain_elems_fuel_mono(
                        pages,
                        nxt,
                        (f1 - 1) as nat,
                        (f2 - 1) as nat,
                        rest->Some_0,
                    );
                },
            }
        },
        _ => {},
    }
}

/// Reads the vector stored at `ptr`, walking its tuple chain and
/// reassembling the elements.  On success the returned elements are exactly
/// the concatenation of the chain's slices, and the payload mark is the
/// chain head's.  Fails with [`IndexError::DataCorruption`] when the
/// pointer or the chain is malformed.
pub fn read_vector(store: &Store, ptr: TuplePointer) -> (r: Result<
    (Vec<u32>, Option<u64>),
    IndexError,
>)
    requires
        store.wf(),
    ensures
        match r {
            Ok(out) => {
                &&& vector_at(store.pages@, ptr, out.1)
                &&& chain_elems(store.pages@, ptr, chain_fuel()) == Some(out.0@)
            },
            Err(e) => e == IndexError::DataCorruption,
        },
        chain_elems(store.pages@, ptr, chain_fuel()) matches Some(s) ==> (r matches Ok(out)
            && out.0@ == s),
{
    let mut gather = Gather::new();
    let mut at = ptr;
    let mut head_payload: Option<u64> = None;
    let mut steps: usize = 0;
    proof {
        assert forall|s: Seq<u32>|
            chain_elems(store.pages@, at, (chain_fuel() - steps) as nat) == Some(
                s,
            ) implies chain_elems(store.pages@, ptr, chain_fuel()) == Some(
            #[trigger] (gather.parts@ + s),
        ) by {
            assert(gather.parts@ + s =~= s);
        }
    }
    loop
        invariant
            store.wf(),
            steps <= MAX_VECTOR_CHAIN,
            steps == 0 ==> at == ptr && gather.parts@.len() == 0,
            steps > 0 ==> vector_at(store.pages@, ptr, head_payload),
            forall|s: Seq<u32>|
                chain_elems(store.pages@, at, (chain_fuel() - steps) as nat) == Some(s)
                    ==> chain_elems(store.pages@, ptr, chain_fuel()) == Some(
                    #[trigger] (gather.parts@ + s),
                ),
            (chain_elems(store.pages@, ptr, chain_fuel()) matches Some(_)) ==> (chain_elems(
                store.pages@,
                at,
                (chain_fuel() - steps) as nat,
            ) matches Some(_)),
        decreases MAX_VECTOR_CHAIN - steps,
    {
        if steps >= MAX_VECTOR_CHAIN {
            proof {
                assert(chain_elems(store.pages@, at, (chain_fuel() - steps) as nat) is None);
            }
            return Err(IndexError::DataCorruption);
        }
        if at.page as usize >= store.page_count() {
            proof {
                assert(chain_elems(store.pages@, at, (chain_fuel() - steps) as nat) is None);
            }
            return Err(IndexError::DataCorruption);
        }
        let ghost at0 = at;
        let ghost steps0 = steps as int;
        let ghost parts0 = gather.parts@;
        let tuple = store.get_tuple(at.page, at.slot as usize);
        match tuple {
            Some(Tuple::Vector(v)) => {
                if steps == 0 {
                    head_payload = v.payload;
                }
                gather.push(v.elements.as_slice());
                match v.next {
                    Some(next) => {
                        at = next;
                        steps = steps + 1;
                        proof {
                            assert forall|s: Seq<u32>|
                                chain_elems(store.pages@, at, (chain_fuel() - steps) as nat)
                                    == Some(s) implies chain_elems(
                                store.pages@,
                                ptr,
                                chain_fuel(),
                            ) == Some(#[trigger] (gather.parts@ + s)) by {
                                assert(chain_elems(
                                    store.pages@,
                                    at0,
                                    (chain_fuel() - steps0) as nat,
                                ) == Some(v.elements@ + s));
                                assert(parts0 + (v.elements@ + s) =~= gather.parts@ + s);
                            }
                        }
                    },
                    None => {
                        proof {
                            assert(chain_elems(
                                store.pages@,
                                at0,
                                (chain_fuel() - steps0) as nat,
                            ) == Some(v.elements@));
                            assert(parts0 + v.elements@ =~= gather.parts@);
                            assert(gather.parts@ + Seq::<u32>::empty() =~= gather.parts@);
                        }
                        return Ok((gather.finish(), head_payload));
                    },
                }
            },
            _ => {
                proof {
                    assert(chain_elems(store.pages@, at, (chain_fuel() - steps) as nat) is None);
                }
                return Err(IndexError::DataCorruption);
            },
        }
    }
}

} // verus!
