//! The tuple kinds that live on index pages.
//!
//! Every persistent record of the index is one of six tuple kinds: the meta
//! tuple at page zero, vector tuples carrying full-precision elements,
//! batched descriptor tuples for internal levels and for the leaf level, jump
//! tuples introducing a leaf chain, and freepage bitmap tuples.  Scalars that
//! the floating-point kernels produce (distances, code factors, vector
//! elements) are held as opaque 32-bit patterns; the verified logic never
//! computes with them, it only stores, moves and compares them where an order
//! is defined.

use vstd::prelude::*;

verus! {

/// Number of descriptor slots batched into one internal or leaf tuple.
pub const BATCH: usize = 32;

/// Number of pages covered by one freepage bitmap tuple.
pub const FREEPAGE_WINDOW: u32 = 32768;

/// Number of 64-bit words in one freepage bitmap.
pub const FREEPAGE_WORDS: usize = 512;

/// Sentinel page id meaning "no page".
pub const NO_PAGE: u32 = 0xffff_ffff;

/// A reference to a tuple by page id and slot index.
#[derive(Clone, Copy, PartialEq, Eq, Structural, Debug)]
pub struct TuplePointer {
    pub page: u32,
    pub slot: u16,
}

/// The four per-code scalars of the quantization metadata, kept as opaque
/// bit patterns: squared norm, and the three lower-bound factors.
#[derive(Clone, Copy, PartialEq, Eq, Structural, Debug)]
pub struct CodeMeta {
    pub dis_u_2: u32,
    pub factor_ppc: u32,
    pub factor_ip: u32,
    pub factor_err: u32,
}

/// The root record of the index, stored in slot 0 of page 0.
#[derive(Clone, Copy, PartialEq, Eq, Structural, Debug)]
pub struct MetaTuple {
    pub dims: u32,
    pub height_of_root: u32,
    pub is_residual: bool,
    pub rerank_in_heap: bool,
    pub vectors_first: u32,
    pub root_mean: TuplePointer,
    pub root_first: u32,
    pub freepage_first: u32,
}

/// One piece of a full-precision vector.  Vectors larger than a page are
/// split into a chain of pieces; `next` is `None` on the final piece.
#[derive(Clone, Debug)]
pub struct VectorTuple {
    pub payload: Option<u64>,
    pub elements: Vec<u32>,
    pub next: Option<TuplePointer>,
}

/// A batch of up to [`BATCH`] child descriptors on an internal level.
///
/// For slot `j` with `mask[j]` set: `mean[j]` points at the child centroid's
/// vector chain, `first[j]` at the first page of the child's own tuple
/// chain, `metas[j]` holds its code metadata, and the packed block `t`
/// carries the 1-bit codes of all batch members in fast-scan order.
#[derive(Clone, Debug)]
pub struct H1Tuple {
    pub mask: Vec<bool>,
    pub mean: Vec<TuplePointer>,
    pub first: Vec<u32>,
    pub metas: Vec<CodeMeta>,
    pub t: Vec<u64>,
}

/// A batch of up to [`BATCH`] stored vectors on the leaf level.
#[derive(Clone, Debug)]
pub struct H0Tuple {
    pub mask: Vec<bool>,
    pub mean: Vec<TuplePointer>,
    pub payload: Vec<u64>,
    pub metas: Vec<CodeMeta>,
    pub t: Vec<u64>,
}

/// The entry to the leaf chain of one first-level cluster.
#[derive(Clone, Copy, PartialEq, Eq, Structural, Debug)]
pub struct JumpTuple {
    pub first: u32,
}

/// A bitmap marking which of [`FREEPAGE_WINDOW`] consecutive pages are free.
#[derive(Clone, Debug)]
pub struct FreepageTuple {
    pub words: Vec<u64>,
}

/// Any tuple that can occupy a page slot.
#[derive(Clone, Debug)]
pub enum Tuple {
    Meta(MetaTuple),
    Vector(VectorTuple),
    H1(H1Tuple),
    H0(H0Tuple),
    Jump(JumpTuple),
    Freepage(FreepageTuple),
}

/// Structural well-formedness of a tuple: batch vectors have exactly
/// [`BATCH`] entries and a freepage bitmap has exactly [`FREEPAGE_WORDS`]
/// words.
pub open spec fn tuple_wf(t: Tuple) -> bool {
    match t {
        Tuple::Meta(_) => true,
        Tuple::Vector(_) => true,
        Tuple::H1(h) => h.mask@.len() == BATCH && h.mean@.len() == BATCH && h.first@.len()
            == BATCH && h.metas@.len() == BATCH,
        Tuple::H0(h) => h.mask@.len() == BATCH && h.mean@.len() == BATCH && h.payload@.len()
            == BATCH && h.metas@.len() == BATCH,
        Tuple::Jump(_) => true,
        Tuple::Freepage(f) => f.words@.len() == FREEPAGE_WORDS,
    }
}

/// The serialized size of a tuple in bytes, as accounted by the pages.
pub open spec fn spec_size_of(t: Tuple) -> int {
    match t {
        Tuple::Meta(_) => 40,
        Tuple::Vector(v) => 24 + 4 * (v.elements@.len() as int),
        Tuple::H1(h) => 708 + 8 * (h.t@.len() as int),
        Tuple::H0(h) => 964 + 8 * (h.t@.len() as int),
        Tuple::Jump(_) => 8,
        Tuple::Freepage(_) => 4096,
    }
}

/// Copies a vector of plain values element by element.
pub fn copy_vec<T: Copy>(v: &Vec<T>) -> (r: Vec<T>)
    ensures
        r@ == v@,
{
    let mut r: Vec<T> = Vec::new();
    let n = v.len();
    for i in 0..n
        invariant
            n == v@.len(),
            r@ == v@.take(i as int),
    {
        r.push(v[i]);
        proof {
            assert(r@ =~= v@.take(i + 1));
        }
    }
    proof {
        assert(v@.take(n as int) =~= v@);
    }
    r
}

impl Tuple {
    /// Computes the serialized size of the tuple.
    pub fn size_of(&self) -> (r: u32)
        requires
            spec_size_of(*self) <= u32::MAX,
        ensures
            r == spec_size_of(*self),
    {
        match self {
            Tuple::Meta(_) => 40,
            Tuple::Vector(v) => {
                proof {
                    assert(spec_size_of(*self) == 24 + 4 * v.elements@.len());
                }
                24 + 4 * (v.elements.len() as u32)
            },
            Tuple::H1(h) => 708 + 8 * (h.t.len() as u32),
            Tuple::H0(h) => 964 + 8 * (h.t.len() as u32),
            Tuple::Jump(_) => 8,
            Tuple::Freepage(_) => 4096,
        }
    }
}

} // verus!
