//! The floating-point kernel interface.
//!
//! The verified index never computes with floating point.  Everything a
//! search or an insertion needs from the continuous world — quantized
//! lookup tables, the float tail of the lower-bound formula, exact
//! distances, code construction — comes through these traits, implemented
//! by the embedding application.  Vector elements travel as opaque 32-bit
//! patterns and distances as order-encoded integers; the verified logic
//! stores, moves and compares them, and its guarantees hold for every
//! implementation of the traits.

use vstd::prelude::*;

use crate::tuples::CodeMeta;
use crate::Distance;

verus! {

/// A quantized code for one vector: the four metadata scalars and the sign
/// bit of every rotated dimension.
pub struct CodeRecord {
    pub meta: CodeMeta,
    pub bits: Vec<bool>,
}

/// What a search needs from the continuous world, fixed per query: the
/// query-side lookup tables, the lower-bound formula and exact distances.
pub trait SearchKernel {
    /// The dimensionality of the query the kernel was built for.
    fn dims(&self) -> u32;

    /// The packed-block lookup table for the query against a cluster
    /// center, 16 bytes per dimension quartet; `None` asks for the
    /// plain (non-residual) table.
    fn lut(&self, center: Option<&Vec<u32>>) -> Vec<u8>;

    /// The lower bound for a candidate from its code metadata and its
    /// fast-scan accumulator.
    fn lower_bound(&self, meta: &CodeMeta, accum: u32) -> Distance;

    /// The exact distance from the query to a stored vector.
    fn exact(&self, elements: &Vec<u32>) -> Distance;

    /// The exact distance to the row behind a payload, re-fetched from the
    /// caller's storage; `None` when the row is gone.
    fn exact_by_payload(&self, payload: u64) -> Option<Distance>;
}

/// What an insertion or a build needs in addition: turning vectors into
/// codes and residuals.
pub trait CodeKernel {
    /// The quantized code of a vector.
    fn code(&self, elements: &Vec<u32>) -> CodeRecord;

    /// The difference `elements - center`, for residual coding.
    fn residual(&self, elements: &Vec<u32>, center: &Vec<u32>) -> Vec<u32>;

    /// The mean of a set of vectors, for the implicit root of an external
    /// build.
    fn centroid(&self, vectors: &Vec<Vec<u32>>) -> Vec<u32>;
}

/// What the internal build's clustering needs from the continuous world:
/// the Lloyd iterations themselves, and the nearest-centroid lookup used to
/// assign each point of a level to its parent.
pub trait ClusterKernel {
    /// Clusters `points` into `c` means.
    fn cluster(&self, c: usize, points: &Vec<Vec<u32>>) -> Vec<Vec<u32>>;

    /// The index of the mean nearest to `point`.
    fn nearest(&self, point: &Vec<u32>, means: &Vec<Vec<u32>>) -> (r: usize)
        ensures
            means@.len() > 0 ==> r < means@.len(),
    ;
}

} // verus!
