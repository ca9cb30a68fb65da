//! A disk-layout-faithful core of a hierarchical IVF + RaBitQ vector index.
//!
//! The crate verifies the control logic of the index: the slotted page store,
//! the typed tuples and their chains, the freepage bitmap allocator, the
//! candidate queues and the reranking state machine, insertion, search,
//! vacuum, and the integer half of the quantized fast-scan path.  Floating
//! point kernels (exact distances, code construction, rotation) are supplied
//! by callers through the `kernel` interface; the verified code treats the
//! values they hand back as opaque ordered scalars.

use vstd::prelude::*;

pub mod builder;
pub mod freepages;
pub mod insert;
pub mod kernel;
pub mod kmeans;
pub mod operator;
pub mod packing;
pub mod page;
pub mod prefetcher;
pub mod prewarm;
pub mod queue;
pub mod reduce;
pub mod rerank;
pub mod scan;
pub mod tuples;
pub mod vacuum;
pub mod vectors;

verus! {

/// A totally ordered distance value.  Smaller means closer.  Callers encode
/// their floating-point distances into this order-preserving integer form.
pub type Distance = u32;

/// The failure of an index operation: persistent state is malformed — a
/// referenced slot is missing or a tuple is not of the kind its place
/// requires — or a caller-supplied argument is outside what the index
/// accepts.
#[derive(Clone, Copy, PartialEq, Eq, Structural, Debug)]
pub enum IndexError {
    DataCorruption,
    InvalidInput,
}

} // verus!
