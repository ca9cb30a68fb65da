//! Streaming accessors and the distance-kind markers.
//!
//! A vector stored on pages arrives in slices; accessors fold over those
//! slices.  [`Accessor2`] folds over two streams in lock step, [`Accessor1`]
//! over one; [`LAccess`] and [`RAccess`] turn a two-stream accessor into a
//! one-stream accessor by fixing the left or the right side in advance.
//! The markers [`L2`] and [`Dot`] name the two supported metrics, and
//! [`Op`] pairs an element flavour with a metric.

use vstd::prelude::*;

use std::marker::PhantomData;

verus! {

/// The metric fixed at build time.
#[derive(Clone, Copy, PartialEq, Eq, Structural, Debug)]
pub enum DistanceKind {
    L2,
    Dot,
}

/// Folds over two elementwise streams delivered slice by slice.
pub trait Accessor2<E0, E1, M0, M1> {
    type Output;

    fn push(&mut self, input: &[E0], target: &[E1]);

    fn finish(self, input: M0, target: M1) -> Self::Output;
}

impl<E0, E1, M0: Copy, M1: Copy> Accessor2<E0, E1, M0, M1> for () {
    type Output = ();

    fn push(&mut self, _input: &[E0], _target: &[E1]) {
    }

    fn finish(self, _input: M0, _target: M1) -> Self::Output {
    }
}

impl<E0, E1, M0: Copy, M1: Copy, A: Accessor2<E0, E1, M0, M1>> Accessor2<E0, E1, M0, M1> for (A,) {
    type Output = (A::Output,);

    fn push(&mut self, input: &[E0], target: &[E1]) {
        self.0.push(input, target);
    }

    fn finish(self, input: M0, target: M1) -> Self::Output {
        (self.0.finish(input, target),)
    }
}

impl<
    E0,
    E1,
    M0: Copy,
    M1: Copy,
    A: Accessor2<E0, E1, M0, M1>,
    B: Accessor2<E0, E1, M0, M1>,
> Accessor2<E0, E1, M0, M1> for (A, B) {
    type Output = (A::Output, B::Output);

    fn push(&mut self, input: &[E0], target: &[E1]) {
        self.0.push(input, target);
        self.1.push(input, target);
    }

    fn finish(self, input: M0, target: M1) -> Self::Output {
        (self.0.finish(input, target), self.1.finish(input, target))
    }
}

/// Folds over one elementwise stream delivered slice by slice.
pub trait Accessor1<E, M> {
    type Output;

    fn push(&mut self, input: &[E]);

    fn finish(self, input: M) -> Self::Output;
}

impl<E, M: Copy> Accessor1<E, M> for () {
    type Output = ();

    fn push(&mut self, _input: &[E]) {
    }

    fn finish(self, _input: M) -> Self::Output {
    }
}

/// A two-stream accessor with the left stream fixed in advance: each pushed
/// slice is matched against the next piece of the fixed elements.  A push
/// larger than what remains of the fixed side is not consumed; it raises
/// the `exhausted` flag instead, which the caller can inspect.
pub struct LAccess<'a, E, M, A> {
    pub elements: &'a [E],
    pub metadata: M,
    pub accessor: A,
    pub exhausted: bool,
}

impl<'a, E, M, A> LAccess<'a, E, M, A> {
    /// Fixes the left-hand elements and metadata.
    pub fn new(fixed: (&'a [E], M), accessor: A) -> (r: Self)
        ensures
            r.elements == fixed.0,
            r.metadata == fixed.1,
            r.accessor == accessor,
            !r.exhausted,
    {
        let (elements, metadata) = fixed;
        Self { elements, metadata, accessor, exhausted: false }
    }
}

impl<E0, E1, M0: Copy, M1, A: Accessor2<E0, E1, M0, M1>> Accessor1<E1, M1> for LAccess<
    '_,
    E0,
    M0,
    A,
> {
    type Output = A::Output;

    fn push(&mut self, rhs: &[E1]) {
        if rhs.len() <= self.elements.len() {
            let (lhs, elements) = self.elements.split_at(rhs.len());
            self.accessor.push(lhs, rhs);
            self.elements = elements;
        } else {
            self.exhausted = true;
        }
    }

    fn finish(self, rhs: M1) -> Self::Output {
        self.accessor.finish(self.metadata, rhs)
    }
}

/// A two-stream accessor with the right stream fixed in advance.  As with
/// [`LAccess`], an oversized push raises the `exhausted` flag.
pub struct RAccess<'a, E, M, A> {
    pub elements: &'a [E],
    pub metadata: M,
    pub accessor: A,
    pub exhausted: bool,
}

impl<'a, E, M, A> RAccess<'a, E, M, A> {
    /// Fixes the right-hand elements and metadata.
    pub fn new(fixed: (&'a [E], M), accessor: A) -> (r: Self)
        ensures
            r.elements == fixed.0,
            r.metadata == fixed.1,
            r.accessor == accessor,
            !r.exhausted,
    {
        let (elements, metadata) = fixed;
        Self { elements, metadata, accessor, exhausted: false }
    }
}

impl<E0, E1, M0, M1: Copy, A: Accessor2<E0, E1, M0, M1>> Accessor1<E0, M0> for RAccess<
    '_,
    E1,
    M1,
    A,
> {
    type Output = A::Output;

    fn push(&mut self, lhs: &[E0]) {
        if lhs.len() <= self.elements.len() {
            let (rhs, elements) = self.elements.split_at(lhs.len());
            self.accessor.push(lhs, rhs);
            self.elements = elements;
        } else {
            self.exhausted = true;
        }
    }

    fn finish(self, lhs: M0) -> Self::Output {
        self.accessor.finish(lhs, self.metadata)
    }
}

/// An accessor that concatenates every pushed slice, rebuilding a vector
/// that arrived in pieces.
pub struct Gather {
    pub parts: Vec<u32>,
}

impl Gather {
    /// An empty assembly.
    pub fn new() -> (r: Gather)
        ensures
            r.parts@.len() == 0,
    {
        Gather { parts: Vec::new() }
    }

    /// Appends one slice of elements.
    pub fn push(&mut self, input: &[u32])
        ensures
            final(self).parts@ == old(self).parts@ + input@,
    {
        let n = input.len();
        for i in 0..n
            invariant
                n == input@.len(),
                self.parts@ == old(self).parts@ + input@.take(i as int),
        {
            self.parts.push(input[i]);
            proof {
                assert(old(self).parts@ + input@.take(i + 1) =~= (old(self).parts@ + input@.take(
                    i as int,
                )).push(input@[i as int]));
            }
        }
        proof {
            assert(input@.take(n as int) =~= input@);
        }
    }

    /// The assembled elements.
    pub fn finish(self) -> (r: Vec<u32>)
        ensures
            r@ == self.parts@,
    {
        self.parts
    }
}

/// The squared-Euclidean metric marker.
#[derive(Clone, Copy, PartialEq, Eq, Structural, Debug)]
pub struct L2;

/// The negative-inner-product metric marker.
#[derive(Clone, Copy, PartialEq, Eq, Structural, Debug)]
pub struct Dot;

/// The metric a marker stands for.
pub trait OperatorDistance {
    fn kind(&self) -> DistanceKind;
}

impl OperatorDistance for L2 {
    fn kind(&self) -> (r: DistanceKind)
        ensures
            r == DistanceKind::L2,
    {
        DistanceKind::L2
    }
}

impl OperatorDistance for Dot {
    fn kind(&self) -> (r: DistanceKind)
        ensures
            r == DistanceKind::Dot,
    {
        DistanceKind::Dot
    }
}

/// Pairs an element flavour with a metric marker.
#[derive(Debug)]
pub struct Op<V, D> {
    pub marker: PhantomData<(V, D)>,
}

} // verus!
