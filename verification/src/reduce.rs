//! Integer reductions over byte slices.
//!
//! These are the scalar reference forms of the quantized kernels: the sums
//! and dot products of unsigned byte vectors that the fast-scan path and the
//! code metadata computations rely on.

use vstd::prelude::*;

verus! {

/// Mathematical sum of a byte sequence.
pub open spec fn sum_of_bytes(s: Seq<u8>) -> int
    decreases s.len(),
{
    if s.len() == 0 {
        0
    } else {
        sum_of_bytes(s.drop_last()) + s.last()
    }
}

/// Mathematical dot product of two byte sequences of equal length.
pub open spec fn dot_of_bytes(s: Seq<u8>, t: Seq<u8>) -> int
    decreases s.len(),
{
    if s.len() == 0 || t.len() == 0 {
        0
    } else {
        dot_of_bytes(s.drop_last(), t.drop_last()) + s.last() * t.last()
    }
}

/// The sum of `n` bytes is at most `255 * n`.
pub proof fn lemma_sum_of_bytes_bound(s: Seq<u8>)
    ensures
        0 <= sum_of_bytes(s) <= 255 * s.len(),
    decreases s.len(),
{
    if s.len() > 0 {
        lemma_sum_of_bytes_bound(s.drop_last());
    }
}

/// The dot product of `n`-byte vectors is at most `65025 * n`.
pub proof fn lemma_dot_of_bytes_bound(s: Seq<u8>, t: Seq<u8>)
    ensures
        0 <= dot_of_bytes(s, t) <= 65025 * s.len(),
    decreases s.len(),
{
    if s.len() > 0 && t.len() > 0 {
        lemma_dot_of_bytes_bound(s.drop_last(), t.drop_last());
        assert(0 <= s.last() * t.last() <= 65025) by (nonlinear_arith)
            requires
                0 <= s.last() <= 255,
                0 <= t.last() <= 255,
        ;
    }
}

/// Sum of the elements of `s` times those of `t`, both widened to `u32`.
pub fn reduce_sum_of_x_as_u32_y_as_u32(s: &[u8], t: &[u8]) -> (result: u32)
    requires
        s@.len() == t@.len(),
        dot_of_bytes(s@, t@) <= u32::MAX,
    ensures
        result == dot_of_bytes(s@, t@),
{
    let n = s.len();
    let mut result: u32 = 0;
    for i in 0..n
        invariant
            n == s@.len() == t@.len(),
            result == dot_of_bytes(s@.take(i as int), t@.take(i as int)),
            dot_of_bytes(s@, t@) <= u32::MAX,
    {
        proof {
            assert(s@.take(i + 1).drop_last() =~= s@.take(i as int));
            assert(t@.take(i + 1).drop_last() =~= t@.take(i as int));
            lemma_dot_prefix_monotonic(s@, t@, i + 1);
        }
        result = result + (s[i] as u32) * (t[i] as u32);
    }
    proof {
        assert(s@.take(n as int) =~= s@);
        assert(t@.take(n as int) =~= t@);
    }
    result
}

/// A prefix of the dot product never exceeds the whole: all terms are
/// non-negative.
proof fn lemma_dot_prefix_monotonic(s: Seq<u8>, t: Seq<u8>, i: int)
    requires
        s.len() == t.len(),
        0 <= i <= s.len(),
    ensures
        dot_of_bytes(s.take(i), t.take(i)) <= dot_of_bytes(s, t),
    decreases s.len() - i,
{
    if i < s.len() {
        assert(s.take(i + 1).drop_last() =~= s.take(i));
        assert(t.take(i + 1).drop_last() =~= t.take(i));
        lemma_dot_prefix_monotonic(s, t, i + 1);
    } else {
        assert(s.take(i) =~= s);
        assert(t.take(i) =~= t);
    }
}

/// A prefix of the sum never exceeds the whole.
proof fn lemma_sum_prefix_monotonic(s: Seq<u8>, i: int)
    requires
        0 <= i <= s.len(),
    ensures
        sum_of_bytes(s.take(i)) <= sum_of_bytes(s),
    decreases s.len() - i,
{
    if i < s.len() {
        assert(s.take(i + 1).drop_last() =~= s.take(i));
        lemma_sum_prefix_monotonic(s, i + 1);
    } else {
        assert(s.take(i) =~= s);
    }
}

/// Sum of the elements of `s`, widened to `u16`.
pub fn reduce_sum_of_x_as_u16(s: &[u8]) -> (result: u16)
    requires
        sum_of_bytes(s@) <= u16::MAX,
    ensures
        result == sum_of_bytes(s@),
{
    let n = s.len();
    let mut result: u16 = 0;
    for i in 0..n
        invariant
            n == s@.len(),
            result == sum_of_bytes(s@.take(i as int)),
            sum_of_bytes(s@) <= u16::MAX,
    {
        proof {
            assert(s@.take(i + 1).drop_last() =~= s@.take(i as int));
            lemma_sum_prefix_monotonic(s@, i + 1);
        }
        result = result + s[i] as u16;
    }
    proof {
        assert(s@.take(n as int) =~= s@);
    }
    result
}

/// Sum of the elements of `s`, widened to `u32`.
pub fn reduce_sum_of_x_as_u32(s: &[u8]) -> (result: u32)
    requires
        sum_of_bytes(s@) <= u32::MAX,
    ensures
        result == sum_of_bytes(s@),
{
    let n = s.len();
    let mut result: u32 = 0;
    for i in 0..n
        invariant
            n == s@.len(),
            result == sum_of_bytes(s@.take(i as int)),
            sum_of_bytes(s@) <= u32::MAX,
    {
        proof {
            assert(s@.take(i + 1).drop_last() =~= s@.take(i as int));
            lemma_sum_prefix_monotonic(s@, i + 1);
        }
        result = result + s[i] as u32;
    }
    proof {
        assert(s@.take(n as int) =~= s@);
    }
    result
}

/// Mathematical dot product of two packed-nibble sequences: each byte
/// carries two 4-bit lattice values, low nibble first, and corresponding
/// nibbles are multiplied and summed.
pub open spec fn u4_dot_of_bytes(x: Seq<u8>, y: Seq<u8>) -> int
    decreases x.len(),
{
    if x.len() == 0 || y.len() == 0 {
        0
    } else {
        u4_dot_of_bytes(x.drop_last(), y.drop_last()) + (x.last() % 16) * (y.last() % 16) + (
        x.last() / 16) * (y.last() / 16)
    }
}

/// A prefix of the packed-nibble dot product never exceeds the whole.
proof fn lemma_u4_dot_prefix_monotonic(x: Seq<u8>, y: Seq<u8>, i: int)
    requires
        x.len() == y.len(),
        0 <= i <= x.len(),
    ensures
        u4_dot_of_bytes(x.take(i), y.take(i)) <= u4_dot_of_bytes(x, y),
    decreases x.len() - i,
{
    if i < x.len() {
        assert(x.take(i + 1).drop_last() =~= x.take(i));
        assert(y.take(i + 1).drop_last() =~= y.take(i));
        lemma_u4_dot_prefix_monotonic(x, y, i + 1);
        assert(0 <= (x[i] % 16) * (y[i] % 16) && 0 <= (x[i] / 16) * (y[i] / 16))
            by (nonlinear_arith)
            requires
                0 <= x[i] <= 255,
                0 <= y[i] <= 255,
        ;
    } else {
        assert(x.take(i) =~= x);
        assert(y.take(i) =~= y);
    }
}

/// The packed-nibble dot product of `n`-byte vectors is at most `450 * n`.
pub proof fn lemma_u4_dot_of_bytes_bound(x: Seq<u8>, y: Seq<u8>)
    ensures
        0 <= u4_dot_of_bytes(x, y) <= 450 * x.len(),
    decreases x.len(),
{
    if x.len() > 0 && y.len() > 0 {
        lemma_u4_dot_of_bytes_bound(x.drop_last(), y.drop_last());
        assert(0 <= (x.last() % 16) * (y.last() % 16) <= 225 && 0 <= (x.last() / 16) * (
        y.last() / 16) <= 225) by (nonlinear_arith)
            requires
                0 <= x.last() <= 255,
                0 <= y.last() <= 255,
        ;
    }
}

/// Dot product of two packed-nibble codes, nibble by nibble: the scalar
/// form of the byte-code distance accumulator.
pub fn u4_u4_reduce_sum_of_xy(x: &[u8], y: &[u8]) -> (result: u32)
    requires
        x@.len() == y@.len(),
        u4_dot_of_bytes(x@, y@) <= u32::MAX,
    ensures
        result == u4_dot_of_bytes(x@, y@),
{
    let n = x.len();
    let mut result: u32 = 0;
    for i in 0..n
        invariant
            n == x@.len() == y@.len(),
            result == u4_dot_of_bytes(x@.take(i as int), y@.take(i as int)),
            u4_dot_of_bytes(x@, y@) <= u32::MAX,
    {
        proof {
            assert(x@.take(i + 1).drop_last() =~= x@.take(i as int));
            assert(y@.take(i + 1).drop_last() =~= y@.take(i as int));
            lemma_u4_dot_prefix_monotonic(x@, y@, i + 1);
        }
        let xl = (x[i] % 16) as u32;
        let xh = (x[i] / 16) as u32;
        let yl = (y[i] % 16) as u32;
        let yh = (y[i] / 16) as u32;
        result = result + xl * yl + xh * yh;
    }
    proof {
        assert(x@.take(n as int) =~= x@);
        assert(y@.take(n as int) =~= y@);
    }
    result
}

} // verus!
