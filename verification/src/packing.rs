//! Packed code blocks and the fast-scan accumulator.
//!
//! Thirty-two quantized codes are interleaved into one block so that a
//! fixed dimension quartet of all candidates sits in two 64-bit words: the
//! nibble of candidate `c` in group `g` is the 4-bit field at offset
//! `4 * (c % 16)` of word `2 * g + c / 16`.  The scan walks the groups and
//! adds, for every candidate at once, the lookup-table byte its nibble
//! selects.  The streaming accumulator does the same for one candidate at a
//! time; the two agree on every block, which is the equivalence the
//! fast-scan path rests on.

use vstd::prelude::*;

use crate::tuples::BATCH;

verus! {

/// The nibble of candidate `c` in group `g` of a packed block.
pub open spec fn block_nibble(t: Seq<u64>, g: int, c: int) -> u64 {
    if c < 16 {
        (t[2 * g] >> ((4 * c) as u64)) & 15
    } else {
        (t[2 * g + 1] >> ((4 * (c - 16)) as u64)) & 15
    }
}

/// The fast-scan sum of candidate `c` over the first `g` groups: each group
/// contributes the lookup-table byte selected by the candidate's nibble.
pub open spec fn block_sum(t: Seq<u64>, lut: Seq<u8>, c: int, g: int) -> int
    decreases g,
{
    if g <= 0 {
        0
    } else {
        block_sum(t, lut, c, g - 1) + lut[16 * (g - 1) + block_nibble(t, g - 1, c)]
    }
}

/// The streaming sum of one unpacked code over the first `g` groups.
pub open spec fn stream_sum(nibbles: Seq<u8>, lut: Seq<u8>, g: int) -> int
    decreases g,
{
    if g <= 0 {
        0
    } else {
        stream_sum(nibbles, lut, g - 1) + lut[16 * (g - 1) + nibbles[g - 1]]
    }
}

/// A nibble extracted from a block word is below 16.
pub proof fn lemma_nibble_range(t: Seq<u64>, g: int, c: int)
    requires
        0 <= c < BATCH,
    ensures
        block_nibble(t, g, c) < 16,
{
    if c < 16 {
        let w = t[2 * g];
        let s = (4 * c) as u64;
        assert((w >> s) & 15 < 16) by (bit_vector);
    } else {
        let w = t[2 * g + 1];
        let s = (4 * (c - 16)) as u64;
        assert((w >> s) & 15 < 16) by (bit_vector);
    }
}

/// Packs a vector of bits into nibbles, four bits per dimension quartet,
/// padding the tail with zero bits.
pub fn pack_to_u4(bits: &Vec<bool>) -> (r: Vec<u8>)
    requires
        bits@.len() <= 60000,
    ensures
        r@.len() == (bits@.len() + 3) / 4,
        forall|g: int|
            0 <= g < r@.len() ==> #[trigger] r@[g] == nibble_of_bits(bits@, g),
        forall|g: int| 0 <= g < r@.len() ==> r@[g] < 16,
{
    let n = bits.len();
    let groups = (n + 3) / 4;
    let mut r: Vec<u8> = Vec::new();
    for g in 0..groups
        invariant
            n == bits@.len(),
            groups == (n + 3) / 4,
            n + 3 <= usize::MAX,
            r@.len() == g,
            forall|k: int| 0 <= k < g ==> #[trigger] r@[k] == nibble_of_bits(bits@, k),
            forall|k: int| 0 <= k < g ==> r@[k] < 16,
    {
        let mut v: u8 = 0;
        if 4 * g < n && bits[4 * g] {
            v = v + 1;
        }
        if 4 * g + 1 < n && bits[4 * g + 1] {
            v = v + 2;
        }
        if 4 * g + 2 < n && bits[4 * g + 2] {
            v = v + 4;
        }
        if 4 * g + 3 < n && bits[4 * g + 3] {
            v = v + 8;
        }
        r.push(v);
    }
    r
}

/// The nibble a dimension quartet of a bit vector packs to.
pub open spec fn nibble_of_bits(bits: Seq<bool>, g: int) -> u8 {
    (bit_at(bits, 4 * g) + 2 * bit_at(bits, 4 * g + 1) + 4 * bit_at(bits, 4 * g + 2) + 8 * bit_at(
        bits,
        4 * g + 3,
    )) as u8
}

/// A bit of the vector as 0 or 1, with 0 beyond the end.
pub open spec fn bit_at(bits: Seq<bool>, i: int) -> int {
    if 0 <= i < bits.len() && bits[i] {
        1
    } else {
        0
    }
}

/// Interleaves up to [`BATCH`] unpacked codes, all of `groups` nibbles,
/// into a packed block, padding missing candidates with zero nibbles.
pub fn padding_pack(codes: &Vec<Vec<u8>>, groups: usize) -> (r: Vec<u64>)
    requires
        codes@.len() <= BATCH,
        forall|c: int| 0 <= c < codes@.len() ==> (#[trigger] codes@[c])@.len() == groups,
        forall|c: int, g: int|
            0 <= c < codes@.len() && 0 <= g < groups ==> #[trigger] (codes@[c])@[g] < 16,
        2 * groups <= usize::MAX,
    ensures
        r@.len() == 2 * groups,
        forall|g: int, c: int|
            0 <= g < groups && 0 <= c < BATCH ==> block_nibble(r@, g, c) == (if c < codes@.len() {
                (codes@[c])@[g] as u64
            } else {
                0
            }),
{
    let mut r: Vec<u64> = Vec::new();
    for g in 0..groups
        invariant
            codes@.len() <= BATCH,
            forall|c: int| 0 <= c < codes@.len() ==> (#[trigger] codes@[c])@.len() == groups,
            forall|c: int, g2: int|
                0 <= c < codes@.len() && 0 <= g2 < groups ==> #[trigger] (codes@[c])@[g2] < 16,
            2 * groups <= usize::MAX,
            r@.len() == 2 * g,
            forall|g2: int, c: int|
                0 <= g2 < g && 0 <= c < BATCH ==> block_nibble(r@, g2, c) == (if c < codes@.len() {
                    (codes@[c])@[g2] as u64
                } else {
                    0
                }),
    {
        let ghost rprev = r@;
        let mut lo: u64 = 0;
        let mut hi: u64 = 0;
        proof {
            assert forall|c2: int|
                0 <= c2 < 16 implies #[trigger] (0u64 >> ((4 * c2) as u64)) & 15 == 0 by {
                let s2 = (4 * c2) as u64;
                assert((0u64 >> s2) & 15 == 0) by (bit_vector);
            }
        }
        let m = codes.len();
        for c in 0..m
            invariant
                m == codes@.len() <= BATCH,
                forall|c2: int| 0 <= c2 < m ==> (#[trigger] codes@[c2])@.len() == groups,
                forall|c2: int, g2: int|
                    0 <= c2 < m && 0 <= g2 < groups ==> #[trigger] (codes@[c2])@[g2] < 16,
                g < groups,
                forall|c2: int|
                    0 <= c2 < 16 ==> #[trigger] (lo >> ((4 * c2) as u64)) & 15 == (if c2 < c
                        && c2 < m {
                        (codes@[c2])@[g as int] as u64
                    } else {
                        0
                    }),
                forall|c2: int|
                    0 <= c2 < 16 ==> #[trigger] (hi >> ((4 * c2) as u64)) & 15 == (if c2 + 16
                        < c {
                        (codes@[c2 + 16])@[g as int] as u64
                    } else {
                        0
                    }),
        {
            let nib = codes[c][g] as u64;
            if c < 16 {
                let ghost lo0 = lo;
                let sh = 4 * (c as u64);
                lo = lo | (nib << sh);
                proof {
                    lemma_nibble_field_or(lo0, nib, c as int);
                }
            } else {
                let ghost hi0 = hi;
                let sh = 4 * ((c - 16) as u64);
                hi = hi | (nib << sh);
                proof {
                    lemma_nibble_field_or(hi0, nib, (c - 16) as int);
                }
            }
        }
        r.push(lo);
        r.push(hi);
        proof {
            assert forall|g2: int, c: int|
                0 <= g2 < g + 1 && 0 <= c < BATCH implies block_nibble(r@, g2, c) == (if c
                < codes@.len() {
                (codes@[c])@[g2] as u64
            } else {
                0
            }) by {
                if g2 < g {
                    assert(r@[2 * g2] == rprev[2 * g2]);
                    assert(r@[2 * g2 + 1] == rprev[2 * g2 + 1]);
                    assert(block_nibble(rprev, g2, c) == (if c < codes@.len() {
                        (codes@[c])@[g2] as u64
                    } else {
                        0
                    }));
                } else {
                    assert(r@[2 * g2] == lo);
                    assert(r@[2 * g2 + 1] == hi);
                }
            }
        }
    }
    r
}

/// Writing nibble `n` into an all-clear 4-bit field at lane `c` leaves
/// every lane holding what it held, except lane `c`, which now holds `n`.
proof fn lemma_nibble_field_or(w: u64, n: u64, c: int)
    requires
        0 <= c < 16,
        n < 16,
        (w >> ((4 * c) as u64)) & 15 == 0,
    ensures
        forall|c2: int|
            0 <= c2 < 16 ==> #[trigger] ((w | (n << ((4 * c) as u64))) >> ((4 * c2) as u64)) & 15
                == (if c2 == c {
                n
            } else {
                (w >> ((4 * c2) as u64)) & 15
            }),
{
    let s = (4 * c) as u64;
    assert forall|c2: int|
        0 <= c2 < 16 implies #[trigger] ((w | (n << s)) >> ((4 * c2) as u64)) & 15 == (if c2
        == c {
        n
    } else {
        (w >> ((4 * c2) as u64)) & 15
    }) by {
        let s2 = (4 * c2) as u64;
        if c2 == c {
            assert(((w | (n << s)) >> s2) & 15 == n) by (bit_vector)
                requires
                    s == s2,
                    s < 64,
                    s % 4 == 0,
                    n < 16,
                    (w >> s) & 15 == 0,
            ;
        } else {
            assert(((w | (n << s)) >> s2) & 15 == (w >> s2) & 15) by (bit_vector)
                requires
                    s < 64,
                    s2 < 64,
                    s % 4 == 0,
                    s2 % 4 == 0,
                    s != s2,
                    n < 16,
            ;
        }
    }
}

/// Overwriting the 4-bit field at lane `c` changes that lane and no other.
proof fn lemma_nibble_field_set(w: u64, n: u64, c: int)
    requires
        0 <= c < 16,
        n < 16,
    ensures
        forall|c2: int|
            0 <= c2 < 16 ==> #[trigger] (((w & !(15u64 << ((4 * c) as u64))) | (n << ((4
                * c) as u64))) >> ((4 * c2) as u64)) & 15 == (if c2 == c {
                n
            } else {
                (w >> ((4 * c2) as u64)) & 15
            }),
{
    let s = (4 * c) as u64;
    assert forall|c2: int|
        0 <= c2 < 16 implies #[trigger] (((w & !(15u64 << s)) | (n << s)) >> ((4 * c2) as u64))
        & 15 == (if c2 == c {
        n
    } else {
        (w >> ((4 * c2) as u64)) & 15
    }) by {
        let s2 = (4 * c2) as u64;
        if c2 == c {
            assert((((w & !(15u64 << s)) | (n << s)) >> s2) & 15 == n) by (bit_vector)
                requires
                    s == s2,
                    s < 64,
                    s % 4 == 0,
                    n < 16,
            ;
        } else {
            assert((((w & !(15u64 << s)) | (n << s)) >> s2) & 15 == (w >> s2) & 15)
                by (bit_vector)
                requires
                    s < 64,
                    s2 < 64,
                    s % 4 == 0,
                    s2 % 4 == 0,
                    s != s2,
                    n < 16,
            ;
        }
    }
}

/// Writes one candidate's code into its block lanes: for every group, lane
/// `c` takes the candidate's nibble while every other lane keeps its value.
pub fn block_set_column(t: &mut Vec<u64>, c: usize, nibbles: &Vec<u8>, groups: usize)
    requires
        old(t)@.len() == 2 * groups,
        groups <= 16384,
        c < BATCH,
        nibbles@.len() >= groups,
        forall|g: int| 0 <= g < nibbles@.len() ==> #[trigger] nibbles@[g] < 16,
    ensures
        final(t)@.len() == 2 * groups,
        forall|g: int|
            0 <= g < groups ==> block_nibble(final(t)@, g, c as int) == nibbles@[g],
        forall|g: int, c2: int|
            0 <= g < groups && 0 <= c2 < BATCH && c2 != c ==> block_nibble(final(t)@, g, c2)
                == block_nibble(old(t)@, g, c2),
{
    for g in 0..groups
        invariant
            t@.len() == 2 * groups,
            groups <= 16384,
            c < BATCH,
            nibbles@.len() >= groups,
            forall|g2: int| 0 <= g2 < nibbles@.len() ==> #[trigger] nibbles@[g2] < 16,
            forall|g2: int|
                0 <= g2 < g ==> block_nibble(t@, g2, c as int) == nibbles@[g2],
            forall|g2: int, c2: int|
                0 <= g2 < groups && 0 <= c2 < BATCH && c2 != c ==> block_nibble(t@, g2, c2)
                    == block_nibble(old(t)@, g2, c2),
            forall|g2: int|
                g <= g2 < groups ==> block_nibble(t@, g2, c as int) == block_nibble(
                    old(t)@,
                    g2,
                    c as int,
                ),
    {
        let ghost tprev = t@;
        let nib = nibbles[g] as u64;
        if c < 16 {
            let w = t[2 * g];
            let s = 4 * (c as u64);
            t.set(2 * g, (w & !(15u64 << s)) | (nib << s));
            proof {
                lemma_nibble_field_set(w, nib, c as int);
            }
        } else {
            let w = t[2 * g + 1];
            let s = 4 * ((c - 16) as u64);
            t.set(2 * g + 1, (w & !(15u64 << s)) | (nib << s));
            proof {
                lemma_nibble_field_set(w, nib, c as int - 16);
            }
        }
        proof {
            assert forall|g2: int, c2: int|
                0 <= g2 < groups && 0 <= c2 < BATCH && !(g2 == g && c2 == c) implies block_nibble(
                t@,
                g2,
                c2,
            ) == block_nibble(tprev, g2, c2) by {
                if g2 != g {
                    assert(t@[2 * g2] == tprev[2 * g2]);
                    assert(t@[2 * g2 + 1] == tprev[2 * g2 + 1]);
                }
            }
            assert(block_nibble(t@, g as int, c as int) == nibbles@[g as int]);
        }
    }
}

/// Fast-scans a packed block: for all [`BATCH`] candidates at once, sums
/// the lookup-table bytes their nibbles select across every group.
pub fn accumulate_block(t: &Vec<u64>, lut: &Vec<u8>, groups: usize) -> (r: Vec<u32>)
    requires
        t@.len() == 2 * groups,
        lut@.len() == 16 * groups,
        groups <= 16384,
    ensures
        r@.len() == BATCH,
        forall|c: int| 0 <= c < BATCH ==> #[trigger] r@[c] == block_sum(t@, lut@, c, groups as int),
{
    let mut r: Vec<u32> = Vec::new();
    for c in 0..BATCH
        invariant
            r@.len() == c,
            t@.len() == 2 * groups,
            lut@.len() == 16 * groups,
            groups <= 16384,
            forall|c2: int|
                0 <= c2 < c ==> #[trigger] r@[c2] == block_sum(t@, lut@, c2, groups as int),
    {
        let mut acc: u32 = 0;
        for g in 0..groups
            invariant
                c < BATCH,
                t@.len() == 2 * groups,
                lut@.len() == 16 * groups,
                groups <= 16384,
                acc == block_sum(t@, lut@, c as int, g as int),
                acc <= 255 * g,
        {
            let nib = if c < 16 {
                (t[2 * g] >> (4 * (c as u64))) & 15
            } else {
                (t[2 * g + 1] >> (4 * ((c - 16) as u64))) & 15
            };
            proof {
                lemma_nibble_range(t@, g as int, c as int);
                assert(nib == block_nibble(t@, g as int, c as int));
            }
            acc = acc + lut[16 * g + (nib as usize)] as u32;
        }
        r.push(acc);
    }
    r
}

/// The streaming accumulator: the same lookup-table sum for one unpacked
/// code.
pub fn accumulate(nibbles: &Vec<u8>, lut: &Vec<u8>) -> (r: u32)
    requires
        lut@.len() == 16 * nibbles@.len(),
        nibbles@.len() <= 16384,
        forall|g: int| 0 <= g < nibbles@.len() ==> #[trigger] nibbles@[g] < 16,
    ensures
        r == stream_sum(nibbles@, lut@, nibbles@.len() as int),
{
    let groups = nibbles.len();
    let mut acc: u32 = 0;
    for g in 0..groups
        invariant
            groups == nibbles@.len(),
            lut@.len() == 16 * groups,
            groups <= 16384,
            forall|g2: int| 0 <= g2 < groups ==> #[trigger] nibbles@[g2] < 16,
            acc == stream_sum(nibbles@, lut@, g as int),
            acc <= 255 * g,
    {
        acc = acc + lut[16 * g + (nibbles[g] as usize)] as u32;
    }
    acc
}

/// Fast-scan equivalence: on a block packed from unpacked codes, the block
/// accumulator of any present candidate equals the streaming accumulator of
/// that candidate's own code, for every lookup table.
pub proof fn lemma_fast_scan_equivalence(
    t: Seq<u64>,
    codes: Seq<Seq<u8>>,
    lut: Seq<u8>,
    c: int,
    g: int,
)
    requires
        0 <= c < codes.len() <= BATCH,
        0 <= g <= codes[c].len(),
        forall|g2: int|
            0 <= g2 < codes[c].len() ==> block_nibble(t, g2, c) == (#[trigger] codes[c][g2]) as u64,
    ensures
        block_sum(t, lut, c, g) == stream_sum(codes[c], lut, g),
    decreases g,
{
    if g > 0 {
        lemma_fast_scan_equivalence(t, codes, lut, c, g - 1);
    }
}

/// Packs pairs of 4-bit values into bytes, low nibble first, padding an
/// odd tail with zero.
pub fn pack_code(input: &Vec<u8>) -> (r: Vec<u8>)
    requires
        input@.len() <= 60000,
        forall|i: int| 0 <= i < input@.len() ==> #[trigger] input@[i] < 16,
    ensures
        r@.len() == (input@.len() + 1) / 2,
        forall|i: int|
            0 <= i < r@.len() ==> #[trigger] r@[i] == byte_of_nibbles(input@, i),
{
    let n = input.len();
    let pairs = (n + 1) / 2;
    let mut r: Vec<u8> = Vec::new();
    for i in 0..pairs
        invariant
            n == input@.len(),
            pairs == (n + 1) / 2,
            n + 1 <= usize::MAX,
            forall|j: int| 0 <= j < n ==> #[trigger] input@[j] < 16,
            r@.len() == i,
            forall|j: int| 0 <= j < i ==> #[trigger] r@[j] == byte_of_nibbles(input@, j),
    {
        let lo = input[2 * i];
        let hi = if 2 * i + 1 < n {
            input[2 * i + 1]
        } else {
            0
        };
        r.push(lo + 16 * hi);
    }
    r
}

/// The byte a pair of 4-bit values packs to, with a zero for a missing
/// second value.
pub open spec fn byte_of_nibbles(input: Seq<u8>, i: int) -> u8 {
    (input[2 * i] + 16 * (if 2 * i + 1 < input.len() {
        input[2 * i + 1]
    } else {
        0
    })) as u8
}

} // verus!
