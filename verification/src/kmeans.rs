//! The integer side of clustering: assignment counts and empty-cluster
//! repair.
//!
//! Lloyd iterations keep, for every centroid, the number of samples
//! assigned to it.  After an update step a centroid can end up with no
//! samples; it is then refilled by splitting a heavier cluster, chosen
//! with probability proportional to its weight.  The law here: as long as
//! there are at least as many samples as clusters, the repair leaves no
//! cluster empty, and it never changes the total count.

use vstd::prelude::*;

use rand::Rng;

verus! {

/// The total of a count vector.
pub open spec fn sum_counts(s: Seq<u64>) -> int
    decreases s.len(),
{
    if s.len() == 0 {
        0
    } else {
        sum_counts(s.drop_last()) + s.last()
    }
}

/// Relies on rand's `Rng::random_range` over `0..n`: the draw is below `n`.
#[verifier::external_body]
fn random_below(n: u64) -> (r: u64)
    requires
        n > 0,
    ensures
        r < n,
{
    rand::rng().random_range(0..n)
}

/// Histogram of assignment targets: how many samples each of `c` clusters
/// received.
pub fn count_targets(targets: &Vec<usize>, c: usize) -> (r: Vec<u64>)
    requires
        forall|j: int| 0 <= j < targets@.len() ==> #[trigger] targets@[j] < c,
        targets@.len() <= u32::MAX,
    ensures
        r@.len() == c,
        sum_counts(r@) == targets@.len(),
        forall|i: int| 0 <= i < c ==> #[trigger] r@[i] <= targets@.len(),
{
    let mut r: Vec<u64> = Vec::new();
    for _i in 0..c
        invariant
            r@.len() == _i,
            forall|k: int| 0 <= k < _i ==> #[trigger] r@[k] == 0,
            sum_counts(r@) == 0,
    {
        let ghost rprev = r@;
        r.push(0);
        proof {
            assert(r@.drop_last() =~= rprev);
        }
    }
    let n = targets.len();
    for j in 0..n
        invariant
            n == targets@.len() <= u32::MAX,
            r@.len() == c,
            forall|k: int| 0 <= k < targets@.len() ==> #[trigger] targets@[k] < c,
            sum_counts(r@) == j,
            forall|i: int| 0 <= i < c ==> #[trigger] r@[i] <= j,
    {
        let t = targets[j];
        let ghost rprev = r@;
        let v = r[t];
        r.set(t, v + 1);
        proof {
            lemma_sum_counts_update(rprev, r@, t as int);
        }
    }
    r
}

/// Bumping one entry bumps the total.
proof fn lemma_sum_counts_update(s1: Seq<u64>, s2: Seq<u64>, t: int)
    requires
        0 <= t < s1.len(),
        s2 == s1.update(t, (s1[t] + 1) as u64),
        s1[t] < u64::MAX,
    ensures
        sum_counts(s2) == sum_counts(s1) + 1,
    decreases s1.len(),
{
    if s1.len() > 0 {
        if t == s1.len() - 1 {
            assert(s2.drop_last() =~= s1.drop_last());
        } else {
            assert(s2.drop_last() =~= s1.drop_last().update(t, (s1[t] + 1) as u64));
            lemma_sum_counts_update(s1.drop_last(), s2.drop_last(), t);
        }
    }
}

/// A sum over counts with an empty entry and total at least the length has
/// an entry of at least two.
proof fn lemma_pigeonhole(s: Seq<u64>, z: int)
    requires
        0 <= z < s.len(),
        s[z] == 0,
        sum_counts(s) >= s.len(),
    ensures
        exists|o: int| 0 <= o < s.len() && #[trigger] s[o] >= 2,
    decreases s.len(),
{
    if s.len() == 1 {
        assert(sum_counts(s) == s[0]);
        assert(false);
    } else {
        if s.last() >= 2 {
            assert(s[s.len() - 1] >= 2);
        } else if z == s.len() - 1 {
            // the empty entry is the last one, so the rest alone reaches
            // the whole length
            assert(sum_counts(s.drop_last()) == sum_counts(s));
            lemma_sum_ge_has_two(s.drop_last());
            let o = choose|o: int| 0 <= o < s.drop_last().len() && #[trigger] s.drop_last()[o] >= 2;
            assert(s[o] >= 2);
        } else if sum_counts(s.drop_last()) >= s.len() - 1 {
            lemma_pigeonhole(s.drop_last(), z);
            let o = choose|o: int| 0 <= o < s.drop_last().len() && #[trigger] s.drop_last()[o] >= 2;
            assert(s[o] >= 2);
        } else {
            // the last entry carries more than one on its own
            assert(s.last() >= 2);
            assert(s[s.len() - 1] >= 2);
        }
    }
}

/// A count vector whose total strictly exceeds its length less one — that
/// is, reaches its length — holds an entry of at least two, or all entries
/// are at least one... here: total at least the length plus one over some
/// empty or the plain fact used above: total at least length with all
/// entries at most one forces every entry to be exactly one.
proof fn lemma_sum_ge_has_two(s: Seq<u64>)
    requires
        sum_counts(s) >= s.len() + 1,
    ensures
        exists|o: int| 0 <= o < s.len() && #[trigger] s[o] >= 2,
    decreases s.len(),
{
    if s.len() == 0 {
        assert(sum_counts(s) == 0);
        assert(false);
    } else {
        if s.last() >= 2 {
            assert(s[s.len() - 1] >= 2);
        } else {
            lemma_sum_ge_has_two(s.drop_last());
            let o = choose|o: int|
                0 <= o < s.drop_last().len() && #[trigger] s.drop_last()[o] >= 2;
            assert(s[o] >= 2);
        }
    }
}

/// Splits the count of cluster `o` with the empty cluster `i`: `i` takes
/// half, `o` keeps the rest, and both end up non-empty.
fn split_count(counts: &mut Vec<u64>, i: usize, o: usize)
    requires
        i < old(counts)@.len(),
        o < old(counts)@.len(),
        i != o,
        old(counts)@[i as int] == 0,
        old(counts)@[o as int] >= 2,
    ensures
        final(counts)@.len() == old(counts)@.len(),
        final(counts)@[i as int] >= 1,
        final(counts)@[o as int] >= 1,
        forall|k: int|
            0 <= k < old(counts)@.len() && k != i && k != o ==> #[trigger] final(counts)@[k]
                == old(counts)@[k],
        final(counts)@[i as int] + final(counts)@[o as int] == old(counts)@[i as int] + old(
            counts,
        )@[o as int],
{
    let take = counts[o] / 2;
    let keep = counts[o] - take;
    counts.set(o, keep);
    counts.set(i, take);
}

/// Repairs empty clusters: every cluster with no samples takes half of a
/// heavier cluster's count, the donor drawn with probability proportional
/// to its weight, as long as there are at least as many samples as
/// clusters.  The total count never changes, and afterwards no cluster is
/// empty.
pub fn fill_empty_clusters(counts: &mut Vec<u64>) -> (splits: Vec<(usize, usize)>)
    requires
        old(counts)@.len() >= 1,
        sum_counts(old(counts)@) >= old(counts)@.len(),
        sum_counts(old(counts)@) <= u64::MAX,
    ensures
        final(counts)@.len() == old(counts)@.len(),
        sum_counts(final(counts)@) == sum_counts(old(counts)@),
        forall|i: int| 0 <= i < final(counts)@.len() ==> #[trigger] final(counts)@[i] >= 1,
        forall|k: int|
            0 <= k < splits@.len() ==> ((#[trigger] splits@[k]).0 < final(counts)@.len()
                && splits@[k].1 < final(counts)@.len() && splits@[k].0 != splits@[k].1),
{
    let c = counts.len();
    let mut splits: Vec<(usize, usize)> = Vec::new();
    for i in 0..c
        invariant
            c == counts@.len(),
            sum_counts(counts@) == sum_counts(old(counts)@),
            sum_counts(counts@) >= c,
            sum_counts(counts@) <= u64::MAX,
            forall|k: int| 0 <= k < i ==> #[trigger] counts@[k] >= 1,
            forall|k: int|
                0 <= k < splits@.len() ==> ((#[trigger] splits@[k]).0 < c && splits@[k].1 < c
                    && splits@[k].0 != splits@[k].1),
    {
        if counts[i] == 0 {
            proof {
                lemma_pigeonhole(counts@, i as int);
            }
            // draw a donor in proportion to its weight, then fall back to
            // the first heavy cluster
            let mut donor: Option<usize> = None;
            let mut attempts: usize = 0;
            while attempts < 64 && donor.is_none()
                invariant
                    c == counts@.len(),
                    sum_counts(counts@) <= u64::MAX,
                    i < c,
                    match donor {
                        Some(o) => o < c && o != i && counts@[o as int] >= 2,
                        None => true,
                    },
                decreases 64 - attempts,
            {
                let o = random_below(c as u64) as usize;
                if o < c && o != i && counts[o] >= 2 {
                    let w = counts[o];
                    let total = sum_counts_exec(counts);
                    if total > 0 && random_below(total) < w {
                        donor = Some(o);
                    }
                }
                attempts = attempts + 1;
            }
            let o = match donor {
                Some(o) => o,
                None => {
                    // deterministic fallback: the first cluster that can
                    // give a sample away
                    let mut found: usize = 0;
                    let mut have = false;
                    for k in 0..c
                        invariant
                            c == counts@.len(),
                            i < c,
                            counts@[i as int] == 0,
                            have ==> found < c && found != i && counts@[found as int] >= 2,
                            !have ==> forall|k2: int| 0 <= k2 < k ==> counts@[k2] < 2,
                    {
                        if !have && counts[k] >= 2 {
                            found = k;
                            have = true;
                        }
                    }
                    if !have {
                        proof {
                            let w = choose|o: int|
                                0 <= o < counts@.len() && #[trigger] counts@[o] >= 2;
                            assert(false);
                        }
                    }
                    found
                },
            };
            let ghost before = counts@;
            split_count(counts, i, o);
            splits.push((i, o));
            proof {
                lemma_sum_counts_two_updates(before, counts@, i as int, o as int);
            }
        }
    }
    splits
}

/// The exec total of a count vector, saturating at `u64::MAX`.
fn sum_counts_exec(counts: &Vec<u64>) -> (r: u64)
    requires
        sum_counts(counts@) <= u64::MAX,
    ensures
        r == sum_counts(counts@),
{
    let n = counts.len();
    let mut r: u64 = 0;
    for j in 0..n
        invariant
            n == counts@.len(),
            r == sum_counts(counts@.take(j as int)),
            sum_counts(counts@) <= u64::MAX,
    {
        proof {
            assert(counts@.take(j + 1).drop_last() =~= counts@.take(j as int));
            lemma_sum_prefix(counts@, j + 1);
        }
        r = r + counts[j];
    }
    proof {
        assert(counts@.take(n as int) =~= counts@);
    }
    r
}

/// A prefix total never exceeds the whole: counts are non-negative.
proof fn lemma_sum_prefix(s: Seq<u64>, i: int)
    requires
        0 <= i <= s.len(),
    ensures
        sum_counts(s.take(i)) <= sum_counts(s),
    decreases s.len() - i,
{
    if i < s.len() {
        assert(s.take(i + 1).drop_last() =~= s.take(i));
        lemma_sum_prefix(s, i + 1);
    } else {
        assert(s.take(i) =~= s);
    }
}

/// Moving count between two entries preserves the total when give equals
/// take.
proof fn lemma_sum_counts_two_updates(s1: Seq<u64>, s2: Seq<u64>, i: int, o: int)
    requires
        0 <= i < s1.len(),
        0 <= o < s1.len(),
        i != o,
        s2.len() == s1.len(),
        forall|k: int| 0 <= k < s1.len() && k != i && k != o ==> #[trigger] s2[k] == s1[k],
        s2[i] + s2[o] == s1[i] + s1[o],
    ensures
        sum_counts(s2) == sum_counts(s1),
    decreases s1.len(),
{
    if s1.len() > 0 {
        if i == s1.len() - 1 || o == s1.len() - 1 {
            let a = if i == s1.len() - 1 {
                o
            } else {
                i
            };
            assert(s2.drop_last() =~= s1.drop_last().update(a, s2[a]));
            lemma_sum_counts_one_update(s1.drop_last(), s2.drop_last(), a);
        } else {
            assert(s2[s1.len() - 1] == s1[s1.len() - 1]);
            lemma_sum_counts_two_updates(s1.drop_last(), s2.drop_last(), i, o);
        }
    }
}

/// Replacing one entry shifts the total by the difference.
proof fn lemma_sum_counts_one_update(s1: Seq<u64>, s2: Seq<u64>, t: int)
    requires
        0 <= t < s1.len(),
        s2 == s1.update(t, s2[t]),
        s2.len() == s1.len(),
    ensures
        sum_counts(s2) == sum_counts(s1) + s2[t] - s1[t],
    decreases s1.len(),
{
    if s1.len() > 0 {
        if t == s1.len() - 1 {
            assert(s2.drop_last() =~= s1.drop_last());
        } else {
            assert(s2.drop_last() =~= s1.drop_last().update(t, s2[t]));
            lemma_sum_counts_one_update(s1.drop_last(), s2.drop_last(), t);
        }
    }
}

} // verus!
