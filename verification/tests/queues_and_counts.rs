//! Candidate queue, prefetcher, accessor and cluster-count tests.

use vchordrq::kmeans::{count_targets, fill_empty_clusters};
use vchordrq::reduce::u4_u4_reduce_sum_of_xy;
use vchordrq::scan::truncate_results;
use vchordrq::operator::{Accessor1, Accessor2, Gather, LAccess, RAccess};
use vchordrq::prefetcher::{PlainPrefetcher, Prefetcher, SimplePrefetcher};
use vchordrq::queue::MinQueue;
use vchordrq::scan::LeafCandidate;
use vchordrq::tuples::TuplePointer;

/// A two-stream accessor that counts matching element pairs.
struct PairCount(usize);

impl Accessor2<u32, u32, (), ()> for PairCount {
    type Output = usize;

    fn push(&mut self, input: &[u32], target: &[u32]) {
        for i in 0..input.len().min(target.len()) {
            if input[i] == target[i] {
                self.0 += 1;
            }
        }
    }

    fn finish(self, _input: (), _target: ()) -> usize {
        self.0
    }
}

#[test]
fn laccess_streams_the_fixed_left_side() {
    let left = vec![1u32, 2, 3, 4, 5, 6];
    let mut access = LAccess::new((&left[..], ()), PairCount(0));
    access.push(&[1u32, 9]);
    access.push(&[3u32, 4, 9, 9]);
    assert_eq!(access.finish(()), 3);
}

#[test]
fn raccess_streams_the_fixed_right_side() {
    let right = vec![7u32, 8, 9];
    let mut access = RAccess::new((&right[..], ()), PairCount(0));
    access.push(&[7u32, 0, 9]);
    assert_eq!(access.finish(()), 2);
}

#[test]
fn laccess_flags_an_oversized_push() {
    let left = vec![1u32, 2];
    let mut access = LAccess::new((&left[..], ()), PairCount(0));
    access.push(&[1u32, 2, 3]);
    assert!(access.exhausted);
    assert_eq!(access.finish(()), 0);
}

#[test]
fn gather_reassembles_slices_in_order() {
    let mut g = Gather::new();
    g.push(&[1u32, 2]);
    g.push(&[]);
    g.push(&[3u32]);
    assert_eq!(g.finish(), vec![1, 2, 3]);
}

#[test]
fn min_queue_pops_in_key_order_with_stable_ties() {
    let mut q: MinQueue<&str> = MinQueue::new();
    q.push(5, "five");
    q.push(1, "one-a");
    q.push(3, "three");
    q.push(1, "one-b");
    assert_eq!(q.peek_key(), Some(1));
    assert_eq!(q.pop_min(), Some((1, "one-a")));
    assert_eq!(q.pop_min(), Some((1, "one-b")));
    assert_eq!(q.pop_min(), Some((3, "three")));
    assert_eq!(q.pop_min(), Some((5, "five")));
    assert_eq!(q.pop_min(), None);
    assert_eq!(q.peek_key(), None);
}

fn candidate(payload: u64, page: u32) -> LeafCandidate {
    LeafCandidate { payload, mean: TuplePointer { page, slot: 0 } }
}

#[test]
fn plain_prefetcher_delivers_ascending_until_bound() {
    let items = vec![
        (4u32, candidate(4, 40)),
        (2, candidate(2, 20)),
        (9, candidate(9, 90)),
    ];
    let mut p = PlainPrefetcher::new(items);
    assert_eq!(p.pop_if(Some(3)).map(|e| e.0), Some(2));
    assert!(p.pop_if(Some(3)).is_none());
    assert_eq!(p.pop_if(None).map(|e| e.0), Some(4));
    assert_eq!(p.pop_if(None).map(|e| e.0), Some(9));
    assert!(p.pop_if(None).is_none());
}

#[test]
fn simple_prefetcher_matches_plain_order_and_hints_pages() {
    let items = vec![
        (7u32, candidate(7, 70)),
        (1, candidate(1, 10)),
        (5, candidate(5, 50)),
        (3, candidate(3, 30)),
    ];
    let mut simple = SimplePrefetcher::new(items.clone());
    let mut plain = PlainPrefetcher::new(items);
    let mut got_simple = Vec::new();
    let mut got_plain = Vec::new();
    while let Some((d, page)) = simple.pop_if(None) {
        got_simple.push((d, page.payload));
    }
    while let Some((d, page)) = plain.pop_if(None) {
        got_plain.push((d, page.payload));
    }
    assert_eq!(got_simple, got_plain);
    // every page was hinted before delivery, in score order
    assert_eq!(simple.hinted().clone(), vec![10, 30, 50, 70]);
}

#[test]
fn count_targets_builds_the_histogram() {
    let targets = vec![0usize, 2, 2, 1, 2, 0];
    let counts = count_targets(&targets, 4);
    assert_eq!(counts, vec![2, 1, 3, 0]);
}

#[test]
fn fill_empty_clusters_leaves_no_zero_when_samples_cover_clusters() {
    let mut counts = vec![5u64, 0, 3, 0, 0];
    let total: u64 = counts.iter().sum();
    assert!(total >= counts.len() as u64);
    fill_empty_clusters(&mut counts);
    assert_eq!(counts.iter().sum::<u64>(), total);
    for (i, c) in counts.iter().enumerate() {
        assert!(*c >= 1, "cluster {i} left empty");
    }
}

#[test]
fn fill_empty_clusters_keeps_full_vectors_unchanged() {
    let mut counts = vec![2u64, 3, 4];
    let splits = fill_empty_clusters(&mut counts);
    assert_eq!(counts, vec![2, 3, 4]);
    assert!(splits.is_empty());
}

#[test]
fn fill_empty_clusters_reports_each_split() {
    let mut counts = vec![6u64, 0, 0];
    let splits = fill_empty_clusters(&mut counts);
    assert_eq!(splits.len(), 2);
    for (i, o) in &splits {
        assert!(*i < counts.len() && *o < counts.len() && i != o);
    }
}

#[test]
fn u4_dot_multiplies_nibble_pairs() {
    // bytes 0x21 and 0x43: low nibbles 1*3, high nibbles 2*4
    let x = vec![0x21u8];
    let y = vec![0x43u8];
    assert_eq!(u4_u4_reduce_sum_of_xy(&x, &y), 1 * 3 + 2 * 4);
    let x = vec![0x21u8, 0xff];
    let y = vec![0x43u8, 0x11];
    assert_eq!(u4_u4_reduce_sum_of_xy(&x, &y), 11 + 15 * 1 + 15 * 1);
}

#[test]
fn truncate_results_applies_radius_and_budget() {
    let results = vec![(1u32, 10u64), (2, 20), (3, 30), (4, 40)];
    let by_radius = truncate_results(results.clone(), Some(3), None);
    assert_eq!(by_radius, vec![(1, 10), (2, 20)]);
    let by_budget = truncate_results(results.clone(), None, Some(3));
    assert_eq!(by_budget, vec![(1, 10), (2, 20), (3, 30)]);
    let both = truncate_results(results.clone(), Some(4), Some(1));
    assert_eq!(both, vec![(1, 10)]);
    let all = truncate_results(results.clone(), None, None);
    assert_eq!(all, results);
}
