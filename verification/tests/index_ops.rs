//! End-to-end index tests: build, insert, search, vacuum, and the
//! validation of user-supplied centroid tables.
//!
//! The test kernel computes exact squared-Euclidean distances in `f32` and
//! hands out the all-zero lower bound, which is sound for every candidate:
//! search then degenerates to exact evaluation of all leaf candidates,
//! making expected results easy to state.

use vchordrq::builder::{build_index, extern_build_structures, BuildError, Structure};
use vchordrq::insert::insert;
use vchordrq::kernel::{CodeKernel, CodeRecord, SearchKernel};
use vchordrq::page::Store;
use vchordrq::rerank::{how, RerankMethod};
use vchordrq::scan::{scan, SearchIo};
use vchordrq::tuples::CodeMeta;
use vchordrq::vacuum::{vacuum, DeadSet};
use vchordrq::IndexError;

fn to_bits(v: &[f32]) -> Vec<u32> {
    v.iter().map(|x| x.to_bits()).collect()
}

fn from_bits(v: &[u32]) -> Vec<f32> {
    v.iter().map(|x| f32::from_bits(*x)).collect()
}

/// A kernel with exact `f32` distances and the trivially sound zero lower
/// bound.  Distances are encoded by their IEEE bit patterns, which is
/// order-preserving for the non-negative values squared distances take.
struct TestKernel {
    dims: usize,
    query: Vec<f32>,
    heap: Vec<(u64, Vec<f32>)>,
}

impl TestKernel {
    fn groups(&self) -> usize {
        let truncated = self.dims.min(1600);
        (truncated + 3) / 4
    }
}

impl SearchKernel for TestKernel {
    fn dims(&self) -> u32 {
        self.dims as u32
    }

    fn lut(&self, _center: Option<&Vec<u32>>) -> Vec<u8> {
        vec![0u8; 16 * self.groups()]
    }

    fn lower_bound(&self, _meta: &CodeMeta, _accum: u32) -> u32 {
        0
    }

    fn exact(&self, elements: &Vec<u32>) -> u32 {
        let v = from_bits(elements);
        let mut d = 0f32;
        for i in 0..v.len().min(self.query.len()) {
            let diff = v[i] - self.query[i];
            d += diff * diff;
        }
        d.to_bits()
    }

    fn exact_by_payload(&self, payload: u64) -> Option<u32> {
        for (p, v) in &self.heap {
            if *p == payload {
                let bits = to_bits(v);
                return Some(self.exact(&bits));
            }
        }
        None
    }
}

impl CodeKernel for TestKernel {
    fn code(&self, elements: &Vec<u32>) -> CodeRecord {
        let v = from_bits(elements);
        CodeRecord {
            meta: CodeMeta { dis_u_2: 0, factor_ppc: 0, factor_ip: 0, factor_err: 0 },
            bits: v.iter().map(|x| *x >= 0.0).collect(),
        }
    }

    fn residual(&self, elements: &Vec<u32>, center: &Vec<u32>) -> Vec<u32> {
        let a = from_bits(elements);
        let b = from_bits(center);
        let mut r = Vec::new();
        for i in 0..a.len() {
            r.push((a[i] - b[i]).to_bits());
        }
        r
    }

    fn centroid(&self, vectors: &Vec<Vec<u32>>) -> Vec<u32> {
        let n = vectors.len().max(1);
        let d = vectors.first().map(|v| v.len()).unwrap_or(0);
        let mut sum = vec![0f32; d];
        for v in vectors {
            let f = from_bits(v);
            for i in 0..d {
                sum[i] += f[i];
            }
        }
        to_bits(&sum.iter().map(|x| x / n as f32).collect::<Vec<f32>>())
    }
}

fn kernel_for(dims: usize, query: &[f32]) -> TestKernel {
    TestKernel { dims, query: query.to_vec(), heap: Vec::new() }
}

/// A two-level tree with a single leaf cluster centered at the origin.
fn tiny_index(dims: usize) -> Store {
    let mut store = Store::new();
    let kernel = kernel_for(dims, &vec![0f32; dims]);
    let zero = to_bits(&vec![0f32; dims]);
    let mut leaf_means = Vec::new();
    leaf_means.push(zero.clone());
    let mut leaf_children = Vec::new();
    leaf_children.push(Vec::new());
    let mut root_means = Vec::new();
    root_means.push(zero);
    let mut root_children = Vec::new();
    root_children.push(vec![0u32]);
    let structures = vec![
        Structure { means: leaf_means, children: leaf_children },
        Structure { means: root_means, children: root_children },
    ];
    build_index(&mut store, &kernel, dims as u32, false, false, &structures).unwrap();
    store
}

fn unit_vectors() -> Vec<(u64, Vec<f32>)> {
    let mut rows = Vec::new();
    for k in 0..4 {
        let mut v = vec![0f32; 4];
        v[k] = 1.0;
        rows.push((k as u64 + 1, v));
    }
    for k in 0..4 {
        let mut v = vec![0f32; 4];
        v[k] = -1.0;
        rows.push((k as u64 + 5, v));
    }
    rows
}

#[test]
fn tiny_build_search_returns_exact_order() {
    let mut store = tiny_index(4);
    let rows = unit_vectors();
    for (payload, v) in &rows {
        let kernel = kernel_for(4, v);
        insert(&mut store, &kernel, *payload, to_bits(v)).unwrap();
    }
    let query = vec![1f32, 0.0, 0.0, 0.0];
    let kernel = kernel_for(4, &query);
    let probes = vec![1u32];
    let (results, _) = scan(&store, &kernel, &probes, RerankMethod::Index, SearchIo::ReadBuffer)
        .unwrap();
    assert_eq!(results.len(), 8);
    // distances must be non-decreasing
    for w in results.windows(2) {
        assert!(f32::from_bits(w[0].0) <= f32::from_bits(w[1].0));
    }
    // the identical vector comes first at distance zero
    assert_eq!(results[0].1, 1);
    assert_eq!(f32::from_bits(results[0].0), 0.0);
    // the opposite vector comes last at distance four
    assert_eq!(results[7].1, 5);
    assert_eq!(f32::from_bits(results[7].0), 4.0);
}

#[test]
fn insert_then_search_finds_the_new_vector_first() {
    let mut store = tiny_index(4);
    for (payload, v) in &unit_vectors() {
        let kernel = kernel_for(4, v);
        insert(&mut store, &kernel, *payload, to_bits(v)).unwrap();
    }
    let fresh = vec![0.25f32, 0.25, 0.25, 0.25];
    let kernel = kernel_for(4, &fresh);
    insert(&mut store, &kernel, 99, to_bits(&fresh)).unwrap();
    let probes = vec![1u32];
    let (results, _) = scan(&store, &kernel, &probes, RerankMethod::Index, SearchIo::ReadBuffer)
        .unwrap();
    assert_eq!(results[0].1, 99);
    assert_eq!(f32::from_bits(results[0].0), 0.0);
}

#[test]
fn search_with_prefetch_window_agrees_with_plain() {
    let mut store = tiny_index(4);
    for (payload, v) in &unit_vectors() {
        let kernel = kernel_for(4, v);
        insert(&mut store, &kernel, *payload, to_bits(v)).unwrap();
    }
    let query = vec![0.5f32, 0.5, 0.0, 0.0];
    let kernel = kernel_for(4, &query);
    let probes = vec![1u32];
    let (plain, _) = scan(&store, &kernel, &probes, RerankMethod::Index, SearchIo::ReadBuffer)
        .unwrap();
    let (windowed, _) = scan(
        &store,
        &kernel,
        &probes,
        RerankMethod::Index,
        SearchIo::PrefetchBuffer,
    )
        .unwrap();
    let pd: Vec<f32> = plain.iter().map(|r| f32::from_bits(r.0)).collect();
    let wd: Vec<f32> = windowed.iter().map(|r| f32::from_bits(r.0)).collect();
    assert_eq!(pd, wd);
}

#[test]
fn heap_rerank_reads_rows_from_the_caller() {
    let mut store = Store::new();
    let dims = 4usize;
    let kernel0 = kernel_for(dims, &vec![0f32; dims]);
    let zero = to_bits(&vec![0f32; dims]);
    let structures = vec![
        Structure { means: vec![zero.clone()], children: vec![Vec::new()] },
        Structure { means: vec![zero], children: vec![vec![0u32]] },
    ];
    build_index(&mut store, &kernel0, dims as u32, false, true, &structures).unwrap();
    assert_eq!(how(&store), RerankMethod::Heap);
    let rows = unit_vectors();
    for (payload, v) in &rows {
        let kernel = kernel_for(4, v);
        insert(&mut store, &kernel, *payload, to_bits(v)).unwrap();
    }
    let query = vec![1f32, 0.0, 0.0, 0.0];
    let mut kernel = kernel_for(4, &query);
    kernel.heap = rows;
    let probes = vec![1u32];
    let (results, _) = scan(&store, &kernel, &probes, RerankMethod::Heap, SearchIo::ReadBuffer)
        .unwrap();
    assert_eq!(results.len(), 8);
    assert_eq!(results[0].1, 1);
}

#[test]
fn vacuum_removes_dead_payloads_from_search() {
    let mut store = tiny_index(4);
    for (payload, v) in &unit_vectors() {
        let kernel = kernel_for(4, v);
        insert(&mut store, &kernel, *payload, to_bits(v)).unwrap();
    }
    // remove the even payloads
    let dead = DeadSet::new(vec![2, 4, 6, 8]);
    vacuum(&mut store, &dead).unwrap();
    let query = vec![1f32, 0.0, 0.0, 0.0];
    let kernel = kernel_for(4, &query);
    let probes = vec![1u32];
    let (results, _) = scan(&store, &kernel, &probes, RerankMethod::Index, SearchIo::ReadBuffer)
        .unwrap();
    assert_eq!(results.len(), 4);
    for (_, payload) in &results {
        assert!(payload % 2 == 1, "dead payload {payload} returned");
    }
}

#[test]
fn vacuum_then_insert_reuses_the_index() {
    let mut store = tiny_index(4);
    for (payload, v) in &unit_vectors() {
        let kernel = kernel_for(4, v);
        insert(&mut store, &kernel, *payload, to_bits(v)).unwrap();
    }
    let dead = DeadSet::new(vec![1, 2, 3, 4, 5, 6, 7, 8]);
    vacuum(&mut store, &dead).unwrap();
    let v = vec![0.5f32, 0.0, 0.0, 0.0];
    let kernel = kernel_for(4, &v);
    insert(&mut store, &kernel, 11, to_bits(&v)).unwrap();
    let (results, _) = scan(
        &store,
        &kernel,
        &vec![1u32],
        RerankMethod::Index,
        SearchIo::ReadBuffer,
    )
        .unwrap();
    assert_eq!(results.len(), 1);
    assert_eq!(results[0].1, 11);
}

#[test]
fn scan_rejects_wrong_probe_count() {
    let store = tiny_index(4);
    let kernel = kernel_for(4, &[1f32, 0.0, 0.0, 0.0]);
    let err = match scan(&store, &kernel, &vec![1u32, 2], RerankMethod::Index, SearchIo::ReadBuffer)
    {
        Ok(_) => panic!("a wrong probe count was accepted"),
        Err(e) => e,
    };
    assert_eq!(err, IndexError::InvalidInput);
}

#[test]
fn insert_rejects_wrong_dimension() {
    let mut store = tiny_index(4);
    let kernel = kernel_for(4, &[0f32; 4]);
    let err = insert(&mut store, &kernel, 1, to_bits(&[1f32, 2.0])).unwrap_err();
    assert_eq!(err, IndexError::InvalidInput);
}

#[test]
fn scan_on_empty_store_is_corruption() {
    let store = Store::new();
    let kernel = kernel_for(4, &[0f32; 4]);
    let err = match scan(&store, &kernel, &vec![1u32], RerankMethod::Index, SearchIo::ReadBuffer) {
        Ok(_) => panic!("an empty store was accepted"),
        Err(e) => e,
    };
    assert_eq!(err, IndexError::DataCorruption);
}

#[test]
fn vacuum_feeds_emptied_pages_to_the_freepage_allocator() {
    // vectors of a thousand dimensions: a handful of them spill the
    // vectors tape past its head page, so removing them all leaves whole
    // pages empty
    let dims = 1000usize;
    let mut store = tiny_index(dims);
    for payload in 1u64..=8 {
        let mut v = vec![0f32; dims];
        v[payload as usize] = 1.0;
        let kernel = kernel_for(dims, &v);
        insert(&mut store, &kernel, payload, to_bits(&v)).unwrap();
    }
    let dead = DeadSet::new((1u64..=8).collect());
    let empties = vacuum(&mut store, &dead).unwrap();
    assert!(!empties.is_empty());
    // the freepage chain head sits on page one
    vchordrq::freepages::mark(&mut store, 1, &empties).unwrap();
    let mut recycled = Vec::new();
    while let Some(p) = vchordrq::freepages::fetch(&mut store, 1).unwrap() {
        recycled.push(p);
    }
    let mut expected = empties.clone();
    expected.sort();
    assert_eq!(recycled, expected);
}

#[test]
fn residual_build_and_search_agree_with_plain() {
    let dims = 4usize;
    let kernel0 = kernel_for(dims, &vec![0f32; dims]);
    let zero = to_bits(&vec![0f32; dims]);
    let mut residual_store = Store::new();
    let structures = vec![
        Structure { means: vec![zero.clone()], children: vec![Vec::new()] },
        Structure { means: vec![zero], children: vec![vec![0u32]] },
    ];
    build_index(&mut residual_store, &kernel0, dims as u32, true, false, &structures).unwrap();
    let mut plain_store = tiny_index(dims);
    for (payload, v) in &unit_vectors() {
        let kernel = kernel_for(4, v);
        insert(&mut residual_store, &kernel, *payload, to_bits(v)).unwrap();
        insert(&mut plain_store, &kernel, *payload, to_bits(v)).unwrap();
    }
    let query = vec![0.0f32, 1.0, 0.0, 0.0];
    let kernel = kernel_for(4, &query);
    let probes = vec![1u32];
    let (residual_results, _) = scan(
        &residual_store,
        &kernel,
        &probes,
        RerankMethod::Index,
        SearchIo::ReadBuffer,
    )
        .unwrap();
    let (plain_results, _) = scan(
        &plain_store,
        &kernel,
        &probes,
        RerankMethod::Index,
        SearchIo::ReadBuffer,
    )
        .unwrap();
    assert_eq!(residual_results.len(), 8);
    assert_eq!(residual_results[0].1, plain_results[0].1);
    assert_eq!(residual_results[0].1, 2);
    assert_eq!(f32::from_bits(residual_results[0].0), 0.0);
}

#[test]
fn prewarm_reports_every_level() {
    let mut store = tiny_index(4);
    for (payload, v) in &unit_vectors() {
        let kernel = kernel_for(4, v);
        insert(&mut store, &kernel, *payload, to_bits(v)).unwrap();
    }
    let stats = vchordrq::prewarm::prewarm(&store).unwrap();
    assert_eq!(stats.tuples.len(), stats.pages.len());
    // the root level, the jump level, and the leaf chains
    assert_eq!(stats.tuples.len(), 3);
    // eight vectors fit one leaf batch tuple
    assert_eq!(stats.tuples[2], 1);
}

fn row(id: i32, parent: Option<i32>, v: &[f32]) -> (i32, Option<i32>, Vec<u32>) {
    (id, parent, to_bits(v))
}

#[test]
fn extern_build_rejects_deep_chains() {
    let kernel = kernel_for(2, &[0f32; 2]);
    let v = [1f32, 2.0];
    let mut rows = Vec::new();
    rows.push(row(1, None, &v));
    for id in 2..=10 {
        rows.push(row(id, Some(id - 1), &v));
    }
    let err = extern_build_structures(&rows, 2, &kernel).unwrap_err();
    assert_eq!(err, BuildError::BadHeight);
}

#[test]
fn extern_build_rejects_cycles() {
    let kernel = kernel_for(2, &[0f32; 2]);
    let v = [1f32, 2.0];
    let rows = vec![
        row(1, None, &v),
        row(2, Some(3), &v),
        row(3, Some(2), &v),
    ];
    let err = extern_build_structures(&rows, 2, &kernel).unwrap_err();
    assert_eq!(err, BuildError::Cycle);
}

#[test]
fn extern_build_rejects_two_roots() {
    let kernel = kernel_for(2, &[0f32; 2]);
    let v = [1f32, 2.0];
    let rows = vec![
        row(1, None, &v),
        row(2, None, &v),
        row(3, Some(1), &v),
    ];
    let err = extern_build_structures(&rows, 2, &kernel).unwrap_err();
    assert_eq!(err, BuildError::TwoRoots);
}

#[test]
fn extern_build_rejects_duplicate_ids() {
    let kernel = kernel_for(2, &[0f32; 2]);
    let v = [1f32, 2.0];
    let rows = vec![row(1, None, &v), row(1, Some(1), &v)];
    let err = extern_build_structures(&rows, 2, &kernel).unwrap_err();
    assert_eq!(err, BuildError::DuplicateId);
}

#[test]
fn extern_build_rejects_missing_parents() {
    let kernel = kernel_for(2, &[0f32; 2]);
    let v = [1f32, 2.0];
    let rows = vec![row(1, None, &v), row(2, Some(9), &v)];
    let err = extern_build_structures(&rows, 2, &kernel).unwrap_err();
    assert_eq!(err, BuildError::MissingParent);
}

#[test]
fn extern_build_rejects_rootless_cycles() {
    let kernel = kernel_for(2, &[0f32; 2]);
    let v = [1f32, 2.0];
    let rows = vec![row(1, Some(2), &v), row(2, Some(1), &v)];
    let err = extern_build_structures(&rows, 2, &kernel).unwrap_err();
    assert_eq!(err, BuildError::NoRoot);
}

#[test]
fn extern_build_rejects_empty_tables() {
    let kernel = kernel_for(2, &[0f32; 2]);
    let rows = Vec::new();
    let err = extern_build_structures(&rows, 2, &kernel).unwrap_err();
    assert_eq!(err, BuildError::NoRoot);
}

#[test]
fn extern_build_rejects_inconsistent_depths() {
    let kernel = kernel_for(2, &[0f32; 2]);
    let v = [1f32, 2.0];
    let rows = vec![
        row(1, None, &v),
        row(2, Some(1), &v),
        row(3, Some(1), &v),
        row(4, Some(3), &v),
    ];
    let err = extern_build_structures(&rows, 2, &kernel).unwrap_err();
    assert_eq!(err, BuildError::InconsistentDepth);
}

#[test]
fn extern_build_rejects_wrong_dimension() {
    let kernel = kernel_for(2, &[0f32; 2]);
    let rows = vec![row(1, None, &[1f32, 2.0, 3.0])];
    let err = extern_build_structures(&rows, 2, &kernel).unwrap_err();
    assert_eq!(err, BuildError::BadDimension);
}

#[test]
fn extern_build_accepts_isolated_vertices_with_implicit_root() {
    let kernel = kernel_for(2, &[0f32; 2]);
    let rows = vec![
        row(1, None, &[2f32, 0.0]),
        row(2, None, &[0f32, 2.0]),
    ];
    let structures = extern_build_structures(&rows, 2, &kernel).unwrap();
    assert_eq!(structures.len(), 2);
    assert_eq!(structures[0].means.len(), 2);
    assert_eq!(structures[1].means.len(), 1);
    let root = from_bits(&structures[1].means[0]);
    assert_eq!(root, vec![1f32, 1.0]);
}

/// A deterministic clustering backend: the first `c` points become the
/// means, and assignment is by exact squared distance.
struct GridCluster;

impl vchordrq::kernel::ClusterKernel for GridCluster {
    fn cluster(&self, c: usize, points: &Vec<Vec<u32>>) -> Vec<Vec<u32>> {
        points.iter().take(c).cloned().collect()
    }

    fn nearest(&self, point: &Vec<u32>, means: &Vec<Vec<u32>>) -> usize {
        let p = from_bits(point);
        let mut best = (f32::INFINITY, 0usize);
        for (j, m) in means.iter().enumerate() {
            let mv = from_bits(m);
            let mut d = 0f32;
            for i in 0..p.len().min(mv.len()) {
                let diff = p[i] - mv[i];
                d += diff * diff;
            }
            if d < best.0 {
                best = (d, j);
            }
        }
        best.1
    }
}

#[test]
fn internal_build_derives_well_formed_levels() {
    let samples: Vec<Vec<u32>> = (0..10)
        .map(|k| to_bits(&[k as f32, 0.0]))
        .collect();
    let lists = vec![3u32];
    let structures =
        vchordrq::builder::internal_build_levels(&GridCluster, &lists, samples).unwrap();
    assert_eq!(structures.len(), 2);
    assert_eq!(structures[1].means.len(), 1);
    assert!(structures[0].means.len() >= 1 && structures[0].means.len() <= 3);
    for (level, s) in structures.iter().enumerate() {
        assert_eq!(s.means.len(), s.children.len());
        if level > 0 {
            for kids in &s.children {
                for k in kids {
                    assert!((*k as usize) < structures[level - 1].means.len());
                }
            }
        }
    }
}

#[test]
fn internal_build_rejects_empty_list_sets() {
    let samples: Vec<Vec<u32>> = vec![to_bits(&[1f32, 2.0])];
    let err = vchordrq::builder::internal_build_levels(&GridCluster, &Vec::new(), samples)
        .unwrap_err();
    assert_eq!(err, IndexError::InvalidInput);
}

#[test]
fn extern_build_accepts_small_trees() {
    let kernel = kernel_for(2, &[0f32; 2]);
    let v = [1f32, 2.0];
    let rows = vec![
        row(10, None, &v),
        row(20, Some(10), &v),
        row(30, Some(10), &v),
    ];
    let structures = extern_build_structures(&rows, 2, &kernel).unwrap();
    assert_eq!(structures.len(), 2);
    assert_eq!(structures[0].means.len(), 2);
    assert_eq!(structures[1].means.len(), 1);
    assert_eq!(structures[1].children[0], vec![0u32, 1]);
}
