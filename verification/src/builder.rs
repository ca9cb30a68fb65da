//! Building an index.
//!
//! A build receives the centroid tree — one level of means per layer, each
//! parent listing its children — and materializes it: vector chains for
//! every centroid, batch tuples for every internal level, a jump tuple and
//! an empty leaf chain per first-level cluster, and finally the meta tuple
//! at page zero.  The tree comes either from clustering (driven outside)
//! or from a user-supplied table of `(id, parent, vector)` rows, which is
//! validated here: duplicate ids, missing parents, multiple roots, cycles,
//! inconsistent depths and out-of-range heights are all rejected.

use vstd::prelude::*;

use crate::insert::place_vector_tuple;
use crate::kernel::{ClusterKernel, CodeKernel};
use crate::packing::{pack_to_u4, padding_pack};
use crate::page::{Store, PAGE_CAPACITY, SLOT_OVERHEAD};
use crate::tuples::{
    spec_size_of, tuple_wf, CodeMeta, H1Tuple, JumpTuple, MetaTuple, Tuple, TuplePointer, BATCH,
    NO_PAGE,
};
use crate::vectors::vector_split_ranges;
use crate::IndexError;

verus! {

/// One level of the centroid tree: the means, and for every mean the
/// indices of its children on the level below.
#[derive(Debug)]
pub struct Structure {
    pub means: Vec<Vec<u32>>,
    pub children: Vec<Vec<u32>>,
}

/// Why a user-supplied centroid table was rejected.
#[derive(Clone, Copy, PartialEq, Eq, Structural, Debug)]
pub enum BuildError {
    DuplicateId,
    MissingParent,
    TwoRoots,
    NoRoot,
    Cycle,
    InconsistentDepth,
    BadHeight,
    BadDimension,
}

/// A well-formed tree structure: at least two levels, one root, every level
/// aligned with its children lists, and every child index in range of the
/// level below.
pub open spec fn structures_wf(s: Seq<Structure>) -> bool {
    &&& 2 <= s.len() <= 9
    &&& s[s.len() - 1].means@.len() == 1
    &&& forall|i: int|
        0 <= i < s.len() ==> (#[trigger] s[i].means@).len() == s[i].children@.len()
    &&& forall|i: int| 0 <= i < s.len() ==> (#[trigger] s[i].means@).len() >= 1
    &&& forall|i: int, j: int, c: int|
        0 < i < s.len() && 0 <= j < s[i].children@.len() && 0 <= c
            < (s[i].children@[j])@.len() ==> #[trigger] (s[i].children@[j])@[c]
            < s[i - 1].means@.len()
}

/// Validates a user-supplied table of `(id, parent, vector)` rows and
/// derives the per-level structures.  An isolated set of two or more
/// vertices gets an implicit root: the mean of all of them, computed by the
/// kernel.
pub fn extern_build_structures<K: CodeKernel>(
    rows: &Vec<(i32, Option<i32>, Vec<u32>)>,
    dims: u32,
    kernel: &K,
) -> (r: Result<Vec<Structure>, BuildError>)
    ensures
        match r {
            Ok(s) => structures_wf(s@),
            Err(_) => true,
        },
        r == Err::<Vec<Structure>, BuildError>(BuildError::DuplicateId) ==> exists|i: int, j: int|
            0 <= j < i < rows@.len() && (#[trigger] rows@[j]).0 == (#[trigger] rows@[i]).0,
        r == Err::<Vec<Structure>, BuildError>(BuildError::BadDimension) ==> exists|i: int|
            0 <= i < rows@.len() && ((#[trigger] rows@[i]).2)@.len() != dims,
        r == Err::<Vec<Structure>, BuildError>(BuildError::TwoRoots) ==> exists|i: int, j: int|
            0 <= i < j < rows@.len() && (#[trigger] rows@[i]).1 is None && (
            #[trigger] rows@[j]).1 is None,
        r == Err::<Vec<Structure>, BuildError>(BuildError::MissingParent) ==> exists|i: int|
            0 <= i < rows@.len() && ((#[trigger] rows@[i]).1 matches Some(parent) && (forall|
                j: int,
            | 0 <= j < rows@.len() ==> (#[trigger] rows@[j]).0 != parent)),
{
    let n = rows.len();
    if n == 0 {
        return Err(BuildError::NoRoot);
    }
    if n > 1000000 {
        return Err(BuildError::BadHeight);
    }
    // ids must be unique and vectors must match the dimension
    for i in 0..n
        invariant
            n == rows@.len(),
    {
        if rows[i].2.len() != dims as usize {
            return Err(BuildError::BadDimension);
        }
        for j in 0..i
            invariant
                i < n == rows@.len(),
                (rows@[i as int].2)@.len() == dims,
        {
            if rows[j].0 == rows[i].0 {
                return Err(BuildError::DuplicateId);
            }
        }
    }
    // the implicit-root form: several vertices, no edges
    let mut all_isolated = n >= 2;
    for i in 0..n
        invariant
            n == rows@.len(),
    {
        if rows[i].1.is_some() {
            all_isolated = false;
        }
    }
    if all_isolated {
        let mut means: Vec<Vec<u32>> = Vec::new();
        let mut children: Vec<Vec<u32>> = Vec::new();
        let mut root_children: Vec<u32> = Vec::new();
        for i in 0..n
            invariant
                n == rows@.len(),
                n <= 1000000,
                means@.len() == i,
                children@.len() == i,
                root_children@.len() == i,
                forall|k: int| 0 <= k < i ==> #[trigger] root_children@[k] == k,
        {
            means.push(crate::tuples::copy_vec(&rows[i].2));
            children.push(Vec::new());
            root_children.push(i as u32);
        }
        let mut all: Vec<Vec<u32>> = Vec::new();
        for i in 0..n
            invariant
                n == rows@.len(),
                all@.len() == i,
        {
            all.push(crate::tuples::copy_vec(&rows[i].2));
        }
        let root_mean = kernel.centroid(&all);
        let mut top_means: Vec<Vec<u32>> = Vec::new();
        let mut top_children: Vec<Vec<u32>> = Vec::new();
        top_means.push(root_mean);
        top_children.push(root_children);
        let mut result: Vec<Structure> = Vec::new();
        result.push(Structure { means, children });
        result.push(Structure { means: top_means, children: top_children });
        proof {
            assert(result@.len() == 2);
            assert forall|i: int, j: int, c: int|
                0 < i < result@.len() && 0 <= j < result@[i].children@.len() && 0 <= c
                    < (result@[i].children@[j])@.len() implies #[trigger] (
            result@[i].children@[j])@[c] < result@[i - 1].means@.len() by {
                assert(i == 1 && j == 0);
                assert((result@[1].children@[0])@[c] == c);
            }
        }
        return Ok(result);
    }
    // find the single root and check that every parent exists
    let mut root: Option<usize> = None;
    for i in 0..n
        invariant
            n == rows@.len(),
            match root {
                Some(x) => x < i && rows@[x as int].1 is None,
                None => true,
            },
    {
        match rows[i].1 {
            None => {
                if root.is_some() {
                    return Err(BuildError::TwoRoots);
                }
                root = Some(i);
            },
            Some(parent) => {
                let mut found = false;
                for j in 0..n
                    invariant
                        n == rows@.len(),
                        i < n,
                        rows@[i as int].1 == Some(parent),
                        !found ==> forall|j2: int| 0 <= j2 < j ==> (#[trigger] rows@[j2]).0
                            != parent,
                {
                    if rows[j].0 == parent {
                        found = true;
                    }
                }
                if !found {
                    return Err(BuildError::MissingParent);
                }
            },
        }
    }
    let root = match root {
        Some(x) => x,
        None => {
            return Err(BuildError::NoRoot);
        },
    };
    // assign heights bottom-up: a node gets height 1 when it has no
    // children, else one more than its children's shared height
    let mut heights: Vec<u32> = Vec::new();
    for _i in 0..n
        invariant
            heights@.len() == _i,
    {
        heights.push(0);
    }
    let mut round: usize = 0;
    while round < n
        invariant
            n == rows@.len(),
            heights@.len() == n,
            n <= 1000000,
        decreases n - round,
    {
        for i in 0..n
            invariant
                n == rows@.len(),
                heights@.len() == n,
                n <= 1000000,
        {
            if heights[i] == 0 {
                // the children of node i are the rows naming it as parent
                let mut ready = true;
                let mut child_height: u32 = 0;
                let mut inconsistent = false;
                for j in 0..n
                    invariant
                        n == rows@.len(),
                        heights@.len() == n,
                        i < n,
                        child_height <= 1000001,
                {
                    let is_child = match rows[j].1 {
                        Some(p) => p == rows[i].0,
                        None => false,
                    };
                    if is_child {
                        let hj = heights[j];
                        if hj == 0 {
                            ready = false;
                        } else {
                            if child_height == 0 {
                                if hj <= 1000001 {
                                    child_height = hj;
                                } else {
                                    inconsistent = true;
                                }
                            } else if child_height != hj {
                                inconsistent = true;
                            }
                        }
                    }
                }
                if inconsistent {
                    return Err(BuildError::InconsistentDepth);
                }
                if ready {
                    if child_height >= 1000001 {
                        return Err(BuildError::BadHeight);
                    }
                    heights.set(i, child_height + 1);
                }
            }
        }
        round = round + 1;
    }
    for i in 0..n
        invariant
            n == rows@.len(),
            heights@.len() == n,
    {
        if heights[i] == 0 {
            return Err(BuildError::Cycle);
        }
    }
    let root_height = heights[root];
    if root_height < 2 || root_height > 9 {
        return Err(BuildError::BadHeight);
    }
    // one structure per height, children labelled by their position within
    // the level below
    let mut result: Vec<Structure> = Vec::new();
    let mut h: u32 = 1;
    while h <= root_height
        invariant
            n == rows@.len(),
            heights@.len() == n,
            n <= 1000000,
            1 <= h <= root_height + 1,
            2 <= root_height <= 9,
            result@.len() == h - 1,
            forall|i: int|
                0 <= i < result@.len() ==> (#[trigger] result@[i].means@).len()
                    == result@[i].children@.len(),
            forall|i: int| 0 <= i < result@.len() ==> (#[trigger] result@[i].means@).len() >= 1,
            forall|i: int, j: int, c: int|
                0 < i < result@.len() && 0 <= j < result@[i].children@.len() && 0 <= c
                    < (result@[i].children@[j])@.len() ==> #[trigger] (
                result@[i].children@[j])@[c] < result@[i - 1].means@.len(),
            h == root_height + 1 ==> result@[root_height - 1].means@.len() == 1,
        decreases root_height + 1 - h,
    {
        let prev_count: usize = if h >= 2 {
            result[(h - 2) as usize].means.len()
        } else {
            0
        };
        let mut means: Vec<Vec<u32>> = Vec::new();
        let mut children: Vec<Vec<u32>> = Vec::new();
        for i in 0..n
            invariant
                n == rows@.len(),
                heights@.len() == n,
                n <= 1000000,
                1 <= h,
                h >= 2 ==> result@.len() == h - 1 && prev_count == result@[h - 2].means@.len(),
                means@.len() == children@.len(),
                forall|j: int, c: int|
                    0 <= j < children@.len() && 0 <= c < (children@[j])@.len()
                        ==> #[trigger] (children@[j])@[c] < prev_count,
        {
            if heights[i] == h {
                let mut kids: Vec<u32> = Vec::new();
                if h >= 2 {
                    // the label of a child is its position among the rows of
                    // height h - 1, in row order
                    let mut label: u32 = 0;
                    for j in 0..n
                        invariant
                            n == rows@.len(),
                            heights@.len() == n,
                            n <= 1000000,
                            i < n,
                            h >= 2,
                            result@.len() == h - 1,
                            prev_count == result@[h - 2].means@.len(),
                            kids@.len() <= j,
                            forall|c: int|
                                0 <= c < kids@.len() ==> (#[trigger] kids@[c]) < label,
                            label <= prev_count,
                            label <= j,
                    {
                        if heights[j] == h - 1 {
                            let is_child = match rows[j].1 {
                                Some(p) => p == rows[i].0,
                                None => false,
                            };
                            if is_child {
                                if label as usize >= prev_count {
                                    return Err(BuildError::InconsistentDepth);
                                }
                                kids.push(label);
                            }
                            if label as usize >= prev_count {
                                return Err(BuildError::InconsistentDepth);
                            }
                            label = label + 1;
                        }
                    }
                }
                means.push(crate::tuples::copy_vec(&rows[i].2));
                children.push(kids);
            }
        }
        if means.len() == 0 {
            return Err(BuildError::InconsistentDepth);
        }
        if h == root_height && means.len() != 1 {
            return Err(BuildError::InconsistentDepth);
        }
        result.push(Structure { means, children });
        h = h + 1;
    }
    proof {
        assert(result@.len() == root_height);
        assert(result@[result@.len() - 1].means@.len() == 1);
    }
    Ok(result)
}

/// Derives the per-level structures of an internal build: the bottom level
/// clusters the samples into the last entry of `lists`, every higher level
/// clusters the previous level's means into the next entry, and an
/// implicit single root closes the tree.  Children are assigned by
/// nearest centroid and clusters that receive no children are dropped.
pub fn internal_build_levels<K: ClusterKernel>(
    kernel: &K,
    lists: &Vec<u32>,
    samples: Vec<Vec<u32>>,
) -> (r: Result<Vec<Structure>, IndexError>)
    ensures
        match r {
            Ok(s) => structures_wf(s@) && s@.len() == lists@.len() + 1,
            Err(_) => true,
        },
{
    let depth = lists.len();
    if depth == 0 || depth > 7 {
        return Err(IndexError::InvalidInput);
    }
    if samples.len() == 0 {
        return Err(IndexError::InvalidInput);
    }
    let mut result: Vec<Structure> = Vec::new();
    let mut li: usize = 0;
    while li <= depth
        invariant
            depth == lists@.len(),
            1 <= depth <= 7,
            li <= depth + 1,
            result@.len() == li,
            forall|i: int|
                0 <= i < result@.len() ==> (#[trigger] result@[i].means@).len()
                    == result@[i].children@.len(),
            forall|i: int| 0 <= i < result@.len() ==> (#[trigger] result@[i].means@).len() >= 1,
            forall|i: int, j: int, c: int|
                0 < i < result@.len() && 0 <= j < result@[i].children@.len() && 0 <= c
                    < (result@[i].children@[j])@.len() ==> #[trigger] (
                result@[i].children@[j])@[c] < result@[i - 1].means@.len(),
            li == depth + 1 ==> result@[result@.len() - 1].means@.len() == 1,
        decreases depth + 1 - li,
    {
        let c: u32 = if li < depth {
            lists[depth - 1 - li]
        } else {
            1
        };
        if c == 0 {
            return Err(IndexError::InvalidInput);
        }
        let means = if li == 0 {
            kernel.cluster(c as usize, &samples)
        } else {
            kernel.cluster(c as usize, &result[li - 1].means)
        };
        if means.len() == 0 {
            return Err(IndexError::InvalidInput);
        }
        if li == 0 {
            // the bottom level has no children yet
            let mut children: Vec<Vec<u32>> = Vec::new();
            let m = means.len();
            for _j in 0..m
                invariant
                    children@.len() == _j,
            {
                children.push(Vec::new());
            }
            result.push(Structure { means, children });
        } else {
            // assign each mean of the level below to its nearest new mean
            let prev_count = result[li - 1].means.len();
            if prev_count > 1000000000 {
                return Err(IndexError::InvalidInput);
            }
            let mut children: Vec<Vec<u32>> = Vec::new();
            let m = means.len();
            for _j in 0..m
                invariant
                    children@.len() == _j,
                    forall|j2: int, c2: int|
                        0 <= j2 < children@.len() && 0 <= c2 < (children@[j2])@.len()
                            ==> #[trigger] (children@[j2])@[c2] < prev_count,
            {
                children.push(Vec::new());
            }
            for i in 0..prev_count
                invariant
                    li >= 1,
                    result@.len() == li,
                    prev_count == result@[li - 1].means@.len(),
                    prev_count <= 1000000000,
                    m == means@.len(),
                    children@.len() == m,
                    forall|j2: int, c2: int|
                        0 <= j2 < children@.len() && 0 <= c2 < (children@[j2])@.len()
                            ==> #[trigger] (children@[j2])@[c2] < prev_count,
            {
                let t = kernel.nearest(&result[li - 1].means[i], &means);
                if t >= m {
                    return Err(IndexError::InvalidInput);
                }
                let ghost cprev = children@;
                let mut kids = children.remove(t);
                kids.push(i as u32);
                children.insert(t, kids);
                proof {
                    assert forall|j2: int, c2: int|
                        0 <= j2 < children@.len() && 0 <= c2 < (
                    children@[j2])@.len() implies #[trigger] (children@[j2])@[c2]
                        < prev_count by {
                        if j2 == t {
                            if c2 < (cprev[t as int])@.len() {
                                assert((children@[j2])@[c2] == (cprev[t as int])@[c2]);
                            } else {
                                assert((children@[j2])@[c2] == i as u32);
                            }
                        } else if j2 < t {
                            assert(children@[j2] == cprev[j2]);
                        } else {
                            assert(children@[j2] == cprev[j2]);
                        }
                    }
                }
            }
            // drop the clusters that received nothing
            let mut kept_means: Vec<Vec<u32>> = Vec::new();
            let mut kept_children: Vec<Vec<u32>> = Vec::new();
            let mut j: usize = 0;
            while j < means.len()
                invariant
                    means@.len() == children@.len(),
                    kept_means@.len() == kept_children@.len(),
                    prev_count == result@[li - 1].means@.len(),
                    result@.len() == li,
                    li >= 1,
                    forall|j2: int, c2: int|
                        0 <= j2 < children@.len() && 0 <= c2 < (children@[j2])@.len()
                            ==> #[trigger] (children@[j2])@[c2] < prev_count,
                    forall|j2: int, c2: int|
                        0 <= j2 < kept_children@.len() && 0 <= c2 < (kept_children@[j2])@.len()
                            ==> #[trigger] (kept_children@[j2])@[c2] < prev_count,
                    j <= means@.len(),
                decreases means@.len() - j,
            {
                if children[j].len() > 0 {
                    kept_means.push(crate::tuples::copy_vec(&means[j]));
                    let moved = crate::tuples::copy_vec(&children[j]);
                    kept_children.push(moved);
                }
                j = j + 1;
            }
            if kept_means.len() == 0 {
                return Err(IndexError::InvalidInput);
            }
            if li == depth && kept_means.len() != 1 {
                return Err(IndexError::InvalidInput);
            }
            result.push(Structure { means: kept_means, children: kept_children });
        }
        li = li + 1;
    }
    Ok(result)
}

/// Materializes a centroid tree into an empty store: centroid vector
/// chains, one batch-tuple chain per internal cluster, a jump tuple and an
/// empty leaf chain per first-level cluster, and the meta tuple at page
/// zero.
pub fn build_index<K: CodeKernel>(
    store: &mut Store,
    kernel: &K,
    dims: u32,
    is_residual: bool,
    rerank_in_heap: bool,
    structures: &Vec<Structure>,
) -> (r: Result<(), IndexError>)
    requires
        old(store).pages@.len() == 0,
        old(store).wf(),
        structures_wf(structures@),
        dims >= 1,
        dims <= 60000,
        forall|i: int, j: int|
            0 <= i < structures@.len() && 0 <= j < structures@[i].means@.len()
                ==> #[trigger] (structures@[i].means@[j])@.len() == dims,
    ensures
        final(store).wf(),
        match r {
            Ok(()) => {
                &&& final(store).pages@.len() > 0
                &&& (match final(store).pages@[0].spec_get(0) {
                    Some(Tuple::Meta(m)) => {
                        &&& m.dims == dims
                        &&& m.height_of_root == structures@.len()
                        &&& m.is_residual == is_residual
                        &&& m.rerank_in_heap == rerank_in_heap
                        &&& m.freepage_first == 1
                        &&& m.vectors_first == 2
                        &&& crate::vectors::vector_at(final(store).pages@, m.root_mean, None)
                        &&& crate::vectors::chain_elems(
                            final(store).pages@,
                            m.root_mean,
                            crate::vectors::chain_fuel(),
                        ) == Some((structures@[structures@.len() - 1].means@[0])@)
                    },
                    _ => false,
                })
            },
            Err(_) => true,
        },
{
    let meta_page = store.extend();
    let freepage_head = store.extend();
    let vectors_head = store.extend();
    let levels = structures.len();
    // centroid vectors for every level below the root; the root's own
    // vector is stored last, right before the meta tuple
    let mut pointer_of_means: Vec<Vec<TuplePointer>> = Vec::new();
    let below = levels - 1;
    for i in 0..below
        invariant
            below == levels - 1,
            store.wf(),
            store.pages@.len() >= 3,
            vectors_head == 2,
            levels == structures@.len(),
            structures_wf(structures@),
            forall|i2: int, j: int|
                0 <= i2 < structures@.len() && 0 <= j < structures@[i2].means@.len()
                    ==> #[trigger] (structures@[i2].means@[j])@.len() == dims,
            dims <= 60000,
            pointer_of_means@.len() == i,
            forall|i2: int|
                0 <= i2 < i ==> (#[trigger] pointer_of_means@[i2])@.len()
                    == structures@[i2].means@.len(),
    {
        let m = structures[i].means.len();
        let mut level: Vec<TuplePointer> = Vec::new();
        for j in 0..m
            invariant
                store.wf(),
                store.pages@.len() >= 3,
                vectors_head == 2,
                i < levels == structures@.len(),
                m == structures@[i as int].means@.len(),
                structures_wf(structures@),
                forall|i2: int, j2: int|
                    0 <= i2 < structures@.len() && 0 <= j2 < structures@[i2].means@.len()
                        ==> #[trigger] (structures@[i2].means@[j2])@.len() == dims,
                dims <= 60000,
                level@.len() == j,
                pointer_of_means@.len() == i,
                i < below == levels - 1,
                forall|i2: int|
                    0 <= i2 < i ==> (#[trigger] pointer_of_means@[i2])@.len()
                        == structures@[i2].means@.len(),
        {
            if store.page_count() > 0xfffff000usize {
                return Err(IndexError::InvalidInput);
            }
            let mean = &structures[i].means[j];
            let ptr = crate::insert::store_vector_chain(store, vectors_head, None, mean);
            level.push(ptr);
        }
        pointer_of_means.push(level);
    }
    // tuple chains, bottom level first
    let truncated = if dims > 1600 {
        1600usize
    } else {
        dims as usize
    };
    let groups = (truncated + 3) / 4;
    let mut pointer_of_firsts: Vec<Vec<u32>> = Vec::new();
    for i in 0..levels
        invariant
            store.wf(),
            store.pages@.len() >= 3,
            levels == structures@.len(),
            structures_wf(structures@),
            groups <= 400,
            pointer_of_firsts@.len() == i,
            pointer_of_means@.len() == levels - 1,
            forall|i2: int|
                0 <= i2 < levels - 1 ==> (#[trigger] pointer_of_means@[i2])@.len()
                    == structures@[i2].means@.len(),
            forall|i2: int|
                0 <= i2 < i ==> (#[trigger] pointer_of_firsts@[i2])@.len()
                    == structures@[i2].means@.len(),
    {
        let m = structures[i].means.len();
        let mut level: Vec<u32> = Vec::new();
        for j in 0..m
            invariant
                store.wf(),
                store.pages@.len() >= 3,
                i < levels == structures@.len(),
                m == structures@[i as int].means@.len(),
                structures_wf(structures@),
                groups <= 400,
                level@.len() == j,
                pointer_of_means@.len() == levels - 1,
                forall|i2: int|
                    0 <= i2 < levels - 1 ==> (#[trigger] pointer_of_means@[i2])@.len()
                        == structures@[i2].means@.len(),
                pointer_of_firsts@.len() == i,
                forall|i2: int|
                    0 <= i2 < i ==> (#[trigger] pointer_of_firsts@[i2])@.len()
                        == structures@[i2].means@.len(),
        {
            if store.page_count() > 0xfffff000usize {
                return Err(IndexError::InvalidInput);
            }
            if i == 0 {
                // an empty leaf chain introduced by a jump tuple
                let h0_page = store.extend();
                let jump_page = store.extend();
                match store.alloc_at(jump_page, Tuple::Jump(JumpTuple { first: h0_page })) {
                    Some(_) => {},
                    None => {
                        proof {
                            assert(crate::page::used_bytes(
                                store.pages@[jump_page as int].slots@,
                            ) == 0);
                            assert(false);
                        }
                        return Err(IndexError::DataCorruption);
                    },
                }
                level.push(jump_page);
            } else {
                // batch tuples for the children of cluster j
                let n_children = structures[i].children[j].len();
                if n_children > 1000000000 {
                    return Err(IndexError::InvalidInput);
                }
                let mut first: u32 = NO_PAGE;
                let mut tail: u32 = NO_PAGE;
                let mut at: usize = 0;
                while at < n_children
                    invariant
                        store.wf(),
                        store.pages@.len() >= 3,
                        0 < i < levels == structures@.len(),
                        m == structures@[i as int].means@.len(),
                        j < m,
                        structures_wf(structures@),
                        groups <= 400,
                        n_children == (structures@[i as int].children@[j as int])@.len(),
                        pointer_of_means@.len() == levels - 1,
                        forall|i2: int|
                            0 <= i2 < levels - 1 ==> (#[trigger] pointer_of_means@[i2])@.len()
                                == structures@[i2].means@.len(),
                        pointer_of_firsts@.len() == i,
                        forall|i2: int|
                            0 <= i2 < i ==> (#[trigger] pointer_of_firsts@[i2])@.len()
                                == structures@[i2].means@.len(),
                        tail == NO_PAGE || tail < store.pages@.len(),
                        first == NO_PAGE <==> tail == NO_PAGE,
                        n_children <= 1000000000,
                    decreases (if at >= n_children {
                        0int
                    } else {
                        n_children - at
                    }),
                {
                    if store.page_count() > 0xfffff000usize {
                        return Err(IndexError::InvalidInput);
                    }
                    // fill one batch tuple
                    let mut mask: Vec<bool> = Vec::new();
                    let mut mean: Vec<TuplePointer> = Vec::new();
                    let mut firsts_of: Vec<u32> = Vec::new();
                    let mut metas: Vec<CodeMeta> = Vec::new();
                    let mut codes: Vec<Vec<u8>> = Vec::new();
                    let mut b: usize = 0;
                    while b < BATCH
                        invariant
                            store.wf(),
                            0 < i < levels == structures@.len(),
                            j < m == structures@[i as int].means@.len(),
                            structures_wf(structures@),
                            groups <= 400,
                            n_children == (structures@[i as int].children@[j as int])@.len(),
                            n_children <= 1000000000,
                            at <= n_children,
                            b <= BATCH,
                            pointer_of_means@.len() == levels - 1,
                            forall|i2: int|
                                0 <= i2 < levels - 1 ==> (#[trigger] pointer_of_means@[i2])@.len()
                                    == structures@[i2].means@.len(),
                            pointer_of_firsts@.len() == i,
                            forall|i2: int|
                                0 <= i2 < i ==> (#[trigger] pointer_of_firsts@[i2])@.len()
                                    == structures@[i2].means@.len(),
                            mask@.len() == b,
                            mean@.len() == b,
                            firsts_of@.len() == b,
                            metas@.len() == b,
                            codes@.len() <= b,
                            forall|c2: int|
                                0 <= c2 < codes@.len() ==> (#[trigger] codes@[c2])@.len()
                                    == groups,
                            forall|c2: int, g2: int|
                                0 <= c2 < codes@.len() && 0 <= g2 < groups ==> #[trigger] (
                                codes@[c2])@[g2] < 16,
                        decreases BATCH - b,
                    {
                        if at + b < n_children {
                            let child = structures[i].children[j][at + b];
                            if child as usize >= structures[i - 1].means.len() {
                                return Err(IndexError::DataCorruption);
                            }
                            let child_mean = &structures[i - 1].means[child as usize];
                            let code = if is_residual {
                                let res = kernel.residual(child_mean, &structures[i].means[j]);
                                kernel.code(&res)
                            } else {
                                kernel.code(child_mean)
                            };
                            if code.bits.len() > 60000 {
                                return Err(IndexError::InvalidInput);
                            }
                            let nibbles = pack_to_u4(&code.bits);
                            if nibbles.len() < groups {
                                return Err(IndexError::InvalidInput);
                            }
                            let mut cut: Vec<u8> = Vec::new();
                            for g in 0..groups
                                invariant
                                    groups <= nibbles@.len(),
                                    cut@.len() == g,
                                    forall|g2: int|
                                        0 <= g2 < g ==> #[trigger] cut@[g2] == nibbles@[g2],
                                    forall|g2: int|
                                        0 <= g2 < nibbles@.len() ==> #[trigger] nibbles@[g2]
                                            < 16,
                            {
                                cut.push(nibbles[g]);
                            }
                            mask.push(true);
                            mean.push(pointer_of_means[i - 1][child as usize]);
                            firsts_of.push(pointer_of_firsts[i - 1][child as usize]);
                            metas.push(code.meta);
                            codes.push(cut);
                        } else {
                            mask.push(false);
                            mean.push(TuplePointer { page: NO_PAGE, slot: 0 });
                            firsts_of.push(NO_PAGE);
                            metas.push(CodeMeta {
                                dis_u_2: 0,
                                factor_ppc: 0,
                                factor_ip: 0,
                                factor_err: 0,
                            });
                        }
                        b = b + 1;
                    }
                    let t = padding_pack(&codes, groups);
                    let tuple = H1Tuple { mask, mean, first: firsts_of, metas, t };
                    proof {
                        assert(tuple_wf(Tuple::H1(tuple)));
                        assert(spec_size_of(Tuple::H1(tuple)) == 708 + 16 * groups);
                    }
                    // place the tuple on the tail page, growing the chain
                    let target = if tail == NO_PAGE {
                        let p = store.extend();
                        first = p;
                        tail = p;
                        p
                    } else {
                        tail
                    };
                    let size: u32 = 708 + 16 * (groups as u32);
                    let free = store.freespace_at(target);
                    let place_at = if size + SLOT_OVERHEAD <= free && store.slot_count(target)
                        < u16::MAX as usize {
                        target
                    } else {
                        let p2 = store.extend();
                        store.set_next(target, p2);
                        tail = p2;
                        proof {
                            assert(store.pages@[p2 as int].spec_freespace() == PAGE_CAPACITY)
                                by {
                                assert(crate::page::used_bytes(store.pages@[p2 as int].slots@)
                                    == 0);
                            };
                        }
                        p2
                    };
                    let placed = store.alloc_at(place_at, Tuple::H1(tuple));
                    match placed {
                        Some(_) => {},
                        None => {
                            proof {
                                assert(false);
                            }
                            return Err(IndexError::DataCorruption);
                        },
                    }
                    at = at + BATCH;
                }
                if first == NO_PAGE {
                    if store.page_count() > 0xfffff000usize {
                        return Err(IndexError::InvalidInput);
                    }
                    let p = store.extend();
                    first = p;
                }
                level.push(first);
            }
        }
        pointer_of_firsts.push(level);
    }
    // the root's own vector, then the meta tuple, close the build
    if store.page_count() > 0xfffff000usize {
        return Err(IndexError::InvalidInput);
    }
    let root_mean = crate::insert::store_vector_chain(
        store,
        vectors_head,
        None,
        &structures[levels - 1].means[0],
    );
    let root_first = pointer_of_firsts[levels - 1][0];
    let meta = MetaTuple {
        dims,
        height_of_root: levels as u32,
        is_residual,
        rerank_in_heap,
        vectors_first: vectors_head,
        root_mean,
        root_first,
        freepage_first: freepage_head,
    };
    if meta_page != 0 || store.page_count() == 0 {
        return Err(IndexError::DataCorruption);
    }
    let ghost pre_meta = store.pages@;
    match store.alloc_at(0, Tuple::Meta(meta)) {
        Some(slot) => {
            if slot != 0 {
                return Err(IndexError::DataCorruption);
            }
            proof {
                assert(crate::vectors::vector_slots_preserved(pre_meta, store.pages@));
                crate::vectors::lemma_chain_elems_stable(
                    pre_meta,
                    store.pages@,
                    root_mean,
                    crate::vectors::chain_fuel(),
                    (structures@[levels - 1].means@[0])@,
                );
                assert(crate::vectors::vector_at(store.pages@, root_mean, None));
            }
            Ok(())
        },
        None => Err(IndexError::DataCorruption),
    }
}

} // verus!
