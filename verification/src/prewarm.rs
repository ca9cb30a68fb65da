//! Prewarming: a read of every page of the tree, reporting per-level
//! counts.
//!
//! Walking the whole tree pulls its pages through the storage layer's
//! cache; the counts of tuples and pages per level double as a structural
//! report.

use vstd::prelude::*;

use crate::page::Store;
use crate::tuples::{Tuple, BATCH, NO_PAGE};
use crate::vectors::read_vector;
use crate::IndexError;

verus! {

/// Per-level counts gathered by a prewarm, top level first.
pub struct PrewarmStats {
    pub tuples: Vec<u64>,
    pub pages: Vec<u64>,
}

/// Walks the tree from the root down, touching every batch tuple, every
/// centroid vector and every leaf chain, and counts tuples and pages per
/// level.
pub fn prewarm(store: &Store) -> (r: Result<PrewarmStats, IndexError>)
    requires
        store.wf(),
    ensures
        match r {
            Ok(stats) => {
                &&& stats.tuples@.len() == stats.pages@.len()
                &&& (match store.pages@[0].spec_get(0) {
                    Some(Tuple::Meta(m)) => stats.tuples@.len() == m.height_of_root + 1,
                    _ => false,
                })
            },
            Err(_) => true,
        },
{
    if store.page_count() == 0 {
        return Err(IndexError::DataCorruption);
    }
    let meta = match store.get_tuple(0, 0) {
        Some(Tuple::Meta(m)) => *m,
        _ => {
            return Err(IndexError::DataCorruption);
        },
    };
    if meta.height_of_root == 0 {
        return Err(IndexError::InvalidInput);
    }
    let mut tuples: Vec<u64> = Vec::new();
    let mut pages: Vec<u64> = Vec::new();
    let mut firsts: Vec<u32> = Vec::new();
    firsts.push(meta.root_first);
    let mut level = meta.height_of_root;
    while level >= 1
        invariant
            store.wf(),
            store.pages@.len() > 0,
            store.pages@[0].spec_get(0) == Some(Tuple::Meta(meta)),
            1 <= level <= meta.height_of_root,
            tuples@.len() == pages@.len(),
            tuples@.len() == meta.height_of_root - level,
        decreases level,
    {
        let mut tuple_count: u64 = 0;
        let mut page_count: u64 = 0;
        let mut next_firsts: Vec<u32> = Vec::new();
        let fl = firsts.len();
        for fi in 0..fl
            invariant
                store.wf(),
                fl == firsts@.len(),
        {
            let mut current = firsts[fi];
            if current != NO_PAGE && current as usize >= store.page_count() {
                return Err(IndexError::DataCorruption);
            }
            loop
                invariant
                    store.wf(),
                    current == NO_PAGE || current < store.pages@.len(),
                decreases (if current == NO_PAGE {
                    0int
                } else {
                    store.pages@.len() - current
                }),
            {
                if current == NO_PAGE {
                    break ;
                }
                if page_count < u64::MAX {
                    page_count = page_count + 1;
                }
                let n = store.slot_count(current);
                for slot in 0..n
                    invariant
                        store.wf(),
                        current < store.pages@.len(),
                        n == store.pages@[current as int].spec_len(),
                {
                    match store.get_tuple(current, slot) {
                        Some(Tuple::H1(h)) => {
                            proof {
                                assert(store.pages@[current as int].wf());
                                assert(crate::tuples::tuple_wf(
                                    store.pages@[current as int].slots@[slot as int]->Some_0,
                                ));
                            }
                            if level == 1 {
                                return Err(IndexError::DataCorruption);
                            }
                            for j in 0..BATCH
                                invariant
                                    store.wf(),
                                    h.mask@.len() == BATCH,
                                    h.mean@.len() == BATCH,
                                    h.first@.len() == BATCH,
                            {
                                if h.mask[j] {
                                    match read_vector(store, h.mean[j]) {
                                        Ok(_) => {},
                                        Err(e) => {
                                            return Err(e);
                                        },
                                    }
                                    next_firsts.push(h.first[j]);
                                }
                            }
                            if tuple_count < u64::MAX - 1 {
                                tuple_count = tuple_count + 1;
                            }
                        },
                        Some(Tuple::H0(_)) => {
                            if level != 1 {
                                return Err(IndexError::DataCorruption);
                            }
                            if tuple_count < u64::MAX - 1 {
                                tuple_count = tuple_count + 1;
                            }
                        },
                        Some(Tuple::Jump(j)) => {
                            if level != 1 {
                                return Err(IndexError::DataCorruption);
                            }
                            next_firsts.push(j.first);
                        },
                        _ => {
                            return Err(IndexError::DataCorruption);
                        },
                    }
                }
                let nxt = store.opaque_of(current).next;
                proof {
                    if nxt != NO_PAGE {
                        assert(current < nxt < store.pages@.len());
                    }
                }
                current = nxt;
            }
        }
        tuples.push(tuple_count);
        pages.push(page_count);
        if level == 1 {
            // at the bottom the jump pages were expanded once more into the
            // leaf chains themselves; walk them and stop
            let mut leaf_tuples: u64 = 0;
            let mut leaf_pages: u64 = 0;
            let ll = next_firsts.len();
            for fi in 0..ll
                invariant
                    store.wf(),
                    ll == next_firsts@.len(),
            {
                let mut current = next_firsts[fi];
                if current != NO_PAGE && current as usize >= store.page_count() {
                    return Err(IndexError::DataCorruption);
                }
                loop
                    invariant
                        store.wf(),
                        current == NO_PAGE || current < store.pages@.len(),
                    decreases (if current == NO_PAGE {
                        0int
                    } else {
                        store.pages@.len() - current
                    }),
                {
                    if current == NO_PAGE {
                        break ;
                    }
                    if leaf_pages < u64::MAX {
                        leaf_pages = leaf_pages + 1;
                    }
                    let n = store.slot_count(current);
                    if leaf_tuples < u64::MAX - n as u64 {
                        leaf_tuples = leaf_tuples + n as u64;
                    }
                    let nxt = store.opaque_of(current).next;
                    proof {
                        if nxt != NO_PAGE {
                            assert(current < nxt < store.pages@.len());
                        }
                    }
                    current = nxt;
                }
            }
            tuples.push(leaf_tuples);
            pages.push(leaf_pages);
            return Ok(PrewarmStats { tuples, pages });
        }
        firsts = next_firsts;
        level = level - 1;
    }
    Ok(PrewarmStats { tuples, pages })
}

} // verus!
