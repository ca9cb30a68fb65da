//! The freepage bitmap allocator.
//!
//! A chain of bitmap tuples, one per window of [`FREEPAGE_WINDOW`]
//! consecutive page ids, records which pages may be reused.  [`mark`] sets
//! the bits of a batch of page ids, materializing bitmap tuples and growing
//! the chain as needed; [`fetch`] returns the lowest marked page id and
//! clears its bit.

use vstd::prelude::*;

use vstd::arithmetic::div_mod::lemma_fundamental_div_mod;
use vstd::std_specs::bits::axiom_u64_trailing_zeros;

use crate::page::{
    chain_member, chain_nth, lemma_chain_absent, lemma_chain_congruence, lemma_chain_extend,
    lemma_chain_in_range, lemma_chain_monotone, lemma_chain_relink, lemma_chain_split, used_bytes,
    Page, Store, PAGE_CAPACITY,
};
use crate::tuples::{copy_vec, FreepageTuple, Tuple, FREEPAGE_WINDOW, FREEPAGE_WORDS, NO_PAGE};
use crate::IndexError;

verus! {

/// The largest window index a 32-bit page id can fall in.
pub const LAST_WINDOW: u32 = 131071;

/// Whether the freepage chain starting at `first` records page `pid` as
/// reusable.
pub open spec fn fp_marked(pages: Seq<Page>, first: u32, pid: u32) -> bool {
    let p = chain_nth(pages, first, (pid / FREEPAGE_WINDOW) as nat);
    &&& p != NO_PAGE
    &&& p < pages.len()
    &&& match pages[p as int].spec_get(0) {
        Some(Tuple::Freepage(f)) => fp_bit(f.words@, (pid % FREEPAGE_WINDOW) as int),
        _ => false,
    }
}

/// A place where the freepage chain is malformed: the `n`-th chain page
/// either is non-empty without a bitmap tuple in slot 0, or is empty while
/// the chain still continues past it.
pub open spec fn fp_corrupt_at(pages: Seq<Page>, first: u32, n: nat) -> bool {
    let p = chain_nth(pages, first, n);
    &&& p != NO_PAGE
    &&& ((pages[p as int].spec_len() > 0 && !(pages[p as int].spec_get(0) matches Some(
        Tuple::Freepage(_),
    ))) || (pages[p as int].spec_len() == 0 && chain_nth(pages, first, n + 1) != NO_PAGE))
}

/// Whether bit `b` of the bitmap `words` is set.
pub open spec fn fp_bit(words: Seq<u64>, b: int) -> bool {
    (words[b / 64] >> ((b % 64) as u64)) & 1 == 1
}

impl FreepageTuple {
    /// An all-clear bitmap.
    pub fn new() -> (r: FreepageTuple)
        ensures
            r.words@.len() == FREEPAGE_WORDS,
            forall|b: int| 0 <= b < FREEPAGE_WINDOW ==> !fp_bit(r.words@, b),
    {
        let mut words: Vec<u64> = Vec::new();
        for _i in 0..FREEPAGE_WORDS
            invariant
                words@.len() == _i,
                forall|j: int| 0 <= j < _i ==> words@[j] == 0,
        {
            words.push(0);
        }
        let r = FreepageTuple { words };
        proof {
            assert forall|b: int| 0 <= b < FREEPAGE_WINDOW implies !fp_bit(r.words@, b) by {
                let k = (b % 64) as u64;
                assert((0u64 >> k) & 1 == 0) by (bit_vector);
            }
        }
        r
    }

    /// Sets bit `local`.
    pub fn mark(&mut self, local: u32)
        requires
            old(self).words@.len() == FREEPAGE_WORDS,
            local < FREEPAGE_WINDOW,
        ensures
            final(self).words@.len() == FREEPAGE_WORDS,
            forall|b: int|
                0 <= b < FREEPAGE_WINDOW ==> (fp_bit(final(self).words@, b) <==> (b == local
                    || fp_bit(old(self).words@, b))),
    {
        let w = (local / 64) as usize;
        let k = (local % 64) as u64;
        let word = self.words[w];
        self.words.set(w, word | (1u64 << k));
        proof {
            assert forall|b: int| 0 <= b < FREEPAGE_WINDOW implies (fp_bit(self.words@, b) <==> (
            b == local || fp_bit(old(self).words@, b))) by {
                let j = (b % 64) as u64;
                if b / 64 == w {
                    assert(((word | (1u64 << k)) >> j) & 1 == 1 <==> ((word >> j) & 1 == 1 || j
                        == k)) by (bit_vector)
                        requires
                            k < 64,
                            j < 64,
                    ;
                    if b == local {
                        assert(j == k);
                    } else {
                        if j == k {
                            lemma_fundamental_div_mod(b, 64);
                            lemma_fundamental_div_mod(local as int, 64);
                            assert(false);
                        }
                    }
                } else {
                    if b == local {
                        assert(false);
                    }
                }
            }
        }
    }

    /// Clears and returns the lowest set bit, or returns `None` when every
    /// bit is clear.
    pub fn fetch(&mut self) -> (r: Option<u32>)
        requires
            old(self).words@.len() == FREEPAGE_WORDS,
        ensures
            final(self).words@.len() == FREEPAGE_WORDS,
            match r {
                Some(local) => {
                    &&& local < FREEPAGE_WINDOW
                    &&& fp_bit(old(self).words@, local as int)
                    &&& forall|b: int|
                        0 <= b < local ==> !fp_bit(old(self).words@, b)
                    &&& forall|b: int|
                        0 <= b < FREEPAGE_WINDOW ==> (fp_bit(final(self).words@, b) <==> (b
                            != local && fp_bit(old(self).words@, b)))
                },
                None => {
                    &&& *final(self) == *old(self)
                    &&& forall|b: int| 0 <= b < FREEPAGE_WINDOW ==> !fp_bit(old(self).words@, b)
                },
            },
    {
        let n = FREEPAGE_WORDS;
        for w in 0..n
            invariant
                n == FREEPAGE_WORDS,
                self == old(self),
                self.words@.len() == FREEPAGE_WORDS,
                forall|b: int| 0 <= b < w * 64 ==> !fp_bit(self.words@, b),
        {
            let word = self.words[w];
            if word != 0 {
                let k = word.trailing_zeros();
                proof {
                    axiom_u64_trailing_zeros(word);
                }
                let local = (w as u32) * 64 + k;
                self.words.set(w, word & !(1u64 << (k as u64)));
                proof {
                    let kk = k as u64;
                    assert((word >> kk) & 1 == 1 && forall|j: u64|
                        j < kk ==> #[trigger] (word >> j) & 1 == 0);
                    lemma_locate(self.words@, old(self).words@, w as int, kk, local as int);
                }
                return Some(local);
            }
            proof {
                assert forall|b: int| 0 <= b < (w + 1) * 64 implies !fp_bit(self.words@, b) by {
                    if b >= w * 64 {
                        assert(b / 64 == w) by {
                            lemma_fundamental_div_mod(b, 64);
                        };
                        let j = (b % 64) as u64;
                        assert((0u64 >> j) & 1 == 0) by (bit_vector);
                    }
                }
            }
        }
        proof {
            assert forall|b: int| 0 <= b < FREEPAGE_WINDOW implies !fp_bit(self.words@, b) by {
                assert(b < 512 * 64);
            }
        }
        None
    }
}

/// Whether one of the first `upto` ids falls in window `k` at bit `b`.
pub open spec fn window_hit(ids: Seq<u32>, upto: int, k: u32, b: int) -> bool {
    exists|j: int|
        0 <= j < upto && (#[trigger] ids[j]) / FREEPAGE_WINDOW == k && ids[j] % FREEPAGE_WINDOW
            == b
}

/// Every 32-bit page id falls in a window up to [`LAST_WINDOW`].
proof fn lemma_window_bound(q: u32)
    ensures
        q / FREEPAGE_WINDOW <= LAST_WINDOW,
{
    assert(q / 32768 <= 131071) by (nonlinear_arith)
        requires
            q <= 4294967295,
    ;
}

/// An id equals `k * FREEPAGE_WINDOW + b` exactly when its window is `k`
/// and its offset is `b`.
proof fn lemma_window_decompose(q: u32, k: u32, b: int)
    requires
        0 <= b < FREEPAGE_WINDOW,
    ensures
        (q / FREEPAGE_WINDOW == k && q % FREEPAGE_WINDOW == b) <==> q == k * FREEPAGE_WINDOW + b,
{
    lemma_fundamental_div_mod(q as int, FREEPAGE_WINDOW as int);
    if q == k * FREEPAGE_WINDOW + b {
        assert(q / 32768 == k && q % 32768 == b) by (nonlinear_arith)
            requires
                q == k * 32768 + b,
                0 <= b < 32768,
        ;
    }
}

/// Records a batch of page ids as reusable: sets their bits in the freepage
/// chain, materializing bitmap tuples and growing the chain window by
/// window as far as the largest id requires.
pub fn mark(store: &mut Store, freepage_first: u32, pages: &[u32]) -> (r: Result<
    (),
    IndexError,
>)
    requires
        old(store).wf(),
        freepage_first < old(store).pages@.len(),
        old(store).pages@.len() + 131073 <= NO_PAGE,
    ensures
        final(store).wf(),
        final(store).pages@.len() >= old(store).pages@.len(),
        final(store).pages@.len() <= old(store).pages@.len() + 131073,
        forall|i: int|
            0 <= i < old(store).pages@.len() && !chain_member(
                old(store).pages@,
                freepage_first,
                i as u32,
            ) ==> final(store).pages@[i] == old(store).pages@[i],
        match r {
            Ok(()) => forall|q: u32|
                fp_marked(final(store).pages@, freepage_first, q) <==> (fp_marked(
                    old(store).pages@,
                    freepage_first,
                    q,
                ) || pages@.contains(q)),
            Err(e) => e == IndexError::DataCorruption && (exists|n: nat|
                #[trigger] fp_corrupt_at(final(store).pages@, freepage_first, n)),
        },
{
    let ghost pages0 = old(store).pages@;
    let ghost oldlen = old(store).pages@.len() as int;
    let n_ids = pages.len();
    if n_ids == 0 {
        proof {
            assert forall|q: u32| !pages@.contains(q) by {}
        }
        return Ok(());
    }
    let mut maxw: u32 = 0;
    for i in 0..n_ids
        invariant
            n_ids == pages@.len(),
            maxw <= LAST_WINDOW,
            forall|j: int| 0 <= j < i ==> (#[trigger] pages@[j]) / FREEPAGE_WINDOW <= maxw,
    {
        proof {
            lemma_window_bound(pages[i as int]);
        }
        let w = pages[i] / FREEPAGE_WINDOW;
        if w > maxw {
            maxw = w;
        }
    }
    let mut current: u32 = freepage_first;
    let mut k: u32 = 0;
    loop
        invariant
            store.wf(),
            pages0 == old(store).pages@,
            oldlen == pages0.len(),
            n_ids == pages@.len(),
            freepage_first < oldlen,
            freepage_first < store.pages@.len(),
            store.pages@.len() <= pages0.len() + k,
            k <= maxw <= LAST_WINDOW,
            forall|j: int| 0 <= j < n_ids ==> (#[trigger] pages@[j]) / FREEPAGE_WINDOW <= maxw,
            current != NO_PAGE,
            current < store.pages@.len(),
            chain_nth(store.pages@, freepage_first, k as nat) == current,
            forall|n: nat|
                n < k ==> (#[trigger] chain_nth(store.pages@, freepage_first, n) != NO_PAGE
                    && store.pages@[chain_nth(store.pages@, freepage_first, n) as int].spec_len()
                    > 0),
            store.pages@.len() + (maxw - k) + 1 <= NO_PAGE,
            store.pages@.len() >= oldlen,
            // windows already handled
            forall|q: u32|
                q / FREEPAGE_WINDOW < k ==> (fp_marked(store.pages@, freepage_first, q) <==> (
                fp_marked(pages0, freepage_first, q) || pages@.contains(q))),
            // windows not yet handled
            forall|q: u32|
                q / FREEPAGE_WINDOW >= k ==> (fp_marked(store.pages@, freepage_first, q) <==>
                fp_marked(pages0, freepage_first, q)),
            // pages off the pre-existing chain are untouched
            forall|i: int|
                0 <= i < oldlen && !chain_member(pages0, freepage_first, i as u32) ==> store.pages@[i]
                    == pages0[i],
            // pre-existing chain positions persist
            forall|n: nat|
                #[trigger] chain_nth(pages0, freepage_first, n) != NO_PAGE ==> chain_nth(
                    store.pages@,
                    freepage_first,
                    n,
                ) == chain_nth(pages0, freepage_first, n),
            // positions beyond the pre-existing chain are fresh pages
            forall|n: nat|
                chain_nth(pages0, freepage_first, n) == NO_PAGE ==> (#[trigger] chain_nth(
                    store.pages@,
                    freepage_first,
                    n,
                ) == NO_PAGE || chain_nth(store.pages@, freepage_first, n) >= oldlen),
        decreases maxw - k,
    {
        let ghost pre = store.pages@;
        let cnt = store.slot_count(current);
        let mut f: FreepageTuple = if cnt == 0 {
            FreepageTuple::new()
        } else {
            match store.get_tuple(current, 0) {
                Some(Tuple::Freepage(g)) => FreepageTuple { words: copy_vec(&g.words) },
                _ => {
                    proof {
                        assert(fp_corrupt_at(store.pages@, freepage_first, k as nat));
                    }
                    return Err(IndexError::DataCorruption);
                },
            }
        };
        let ghost fstart = f;
        for i in 0..n_ids
            invariant
                n_ids == pages@.len(),
                k <= LAST_WINDOW,
                f.words@.len() == FREEPAGE_WORDS,
                forall|b: int|
                    0 <= b < FREEPAGE_WINDOW ==> (fp_bit(f.words@, b) <==> (fp_bit(
                        fstart.words@,
                        b,
                    ) || window_hit(pages@, i as int, k, b))),
        {
            let id = pages[i];
            if id / FREEPAGE_WINDOW == k {
                f.mark(id % FREEPAGE_WINDOW);
            }
            proof {
                assert forall|b: int|
                    0 <= b < FREEPAGE_WINDOW implies (fp_bit(f.words@, b) <==> (fp_bit(
                    fstart.words@,
                    b,
                ) || window_hit(pages@, i + 1, k, b))) by {
                    if id / FREEPAGE_WINDOW == k && id % FREEPAGE_WINDOW == b {
                        assert(window_hit(pages@, i + 1, k, b)) by {
                            assert(pages@[i as int] / FREEPAGE_WINDOW == k && pages@[i as int]
                                % FREEPAGE_WINDOW == b);
                        };
                    } else {
                        if window_hit(pages@, i + 1, k, b) && !window_hit(pages@, i as int, k, b) {
                            let j = choose|j: int|
                                0 <= j < i + 1 && (#[trigger] pages@[j]) / FREEPAGE_WINDOW == k
                                    && pages@[j] % FREEPAGE_WINDOW == b;
                            assert(j == i);
                            assert(false);
                        }
                    }
                }
            }
        }
        if cnt == 0 {
            let r = store.alloc_at(current, Tuple::Freepage(f));
            proof {
                assert(pre[current as int].spec_freespace() == PAGE_CAPACITY) by {
                    assert(used_bytes(pre[current as int].slots@) == 0);
                };
                assert(r is Some);
                assert(store.pages@[current as int].spec_get(0) is Some);
            }
        } else {
            store.set_at(current, 0, Tuple::Freepage(f));
        }
        proof {
            let post = store.pages@;
            assert forall|nn: nat| true implies #[trigger] chain_nth(post, freepage_first, nn)
                == chain_nth(pre, freepage_first, nn) by {
                lemma_chain_congruence(pre, post, freepage_first, nn);
            }
            // the written page holds exactly the new bitmap
            assert(post[current as int].spec_get(0) == Some(Tuple::Freepage(f)));
            // re-establish the marked-set invariants
            assert forall|q: u32|
                q / FREEPAGE_WINDOW < k + 1 implies (fp_marked(post, freepage_first, q) <==> (
            fp_marked(pages0, freepage_first, q) || pages@.contains(q))) by {
                let w = (q / FREEPAGE_WINDOW) as nat;
                if w == k as nat {
                    assert(chain_nth(post, freepage_first, w) == current);
                    let b = (q % FREEPAGE_WINDOW) as int;
                    assert(fp_marked(post, freepage_first, q) <==> fp_bit(f.words@, b));
                    assert(fp_bit(f.words@, b) <==> (fp_bit(fstart.words@, b) || window_hit(
                        pages@,
                        n_ids as int,
                        k,
                        b,
                    )));
                    assert(window_hit(pages@, n_ids as int, k, b) <==> pages@.contains(q)) by {
                        if window_hit(pages@, n_ids as int, k, b) {
                            let j = choose|j: int|
                                0 <= j < n_ids && (#[trigger] pages@[j]) / FREEPAGE_WINDOW == k
                                    && pages@[j] % FREEPAGE_WINDOW == b;
                            lemma_window_decompose(pages@[j], k, b);
                            lemma_window_decompose(q, k, b);
                            assert(pages@[j] == q);
                        }
                        if pages@.contains(q) {
                            let j = choose|j: int| 0 <= j < n_ids && pages@[j] == q;
                            assert(pages@[j] / FREEPAGE_WINDOW == k && pages@[j] % FREEPAGE_WINDOW
                                == b);
                        }
                    };
                    assert(fp_bit(fstart.words@, b) <==> fp_marked(pre, freepage_first, q)) by {
                        if cnt == 0 {
                            assert(pre[current as int].spec_get(0) is None);
                        }
                    };
                    assert(fp_marked(pre, freepage_first, q) <==> fp_marked(
                        pages0,
                        freepage_first,
                        q,
                    ));
                } else {
                    let p = chain_nth(pre, freepage_first, w);
                    if p != NO_PAGE {
                        lemma_chain_in_range(pre, freepage_first, w);
                        if p == current {
                            if w < k as nat {
                                lemma_chain_monotone(pre, freepage_first, w, k as nat);
                            } else {
                                lemma_chain_monotone(pre, freepage_first, k as nat, w);
                            }
                            assert(false);
                        }
                        assert(post[p as int] == pre[p as int]);
                    }
                }
            }
            assert forall|q: u32|
                q / FREEPAGE_WINDOW >= k + 1 implies (fp_marked(post, freepage_first, q) <==>
            fp_marked(pages0, freepage_first, q)) by {
                let w = (q / FREEPAGE_WINDOW) as nat;
                let p = chain_nth(pre, freepage_first, w);
                if p != NO_PAGE {
                    lemma_chain_in_range(pre, freepage_first, w);
                    if p == current {
                        lemma_chain_monotone(pre, freepage_first, k as nat, w);
                        assert(false);
                    }
                    assert(post[p as int] == pre[p as int]);
                }
            }
            // untouched pages stay untouched
            assert forall|i: int|
                0 <= i < oldlen && !chain_member(pages0, freepage_first, i as u32) implies post[i]
                == pages0[i] by {
                if i == current {
                    if chain_nth(pages0, freepage_first, k as nat) != NO_PAGE {
                        assert(chain_member(pages0, freepage_first, current));
                    } else {
                        assert(current >= oldlen);
                    }
                    assert(false);
                }
            }
        }
        let nxt = store.opaque_of(current).next;
        let mut step_to = nxt;
        if nxt == NO_PAGE {
            let ghost pre2 = store.pages@;
            let nid = store.extend();
            proof {
                assert forall|nn: nat| true implies #[trigger] chain_nth(store.pages@, freepage_first, nn)
                    == chain_nth(pre2, freepage_first, nn) by {
                    lemma_chain_extend(pre2, store.pages@, freepage_first, nn);
                }
            }
            let ghost pre3 = store.pages@;
            store.set_next(current, nid);
            step_to = nid;
            proof {
                let post = store.pages@;
                assert forall|nn: nat|
                    #[trigger] chain_nth(pre3, freepage_first, nn) != NO_PAGE implies chain_nth(
                    post,
                    freepage_first,
                    nn,
                ) == chain_nth(pre3, freepage_first, nn) by {
                    lemma_chain_relink(pre3, post, current as int, freepage_first, nn);
                }
                assert(chain_nth(post, freepage_first, (k + 1) as nat) == nid) by {
                    assert(pre3[current as int].opaque.next == NO_PAGE);
                    assert(chain_nth(pre, freepage_first, k as nat) == current);
                    assert(chain_nth(pre2, freepage_first, k as nat) == current);
                    assert(chain_nth(pre3, freepage_first, k as nat) == current);
                    lemma_chain_relink(pre3, post, current as int, freepage_first, k as nat);
                    assert(chain_nth(post, freepage_first, k as nat) == current);
                    lemma_chain_split(post, freepage_first, k as nat, 1);
                    assert(post[current as int].opaque.next == nid);
                    assert(nid < post.len());
                    assert(chain_nth(post, current, 1) == chain_nth(post, nid, 0));
                    assert(chain_nth(post, nid, 0) == nid);
                };
                assert forall|nn: nat|
                    nn > k + 1 implies #[trigger] chain_nth(post, freepage_first, nn)
                    == NO_PAGE by {
                    lemma_chain_split(post, freepage_first, (k + 1) as nat, (nn - k - 1) as nat);
                    lemma_chain_split(post, freepage_first, (k + 2) as nat, (nn - k - 2) as nat);
                    lemma_chain_split(post, freepage_first, (k + 1) as nat, 1);
                    assert(chain_nth(post, freepage_first, (k + 2) as nat) == chain_nth(
                        post,
                        nid,
                        1,
                    ));
                    assert(post[nid as int].opaque.next == NO_PAGE);
                    lemma_chain_absent(post, NO_PAGE, (nn - k - 2) as nat);
                }
                // marked sets are unchanged by growing the chain with an
                // empty page
                assert forall|q: u32| true implies (fp_marked(post, freepage_first, q) <==> fp_marked(
                    pre2,
                    freepage_first,
                    q,
                )) by {
                    let w = (q / FREEPAGE_WINDOW) as nat;
                    let p = chain_nth(pre2, freepage_first, w);
                    if p != NO_PAGE {
                        lemma_chain_in_range(pre2, freepage_first, w);
                        assert(chain_nth(pre3, freepage_first, w) == p);
                        lemma_chain_relink(pre3, post, current as int, freepage_first, w);
                        assert(chain_nth(post, freepage_first, w) == p);
                        assert(post[p as int].slots == pre2[p as int].slots);
                    } else {
                        let p2 = chain_nth(post, freepage_first, w);
                        if p2 != NO_PAGE {
                            if w == (k + 1) as nat {
                                assert(p2 == nid);
                                assert(post[p2 as int].spec_len() == 0);
                            } else if w > k + 1 {
                                assert(false);
                            } else {
                                assert(chain_nth(pre2, freepage_first, w) != NO_PAGE);
                                assert(false);
                            }
                        }
                    }
                }
                // the pre-existing chain positions persist
                assert forall|nn: nat|
                    #[trigger] chain_nth(pages0, freepage_first, nn) != NO_PAGE implies chain_nth(
                    post,
                    freepage_first,
                    nn,
                ) == chain_nth(pages0, freepage_first, nn) by {
                    assert(chain_nth(pre, freepage_first, nn) == chain_nth(
                        pages0,
                        freepage_first,
                        nn,
                    ));
                    assert(chain_nth(pre2, freepage_first, nn) == chain_nth(
                        pages0,
                        freepage_first,
                        nn,
                    ));
                    assert(chain_nth(pre3, freepage_first, nn) == chain_nth(
                        pages0,
                        freepage_first,
                        nn,
                    ));
                }
                // positions beyond the pre-existing chain stay fresh
                assert forall|nn: nat|
                    chain_nth(pages0, freepage_first, nn) == NO_PAGE implies (#[trigger] chain_nth(
                    post,
                    freepage_first,
                    nn,
                ) == NO_PAGE || chain_nth(post, freepage_first, nn) >= oldlen) by {
                    let v3 = chain_nth(pre3, freepage_first, nn);
                    if v3 != NO_PAGE {
                        lemma_chain_relink(pre3, post, current as int, freepage_first, nn);
                        assert(chain_nth(pre2, freepage_first, nn) == v3);
                        assert(chain_nth(pre, freepage_first, nn) == v3);
                    } else {
                        if nn == (k + 1) as nat {
                            assert(chain_nth(post, freepage_first, nn) == nid);
                            assert(nid >= oldlen);
                        } else if nn > k + 1 {
                            assert(chain_nth(post, freepage_first, nn) == NO_PAGE);
                        } else {
                            assert(chain_nth(pre, freepage_first, k as nat) == current);
                            if nn < k as nat {
                                lemma_chain_monotone(pre, freepage_first, nn, k as nat);
                            }
                            assert(chain_nth(pre, freepage_first, nn) != NO_PAGE);
                            assert(chain_nth(pre2, freepage_first, nn) != NO_PAGE);
                            assert(chain_nth(pre3, freepage_first, nn) != NO_PAGE);
                            assert(false);
                        }
                    }
                }
                // pages off the pre-existing chain are untouched
                assert forall|i: int|
                    0 <= i < oldlen && !chain_member(pages0, freepage_first, i as u32) implies post[i]
                    == pages0[i] by {
                    if i == current {
                        if chain_nth(pages0, freepage_first, k as nat) != NO_PAGE {
                            assert(chain_member(pages0, freepage_first, current));
                        } else {
                            assert(current >= oldlen);
                        }
                        assert(false);
                    } else {
                        assert(pre2[i] == pages0[i]);
                        assert(pre3[i] == pre2[i]);
                        assert(post[i] == pre3[i]);
                    }
                }
                // the materialized prefix persists across the extension
                assert forall|n: nat|
                    n < k + 1 implies (#[trigger] chain_nth(post, freepage_first, n) != NO_PAGE
                    && post[chain_nth(post, freepage_first, n) as int].spec_len() > 0) by {
                    assert(chain_nth(pre, freepage_first, k as nat) == current);
                    if n < k as nat {
                        lemma_chain_monotone(pre, freepage_first, n, k as nat);
                    }
                    let q0 = chain_nth(pre, freepage_first, n);
                    assert(q0 != NO_PAGE);
                    lemma_chain_in_range(pre, freepage_first, n);
                    assert(chain_nth(pre2, freepage_first, n) == q0);
                    assert(chain_nth(pre3, freepage_first, n) == q0);
                    lemma_chain_relink(pre3, post, current as int, freepage_first, n);
                    assert(chain_nth(post, freepage_first, n) == q0);
                    if n == k as nat {
                        assert(q0 == current);
                        assert(post[q0 as int].spec_len() > 0);
                    } else {
                        assert(q0 < current);
                        assert(pre2[q0 as int] == pre[q0 as int]);
                        assert(pre[q0 as int].spec_len() > 0);
                        assert(pre3[q0 as int] == pre2[q0 as int]);
                        assert(post[q0 as int].slots == pre3[q0 as int].slots);
                    }
                }
            }
        }
        if k == maxw {
            proof {
                assert forall|q: u32|
                    fp_marked(store.pages@, freepage_first, q) <==> (fp_marked(
                    pages0,
                    freepage_first,
                    q,
                ) || pages@.contains(q)) by {
                    if q / FREEPAGE_WINDOW > maxw {
                        if pages@.contains(q) {
                            let j = choose|j: int| 0 <= j < n_ids && pages@[j] == q;
                            assert(pages@[j] / FREEPAGE_WINDOW <= maxw);
                            assert(false);
                        }
                    }
                }
            }
            return Ok(());
        }
        proof {
            if nxt != NO_PAGE {
                lemma_chain_split(store.pages@, freepage_first, k as nat, 1);
                assert(store.pages@[current as int].opaque.next == nxt);
                assert(current < nxt < store.pages@.len());
                assert(chain_nth(store.pages@, current, 1) == chain_nth(store.pages@, nxt, 0));
                assert(chain_nth(store.pages@, nxt, 0) == nxt);
                assert(chain_nth(store.pages@, freepage_first, (k + 1) as nat) == nxt);
                // the page written this round keeps the prefix materialized
                assert forall|n: nat|
                    n < k + 1 implies (#[trigger] chain_nth(store.pages@, freepage_first, n)
                    != NO_PAGE && store.pages@[chain_nth(
                    store.pages@,
                    freepage_first,
                    n,
                ) as int].spec_len() > 0) by {
                    assert(chain_nth(pre, freepage_first, k as nat) == current);
                    if n < k as nat {
                        lemma_chain_monotone(pre, freepage_first, n, k as nat);
                    }
                    let q0 = chain_nth(pre, freepage_first, n);
                    assert(q0 != NO_PAGE);
                    lemma_chain_in_range(pre, freepage_first, n);
                    assert(chain_nth(store.pages@, freepage_first, n) == q0);
                    if n == k as nat {
                        assert(q0 == current);
                        assert(store.pages@[q0 as int].spec_len() > 0);
                    } else {
                        assert(q0 < current);
                        assert(store.pages@[q0 as int] == pre[q0 as int]);
                        assert(pre[q0 as int].spec_len() > 0);
                    }
                }
            }
        }
        current = step_to;
        k = k + 1;
    }
}

/// Walks the freepage chain and returns the lowest page id recorded as
/// reusable, clearing its bit; returns `None` when nothing is recorded.
pub fn fetch(store: &mut Store, freepage_first: u32) -> (r: Result<Option<u32>, IndexError>)
    requires
        old(store).wf(),
        freepage_first < old(store).pages@.len(),
    ensures
        final(store).wf(),
        final(store).pages@.len() == old(store).pages@.len(),
        forall|i: int|
            0 <= i < old(store).pages@.len() && !chain_member(
                old(store).pages@,
                freepage_first,
                i as u32,
            ) ==> final(store).pages@[i] == old(store).pages@[i],
        match r {
            Ok(Some(pid)) => {
                &&& fp_marked(old(store).pages@, freepage_first, pid)
                &&& forall|q: u32| q < pid ==> !fp_marked(old(store).pages@, freepage_first, q)
                &&& forall|q: u32|
                    fp_marked(final(store).pages@, freepage_first, q) <==> (q != pid && fp_marked(
                        old(store).pages@,
                        freepage_first,
                        q,
                    ))
            },
            Ok(None) => {
                &&& final(store).pages@ == old(store).pages@
                &&& forall|q: u32| !fp_marked(old(store).pages@, freepage_first, q)
            },
            Err(e) => {
                &&& e == IndexError::DataCorruption
                &&& final(store).pages@ == old(store).pages@
                &&& exists|n: nat|
                    #[trigger] fp_corrupt_at(final(store).pages@, freepage_first, n)
            },
        },
{
    let ghost pages0 = old(store).pages@;
    let mut current: u32 = freepage_first;
    let mut k: u32 = 0;
    loop
        invariant
            store.wf(),
            store.pages@ == pages0,
            pages0 == old(store).pages@,
            freepage_first < store.pages@.len(),
            current != NO_PAGE,
            current < store.pages@.len(),
            k <= LAST_WINDOW,
            chain_nth(pages0, freepage_first, k as nat) == current,
            forall|q: u32| q / FREEPAGE_WINDOW < k ==> !fp_marked(pages0, freepage_first, q),
        decreases store.pages@.len() - current,
    {
        let cnt = store.slot_count(current);
        if cnt == 0 {
            let nxt0 = store.opaque_of(current).next;
            if nxt0 == NO_PAGE {
                proof {
                    assert forall|q: u32| !fp_marked(pages0, freepage_first, q) by {
                        let w = (q / FREEPAGE_WINDOW) as nat;
                        if w == k as nat {
                        } else if w > k as nat {
                            lemma_chain_split(pages0, freepage_first, k as nat, 1);
                            assert(chain_nth(pages0, current, 1) == chain_nth(pages0, NO_PAGE, 0));
                            assert(chain_nth(pages0, freepage_first, (k as nat) + 1) == NO_PAGE);
                            lemma_chain_split(pages0, freepage_first, (k as nat) + 1, (w - k
                                - 1) as nat);
                            lemma_chain_absent(pages0, NO_PAGE, (w - k - 1) as nat);
                        }
                    }
                }
                return Ok(None);
            } else {
                proof {
                    assert(fp_corrupt_at(store.pages@, freepage_first, k as nat)) by {
                        lemma_chain_split(pages0, freepage_first, k as nat, 1);
                        assert(chain_nth(pages0, current, 1) == chain_nth(pages0, nxt0, 0));
                    };
                }
                return Err(IndexError::DataCorruption);
            }
        }
        let found = match store.get_tuple(current, 0) {
            Some(Tuple::Freepage(f)) => Some(copy_vec(&f.words)),
            _ => None,
        };
        let mut f = match found {
            Some(words) => FreepageTuple { words },
            None => {
                proof {
                    assert(fp_corrupt_at(store.pages@, freepage_first, k as nat));
                }
                return Err(IndexError::DataCorruption);
            },
        };
        let ghost f0 = f;
        let got = f.fetch();
        match got {
            Some(local) => {
                let pid = k * FREEPAGE_WINDOW + local;
                store.set_at(current, 0, Tuple::Freepage(f));
                proof {
                    lemma_chain_congruence(pages0, store.pages@, freepage_first, (pid
                        / FREEPAGE_WINDOW) as nat);
                    assert(pid / FREEPAGE_WINDOW == k && pid % FREEPAGE_WINDOW == local) by {
                        lemma_fundamental_div_mod(pid as int, FREEPAGE_WINDOW as int);
                    };
                    assert(fp_marked(pages0, freepage_first, pid));
                    assert forall|q: u32| q < pid implies !fp_marked(pages0, freepage_first, q) by {
                        let w = (q / FREEPAGE_WINDOW) as nat;
                        if w == k as nat {
                            assert(q % FREEPAGE_WINDOW < local) by {
                                lemma_fundamental_div_mod(q as int, FREEPAGE_WINDOW as int);
                                lemma_fundamental_div_mod(pid as int, FREEPAGE_WINDOW as int);
                            };
                        }
                    }
                    assert forall|q: u32|
                        fp_marked(store.pages@, freepage_first, q) <==> (q != pid && fp_marked(
                            pages0,
                            freepage_first,
                            q,
                        )) by {
                        let w = (q / FREEPAGE_WINDOW) as nat;
                        lemma_chain_congruence(pages0, store.pages@, freepage_first, w);
                        let p = chain_nth(pages0, freepage_first, w);
                        if p != NO_PAGE {
                            if p == current {
                                assert(w == k as nat) by {
                                    if w < k as nat {
                                        lemma_chain_monotone(pages0, freepage_first, w, k as nat);
                                    } else if w > k as nat {
                                        lemma_chain_monotone(pages0, freepage_first, k as nat, w);
                                    }
                                };
                                assert(q / FREEPAGE_WINDOW == k);
                                if q == pid {
                                    assert(q % FREEPAGE_WINDOW == local) by {
                                        lemma_fundamental_div_mod(q as int, FREEPAGE_WINDOW as int);
                                        lemma_fundamental_div_mod(
                                            pid as int,
                                            FREEPAGE_WINDOW as int,
                                        );
                                    };
                                } else {
                                    assert(q % FREEPAGE_WINDOW != local) by {
                                        lemma_fundamental_div_mod(q as int, FREEPAGE_WINDOW as int);
                                        lemma_fundamental_div_mod(
                                            pid as int,
                                            FREEPAGE_WINDOW as int,
                                        );
                                    };
                                }
                            } else {
                                lemma_chain_in_range(pages0, freepage_first, w);
                                assert(store.pages@[p as int] == pages0[p as int]);
                                assert(q != pid) by {
                                    if q == pid {
                                        assert(w == k as nat);
                                        assert(p == current);
                                    }
                                };
                            }
                        } else {
                            if q == pid {
                                assert(false);
                            }
                        }
                    }
                    assert(chain_member(pages0, freepage_first, current)) by {
                        assert(chain_nth(pages0, freepage_first, k as nat) == current);
                    };
                }
                return Ok(Some(pid));
            },
            None => {
                proof {
                    assert forall|q: u32|
                        q / FREEPAGE_WINDOW < k + 1 implies !fp_marked(
                        pages0,
                        freepage_first,
                        q,
                    ) by {
                        let w = (q / FREEPAGE_WINDOW) as nat;
                        if w == k as nat {
                            assert(!fp_bit(f0.words@, (q % FREEPAGE_WINDOW) as int));
                        }
                    }
                }
                let nxt = store.opaque_of(current).next;
                if nxt == NO_PAGE {
                    proof {
                        assert forall|q: u32| !fp_marked(pages0, freepage_first, q) by {
                            let w = (q / FREEPAGE_WINDOW) as nat;
                            if w == k as nat {
                                assert(chain_nth(pages0, freepage_first, w) == current);
                                match pages0[current as int].spec_get(0) {
                                    Some(Tuple::Freepage(g)) => {
                                        assert(g.words@ == f0.words@);
                                        assert(!fp_bit(g.words@, (q % FREEPAGE_WINDOW) as int));
                                    },
                                    _ => {},
                                }
                            } else if w > k as nat {
                                lemma_chain_split(pages0, freepage_first, k as nat, 1);
                                assert(chain_nth(pages0, current, 1) == chain_nth(
                                    pages0,
                                    NO_PAGE,
                                    0,
                                ));
                                assert(chain_nth(pages0, freepage_first, (k as nat) + 1)
                                    == NO_PAGE);
                                lemma_chain_split(pages0, freepage_first, (k as nat) + 1, (w - k
                                    - 1) as nat);
                                lemma_chain_absent(pages0, NO_PAGE, (w - k - 1) as nat);
                                assert((k as nat) + 1 + (w - k - 1) == w);
                            }
                        }
                    }
                    return Ok(None);
                }
                if k == LAST_WINDOW {
                    proof {
                        assert forall|q: u32| !fp_marked(pages0, freepage_first, q) by {
                            assert(q / FREEPAGE_WINDOW <= LAST_WINDOW);
                        }
                    }
                    return Ok(None);
                }
                proof {
                    lemma_chain_split(pages0, freepage_first, k as nat, 1);
                    assert(pages0[current as int].opaque.next == nxt);
                    assert(current < nxt < pages0.len());
                    assert(chain_nth(pages0, current, 1) == chain_nth(pages0, nxt, 0));
                    assert(chain_nth(pages0, nxt, 0) == nxt);
                    assert(chain_nth(pages0, freepage_first, (k + 1) as nat) == nxt);
                }
                current = nxt;
                k = k + 1;
            },
        }
    }
}

/// Marking a batch of page ids is idempotent: a second [`mark`] of the same
/// batch leaves the recorded set exactly as the first left it, at every
/// page id `q`.  The three page sequences are the store before any marking,
/// after the first call and after the second; the premises are the
/// postcondition of [`mark`] for each call, instantiated at `q`.
pub proof fn lemma_mark_idempotent(
    before: Seq<Page>,
    once: Seq<Page>,
    twice: Seq<Page>,
    first: u32,
    ids: Seq<u32>,
    q: u32,
)
    requires
        fp_marked(once, first, q) <==> (fp_marked(before, first, q) || ids.contains(q)),
        fp_marked(twice, first, q) <==> (fp_marked(once, first, q) || ids.contains(q)),
    ensures
        fp_marked(twice, first, q) <==> fp_marked(once, first, q),
{
}

/// Fetching twice hands out strictly ascending page ids: each [`fetch`]
/// returns the least recorded page and removes it, so whatever a later
/// fetch returns is larger.  The premises are the postcondition of the
/// first call and the hit of the second.
pub proof fn lemma_fetch_ascending(
    s0: Seq<Page>,
    s1: Seq<Page>,
    first: u32,
    p0: u32,
    p1: u32,
)
    requires
        fp_marked(s0, first, p0),
        forall|q: u32| q < p0 ==> !fp_marked(s0, first, q),
        forall|q: u32| fp_marked(s1, first, q) <==> (q != p0 && fp_marked(s0, first, q)),
        fp_marked(s1, first, p1),
    ensures
        p1 > p0,
{
    assert(p1 != p0 && fp_marked(s0, first, p1));
}

/// After clearing bit `kk` of word `w`, exactly that one global bit turns
/// off, the bits below it were already clear, and all other bits keep their
/// values.
proof fn lemma_locate(new: Seq<u64>, old_w: Seq<u64>, w: int, kk: u64, local: int)
    requires
        old_w.len() == FREEPAGE_WORDS,
        new.len() == FREEPAGE_WORDS,
        0 <= w < FREEPAGE_WORDS,
        kk < 64,
        local == w * 64 + kk,
        new == old_w.update(w, (old_w[w] & !(1u64 << kk))),
        (old_w[w] >> kk) & 1 == 1,
        forall|j: u64| j < kk ==> #[trigger] (old_w[w] >> j) & 1 == 0,
        forall|b: int| 0 <= b < w * 64 ==> !fp_bit(old_w, b),
    ensures
        0 <= local < FREEPAGE_WINDOW,
        fp_bit(old_w, local),
        forall|b: int| 0 <= b < local ==> !fp_bit(old_w, b),
        forall|b: int|
            0 <= b < FREEPAGE_WINDOW ==> (fp_bit(new, b) <==> (b != local && fp_bit(old_w, b))),
{
    let word = old_w[w];
    assert(local / 64 == w && local % 64 == kk) by {
        lemma_fundamental_div_mod(local, 64);
    };
    assert(fp_bit(old_w, local));
    assert forall|b: int| 0 <= b < local implies !fp_bit(old_w, b) by {
        if b >= w * 64 {
            assert(b / 64 == w) by {
                lemma_fundamental_div_mod(b, 64);
            };
            let j = (b % 64) as u64;
            assert(j < kk) by {
                lemma_fundamental_div_mod(b, 64);
            };
        }
    }
    assert forall|b: int|
        0 <= b < FREEPAGE_WINDOW implies (fp_bit(new, b) <==> (b != local && fp_bit(
        old_w,
        b,
    ))) by {
        let j = (b % 64) as u64;
        if b / 64 == w {
            assert(((word & !(1u64 << kk)) >> j) & 1 == 1 <==> ((word >> j) & 1 == 1 && j != kk))
                by (bit_vector)
                requires
                    kk < 64,
                    j < 64,
            ;
            if b == local {
                assert(j == kk);
            } else {
                if j == kk {
                    lemma_fundamental_div_mod(b, 64);
                    lemma_fundamental_div_mod(local, 64);
                    assert(false);
                }
            }
        } else {
            if b == local {
                lemma_fundamental_div_mod(b, 64);
                assert(false);
            }
        }
    }
}

} // verus!
