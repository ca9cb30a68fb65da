//! The slotted page and the page store.
//!
//! A page holds a growable array of slots, each either occupied by a tuple
//! or freed, plus a fixed opaque footer carrying the chain linkage.  The
//! store is the numbered sequence of pages a relation exposes; extending it
//! appends a fresh page.  Chains always link forward — a page's `next` is
//! either [`NO_PAGE`] or a strictly larger page id — which is how every walk
//! over a chain terminates.

use vstd::prelude::*;

use crate::tuples::{spec_size_of, tuple_wf, Tuple, NO_PAGE};

verus! {

/// Usable bytes per 8 KiB page once the header and the opaque footer are
/// taken out.
pub const PAGE_CAPACITY: u32 = 8160;

/// Bytes of bookkeeping per slot.
pub const SLOT_OVERHEAD: u32 = 4;

/// The fixed opaque footer of a page: the forward link of its chain, and on
/// chain-head pages a fast-forward hint to the first page that may still
/// have free space.
#[derive(Clone, Copy, PartialEq, Eq, Structural, Debug)]
pub struct PageOpaque {
    pub next: u32,
    pub fast_forward: u32,
}

/// One slotted page.
#[derive(Clone, Debug)]
pub struct Page {
    pub slots: Vec<Option<Tuple>>,
    pub opaque: PageOpaque,
}

/// Bytes used on a page by the slots `s[0..i]`.
pub open spec fn used_bytes_upto(s: Seq<Option<Tuple>>, i: int) -> int
    decreases i,
{
    if i <= 0 {
        0
    } else {
        used_bytes_upto(s, i - 1) + SLOT_OVERHEAD + match s[i - 1] {
            Some(t) => spec_size_of(t),
            None => 0,
        }
    }
}

/// Bytes used on a page by all its slots.
pub open spec fn used_bytes(s: Seq<Option<Tuple>>) -> int {
    used_bytes_upto(s, s.len() as int)
}

impl Page {
    /// A page is well formed when its tuples are and its slots fit within
    /// the page capacity.
    pub open spec fn wf(self) -> bool {
        &&& forall|i: int|
            0 <= i < self.slots@.len() && self.slots@[i] is Some ==> tuple_wf(
                self.slots@[i]->Some_0,
            )
        &&& used_bytes(self.slots@) <= PAGE_CAPACITY
        &&& self.slots@.len() <= u16::MAX
    }

    /// Free bytes remaining on the page.
    pub open spec fn spec_freespace(self) -> int {
        PAGE_CAPACITY - used_bytes(self.slots@)
    }

    /// Number of slots, occupied or freed.
    pub open spec fn spec_len(self) -> int {
        self.slots@.len() as int
    }

    /// The tuple at a slot, if the slot is occupied.
    pub open spec fn spec_get(self, slot: int) -> Option<Tuple> {
        if 0 <= slot < self.slots@.len() {
            self.slots@[slot]
        } else {
            None
        }
    }

    /// A fresh, empty page with terminal linkage.
    pub fn new() -> (p: Page)
        ensures
            p.slots@.len() == 0,
            p.opaque.next == NO_PAGE,
            p.opaque.fast_forward == NO_PAGE,
            p.wf(),
    {
        let p = Page { slots: Vec::new(), opaque: PageOpaque { next: NO_PAGE, fast_forward: NO_PAGE } };
        proof {
            assert(used_bytes(p.slots@) == 0);
        }
        p
    }

    /// Number of slots on the page.
    pub fn len(&self) -> (n: usize)
        ensures
            n == self.spec_len(),
    {
        self.slots.len()
    }

    /// Reads the tuple at `slot`, or `None` if the slot was freed or is out
    /// of range.
    pub fn get(&self, slot: usize) -> (r: Option<&Tuple>)
        ensures
            match r {
                Some(t) => self.spec_get(slot as int) == Some(*t),
                None => self.spec_get(slot as int) is None,
            },
    {
        if slot < self.slots.len() {
            match &self.slots[slot] {
                Some(t) => Some(t),
                None => None,
            }
        } else {
            None
        }
    }

    /// Free bytes remaining on the page.
    pub fn freespace(&self) -> (r: u32)
        requires
            self.wf(),
        ensures
            r == self.spec_freespace(),
    {
        proof {
            lemma_used_bytes_nonneg(self.slots@, self.slots@.len() as int);
        }
        let mut used: u32 = 0;
        let n = self.slots.len();
        for i in 0..n
            invariant
                n == self.slots@.len(),
                used == used_bytes_upto(self.slots@, i as int),
                self.wf(),
        {
            proof {
                lemma_used_bytes_upto_le(self.slots@, i + 1, n as int);
                lemma_used_bytes_nonneg(self.slots@, i as int);
                if self.slots@[i as int] is Some {
                    assert(tuple_wf(self.slots@[i as int]->Some_0));
                }
            }
            used = used + SLOT_OVERHEAD + match &self.slots[i] {
                Some(t) => t.size_of(),
                None => 0,
            };
        }
        PAGE_CAPACITY - used
    }

    /// Appends a tuple if it fits, returning the new slot index.  Returns
    /// `None`, leaving the page unchanged, when the free space cannot hold
    /// the tuple and its slot overhead.
    pub fn alloc_slot(&mut self, tuple: Tuple) -> (r: Option<u16>)
        requires
            old(self).wf(),
            tuple_wf(tuple),
            spec_size_of(tuple) <= PAGE_CAPACITY,
        ensures
            final(self).wf(),
            final(self).opaque == old(self).opaque,
            match r {
                Some(slot) => {
                    &&& slot == old(self).slots@.len()
                    &&& final(self).slots@ == old(self).slots@.push(Some(tuple))
                    &&& spec_size_of(tuple) + SLOT_OVERHEAD <= old(self).spec_freespace()
                },
                None => {
                    &&& *final(self) == *old(self)
                    &&& spec_size_of(tuple) + SLOT_OVERHEAD > old(self).spec_freespace() || old(
                        self,
                    ).slots@.len() == u16::MAX
                },
            },
    {
        let free = self.freespace();
        let size = tuple.size_of();
        if size <= free && SLOT_OVERHEAD <= free - size && self.slots.len() < u16::MAX as usize {
            let slot = self.slots.len() as u16;
            self.slots.push(Some(tuple));
            proof {
                lemma_used_bytes_prefix(old(self).slots@, self.slots@, old(self).slots@.len() as int);
                assert(used_bytes(self.slots@) == used_bytes(old(self).slots@) + SLOT_OVERHEAD
                    + spec_size_of(tuple));
            }
            Some(slot)
        } else {
            None
        }
    }

    /// Frees the tuple at `slot`, releasing its bytes while keeping the slot
    /// numbering of the others.
    pub fn free(&mut self, slot: usize)
        requires
            old(self).wf(),
            slot < old(self).slots@.len(),
        ensures
            final(self).wf(),
            final(self).opaque == old(self).opaque,
            final(self).slots@ == old(self).slots@.update(slot as int, None::<Tuple>),
    {
        self.slots.set(slot, None);
        proof {
            lemma_used_bytes_update_le(old(self).slots@, self.slots@, slot as int);
        }
    }

    /// Replaces the tuple at `slot` with another of the same size.
    pub fn set(&mut self, slot: usize, tuple: Tuple)
        requires
            old(self).wf(),
            tuple_wf(tuple),
            slot < old(self).slots@.len(),
            old(self).slots@[slot as int] is Some,
            spec_size_of(tuple) == spec_size_of(old(self).slots@[slot as int]->Some_0),
        ensures
            final(self).wf(),
            final(self).opaque == old(self).opaque,
            final(self).slots@ == old(self).slots@.update(slot as int, Some(tuple)),
    {
        self.slots.set(slot, Some(tuple));
        proof {
            lemma_used_bytes_update_eq(old(self).slots@, self.slots@, slot as int);
        }
    }
}

/// Byte accounting is non-negative.
pub proof fn lemma_used_bytes_nonneg(s: Seq<Option<Tuple>>, i: int)
    requires
        forall|j: int| 0 <= j < s.len() && s[j] is Some ==> tuple_wf(s[j]->Some_0),
        i <= s.len(),
    ensures
        0 <= used_bytes_upto(s, i),
    decreases i,
{
    if i > 0 {
        lemma_used_bytes_nonneg(s, i - 1);
        if s[i - 1] is Some {
            lemma_size_nonneg(s[i - 1]->Some_0);
        }
    }
}

/// A well-formed tuple has non-negative size.
pub proof fn lemma_size_nonneg(t: Tuple)
    ensures
        spec_size_of(t) >= 0,
{
}

/// Byte accounting grows with the slot prefix.
pub proof fn lemma_used_bytes_upto_le(s: Seq<Option<Tuple>>, i: int, n: int)
    requires
        forall|j: int| 0 <= j < s.len() && s[j] is Some ==> tuple_wf(s[j]->Some_0),
        0 <= i <= n <= s.len(),
    ensures
        used_bytes_upto(s, i) <= used_bytes_upto(s, n),
    decreases n - i,
{
    if i < n {
        lemma_used_bytes_upto_le(s, i + 1, n);
        if s[i] is Some {
            lemma_size_nonneg(s[i]->Some_0);
        }
    }
}

/// Byte accounting of a prefix depends only on the slots of that prefix.
pub proof fn lemma_used_bytes_prefix(s1: Seq<Option<Tuple>>, s2: Seq<Option<Tuple>>, i: int)
    requires
        0 <= i <= s1.len(),
        i <= s2.len(),
        forall|j: int| 0 <= j < i ==> s1[j] == s2[j],
    ensures
        used_bytes_upto(s1, i) == used_bytes_upto(s2, i),
    decreases i,
{
    if i > 0 {
        lemma_used_bytes_prefix(s1, s2, i - 1);
    }
}

/// Freeing a slot never increases the bytes used.
proof fn lemma_used_bytes_update_le(s1: Seq<Option<Tuple>>, s2: Seq<Option<Tuple>>, k: int)
    requires
        0 <= k < s1.len(),
        s2 == s1.update(k, None::<Tuple>),
    ensures
        used_bytes(s2) <= used_bytes(s1),
{
    lemma_used_bytes_update_helper(s1, s2, k, s1.len() as int);
}

proof fn lemma_used_bytes_update_helper(s1: Seq<Option<Tuple>>, s2: Seq<Option<Tuple>>, k: int, i: int)
    requires
        0 <= k < s1.len(),
        s2 == s1.update(k, None::<Tuple>),
        i <= s1.len(),
    ensures
        i <= k ==> used_bytes_upto(s2, i) == used_bytes_upto(s1, i),
        i > k ==> used_bytes_upto(s2, i) == used_bytes_upto(s1, i) - (match s1[k] {
            Some(t) => spec_size_of(t),
            None => 0,
        }),
    decreases i,
{
    if i > 0 {
        lemma_used_bytes_update_helper(s1, s2, k, i - 1);
    }
}

/// Replacing a slot with an equal-sized tuple keeps the bytes used.
proof fn lemma_used_bytes_update_eq(s1: Seq<Option<Tuple>>, s2: Seq<Option<Tuple>>, k: int)
    requires
        0 <= k < s1.len(),
        s1[k] is Some,
        s2.len() == s1.len(),
        s2 == s1.update(k, s2[k]),
        s2[k] is Some,
        spec_size_of(s2[k]->Some_0) == spec_size_of(s1[k]->Some_0),
    ensures
        used_bytes(s2) == used_bytes(s1),
{
    lemma_used_bytes_update_eq_helper(s1, s2, k, s1.len() as int);
}

proof fn lemma_used_bytes_update_eq_helper(
    s1: Seq<Option<Tuple>>,
    s2: Seq<Option<Tuple>>,
    k: int,
    i: int,
)
    requires
        0 <= k < s1.len(),
        s1[k] is Some,
        s2.len() == s1.len(),
        s2 == s1.update(k, s2[k]),
        s2[k] is Some,
        spec_size_of(s2[k]->Some_0) == spec_size_of(s1[k]->Some_0),
        i <= s1.len(),
    ensures
        used_bytes_upto(s2, i) == used_bytes_upto(s1, i),
    decreases i,
{
    if i > 0 {
        lemma_used_bytes_update_eq_helper(s1, s2, k, i - 1);
    }
}

/// The page id of the `n`-th element of the chain that starts at `first`
/// and follows `next` links, or [`NO_PAGE`] when the chain is shorter.
pub open spec fn chain_nth(pages: Seq<Page>, first: u32, n: nat) -> u32
    decreases n,
{
    if first == NO_PAGE || first >= pages.len() {
        NO_PAGE
    } else if n == 0 {
        first
    } else {
        chain_nth(pages, pages[first as int].opaque.next, (n - 1) as nat)
    }
}

/// Whether page `pid` lies on the chain starting at `first`.
pub open spec fn chain_member(pages: Seq<Page>, first: u32, pid: u32) -> bool {
    pid != NO_PAGE && exists|n: nat| chain_nth(pages, first, n) == pid
}

/// Forward-linkage of a page sequence on its own: every `next` is either
/// [`NO_PAGE`] or a strictly larger valid page id.
pub open spec fn links_forward(pages: Seq<Page>) -> bool {
    forall|i: int|
        0 <= i < pages.len() ==> ((#[trigger] pages[i]).opaque.next == NO_PAGE || (i
            < pages[i].opaque.next < pages.len()))
}

/// Chains agree on two page sequences with the same length and the same
/// links.
pub proof fn lemma_chain_congruence(pages1: Seq<Page>, pages2: Seq<Page>, first: u32, n: nat)
    requires
        pages1.len() == pages2.len(),
        forall|i: int|
            0 <= i < pages1.len() ==> (#[trigger] pages2[i]).opaque.next
                == pages1[i].opaque.next,
    ensures
        chain_nth(pages2, first, n) == chain_nth(pages1, first, n),
    decreases n,
{
    if !(first == NO_PAGE || first >= pages1.len()) && n > 0 {
        lemma_chain_congruence(pages1, pages2, pages1[first as int].opaque.next, (n - 1) as nat);
    }
}

/// Growing the store by fresh pages does not change any chain rooted at a
/// page that already existed.
pub proof fn lemma_chain_extend(pages1: Seq<Page>, pages2: Seq<Page>, first: u32, n: nat)
    requires
        links_forward(pages1),
        pages1.len() <= pages2.len(),
        forall|i: int|
            0 <= i < pages1.len() ==> (#[trigger] pages2[i]).opaque.next
                == pages1[i].opaque.next,
        first == NO_PAGE || first < pages1.len(),
    ensures
        chain_nth(pages2, first, n) == chain_nth(pages1, first, n),
    decreases n,
{
    if first != NO_PAGE && n > 0 {
        lemma_chain_extend(pages1, pages2, pages1[first as int].opaque.next, (n - 1) as nat);
    }
}

/// Linking a page whose `next` was [`NO_PAGE`] preserves every chain
/// position that was reachable before.
pub proof fn lemma_chain_relink(pages1: Seq<Page>, pages2: Seq<Page>, t: int, first: u32, n: nat)
    requires
        pages1.len() == pages2.len(),
        0 <= t < pages1.len(),
        pages1[t].opaque.next == NO_PAGE,
        forall|i: int|
            0 <= i < pages1.len() && i != t ==> (#[trigger] pages2[i]).opaque.next
                == pages1[i].opaque.next,
        chain_nth(pages1, first, n) != NO_PAGE,
    ensures
        chain_nth(pages2, first, n) == chain_nth(pages1, first, n),
    decreases n,
{
    if !(first == NO_PAGE || first >= pages1.len()) && n > 0 {
        if first == t {
            assert(chain_nth(pages1, NO_PAGE, (n - 1) as nat) == NO_PAGE);
        } else {
            lemma_chain_relink(pages1, pages2, t, pages1[first as int].opaque.next, (n - 1) as nat);
        }
    }
}

/// A chain can be split: walking `k + j` steps is walking `j` steps from
/// the page reached after `k` steps.
pub proof fn lemma_chain_split(pages: Seq<Page>, first: u32, k: nat, j: nat)
    ensures
        chain_nth(pages, first, k + j) == chain_nth(pages, chain_nth(pages, first, k), j),
    decreases k,
{
    if first == NO_PAGE || first >= pages.len() {
        lemma_chain_absent(pages, NO_PAGE, j);
    } else if k > 0 {
        lemma_chain_split(pages, pages[first as int].opaque.next, (k - 1) as nat, j);
    }
}

/// A reached chain position is a valid page id.
pub proof fn lemma_chain_in_range(pages: Seq<Page>, first: u32, n: nat)
    requires
        chain_nth(pages, first, n) != NO_PAGE,
    ensures
        chain_nth(pages, first, n) < pages.len(),
    decreases n,
{
    if !(first == NO_PAGE || first >= pages.len()) && n > 0 {
        lemma_chain_in_range(pages, pages[first as int].opaque.next, (n - 1) as nat);
    }
}

/// Walking from nowhere stays nowhere.
pub proof fn lemma_chain_absent(pages: Seq<Page>, first: u32, n: nat)
    requires
        first == NO_PAGE || first >= pages.len(),
    ensures
        chain_nth(pages, first, n) == NO_PAGE,
{
}

/// With forward links, chain positions are strictly increasing page ids, so
/// distinct positions hold distinct pages.
pub proof fn lemma_chain_monotone(pages: Seq<Page>, first: u32, m: nat, n: nat)
    requires
        links_forward(pages),
        m < n,
        chain_nth(pages, first, n) != NO_PAGE,
    ensures
        chain_nth(pages, first, m) != NO_PAGE,
        chain_nth(pages, first, m) < chain_nth(pages, first, n),
    decreases n - m,
{
    let pm = chain_nth(pages, first, m);
    lemma_chain_split(pages, first, m, (n - m) as nat);
    if pm == NO_PAGE {
        lemma_chain_absent(pages, pm, (n - m) as nat);
        assert(false);
    }
    let nxt = pages[pm as int].opaque.next;
    lemma_chain_split(pages, first, m, 1);
    assert(chain_nth(pages, first, (m + 1) as nat) == chain_nth(pages, pm, 1));
    assert(chain_nth(pages, pm, 1) == chain_nth(pages, nxt, 0));
    if m + 1 == n {
        assert(chain_nth(pages, first, n) == chain_nth(pages, nxt, 0));
        assert(nxt != NO_PAGE);
    } else {
        lemma_chain_monotone(pages, first, (m + 1) as nat, n);
        if chain_nth(pages, first, (m + 1) as nat) == NO_PAGE {
            assert(false);
        }
        assert(nxt != NO_PAGE);
    }
}

/// The page store: the numbered sequence of pages of one relation.
#[derive(Debug)]
pub struct Store {
    pub pages: Vec<Page>,
}

impl Store {
    /// The store is well formed when every page is and every chain link
    /// points strictly forward, so that chain walks terminate.
    pub open spec fn wf(self) -> bool {
        &&& forall|i: int| 0 <= i < self.pages@.len() ==> (#[trigger] self.pages@[i]).wf()
        &&& links_forward(self.pages@)
        &&& self.pages@.len() <= NO_PAGE
    }

    /// An empty store.
    pub fn new() -> (s: Store)
        ensures
            s.pages@.len() == 0,
            s.wf(),
    {
        Store { pages: Vec::new() }
    }

    /// Number of pages.
    pub fn page_count(&self) -> (n: usize)
        ensures
            n == self.pages@.len(),
    {
        self.pages.len()
    }

    /// Reads the tuple at `slot` of page `pid`.
    pub fn get_tuple(&self, pid: u32, slot: usize) -> (r: Option<&Tuple>)
        requires
            pid < self.pages@.len(),
        ensures
            match r {
                Some(t) => self.pages@[pid as int].spec_get(slot as int) == Some(*t),
                None => self.pages@[pid as int].spec_get(slot as int) is None,
            },
    {
        self.pages[pid as usize].get(slot)
    }

    /// Number of slots on page `pid`.
    pub fn slot_count(&self, pid: u32) -> (n: usize)
        requires
            pid < self.pages@.len(),
        ensures
            n == self.pages@[pid as int].spec_len(),
    {
        self.pages[pid as usize].len()
    }

    /// The opaque footer of page `pid`.
    pub fn opaque_of(&self, pid: u32) -> (r: PageOpaque)
        requires
            pid < self.pages@.len(),
        ensures
            r == self.pages@[pid as int].opaque,
    {
        self.pages[pid as usize].opaque
    }

    /// Free bytes on page `pid`.
    pub fn freespace_at(&self, pid: u32) -> (r: u32)
        requires
            self.wf(),
            pid < self.pages@.len(),
        ensures
            r == self.pages@[pid as int].spec_freespace(),
    {
        self.pages[pid as usize].freespace()
    }

    /// Links page `pid` to the strictly later page `next`, or unlinks it.
    pub fn set_next(&mut self, pid: u32, next: u32)
        requires
            old(self).wf(),
            pid < old(self).pages@.len(),
            next == NO_PAGE || pid < next < old(self).pages@.len(),
        ensures
            final(self).wf(),
            final(self).pages@.len() == old(self).pages@.len(),
            forall|i: int|
                0 <= i < old(self).pages@.len() && i != pid ==> final(self).pages@[i] == old(
                    self,
                ).pages@[i],
            final(self).pages@[pid as int].slots == old(self).pages@[pid as int].slots,
            final(self).pages@[pid as int].opaque.next == next,
            final(self).pages@[pid as int].opaque.fast_forward == old(
                self,
            ).pages@[pid as int].opaque.fast_forward,
    {
        let p: &mut Page = &mut self.pages[pid as usize];
        p.opaque.next = next;
    }

    /// Sets the fast-forward hint of page `pid`.
    pub fn set_fast_forward(&mut self, pid: u32, ff: u32)
        requires
            old(self).wf(),
            pid < old(self).pages@.len(),
        ensures
            final(self).wf(),
            final(self).pages@.len() == old(self).pages@.len(),
            forall|i: int|
                0 <= i < old(self).pages@.len() && i != pid ==> final(self).pages@[i] == old(
                    self,
                ).pages@[i],
            final(self).pages@[pid as int].slots == old(self).pages@[pid as int].slots,
            final(self).pages@[pid as int].opaque.next == old(
                self,
            ).pages@[pid as int].opaque.next,
            final(self).pages@[pid as int].opaque.fast_forward == ff,
    {
        let p: &mut Page = &mut self.pages[pid as usize];
        p.opaque.fast_forward = ff;
    }

    /// Appends a tuple to page `pid` if it fits.
    pub fn alloc_at(&mut self, pid: u32, tuple: Tuple) -> (r: Option<u16>)
        requires
            old(self).wf(),
            pid < old(self).pages@.len(),
            tuple_wf(tuple),
            spec_size_of(tuple) <= PAGE_CAPACITY,
        ensures
            final(self).wf(),
            final(self).pages@.len() == old(self).pages@.len(),
            forall|i: int|
                0 <= i < old(self).pages@.len() && i != pid ==> final(self).pages@[i] == old(
                    self,
                ).pages@[i],
            final(self).pages@[pid as int].opaque == old(self).pages@[pid as int].opaque,
            match r {
                Some(slot) => {
                    &&& slot == old(self).pages@[pid as int].slots@.len()
                    &&& final(self).pages@[pid as int].slots@ == old(
                        self,
                    ).pages@[pid as int].slots@.push(Some(tuple))
                },
                None => {
                    &&& final(self).pages@ == old(self).pages@
                    &&& spec_size_of(tuple) + SLOT_OVERHEAD > old(
                        self,
                    ).pages@[pid as int].spec_freespace() || old(
                        self,
                    ).pages@[pid as int].slots@.len() == u16::MAX
                },
            },
    {
        let p: &mut Page = &mut self.pages[pid as usize];
        let r = p.alloc_slot(tuple);
        proof {
            if r is None {
                assert(self.pages@ =~= old(self).pages@);
            }
        }
        r
    }

    /// Replaces the occupied slot `slot` of page `pid` with an equal-sized
    /// tuple.
    pub fn set_at(&mut self, pid: u32, slot: usize, tuple: Tuple)
        requires
            old(self).wf(),
            pid < old(self).pages@.len(),
            tuple_wf(tuple),
            slot < old(self).pages@[pid as int].slots@.len(),
            old(self).pages@[pid as int].slots@[slot as int] is Some,
            spec_size_of(tuple) == spec_size_of(
                old(self).pages@[pid as int].slots@[slot as int]->Some_0,
            ),
        ensures
            final(self).wf(),
            final(self).pages@.len() == old(self).pages@.len(),
            forall|i: int|
                0 <= i < old(self).pages@.len() && i != pid ==> final(self).pages@[i] == old(
                    self,
                ).pages@[i],
            final(self).pages@[pid as int].opaque == old(self).pages@[pid as int].opaque,
            final(self).pages@[pid as int].slots@ == old(self).pages@[pid as int].slots@.update(
                slot as int,
                Some(tuple),
            ),
    {
        let p: &mut Page = &mut self.pages[pid as usize];
        p.set(slot, tuple);
    }

    /// Frees slot `slot` of page `pid`.
    pub fn free_at(&mut self, pid: u32, slot: usize)
        requires
            old(self).wf(),
            pid < old(self).pages@.len(),
            slot < old(self).pages@[pid as int].slots@.len(),
        ensures
            final(self).wf(),
            final(self).pages@.len() == old(self).pages@.len(),
            forall|i: int|
                0 <= i < old(self).pages@.len() && i != pid ==> final(self).pages@[i] == old(
                    self,
                ).pages@[i],
            final(self).pages@[pid as int].opaque == old(self).pages@[pid as int].opaque,
            final(self).pages@[pid as int].slots@ == old(self).pages@[pid as int].slots@.update(
                slot as int,
                None::<Tuple>,
            ),
    {
        let p: &mut Page = &mut self.pages[pid as usize];
        p.free(slot);
    }

    /// Appends a fresh page, returning its id.
    pub fn extend(&mut self) -> (id: u32)
        requires
            old(self).wf(),
            old(self).pages@.len() < NO_PAGE,
        ensures
            final(self).wf(),
            id == old(self).pages@.len(),
            final(self).pages@.len() == old(self).pages@.len() + 1,
            forall|i: int|
                0 <= i < old(self).pages@.len() ==> final(self).pages@[i] == old(self).pages@[i],
            final(self).pages@[id as int].slots@.len() == 0,
            final(self).pages@[id as int].opaque.next == NO_PAGE,
            final(self).pages@[id as int].opaque.fast_forward == NO_PAGE,
    {
        let id = self.pages.len() as u32;
        self.pages.push(Page::new());
        id
    }
}

} // verus!
