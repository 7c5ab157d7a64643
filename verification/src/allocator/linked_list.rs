//! The explicit free-list allocator.
//!
//! Free memory is tracked as a chain of free-region records, newest first;
//! in the kernel each record occupies the first bytes of its own region, so
//! a region must be large enough and aligned enough to host one record.
//! Allocation walks the chain in order and takes the first region that
//! fits, splitting off any leftover tail as a new free region; freeing
//! pushes the freed span back on the front of the chain.  Adjacent free
//! regions are never merged: a deliberate speed-over-fragmentation
//! tradeoff.
//!
//! Alongside the free chain, the model tracks the set of live (allocated)
//! spans; the allocator's invariant says that no two tracked spans — free
//! or live — ever overlap.

use vstd::prelude::*;
use vstd::arithmetic::power2::is_pow2;
use crate::allocator::{
    align_up, lemma_align_up, lemma_divides_transitive, lemma_pow2_le_divides,
    lemma_pow2_positive, spec_align_up,
};

verus! {

/// Byte footprint of one free-region record, and the alignment every free
/// region must keep so that it can host its record.
pub const NODE_SIZE: usize = 16;

/// Record of one free region: its start address and its byte length.
#[derive(Clone, Copy, Debug, PartialEq, Eq, Structural)]
pub struct ListNode {
    pub addr: usize,
    pub size: usize,
}

impl ListNode {
    pub fn new(addr: usize, size: usize) -> (n: ListNode)
        ensures
            n.addr == addr,
            n.size == size,
    {
        ListNode { addr, size }
    }

    /// First address of the region.
    pub fn start_addr(&self) -> (r: usize)
        ensures
            r == self.addr,
    {
        self.addr
    }

    /// One past the last address of the region.
    pub fn end_addr(&self) -> (r: usize)
        requires
            self.addr + self.size <= usize::MAX,
        ensures
            r == self.addr + self.size,
    {
        self.addr + self.size
    }
}

/// A span of live memory handed out by the allocator, tracked only in
/// proofs.
pub struct Span {
    pub addr: int,
    pub size: int,
}

/// Two half-open spans share no address.
pub open spec fn disjoint(a_addr: int, a_size: int, b_addr: int, b_size: int) -> bool {
    a_addr + a_size <= b_addr || b_addr + b_size <= a_addr
}

/// A free region can host its own record: it is record-aligned, at least
/// one record long, and lies below the end of the address space.
pub open spec fn node_wf(n: ListNode) -> bool {
    &&& n.addr as int % NODE_SIZE as int == 0
    &&& n.size >= NODE_SIZE
    &&& n.addr + n.size <= usize::MAX
}

/// A live span keeps the same shape as a free region, so that freeing it
/// can turn it back into one.
pub open spec fn span_wf(s: Span) -> bool {
    &&& s.addr % NODE_SIZE as int == 0
    &&& s.size >= NODE_SIZE
    &&& s.addr + s.size <= usize::MAX
}

/// Every free region is well formed and no two of them overlap.
pub open spec fn regions_wf(s: Seq<ListNode>) -> bool {
    &&& forall|i: int| 0 <= i < s.len() ==> node_wf(#[trigger] s[i])
    &&& forall|i: int, j: int|
        0 <= i < j < s.len() ==> disjoint(
            #[trigger] s[i].addr as int,
            s[i].size as int,
            #[trigger] s[j].addr as int,
            s[j].size as int,
        )
}

/// Every live span is well formed and no two of them overlap.
pub open spec fn spans_wf(a: Set<Span>) -> bool {
    &&& forall|s: Span| #[trigger] a.contains(s) ==> span_wf(s)
    &&& forall|s: Span, t: Span|
        #[trigger] a.contains(s) && #[trigger] a.contains(t) && s != t ==> disjoint(
            s.addr,
            s.size,
            t.addr,
            t.size,
        )
}

/// No free region overlaps a live span.
pub open spec fn free_live_disjoint(s: Seq<ListNode>, a: Set<Span>) -> bool {
    forall|i: int, sp: Span|
        0 <= i < s.len() && #[trigger] a.contains(sp) ==> disjoint(
            #[trigger] s[i].addr as int,
            s[i].size as int,
            sp.addr,
            sp.size,
        )
}

/// The explicit free-list allocator: the chain of free regions, newest
/// first, plus the proof-only set of live spans.
pub struct LinkedListAllocator {
    free_list: Vec<ListNode>,
    allocated: Ghost<Set<Span>>,
}

impl View for LinkedListAllocator {
    type V = Seq<ListNode>;

    /// The free regions, in chain order (newest first).
    closed spec fn view(&self) -> Seq<ListNode> {
        self.free_list@
    }
}

impl LinkedListAllocator {
    /// The spans currently handed out and not yet freed.
    pub closed spec fn allocated(self) -> Set<Span> {
        self.allocated@
    }

    /// The allocator's invariant: free regions and live spans are all well
    /// formed and pairwise disjoint.
    pub open spec fn wf(self) -> bool {
        &&& regions_wf(self@)
        &&& spans_wf(self.allocated())
        &&& free_live_disjoint(self@, self.allocated())
    }

    /// Create an allocator with an empty free list; `init` must run before
    /// any allocation.
    pub fn new() -> (a: LinkedListAllocator)
        ensures
            a@ == Seq::<ListNode>::empty(),
            a.allocated() == Set::<Span>::empty(),
            a.wf(),
    {
        LinkedListAllocator { free_list: Vec::new(), allocated: Ghost(Set::empty()) }
    }

    /// Hand the heap window `[heap_start, heap_start + heap_size)` to the
    /// allocator as one big free region.  Must run exactly once, before
    /// any allocation.
    pub fn init(&mut self, heap_start: usize, heap_size: usize)
        requires
            old(self)@ == Seq::<ListNode>::empty(),
            old(self).allocated() == Set::<Span>::empty(),
            heap_start != 0,
            heap_start as int % NODE_SIZE as int == 0,
            heap_size >= NODE_SIZE,
            heap_start + heap_size <= usize::MAX,
        ensures
            final(self)@ == seq![ListNode { addr: heap_start, size: heap_size }],
            final(self).allocated() == old(self).allocated(),
            final(self).wf(),
    {
        self.add_free_region(heap_start, heap_size);
        proof {
            assert(self@ =~= seq![ListNode { addr: heap_start, size: heap_size }]);
        }
    }

    /// Push the region `[addr, addr + size)` onto the front of the free
    /// list.
    ///
    /// The region must be able to host its own record and must not touch
    /// any tracked span; both are caller contract violations otherwise,
    /// fatal in the kernel.
    pub fn add_free_region(&mut self, addr: usize, size: usize)
        requires
            old(self).wf(),
            addr as int % NODE_SIZE as int == 0,
            size >= NODE_SIZE,
            addr + size <= usize::MAX,
            forall|i: int|
                0 <= i < old(self)@.len() ==> disjoint(
                    addr as int,
                    size as int,
                    #[trigger] old(self)@[i].addr as int,
                    old(self)@[i].size as int,
                ),
            forall|sp: Span|
                #[trigger] old(self).allocated().contains(sp) ==> disjoint(
                    addr as int,
                    size as int,
                    sp.addr,
                    sp.size,
                ),
        ensures
            final(self)@ == old(self)@.insert(0, ListNode { addr, size }),
            final(self).allocated() == old(self).allocated(),
            final(self).wf(),
    {
        let node = ListNode::new(addr, size);
        self.free_list.insert(0, node);
    }
}

/// The request `(size, align)` adjusted so that the allocated block can
/// later host a free-region record: the alignment is raised to at least
/// the record alignment, and the size is padded to the raised alignment
/// and to at least one record.
pub open spec fn spec_size_align(size: int, align: int) -> (int, int) {
    let a = if align < NODE_SIZE as int {
        NODE_SIZE as int
    } else {
        align
    };
    let s = spec_align_up(size, a);
    (
        if s < NODE_SIZE as int {
            NODE_SIZE as int
        } else {
            s
        },
        a,
    )
}

/// A request the allocator accepts: a power-of-two alignment, with the
/// adjusted size still fitting in a machine word.
pub open spec fn valid_request(size: int, align: int) -> bool {
    &&& is_pow2(align)
    &&& spec_size_align(size, align).0 <= usize::MAX
}

/// The adjusted size and alignment are a record-aligned request: the
/// alignment is a power of two no smaller than the record alignment, and
/// the size is a positive multiple of the record size.
pub proof fn lemma_size_align_shape(size: int, align: int)
    requires
        0 <= size,
        is_pow2(align),
    ensures
        ({
            let (asize, aalign) = spec_size_align(size, align);
            &&& is_pow2(aalign)
            &&& NODE_SIZE <= aalign
            &&& aalign % NODE_SIZE as int == 0
            &&& NODE_SIZE <= asize
            &&& asize % NODE_SIZE as int == 0
            &&& asize % aalign == 0 || asize == NODE_SIZE
            &&& align <= aalign
            &&& size <= asize
        }),
{
    let (asize, aalign) = spec_size_align(size, align);
    lemma_pow2_positive(align);
    assert(is_pow2(16)) by {
        reveal_with_fuel(is_pow2, 5);
    }
    lemma_pow2_le_divides(NODE_SIZE as int, aalign);
    lemma_align_up(size, aalign);
    let s = spec_align_up(size, aalign);
    if s >= NODE_SIZE as int {
        lemma_divides_transitive(s, aalign, NODE_SIZE as int);
    }
}

/// Whether an allocation of `size` bytes at alignment `align` fits in the
/// free region `n`: the aligned block must end inside the region, and any
/// leftover tail must be able to host its own free-region record.
pub open spec fn region_fits(n: ListNode, size: int, align: int) -> bool {
    let start = spec_align_up(n.addr as int, align);
    let end = start + size;
    let excess = n.addr + n.size - end;
    &&& end <= n.addr + n.size
    &&& (excess == 0 || excess >= NODE_SIZE)
}

impl LinkedListAllocator {
    /// Adjust a request so that the allocated block can later host a
    /// free-region record; returns the adjusted `(size, align)`.
    pub fn size_align(size: usize, align: usize) -> (r: (usize, usize))
        requires
            valid_request(size as int, align as int),
        ensures
            r.0 == spec_size_align(size as int, align as int).0,
            r.1 == spec_size_align(size as int, align as int).1,
    {
        proof {
            lemma_size_align_shape(size as int, align as int);
        }
        let aalign = if align < NODE_SIZE {
            NODE_SIZE
        } else {
            align
        };
        let padded = align_up(size, aalign);
        let asize = if padded < NODE_SIZE {
            NODE_SIZE
        } else {
            padded
        };
        (asize, aalign)
    }

    /// Try to allocate `size` bytes at alignment `align` from the region
    /// `region`; returns the block's start address, or an error when the
    /// region does not fit the request.
    pub fn alloc_from_region(region: &ListNode, size: usize, align: usize) -> (r: Result<
        usize,
        (),
    >)
        requires
            is_pow2(align as int),
            region.addr + region.size <= usize::MAX,
        ensures
            r is Ok <==> region_fits(*region, size as int, align as int),
            r matches Ok(start) ==> start == spec_align_up(region.addr as int, align as int),
    {
        proof {
            lemma_pow2_positive(align as int);
            lemma_align_up(region.addr as int, align as int);
        }
        let rem = region.start_addr() % align;
        let start = if rem == 0 {
            region.start_addr()
        } else {
            match region.start_addr().checked_add(align - rem) {
                Some(s) => s,
                None => {
                    return Err(());
                },
            }
        };
        let end = match start.checked_add(size) {
            Some(e) => e,
            None => {
                return Err(());
            },
        };
        if end > region.end_addr() {
            return Err(());
        }
        let excess_size = region.end_addr() - end;
        if excess_size > 0 && excess_size < NODE_SIZE {
            return Err(());
        }
        Ok(start)
    }
}

/// Index of the first free region in chain order that fits the request,
/// if any: the chain is searched front to back and the search stops at the
/// first success.
pub open spec fn first_fit(s: Seq<ListNode>, size: int, align: int) -> Option<int>
    decreases s.len(),
{
    if s.len() == 0 {
        None
    } else if region_fits(s[0], size, align) {
        Some(0)
    } else {
        match first_fit(s.drop_first(), size, align) {
            Some(i) => Some(i + 1),
            None => None,
        }
    }
}

/// What the first-fit index means: when there is none, no region fits;
/// when it is `i`, region `i` fits and no earlier region does.
pub proof fn lemma_first_fit(s: Seq<ListNode>, size: int, align: int)
    ensures
        first_fit(s, size, align) is None ==> forall|i: int|
            0 <= i < s.len() ==> !region_fits(#[trigger] s[i], size, align),
        first_fit(s, size, align) matches Some(i) ==> {
            &&& 0 <= i < s.len()
            &&& region_fits(s[i], size, align)
            &&& forall|j: int| 0 <= j < i ==> !region_fits(#[trigger] s[j], size, align)
        },
    decreases s.len(),
{
    if s.len() > 0 && !region_fits(s[0], size, align) {
        let rest = s.drop_first();
        lemma_first_fit(rest, size, align);
        match first_fit(rest, size, align) {
            None => {
                assert forall|i: int| 0 <= i < s.len() implies !region_fits(
                    #[trigger] s[i],
                    size,
                    align,
                ) by {
                    if i >= 1 {
                        assert(rest[i - 1] == s[i]);
                        assert(!region_fits(rest[i - 1], size, align));
                    }
                }
            },
            Some(k) => {
                assert(rest[k] == s[k + 1]);
                assert forall|j: int| 0 <= j < k + 1 implies !region_fits(
                    #[trigger] s[j],
                    size,
                    align,
                ) by {
                    if j >= 1 {
                        assert(rest[j - 1] == s[j]);
                        assert(!region_fits(rest[j - 1], size, align));
                    }
                }
            },
        }
    }
}

/// A fitting region with no earlier fit is exactly where the first-fit
/// search stops.
pub proof fn lemma_first_fit_at(s: Seq<ListNode>, size: int, align: int, i: int)
    requires
        0 <= i < s.len(),
        region_fits(s[i], size, align),
        forall|j: int| 0 <= j < i ==> !region_fits(#[trigger] s[j], size, align),
    ensures
        first_fit(s, size, align) == Some(i),
{
    lemma_first_fit(s, size, align);
    match first_fit(s, size, align) {
        None => {
            assert(!region_fits(s[i], size, align));
        },
        Some(k) => {
            if k < i {
                assert(!region_fits(s[k], size, align));
            }
            if i < k {
                assert(!region_fits(s[i], size, align));
            }
        },
    }
}

/// Unlinking a free region keeps the remaining regions well formed and
/// disjoint, from each other and from every live span.
pub proof fn lemma_remove_region_wf(s: Seq<ListNode>, a: Set<Span>, i: int)
    requires
        regions_wf(s),
        free_live_disjoint(s, a),
        0 <= i < s.len(),
    ensures
        regions_wf(s.remove(i)),
        free_live_disjoint(s.remove(i), a),
        forall|j: int| 0 <= j < i ==> #[trigger] s.remove(i)[j] == s[j],
        forall|j: int| i <= j < s.len() - 1 ==> #[trigger] s.remove(i)[j] == s[j + 1],
{
    let r = s.remove(i);
    assert forall|j: int| 0 <= j < r.len() implies (j < i ==> r[j] == s[j]) && (j >= i ==> r[j]
        == s[j + 1]) by {}
}

impl LinkedListAllocator {
    /// Walk the free list front to back and unlink the first region that
    /// fits the request; returns the region together with the aligned
    /// start address of the block inside it, or nothing when no region
    /// fits.
    pub fn find_region(&mut self, size: usize, align: usize) -> (r: Option<(ListNode, usize)>)
        requires
            old(self).wf(),
            is_pow2(align as int),
        ensures
            final(self).wf(),
            final(self).allocated() == old(self).allocated(),
            r is Some <==> first_fit(old(self)@, size as int, align as int) is Some,
            r is None ==> final(self)@ == old(self)@,
            r matches Some((node, start)) ==> ({
                let i = first_fit(old(self)@, size as int, align as int)->Some_0;
                &&& node == old(self)@[i]
                &&& start == spec_align_up(node.addr as int, align as int)
                &&& region_fits(node, size as int, align as int)
                &&& final(self)@ == old(self)@.remove(i)
            }),
    {
        let mut idx: usize = 0;
        while idx < self.free_list.len()
            invariant
                self@ == old(self)@,
                self.allocated() == old(self).allocated(),
                self.wf(),
                is_pow2(align as int),
                0 <= idx <= self@.len(),
                forall|j: int|
                    0 <= j < idx ==> !region_fits(
                        #[trigger] old(self)@[j],
                        size as int,
                        align as int,
                    ),
            decreases self@.len() - idx,
        {
            let region = self.free_list[idx];
            match Self::alloc_from_region(&region, size, align) {
                Ok(start) => {
                    proof {
                        lemma_first_fit_at(old(self)@, size as int, align as int, idx as int);
                        lemma_remove_region_wf(self@, self.allocated@, idx as int);
                    }
                    self.free_list.remove(idx);
                    return Some((region, start));
                },
                Err(()) => {
                    idx = idx + 1;
                },
            }
        }
        proof {
            lemma_first_fit(old(self)@, size as int, align as int);
            match first_fit(old(self)@, size as int, align as int) {
                Some(i) => {
                    assert(!region_fits(old(self)@[i], size as int, align as int));
                },
                None => {},
            }
        }
        None
    }
}

/// One allocation step over the free chain: adjust the request, take the
/// first region that fits, and push any leftover tail back on the front of
/// the chain.  On failure the chain is unchanged.
pub open spec fn spec_allocate(s: Seq<ListNode>, size: int, align: int) -> (Option<int>, Seq<
    ListNode,
>) {
    let (asize, aalign) = spec_size_align(size, align);
    match first_fit(s, asize, aalign) {
        None => (None, s),
        Some(i) => {
            let start = spec_align_up(s[i].addr as int, aalign);
            let end = start + asize;
            let excess = s[i].addr + s[i].size - end;
            let rest = s.remove(i);
            if excess > 0 {
                (
                    Some(start),
                    rest.insert(0, ListNode { addr: end as usize, size: excess as usize }),
                )
            } else {
                (Some(start), rest)
            }
        },
    }
}

/// One free step over the free chain: the freed block, re-adjusted exactly
/// as at allocation time, becomes the new front free region.
pub open spec fn spec_free(s: Seq<ListNode>, addr: int, size: int, align: int) -> Seq<ListNode> {
    let (asize, _) = spec_size_align(size, align);
    s.insert(0, ListNode { addr: addr as usize, size: asize as usize })
}

impl LinkedListAllocator {
    /// Allocate `size` bytes aligned to `align`.
    ///
    /// The request is first padded so the block can later host a
    /// free-region record; allocation then succeeds, returning the block's
    /// start address, exactly when some free region fits the padded
    /// request.  Any leftover tail of the chosen region becomes a new free
    /// region, and on failure the allocator is unchanged.
    pub fn allocate(&mut self, size: usize, align: usize) -> (r: Option<usize>)
        requires
            old(self).wf(),
            valid_request(size as int, align as int),
        ensures
            final(self).wf(),
            final(self)@ == spec_allocate(old(self)@, size as int, align as int).1,
            r is Some <==> spec_allocate(old(self)@, size as int, align as int).0 is Some,
            r matches Some(p) ==> ({
                let (asize, aalign) = spec_size_align(size as int, align as int);
                &&& spec_allocate(old(self)@, size as int, align as int).0 == Some(p as int)
                &&& p as int % align as int == 0
                &&& p + asize <= usize::MAX
                &&& final(self).allocated() == old(self).allocated().insert(
                    Span { addr: p as int, size: asize },
                )
            }),
            r is None ==> final(self).allocated() == old(self).allocated() && final(self)@ == old(
                self,
            )@,
    {
        proof {
            lemma_size_align_shape(size as int, align as int);
        }
        let (asize, aalign) = Self::size_align(size, align);
        let ghost s0 = self@;
        let ghost a0 = self.allocated@;
        match self.find_region(asize, aalign) {
            Some((region, alloc_start)) => {
                let ghost i = first_fit(s0, asize as int, aalign as int)->Some_0;
                proof {
                    lemma_first_fit(s0, asize as int, aalign as int);
                    lemma_pow2_positive(aalign as int);
                    lemma_align_up(region.addr as int, aalign as int);
                    lemma_divides_transitive(
                        alloc_start as int,
                        aalign as int,
                        NODE_SIZE as int,
                    );
                    lemma_pow2_positive(align as int);
                    lemma_pow2_le_divides(align as int, aalign as int);
                    lemma_divides_transitive(alloc_start as int, aalign as int, align as int);
                    assert(node_wf(s0[i]));
                }
                let alloc_end = alloc_start + asize;
                let ghost span = Span { addr: alloc_start as int, size: asize as int };
                self.allocated = Ghost(self.allocated@.insert(span));
                proof {
                    crate::allocator::lemma_mod_sum_zero(
                        alloc_start as int,
                        asize as int,
                        NODE_SIZE as int,
                    );
                    // The new live span lies inside the unlinked region, so it
                    // inherits the region's disjointness from everything else.
                    assert forall|sp: Span| #[trigger] a0.contains(sp) implies disjoint(
                        span.addr,
                        span.size,
                        sp.addr,
                        sp.size,
                    ) by {
                        assert(disjoint(s0[i].addr as int, s0[i].size as int, sp.addr, sp.size));
                    }
                    assert forall|j: int| 0 <= j < self@.len() implies disjoint(
                        #[trigger] self@[j].addr as int,
                        self@[j].size as int,
                        span.addr,
                        span.size,
                    ) by {
                        lemma_remove_region_wf(s0, a0, i);
                        if j < i {
                            assert(self@[j] == s0[j]);
                        } else {
                            assert(self@[j] == s0[j + 1]);
                        }
                    }
                    assert(self.wf());
                }
                let excess_size = region.end_addr() - alloc_end;
                if excess_size > 0 {
                    proof {
                        // The leftover tail also lies inside the unlinked
                        // region, after the allocated span.
                        assert forall|j: int| 0 <= j < self@.len() implies disjoint(
                            alloc_end as int,
                            excess_size as int,
                            #[trigger] self@[j].addr as int,
                            self@[j].size as int,
                        ) by {
                            lemma_remove_region_wf(s0, a0, i);
                            if j < i {
                                assert(self@[j] == s0[j]);
                            } else {
                                assert(self@[j] == s0[j + 1]);
                            }
                        }
                        assert forall|sp: Span| #[trigger]
                            self.allocated@.contains(sp) implies disjoint(
                            alloc_end as int,
                            excess_size as int,
                            sp.addr,
                            sp.size,
                        ) by {
                            if sp != span {
                                assert(a0.contains(sp));
                                assert(disjoint(
                                    s0[i].addr as int,
                                    s0[i].size as int,
                                    sp.addr,
                                    sp.size,
                                ));
                            }
                        }
                    }
                    self.add_free_region(alloc_end, excess_size);
                }
                Some(alloc_start)
            },
            None => None,
        }
    }

    /// Free the block at `ptr` that was allocated with the request
    /// `(size, align)`.
    ///
    /// The same padded request is recomputed, and the whole padded span is
    /// pushed back on the front of the free chain.  Freeing a span that
    /// was not handed out by this allocator is a caller contract
    /// violation and is excluded here.
    pub fn free(&mut self, ptr: usize, size: usize, align: usize)
        requires
            old(self).wf(),
            valid_request(size as int, align as int),
            old(self).allocated().contains(
                Span { addr: ptr as int, size: spec_size_align(size as int, align as int).0 },
            ),
        ensures
            final(self).wf(),
            final(self)@ == spec_free(old(self)@, ptr as int, size as int, align as int),
            final(self).allocated() == old(self).allocated().remove(
                Span { addr: ptr as int, size: spec_size_align(size as int, align as int).0 },
            ),
    {
        let (asize, _align) = Self::size_align(size, align);
        let ghost span = Span { addr: ptr as int, size: asize as int };
        let ghost a0 = self.allocated@;
        proof {
            assert(span_wf(span));
        }
        self.allocated = Ghost(self.allocated@.remove(span));
        proof {
            // The freed span was live, so it is disjoint from every free
            // region and from every other live span.
            assert forall|sp: Span| #[trigger] self.allocated@.contains(sp) implies disjoint(
                ptr as int,
                asize as int,
                sp.addr,
                sp.size,
            ) by {
                assert(a0.contains(sp));
            }
        }
        self.add_free_region(ptr, asize);
    }
}

impl crate::allocator::LockInvariant for LinkedListAllocator {
    /// Behind a lock, a free-list allocator stays well formed.
    open spec fn lock_inv(&self) -> bool {
        self.wf()
    }
}

/// No two simultaneously-live spans overlap.
///
/// `allocate` and `free` each preserve the allocator's invariant, so this
/// holds across any interleaving of the two.
pub proof fn lemma_live_spans_disjoint(a: LinkedListAllocator, s1: Span, s2: Span)
    requires
        a.wf(),
        a.allocated().contains(s1),
        a.allocated().contains(s2),
        s1 != s2,
    ensures
        disjoint(s1.addr, s1.size, s2.addr, s2.size),
{
}

/// Round trip without capacity loss: allocate a block, free it, and the
/// same request succeeds again — at the very same address.
pub proof fn lemma_round_trip(s: Seq<ListNode>, size: int, align: int)
    requires
        regions_wf(s),
        valid_request(size, align),
        0 <= size,
        spec_allocate(s, size, align).0 is Some,
    ensures
        ({
            let (r, s1) = spec_allocate(s, size, align);
            let p = r->Some_0;
            let s2 = spec_free(s1, p, size, align);
            spec_allocate(s2, size, align).0 == Some(p)
        }),
{
    let (asize, aalign) = spec_size_align(size, align);
    lemma_size_align_shape(size, align);
    lemma_pow2_positive(aalign);
    lemma_first_fit(s, asize, aalign);
    let i = first_fit(s, asize, aalign)->Some_0;
    assert(node_wf(s[i]));
    lemma_align_up(s[i].addr as int, aalign);
    let p = spec_align_up(s[i].addr as int, aalign);
    let s1 = spec_allocate(s, size, align).1;
    let s2 = spec_free(s1, p, size, align);
    let freed = ListNode { addr: p as usize, size: asize as usize };
    assert(s2[0] == freed);
    assert(region_fits(freed, asize, aalign)) by {
        assert(spec_align_up(p, aalign) == p);
    }
    assert(first_fit(s2, asize, aalign) == Some(0int));
}

/// Splitting: when the chosen region is larger than the padded request by
/// at least one record, the leftover tail becomes the new front free
/// region, itself well formed, and any later request that fits that tail
/// is served.
pub proof fn lemma_split(s: Seq<ListNode>, size: int, align: int)
    requires
        regions_wf(s),
        valid_request(size, align),
        0 <= size,
        spec_allocate(s, size, align).0 is Some,
        ({
            let (asize, aalign) = spec_size_align(size, align);
            let i = first_fit(s, asize, aalign)->Some_0;
            s[i].addr + s[i].size > spec_align_up(s[i].addr as int, aalign) + asize
        }),
    ensures
        ({
            let (asize, aalign) = spec_size_align(size, align);
            let i = first_fit(s, asize, aalign)->Some_0;
            let end = spec_align_up(s[i].addr as int, aalign) + asize;
            let excess = s[i].addr + s[i].size - end;
            let s1 = spec_allocate(s, size, align).1;
            &&& s1.len() == s.len()
            &&& s1[0] == ListNode { addr: end as usize, size: excess as usize }
            &&& excess >= NODE_SIZE
            &&& node_wf(s1[0])
            &&& forall|size2: int, align2: int|
                #![trigger spec_size_align(size2, align2)]
                region_fits(
                    s1[0],
                    spec_size_align(size2, align2).0,
                    spec_size_align(size2, align2).1,
                ) ==> spec_allocate(s1, size2, align2).0 is Some
        }),
{
    let (asize, aalign) = spec_size_align(size, align);
    lemma_size_align_shape(size, align);
    lemma_pow2_positive(aalign);
    lemma_first_fit(s, asize, aalign);
    let i = first_fit(s, asize, aalign)->Some_0;
    assert(node_wf(s[i]));
    lemma_align_up(s[i].addr as int, aalign);
    let p = spec_align_up(s[i].addr as int, aalign);
    let end = p + asize;
    let excess = s[i].addr + s[i].size - end;
    crate::allocator::lemma_divides_transitive(p, aalign, NODE_SIZE as int);
    crate::allocator::lemma_mod_sum_zero(p, asize, NODE_SIZE as int);
    let s1 = spec_allocate(s, size, align).1;
    assert(s1[0] == ListNode { addr: end as usize, size: excess as usize });
    assert forall|size2: int, align2: int|
        region_fits(
            s1[0],
            #[trigger] spec_size_align(size2, align2).0,
            spec_size_align(size2, align2).1,
        ) implies spec_allocate(s1, size2, align2).0 is Some by {
        assert(first_fit(s1, spec_size_align(size2, align2).0, spec_size_align(size2, align2).1)
            == Some(0int));
    }
}

} // verus!
