//! The bump allocator: a monotonic cursor over the heap window.
//!
//! Allocation rounds the cursor up to the requested alignment and advances
//! it past the new block; nothing is tracked per allocation beyond one
//! outstanding-allocation counter.  Freeing decrements the counter, and only
//! when the last outstanding allocation is freed is the whole window
//! reclaimed by resetting the cursor to the start of the heap.

use vstd::prelude::*;
use vstd::arithmetic::power2::is_pow2;
use crate::allocator::{spec_align_up, lemma_align_up, lemma_pow2_positive};

verus! {

/// Mathematical state of a bump allocator: the heap window, the cursor,
/// and the number of outstanding allocations.
pub struct BumpState {
    pub heap_start: int,
    pub heap_end: int,
    pub next: int,
    pub allocations: int,
}

/// A bump-allocator state is well formed when the cursor lies inside the
/// heap window and the counters fit the machine word.
pub open spec fn bump_wf(v: BumpState) -> bool {
    &&& 0 <= v.heap_start <= v.next <= v.heap_end <= usize::MAX
    &&& 0 <= v.allocations <= usize::MAX
}

/// One allocation step: round the cursor up to `align`, reserve `size`
/// bytes, and fail (leaving the state unchanged) when the block would not
/// fit below the end of the heap.
pub open spec fn spec_bump_allocate(v: BumpState, size: int, align: int) -> (Option<int>, BumpState)
    recommends
        align > 0,
{
    let start = spec_align_up(v.next, align);
    let end = start + size;
    if end <= v.heap_end {
        (
            Some(start),
            BumpState {
                heap_start: v.heap_start,
                heap_end: v.heap_end,
                next: end,
                allocations: v.allocations + 1,
            },
        )
    } else {
        (None, v)
    }
}

/// One free step: drop the outstanding-allocation counter, and reset the
/// cursor to the start of the heap when nothing remains outstanding.
pub open spec fn spec_bump_free(v: BumpState) -> BumpState {
    let remaining = v.allocations - 1;
    BumpState {
        heap_start: v.heap_start,
        heap_end: v.heap_end,
        next: if remaining == 0 {
            v.heap_start
        } else {
            v.next
        },
        allocations: remaining,
    }
}

/// The bump allocator: heap window bounds, the bump cursor, and the
/// outstanding-allocation counter.
pub struct BumpAllocator {
    heap_start: usize,
    heap_end: usize,
    next: usize,
    allocations: usize,
}

impl View for BumpAllocator {
    type V = BumpState;

    closed spec fn view(&self) -> BumpState {
        BumpState {
            heap_start: self.heap_start as int,
            heap_end: self.heap_end as int,
            next: self.next as int,
            allocations: self.allocations as int,
        }
    }
}

impl BumpAllocator {
    /// Create an empty bump allocator; `init` must run before any
    /// allocation.
    pub fn new() -> (a: BumpAllocator)
        ensures
            a@ == (BumpState { heap_start: 0, heap_end: 0, next: 0, allocations: 0 }),
            bump_wf(a@),
    {
        BumpAllocator { heap_start: 0, heap_end: 0, next: 0, allocations: 0 }
    }

    /// Hand the heap window `[heap_start, heap_start + heap_size)` to the
    /// allocator.  Must run exactly once, before any allocation.
    pub fn init(&mut self, heap_start: usize, heap_size: usize)
        requires
            old(self)@.allocations == 0,
            heap_start != 0,
            heap_start + heap_size <= usize::MAX,
        ensures
            final(self)@ == (BumpState {
                heap_start: heap_start as int,
                heap_end: heap_start + heap_size,
                next: heap_start as int,
                allocations: 0,
            }),
            bump_wf(final(self)@),
    {
        self.heap_start = heap_start;
        self.heap_end = heap_start + heap_size;
        self.next = heap_start;
    }

    /// Allocate `size` bytes aligned to `align`.
    ///
    /// Succeeds, returning the aligned block start, exactly when the
    /// aligned block still fits below the end of the heap; on failure the
    /// allocator is unchanged.
    pub fn allocate(&mut self, size: usize, align: usize) -> (r: Option<usize>)
        requires
            bump_wf(old(self)@),
            is_pow2(align as int),
            old(self)@.allocations < usize::MAX,
        ensures
            bump_wf(final(self)@),
            final(self)@ == spec_bump_allocate(old(self)@, size as int, align as int).1,
            (match spec_bump_allocate(old(self)@, size as int, align as int).0 {
                Some(p) => r == Some(p as usize),
                None => r is None,
            }),
            r is Some <==> spec_align_up(old(self)@.next, align as int) + size <= old(self)@.heap_end,
            r matches Some(p) ==> {
                &&& old(self)@.next <= p
                &&& p as int % align as int == 0
                &&& p + size == final(self)@.next
                &&& p + size <= final(self)@.heap_end
            },
            r is None ==> final(self)@ == old(self)@,
    {
        proof {
            lemma_pow2_positive(align as int);
            lemma_align_up(self.next as int, align as int);
        }
        let rem = self.next % align;
        let start = if rem == 0 {
            self.next
        } else {
            match self.next.checked_add(align - rem) {
                Some(s) => s,
                None => {
                    return None;
                },
            }
        };
        let end = match start.checked_add(size) {
            Some(e) => e,
            None => {
                return None;
            },
        };
        if end > self.heap_end {
            None
        } else {
            self.next = end;
            self.allocations = self.allocations + 1;
            Some(start)
        }
    }

    /// Record that one outstanding allocation was freed.
    ///
    /// The bump allocator tracks no individual blocks, so the arguments
    /// only document the interface; freeing more blocks than were
    /// allocated is a caller contract violation and is excluded here.
    /// When the last outstanding allocation is freed, the cursor returns
    /// to the start of the heap; otherwise it does not move.
    pub fn free(&mut self, _ptr: usize, _size: usize, _align: usize)
        requires
            bump_wf(old(self)@),
            old(self)@.allocations > 0,
        ensures
            bump_wf(final(self)@),
            final(self)@ == spec_bump_free(old(self)@),
            final(self)@.allocations == old(self)@.allocations - 1,
            final(self)@.allocations == 0 ==> final(self)@.next == final(self)@.heap_start,
            final(self)@.allocations > 0 ==> final(self)@.next == old(self)@.next,
    {
        self.allocations = self.allocations - 1;
        if self.allocations == 0 {
            self.next = self.heap_start;
        }
    }
}

impl crate::allocator::LockInvariant for BumpAllocator {
    /// Behind a lock, a bump allocator stays well formed.
    open spec fn lock_inv(&self) -> bool {
        bump_wf(self@)
    }
}

/// Whether every request in `reqs`, served in order, fits.
pub open spec fn bump_run_ok(v: BumpState, reqs: Seq<(int, int)>) -> bool
    decreases reqs.len(),
{
    reqs.len() == 0 || {
        let (r, v1) = spec_bump_allocate(v, reqs[0].0, reqs[0].1);
        r is Some && bump_run_ok(v1, reqs.drop_first())
    }
}

/// The addresses handed out by serving `reqs` in order.
pub open spec fn bump_run_results(v: BumpState, reqs: Seq<(int, int)>) -> Seq<int>
    decreases reqs.len(),
{
    if reqs.len() == 0 {
        Seq::empty()
    } else {
        let (r, v1) = spec_bump_allocate(v, reqs[0].0, reqs[0].1);
        seq![r->Some_0] + bump_run_results(v1, reqs.drop_first())
    }
}

/// The state after serving `reqs` in order.
pub open spec fn bump_run_state(v: BumpState, reqs: Seq<(int, int)>) -> BumpState
    decreases reqs.len(),
{
    if reqs.len() == 0 {
        v
    } else {
        let (r, v1) = spec_bump_allocate(v, reqs[0].0, reqs[0].1);
        bump_run_state(v1, reqs.drop_first())
    }
}

/// A run of fitting allocations hands out one address per request, each
/// correctly aligned, and the addresses are strictly increasing with
/// non-overlapping spans; the outstanding-allocation count grows by the
/// length of the run and the heap window never moves.
pub proof fn lemma_bump_run(v: BumpState, reqs: Seq<(int, int)>)
    requires
        bump_wf(v),
        forall|i: int| 0 <= i < reqs.len() ==> is_pow2((#[trigger] reqs[i]).1),
        forall|i: int| 0 <= i < reqs.len() ==> (#[trigger] reqs[i]).0 >= 1,
        v.allocations + reqs.len() <= usize::MAX,
        bump_run_ok(v, reqs),
    ensures
        ({
            let ps = bump_run_results(v, reqs);
            let w = bump_run_state(v, reqs);
            &&& ps.len() == reqs.len()
            &&& forall|i: int| 0 <= i < ps.len() ==> v.next <= #[trigger] ps[i]
            &&& forall|i: int| 0 <= i < ps.len() ==> #[trigger] ps[i] % reqs[i].1 == 0
            &&& forall|i: int, j: int|
                0 <= i < j < ps.len() ==> #[trigger] ps[i] + reqs[i].0 <= #[trigger] ps[j]
            &&& bump_wf(w)
            &&& w.heap_start == v.heap_start
            &&& w.heap_end == v.heap_end
            &&& v.next <= w.next
            &&& forall|i: int| 0 <= i < ps.len() ==> #[trigger] ps[i] + reqs[i].0 <= w.next
            &&& w.allocations == v.allocations + reqs.len()
        }),
    decreases reqs.len(),
{
    if reqs.len() > 0 {
        let (r, v1) = spec_bump_allocate(v, reqs[0].0, reqs[0].1);
        lemma_pow2_positive(reqs[0].1);
        lemma_align_up(v.next, reqs[0].1);
        assert(bump_wf(v1));
        lemma_bump_run(v1, reqs.drop_first());
        let ps = bump_run_results(v, reqs);
        let rest = bump_run_results(v1, reqs.drop_first());
        assert(ps == seq![r->Some_0] + rest);
        assert forall|i: int| 0 <= i < ps.len() implies v.next <= #[trigger] ps[i] && ps[i]
            % reqs[i].1 == 0 && ps[i] + reqs[i].0 <= bump_run_state(v, reqs).next by {
            if i >= 1 {
                assert(ps[i] == rest[i - 1]);
                assert(reqs[i] == reqs.drop_first()[i - 1]);
            }
        }
        assert forall|i: int, j: int| 0 <= i < j < ps.len() implies #[trigger] ps[i] + reqs[i].0
            <= #[trigger] ps[j] by {
            assert(ps[j] == rest[j - 1]);
            assert(reqs[j] == reqs.drop_first()[j - 1]);
            if i >= 1 {
                assert(ps[i] == rest[i - 1]);
                assert(reqs[i] == reqs.drop_first()[i - 1]);
            } else {
                assert(v1.next <= rest[j - 1]);
            }
        }
    }
}

/// The state after `n` frees.
pub open spec fn bump_free_n(v: BumpState, n: int) -> BumpState
    decreases n,
{
    if n <= 0 {
        v
    } else {
        bump_free_n(spec_bump_free(v), n - 1)
    }
}

/// Freeing every outstanding allocation — the model takes no addresses, so
/// the order cannot matter — resets the cursor to the start of the heap;
/// freeing fewer leaves the cursor exactly where it was.
pub proof fn lemma_bump_free_all(v: BumpState, n: int)
    requires
        bump_wf(v),
        1 <= n <= v.allocations,
    ensures
        bump_free_n(v, n).allocations == v.allocations - n,
        n == v.allocations ==> bump_free_n(v, n).next == v.heap_start,
        n < v.allocations ==> bump_free_n(v, n).next == v.next,
        bump_free_n(v, n).heap_start == v.heap_start,
        bump_free_n(v, n).heap_end == v.heap_end,
    decreases n,
{
    if n > 1 {
        lemma_bump_free_all(spec_bump_free(v), n - 1);
    } else {
        assert(bump_free_n(spec_bump_free(v), 0) == spec_bump_free(v));
    }
}

} // verus!
