//! The segregated fixed-size-block allocator.
//!
//! Requests are rounded up to a fixed ascending ladder of power-of-two
//! block sizes, one free list of uniform blocks per size.  A request whose
//! class has a ready block is served by popping the head of that class's
//! list; an empty class carves a fresh block out of the embedded free-list
//! allocator; a request above the largest class is delegated to that
//! fallback allocator wholesale.  Freeing a class-sized block pushes it
//! back onto its class's list, so the common case of many same-sized
//! small objects allocates and frees in constant time.
//!
//! The number of requests that reached the fallback allocator is counted,
//! so that the exact-fit path is observable.

use vstd::prelude::*;
use vstd::arithmetic::power2::is_pow2;
use crate::allocator::{lemma_divides_transitive, lemma_pow2_le_divides, lemma_pow2_positive};
use crate::allocator::linked_list::{
    spec_allocate, spec_free, spec_size_align, valid_request, LinkedListAllocator, ListNode,
    Span, NODE_SIZE,
};

verus! {

/// How many block classes the allocator keeps.
pub const NUM_CLASSES: usize = 9;

/// The block size of class `i`: the ascending ladder 8, 16, ..., 2048.
pub open spec fn spec_block_size(i: int) -> int {
    if i == 0 {
        8
    } else if i == 1 {
        16
    } else if i == 2 {
        32
    } else if i == 3 {
        64
    } else if i == 4 {
        128
    } else if i == 5 {
        256
    } else if i == 6 {
        512
    } else if i == 7 {
        1024
    } else if i == 8 {
        2048
    } else {
        0
    }
}

/// The class that serves a request: the smallest class whose block size is
/// at least both the requested size and the requested alignment, or none
/// when the request exceeds the largest class.
pub open spec fn spec_choose_class(size: int, align: int) -> Option<int> {
    let req = if size > align {
        size
    } else {
        align
    };
    if req <= 8 {
        Some(0)
    } else if req <= 16 {
        Some(1)
    } else if req <= 32 {
        Some(2)
    } else if req <= 64 {
        Some(3)
    } else if req <= 128 {
        Some(4)
    } else if req <= 256 {
        Some(5)
    } else if req <= 512 {
        Some(6)
    } else if req <= 1024 {
        Some(7)
    } else if req <= 2048 {
        Some(8)
    } else {
        None
    }
}

/// What the chosen class guarantees: the class exists, its block size
/// covers both the size and the alignment of the request, is a power of
/// two, and no smaller class would do.
pub proof fn lemma_choose_class(size: int, align: int)
    requires
        spec_choose_class(size, align) is Some,
    ensures
        ({
            let i = spec_choose_class(size, align)->Some_0;
            let bs = spec_block_size(i);
            &&& 0 <= i < NUM_CLASSES
            &&& size <= bs
            &&& align <= bs
            &&& bs <= 2048
            &&& is_pow2(bs)
            &&& forall|j: int| 0 <= j < i ==> spec_block_size(j) < size || spec_block_size(j) < align
        }),
{
    reveal_with_fuel(is_pow2, 13);
}

/// Mathematical state of the segregated allocator: the per-class stacks of
/// ready blocks, the fallback allocator's free chain, and how many
/// requests have reached the fallback.
pub struct FsbState {
    pub classes: Seq<Seq<usize>>,
    pub fallback: Seq<ListNode>,
    pub fallback_allocations: int,
}

/// A ready block of class `i` is aligned to its class's block size and
/// lies below the end of the address space.
pub open spec fn block_ok(i: int, b: int) -> bool {
    &&& b % spec_block_size(i) == 0
    &&& b + spec_block_size(i) <= usize::MAX
}

/// The segregated allocator: one stack of ready block addresses per class,
/// the embedded fallback allocator, and the fallback-request counter.
pub struct FixedSizeBlockAllocator {
    list_heads: Vec<Vec<usize>>,
    fallback_allocator: LinkedListAllocator,
    fallback_allocations: usize,
}

impl View for FixedSizeBlockAllocator {
    type V = FsbState;

    closed spec fn view(&self) -> FsbState {
        FsbState {
            classes: self.list_heads@.map_values(|v: Vec<usize>| v@),
            fallback: self.fallback_allocator@,
            fallback_allocations: self.fallback_allocations as int,
        }
    }
}

impl FixedSizeBlockAllocator {
    /// The embedded free-list allocator that backs the classes and serves
    /// oversized requests.
    pub closed spec fn fallback(self) -> LinkedListAllocator {
        self.fallback_allocator
    }

    /// The allocator's invariant: one stack per class, every ready block
    /// shaped for its class, and the fallback allocator well formed.
    pub open spec fn wf(self) -> bool {
        &&& self@.classes.len() == NUM_CLASSES
        &&& forall|i: int, j: int|
            0 <= i < NUM_CLASSES && 0 <= j < self@.classes[i].len() ==> block_ok(
                i,
                #[trigger] self@.classes[i][j] as int,
            )
        &&& self.fallback().wf()
    }

    /// The block size of class `index`.
    pub fn block_size(index: usize) -> (r: usize)
        ensures
            r == spec_block_size(index as int),
    {
        match index {
            0 => 8,
            1 => 16,
            2 => 32,
            3 => 64,
            4 => 128,
            5 => 256,
            6 => 512,
            7 => 1024,
            8 => 2048,
            _ => 0,
        }
    }

    /// The class that serves a request of `size` bytes at alignment
    /// `align`, or none when the request exceeds the largest class.
    pub fn choose_class(size: usize, align: usize) -> (r: Option<usize>)
        ensures
            (match spec_choose_class(size as int, align as int) {
                Some(i) => r == Some(i as usize),
                None => r is None,
            }),
    {
        let req = if size > align {
            size
        } else {
            align
        };
        if req <= 8 {
            Some(0)
        } else if req <= 16 {
            Some(1)
        } else if req <= 32 {
            Some(2)
        } else if req <= 64 {
            Some(3)
        } else if req <= 128 {
            Some(4)
        } else if req <= 256 {
            Some(5)
        } else if req <= 512 {
            Some(6)
        } else if req <= 1024 {
            Some(7)
        } else if req <= 2048 {
            Some(8)
        } else {
            None
        }
    }

    /// Create an allocator with empty classes; `init` must run before any
    /// allocation.
    pub fn new() -> (a: FixedSizeBlockAllocator)
        ensures
            a@.classes.len() == NUM_CLASSES,
            forall|i: int| 0 <= i < NUM_CLASSES ==> #[trigger] a@.classes[i].len() == 0,
            a@.fallback == Seq::<ListNode>::empty(),
            a@.fallback_allocations == 0,
            a.fallback().allocated() == Set::<Span>::empty(),
            a.wf(),
    {
        let mut heads: Vec<Vec<usize>> = Vec::new();
        let mut i: usize = 0;
        while i < NUM_CLASSES
            invariant
                i <= NUM_CLASSES,
                heads@.len() == i,
                forall|j: int| 0 <= j < i ==> #[trigger] heads@[j]@.len() == 0,
            decreases NUM_CLASSES - i,
        {
            heads.push(Vec::new());
            i = i + 1;
        }
        FixedSizeBlockAllocator {
            list_heads: heads,
            fallback_allocator: LinkedListAllocator::new(),
            fallback_allocations: 0,
        }
    }

    /// How many requests have reached the fallback allocator so far; the
    /// exact-fit class path leaves this untouched.
    pub fn fallback_allocations(&self) -> (r: usize)
        ensures
            r == self@.fallback_allocations,
    {
        self.fallback_allocations
    }

    /// Hand the heap window `[heap_start, heap_start + heap_size)` to the
    /// embedded fallback allocator.  Must run exactly once, before any
    /// allocation; the classes start empty and fill on demand.
    pub fn init(&mut self, heap_start: usize, heap_size: usize)
        requires
            old(self).wf(),
            old(self)@.fallback == Seq::<ListNode>::empty(),
            old(self).fallback().allocated() == Set::<Span>::empty(),
            heap_start != 0,
            heap_start as int % NODE_SIZE as int == 0,
            heap_size >= NODE_SIZE,
            heap_start + heap_size <= usize::MAX,
        ensures
            final(self).wf(),
            final(self)@.classes == old(self)@.classes,
            final(self)@.fallback == seq![ListNode { addr: heap_start, size: heap_size }],
            final(self)@.fallback_allocations == old(self)@.fallback_allocations,
            final(self).fallback().allocated() == old(self).fallback().allocated(),
    {
        self.fallback_allocator.init(heap_start, heap_size);
    }
}

/// One allocation step: pop the head of the request's class when a ready
/// block exists; carve a fresh class-sized block from the fallback when
/// the class is empty; delegate the whole request to the fallback when no
/// class covers it.  Every request that reaches the fallback is counted.
pub open spec fn spec_fsb_allocate(v: FsbState, size: int, align: int) -> (Option<int>, FsbState) {
    match spec_choose_class(size, align) {
        Some(i) => {
            if v.classes[i].len() > 0 {
                (
                    Some(v.classes[i].last() as int),
                    FsbState {
                        classes: v.classes.update(i, v.classes[i].drop_last()),
                        fallback: v.fallback,
                        fallback_allocations: v.fallback_allocations,
                    },
                )
            } else {
                let bs = spec_block_size(i);
                let (r, l) = spec_allocate(v.fallback, bs, bs);
                (
                    r,
                    FsbState {
                        classes: v.classes,
                        fallback: l,
                        fallback_allocations: v.fallback_allocations + 1,
                    },
                )
            }
        },
        None => {
            let (r, l) = spec_allocate(v.fallback, size, align);
            (
                r,
                FsbState {
                    classes: v.classes,
                    fallback: l,
                    fallback_allocations: v.fallback_allocations + 1,
                },
            )
        },
    }
}

/// One free step: a block of a class goes back onto that class's stack;
/// an oversized block goes back to the fallback's free chain.
pub open spec fn spec_fsb_free(v: FsbState, ptr: int, size: int, align: int) -> FsbState {
    match spec_choose_class(size, align) {
        Some(i) => FsbState {
            classes: v.classes.update(i, v.classes[i].push(ptr as usize)),
            fallback: v.fallback,
            fallback_allocations: v.fallback_allocations,
        },
        None => FsbState {
            classes: v.classes,
            fallback: spec_free(v.fallback, ptr, size, align),
            fallback_allocations: v.fallback_allocations,
        },
    }
}

impl FixedSizeBlockAllocator {
    /// Allocate `size` bytes aligned to `align`.
    ///
    /// A class request is served from its class's stack when a ready block
    /// exists — without touching the fallback — and otherwise by carving a
    /// class-sized block out of the fallback; a request above the largest
    /// class goes to the fallback as it stands.  The result is always
    /// aligned as requested.
    pub fn allocate(&mut self, size: usize, align: usize) -> (r: Option<usize>)
        requires
            old(self).wf(),
            valid_request(size as int, align as int),
            old(self)@.fallback_allocations < usize::MAX,
        ensures
            final(self).wf(),
            final(self)@ == spec_fsb_allocate(old(self)@, size as int, align as int).1,
            (match spec_fsb_allocate(old(self)@, size as int, align as int).0 {
                Some(p) => r == Some(p as usize),
                None => r is None,
            }),
            r matches Some(p) ==> p as int % align as int == 0,
            // How the live spans of the fallback changed, for later frees.
            (match spec_choose_class(size as int, align as int) {
                Some(i) => {
                    if old(self)@.classes[i].len() > 0 {
                        final(self).fallback() == old(self).fallback()
                    } else {
                        ({
                            let bs = spec_block_size(i);
                            match spec_allocate(old(self)@.fallback, bs, bs).0 {
                                Some(p) => final(self).fallback().allocated() == old(
                                    self,
                                ).fallback().allocated().insert(
                                    Span { addr: p, size: spec_size_align(bs, bs).0 },
                                ),
                                None => final(self).fallback().allocated() == old(
                                    self,
                                ).fallback().allocated(),
                            }
                        })
                    }
                },
                None => (match spec_allocate(old(self)@.fallback, size as int, align as int).0 {
                    Some(p) => final(self).fallback().allocated() == old(
                        self,
                    ).fallback().allocated().insert(
                        Span {
                            addr: p,
                            size: spec_size_align(size as int, align as int).0,
                        },
                    ),
                    None => final(self).fallback().allocated() == old(self).fallback().allocated(),
                }),
            }),
    {
        match Self::choose_class(size, align) {
            Some(index) => {
                proof {
                    lemma_choose_class(size as int, align as int);
                }
                let bs = Self::block_size(index);
                if self.list_heads[index].len() > 0 {
                    let block = self.list_heads[index].pop().unwrap();
                    proof {
                        let gi = index as int;
                        assert(self@.classes =~= old(self)@.classes.update(
                            gi,
                            old(self)@.classes[gi].drop_last(),
                        ));
                        assert(block as int % spec_block_size(gi) == 0);
                        lemma_pow2_positive(align as int);
                        lemma_pow2_le_divides(align as int, spec_block_size(gi));
                        lemma_divides_transitive(
                            block as int,
                            spec_block_size(gi),
                            align as int,
                        );
                        assert forall|i: int, j: int|
                            0 <= i < NUM_CLASSES && 0 <= j < self@.classes[i].len() implies block_ok(
                            i,
                            #[trigger] self@.classes[i][j] as int,
                        ) by {
                            assert(old(self)@.classes[i].len() >= self@.classes[i].len());
                            assert(self@.classes[i][j] == old(self)@.classes[i][j]);
                        }
                    }
                    Some(block)
                } else {
                    self.fallback_allocations = self.fallback_allocations + 1;
                    let r = self.fallback_allocator.allocate(bs, bs);
                    proof {
                        assert(self@.classes =~= old(self)@.classes);
                        lemma_pow2_positive(align as int);
                        if r is Some {
                            let p = r->Some_0;
                            lemma_pow2_le_divides(align as int, bs as int);
                            lemma_divides_transitive(p as int, bs as int, align as int);
                        }
                    }
                    r
                }
            },
            None => {
                self.fallback_allocations = self.fallback_allocations + 1;
                let r = self.fallback_allocator.allocate(size, align);
                proof {
                    assert(self@.classes =~= old(self)@.classes);
                }
                r
            },
        }
    }

    /// Free the block at `ptr` that was allocated with the request
    /// `(size, align)`.
    ///
    /// The same class is recomputed: a class block goes back onto its
    /// class's stack in constant time, without touching the fallback; an
    /// oversized block goes back to the fallback allocator.
    pub fn free(&mut self, ptr: usize, size: usize, align: usize)
        requires
            old(self).wf(),
            valid_request(size as int, align as int),
            (match spec_choose_class(size as int, align as int) {
                Some(i) => block_ok(i, ptr as int),
                None => old(self).fallback().allocated().contains(
                    Span {
                        addr: ptr as int,
                        size: spec_size_align(size as int, align as int).0,
                    },
                ),
            }),
        ensures
            final(self).wf(),
            final(self)@ == spec_fsb_free(old(self)@, ptr as int, size as int, align as int),
            (match spec_choose_class(size as int, align as int) {
                Some(i) => final(self).fallback() == old(self).fallback(),
                None => final(self).fallback().allocated() == old(
                    self,
                ).fallback().allocated().remove(
                    Span {
                        addr: ptr as int,
                        size: spec_size_align(size as int, align as int).0,
                    },
                ),
            }),
    {
        match Self::choose_class(size, align) {
            Some(index) => {
                proof {
                    lemma_choose_class(size as int, align as int);
                }
                self.list_heads[index].push(ptr);
                proof {
                    let gi = index as int;
                    assert(self@.classes =~= old(self)@.classes.update(
                        gi,
                        old(self)@.classes[gi].push(ptr),
                    ));
                    assert forall|i: int, j: int|
                        0 <= i < NUM_CLASSES && 0 <= j < self@.classes[i].len() implies block_ok(
                        i,
                        #[trigger] self@.classes[i][j] as int,
                    ) by {
                        if i == gi && j == self@.classes[i].len() - 1 {
                            assert(self@.classes[i][j] == ptr);
                        } else {
                            assert(self@.classes[i][j] == old(self)@.classes[i][j]);
                        }
                    }
                }
            },
            None => {
                self.fallback_allocator.free(ptr, size, align);
                proof {
                    assert(self@.classes =~= old(self)@.classes);
                }
            },
        }
    }
}

impl crate::allocator::LockInvariant for FixedSizeBlockAllocator {
    /// Behind a lock, a segregated allocator stays well formed.
    open spec fn lock_inv(&self) -> bool {
        self.wf()
    }
}

/// Exact fit: free a block of a class and repeat the same request — the
/// request is served from that class's stack, in one pop, returning the
/// very block just freed, and the fallback is not invoked (its state and
/// the fallback-request counter are unchanged).
pub proof fn lemma_class_round_trip(v: FsbState, p: int, size: int, align: int)
    requires
        v.classes.len() == NUM_CLASSES,
        spec_choose_class(size, align) is Some,
        0 <= p <= usize::MAX,
    ensures
        ({
            let v2 = spec_fsb_free(v, p, size, align);
            let (r3, v3) = spec_fsb_allocate(v2, size, align);
            &&& r3 == Some(p)
            &&& v3.fallback == v2.fallback
            &&& v3.fallback_allocations == v2.fallback_allocations
            &&& v3.classes =~= v.classes
        }),
{
    lemma_choose_class(size, align);
    let i = spec_choose_class(size, align)->Some_0;
    let v2 = spec_fsb_free(v, p, size, align);
    assert(v2.classes[i].len() > 0);
    assert(v2.classes[i].last() == p as usize);
    let v3 = spec_fsb_allocate(v2, size, align).1;
    assert(v3.classes =~= v.classes) by {
        assert(v2.classes[i].drop_last() =~= v.classes[i]);
    }
}

/// Oversized requests bypass the classes: a request above the largest
/// class is served only by the fallback allocator — the class stacks are
/// untouched and the fallback-request counter is incremented.
pub proof fn lemma_oversized_uses_fallback(v: FsbState, size: int, align: int)
    requires
        size > spec_block_size(NUM_CLASSES as int - 1) || align > spec_block_size(
            NUM_CLASSES as int - 1,
        ),
    ensures
        spec_choose_class(size, align) is None,
        ({
            let (r, v1) = spec_fsb_allocate(v, size, align);
            let (fr, fl) = spec_allocate(v.fallback, size, align);
            &&& r == fr
            &&& v1.classes == v.classes
            &&& v1.fallback == fl
            &&& v1.fallback_allocations == v.fallback_allocations + 1
        }),
{
}

} // verus!
