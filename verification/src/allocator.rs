//! The kernel's heap-allocation subsystem.
//!
//! The heap is one contiguous, never-resized window of addresses, handed to
//! the chosen strategy once at startup.  Addresses are modelled as plain
//! `usize` values; the strategies track which parts of the window are free
//! and which are live, and every piece of address arithmetic is verified.

use vstd::prelude::*;
use vstd::arithmetic::power::pow;
use vstd::arithmetic::power2::is_pow2;

pub mod bump;
pub mod fixed_size_block;
pub mod linked_list;

verus! {

/// What a value must maintain while it lives behind a [`Locked`] wrapper.
///
/// Each allocation strategy implements this with its own well-formedness
/// invariant, so the lock hands out only well-formed allocators.
pub trait LockInvariant: Sized {
    /// The invariant the wrapper's lock maintains for this value.
    spec fn lock_inv(&self) -> bool;
}

/// Lock predicate tying a wrapped value to its own invariant.
pub struct InvPred<T> {
    marker: core::marker::PhantomData<T>,
}

impl<T: LockInvariant> vstd::rwlock::RwLockPredicate<T> for InvPred<T> {
    open spec fn inv(self, v: T) -> bool {
        v.lock_inv()
    }
}

/// A wrapper around one allocator instance that serializes every use of it
/// through one lock.
///
/// The wrapped strategies assume exclusive access and contain no internal
/// synchronization; this wrapper is the only concurrency boundary.  Taking
/// the lock checks the value out together with a guard; releasing the lock
/// checks the value back in, and only a value that satisfies its invariant
/// can be checked in.
pub struct Locked<T: LockInvariant> {
    inner: vstd::rwlock::RwLock<T, InvPred<T>>,
}

/// Witness of holding a [`Locked`] wrapper's lock; the lock stays held
/// until the value is checked back in through [`LockedGuard::unlock`].
pub struct LockedGuard<'a, T: LockInvariant> {
    handle: vstd::rwlock::WriteHandle<'a, T, InvPred<T>>,
}

impl<T: LockInvariant> Locked<T> {
    /// Wrap a well-formed value behind a fresh lock.
    pub fn new(inner: T) -> (s: Self)
        requires
            inner.lock_inv(),
    {
        Locked { inner: vstd::rwlock::RwLock::new(inner, Ghost(InvPred { marker: core::marker::PhantomData })) }
    }

    /// Acquire the lock, checking out the wrapped value; it satisfies its
    /// invariant.  Spins while another holder has the lock.
    pub fn lock(&self) -> (r: (T, LockedGuard<'_, T>))
        ensures
            r.0.lock_inv(),
    {
        let (v, handle) = self.inner.acquire_write();
        (v, LockedGuard { handle })
    }
}

impl<'a, T: LockInvariant> LockedGuard<'a, T> {
    /// Release the lock, checking the value back in; only a value that
    /// satisfies its invariant can be checked in.
    pub fn unlock(self, value: T)
        requires
            value.lock_inv(),
    {
        self.handle.release_write(value);
    }
}

/// The smallest multiple of `k` that is at least `a`.
pub open spec fn spec_align_up(a: int, k: int) -> int
    recommends
        k > 0,
{
    if a % k == 0 {
        a
    } else {
        a + (k - a % k)
    }
}

/// A power of two is positive.
pub proof fn lemma_pow2_positive(k: int)
    requires
        is_pow2(k),
    ensures
        k >= 1,
{
    reveal(is_pow2);
}

/// Rounding up to a power-of-two alignment stays within one alignment step:
/// the result is a multiple of the alignment, is not below the address, and
/// is less than the address plus the alignment.
pub proof fn lemma_align_up(a: int, k: int)
    requires
        0 <= a,
        is_pow2(k),
    ensures
        spec_align_up(a, k) % k == 0,
        a <= spec_align_up(a, k),
        spec_align_up(a, k) < a + k,
{
    lemma_pow2_positive(k);
    assert(0 <= a % k < k) by (nonlinear_arith)
        requires
            k >= 1,
            a >= 0,
    ;
    if a % k != 0 {
        assert((a + (k - a % k)) % k == 0) by (nonlinear_arith)
            requires
                k >= 1,
                a >= 0,
        ;
    }
}

/// If `j` and `k` are powers of two and `j <= k`, then `j` divides `k`.
pub proof fn lemma_pow2_le_divides(j: int, k: int)
    requires
        is_pow2(j),
        is_pow2(k),
        j <= k,
    ensures
        k % j == 0,
{
    vstd::arithmetic::power2::is_pow2_equiv(j);
    vstd::arithmetic::power2::is_pow2_equiv(k);
    lemma_pow2_positive(j);
    lemma_pow2_positive(k);
    let e1 = choose|i: nat| pow(2, i) == j;
    let e2 = choose|i: nat| pow(2, i) == k;
    assert(pow(2, e1) == j);
    assert(pow(2, e2) == k);
    if e2 < e1 {
        vstd::arithmetic::power::lemma_pow_strictly_increases(2, e2, e1);
        assert(false);
    }
    let d = (e2 - e1) as nat;
    vstd::arithmetic::power::lemma_pow_adds(2, d, e1);
    vstd::arithmetic::div_mod::lemma_mod_multiples_basic(pow(2, d), j);
}

/// Divisibility is transitive: if `k` divides `a` and `j` divides `k`,
/// then `j` divides `a`.
pub proof fn lemma_divides_transitive(a: int, k: int, j: int)
    requires
        k >= 1,
        j >= 1,
        a % k == 0,
        k % j == 0,
    ensures
        a % j == 0,
{
    vstd::arithmetic::div_mod::lemma_fundamental_div_mod(a, k);
    vstd::arithmetic::div_mod::lemma_fundamental_div_mod(k, j);
    assert(a == j * ((k / j) * (a / k))) by (nonlinear_arith)
        requires
            a == k * (a / k),
            k == j * (k / j),
    ;
    vstd::arithmetic::div_mod::lemma_mod_multiples_basic((k / j) * (a / k), j);
}

/// The sum of two multiples of `m` is a multiple of `m`.
pub proof fn lemma_mod_sum_zero(a: int, b: int, m: int)
    requires
        m >= 1,
        a % m == 0,
        b % m == 0,
    ensures
        (a + b) % m == 0,
{
    vstd::arithmetic::div_mod::lemma_add_mod_noop(a, b, m);
    vstd::arithmetic::div_mod::lemma_small_mod(0, m as nat);
}

/// Align the given address upwards to the nearest multiple of `align`.
///
/// The caller guarantees that `align` is a power of two and that the
/// rounded-up address still fits in a `usize`.
pub fn align_up(addr: usize, align: usize) -> (r: usize)
    requires
        is_pow2(align as int),
        spec_align_up(addr as int, align as int) <= usize::MAX,
    ensures
        r == spec_align_up(addr as int, align as int),
        addr <= r,
        r as int % align as int == 0,
        r < addr + align,
{
    proof {
        lemma_pow2_positive(align as int);
        lemma_align_up(addr as int, align as int);
    }
    let rem = addr % align;
    if rem == 0 {
        addr
    } else {
        addr + (align - rem)
    }
}

} // verus!
