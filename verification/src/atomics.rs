//! Atomic values on the symmetric heap.
//!
//! The atomic routines themselves (`shmem_[type]_atomic_*`) belong to the
//! OpenSHMEM runtime: a type takes part by implementing `AtomicFetch`,
//! `AtomicInt` and `AtomicBitwise` with them. The methods of `Shbox` here
//! dispatch to those implementations: each returns what the type's routine
//! returns for the same box, operands and target PE.
use vstd::prelude::*;

use crate::shmalloc::Shbox;
use crate::{ShmemCtx, PE};

verus! {

/// An atomic version of a normal integer, float, or boolean.
///
/// This version can only be accessed by an instantaneous read or write:
/// see `Atomic::fetch()` or the assortment of `Atomic*` traits.
pub struct Atomic<T: AtomicFetch>(T);

impl<T: AtomicFetch> View for Atomic<T> {
    type V = T;

    closed spec fn view(&self) -> T {
        self.0
    }
}

/// Marker struct for a forced atomic type that's 32 bit.
#[derive(Copy, Clone)]
pub struct Size32;

/// Marker struct for a forced atomic type that's 64 bit.
#[derive(Copy, Clone)]
pub struct Size64;

/// Marker trait for the size of a forced atomic type.
pub trait Size {
    /// The type that has shmem routines for that size.
    type TreatAsA;
}

impl Size for Size32 {
    type TreatAsA = u32;
}

impl Size for Size64 {
    type TreatAsA = u64;
}

/// Forces a value to be compatible with atomic routines: the routines of
/// the unsigned integer of the same size (`S::TreatAsA`) move it as a
/// whole. The value must be 32 bits wide with `Size32` and 64 bits wide
/// with `Size64`; `force_atomic32` and `force_atomic64` demand it.
#[derive(Copy, Clone)]
pub struct ForceAtomicFetch<T, S: Size>(T, S);

impl<T, S: Size> ForceAtomicFetch<T, S> {
    /// The wrapped value.
    pub closed spec fn value(&self) -> T {
        self.0
    }
}

/// Wraps a 32 bit type, forcing atomic fetch, set, and swap operations
/// to be implemented.
///
/// The caller must pass a value of that size.
pub fn force_atomic32<T>(t: T) -> (r: ForceAtomicFetch<T, Size32>)
    requires
        vstd::layout::size_of::<T>() == 4,
    ensures
        r.value() == t,
{
    ForceAtomicFetch(t, Size32)
}

/// Wraps a 64 bit type, forcing atomic fetch, set, and swap operations
/// to be implemented.
///
/// The caller must pass a value of that size.
pub fn force_atomic64<T>(t: T) -> (r: ForceAtomicFetch<T, Size64>)
    requires
        vstd::layout::size_of::<T>() == 8,
    ensures
        r.value() == t,
{
    ForceAtomicFetch(t, Size64)
}

/// Represents types that have a `shmem_atomic_[fetch/set]`.
///
/// See `Shbox` for safe wrappers of these methods.
pub trait AtomicFetch: Sized {
    /// Apply `shmem_[typename]_fetch`.
    fn atomic_fetch(shbox: &Shbox<'_, Atomic<Self>>, from: PE, ctx: &ShmemCtx) -> Self;

    /// Apply `shmem_[typename]_set`.
    fn atomic_set(shbox: &Shbox<'_, Atomic<Self>>, new: Self, to: PE, ctx: &ShmemCtx);

    /// Apply `shmem_[typename]_swap`.
    fn atomic_swap(shbox: &Shbox<'_, Atomic<Self>>, with: Self, to: PE, ctx: &ShmemCtx) -> Self;
}

/// Represents types that have a `shmem_atomic_[compare_swap/inc/add]`.
///
/// See `Shbox` for safe wrappers of these methods.
pub trait AtomicInt: Sized + AtomicFetch {
    /// Apply `shmem_[typename]_compare_swap`.
    fn atomic_compare_swap(
        shbox: &Shbox<'_, Atomic<Self>>,
        if_equals: Self,
        then_set_to: Self,
        on: PE,
        ctx: &ShmemCtx,
    ) -> Self;

    /// Apply `shmem_[typename]_fetch_inc`.
    ///
    /// Returns the old value, then increments the value on the target PE.
    fn atomic_fetch_inc(shbox: &Shbox<'_, Atomic<Self>>, from: PE, ctx: &ShmemCtx) -> Self;

    /// Apply `shmem_[typename]_inc`.
    fn atomic_inc(shbox: &Shbox<'_, Atomic<Self>>, to: PE, ctx: &ShmemCtx);

    /// Apply `shmem_[typename]_fetch_add`.
    ///
    /// Returns the old value, then adds `plus` to the value on the target PE.
    fn atomic_fetch_add(shbox: &Shbox<'_, Atomic<Self>>, plus: Self, from: PE, ctx: &ShmemCtx) -> Self;

    /// Apply `shmem_[typename]_add`.
    fn atomic_add(shbox: &Shbox<'_, Atomic<Self>>, plus: Self, to: PE, ctx: &ShmemCtx);
}

/// Represents types that have a `shmem_atomic_and/or/xor`.
///
/// See `Shbox` for safe wrappers of these methods.
pub trait AtomicBitwise: Sized + AtomicFetch {
    /// Apply `shmem_[typename]_fetch_and`.
    ///
    /// Returns the old value, then sets the target PE's value to `with & *shbox`.
    fn atomic_fetch_and(shbox: &Shbox<'_, Atomic<Self>>, with: Self, from: PE, ctx: &ShmemCtx) -> Self;

    /// Apply `shmem_[typename]_and`.
    fn atomic_and(shbox: &Shbox<'_, Atomic<Self>>, with: Self, to: PE, ctx: &ShmemCtx);

    /// Apply `shmem_[typename]_fetch_or`.
    ///
    /// Returns the old value, then sets the target PE's value to `with | *shbox`.
    fn atomic_fetch_or(shbox: &Shbox<'_, Atomic<Self>>, with: Self, from: PE, ctx: &ShmemCtx) -> Self;

    /// Apply `shmem_[typename]_or`.
    fn atomic_or(shbox: &Shbox<'_, Atomic<Self>>, with: Self, to: PE, ctx: &ShmemCtx);

    /// Apply `shmem_[typename]_fetch_xor`.
    ///
    /// Returns the old value, then sets the target PE's value to `with ^ *shbox`.
    fn atomic_fetch_xor(shbox: &Shbox<'_, Atomic<Self>>, with: Self, from: PE, ctx: &ShmemCtx) -> Self;

    /// Apply `shmem_[typename]_xor`.
    fn atomic_xor(shbox: &Shbox<'_, Atomic<Self>>, with: Self, to: PE, ctx: &ShmemCtx);
}

impl<T: AtomicFetch> Atomic<T> {
    /// Constructs a new Atomic from the value given.
    pub fn new(x: T) -> (r: Self)
        ensures
            r@ == x,
    {
        Atomic(x)
    }

    /// Constructs a new Atomic using the default value of the type.
    pub fn default() -> (r: Self) where T: Default
        ensures
            call_ensures(T::default, (), r@),
    {
        Atomic(T::default())
    }

    /// Atomically reads the local value: fetches from the calling PE.
    pub fn fetch_local(shbox: &Shbox<'_, Self>, ctx: &ShmemCtx) -> (r: T)
        ensures
            call_ensures(T::atomic_fetch, (shbox, PE(ctx.pe_id() as u32), ctx), r),
    {
        T::atomic_fetch(shbox, ctx.my_pe(), ctx)
    }

    /// Fetch the value of the atomic from the given PE.
    pub fn fetch(shbox: &Shbox<'_, Self>, from: PE, ctx: &ShmemCtx) -> (r: T)
        ensures
            call_ensures(T::atomic_fetch, (shbox, from, ctx), r),
    {
        T::atomic_fetch(shbox, from, ctx)
    }
}

impl<'ctx, T: AtomicFetch> Shbox<'ctx, Atomic<T>> {
    /// Fetch the value this atomic represents on the calling PE.
    pub fn atomic_fetch_local(&self, ctx: &'ctx ShmemCtx) -> (r: T)
        ensures
            call_ensures(T::atomic_fetch, (self, PE(ctx.pe_id() as u32), ctx), r),
    {
        T::atomic_fetch(self, ctx.my_pe(), ctx)
    }

    /// Fetch the value this atomic represents from another PE, or potentially this one.
    pub fn atomic_fetch(&self, pe: PE, ctx: &'ctx ShmemCtx) -> (r: T)
        ensures
            call_ensures(T::atomic_fetch, (self, pe, ctx), r),
    {
        T::atomic_fetch(self, pe, ctx)
    }

    /// Set the value this atomic represents on another PE, or potentially this one.
    pub fn atomic_set(&self, new_value: T, pe: PE, ctx: &'ctx ShmemCtx)
        ensures
            call_ensures(T::atomic_set, (self, new_value, pe, ctx), ()),
    {
        T::atomic_set(self, new_value, pe, ctx);
    }

    /// Swap the value this atomic represents on another PE, or potentially this one, and return their value.
    pub fn atomic_swap(&self, new_value: T, pe: PE, ctx: &'ctx ShmemCtx) -> (r: T)
        ensures
            call_ensures(T::atomic_swap, (self, new_value, pe, ctx), r),
    {
        T::atomic_swap(self, new_value, pe, ctx)
    }
}

impl<'ctx, T: AtomicInt> Shbox<'ctx, Atomic<T>> {
    /// Increment the value this atomic represents on another PE, or potentially this one.
    pub fn atomic_inc(&self, pe: PE, ctx: &'ctx ShmemCtx)
        ensures
            call_ensures(T::atomic_inc, (self, pe, ctx), ()),
    {
        T::atomic_inc(self, pe, ctx)
    }

    /// Fetch the value this atomic represents from another PE, or potentially this one, then increment the remote value.
    pub fn atomic_fetch_inc(&self, pe: PE, ctx: &'ctx ShmemCtx) -> (r: T)
        ensures
            call_ensures(T::atomic_fetch_inc, (self, pe, ctx), r),
    {
        T::atomic_fetch_inc(self, pe, ctx)
    }

    /// Add to the value this atomic represents on another PE, or potentially this one.
    pub fn atomic_add(&self, plus: T, pe: PE, ctx: &'ctx ShmemCtx)
        ensures
            call_ensures(T::atomic_add, (self, plus, pe, ctx), ()),
    {
        T::atomic_add(self, plus, pe, ctx);
    }

    /// Fetch the value this atomic represents from another PE, or potentially this one, then add to the remote value.
    pub fn atomic_fetch_add(&self, plus: T, pe: PE, ctx: &'ctx ShmemCtx) -> (r: T)
        ensures
            call_ensures(T::atomic_fetch_add, (self, plus, pe, ctx), r),
    {
        T::atomic_fetch_add(self, plus, pe, ctx)
    }

    /// Compare the remote value to `if_equals`. If the values are equal, set the remote value to `then_set_to`.
    /// Return the value pre-operation.
    pub fn atomic_compare_swap(&self, if_equals: T, then_set_to: T, pe: PE, ctx: &'ctx ShmemCtx) -> (r: T)
        ensures
            call_ensures(T::atomic_compare_swap, (self, if_equals, then_set_to, pe, ctx), r),
    {
        T::atomic_compare_swap(self, if_equals, then_set_to, pe, ctx)
    }
}

impl<'ctx, T: AtomicBitwise> Shbox<'ctx, Atomic<T>> {
    /// And the value of this atomic on the given PE.
    pub fn atomic_and(&self, with: T, pe: PE, ctx: &'ctx ShmemCtx)
        ensures
            call_ensures(T::atomic_and, (self, with, pe, ctx), ()),
    {
        T::atomic_and(self, with, pe, ctx)
    }

    /// And the value of this atomic on the given PE, and fetch the value pre-operation.
    pub fn atomic_fetch_and(&self, with: T, pe: PE, ctx: &'ctx ShmemCtx) -> (r: T)
        ensures
            call_ensures(T::atomic_fetch_and, (self, with, pe, ctx), r),
    {
        T::atomic_fetch_and(self, with, pe, ctx)
    }

    /// Or the value of this atomic on the given PE.
    pub fn atomic_or(&self, with: T, pe: PE, ctx: &'ctx ShmemCtx)
        ensures
            call_ensures(T::atomic_or, (self, with, pe, ctx), ()),
    {
        T::atomic_or(self, with, pe, ctx)
    }

    /// Or the value of this atomic on the given PE, and fetch the value pre-operation.
    pub fn atomic_fetch_or(&self, with: T, pe: PE, ctx: &'ctx ShmemCtx) -> (r: T)
        ensures
            call_ensures(T::atomic_fetch_or, (self, with, pe, ctx), r),
    {
        T::atomic_fetch_or(self, with, pe, ctx)
    }

    /// Xor the value of this atomic on the given PE.
    pub fn atomic_xor(&self, with: T, pe: PE, ctx: &'ctx ShmemCtx)
        ensures
            call_ensures(T::atomic_xor, (self, with, pe, ctx), ()),
    {
        T::atomic_xor(self, with, pe, ctx)
    }

    /// Xor the value of this atomic on the given PE, and fetch the value pre-operation.
    pub fn atomic_fetch_xor(&self, with: T, pe: PE, ctx: &'ctx ShmemCtx) -> (r: T)
        ensures
            call_ensures(T::atomic_fetch_xor, (self, with, pe, ctx), r),
    {
        T::atomic_fetch_xor(self, with, pe, ctx)
    }
}

} // verus!
