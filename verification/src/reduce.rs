//! Reductions over all PEs into a value on the symmetric heap.
//!
//! The reduction routines (`shmem_[type]_[op]_reduce`) belong to the
//! OpenSHMEM runtime; a type takes part by implementing these traits with
//! them. An implementation reduces the value (or the first elements) of a
//! symmetric box over all PEs and returns the result; the methods of
//! `Shbox` here store that result in the calling PE's copy.
use vstd::prelude::*;

use crate::shmalloc::Shbox;
use crate::ShmemCtx;

verus! {

/// Represents types that have a `shmem_[and, or, xor]_reduce`.
pub trait BooleanReducible: Sized {
    /// Apply `shmem_[typename]_and_reduce`: the bitwise and of the value
    /// over all PEs.
    fn and_into(shbox: &Shbox<'_, Self>, ctx: &ShmemCtx) -> Self;

    /// Apply `shmem_[typename]_and_reduce` to the first `n` elements: one
    /// result per element.
    fn and_into_many(shbox: &Shbox<'_, Vec<Self>>, n: usize, ctx: &ShmemCtx) -> Vec<Self>;

    /// Apply `shmem_[typename]_or_reduce`: the bitwise or of the value
    /// over all PEs.
    fn or_into(shbox: &Shbox<'_, Self>, ctx: &ShmemCtx) -> Self;

    /// Apply `shmem_[typename]_or_reduce` to the first `n` elements: one
    /// result per element.
    fn or_into_many(shbox: &Shbox<'_, Vec<Self>>, n: usize, ctx: &ShmemCtx) -> Vec<Self>;

    /// Apply `shmem_[typename]_xor_reduce`: the bitwise xor of the value
    /// over all PEs.
    fn xor_into(shbox: &Shbox<'_, Self>, ctx: &ShmemCtx) -> Self;

    /// Apply `shmem_[typename]_xor_reduce` to the first `n` elements: one
    /// result per element.
    fn xor_into_many(shbox: &Shbox<'_, Vec<Self>>, n: usize, ctx: &ShmemCtx) -> Vec<Self>;
}

/// Represents types that have a `shmem_[sum, prod]_reduce`.
pub trait ArithmeticReducible: Sized {
    /// Apply `shmem_[typename]_sum_reduce`: the sum of the value over all
    /// PEs.
    fn sum_into(shbox: &Shbox<'_, Self>, ctx: &ShmemCtx) -> Self;

    /// Apply `shmem_[typename]_sum_reduce` to the first `n` elements: one
    /// result per element.
    fn sum_into_many(shbox: &Shbox<'_, Vec<Self>>, n: usize, ctx: &ShmemCtx) -> Vec<Self>;

    /// Apply `shmem_[typename]_prod_reduce`: the product of the value over
    /// all PEs.
    fn prod_into(shbox: &Shbox<'_, Self>, ctx: &ShmemCtx) -> Self;

    /// Apply `shmem_[typename]_prod_reduce` to the first `n` elements: one
    /// result per element.
    fn prod_into_many(shbox: &Shbox<'_, Vec<Self>>, n: usize, ctx: &ShmemCtx) -> Vec<Self>;
}

/// Represents types that have a `shmem_[max, min]_reduce`.
pub trait CompareReducible: Sized {
    /// Apply `shmem_[typename]_max_reduce`: the largest value over all PEs.
    fn max_into(shbox: &Shbox<'_, Self>, ctx: &ShmemCtx) -> Self;

    /// Apply `shmem_[typename]_max_reduce` to the first `n` elements: one
    /// result per element.
    fn max_into_many(shbox: &Shbox<'_, Vec<Self>>, n: usize, ctx: &ShmemCtx) -> Vec<Self>;

    /// Apply `shmem_[typename]_min_reduce`: the smallest value over all PEs.
    fn min_into(shbox: &Shbox<'_, Self>, ctx: &ShmemCtx) -> Self;

    /// Apply `shmem_[typename]_min_reduce` to the first `n` elements: one
    /// result per element.
    fn min_into_many(shbox: &Shbox<'_, Vec<Self>>, n: usize, ctx: &ShmemCtx) -> Vec<Self>;
}

/// The elements `s` holds after the reduction of its first `n` elements
/// gave `r`: `r` followed by the rest of `s`. A reduction routine gives
/// one result per element; a result of another length leaves `s` as it is.
pub open spec fn with_reduced_prefix<T>(s: Seq<T>, r: Seq<T>, n: int) -> Seq<T> {
    if r.len() == n {
        r + s.subrange(n, s.len() as int)
    } else {
        s
    }
}

/// Stores the result `r` of reducing the first `n` elements of `shbox`.
fn store_reduced_prefix<T>(shbox: &mut Shbox<'_, Vec<T>>, r: Vec<T>, n: usize)
    requires
        n <= old(shbox)@@.len(),
    ensures
        final(shbox)@@ == with_reduced_prefix(old(shbox)@@, r@, n as int),
{
    if r.len() == n {
        let v = shbox.raw_mut();
        let mut tail = v.split_off(n);
        let mut out = r;
        out.append(&mut tail);
        *v = out;
    }
}

/// Stores the result `r` of reducing the value of `shbox`.
fn store_reduced<T>(shbox: &mut Shbox<'_, T>, r: T)
    ensures
        final(shbox)@ == r,
{
    let v = shbox.raw_mut();
    *v = r;
}

impl<'ctx, T: ArithmeticReducible> Shbox<'ctx, T> {
    /// Sum the value over all PEs.
    ///
    /// The calling PE's copy becomes what the type's `sum_into` gives for
    /// this box. This is a collective operation.
    pub fn reduce_sum(&mut self, ctx: &ShmemCtx)
        ensures
            call_ensures(T::sum_into, (&*old(self), ctx), final(self)@),
    {
        let r = T::sum_into(self, ctx);
        store_reduced(self, r);
    }

    /// Multiply the value over all PEs.
    ///
    /// The calling PE's copy becomes what the type's `prod_into` gives for
    /// this box. This is a collective operation.
    pub fn reduce_prod(&mut self, ctx: &ShmemCtx)
        ensures
            call_ensures(T::prod_into, (&*old(self), ctx), final(self)@),
    {
        let r = T::prod_into(self, ctx);
        store_reduced(self, r);
    }
}

impl<'ctx, T: BooleanReducible> Shbox<'ctx, T> {
    /// And the value over all PEs.
    ///
    /// The calling PE's copy becomes what the type's `and_into` gives for
    /// this box. This is a collective operation.
    pub fn reduce_and(&mut self, ctx: &ShmemCtx)
        ensures
            call_ensures(T::and_into, (&*old(self), ctx), final(self)@),
    {
        let r = T::and_into(self, ctx);
        store_reduced(self, r);
    }

    /// Or the value over all PEs.
    ///
    /// The calling PE's copy becomes what the type's `or_into` gives for
    /// this box. This is a collective operation.
    pub fn reduce_or(&mut self, ctx: &ShmemCtx)
        ensures
            call_ensures(T::or_into, (&*old(self), ctx), final(self)@),
    {
        let r = T::or_into(self, ctx);
        store_reduced(self, r);
    }

    /// Xor the value over all PEs.
    ///
    /// The calling PE's copy becomes what the type's `xor_into` gives for
    /// this box. This is a collective operation.
    pub fn reduce_xor(&mut self, ctx: &ShmemCtx)
        ensures
            call_ensures(T::xor_into, (&*old(self), ctx), final(self)@),
    {
        let r = T::xor_into(self, ctx);
        store_reduced(self, r);
    }
}

impl<'ctx, T: CompareReducible> Shbox<'ctx, T> {
    /// The largest value over all PEs.
    ///
    /// The calling PE's copy becomes what the type's `max_into` gives for
    /// this box. This is a collective operation.
    pub fn reduce_max(&mut self, ctx: &ShmemCtx)
        ensures
            call_ensures(T::max_into, (&*old(self), ctx), final(self)@),
    {
        let r = T::max_into(self, ctx);
        store_reduced(self, r);
    }

    /// The smallest value over all PEs.
    ///
    /// The calling PE's copy becomes what the type's `min_into` gives for
    /// this box. This is a collective operation.
    pub fn reduce_min(&mut self, ctx: &ShmemCtx)
        ensures
            call_ensures(T::min_into, (&*old(self), ctx), final(self)@),
    {
        let r = T::min_into(self, ctx);
        store_reduced(self, r);
    }
}

impl<'ctx, T: ArithmeticReducible> Shbox<'ctx, Vec<T>> {
    /// Sum the first `elements` elements over all PEs.
    ///
    /// The first `elements` elements of the calling PE's copy become what
    /// the type's `sum_into_many` gives for this box; the rest are kept. The caller must rule out
    /// the case where the array has fewer elements. This is a
    /// collective operation.
    pub fn reduce_sum(&mut self, elements: usize, ctx: &ShmemCtx)
        requires
            elements <= old(self)@@.len(),
        ensures
            exists|r: Vec<T>|
                call_ensures(T::sum_into_many, (&*old(self), elements, ctx), r) && final(self)@@
                    == with_reduced_prefix(old(self)@@, r@, elements as int),
    {
        let r = T::sum_into_many(self, elements, ctx);
        store_reduced_prefix(self, r, elements);
    }

    /// Multiply the first `elements` elements over all PEs.
    ///
    /// The first `elements` elements of the calling PE's copy become what
    /// the type's `prod_into_many` gives for this box; the rest are kept. The caller must rule out
    /// the case where the array has fewer elements. This is a
    /// collective operation.
    pub fn reduce_prod(&mut self, elements: usize, ctx: &ShmemCtx)
        requires
            elements <= old(self)@@.len(),
        ensures
            exists|r: Vec<T>|
                call_ensures(T::prod_into_many, (&*old(self), elements, ctx), r) && final(self)@@
                    == with_reduced_prefix(old(self)@@, r@, elements as int),
    {
        let r = T::prod_into_many(self, elements, ctx);
        store_reduced_prefix(self, r, elements);
    }
}

impl<'ctx, T: BooleanReducible> Shbox<'ctx, Vec<T>> {
    /// And the first `elements` elements over all PEs.
    ///
    /// The first `elements` elements of the calling PE's copy become what
    /// the type's `and_into_many` gives for this box; the rest are kept. The caller must rule out
    /// the case where the array has fewer elements. This is a
    /// collective operation.
    pub fn reduce_and(&mut self, elements: usize, ctx: &ShmemCtx)
        requires
            elements <= old(self)@@.len(),
        ensures
            exists|r: Vec<T>|
                call_ensures(T::and_into_many, (&*old(self), elements, ctx), r) && final(self)@@
                    == with_reduced_prefix(old(self)@@, r@, elements as int),
    {
        let r = T::and_into_many(self, elements, ctx);
        store_reduced_prefix(self, r, elements);
    }

    /// Or the first `elements` elements over all PEs.
    ///
    /// The first `elements` elements of the calling PE's copy become what
    /// the type's `or_into_many` gives for this box; the rest are kept. The caller must rule out
    /// the case where the array has fewer elements. This is a
    /// collective operation.
    pub fn reduce_or(&mut self, elements: usize, ctx: &ShmemCtx)
        requires
            elements <= old(self)@@.len(),
        ensures
            exists|r: Vec<T>|
                call_ensures(T::or_into_many, (&*old(self), elements, ctx), r) && final(self)@@
                    == with_reduced_prefix(old(self)@@, r@, elements as int),
    {
        let r = T::or_into_many(self, elements, ctx);
        store_reduced_prefix(self, r, elements);
    }

    /// Xor the first `elements` elements over all PEs.
    ///
    /// The first `elements` elements of the calling PE's copy become what
    /// the type's `xor_into_many` gives for this box; the rest are kept. The caller must rule out
    /// the case where the array has fewer elements. This is a
    /// collective operation.
    pub fn reduce_xor(&mut self, elements: usize, ctx: &ShmemCtx)
        requires
            elements <= old(self)@@.len(),
        ensures
            exists|r: Vec<T>|
                call_ensures(T::xor_into_many, (&*old(self), elements, ctx), r) && final(self)@@
                    == with_reduced_prefix(old(self)@@, r@, elements as int),
    {
        let r = T::xor_into_many(self, elements, ctx);
        store_reduced_prefix(self, r, elements);
    }
}

impl<'ctx, T: CompareReducible> Shbox<'ctx, Vec<T>> {
    /// The largest of the first `elements` elements over all PEs.
    ///
    /// The first `elements` elements of the calling PE's copy become what
    /// the type's `max_into_many` gives for this box; the rest are kept. The caller must rule out
    /// the case where the array has fewer elements. This is a
    /// collective operation.
    pub fn reduce_max(&mut self, elements: usize, ctx: &ShmemCtx)
        requires
            elements <= old(self)@@.len(),
        ensures
            exists|r: Vec<T>|
                call_ensures(T::max_into_many, (&*old(self), elements, ctx), r) && final(self)@@
                    == with_reduced_prefix(old(self)@@, r@, elements as int),
    {
        let r = T::max_into_many(self, elements, ctx);
        store_reduced_prefix(self, r, elements);
    }

    /// The smallest of the first `elements` elements over all PEs.
    ///
    /// The first `elements` elements of the calling PE's copy become what
    /// the type's `min_into_many` gives for this box; the rest are kept. The caller must rule out
    /// the case where the array has fewer elements. This is a
    /// collective operation.
    pub fn reduce_min(&mut self, elements: usize, ctx: &ShmemCtx)
        requires
            elements <= old(self)@@.len(),
        ensures
            exists|r: Vec<T>|
                call_ensures(T::min_into_many, (&*old(self), elements, ctx), r) && final(self)@@
                    == with_reduced_prefix(old(self)@@, r@, elements as int),
    {
        let r = T::min_into_many(self, elements, ctx);
        store_reduced_prefix(self, r, elements);
    }
}

} // verus!
