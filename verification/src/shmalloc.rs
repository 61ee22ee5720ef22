//! Allocation on the symmetric heap, and index ranges into symmetric arrays.
use vstd::prelude::*;

use crate::traits::Shend;
use crate::{ShmemCtx, PE};

verus! {

/// One end of a range of indices, as `std::ops::Bound<usize>` describes it.
#[derive(Debug, Clone, Copy, PartialEq, Eq)]
pub enum Bound {
    /// The index is part of the range.
    Included(usize),
    /// The index is not part of the range.
    Excluded(usize),
    /// The range is open on this side.
    Unbounded,
}

/// A range of indices given by its two ends, as a `RangeBounds<usize>`
/// value (`a..b`, `a..=b`, `..`, ...) gives them.
#[derive(Debug, Clone, Copy, PartialEq, Eq)]
pub struct Bounds {
    /// The lower end.
    pub start: Bound,
    /// The upper end.
    pub end: Bound,
}

/// `x + 1`, saturating at `usize::MAX`.
pub open spec fn saturating_succ(x: usize) -> int {
    if x == usize::MAX {
        x as int
    } else {
        x + 1
    }
}

/// The first index a lower bound admits.
pub open spec fn start_index(b: Bound) -> int {
    match b {
        Bound::Included(s) => s as int,
        Bound::Excluded(s) => saturating_succ(s),
        Bound::Unbounded => 0,
    }
}

/// One past the last index an upper bound admits, for an array of `len`.
pub open spec fn end_index(b: Bound, len: int) -> int {
    match b {
        Bound::Included(e) => saturating_succ(e),
        Bound::Excluded(e) => e as int,
        Bound::Unbounded => len,
    }
}

/// The clamped `(start, end)` pair that `apply_range_bounds` gives for a
/// range over an array of `len` elements.
pub open spec fn clamped_range(bounds: Bounds, len: int) -> (int, int) {
    let end = vstd::math::min(end_index(bounds.end, len), len);
    let start = vstd::math::min(start_index(bounds.start), end);
    (start, end)
}

/// Resolves a range against a slice: returns `(start, end)` such that
/// `start..end` is the part of `t` the range covers, clamping both ends
/// to `t.len()` and `start` to `end`.
pub fn apply_range_bounds<T>(bounds: Bounds, t: &[T]) -> (r: (usize, usize))
    ensures
        (r.0 as int, r.1 as int) == clamped_range(bounds, t@.len() as int),
        r.0 <= r.1 <= t@.len(),
{
    let len = t.len();
    let start = match bounds.start {
        Bound::Included(s) => s,
        Bound::Excluded(s) => s.saturating_add(1),
        Bound::Unbounded => 0,
    };
    let end = match bounds.end {
        Bound::Included(e) => e.saturating_add(1),
        Bound::Excluded(e) => e,
        Bound::Unbounded => len,
    };
    let end = if end < len { end } else { len };
    let start = if start < end { start } else { end };
    (start, end)
}

/// First index of a span: `Included(x)` is `x`, `Excluded(x)` is `x + 1`.
pub open spec fn span_start(b: Bound) -> int {
    match b {
        Bound::Included(x) => x as int,
        Bound::Excluded(x) => x + 1,
        Bound::Unbounded => 0,
    }
}

/// One past the last index of a span over `len` elements:
/// `Included(x)` is `x + 1`, `Excluded(x)` is `x`.
pub open spec fn span_end(b: Bound, len: int) -> int {
    match b {
        Bound::Included(x) => x + 1,
        Bound::Excluded(x) => x as int,
        Bound::Unbounded => len,
    }
}

/// A span is valid for `len` elements when it starts no later than it
/// ends and ends within the elements.
pub open spec fn valid_span(bounds: Bounds, len: int) -> bool {
    span_start(bounds.start) <= span_end(bounds.end, len) <= len
}

/// The `(start, end)` pair of a span over `len` elements.
///
/// The caller must rule out the case where the span is not valid; that input is left
/// out here.
pub fn span_indices(bounds: Bounds, len: usize) -> (r: (usize, usize))
    requires
        valid_span(bounds, len as int),
    ensures
        r.0 == span_start(bounds.start),
        r.1 == span_end(bounds.end, len as int),
{
    let end = match bounds.end {
        Bound::Included(x) => x + 1,
        Bound::Excluded(x) => x,
        Bound::Unbounded => len,
    };
    let start = match bounds.start {
        Bound::Included(x) => x,
        Bound::Excluded(x) => x + 1,
        Bound::Unbounded => 0,
    };
    (start, end)
}

/// The Shmallocator handles [de]allocations on the Symmetric Heap.
/// Note that, as the `'ctx` lifetime indicates, the ShmemCtx must outlive the Shmallocator.
pub struct Shmallocator<'ctx> {
    ctx: &'ctx ShmemCtx,
}

impl<'ctx> Shmallocator<'ctx> {
    /// The context the allocator belongs to.
    pub closed spec fn ctx(&self) -> &'ctx ShmemCtx {
        self.ctx
    }

    /// The allocator of a context.
    pub fn from_ctx(ctx: &'ctx ShmemCtx) -> (r: Self)
        ensures
            r.ctx() == ctx,
    {
        Shmallocator { ctx }
    }

    /// Constructs a shared Box for the given type.
    ///
    /// Note that this is a collective operation. All
    /// PEs must participate.
    pub fn shbox<T>(&'ctx self, t: T) -> (r: Shbox<'ctx, T>)
        ensures
            r@ == t,
    {
        Shbox { internal: t, shm: self }
    }
}

impl<'ctx> Shmallocator<'ctx> {
    /// Constructs a shared array of `global_len` clones of `t`, where
    /// `global_len` is the largest `len` any PE asks for (the
    /// max-reduction of `len` over all PEs).
    ///
    /// This is a collective operation.
    pub fn array<T: Shend>(&'ctx self, t: T, len: usize, global_len: usize) -> (r: Shbox<'ctx, Vec<T>>)
        requires
            len <= global_len,
        ensures
            r@@.len() == global_len,
            forall|i: int| 0 <= i < global_len ==> cloned::<T>(t, #[trigger] r@@[i]),
    {
        let mut v: Vec<T> = Vec::new();
        let mut i: usize = 0;
        while i < global_len
            invariant
                i <= global_len,
                v@.len() == i,
                forall|j: int| 0 <= j < i ==> cloned::<T>(t, #[trigger] v@[j]),
            decreases global_len - i,
        {
            v.push(t.clone());
            i = i + 1;
        }
        Shbox { internal: v, shm: self }
    }

    /// Constructs a shared array of `global_len` elements whose element
    /// `i` is `f(i)`, where `global_len` is the largest `len` any PE asks
    /// for (the max-reduction of `len` over all PEs).
    ///
    /// Each PE will generate it's own elements. This is a collective
    /// operation.
    pub fn array_gen<T: Shend, F: Fn(usize) -> T>(&'ctx self, f: F, len: usize, global_len: usize) -> (r:
        Shbox<'ctx, Vec<T>>)
        requires
            len <= global_len,
            forall|i: usize| i < global_len ==> call_requires(f, (i,)),
        ensures
            r@@.len() == global_len,
            forall|i: int| 0 <= i < global_len ==> call_ensures(f, (i as usize,), #[trigger] r@@[i]),
    {
        let mut v: Vec<T> = Vec::new();
        let mut i: usize = 0;
        while i < global_len
            invariant
                i <= global_len,
                v@.len() == i,
                forall|k: usize| k < global_len ==> call_requires(f, (k,)),
                forall|j: int| 0 <= j < i ==> call_ensures(f, (j as usize,), #[trigger] v@[j]),
            decreases global_len - i,
        {
            let x = f(i);
            v.push(x);
            i = i + 1;
        }
        Shbox { internal: v, shm: self }
    }

    /// Constructs a shared array of `global_len` `T::default()`'s, where
    /// `global_len` is the largest `len` any PE asks for (the
    /// max-reduction of `len` over all PEs).
    ///
    /// This is a collective operation.
    pub fn array_default<T: Shend + Default>(&'ctx self, len: usize, global_len: usize) -> (r: Shbox<
        'ctx,
        Vec<T>,
    >)
        requires
            len <= global_len,
        ensures
            r@@.len() == global_len,
            forall|i: int| 0 <= i < global_len ==> call_ensures(T::default, (), #[trigger] r@@[i]),
    {
        let mut v: Vec<T> = Vec::new();
        let mut i: usize = 0;
        while i < global_len
            invariant
                i <= global_len,
                v@.len() == i,
                forall|j: int| 0 <= j < i ==> call_ensures(T::default, (), #[trigger] v@[j]),
            decreases global_len - i,
        {
            v.push(T::default());
            i = i + 1;
        }
        Shbox { internal: v, shm: self }
    }
}

/// A Shbox<T> is a T on the symmetric heap; the value seen here is the
/// calling PE's copy.
///
/// Constructed using methods on a `Shmallocator`.
pub struct Shbox<'ctx, T> {
    internal: T,
    shm: &'ctx Shmallocator<'ctx>,
}

impl<'ctx, T> View for Shbox<'ctx, T> {
    type V = T;

    closed spec fn view(&self) -> T {
        self.internal
    }
}

/// By construction, a reference to some memory on the symmetric heap.
#[derive(Debug, Copy, Clone)]
pub struct Shptr<R> {
    internal: R,
}

impl<R> Shptr<R> {
    /// What the pointer refers to.
    pub closed spec fn target(&self) -> R {
        self.internal
    }

    /// Borrows what the pointer refers to.
    pub fn as_ref(&self) -> (r: &R)
        ensures
            *r == self.target(),
    {
        &self.internal
    }
}

impl<'ctx, T> Shbox<'ctx, T> {
    /// A symmetric-heap pointer to the boxed value.
    pub fn shptr<'s>(&'s self) -> (r: Shptr<&'s T>)
        ensures
            *r.target() == self@,
    {
        Shptr { internal: &self.internal }
    }

    /// Retrieve a reference to the underlying type.
    ///
    /// This is equivalent to `Deref::deref`'ing a `Shbox`.
    pub fn raw(&self) -> (r: &T)
        ensures
            *r == self@,
    {
        &self.internal
    }

    /// Retrieve a mutable reference to the underlying type; what is
    /// written through it is written to the calling PE's copy.
    ///
    /// This is equivalent to `DerefMut::deref_mut`'ing a `Shbox`.
    pub fn raw_mut(&mut self) -> (r: &mut T)
        ensures
            *r == old(self)@,
            final(self)@ == *final(r),
    {
        &mut self.internal
    }
}


impl<'ctx, T> Shbox<'ctx, Vec<T>> {
    /// A symmetric-heap pointer to the elements in the span `bounds`.
    ///
    /// The caller must rule out the case where the span ends past the array or starts
    /// after it ends.
    pub fn slice<'s>(&'s self, bounds: Bounds) -> (r: Shptr<&'s [T]>)
        requires
            valid_span(bounds, self@@.len() as int),
        ensures
            r.target()@ == self@@.subrange(
                span_start(bounds.start),
                span_end(bounds.end, self@@.len() as int),
            ),
    {
        let (start, end) = span_indices(bounds, self.internal.len());
        let s = self.internal.as_slice();
        Shptr { internal: &s[start..end] }
    }

    /// A mutable symmetric-heap pointer to the elements in the span
    /// `bounds`; what is written through it is written to the array.
    ///
    /// The caller must rule out the case where the span ends past the array or starts
    /// after it ends.
    pub fn slice_mut<'s>(&'s mut self, bounds: Bounds) -> (r: Shptr<&'s mut [T]>)
        requires
            valid_span(bounds, old(self)@@.len() as int),
        ensures
            (*r.target())@ == old(self)@@.subrange(
                span_start(bounds.start),
                span_end(bounds.end, old(self)@@.len() as int),
            ),
            final(self)@@ == old(self)@@.subrange(0, span_start(bounds.start)) + (*final(r.target()))@
                + old(self)@@.subrange(
                span_end(bounds.end, old(self)@@.len() as int),
                old(self)@@.len() as int,
            ),
    {
        let (start, end) = span_indices(bounds, self.internal.len());
        let s = self.internal.as_mut_slice();
        let (_, rest) = s.split_at_mut(start);
        let (mid, _) = rest.split_at_mut(end - start);
        Shptr { internal: mid }
    }
}


/// A write of `data` to the array on PE `pe`, starting at index `offset`.
#[derive(Debug)]
pub struct RemoteSliceWrite<T> {
    /// The PE whose array is written.
    pub pe: PE,
    /// The first index written.
    pub offset: usize,
    /// The elements written.
    pub data: Vec<T>,
}

/// A view into an array on a remote PE.
///
/// No matter whether it has been written to, the internal buffer is
/// copied back to the remote PE when the view is finished: `finish` gives
/// the write that does it. A view that is dropped without being finished
/// writes nothing.
pub struct MutableArrayView<'ctx, T> {
    ctx: &'ctx ShmemCtx,
    range: Bounds,
    on: PE,
    start: usize,
    buf: Vec<T>,
}

impl<'ctx, T> MutableArrayView<'ctx, T> {
    /// The elements of the view.
    pub closed spec fn contents(&self) -> Seq<T> {
        self.buf@
    }

    /// The PE whose array the view is into.
    pub closed spec fn target_pe(&self) -> PE {
        self.on
    }

    /// The index of the array where the view starts.
    pub closed spec fn offset(&self) -> nat {
        self.start as nat
    }

    /// The elements of the view, as a slice.
    pub fn as_slice(&self) -> (r: &[T])
        ensures
            r@ == self.contents(),
    {
        self.buf.as_slice()
    }

    /// The elements of the view, as a mutable slice; what is written
    /// through it is written to the view.
    pub fn as_mut_slice(&mut self) -> (r: &mut [T])
        ensures
            r@ == old(self).contents(),
            final(self).contents() == final(r)@,
            final(self).target_pe() == old(self).target_pe(),
            final(self).offset() == old(self).offset(),
    {
        self.buf.as_mut_slice()
    }

    /// The write that pushes the view's data to the remote PE: the view's
    /// elements, written to the remote array from the view's first index on.
    pub fn finish(self) -> (r: RemoteSliceWrite<T>)
        ensures
            r.pe == self.target_pe(),
            r.offset == self.offset(),
            r.data@ == self.contents(),
    {
        RemoteSliceWrite { pe: self.on, offset: self.start, data: self.buf }
    }
}

impl<'ctx> crate::PEReference<'ctx> {
    /// Obtain a mutable view into a remote PE's Shbox'd array, over the
    /// part of the array that `range` covers (clamped as
    /// `apply_range_bounds` does).
    ///
    /// The data in the view starts as a copy of the calling PE's array at
    /// that point.
    pub fn write<'shbox, T: Copy>(&self, shbox: &'shbox Shbox<'ctx, Vec<T>>, range: Bounds) -> (r:
        MutableArrayView<'ctx, T>)
        ensures
            r.target_pe() == self.pe,
            r.offset() == clamped_range(range, shbox@@.len() as int).0,
            r.contents() == shbox@@.subrange(
                clamped_range(range, shbox@@.len() as int).0,
                clamped_range(range, shbox@@.len() as int).1,
            ),
    {
        let (start, end) = apply_range_bounds(range, shbox.internal.as_slice());
        let mut buf: Vec<T> = Vec::new();
        let mut i = start;
        while i < end
            invariant
                start <= i <= end <= shbox@@.len(),
                buf@ == shbox@@.subrange(start as int, i as int),
            decreases end - i,
        {
            buf.push(shbox.internal[i]);
            assert(shbox@@.subrange(start as int, i + 1) =~= shbox@@.subrange(start as int, i as int).push(
                shbox@@[i as int],
            ));
            i = i + 1;
        }
        MutableArrayView { ctx: self.ctx, range, on: self.pe, start, buf }
    }
}


/// A read of `count` elements of the array on PE `pe`, starting at index
/// `offset`.
#[derive(Debug, Clone, Copy)]
pub struct RemoteSliceRead {
    /// The PE whose array is read.
    pub pe: PE,
    /// The first index read.
    pub offset: usize,
    /// The number of elements read.
    pub count: usize,
}

impl<'ctx, T> Shbox<'ctx, Vec<T>> {
    /// The write that replaces the `offset..(offset + data.len())`
    /// elements of the array on PE `pe` with `data`.
    ///
    /// The caller must rule out the case where the data does not fit.
    pub fn put_many(&self, offset: usize, data: Vec<T>, pe: PE) -> (r: RemoteSliceWrite<T>)
        requires
            offset + data@.len() <= self@@.len(),
        ensures
            r.pe == pe,
            r.offset == offset,
            r.data@ == data@,
    {
        RemoteSliceWrite { pe, offset, data }
    }

    /// The write that replaces element `idx` of the array on PE `pe` with
    /// `data`.
    ///
    /// The caller must rule out the case where `idx` is out of bounds.
    pub fn put_single(&self, idx: usize, data: T, pe: PE) -> (r: RemoteSliceWrite<T>)
        requires
            idx < self@@.len(),
        ensures
            r.pe == pe,
            r.offset == idx,
            r.data@ == seq![data],
    {
        let mut v: Vec<T> = Vec::new();
        v.push(data);
        assert(v@ =~= seq![data]);
        RemoteSliceWrite { pe, offset: idx, data: v }
    }

    /// The read of the part of the array on PE `pe` that `range` covers
    /// (clamped as `apply_range_bounds` does).
    pub fn get_many(&self, pe: PE, range: Bounds) -> (r: RemoteSliceRead)
        ensures
            r.pe == pe,
            r.offset == clamped_range(range, self@@.len() as int).0,
            r.count == clamped_range(range, self@@.len() as int).1 - clamped_range(
                range,
                self@@.len() as int,
            ).0,
    {
        let (start, end) = apply_range_bounds(range, self.internal.as_slice());
        RemoteSliceRead { pe, offset: start, count: end - start }
    }

    /// The read of element `idx` of the array on PE `pe`.
    ///
    /// The caller must rule out the case where `idx` is out of bounds.
    pub fn get_single(&self, pe: PE, idx: usize) -> (r: RemoteSliceRead)
        requires
            idx < self@@.len(),
        ensures
            r.pe == pe,
            r.offset == idx,
            r.count == 1,
    {
        RemoteSliceRead { pe, offset: idx, count: 1 }
    }
}

impl<'ctx> crate::PEReference<'ctx> {
    /// The write that replaces the first `data.len()` elements of the
    /// array on the referenced PE with `data`.
    ///
    /// The caller must rule out the case where the data does not fit.
    pub fn write_from<T>(&self, shbox: &Shbox<'ctx, Vec<T>>, data: Vec<T>) -> (r: RemoteSliceWrite<T>)
        requires
            data@.len() <= shbox@@.len(),
        ensures
            r.pe == self.pe,
            r.offset == 0,
            r.data@ == data@,
    {
        RemoteSliceWrite { pe: self.pe, offset: 0, data }
    }

    /// The read of the part of the array on the referenced PE that
    /// `range` covers (clamped as `apply_range_bounds` does).
    pub fn read<T>(&self, shbox: &Shbox<'ctx, Vec<T>>, range: Bounds) -> (r: RemoteSliceRead)
        ensures
            r.pe == self.pe,
            r.offset == clamped_range(range, shbox@@.len() as int).0,
            r.count == clamped_range(range, shbox@@.len() as int).1 - clamped_range(
                range,
                shbox@@.len() as int,
            ).0,
    {
        shbox.get_many(self.pe, range)
    }
}

} // verus!
