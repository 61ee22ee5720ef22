//! A vector on the symmetric heap, as held by one PE.
use vstd::prelude::*;

use crate::shmalloc::{
    span_end, span_indices, span_start, valid_span, Bounds, RemoteSliceRead, RemoteSliceWrite, Shmallocator,
};
use crate::{ShmemCtx, PE};

verus! {

/// The vector is full: storing one more element would need a reallocation.
#[derive(Debug, Clone, Copy, PartialEq, Eq, Hash)]
pub struct WouldRealloc;

/// A write that the calling PE has to perform on another PE's copy of a
/// vector: store `value` at `index` on PE `pe`, then count it in that
/// PE's length.
#[derive(Debug, Clone, Copy)]
pub struct RemoteWrite<T> {
    /// The PE whose copy is written.
    pub pe: PE,
    /// The index written.
    pub index: usize,
    /// The value stored.
    pub value: T,
}

/// Analogous to `Vec`, but on the Symmetric Heap.
///
/// The value held here is the calling PE's copy: its initialized elements
/// (as many as its length) and the capacity of its buffer.
pub struct Shvec<'ctx, T> {
    ctx: &'ctx ShmemCtx,
    items: Vec<T>,
    capacity: usize,
}

impl<'ctx, T> View for Shvec<'ctx, T> {
    type V = Seq<T>;

    closed spec fn view(&self) -> Seq<T> {
        self.items@
    }
}

impl<'ctx, T> Shvec<'ctx, T> {
    /// The capacity of the calling PE's buffer.
    pub closed spec fn cap(&self) -> nat {
        self.capacity as nat
    }

    /// The context the vector belongs to.
    pub closed spec fn context(&self) -> &'ctx ShmemCtx {
        self.ctx
    }

    /// The elements always fit in the buffer.
    pub open spec fn wf(&self) -> bool {
        self@.len() <= self.cap() <= usize::MAX
    }

    /// An empty vector whose buffer holds `initial_capacity` elements.
    ///
    /// This is a collective operation.
    pub fn new(ctx: &'ctx ShmemCtx, shm: &'ctx Shmallocator<'ctx>, initial_capacity: usize) -> (r: Self)
        ensures
            r.wf(),
            r@ == Seq::<T>::empty(),
            r.cap() == initial_capacity,
            r.context() == ctx,
    {
        Shvec { ctx, items: Vec::new(), capacity: initial_capacity }
    }

    /// The number of elements.
    pub fn len(&self) -> (r: usize)
        requires
            self.wf(),
        ensures
            r == self@.len(),
            r <= self.cap(),
    {
        self.items.len()
    }

    /// The number of elements the buffer holds.
    pub fn capacity(&self) -> (r: usize)
        requires
            self.wf(),
        ensures
            r == self.cap(),
            self@.len() <= r,
    {
        self.capacity
    }

    /// Grows the buffer to `new_capacity` elements if it is smaller; the
    /// elements are kept. Returns whether the buffer grew.
    pub fn grow_to(&mut self, new_capacity: usize) -> (r: bool)
        requires
            old(self).wf(),
        ensures
            final(self).wf(),
            r == (new_capacity > old(self).cap()),
            final(self)@ == old(self)@,
            final(self).cap() == if r { new_capacity as nat } else { old(self).cap() },
            final(self).context() == old(self).context(),
    {
        if new_capacity > self.capacity {
            self.capacity = new_capacity;
            true
        } else {
            false
        }
    }

    /// Appends `value` on the calling PE. Returns the index it was stored
    /// at, or `WouldRealloc` (and leaves the vector unchanged) when the
    /// buffer is full.
    pub fn push(&mut self, value: T) -> (r: Result<usize, WouldRealloc>)
        requires
            old(self).wf(),
        ensures
            final(self).wf(),
            final(self).cap() == old(self).cap(),
            final(self).context() == old(self).context(),
            old(self)@.len() >= old(self).cap() ==> r is Err && final(self)@ == old(self)@,
            old(self)@.len() < old(self).cap() ==> r == Ok::<usize, WouldRealloc>(
                old(self)@.len() as usize,
            ) && final(self)@ == old(self)@.push(value),
    {
        let len = self.items.len();
        if len >= self.capacity {
            Err(WouldRealloc)
        } else {
            self.items.push(value);
            Ok(len)
        }
    }

    /// Inserts `value` at `idx`, shifting the later elements up by one.
    /// Returns `WouldRealloc` (and leaves the vector unchanged) when the
    /// buffer is full.
    pub fn insert(&mut self, idx: usize, value: T) -> (r: Result<(), WouldRealloc>)
        requires
            old(self).wf(),
            idx <= old(self)@.len(),
        ensures
            final(self).wf(),
            final(self).cap() == old(self).cap(),
            final(self).context() == old(self).context(),
            r is Err <==> old(self)@.len() >= old(self).cap(),
            r is Err ==> final(self)@ == old(self)@,
            r is Ok ==> final(self)@ == old(self)@.insert(idx as int, value),
    {
        if self.items.len() >= self.capacity {
            Err(WouldRealloc)
        } else {
            self.items.insert(idx, value);
            Ok(())
        }
    }

    /// Replaces the element at `idx` with `x`.
    ///
    /// The caller must rule out the case where `idx` is not below the length.
    pub fn replace(&mut self, idx: usize, x: T)
        requires
            old(self).wf(),
            idx < old(self)@.len(),
        ensures
            final(self).wf(),
            final(self).cap() == old(self).cap(),
            final(self).context() == old(self).context(),
            final(self)@ == old(self)@.update(idx as int, x),
    {
        self.items.set(idx, x);
    }

    /// The elements in the span `bounds` on the calling PE.
    ///
    /// The caller must rule out the case where the span ends past the length or
    /// starts after it ends.
    pub fn span(&self, bounds: Bounds) -> (r: &[T])
        requires
            self.wf(),
            valid_span(bounds, self@.len() as int),
        ensures
            r@ == self@.subrange(
                span_start(bounds.start),
                span_end(bounds.end, self@.len() as int),
            ),
    {
        let (start, end) = span_indices(bounds, self.items.len());
        let s = self.items.as_slice();
        &s[start..end]
    }

    /// The read that `index_remote(idx, pe)` makes, given the length
    /// `remote_len` of PE `pe`'s copy: element `idx` of that copy, or none
    /// when `idx` is not below its length.
    pub fn index_remote(&self, idx: usize, pe: PE, remote_len: usize) -> (r: Option<RemoteSliceRead>)
        requires
            self.wf(),
        ensures
            idx >= remote_len ==> r is None,
            idx < remote_len ==> r == Some((RemoteSliceRead { pe, offset: idx, count: 1 })),
    {
        if remote_len <= idx {
            None
        } else {
            Some(RemoteSliceRead { pe, offset: idx, count: 1 })
        }
    }

    /// The read that `span_remote(bounds, pe)` makes, given the length
    /// `remote_len` of PE `pe`'s copy.
    ///
    /// The caller must rule out the case where the span ends past that length or
    /// starts after it ends.
    pub fn span_remote(&self, bounds: Bounds, pe: PE, remote_len: usize) -> (r: RemoteSliceRead)
        requires
            valid_span(bounds, remote_len as int),
        ensures
            r.pe == pe,
            r.offset == span_start(bounds.start),
            r.count == span_end(bounds.end, remote_len as int) - span_start(bounds.start),
    {
        let (start, end) = span_indices(bounds, remote_len);
        RemoteSliceRead { pe, offset: start, count: end - start }
    }

    /// The reads that `index_many_remote(idxs, pe)` makes, one element
    /// each, in the order of `idxs`, given the length `remote_len` of PE
    /// `pe`'s copy.
    ///
    /// The caller must rule out the case where an index is not below that length.
    pub fn index_many_remote(&self, idxs: &[usize], pe: PE, remote_len: usize) -> (r: Vec<RemoteSliceRead>)
        requires
            forall|i: int| 0 <= i < idxs@.len() ==> idxs@[i] < remote_len,
        ensures
            r@.len() == idxs@.len(),
            forall|i: int|
                0 <= i < idxs@.len() ==> #[trigger] r@[i] == (RemoteSliceRead {
                    pe,
                    offset: idxs@[i],
                    count: 1,
                }),
    {
        let mut out: Vec<RemoteSliceRead> = Vec::new();
        let mut i: usize = 0;
        while i < idxs.len()
            invariant
                i <= idxs@.len(),
                out@.len() == i,
                forall|j: int|
                    0 <= j < i ==> #[trigger] out@[j] == (RemoteSliceRead { pe, offset: idxs@[j], count: 1 }),
            decreases idxs@.len() - i,
        {
            out.push(RemoteSliceRead { pe, offset: idxs[i], count: 1 });
            i = i + 1;
        }
        out
    }

    /// The write that `replace_remote(idx, x, pe)` makes, given the length
    /// `remote_len` of PE `pe`'s copy.
    ///
    /// The caller must rule out the case where `idx` is not below that length or not
    /// within the calling PE's buffer.
    pub fn replace_remote(&self, idx: usize, x: T, pe: PE, remote_len: usize) -> (r: RemoteSliceWrite<T>)
        requires
            self.wf(),
            idx < remote_len,
            idx < self.cap(),
        ensures
            r.pe == pe,
            r.offset == idx,
            r.data@ == seq![x],
    {
        let mut v: Vec<T> = Vec::new();
        v.push(x);
        assert(v@ =~= seq![x]);
        RemoteSliceWrite { pe, offset: idx, data: v }
    }

    /// What pushing `value` onto the copy of PE `pe` does, given that
    /// copy's length `remote_len` (read while holding `pe`'s lock): a
    /// write at index `remote_len`, or `WouldRealloc` when the calling
    /// PE's buffer capacity is reached.
    pub fn push_remote(&self, value: T, pe: PE, remote_len: usize) -> (r: Result<RemoteWrite<T>, WouldRealloc>)
        requires
            self.wf(),
        ensures
            r is Err <==> remote_len >= self.cap(),
            r is Ok ==> r->Ok_0.pe == pe && r->Ok_0.index == remote_len && r->Ok_0.value == value,
    {
        if remote_len >= self.capacity {
            Err(WouldRealloc)
        } else {
            Ok(RemoteWrite { pe, index: remote_len, value })
        }
    }
}

impl<'ctx, T: Copy> Shvec<'ctx, T> {
    /// A vector holding `items` padded with `zero` up to `global_len`
    /// elements, in a buffer of exactly that many elements.
    ///
    /// `global_len` is the largest number of items any PE contributes
    /// (the max-reduction of `items.len()` over all PEs); every PE's copy
    /// has that length. This is a collective operation.
    pub fn from_iter(
        ctx: &'ctx ShmemCtx,
        shm: &'ctx Shmallocator<'ctx>,
        items: Vec<T>,
        global_len: usize,
        zero: T,
    ) -> (r: Self)
        requires
            items@.len() <= global_len,
        ensures
            r.wf(),
            r.cap() == global_len,
            r@.len() == global_len,
            forall|i: int| 0 <= i < items@.len() ==> r@[i] == items@[i],
            forall|i: int| items@.len() <= i < global_len ==> r@[i] == zero,
            r.context() == ctx,
    {
        let mut buf: Vec<T> = Vec::new();
        let mut i: usize = 0;
        while i < global_len
            invariant
                i <= global_len,
                items@.len() <= global_len,
                buf@.len() == i,
                forall|j: int| 0 <= j < i && j < items@.len() ==> buf@[j] == items@[j],
                forall|j: int| items@.len() <= j < i ==> buf@[j] == zero,
            decreases global_len - i,
        {
            if i < items.len() {
                buf.push(items[i]);
            } else {
                buf.push(zero);
            }
            i = i + 1;
        }
        Shvec { ctx, items: buf, capacity: global_len }
    }

    /// The element at `idx`, or `None` when `idx` is not below the length.
    pub fn index(&self, idx: usize) -> (r: Option<T>)
        requires
            self.wf(),
        ensures
            r == if idx < self@.len() { Some(self@[idx as int]) } else { None::<T> },
    {
        if self.items.len() <= idx {
            None
        } else {
            Some(self.items[idx])
        }
    }

    /// The element at `idx`.
    ///
    /// The caller must rule out the case where `idx` is not below the length.
    pub fn index_unwrap(&self, idx: usize) -> (r: T)
        requires
            self.wf(),
            idx < self@.len(),
        ensures
            r == self@[idx as int],
    {
        self.items[idx]
    }

    /// The writes that `replace_remote_many(data, pe)` makes, given the
    /// length `remote_len` of PE `pe`'s copy: for each `(idx, x)` of
    /// `data`, in order, a write of `x` at `idx`.
    ///
    /// The caller must rule out the case where an index is not below that
    /// length or not within the calling PE's buffer.
    pub fn replace_remote_many(&self, data: &[(usize, T)], pe: PE, remote_len: usize) -> (r: Vec<
        RemoteSliceWrite<T>,
    >)
        requires
            self.wf(),
            forall|i: int| 0 <= i < data@.len() ==> data@[i].0 < remote_len && data@[i].0 < self.cap(),
        ensures
            r@.len() == data@.len(),
            forall|i: int|
                0 <= i < data@.len() ==> (#[trigger] r@[i]).pe == pe && r@[i].offset == data@[i].0
                    && r@[i].data@ == seq![data@[i].1],
    {
        let mut out: Vec<RemoteSliceWrite<T>> = Vec::new();
        let mut i: usize = 0;
        while i < data.len()
            invariant
                self.wf(),
                i <= data@.len(),
                forall|j: int| 0 <= j < data@.len() ==> data@[j].0 < remote_len && data@[j].0 < self.cap(),
                out@.len() == i,
                forall|j: int|
                    0 <= j < i ==> (#[trigger] out@[j]).pe == pe && out@[j].offset == data@[j].0
                        && out@[j].data@ == seq![data@[j].1],
            decreases data@.len() - i,
        {
            let (idx, x) = data[i];
            let w = self.replace_remote(idx, x, pe, remote_len);
            out.push(w);
            i = i + 1;
        }
        out
    }

    /// The elements at each of `idxs`, in that order; the calling PE reads
    /// one element for each of its elements, so `idxs` holds exactly as
    /// many indices as the vector holds elements.
    ///
    /// The caller must rule out the case where `idxs` holds another number
    /// of indices, or an index is not below the length.
    pub fn index_many(&self, idxs: &[usize]) -> (r: Vec<T>)
        requires
            self.wf(),
            idxs@.len() == self@.len(),
            forall|i: int| 0 <= i < idxs@.len() ==> idxs@[i] < self@.len(),
        ensures
            r@.len() == idxs@.len(),
            forall|i: int| 0 <= i < idxs@.len() ==> r@[i] == self@[idxs@[i] as int],
    {
        let mut out: Vec<T> = Vec::new();
        let mut i: usize = 0;
        while i < idxs.len()
            invariant
                self.wf(),
                i <= idxs@.len(),
                forall|j: int| 0 <= j < idxs@.len() ==> idxs@[j] < self@.len(),
                out@.len() == i,
                forall|j: int| 0 <= j < i ==> out@[j] == self@[idxs@[j] as int],
            decreases idxs@.len() - i,
        {
            out.push(self.items[idxs[i]]);
            i = i + 1;
        }
        out
    }

    /// An iterator over the calling PE's elements.
    pub fn iter<'s>(&'s self) -> (r: ShvecIter<'s, T>)
        requires
            self.wf(),
        ensures
            r.wf(),
            r.remaining() == self@,
    {
        ShvecIter { len: self.items.len(), idx: 0, items: &self.items }
    }
}

/// Iterates over the elements a `Shvec` held when the iterator was made.
pub struct ShvecIter<'vec, T> {
    len: usize,
    idx: usize,
    items: &'vec Vec<T>,
}

impl<'vec, T: Copy> ShvecIter<'vec, T> {
    /// The elements not yet returned.
    pub closed spec fn remaining(&self) -> Seq<T> {
        self.items@.subrange(self.idx as int, self.len as int)
    }

    /// The iterator's positions stay within the elements.
    pub closed spec fn wf(&self) -> bool {
        self.idx <= self.len <= self.items@.len()
    }

    /// The next element, or `None` when all have been returned.
    pub fn next(&mut self) -> (r: Option<T>)
        requires
            old(self).wf(),
        ensures
            final(self).wf(),
            old(self).remaining().len() == 0 ==> r is None && final(self).remaining() == old(self).remaining(),
            old(self).remaining().len() > 0 ==> r == Some(old(self).remaining()[0])
                && final(self).remaining() == old(self).remaining().drop_first(),
    {
        if self.idx < self.len {
            let t = self.items[self.idx];
            self.idx = self.idx + 1;
            Some(t)
        } else {
            None
        }
    }
}


/// After a push that succeeded, the pushed value is at the index `push`
/// returned (the old length) and the earlier elements are unchanged.
pub proof fn law_push_then_index<T>(before: Shvec<'_, T>, after: Shvec<'_, T>, value: T)
    requires
        after@ == before@.push(value),
    ensures
        after@.len() == before@.len() + 1,
        after@[before@.len() as int] == value,
        forall|i: int| 0 <= i < before@.len() ==> after@[i] == before@[i],
{
}

/// Growing never shrinks the buffer: after `grow_to(n)` the capacity is
/// the larger of the old capacity and `n`.
pub proof fn law_grow_to_max<T>(before: Shvec<'_, T>, after: Shvec<'_, T>, n: usize)
    requires
        after.cap() == if n > before.cap() {
            n as nat
        } else {
            before.cap()
        },
    ensures
        after.cap() >= before.cap(),
        after.cap() >= n,
        after.cap() == before.cap() || after.cap() == n,
{
}

} // verus!
