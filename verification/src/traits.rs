//! Types that may be sent between PEs.
use vstd::prelude::*;

verus! {

/// A safe (enough) type for PGAS operations.
///
/// Shend is analoguous to Send, but across PEs instead of threads.
/// A Shend type may be sent (put/get) across PEs.
///
/// Usually, you don't implement this trait yourself. Common types,
/// such as integers, floats, bools, and chars, already implement Shend.
/// If you have a type you want to read remotely, you can derive Shend
/// (see `shend_derive`): ALL types your type is made of must also
/// implement Shend.
pub trait Shend: Clone {}

impl Shend for u8 {}
impl Shend for u16 {}
impl Shend for u32 {}
impl Shend for u64 {}
impl Shend for usize {}
impl Shend for i8 {}
impl Shend for i16 {}
impl Shend for i32 {}
impl Shend for i64 {}
impl Shend for isize {}
impl Shend for char {}
impl Shend for bool {}
impl<const N: usize, T: Shend> Shend for [T; N] {}

} // verus!
