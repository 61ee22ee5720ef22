//! Waiting until values on the symmetric heap meet a condition.
use vstd::prelude::*;

use crate::shmalloc::Shbox;

verus! {

/// Comparison operators for the wait_until family of methods.
#[derive(Debug, Clone, Copy, PartialEq, Eq)]
pub enum ShmemCompareOp {
    /// x == y (SHMEM_CMP_EQ)
    Equal,
    /// x != y (SHMEM_CMP_NE)
    NotEqual,
    /// x > y (SHMEM_CMP_GT)
    Greater,
    /// x >= y (SHMEM_CMP_GE)
    GreaterEqual,
    /// x < y (SHMEM_CMP_LT)
    Lesser,
    /// x <= y (SHMEM_CMP_LE)
    LesserEqual,
}

/// Types that have shmem_wait_until routines.
///
/// See `Shbox` for safe wrappers of these methods.
pub trait Waitable: Sized {
    /// Blocks, waiting until the value matches the given value and op.
    fn wait_until(shbox: &mut Shbox<'_, Self>, op: ShmemCompareOp, x: Self);

    /// Blocks, waiting until all values match the given value and op.
    fn wait_until_all(shbox: &mut Shbox<'_, Vec<Self>>, op: ShmemCompareOp, x: Self);

    /// Blocks, waiting until some values match the given value and op.
    /// Returns a vector of indices of the values that matched.
    fn wait_until_some(shbox: &mut Shbox<'_, Vec<Self>>, op: ShmemCompareOp, x: Self) -> Vec<usize>;

    /// Blocks, waiting until one value matches the given value and op.
    /// Returns its index.
    fn wait_until_any(shbox: &mut Shbox<'_, Vec<Self>>, op: ShmemCompareOp, x: Self) -> usize;
}

} // verus!
