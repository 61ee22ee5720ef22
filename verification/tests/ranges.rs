use openshmem_rs::shmalloc::{apply_range_bounds, Bound, Bounds};

fn b(start: Bound, end: Bound) -> Bounds {
    Bounds { start, end }
}

#[test]
fn full_range_covers_all() {
    let v = [1, 2, 3, 4, 5, 6, 7, 8];
    assert_eq!(apply_range_bounds(b(Bound::Unbounded, Bound::Unbounded), &v), (0, 8));
}

#[test]
fn half_open_and_inclusive() {
    let v = [0u8; 8];
    assert_eq!(apply_range_bounds(b(Bound::Included(2), Bound::Excluded(5)), &v), (2, 5));
    assert_eq!(apply_range_bounds(b(Bound::Included(2), Bound::Included(5)), &v), (2, 6));
    assert_eq!(apply_range_bounds(b(Bound::Excluded(2), Bound::Included(5)), &v), (3, 6));
}

#[test]
fn ends_are_clamped() {
    let v = [0u8; 8];
    assert_eq!(apply_range_bounds(b(Bound::Included(5), Bound::Excluded(20)), &v), (5, 8));
    assert_eq!(apply_range_bounds(b(Bound::Included(10), Bound::Unbounded), &v), (8, 8));
    assert_eq!(apply_range_bounds(b(Bound::Included(6), Bound::Excluded(3)), &v), (3, 3));
}

#[test]
fn bounds_saturate() {
    let v = [0u8; 4];
    assert_eq!(
        apply_range_bounds(b(Bound::Excluded(usize::MAX), Bound::Included(usize::MAX)), &v),
        (4, 4)
    );
}

#[test]
fn empty_slice() {
    let v: [u32; 0] = [];
    assert_eq!(apply_range_bounds(b(Bound::Included(1), Bound::Unbounded), &v), (0, 0));
}
