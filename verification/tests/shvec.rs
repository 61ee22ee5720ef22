use openshmem_rs::shmalloc::{Bound, Bounds};
use openshmem_rs::shvec::{Shvec, WouldRealloc};
use openshmem_rs::{ShmemCtx, PE};

#[test]
fn test_insert() {
    let ctx = ShmemCtx::new(PE(0), 1);
    let shm = ctx.shmallocator();
    let mut shvec = Shvec::new(&ctx, &shm, 16);
    for i in 0..16 {
        assert!(shvec.push(i).is_ok(), "didn't expect WouldAlloc yet");
    }
}

#[test]
fn test_grow() {
    let ctx = ShmemCtx::new(PE(0), 1);
    let shm = ctx.shmallocator();
    let mut shvec = Shvec::new(&ctx, &shm, 16);

    for i in 0..16 {
        assert!(shvec.push(i).is_ok(), "didn't expect WouldAlloc yet");
    }
    assert!(
        shvec.push(0).err().is_some(),
        "shvec inserted when it should be out of capacity"
    );
    assert!(
        !shvec.grow_to(2),
        "shvec returned true on grow_to less than current cap"
    );
    shvec.grow_to(20);
    for i in 0..4 {
        assert!(shvec.push(i).is_ok(), "WouldAlloc after growing");
    }
}

#[test]
fn push_returns_index_and_index_reads_it() {
    let ctx = ShmemCtx::new(PE(0), 1);
    let shm = ctx.shmallocator();
    let mut v = Shvec::new(&ctx, &shm, 3);
    assert_eq!(v.push(10u32), Ok(0));
    assert_eq!(v.push(11), Ok(1));
    assert_eq!(v.index(1), Some(11));
    assert_eq!(v.index(2), None);
    assert_eq!(v.index_unwrap(0), 10);
    assert_eq!(v.len(), 2);
    assert_eq!(v.capacity(), 3);
}

#[test]
fn full_push_leaves_vector_unchanged() {
    let ctx = ShmemCtx::new(PE(0), 1);
    let shm = ctx.shmallocator();
    let mut v = Shvec::new(&ctx, &shm, 1);
    assert_eq!(v.push(1u8), Ok(0));
    assert_eq!(v.push(2), Err(WouldRealloc));
    assert_eq!(v.len(), 1);
    assert_eq!(v.index(0), Some(1));
}

#[test]
fn insert_shifts_and_fails_when_full() {
    let ctx = ShmemCtx::new(PE(0), 1);
    let shm = ctx.shmallocator();
    let mut v = Shvec::new(&ctx, &shm, 3);
    v.push(1u32).unwrap();
    v.push(3).unwrap();
    assert_eq!(v.insert(1, 2), Ok(()));
    assert_eq!(v.span(Bounds { start: Bound::Unbounded, end: Bound::Unbounded }), &[1, 2, 3]);
    assert_eq!(v.insert(0, 0), Err(WouldRealloc));
    assert_eq!(v.len(), 3);
}

#[test]
fn replace_and_span() {
    let ctx = ShmemCtx::new(PE(0), 1);
    let shm = ctx.shmallocator();
    let mut v = Shvec::new(&ctx, &shm, 5);
    for i in 0..5u64 {
        v.push(i).unwrap();
    }
    v.replace(2, 20);
    assert_eq!(v.span(Bounds { start: Bound::Included(1), end: Bound::Included(3) }), &[1, 20, 3]);
    assert_eq!(v.span(Bounds { start: Bound::Excluded(0), end: Bound::Excluded(2) }), &[1]);
    assert_eq!(v.index_many(&[4, 0, 2, 2, 1]), vec![4, 0, 20, 20, 1]);
}

#[test]
fn replacing_many_remotely_plans_one_write_each() {
    let ctx = ShmemCtx::new(PE(0), 2);
    let shm = ctx.shmallocator();
    let v: Shvec<u64> = Shvec::new(&ctx, &shm, 8);
    let ws = v.replace_remote_many(&[(3, 30), (0, 7)], PE(1), 5);
    assert_eq!(ws.len(), 2);
    assert_eq!((ws[0].pe.0, ws[0].offset, ws[0].data.clone()), (1, 3, vec![30]));
    assert_eq!((ws[1].pe.0, ws[1].offset, ws[1].data.clone()), (1, 0, vec![7]));
}

#[test]
fn from_iter_pads_to_global_length() {
    let ctx = ShmemCtx::new(PE(1), 2);
    let shm = ctx.shmallocator();
    let v = Shvec::from_iter(&ctx, &shm, vec![7u32, 8], 4, 0);
    assert_eq!(v.len(), 4);
    assert_eq!(v.capacity(), 4);
    assert_eq!(v.span(Bounds { start: Bound::Unbounded, end: Bound::Unbounded }), &[7, 8, 0, 0]);
}

#[test]
fn iter_yields_elements_in_order() {
    let ctx = ShmemCtx::new(PE(0), 1);
    let shm = ctx.shmallocator();
    let mut v = Shvec::new(&ctx, &shm, 4);
    for i in [5u32, 6, 7] {
        v.push(i).unwrap();
    }
    let mut it = v.iter();
    let mut seen = Vec::new();
    while let Some(x) = it.next() {
        seen.push(x);
    }
    assert_eq!(seen, vec![5, 6, 7]);
}

#[test]
fn remote_plans() {
    let ctx = ShmemCtx::new(PE(0), 2);
    let shm = ctx.shmallocator();
    let v: Shvec<u32> = Shvec::new(&ctx, &shm, 4);
    let w = v.push_remote(9, PE(1), 2).unwrap();
    assert_eq!((w.pe.0, w.index, w.value), (1, 2, 9));
    assert!(v.push_remote(9, PE(1), 4).is_err());
    assert!(v.index_remote(3, PE(1), 3).is_none());
    let r = v.index_remote(2, PE(1), 3).unwrap();
    assert_eq!((r.pe.0, r.offset, r.count), (1, 2, 1));
    let s = v.span_remote(Bounds { start: Bound::Included(1), end: Bound::Unbounded }, PE(1), 3);
    assert_eq!((s.offset, s.count), (1, 2));
    let many = v.index_many_remote(&[2, 0], PE(1), 3);
    assert_eq!(many.iter().map(|r| r.offset).collect::<Vec<_>>(), vec![2, 0]);
    let rw = v.replace_remote(1, 5, PE(1), 3);
    assert_eq!((rw.offset, rw.data), (1, vec![5]));
}
