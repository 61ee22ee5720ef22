use openshmem_rs::shmalloc::{Bound, Bounds};
use openshmem_rs::{ShmemCtx, PE};

#[test]
fn array_gen_fills_by_index() {
    let ctx = ShmemCtx::new(PE(0), 1);
    let shmalloc = ctx.shmallocator();
    let x = shmalloc.array_gen(|i| i, 8, 8);
    assert_eq!(x.raw().iter().sum::<usize>(), (0..8).sum());
}

#[test]
fn array_takes_global_length() {
    let ctx = ShmemCtx::new(PE(0), 2);
    let shmalloc = ctx.shmallocator();
    let x = shmalloc.array(7u16, 2, 5);
    assert_eq!(x.raw(), &vec![7u16; 5]);
    let d = shmalloc.array_default::<u32>(1, 3);
    assert_eq!(d.raw(), &vec![0u32; 3]);
}

#[test]
fn write_view_copies_and_finishes() {
    let ctx = ShmemCtx::new(PE(1), 2);
    let shmalloc = ctx.shmallocator();
    let x = shmalloc.array_gen(|i| i, 8, 8);
    let mut view = ctx.pe(0, true).write(&x, Bounds { start: Bound::Included(2), end: Bound::Excluded(5) });
    assert_eq!(view.as_slice(), &[2, 3, 4]);
    view.as_mut_slice()[0] = view.as_slice()[2];
    let w = view.finish();
    assert_eq!((w.pe.0, w.offset), (0, 2));
    assert_eq!(w.data, vec![4, 3, 4]);
}

#[test]
fn slices_of_arrays() {
    let ctx = ShmemCtx::new(PE(0), 1);
    let shmalloc = ctx.shmallocator();
    let mut x = shmalloc.array_gen(|i| i * 10, 5, 5);
    assert_eq!(*x.slice(Bounds { start: Bound::Included(1), end: Bound::Included(2) }).as_ref(), &[10, 20]);
    {
        let p = x.slice_mut(Bounds { start: Bound::Included(3), end: Bound::Unbounded });
        assert_eq!(&**p.as_ref(), &[30, 40]);
    }
    assert_eq!(x.raw(), &vec![0, 10, 20, 30, 40]);
}

#[test]
fn transfer_plans() {
    let ctx = ShmemCtx::new(PE(0), 2);
    let shmalloc = ctx.shmallocator();
    let x = shmalloc.array(0u8, 6, 6);
    let w = x.put_many(2, vec![1, 2, 3], PE(1));
    assert_eq!((w.pe.0, w.offset, w.data), (1, 2, vec![1, 2, 3]));
    let s = x.put_single(5, 9, PE(1));
    assert_eq!((s.offset, s.data), (5, vec![9]));
    let r = x.get_many(PE(1), Bounds { start: Bound::Included(4), end: Bound::Unbounded });
    assert_eq!((r.offset, r.count), (4, 2));
    let one = x.get_single(PE(1), 3);
    assert_eq!((one.offset, one.count), (3, 1));
    let rf = ctx.pe(1, true).write_from(&x, vec![5, 6]);
    assert_eq!((rf.pe.0, rf.offset, rf.data), (1, 0, vec![5, 6]));
    let rd = ctx.pe(1, true).read(&x, Bounds { start: Bound::Unbounded, end: Bound::Included(1) });
    assert_eq!((rd.offset, rd.count), (0, 2));
}

#[test]
fn sharray() {
    let ctx = ShmemCtx::new(PE(0), 1);
    let shmalloc = ctx.shmallocator();
    let my_pe = ctx.my_pe().raw();

    let mut x = shmalloc.array_gen(|i| i, 8, 8);

    assert_eq!(x.raw().iter().sum::<usize>(), (0..8).sum());
    let mut view = ctx.pe(my_pe, true).write(&x, Bounds { start: Bound::Unbounded, end: Bound::Unbounded });
    view.as_mut_slice()[0] = view.as_slice()[7];
    let w = view.finish();
    assert_eq!(w.pe.0 as usize, my_pe);
    // Performing the write on the calling PE's own copy.
    x.raw_mut()[w.offset..w.offset + w.data.len()].copy_from_slice(&w.data);
    // The view starts as a copy of the array, so element 0 becomes 7.
    assert_eq!(x.raw().iter().sum::<usize>(), (0..8).sum::<usize>() + 7);
}
