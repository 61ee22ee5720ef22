use openshmem_rs::reduce::{ArithmeticReducible, BooleanReducible, CompareReducible};
use openshmem_rs::shmalloc::Shbox;
use openshmem_rs::traits::Shend;
use openshmem_rs::{ShmemCtx, PE};

/// A stand-in for a reducible type: it answers as four PEs that all hold
/// the calling PE's value would.
#[derive(Debug, Clone, Copy, PartialEq)]
struct FourAlike(u64);

impl Shend for FourAlike {}

fn each(shbox: &Shbox<'_, Vec<FourAlike>>, n: usize, f: fn(u64) -> u64) -> Vec<FourAlike> {
    shbox.raw()[..n].iter().map(|x| FourAlike(f(x.0))).collect()
}

impl ArithmeticReducible for FourAlike {
    fn sum_into(shbox: &Shbox<'_, Self>, _ctx: &ShmemCtx) -> Self {
        FourAlike(shbox.raw().0 * 4)
    }
    fn sum_into_many(shbox: &Shbox<'_, Vec<Self>>, n: usize, _ctx: &ShmemCtx) -> Vec<Self> {
        each(shbox, n, |x| x * 4)
    }
    fn prod_into(shbox: &Shbox<'_, Self>, _ctx: &ShmemCtx) -> Self {
        FourAlike(shbox.raw().0.pow(4))
    }
    fn prod_into_many(shbox: &Shbox<'_, Vec<Self>>, n: usize, _ctx: &ShmemCtx) -> Vec<Self> {
        each(shbox, n, |x| x.pow(4))
    }
}

impl BooleanReducible for FourAlike {
    fn and_into(shbox: &Shbox<'_, Self>, _ctx: &ShmemCtx) -> Self {
        *shbox.raw()
    }
    fn and_into_many(shbox: &Shbox<'_, Vec<Self>>, n: usize, _ctx: &ShmemCtx) -> Vec<Self> {
        each(shbox, n, |x| x)
    }
    fn or_into(shbox: &Shbox<'_, Self>, _ctx: &ShmemCtx) -> Self {
        *shbox.raw()
    }
    fn or_into_many(shbox: &Shbox<'_, Vec<Self>>, n: usize, _ctx: &ShmemCtx) -> Vec<Self> {
        each(shbox, n, |x| x)
    }
    fn xor_into(_shbox: &Shbox<'_, Self>, _ctx: &ShmemCtx) -> Self {
        FourAlike(0)
    }
    fn xor_into_many(shbox: &Shbox<'_, Vec<Self>>, n: usize, _ctx: &ShmemCtx) -> Vec<Self> {
        each(shbox, n, |_| 0)
    }
}

impl CompareReducible for FourAlike {
    fn max_into(shbox: &Shbox<'_, Self>, _ctx: &ShmemCtx) -> Self {
        *shbox.raw()
    }
    fn max_into_many(shbox: &Shbox<'_, Vec<Self>>, n: usize, _ctx: &ShmemCtx) -> Vec<Self> {
        each(shbox, n, |x| x)
    }
    fn min_into(shbox: &Shbox<'_, Self>, _ctx: &ShmemCtx) -> Self {
        *shbox.raw()
    }
    fn min_into_many(shbox: &Shbox<'_, Vec<Self>>, n: usize, _ctx: &ShmemCtx) -> Vec<Self> {
        each(shbox, n, |x| x)
    }
}

#[test]
fn reducing_a_value_stores_the_result() {
    let ctx = ShmemCtx::new(PE(0), 4);
    let shm = ctx.shmallocator();
    let mut b = shm.shbox(FourAlike(3));
    b.reduce_sum(&ctx);
    assert_eq!(*b.raw(), FourAlike(12));
    b.reduce_prod(&ctx);
    assert_eq!(*b.raw(), FourAlike(12u64.pow(4)));
    b.reduce_max(&ctx);
    b.reduce_min(&ctx);
    b.reduce_and(&ctx);
    b.reduce_or(&ctx);
    assert_eq!(*b.raw(), FourAlike(12u64.pow(4)));
    b.reduce_xor(&ctx);
    assert_eq!(*b.raw(), FourAlike(0));
}

#[test]
fn reducing_a_prefix_keeps_the_rest() {
    let ctx = ShmemCtx::new(PE(1), 4);
    let shm = ctx.shmallocator();
    let mut a = shm.array_gen(|i| FourAlike(i as u64 + 1), 4, 4);
    a.reduce_sum(2, &ctx);
    assert_eq!(a.raw().clone(), vec![FourAlike(4), FourAlike(8), FourAlike(3), FourAlike(4)]);
    a.reduce_prod(1, &ctx);
    assert_eq!(a.raw()[0], FourAlike(256));
    a.reduce_xor(3, &ctx);
    assert_eq!(a.raw().clone(), vec![FourAlike(0), FourAlike(0), FourAlike(0), FourAlike(4)]);
    a.reduce_max(4, &ctx);
    a.reduce_min(0, &ctx);
    a.reduce_and(4, &ctx);
    a.reduce_or(4, &ctx);
    assert_eq!(a.raw()[3], FourAlike(4));
}
