use openshmem_rs::atomics::{force_atomic32, force_atomic64, Atomic, AtomicFetch};
use openshmem_rs::shmalloc::Shbox;
use openshmem_rs::{ShmemCtx, PE};

/// A stand-in for an atomic type whose fetch reports the PE asked.
#[derive(Debug, Clone, Copy, PartialEq, Default)]
struct PeEcho(u32);

impl AtomicFetch for PeEcho {
    fn atomic_fetch(_shbox: &Shbox<'_, Atomic<Self>>, from: PE, _ctx: &ShmemCtx) -> Self {
        PeEcho(from.0)
    }
    fn atomic_set(_shbox: &Shbox<'_, Atomic<Self>>, _new: Self, _to: PE, _ctx: &ShmemCtx) {}
    fn atomic_swap(_shbox: &Shbox<'_, Atomic<Self>>, with: Self, _to: PE, _ctx: &ShmemCtx) -> Self {
        with
    }
}

#[test]
fn fetches_go_to_the_asked_pe() {
    let ctx = ShmemCtx::new(PE(3), 4);
    let shm = ctx.shmallocator();
    let a = shm.shbox(Atomic::new(PeEcho(0)));
    assert_eq!(a.atomic_fetch(PE(1), &ctx), PeEcho(1));
    assert_eq!(a.atomic_fetch_local(&ctx), PeEcho(3));
    assert_eq!(Atomic::fetch_local(&a, &ctx), PeEcho(3));
    assert_eq!(Atomic::fetch(&a, PE(2), &ctx), PeEcho(2));
    assert_eq!(a.atomic_swap(PeEcho(9), PE(0), &ctx), PeEcho(9));
    let _d: Atomic<PeEcho> = Atomic::default();
}

#[test]
fn forced_atomics_wrap_values_of_their_size() {
    let a = force_atomic32(7u32);
    let b = force_atomic32(-1.5f32);
    let c = force_atomic64(u64::MAX);
    let d = force_atomic64(2.5f64);
    let copies = (a, b, c, d);
    let _again = copies;
    let _still = copies;
}
