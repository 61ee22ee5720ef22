//! The integer side of the matrix-multiplication benchmark: the generator
//! that fills its matrices and the operation count it reports.
use vstd::prelude::*;

verus! {

/// The state the benchmark's generator starts from.
pub const SEED: u32 = 0xDABB_AD00u32;

/// The multiplier of the generator.
pub const LCG_A: u32 = 1103515245u32;

/// The increment of the generator.
pub const LCG_C: u32 = 12345u32;

/// One step of the linear congruential generator:
/// `state * LCG_A + LCG_C`, modulo `2^32`.
pub open spec fn lcg_next(state: u32) -> u32 {
    ((state as int * LCG_A as int + LCG_C as int) % 0x1_0000_0000int) as u32
}

/// The state after `k` steps from `state`.
pub open spec fn lcg_iter(state: u32, k: nat) -> u32
    decreases k,
{
    if k == 0 {
        state
    } else {
        lcg_next(lcg_iter(state, (k - 1) as nat))
    }
}

/// Advances the generator one step and returns the new state, which the
/// benchmark scales to a number between -5 and 5.
pub fn lcg_step(state: &mut u32) -> (r: u32)
    ensures
        r == lcg_next(*old(state)),
        *final(state) == r,
{
    let x = *state;
    let res = x.wrapping_mul(LCG_A).wrapping_add(LCG_C);
    proof {
        let m: int = 0x1_0000_0000int;
        let p: int = x as int * LCG_A as int;
        vstd::arithmetic::div_mod::lemma_add_mod_noop(p, LCG_C as int, m);
        vstd::arithmetic::div_mod::lemma_mod_twice(p, m);
        assert((LCG_C as int) % m == LCG_C as int);
    }
    *state = res;
    res
}

/// The next `count` states of the generator, one per element of a
/// matrix to fill; `state` ends at the last of them.
pub fn lcg_states(state: &mut u32, count: usize) -> (r: Vec<u32>)
    ensures
        r@.len() == count,
        forall|i: int| 0 <= i < count ==> r@[i] == lcg_iter(*old(state), (i + 1) as nat),
        *final(state) == lcg_iter(*old(state), count as nat),
{
    let ghost start = *state;
    let mut out: Vec<u32> = Vec::new();
    let mut i: usize = 0;
    while i < count
        invariant
            i <= count,
            out@.len() == i,
            *state == lcg_iter(start, i as nat),
            forall|j: int| 0 <= j < i ==> out@[j] == lcg_iter(start, (j + 1) as nat),
        decreases count - i,
    {
        let x = lcg_step(state);
        out.push(x);
        i = i + 1;
    }
    out
}

/// The number of floating-point operations in multiplying an `n` x `m`
/// matrix by an `m` x `p` one: `n * p * (2 * m - 1)`.
///
/// The caller must rule out the case where `m` is zero or a step of the count
/// overflows.
pub fn flop_count(n: usize, m: usize, p: usize) -> (r: usize)
    requires
        1 <= m,
        2 * m <= usize::MAX,
        n * p * (2 * m - 1) <= usize::MAX,
    ensures
        r == n * p * (2 * m - 1),
{
    proof {
        assert(n * p <= n * p * (2 * m - 1)) by (nonlinear_arith)
            requires
                1 <= m,
        ;
        assert(2 * m - 1 <= n * p * (2 * m - 1) || n * p == 0) by (nonlinear_arith)
            requires
                1 <= m,
        ;
    }
    if n * p == 0 {
        assert(n * p * (2 * m - 1) == 0) by (nonlinear_arith)
            requires
                n * p == 0,
        ;
        return 0;
    }
    n * p * (2 * m - 1)
}

} // verus!
