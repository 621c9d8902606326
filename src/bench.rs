//! The pseudo-random numbers that pick benchmark positions.
use vstd::prelude::*;

verus! {

/// The linear congruential generator of the benchmark generator.
pub open spec fn lcg_step(seed: nat) -> nat {
    (1103515245 * seed + 12345) % 0x8000_0000
}

/// A pseudo-random number and the next seed, from a seed.
pub fn next_rand(seed: usize) -> (r: (usize, usize))
    requires
        seed <= u32::MAX,
    ensures
        r.1 == lcg_step(seed as nat),
        r.0 == r.1 / 16,
        r.1 < 0x8000_0000,
{
    let a: u64 = 1103515245;
    let c: u64 = 12345;
    let m: u64 = 0x8000_0000;
    assert(a * (seed as u64) + c < 0x1_0000_0000 * 0x1_0000_0000) by (nonlinear_arith)
        requires
            seed <= u32::MAX,
            a == 1103515245,
            c == 12345,
    ;
    let s = (a * (seed as u64) + c) % m;
    assert(s >> 4u64 == s / 16) by (bit_vector);
    ((s >> 4u64) as usize, s as usize)
}

} // verus!
