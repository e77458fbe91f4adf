//! Powers of two as machine integers.

use vstd::prelude::*;
use vstd::arithmetic::power2::{
    lemma2_to64, lemma_pow2_strictly_increases, lemma_pow2_unfold, pow2,
};

verus! {

/// `2^big` is at least `2^small` when `small <= big`.
pub proof fn lemma_pow2_monotonic(small: nat, big: nat)
    requires
        small <= big,
    ensures
        pow2(small) <= pow2(big),
{
    if small < big {
        lemma_pow2_strictly_increases(small, big);
    }
}

/// Every 32-bit number is below `2^e` once `e` reaches 32.
pub proof fn lemma_u32_below_pow2(v: u32, e: nat)
    requires
        e >= 32,
    ensures
        (v as nat) < pow2(e),
{
    lemma2_to64();
    lemma_pow2_monotonic(32, e);
}

/// `2^e` as a 64-bit number.
pub fn pow2_u64(e: u8) -> (r: u64)
    requires
        e < 64,
    ensures
        r as nat == pow2(e as nat),
{
    let mut r: u64 = 1;
    let mut i: u8 = 0;
    proof {
        lemma2_to64();
    }
    while i < e
        invariant
            i <= e < 64,
            r as nat == pow2(i as nat),
        decreases e - i,
    {
        proof {
            lemma_pow2_unfold((i + 1) as nat);
            lemma_pow2_strictly_increases((i + 1) as nat, 64);
            lemma2_to64();
        }
        r = r * 2;
        i = i + 1;
    }
    r
}

} // verus!
