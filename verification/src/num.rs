//! Powers of two.
use vstd::arithmetic::power2::pow2;
use vstd::prelude::*;

verus! {

/// A power of two.
pub fn power_of_two(k: u32) -> (r: u128)
    requires
        k < 128,
    ensures
        r == pow2(k as nat),
{
    let mut r: u128 = 1;
    let mut i: u32 = 0;
    proof {
        vstd::arithmetic::power2::lemma2_to64();
    }
    while i < k
        invariant
            i <= k < 128,
            r == pow2(i as nat),
        decreases k - i,
    {
        proof {
            vstd::arithmetic::power2::lemma_pow2_unfold((i + 1) as nat);
            vstd::arithmetic::power2::lemma_pow2_strictly_increases((i + 1) as nat, 128);
            vstd::arithmetic::power2::lemma_pow2_adds(64, 64);
            vstd::arithmetic::power2::lemma2_to64();
            assert(0x1_0000_0000_0000_0000 * 0x1_0000_0000_0000_0000
                == 0x1_0000_0000_0000_0000_0000_0000_0000_0000) by (nonlinear_arith);
        }
        r = r * 2;
        i += 1;
    }
    r
}

} // verus!
