//! Radix-2 evaluation domains.

use vstd::arithmetic::power2::{
    lemma_pow2_unfold, lemma_pow2_pos, lemma_pow2_strictly_increases, lemma2_to64, pow2,
};
use vstd::prelude::*;

use crate::arkworks::{
    ark_fp_domain_generator, ark_fq_domain_generator, fp_domain_generator, fq_domain_generator,
    is_root_of_unity,
};
use crate::field::{fpow, Fp, Fq, PrimeField};

verus! {

/// A field with subgroups of every order `2^k`, `k <= 32`.
pub trait FftField: PrimeField {
    /// The residue of the chosen generator of the subgroup of the given order.
    spec fn generator_spec(size: int) -> int;

    /// The chosen generator of the subgroup of order `size`.
    fn group_generator(size: usize) -> (r: Self)
        requires
            exists|log2: nat| log2 <= 32 && size == #[trigger] pow2(log2),
        ensures
            r.view() == Self::generator_spec(size as int),
            is_root_of_unity(Self::modulus(), r.view(), size as int),
    ;
}

impl FftField for Fp {
    open spec fn generator_spec(size: int) -> int {
        fp_domain_generator(size)
    }

    fn group_generator(size: usize) -> (r: Self) {
        Self::from_limbs(ark_fp_domain_generator(size).unwrap()).unwrap()
    }
}

impl FftField for Fq {
    open spec fn generator_spec(size: int) -> int {
        fq_domain_generator(size)
    }

    fn group_generator(size: usize) -> (r: Self) {
        Self::from_limbs(ark_fq_domain_generator(size).unwrap()).unwrap()
    }
}

/// An evaluation domain: the subgroup of order `size` that `group_gen`
/// generates.
#[derive(Clone, Copy, Debug)]
pub struct Domain<F: PrimeField> {
    /// The order of the subgroup.
    pub size: u64,
    /// Its generator.
    pub group_gen: F,
}

impl<F: PrimeField> Domain<F> {
    /// The generator's order divides the (positive) size.
    pub open spec fn wf(self) -> bool {
        self.size > 0 && fpow::<F>(self.group_gen.view(), self.size as nat) == 1
    }
}

/// `2^log2` as a machine integer.
pub fn power_of_two(log2: u32) -> (r: usize)
    requires
        pow2(log2 as nat) <= usize::MAX,
    ensures
        r == pow2(log2 as nat),
{
    let mut r: usize = 1;
    let mut i: u32 = 0;
    proof {
        lemma2_to64();
    }
    while i < log2
        invariant
            i <= log2,
            r == pow2(i as nat),
            pow2(log2 as nat) <= usize::MAX,
        decreases log2 - i,
    {
        proof {
            vstd::arithmetic::power2::lemma_pow2_unfold((i + 1) as nat);
            if i + 1 < log2 {
                lemma_pow2_strictly_increases((i + 1) as nat, log2 as nat);
            }
        }
        r = r * 2;
        i = i + 1;
    }
    r
}

/// The radix-2 domain of size `2^log2`.
pub fn radix2_domain<F: FftField>(log2: u32) -> (d: Domain<F>)
    requires
        log2 <= 32,
        pow2(log2 as nat) <= usize::MAX,
    ensures
        d.wf(),
        d.size == pow2(log2 as nat),
        d.group_gen.view() == F::generator_spec(pow2(log2 as nat) as int),
        is_root_of_unity(F::modulus(), d.group_gen.view(), d.size as int),
{
    let size = power_of_two(log2);
    let group_gen = F::group_generator(size);
    proof {
        lemma_pow2_pos(log2 as nat);
    }
    Domain { size: size as u64, group_gen }
}

/// `floor(log2 n)`.
pub fn floor_log2(n: u64) -> (r: u32)
    requires
        n > 0,
    ensures
        pow2(r as nat) <= n < pow2((r + 1) as nat),
{
    let mut r: u32 = 0;
    let mut rest: u64 = n;
    proof {
        lemma2_to64();
        assert(pow2(0) * rest == rest);
    }
    while rest > 1
        invariant
            rest >= 1,
            r <= 64,
            pow2(r as nat) * rest <= n < pow2(r as nat) * (rest + 1),
        decreases rest,
    {
        let half = rest / 2;
        proof {
            lemma_pow2_unfold((r + 1) as nat);
            let p = pow2(r as nat) as int;
            if r >= 64 {
                vstd::arithmetic::power2::lemma2_to64_rest();
                lemma2_to64();
                if r == 64 {
                    assert(p == 0x1_0000_0000_0000_0000);
                    assert(p * rest >= p) by (nonlinear_arith)
                        requires
                            rest >= 1,
                            p >= 0,
                    ;
                }
            }
            assert(2 * p * half <= p * rest) by (nonlinear_arith)
                requires
                    2 * half <= rest,
                    p >= 0,
            ;
            assert(p * (rest + 1) <= 2 * p * (half + 1)) by (nonlinear_arith)
                requires
                    rest + 1 <= 2 * (half + 1),
                    p >= 0,
            ;
        }
        rest = half;
        r = r + 1;
    }
    proof {
        lemma_pow2_unfold((r + 1) as nat);
        let p = pow2(r as nat) as int;
        assert(rest == 1);
        assert(p * rest == p && p * (rest + 1) == 2 * p) by (nonlinear_arith)
            requires
                rest == 1,
        ;
    }
    r
}

} // verus!
