//! The scalar endomorphism coefficient of a circuit field.

use vstd::prelude::*;

use crate::commitments::embed;
use crate::field::{fp_modulus, fp_modulus_limbs, fq_modulus, Fp, Fq, PrimeField};

verus! {

/// The coefficient that belongs to a field, out of those of the two fields.
pub fn endo_r_for_field<F: PrimeField>(on_fp: &Fp, on_fq: &Fq) -> (r: F)
    requires
        F::modulus() == fp_modulus() || F::modulus() == fq_modulus(),
    ensures
        F::modulus() == fp_modulus() ==> r.view() == on_fp.view(),
        F::modulus() == fq_modulus() ==> r.view() == on_fq.view(),
{
    proof {
        Fp::lemma_canonical(*on_fp);
        Fq::lemma_canonical(*on_fq);
        assert(fp_modulus() < fq_modulus());
    }
    // Only the larger field has the smaller modulus as an element.
    match F::from_limbs(fp_modulus_limbs()) {
        None => {
            proof {
                vstd::arithmetic::div_mod::lemma_small_mod(
                    on_fp.view() as nat,
                    F::modulus() as nat,
                );
            }
            embed(on_fp)
        },
        Some(_) => {
            proof {
                vstd::arithmetic::div_mod::lemma_small_mod(
                    on_fq.view() as nat,
                    F::modulus() as nat,
                );
            }
            embed(on_fq)
        },
    }
}

} // verus!
