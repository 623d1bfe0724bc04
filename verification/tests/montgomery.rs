use ark_ff::{MontConfig, UniformRand};
use pickles::field::{fp_modulus_limbs, fq_modulus_limbs};
use pickles::montgomery::{mont_mul, mont_mul_v2, mont_mul_v3, subtract_modulus};
use rand_chacha::rand_core::SeedableRng;

fn agrees_on(left: [u64; 4], right: [u64; 4], modulus: [u64; 4], inv: u64, expected: [u64; 4]) {
    let product = mont_mul(&left, &right, &modulus, inv);
    assert_eq!(product, mont_mul_v2(&left, &right, &modulus, inv));
    assert_eq!(product, mont_mul_v3(left, right, modulus, inv));
    assert_eq!(subtract_modulus(product, &modulus), expected);
}

#[test]
fn matches_the_generic_multiplication_on_fp() {
    let inv = <ark_pallas::FqConfig as MontConfig<4>>::INV;
    let mut rng = rand_chacha::ChaCha20Rng::seed_from_u64(0);
    for _ in 0..200_000 {
        let left = ark_pallas::Fq::rand(&mut rng);
        let right = ark_pallas::Fq::rand(&mut rng);
        agrees_on(
            left.0 .0,
            right.0 .0,
            fp_modulus_limbs(),
            inv,
            (left * right).0 .0,
        );
    }
}

#[test]
fn matches_the_generic_multiplication_on_fq() {
    let inv = <ark_pallas::FrConfig as MontConfig<4>>::INV;
    let mut rng = rand_chacha::ChaCha20Rng::seed_from_u64(0);
    for _ in 0..200_000 {
        let left = ark_pallas::Fr::rand(&mut rng);
        let right = ark_pallas::Fr::rand(&mut rng);
        agrees_on(
            left.0 .0,
            right.0 .0,
            fq_modulus_limbs(),
            inv,
            (left * right).0 .0,
        );
    }
}
