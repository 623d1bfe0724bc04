use pickles::challenge::{lowest_128_bits, squeeze_challenge, squeeze_scalar, CHALLENGE_BITS};
use pickles::expr_eval::pow_circuit;
use pickles::field::{from_u64, Fp, PrimeField};
use pickles::sponge::{absorb_all, SpongeOp};
use rand_chacha::rand_core::{RngCore, SeedableRng};

fn rng() -> rand_chacha::ChaCha20Rng {
    rand_chacha::ChaCha20Rng::seed_from_u64(3)
}

fn random(rng: &mut rand_chacha::ChaCha20Rng) -> Fp {
    let limbs = [rng.next_u64(), rng.next_u64(), rng.next_u64(), rng.next_u64() >> 2];
    Fp::from_limbs(limbs).unwrap()
}

/// The element whose bits, lowest first, are given.
fn recompose(bits: &[bool]) -> Fp {
    let mut acc: Fp = from_u64(0);
    for &b in bits.iter().rev() {
        acc = acc.add(&acc);
        if b {
            acc = acc.add(&from_u64(1));
        }
    }
    acc
}

fn bits_of(x: &Fp) -> Vec<bool> {
    x.to_limbs().iter().flat_map(|l| (0..64).map(move |i| (l >> i) & 1 == 1)).collect()
}

fn lowest_128_ref(x: &Fp) -> Fp {
    recompose(&bits_of(x)[..128])
}

/// A stand-in for the sponge.
fn toy_sponge(ops: &Vec<SpongeOp<Fp>>) -> Fp {
    let mut state: Fp = from_u64(9);
    for op in ops {
        let step = match op {
            SpongeOp::Absorb(x) => *x,
            SpongeOp::Squeeze => from_u64(1),
        };
        state = pow_circuit(&state.add(&step), 7);
    }
    state
}

#[test]
fn squeeze_challenge_matches_reference() {
    let inputs: Vec<Fp> = vec![from_u64(3), from_u64(5), from_u64(7)];
    let mut ops = Vec::new();
    absorb_all(&mut ops, &inputs);
    let mut mirror = ops.clone();
    mirror.push(SpongeOp::Squeeze);
    let squeezed = toy_sponge(&mirror);
    let expected = lowest_128_ref(&squeezed);
    let mut scalar_ops = ops.clone();
    let out = squeeze_challenge(&mut ops, &toy_sponge);
    assert_eq!(ops, mirror);
    assert_eq!(out.lo, expected);
    // and it fits in 128 bits
    assert!(bits_of(&out.lo)[CHALLENGE_BITS..].iter().all(|b| !b));
    assert_eq!(out.range_checked, vec![out.hi, out.lo]);
    let scalar = squeeze_scalar(&mut scalar_ops, &toy_sponge);
    assert_eq!(scalar.lo, expected);
    assert_eq!(scalar.range_checked, vec![scalar.hi]);
}

#[test]
fn lowest_128_bits_matches_reference() {
    let mut rng = rng();
    for _ in 0..3 {
        let x = random(&mut rng);
        let out = lowest_128_bits(&x, true);
        assert_eq!(out.lo, lowest_128_ref(&x));
        let back = out.lo.add(&out.hi.mul(&pow_circuit(&from_u64(2), 128)));
        assert_eq!(back, x);
    }
}
