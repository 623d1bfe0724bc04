use pickles::field::{from_u64, Fp, PrimeField};
use pickles::fr_sponge::{
    challenges_of_squeezes, squeeze_transcript, squeeze_xi_r, AbsorbEvalsVar, FrSpongeInputs,
};
use pickles::sponge::SpongeOp;

fn f(n: u64) -> Fp {
    from_u64(n)
}

fn pair(n: u64) -> (Vec<Fp>, Vec<Fp>) {
    (vec![f(10 * n)], vec![f(10 * n + 1)])
}

fn evals() -> AbsorbEvalsVar<Fp> {
    AbsorbEvalsVar {
        z: pair(1),
        generic_selector: pair(2),
        poseidon_selector: pair(3),
        complete_add_selector: pair(4),
        mul_selector: pair(5),
        emul_selector: pair(6),
        endomul_scalar_selector: pair(7),
        w: vec![pair(8), pair(9)],
        coefficients: vec![pair(10)],
        s: vec![(vec![f(110), f(112)], vec![f(111)])],
    }
}

#[test]
fn the_transcript_absorbs_in_order() {
    let prev = vec![vec![f(1), f(2)], vec![f(3)]];
    let mask = None;
    let public = (vec![f(7)], vec![f(8)]);
    let e = evals();
    let inputs = FrSpongeInputs {
        digest: f(5),
        prev_challenges: &prev,
        prev_challenge_mask: &mask,
        ft_eval1: f(6),
        public_evals: &public,
        evals: &e,
        xi_constrain_low_bits: true,
    };
    assert_eq!(inputs.prev_challenges_absorbed(), vec![f(1), f(2), f(3)]);
    let expected: Vec<Fp> = [
        5, 99, 6, 7, 8, 10, 11, 20, 21, 30, 31, 40, 41, 50, 51, 60, 61, 70, 71, 80, 81, 90, 91, 100,
        101, 110, 112, 111,
    ]
    .iter()
    .map(|n| f(*n))
    .collect();
    assert_eq!(inputs.transcript(f(99)), expected);

    let keep_last = Some(vec![false, true]);
    let masked = FrSpongeInputs { prev_challenge_mask: &keep_last, ..inputs };
    assert_eq!(masked.prev_challenges_absorbed(), vec![f(3)]);
}

#[test]
fn squeezes_become_128_bit_challenges() {
    let prev = vec![];
    let mask = None;
    let public = (vec![], vec![]);
    let e = evals();
    let squeezed = Fp::from_limbs([1, 2, 3, 4]).unwrap();
    for constrain in [true, false] {
        let inputs = FrSpongeInputs {
            digest: f(5),
            prev_challenges: &prev,
            prev_challenge_mask: &mask,
            ft_eval1: f(6),
            public_evals: &public,
            evals: &e,
            xi_constrain_low_bits: constrain,
        };
        let (xi, r) = challenges_of_squeezes(&inputs, &squeezed, &f(12));
        assert_eq!(xi.lo.to_limbs(), [1, 2, 0, 0]);
        assert_eq!(xi.hi.to_limbs(), [3, 4, 0, 0]);
        assert_eq!(xi.range_checked.len(), if constrain { 2 } else { 1 });
        assert_eq!(r.lo, f(12));
        assert_eq!(r.range_checked.len(), 2);
    }
}

/// A stand-in for the sponge.
fn toy_sponge(ops: &Vec<SpongeOp<Fp>>) -> Fp {
    let mut state = f(9);
    for op in ops {
        let step = match op {
            SpongeOp::Absorb(x) => *x,
            SpongeOp::Squeeze => f(1),
        };
        state = state.mul(&state).add(&step);
    }
    state
}

#[test]
fn xi_and_r_are_squeezed_after_the_transcript() {
    let prev = vec![vec![f(1), f(2)], vec![f(3)]];
    let mask = None;
    let public = (vec![f(7)], vec![f(8)]);
    let e = evals();
    let inputs = FrSpongeInputs {
        digest: f(5),
        prev_challenges: &prev,
        prev_challenge_mask: &mask,
        ft_eval1: f(6),
        public_evals: &public,
        evals: &e,
        xi_constrain_low_bits: true,
    };
    let absorbed = |xs: &[Fp], squeezes: usize| {
        let mut ops: Vec<SpongeOp<Fp>> = xs.iter().map(|x| SpongeOp::Absorb(*x)).collect();
        ops.extend(vec![SpongeOp::Squeeze; squeezes]);
        toy_sponge(&ops)
    };
    let digest = absorbed(&[f(1), f(2), f(3)], 1);
    let transcript = inputs.transcript(digest);
    let (first, second) = (absorbed(&transcript, 1), absorbed(&transcript, 2));
    assert_eq!(squeeze_transcript(&inputs, &toy_sponge), (first, second));
    let (xi, r) = squeeze_xi_r(&inputs, &toy_sponge);
    let low = |x: Fp| Fp::from_limbs([x.to_limbs()[0], x.to_limbs()[1], 0, 0]).unwrap();
    assert_eq!(xi.lo, low(first));
    assert_eq!(r.lo, low(second));
}
