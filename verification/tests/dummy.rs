use ark_ec::{AffineRepr, CurveGroup, VariableBaseMSM};
use ark_ff::{BigInt, PrimeField as _};
use pickles::common::{Srs, MAX_PROOFS_VERIFIED, TICK_ROUNDS, TOCK_ROUNDS};
use pickles::curve::{is_on_curve, Pallas, Point};
use pickles::dummy::{
    combine_chunks, compute_sg, evals, evals_combined, ipa_challenges, ipa_wrap_and_step,
    pad_wrap_accumulator, pad_wrap_challenges, pasta_dummy_wrap_sg, pasta_ipa_wrap_and_step,
    wrap_challenges_computed, ChallengePolynomial,
};
use pickles::endo::endo_r_for_field;
use pickles::field::{from_u64, Fp, Fq, PrimeField};
use pickles::ipa::b_poly_coefficients;

const COLUMNS: usize = 15;
const PERMUTS: usize = 7;

/// A stand-in for the stream of 128-bit challenges.
fn stream(i: usize) -> u128 {
    (i as u128 + 1) * 0x1234_5678_9abc_def1_0000_0000_0000_0001
}

fn to_field_wrap(x: Fq) -> Fq {
    x.mul(&x).add(&from_u64(3))
}

fn to_field_step(x: Fp) -> Fp {
    x.mul(&x).add(&from_u64(5))
}

fn affine(k: u64) -> ark_pallas::Affine {
    (ark_pallas::Affine::generator() * ark_pallas::Fr::from(k)).into_affine()
}

fn point(p: ark_pallas::Affine) -> Point<Fp> {
    Point {
        x: Fp::from_limbs(p.x.into_bigint().0).unwrap(),
        y: Fp::from_limbs(p.y.into_bigint().0).unwrap(),
    }
}

fn bases(n: usize) -> Vec<ark_pallas::Affine> {
    let few: Vec<ark_pallas::Affine> = (1..=16).map(affine).collect();
    (0..n).map(|i| few[i % 16]).collect()
}

fn srs(n: usize) -> Srs<Fp> {
    Srs::new(bases(n).into_iter().map(|p| Some(point(p))).collect(), Some(point(affine(99))))
}

#[test]
fn dummy_challenges_and_sg() {
    let (wrap, step) = ipa_wrap_and_step::<Fq, Fp, _, _, _>(&stream, &to_field_wrap, &to_field_step);
    assert_eq!(wrap.prechallenges.len(), TOCK_ROUNDS);
    assert_eq!(step.prechallenges.len(), TICK_ROUNDS);
    let (wrap2, _) = pasta_ipa_wrap_and_step(&stream, &to_field_wrap, &to_field_step);
    assert_eq!(wrap.prechallenges, wrap2.prechallenges, "deterministic");
    assert_ne!(wrap.prechallenges[0], wrap.prechallenges[1], "stream advances");
    // the step challenges follow the wrap ones in the stream
    assert_eq!(step, ipa_challenges(&stream, TOCK_ROUNDS, TICK_ROUNDS, &to_field_step));

    // sg is the sum of the bases with the coefficients of the challenge polynomial
    let n = 1usize << TOCK_ROUNDS;
    let srs = srs(n);
    let sg = compute_sg::<Pallas>(&srs, &wrap.challenges_computed).unwrap();
    let coeffs: Vec<BigInt<4>> =
        b_poly_coefficients(&wrap.challenges_computed).iter().map(|c| BigInt(c.to_limbs())).collect();
    let expected = ark_pallas::Projective::msm_bigint(&bases(n), &coeffs);
    assert_eq!(sg, point(expected.into_affine()));
    assert!(is_on_curve(&sg));
    assert_eq!(pasta_dummy_wrap_sg(&srs, &stream, &to_field_wrap), Some(sg));
}

#[test]
fn pad_wrap_challenges_prepends_dummy_vectors() {
    let dummy = wrap_challenges_computed::<Fq, _, _>(&stream, &to_field_wrap);

    let none = pad_wrap_challenges::<Fq, _, _>(&[], &stream, &to_field_wrap);
    assert_eq!(none, vec![dummy.clone(), dummy.clone()]);

    let real = vec![vec![from_u64::<Fq>(1); TOCK_ROUNDS]];
    let one = pad_wrap_challenges(&real, &stream, &to_field_wrap);
    assert_eq!(one, vec![dummy, real[0].clone()]);

    let two_real = vec![
        vec![from_u64::<Fq>(2); TOCK_ROUNDS],
        vec![from_u64::<Fq>(3); TOCK_ROUNDS],
    ];
    let two = pad_wrap_challenges(&two_real, &stream, &to_field_wrap);
    assert_eq!(two, two_real);
}

#[test]
fn pad_wrap_accumulator_prepends_dummy_sg() {
    let srs = srs(1 << TOCK_ROUNDS);
    let dummy_challenges = wrap_challenges_computed::<Fq, _, _>(&stream, &to_field_wrap);
    let dummy_sg = compute_sg::<Pallas>(&srs, &dummy_challenges);

    let commitment = Some(point(ark_pallas::Affine::generator()));
    let real = ChallengePolynomial::<Pallas> {
        commitment,
        challenges: vec![from_u64(42); TOCK_ROUNDS],
    };
    let padded = pad_wrap_accumulator(&srs, std::slice::from_ref(&real), &stream, &to_field_wrap);

    assert_eq!(padded.len(), MAX_PROOFS_VERIFIED);
    assert_eq!(padded[0].commitment, dummy_sg);
    assert_eq!(padded[0].challenges, dummy_challenges);
    assert_eq!(padded[1].commitment, real.commitment);
    assert_eq!(padded[1].challenges, real.challenges);
}

fn field_stream(i: usize) -> Fq {
    from_u64(7 * i as u64 + 1)
}

#[test]
fn dummy_evals_follow_ocaml_ro_order() {
    let e = evals(&field_stream);

    assert_eq!(e.evals.w[0].zeta[0], field_stream(0));
    assert_eq!(e.evals.w[0].zeta_omega[0], field_stream(1));

    let mandatory = COLUMNS + COLUMNS + 1 + (PERMUTS - 1) + 6;
    let expected: Vec<Fq> = (0..(2 * mandatory + 3)).map(field_stream).collect();
    assert_eq!(e.public_input.zeta[0], expected[2 * mandatory]);
    assert_eq!(e.public_input.zeta_omega[0], expected[2 * mandatory + 1]);
    assert_eq!(e.ft_eval1, expected[2 * mandatory + 2]);

    assert!(e.evals.public.is_none());
    assert!(e.evals.range_check0_selector.is_none());
    assert!(e.evals.lookup_sorted.iter().all(Option::is_none));
}

#[test]
fn dummy_evals_combined_is_single_chunk_identity() {
    let raw = evals(&field_stream);
    let combined = evals_combined(&field_stream);

    assert_eq!(combined.ft_eval1, raw.ft_eval1);
    assert_eq!(combined.public_input, raw.public_input);
    assert_eq!(combined.evals.z, raw.evals.z);
    assert_eq!(combined.evals.w[0], raw.evals.w[0]);
    assert_eq!(
        combined.evals.endomul_scalar_selector,
        raw.evals.endomul_scalar_selector
    );
}

#[test]
fn chunks_are_combined_by_their_sum() {
    let mut raw = evals(&field_stream);
    raw.evals.z.zeta = vec![from_u64(10), from_u64(20), from_u64(12)];
    let combined = combine_chunks(&raw);
    assert_eq!(combined.evals.z.zeta, vec![from_u64::<Fq>(42)]);
}

#[test]
fn the_endomorphism_follows_the_field() {
    let (a, b): (Fp, Fq) = (from_u64(4), from_u64(5));
    assert_eq!(endo_r_for_field::<Fp>(&a, &b), from_u64(4));
    assert_eq!(endo_r_for_field::<Fq>(&a, &b), from_u64(5));
}
