use ark_ec::{AffineRepr, CurveGroup};
use ark_ff::{PrimeField as _, UniformRand};
use pickles::bulletproof::{bullet_reduce_terms, combine_commitments, CommitmentOpt};
use pickles::bulletproof::prepare_bulletproof_q;
use pickles::commitments::{embed, ft_comm, ShiftedScalar};
use pickles::curve::{add_fast, negate, Curve, Pallas, Point};
use pickles::field::{from_u64, Fp, Fq, PrimeField};
use pickles::incrementally_verify::{
    incrementally_verify_proof, verify_with_challenges, Advice, Messages, OpeningProof,
    VerificationKeyComm, VerifierInputs,
};
use pickles::sponge::SpongeOp;
use rand_chacha::rand_core::{RngCore, SeedableRng};

const BITS: u64 = 255;

fn point(rng: &mut rand_chacha::ChaCha20Rng) -> Point<Fp> {
    let p = (ark_pallas::Affine::generator() * ark_pallas::Fr::rand(rng)).into_affine();
    Point {
        x: Fp::from_limbs(p.x.into_bigint().0).unwrap(),
        y: Fp::from_limbs(p.y.into_bigint().0).unwrap(),
    }
}

fn points(rng: &mut rand_chacha::ChaCha20Rng, n: usize) -> Vec<Point<Fp>> {
    (0..n).map(|_| point(rng)).collect()
}

fn scalar(rng: &mut rand_chacha::ChaCha20Rng) -> ShiftedScalar<Fp> {
    ShiftedScalar::Type1(from_u64(rng.next_u64()))
}

/// A stand-in for the sponge that depends on every operation.
fn ordered_sponge(ops: &Vec<SpongeOp<Fp>>) -> Fp {
    let mut state: Fp = from_u64(17);
    for op in ops {
        let step = match op {
            SpongeOp::Absorb(x) => x.add(&from_u64(5)),
            SpongeOp::Squeeze => from_u64(3),
        };
        state = state.mul(&state).add(&step);
    }
    state
}

/// A stand-in for the sponge whose answers do not depend on what is absorbed.
fn counting_sponge(ops: &Vec<SpongeOp<Fp>>) -> Fp {
    from_u64(1000 + ops.len() as u64)
}

fn group_map(t: Fp) -> Point<Fp> {
    let p = ark_pallas::Affine::generator();
    let g = Point {
        x: Fp::from_limbs(p.x.into_bigint().0).unwrap(),
        y: Fp::from_limbs(p.y.into_bigint().0).unwrap(),
    };
    let k: Fq = embed(&t);
    Pallas::scale(&g, &k).unwrap()
}

fn to_field(x: Fp) -> Fq {
    let y: Fq = embed(&x);
    y.add(&from_u64(1))
}

struct Case {
    vk: VerificationKeyComm<Fp>,
    sg_old: Vec<Point<Fp>>,
    x_hat: Vec<Point<Fp>>,
    messages: Messages<Fp>,
    openings: OpeningProof<Fp>,
    advice: Advice<Fp>,
}

impl Case {
    fn inputs(&self) -> VerifierInputs<'_, Fp> {
        VerifierInputs {
            vk: &self.vk,
            sg_old: &self.sg_old,
            x_hat: &self.x_hat,
            messages: &self.messages,
            openings: &self.openings,
            advice: &self.advice,
        }
    }
}

fn case() -> Case {
    let rng = &mut rand_chacha::ChaCha20Rng::seed_from_u64(41);
    Case {
        vk: VerificationKeyComm {
            generic: point(rng),
            psm: point(rng),
            complete_add: point(rng),
            mul: point(rng),
            emul: point(rng),
            endomul_scalar: point(rng),
            coefficients: points(rng, 15),
            sigma_init: points(rng, 6),
            sigma_last: points(rng, 1),
        },
        sg_old: points(rng, 2),
        x_hat: points(rng, 1),
        messages: Messages {
            w_comm: (0..15).map(|_| points(rng, 1)).collect(),
            z_comm: points(rng, 1),
            t_comm: points(rng, 7),
        },
        openings: OpeningProof {
            lr: (0..3).map(|_| (point(rng), point(rng))).collect(),
            delta: point(rng),
            z1: scalar(rng),
            z2: scalar(rng),
            challenge_polynomial_commitment: point(rng),
            h_generator: point(rng),
        },
        advice: Advice {
            combined_inner_product: scalar(rng),
            b: scalar(rng),
            perm: scalar(rng),
            zeta_to_srs_length: scalar(rng),
            zeta_to_domain_size: scalar(rng),
        },
    }
}

fn scaled(s: &ShiftedScalar<Fp>, p: &Point<Fp>) -> Point<Fp> {
    Pallas::scale(p, &s.to_scalar(BITS)).unwrap()
}

/// The delta with which the equation holds.
fn good_delta(case: &Case, xi: &Fq, u: &Point<Fp>, pres: &[Fq], c: &Fq) -> Point<Fp> {
    let ft = ft_comm::<Pallas>(
        &case.vk.sigma_last,
        &case.messages.t_comm,
        &case.advice.perm,
        &case.advice.zeta_to_srs_length,
        &case.advice.zeta_to_domain_size,
        BITS,
    )
    .unwrap();
    let mut all: Vec<Point<Fp>> = case.sg_old.clone();
    all.extend(&case.x_hat);
    all.push(ft);
    all.extend(&case.messages.z_comm);
    all.extend([
        case.vk.generic,
        case.vk.psm,
        case.vk.complete_add,
        case.vk.mul,
        case.vk.emul,
        case.vk.endomul_scalar,
    ]);
    for row in &case.messages.w_comm {
        all.extend(row);
    }
    all.extend(&case.vk.coefficients);
    all.extend(&case.vk.sigma_init);
    let list: Vec<CommitmentOpt<Fp>> = all.into_iter().map(CommitmentOpt::Just).collect();
    let combined = combine_commitments::<Pallas>(&list, xi).unwrap();
    let lr = bullet_reduce_terms::<Pallas>(&case.openings.lr, pres).unwrap();
    let q = prepare_bulletproof_q::<Pallas>(
        &combined,
        &lr,
        u,
        &case.advice.combined_inner_product,
        BITS,
    )
    .unwrap();
    let cq = Pallas::scale(&q, c).unwrap();
    let b_u = scaled(&case.advice.b, u);
    let g_b_u = add_fast(&case.openings.challenge_polynomial_commitment, &b_u).unwrap();
    let rhs = add_fast(
        &scaled(&case.openings.z1, &g_b_u),
        &scaled(&case.openings.z2, &case.openings.h_generator),
    )
    .unwrap();
    add_fast(&rhs, &negate(&cq)).unwrap()
}

#[test]
fn incrementally_verify_proof_assembles_and_matches_oracles() {
    let case = case();
    let vk_digest: Fp = from_u64(15);
    let result = incrementally_verify_proof::<Pallas, _, _, _>(
        &ordered_sponge,
        &group_map,
        &to_field,
        &vk_digest,
        &case.inputs(),
        &from_u64(12345),
        BITS,
    )
    .unwrap();

    let mut ops = vec![SpongeOp::Absorb(vk_digest)];
    let mut absorb = |p: &Point<Fp>, ops: &mut Vec<SpongeOp<Fp>>| {
        ops.push(SpongeOp::Absorb(p.x));
        ops.push(SpongeOp::Absorb(p.y));
    };
    for p in case.sg_old.iter().chain(&case.x_hat) {
        absorb(p, &mut ops);
    }
    for row in &case.messages.w_comm {
        for p in row {
            absorb(p, &mut ops);
        }
    }
    let low = |x: Fp| {
        let l = x.to_limbs();
        Fp::from_limbs([l[0], l[1], 0, 0]).unwrap()
    };
    ops.push(SpongeOp::Squeeze);
    assert_eq!(result.oracles.beta, low(ordered_sponge(&ops)), "beta (sponge order incl. sg_old)");
    ops.push(SpongeOp::Squeeze);
    assert_eq!(result.oracles.gamma, low(ordered_sponge(&ops)), "gamma");
    for p in &case.messages.z_comm {
        absorb(p, &mut ops);
    }
    ops.push(SpongeOp::Squeeze);
    assert_eq!(result.oracles.alpha, low(ordered_sponge(&ops)));
    for p in &case.messages.t_comm {
        absorb(p, &mut ops);
    }
    ops.push(SpongeOp::Squeeze);
    assert_eq!(result.oracles.zeta, low(ordered_sponge(&ops)));
    ops.push(SpongeOp::Squeeze);
    assert_eq!(result.sponge_digest, ordered_sponge(&ops));
    assert_eq!(result.bulletproof_challenges.len(), 3);
    assert!(!result.success);
}

#[test]
fn the_equation_decides_the_verdict() {
    let mut case = case();
    let xi: Fq = from_u64(999);
    let u = point(&mut rand_chacha::ChaCha20Rng::seed_from_u64(1));
    let pres: Vec<Fq> = vec![from_u64(3), from_u64(4), from_u64(5)];
    let c: Fq = from_u64(77);
    assert_eq!(
        verify_with_challenges::<Pallas>(&case.inputs(), &xi, &u, &pres, &c, BITS),
        Some(false)
    );
    case.openings.delta = good_delta(&case, &xi, &u, &pres, &c);
    assert_eq!(
        verify_with_challenges::<Pallas>(&case.inputs(), &xi, &u, &pres, &c, BITS),
        Some(true)
    );
    case.messages.w_comm[3][0] = case.vk.psm;
    assert_eq!(
        verify_with_challenges::<Pallas>(&case.inputs(), &xi, &u, &pres, &c, BITS),
        Some(false)
    );
}

#[test]
fn an_opening_made_for_the_transcript_is_accepted() {
    let mut case = case();
    let vk_digest: Fp = from_u64(15);
    let xi: Fp = from_u64(4242);
    let run = |case: &Case| {
        incrementally_verify_proof::<Pallas, _, _, _>(
            &counting_sponge,
            &group_map,
            &to_field,
            &vk_digest,
            &case.inputs(),
            &xi,
            BITS,
        )
        .unwrap()
    };
    assert!(!run(&case).success);
    // the answers depend on the number of operations alone: 1 digest, 2 * 18
    // coordinates, then beta, gamma, alpha and zeta
    let zeta_ops = 1 + 2 * (2 + 1 + 15) + 2 + 2 + 1 + 2 * 7 + 1;
    let answer = |n: usize| from_u64::<Fp>(1000 + n as u64);
    let u = group_map(answer(zeta_ops + 2));
    let pres: Vec<Fq> = (0..3).map(|i| to_field(answer(zeta_ops + 2 + 5 * (i + 1)))).collect();
    let c = to_field(answer(zeta_ops + 2 + 15 + 3));
    case.openings.delta = good_delta(&case, &to_field(xi), &u, &pres, &c);
    assert!(run(&case).success);
}
