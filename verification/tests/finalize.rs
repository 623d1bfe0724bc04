use pickles::common::TOCK_ROUNDS;
use pickles::domain::FftField;
use pickles::domain::radix2_domain;
use pickles::expr_eval::{ConstantTerm, PolishToken};
use pickles::finalize::{
    b_actual, finalize_all, finalize_core, finalize_deferred, finalize_other_proof,
    finalize_squeezed, type1_of_field, type1_to_field, type2_of_field, type2_to_field,
    FinalizeParams, FinalizeWitness, FinalizedDeferred, ShiftKind,
};
use pickles::field::{from_u64, Fp, PrimeField};
use pickles::fr_sponge::{squeeze_transcript, AbsorbEvalsVar};
use pickles::ft_eval_circuit::{
    actual_evaluation_circuit, perm_scalar_circuit, scalars_env_circuit, EvalsVar, FinalizeDomain,
};
use pickles::gates::{Column, CurrOrNext};
use pickles::sponge::SpongeOp;
use pickles::ipa::{
    b_poly_coefficients, challenge_polynomial_circuit, combined_inner_product_circuit,
    combined_inner_product_circuit_masked,
};
use pickles::expr_eval::pow_circuit;
use rand_chacha::rand_core::{RngCore, SeedableRng};

fn rng() -> rand_chacha::ChaCha20Rng {
    rand_chacha::ChaCha20Rng::seed_from_u64(5)
}

fn random(rng: &mut rand_chacha::ChaCha20Rng) -> Fp {
    let limbs = [rng.next_u64(), rng.next_u64(), rng.next_u64(), rng.next_u64() >> 2];
    Fp::from_limbs(limbs).unwrap()
}

/// `prod_i (1 + u_{k-i} x^{2^i})`.
fn challenge_polynomial(chals: &[Fp], x: &Fp) -> Fp {
    let mut power = *x;
    let mut acc: Fp = from_u64(1);
    for c in chals.iter().rev() {
        acc = acc.mul(&from_u64::<Fp>(1).add(&c.mul(&power)));
        power = power.mul(&power);
    }
    acc
}

#[test]
fn b_actual_matches_reference() {
    let mut rng = rng();
    let chals: Vec<Fp> = (0..TOCK_ROUNDS).map(|_| random(&mut rng)).collect();
    let domain_gen = Fp::group_generator(1 << 5);
    let zeta = random(&mut rng);
    let r = random(&mut rng);
    let zetaw = domain_gen.mul(&zeta);
    let expected =
        challenge_polynomial(&chals, &zeta).add(&r.mul(&challenge_polynomial(&chals, &zetaw)));
    assert_eq!(
        b_actual(&chals, &zeta, &zetaw, &r),
        expected,
        "in-circuit b_actual matches reference"
    );
    assert_eq!(challenge_polynomial_circuit(&chals, &zeta), challenge_polynomial(&chals, &zeta));
}

#[test]
fn coefficients_evaluate_to_the_challenge_polynomial() {
    let mut rng = rng();
    let chals: Vec<Fp> = (0..4).map(|_| random(&mut rng)).collect();
    let x = random(&mut rng);
    let coeffs = b_poly_coefficients(&chals);
    assert_eq!(coeffs.len(), 16);
    assert_eq!(coeffs[0], from_u64(1));
    assert_eq!(coeffs[1], chals[3]);
    let mut value: Fp = from_u64(0);
    for c in coeffs.iter().rev() {
        value = value.mul(&x).add(c);
    }
    assert_eq!(value, challenge_polynomial(&chals, &x));
}

#[test]
fn finalize_all_accepts_and_rejects() {
    let run = |xi: (u64, u64), cip: (u64, u64), b: (u64, u64), perm: (u64, u64)| {
        let f = |n: u64| from_u64::<Fp>(n);
        finalize_all(
            f(xi.0) == f(xi.1),
            &f(cip.0),
            &f(cip.1),
            &f(b.0),
            &f(b.1),
            &f(perm.0),
            &f(perm.1),
        )
    };
    assert!(run((11, 11), (22, 22), (33, 33), (44, 44)));
    assert!(!run((11, 99), (22, 22), (33, 33), (44, 44)), "xi mismatch rejects");
    assert!(!run((11, 11), (22, 99), (33, 33), (44, 44)), "cip mismatch rejects");
    assert!(!run((11, 11), (22, 22), (33, 99), (44, 44)), "b mismatch rejects");
    assert!(!run((11, 11), (22, 22), (33, 33), (44, 99)), "perm mismatch rejects");
}

#[test]
fn type1_recovery_inverts_of_field() {
    let mut rng = rng();
    for _ in 0..2 {
        let s = random(&mut rng);
        let repr = type1_of_field(&s);
        assert_eq!(type1_to_field(&repr), s, "in-circuit Type1 recovery");
        assert_eq!(ShiftKind::Type1.to_field(&repr), s);
        assert_eq!(type2_to_field(&type2_of_field(&s)), s);
        assert_eq!(ShiftKind::Type2.to_field(&type2_of_field(&s)), s);
    }
    // 2 * 3 + 2^255 + 1
    let expected = pow_circuit(&from_u64::<Fp>(2), 255).add(&from_u64(7));
    assert_eq!(type1_to_field(&from_u64::<Fp>(3)), expected);
}

fn actual_evaluation_ref(chunks: &[Fp], pt_to_n: &Fp) -> Fp {
    let mut it = chunks.iter().rev();
    let mut acc = *it.next().unwrap();
    for y in it {
        acc = y.add(&pt_to_n.mul(&acc));
    }
    acc
}

#[test]
fn actual_evaluation_circuit_matches_reference() {
    let mut rng = rng();
    let one = [random(&mut rng)];
    let pt = random(&mut rng);
    assert_eq!(actual_evaluation_ref(&one, &pt), one[0]);
    assert_eq!(actual_evaluation_circuit(&one, &pt), one[0]);
    for k in [2usize, 3, 5] {
        let chunks: Vec<Fp> = (0..k).map(|_| random(&mut rng)).collect();
        let pt_to_n = random(&mut rng);
        assert_eq!(
            actual_evaluation_circuit(&chunks, &pt_to_n),
            actual_evaluation_ref(&chunks, &pt_to_n)
        );
    }
}

#[test]
fn inner_products_are_horner_sums() {
    let f = |n: u64| from_u64::<Fp>(n);
    // (1 + 10 * 2) + 3 * (4 + 10 * 5) + 9 * (6 + 10 * 7)
    let entries = [(f(1), f(2)), (f(4), f(5)), (f(6), f(7))];
    assert_eq!(combined_inner_product_circuit(&f(3), &f(10), &entries), f(21 + 3 * 54 + 9 * 76));
    // an absent entry neither counts nor takes a power
    let masked = [(true, f(1), f(2)), (false, f(100), f(100))];
    assert_eq!(
        combined_inner_product_circuit_masked(&f(3), &f(10), &masked, &entries[1..]),
        f(21 + 3 * 54 + 9 * 76)
    );
}

/// A stand-in for the sponge.
fn toy_sponge(ops: &Vec<SpongeOp<Fp>>) -> Fp {
    let mut state: Fp = from_u64(9);
    for op in ops {
        let step = match op {
            SpongeOp::Absorb(x) => *x,
            SpongeOp::Squeeze => from_u64(1),
        };
        state = state.mul(&state).add(&step);
    }
    state
}

fn to_field(x: Fp) -> Fp {
    x.mul(&x).add(&from_u64(7))
}

fn column(k: u64) -> (Vec<Fp>, Vec<Fp>) {
    (vec![from_u64(2 * k + 100)], vec![from_u64(2 * k + 101)])
}

fn witness() -> FinalizeWitness<Fp> {
    FinalizeWitness {
        alpha: from_u64(31),
        beta: from_u64(32),
        gamma: from_u64(33),
        zeta: from_u64(34),
        xi: from_u64(0),
        cip_repr: from_u64(0),
        b_repr: from_u64(0),
        perm_repr: from_u64(0),
        bulletproof_challenges: (50..66).map(from_u64).collect(),
        digest: from_u64(35),
        prev_challenges: vec![vec![from_u64(3); 4], vec![from_u64(4); 4]],
        prev_challenge_mask: Some(vec![false, true]),
        ft_eval1: from_u64(36),
        public_evals: (vec![from_u64(37)], vec![from_u64(38)]),
        evals: AbsorbEvalsVar {
            z: column(1),
            generic_selector: column(2),
            poseidon_selector: column(3),
            complete_add_selector: column(4),
            mul_selector: column(5),
            emul_selector: column(6),
            endomul_scalar_selector: column(7),
            w: (10..25).map(column).collect(),
            coefficients: (30..45).map(column).collect(),
            s: (50..56).map(column).collect(),
        },
    }
}

/// Finalizes over a domain of 2^10 rows and a constant term `3 w_2`.
fn finalize(shift: ShiftKind, w: &FinalizeWitness<Fp>) -> FinalizedDeferred<Fp> {
    let tokens = vec![
        PolishToken::Constant(ConstantTerm::Literal(from_u64(3))),
        PolishToken::Cell { col: Column::Witness(2), row: CurrOrNext::Curr },
        PolishToken::Mul,
    ];
    let shifts: Vec<Fp> = (1..=7).map(from_u64).collect();
    let mds = vec![];
    let params = FinalizeParams {
        tokens: &tokens,
        domain: FinalizeDomain::Fixed(radix2_domain(10)),
        srs_log2: 16,
        endo: from_u64(5),
        shifts: &shifts,
        mds: &mds,
        shift,
    };
    finalize_deferred(params, w, &toy_sponge, &to_field).unwrap()
}

fn represented(shift: ShiftKind, x: &Fp) -> Fp {
    match shift {
        ShiftKind::Type1 => type1_of_field(x),
        ShiftKind::Type2 => type2_of_field(x),
    }
}

/// The witness with the claims that its own values derive.
fn honest(shift: ShiftKind) -> FinalizeWitness<Fp> {
    let mut w = witness();
    let (first, _) = squeeze_transcript(&w.sponge_inputs(shift), &toy_sponge);
    let l = first.to_limbs();
    w.xi = Fp::from_limbs([l[0], l[1], 0, 0]).unwrap();
    let derived = finalize(shift, &w);
    w.cip_repr = represented(shift, &derived.combined_inner_product);
    let zetaw = radix2_domain::<Fp>(10).group_gen.mul(&w.zeta);
    w.b_repr = represented(shift, &b_actual(&derived.challenges, &w.zeta, &zetaw, &derived.r_field));
    let env = scalars_env_circuit(
        &FinalizeDomain::Fixed(radix2_domain(10)),
        16,
        &w.alpha,
        w.beta,
        w.gamma,
        &w.zeta,
    )
    .unwrap();
    let pairs = |cs: &[(Vec<Fp>, Vec<Fp>)]| cs.iter().map(|c| (c.0[0], c.1[0])).collect();
    let e = EvalsVar {
        w: pairs(&w.evals.w),
        s: pairs(&w.evals.s),
        z: (w.evals.z.0[0], w.evals.z.1[0]),
    };
    w.perm_repr = represented(shift, &perm_scalar_circuit(&env, &e));
    w
}

#[test]
fn deferred_values_finalize_when_all_claims_hold() {
    for shift in [ShiftKind::Type1, ShiftKind::Type2] {
        let good = honest(shift);
        let out = finalize(shift, &good);
        assert!(out.finalized);
        assert_eq!(out.xi_field, to_field(good.xi));
        assert_eq!(out.challenges[0], to_field(from_u64(50)));

        let mut bad = honest(shift);
        bad.xi = bad.xi.add(&from_u64(1));
        assert!(!finalize(shift, &bad).xi_correct);
        let mut bad = honest(shift);
        bad.cip_repr = bad.cip_repr.add(&from_u64(1));
        let out = finalize(shift, &bad);
        assert!(!out.cip_correct && !out.finalized && out.b_correct && out.perm_correct);
        let mut bad = honest(shift);
        bad.b_repr = bad.b_repr.add(&from_u64(1));
        let out = finalize(shift, &bad);
        assert!(!out.b_correct && !out.finalized && out.cip_correct);
        let mut bad = honest(shift);
        bad.perm_repr = bad.perm_repr.add(&from_u64(1));
        let out = finalize(shift, &bad);
        assert!(!out.perm_correct && !out.finalized && out.cip_correct);
    }
}

#[test]
fn absent_previous_proofs_do_not_count() {
    let mut w = witness();
    let before = finalize(ShiftKind::Type1, &w).combined_inner_product;
    w.prev_challenges[0] = vec![from_u64(99); 4];
    assert_eq!(finalize(ShiftKind::Type1, &w).combined_inner_product, before);
    w.prev_challenges[1] = vec![from_u64(99); 4];
    assert_ne!(finalize(ShiftKind::Type1, &w).combined_inner_product, before);
}

#[test]
fn a_domain_that_does_not_exist_gives_no_outcome() {
    let (tokens, shifts, mds) = (vec![], vec![], vec![]);
    let params = FinalizeParams {
        tokens: &tokens,
        domain: FinalizeDomain::SideLoadedFrom { log2_size: from_u64(200) },
        srs_log2: 16,
        endo: from_u64(5),
        shifts: &shifts,
        mds: &mds,
        shift: ShiftKind::Type1,
    };
    let squeezed = (from_u64(1), from_u64(2));
    assert!(finalize_squeezed(params, &witness(), squeezed, &to_field).is_none());
}

#[test]
fn the_core_compares_and_combines() {
    let w = honest(ShiftKind::Type1);
    let inputs = w.sponge_inputs(ShiftKind::Type1);
    let entries: [(Fp, Fp); 2] = [(from_u64(1), from_u64(2)), (from_u64(3), from_u64(4))];
    let core = finalize_core(&inputs, &toy_sponge, &w.xi, &entries, &to_field);
    assert!(core.xi_correct);
    assert_eq!(core.r_field, to_field(core.r_challenge));
    assert_eq!(
        core.combined_inner_product,
        combined_inner_product_circuit(&core.xi_field, &core.r_field, &entries)
    );
    let chals: Vec<Fp> = (0..4).map(from_u64).collect();
    let (zeta, generator): (Fp, Fp) = (from_u64(11), from_u64(12));
    let b = b_actual(&chals, &zeta, &zeta.mul(&generator), &core.r_field);
    let perm: Fp = from_u64(77);
    let run = |perm_derived: &Fp| {
        finalize_other_proof(
            &inputs,
            &toy_sponge,
            &w.xi,
            &entries,
            &type1_of_field(&core.combined_inner_product),
            &chals,
            &zeta,
            &generator,
            &type1_of_field(&b),
            perm_derived,
            &type1_of_field(&perm),
            &to_field,
        )
        .0
    };
    assert!(run(&perm));
    assert!(!run(&from_u64(78)));
}
