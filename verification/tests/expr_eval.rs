use pickles::domain::{radix2_domain, Domain};
use pickles::expr_eval::{
    eval_polish, pow_circuit, square_circuit, ChallengeTerm, Challenges, ConstantTerm, PolishDomain,
    PolishEnv, PolishToken, RowOffset,
};
use pickles::field::{div, from_u64, Fp, PrimeField};
use pickles::fr_sponge::AbsorbEvalsVar;
use pickles::ft_eval_circuit::{
    ft_eval0_prefix_circuit, perm_scalar_circuit, scalars_env_circuit, EvalsVar, FinalizeDomain,
    SelectedDomain, SideLoadedDomain,
};
use pickles::gates::{Column, CurrOrNext, GateType};

fn f(n: u64) -> Fp {
    from_u64(n)
}

fn pair(n: u64) -> (Vec<Fp>, Vec<Fp>) {
    (vec![f(10 * n)], vec![f(10 * n + 1)])
}

fn evals() -> AbsorbEvalsVar<Fp> {
    AbsorbEvalsVar {
        z: pair(1),
        generic_selector: pair(2),
        poseidon_selector: pair(3),
        complete_add_selector: pair(4),
        mul_selector: pair(5),
        emul_selector: pair(6),
        endomul_scalar_selector: pair(7),
        w: (20..35).map(pair).collect(),
        coefficients: (40..55).map(pair).collect(),
        s: (60..66).map(pair).collect(),
    }
}

fn literal(n: u64) -> PolishToken<Fp> {
    PolishToken::Constant(ConstantTerm::Literal(f(n)))
}

fn cell(col: Column, row: CurrOrNext) -> PolishToken<Fp> {
    PolishToken::Cell { col, row }
}

fn run(toks: &[PolishToken<Fp>]) -> Option<Fp> {
    let mds = vec![vec![f(1), f(2), f(3)], vec![f(4), f(5), f(6)], vec![f(7), f(8), f(9)]];
    let e = evals();
    let env = PolishEnv {
        domain: PolishDomain::Fixed(radix2_domain::<Fp>(4)),
        endo_coefficient: f(77),
        mds: &mds,
        zk_rows: 3,
        pt: f(1234),
        challenges: Challenges { alpha: f(2), beta: f(3), gamma: f(5), joint_combiner: f(7) },
        evals: &e,
    };
    eval_polish(toks, &env)
}

#[test]
fn programs_compute_on_a_stack() {
    assert_eq!(run(&[literal(3), PolishToken::Dup, PolishToken::Mul, literal(4), PolishToken::Add, PolishToken::Pow(2)]), Some(f(169)));
    assert_eq!(run(&[literal(9), literal(4), PolishToken::Sub]), Some(f(5)));
    assert_eq!(
        run(&[
            PolishToken::Challenge(ChallengeTerm::Alpha),
            PolishToken::Challenge(ChallengeTerm::Beta),
            PolishToken::Mul,
            PolishToken::Challenge(ChallengeTerm::Gamma),
            PolishToken::Add,
            PolishToken::Challenge(ChallengeTerm::JointCombiner),
            PolishToken::Mul,
        ]),
        Some(f(77))
    );
    // a stored value is loaded again
    assert_eq!(run(&[literal(6), PolishToken::Store, literal(1), PolishToken::Add, PolishToken::Load(0), PolishToken::Mul]), Some(f(42)));
    assert_eq!(run(&[PolishToken::Constant(ConstantTerm::EndoCoefficient)]), Some(f(77)));
    assert_eq!(run(&[PolishToken::Constant(ConstantTerm::Mds { row: 1, col: 2 })]), Some(f(6)));
}

#[test]
fn cells_are_read_at_their_row() {
    assert_eq!(run(&[cell(Column::Witness(2), CurrOrNext::Curr)]), Some(f(220)));
    assert_eq!(run(&[cell(Column::Witness(2), CurrOrNext::Next)]), Some(f(221)));
    assert_eq!(run(&[cell(Column::Z, CurrOrNext::Next)]), Some(f(11)));
    assert_eq!(run(&[cell(Column::Index(GateType::Poseidon), CurrOrNext::Curr)]), Some(f(30)));
    assert_eq!(run(&[cell(Column::Coefficient(0), CurrOrNext::Curr)]), Some(f(400)));
    assert_eq!(run(&[cell(Column::Permutation(5), CurrOrNext::Curr)]), Some(f(650)));
}

#[test]
fn lagrange_bases_and_vanishing_rows_are_written_out() {
    let d = radix2_domain::<Fp>(4);
    let pt = f(1234);
    let top = pow_circuit(&pt, 16).sub(&f(1));
    // the basis of the first row: (x^16 - 1) / (x - 1)
    let l0 = PolishToken::UnnormalizedLagrangeBasis(RowOffset { zk_rows: false, offset: 0 });
    assert_eq!(run(&[l0]), div(&top, &pt.sub(&f(1))));
    // that of the row before the zero-knowledge rows
    let minus_four = PolishToken::UnnormalizedLagrangeBasis(RowOffset { zk_rows: true, offset: -1 });
    let root = pow_circuit(&d.group_gen, 16 - 4);
    assert_eq!(run(&[minus_four]), div(&top, &pt.sub(&root)));
    // vanishes on the last four rows
    let mut product = f(1);
    for row in 12..16 {
        product = product.mul(&pt.sub(&pow_circuit(&d.group_gen, row)));
    }
    assert_eq!(run(&[PolishToken::VanishesOnZeroKnowledgeAndPreviousRows]), Some(product));
    assert_eq!(square_circuit(&f(12)), f(144));
}

fn env(domain: FinalizeDomain<Fp>) -> pickles::ft_eval_circuit::ScalarsEnvVar<Fp> {
    scalars_env_circuit(&domain, 16, &f(3), f(5), f(7), &f(11)).unwrap()
}

#[test]
fn the_environment_holds_powers_and_domain_values() {
    let d = radix2_domain::<Fp>(10);
    let e = env(FinalizeDomain::Fixed(d));
    assert_eq!(e.alpha_pow(0), f(1));
    assert_eq!(e.alpha_pow(1), f(3));
    assert_eq!(e.alpha_pow(5), f(243));
    assert_eq!(e.zeta_to_n_minus_1, pow_circuit(&f(11), 1024).sub(&f(1)));
    let w = |k: u64| pow_circuit(&d.group_gen, 1024 - k);
    // vanishes on the last three rows
    let zk = f(11).sub(&w(1)).mul(&f(11).sub(&w(2))).mul(&f(11).sub(&w(3)));
    assert_eq!(e.zk_polynomial, zk);
    assert_eq!(e.omega_to_minus_zk_rows, w(3));
}

#[test]
fn domains_agree_however_they_are_chosen() {
    let fixed = env(FinalizeDomain::Fixed(radix2_domain::<Fp>(14)));
    let selected = SelectedDomain::create(&[13, 14, 15], &f(14));
    assert_eq!(selected.which, vec![false, true, false]);
    assert_eq!(selected.mask_constants(&[f(1), f(2), f(3)]), f(2));
    let from_list = FinalizeDomain::SelectFrom { log2s: vec![13, 14, 15], domain_log2: f(14) };
    let side = FinalizeDomain::SideLoadedFrom { log2_size: f(14) };
    for domain in [from_list, side] {
        let d = domain.materialize().unwrap();
        assert_eq!(d.generator_var(), radix2_domain::<Fp>(14).group_gen);
        let e = env(d);
        assert_eq!(e.zk_polynomial, fixed.zk_polynomial);
        assert_eq!(e.zeta_to_n_minus_1, fixed.zeta_to_n_minus_1);
        assert_eq!(e.omega_to_minus_zk_rows, fixed.omega_to_minus_zk_rows);
    }
    assert!(SideLoadedDomain::create(&f(200)).is_none());
}

fn perm_inputs() -> EvalsVar<Fp> {
    EvalsVar {
        w: (20..35).map(|n| (f(10 * n), f(10 * n + 1))).collect(),
        s: (60..66).map(|n| (f(10 * n), f(10 * n + 1))).collect(),
        z: (f(10), f(11)),
    }
}

#[test]
fn the_permutation_scalar_is_minus_its_product() {
    let e = env(FinalizeDomain::Fixed(radix2_domain::<Fp>(10)));
    let evals = perm_inputs();
    // - z(zeta omega) beta alpha^21 zkp prod_i (gamma + beta s_i + w_i)
    let mut product = evals.z.1.mul(&f(5)).mul(&e.alpha_pow(21)).mul(&e.zk_polynomial);
    for (s, w) in evals.s.iter().zip(&evals.w) {
        product = product.mul(&f(7).add(&f(5).mul(&s.0)).add(&w.0));
    }
    assert_eq!(perm_scalar_circuit(&e, &evals), pickles::field::neg(&product));
}

#[test]
fn the_linearization_prefix_is_written_out() {
    let d: Domain<Fp> = radix2_domain(10);
    let e = env(FinalizeDomain::Fixed(d));
    let evals = perm_inputs();
    let shifts: Vec<Fp> = (1..=7).map(f).collect();
    let p_eval0 = [f(99)];
    let (beta, gamma, zeta) = (f(5), f(7), f(11));
    let (a0, a1, a2) = (e.alpha_pow(21), e.alpha_pow(22), e.alpha_pow(23));
    let zkp = e.zk_polynomial;
    // alpha^21 zkp (w_6 + gamma) z(zeta omega) prod_i (beta s_i + w_i + gamma)
    let mut first = evals.w[6].0.add(&gamma).mul(&evals.z.1).mul(&a0).mul(&zkp);
    for (s, w) in evals.s.iter().zip(&evals.w) {
        first = first.mul(&beta.mul(&s.0).add(&w.0).add(&gamma));
    }
    // alpha^21 zkp z prod_i (gamma + beta zeta shift_i + w_i)
    let mut second = a0.mul(&zkp).mul(&evals.z.0);
    for (shift, w) in shifts.iter().zip(&evals.w) {
        second = second.mul(&gamma.add(&beta.mul(&zeta).mul(shift)).add(&w.0));
    }
    let zeta1m1 = e.zeta_to_n_minus_1;
    let wzk = e.omega_to_minus_zk_rows;
    let numerator = zeta1m1
        .mul(&a1)
        .mul(&zeta.sub(&wzk))
        .add(&zeta1m1.mul(&a2).mul(&zeta.sub(&f(1))))
        .mul(&f(1).sub(&evals.z.0));
    let denominator = zeta.sub(&wzk).mul(&zeta.sub(&f(1)));
    let boundary = div(&numerator, &denominator).unwrap();
    let expected = first.sub(&f(99)).sub(&second).add(&boundary);
    assert_eq!(ft_eval0_prefix_circuit(&e, &shifts, &evals, &p_eval0), Some(expected));
}
