use pickles::all_evals::{AllEvals, PointEvaluations, ProofEvaluations};
use pickles::field::{from_u64, Fp};

fn pair(k: u64) -> PointEvaluations<Vec<Fp>> {
    PointEvaluations {
        zeta: vec![from_u64(2 * k), from_u64(2 * k + 1000)],
        zeta_omega: vec![from_u64(2 * k + 1), from_u64(2 * k + 1001)],
    }
}

fn columns() -> ProofEvaluations<PointEvaluations<Vec<Fp>>> {
    ProofEvaluations {
        public: None,
        w: (0..15).map(pair).collect(),
        z: pair(20),
        s: (30..36).map(pair).collect(),
        coefficients: (40..55).map(pair).collect(),
        generic_selector: pair(60),
        poseidon_selector: pair(61),
        complete_add_selector: pair(62),
        mul_selector: pair(63),
        emul_selector: pair(64),
        endomul_scalar_selector: pair(65),
        range_check0_selector: Some(pair(66)),
        range_check1_selector: None,
        foreign_field_add_selector: None,
        foreign_field_mul_selector: None,
        xor_selector: None,
        rot_selector: None,
        lookup_aggregation: None,
        lookup_table: None,
        lookup_sorted: vec![None, Some(pair(70)), None],
        runtime_lookup_table: None,
        runtime_lookup_table_selector: None,
        xor_lookup_selector: None,
        lookup_gate_lookup_selector: None,
        range_check_lookup_selector: None,
        foreign_field_mul_lookup_selector: None,
    }
}

#[test]
fn factor_matches_proof_evals() {
    let evals = columns();
    let public_evals: [Vec<Fp>; 2] = [vec![from_u64(7)], vec![from_u64(8)]];
    let ft_eval1: Fp = from_u64(9);
    let all = AllEvals::from_parts(evals.clone(), public_evals.clone(), ft_eval1);
    assert_eq!(all.public_input.zeta, public_evals[0]);
    assert_eq!(all.public_input.zeta_omega, public_evals[1]);
    let (at_zeta, at_zetaw) = all.factor();

    assert_eq!(at_zeta.public_input, public_evals[0]);
    assert_eq!(at_zetaw.public_input, public_evals[1]);
    assert_eq!(at_zeta.evals.z, evals.z.zeta);
    assert_eq!(at_zetaw.evals.z, evals.z.zeta_omega);
    assert_eq!(at_zeta.evals.w[0], evals.w[0].zeta);
    assert_eq!(at_zetaw.evals.w[0], evals.w[0].zeta_omega);
    assert_eq!(at_zeta.evals.generic_selector, evals.generic_selector.zeta);
    assert_eq!(all.ft_eval1, ft_eval1);

    assert_eq!(at_zeta.evals.lookup_sorted[1], Some(pair(70).zeta));
    assert_eq!(at_zetaw.evals.range_check0_selector, Some(pair(66).zeta_omega));
    assert!(at_zeta.evals.public.is_none());
    assert_eq!(at_zetaw.evals.s.len(), 6);
}
