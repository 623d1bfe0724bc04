use ark_ec::{AffineRepr, CurveGroup};
use ark_ff::PrimeField as _;
use pickles::api::{
    base_case_digest, base_case_statement, bootstrap_points, build_base_case, claimed_xi,
    encodings_equal,
    fp_to_fq, prove_base_case_two_pass, wrap_index_source, wrap_verification_key_points,
    BaseCaseBackendError, BaseCaseBuild, BaseCaseProof, BaseCaseRuleBackend, CompiledBaseCase,
    IndexSource, InductiveRule, KeyIndex, MinaWrapProof, O1jsWrapProofJson, ProvedStep, RuleId,
    SideLoadedKeyWitness, SideLoadedStepCircuit, StepCircuit, StepProofParts, StepSetup,
    WrapTranscript,
};
use pickles::commitments::ShiftedScalar;
use pickles::common::PolyComm;
use pickles::composition_types::ProofsVerified;
use pickles::curve::Point;
use pickles::field::{from_u64, neg, Fp, Fq, PrimeField};
use pickles::fr_sponge::AbsorbEvalsVar;
use pickles::host::SquareApp;
use pickles::sponge::SpongeOp;
use pickles::wrap_circuit::{WrapBranchData, WrapCircuit, WrapStepStatementSlot};

fn pallas(k: u64) -> Point<Fp> {
    let p = (ark_pallas::Affine::generator() * ark_pallas::Fr::from(k)).into_affine();
    Point {
        x: Fp::from_limbs(p.x.into_bigint().0).unwrap(),
        y: Fp::from_limbs(p.y.into_bigint().0).unwrap(),
    }
}

fn vesta(k: u64) -> Point<Fq> {
    let p = (ark_vesta::Affine::generator() * ark_vesta::Fr::from(k)).into_affine();
    Point {
        x: Fq::from_limbs(p.x.into_bigint().0).unwrap(),
        y: Fq::from_limbs(p.y.into_bigint().0).unwrap(),
    }
}

fn comm<F: PrimeField>(p: Point<F>) -> PolyComm<F> {
    PolyComm { chunks: vec![Some(p)] }
}

fn key<F: PrimeField>(make: fn(u64) -> Point<F>, domain_log2: u32) -> KeyIndex<F> {
    KeyIndex {
        sigma_comm: (1..=7).map(|k| comm(make(k))).collect(),
        coefficients_comm: (8..=22).map(|k| comm(make(k))).collect(),
        generic_comm: comm(make(23)),
        psm_comm: comm(make(24)),
        complete_add_comm: comm(make(25)),
        mul_comm: comm(make(26)),
        emul_comm: comm(make(27)),
        endomul_scalar_comm: comm(make(28)),
        domain_log2,
    }
}

fn toy_sponge(ops: &Vec<SpongeOp<Fp>>) -> Fp {
    let mut state: Fp = from_u64(2);
    for op in ops {
        let step = match op {
            SpongeOp::Absorb(x) => *x,
            SpongeOp::Squeeze => from_u64(1),
        };
        state = state.mul(&state).add(&step);
    }
    state
}

fn toy_sponge_fq(ops: &Vec<SpongeOp<Fq>>) -> Fq {
    from_u64(ops.len() as u64)
}

fn mina_proof() -> MinaWrapProof {
    MinaWrapProof {
        statement: vec![from_u64(5), neg(&from_u64(1)), from_u64(0)],
        wrap_wire_proof: vec![0, 1, 2, 253, 254, 255],
        side_loaded_verification_key: "6Mkey".to_string(),
    }
}

#[test]
fn envelopes_round_trip() {
    let proof = mina_proof();
    let json = proof.to_o1js_json_value();
    assert_eq!(json.version, 1);
    assert_eq!(json.statement[0], "5");
    assert_eq!(
        json.statement[1],
        "28948022309329048855892746252171976963363056481941647379679742748393362948096"
    );
    assert_eq!(json.wrap_wire_proof_base64, "AAEC/f7/");
    assert_eq!(json.side_loaded_verification_key_base58, "6Mkey");
    let back = MinaWrapProof::from_o1js_json_value(json).unwrap();
    assert!(encodings_equal(&back, &proof));
}

#[test]
fn envelopes_are_refused_for_the_first_thing_that_does_not_read() {
    let good = mina_proof().to_o1js_json_value();
    let read = |json: O1jsWrapProofJson| MinaWrapProof::from_o1js_json_value(json).err();
    let version = O1jsWrapProofJson { version: 2, statement: vec!["x".to_string()], ..good.clone() };
    assert_eq!(read(version), Some(BaseCaseBackendError::O1jsJsonVersion(2)));
    let field = O1jsWrapProofJson {
        statement: vec!["12".to_string(), "x".to_string()],
        wrap_wire_proof_base64: "!".to_string(),
        ..good.clone()
    };
    assert_eq!(read(field), Some(BaseCaseBackendError::O1jsJsonField));
    let bytes = O1jsWrapProofJson { wrap_wire_proof_base64: "!".to_string(), ..good };
    assert_eq!(read(bytes), Some(BaseCaseBackendError::O1jsJsonProofBytes));
}

#[test]
fn keys_list_their_points_in_order() {
    let points = wrap_verification_key_points(&key(pallas, 13));
    assert_eq!(points.len(), 28);
    for (i, p) in points.iter().enumerate() {
        assert_eq!(*p, pallas(i as u64 + 1));
    }
    let placeholders = bootstrap_points(&pallas(1));
    assert_eq!(placeholders, points.iter().map(|p| Some(*p)).collect::<Vec<_>>());
    let branch = WrapBranchData::from_step_verifier(&key(vesta, 9), 2);
    assert_eq!((branch.proofs_verified, branch.step_domain_log2), (2, 9));
    assert_eq!(branch.sigma_init.len(), 6);
    assert_eq!(branch.sigma_last, vec![(vesta(7).x, vesta(7).y)]);
    assert_eq!(fp_to_fq(&neg(&from_u64(1))).to_limbs(), neg::<Fp>(&from_u64(1)).to_limbs());
}

#[test]
fn step_circuits_check_the_digest_and_the_key() {
    let vk: Vec<Point<Fp>> = (1..=28).map(pallas).collect();
    let state: Vec<Fp> = vec![from_u64(36)];
    let digest = base_case_digest(&toy_sponge, &vk, &state);
    assert!(StepCircuit::circuit(&toy_sponge, &state, &vk, &digest));
    assert!(!StepCircuit::circuit(&toy_sponge, &[from_u64(37)], &vk, &digest));
    let mut off = vk.clone();
    off[5].y = off[5].y.add(&from_u64(1));
    let off_digest = base_case_digest(&toy_sponge, &off, &state);
    assert!(!StepCircuit::circuit(&toy_sponge, &state, &off, &off_digest));

    let rule = InductiveRule {
        id: RuleId(3),
        proofs_verified: ProofsVerified::N1,
        step_domain_log2: 16,
    };
    let circuit = SideLoadedStepCircuit { rule };
    let witness = |log2: u8, width: u8, wrap: u8| SideLoadedKeyWitness {
        step_domain_log2: log2,
        proofs_verified: width,
        wrap_domain_log2: wrap,
        commitments: vk.clone(),
    };
    assert!(circuit.circuit(&toy_sponge, &state, &witness(16, 1, 14), &digest));
    assert!(!circuit.circuit(&toy_sponge, &state, &witness(15, 1, 14), &digest));
    assert!(!circuit.circuit(&toy_sponge, &state, &witness(16, 2, 14), &digest));
    assert!(!circuit.circuit(&toy_sponge, &state, &witness(16, 1, 13), &digest));
}

fn base_rule(proofs_verified: ProofsVerified) -> InductiveRule {
    InductiveRule { id: RuleId(7), proofs_verified, step_domain_log2: 16 }
}

#[test]
fn backends_take_base_rules_alone() {
    let backend = BaseCaseRuleBackend::compile(&base_rule(ProofsVerified::N0), SquareApp).unwrap();
    assert_eq!(backend.rule_id(), RuleId(7));
    assert_eq!(
        BaseCaseRuleBackend::compile(&base_rule(ProofsVerified::N2), SquareApp).err(),
        Some(BaseCaseBackendError::ExpectedBaseRule(RuleId(7)))
    );
    let prover = |_: &SquareApp, w: Fp| w.add(&from_u64(1));
    assert_eq!(
        backend.prove(&vec![from_u64(36)], from_u64(6), &prover),
        Ok(from_u64::<Fp>(7))
    );
    assert_eq!(
        backend.prove(&vec![from_u64(35)], from_u64(6), &prover),
        Err(BaseCaseBackendError::PublicStateMismatch)
    );
    let encode = |_: &Fp| Ok(mina_proof());
    let refuse = |_: &Fp| Err(BaseCaseBackendError::MinaProofEncoding);
    assert!(backend
        .prove_with_mina_encoding(&vec![from_u64(36)], from_u64(6), &prover, &encode)
        .is_ok());
    assert_eq!(
        backend
            .prove_with_mina_encoding(&vec![from_u64(36)], from_u64(6), &prover, &refuse)
            .err(),
        Some(BaseCaseBackendError::MinaProofEncoding)
    );
}

#[test]
fn verification_refuses_for_the_first_thing_that_is_wrong() {
    let backend = BaseCaseRuleBackend::compile(&base_rule(ProofsVerified::N0), SquareApp).unwrap();
    let state: Vec<Fp> = vec![from_u64(36)];
    let vk: Vec<Point<Fp>> = (1..=28).map(pallas).collect();
    let digest = base_case_digest(&toy_sponge, &vk, &state);
    let mut statement: Vec<Fq> = vec![from_u64(0); 40];
    statement[12] = fp_to_fq(&digest);
    let make = |statement: &Vec<Fq>, vk: &Vec<Point<Fp>>| BaseCaseProof {
        statement: statement.clone(),
        wrap_vk_pts: vk.clone(),
        wrap_index: key(pallas, 13),
    };
    let yes = |_: &Vec<Fq>| true;
    let no = |_: &Vec<Fq>| false;
    let good = make(&statement, &vk);
    assert_eq!(backend.verify(&state, &good, 40, &toy_sponge, &yes), Ok(()));
    assert_eq!(
        backend.verify(&state, &good, 40, &toy_sponge, &no),
        Err(BaseCaseBackendError::InvalidWrapProof)
    );
    assert_eq!(
        backend.verify(&vec![from_u64(35)], &good, 40, &toy_sponge, &yes),
        Err(BaseCaseBackendError::PublicStateMismatch)
    );
    assert_eq!(
        backend.verify(&state, &good, 39, &toy_sponge, &yes),
        Err(BaseCaseBackendError::InvalidStatementLength(40))
    );
    let mut other = vk.clone();
    other.swap(0, 1);
    assert_eq!(
        backend.verify(&state, &make(&statement, &other), 39, &toy_sponge, &yes),
        Err(BaseCaseBackendError::WrapKeyMismatch)
    );

    let wire = || Some(vec![1u8, 2]);
    let text = || Some("key".to_string());
    let encoded = good.to_mina_network_proof(wire(), text()).unwrap();
    let check = |wire, key, encoded: &MinaWrapProof, p: bool, k: bool| {
        backend.verify_with_mina_encoding(
            &state, &good, 40, &toy_sponge, &yes, wire, key, encoded, p, k,
        )
    };
    assert_eq!(check(wire(), text(), &encoded, true, true), Ok(()));
    assert_eq!(
        check(wire(), text(), &mina_proof(), true, true),
        Err(BaseCaseBackendError::MinaEncodingMismatch)
    );
    assert_eq!(
        check(wire(), text(), &encoded, false, false),
        Err(BaseCaseBackendError::MinaProofEncoding)
    );
    assert_eq!(
        check(wire(), text(), &encoded, true, false),
        Err(BaseCaseBackendError::MinaVerificationKeyEncoding)
    );
    assert_eq!(
        check(None, None, &encoded, true, true),
        Err(BaseCaseBackendError::MinaProofEncoding)
    );
    assert_eq!(
        check(wire(), None, &encoded, true, true),
        Err(BaseCaseBackendError::MinaVerificationKeyEncoding)
    );
}

fn setup() -> StepSetup {
    let p = |k: u64| (vesta(k).x, vesta(k).y);
    StepSetup {
        index: key(vesta, 9),
        vk_digest: from_u64(500),
        srs_h: p(60),
        l0: p(61),
        correction: p(62),
    }
}

fn parts() -> StepProofParts {
    StepProofParts {
        w_comm: (30..45).map(|k| comm(vesta(k))).collect(),
        z_comm: comm(vesta(45)),
        t_comm: PolyComm { chunks: (46..53).map(|k| Some(vesta(k))).collect() },
        lr: (0..16).map(|i| (Some(vesta(70 + i)), Some(vesta(90 + i)))).collect(),
        delta: Some(vesta(53)),
        sg: Some(vesta(54)),
        prev_challenges: vec![],
    }
}

fn transcript() -> WrapTranscript {
    WrapTranscript {
        alpha_raw: from_u64(107),
        beta_raw: from_u64(105),
        gamma_raw: from_u64(106),
        zeta_raw: from_u64(108),
        zeta_to_srs_length_repr: from_u64(102),
        zeta_to_domain_size_repr: from_u64(103),
        perm_repr: from_u64(104),
        cip_repr: from_u64(100),
        b_repr: from_u64(101),
        z1_repr: from_u64(120),
        z2_repr: from_u64(121),
        sponge_digest: from_u64(110),
        bulletproof_prechallenges: (200..216).map(from_u64).collect(),
    }
}

fn stream(i: usize) -> u128 {
    i as u128 + 1
}

fn to_field(x: Fq) -> Fq {
    x.add(&from_u64(1))
}

fn evals() -> AbsorbEvalsVar<Fp> {
    let pair = |k: u64| (vec![from_u64(2 * k)], vec![from_u64(2 * k + 1)]);
    AbsorbEvalsVar {
        z: pair(1),
        generic_selector: pair(2),
        poseidon_selector: pair(3),
        complete_add_selector: pair(4),
        mul_selector: pair(5),
        emul_selector: pair(6),
        endomul_scalar_selector: pair(7),
        w: vec![pair(8), pair(9)],
        coefficients: vec![pair(10)],
        s: vec![pair(11)],
    }
}

fn proved() -> ProvedStep {
    ProvedStep {
        parts: parts(),
        transcript: transcript(),
        oracle_digest: from_u64(300),
        ft_eval1: from_u64(301),
        public_evals: (vec![from_u64(302)], vec![from_u64(303)]),
        evals: evals(),
    }
}

/// The challenge of the second transcript of [`proved`].
fn expected_xi() -> Fp {
    let none = toy_sponge(&vec![SpongeOp::Squeeze]);
    let mut ops: Vec<SpongeOp<Fp>> = [from_u64(300), none].map(SpongeOp::Absorb).to_vec();
    ops.extend((301..304).map(|k| SpongeOp::Absorb(from_u64(k))));
    ops.extend((2..24).map(|k| SpongeOp::Absorb(from_u64(k))));
    ops.push(SpongeOp::Squeeze);
    let limbs = toy_sponge(&ops).to_limbs();
    Fp::from_limbs([limbs[0], limbs[1], 0, 0]).unwrap()
}

fn wrap_points() -> Vec<Point<Fp>> {
    (1..=28).map(pallas).collect()
}

#[test]
fn a_built_proof_passes_through_the_wrap_circuit() {
    let digest = base_case_digest(&toy_sponge, &wrap_points(), &[from_u64(36)]);
    let prove = |_: &SquareApp, w: Fp, points: &Vec<Point<Fp>>, d: &Fp| {
        assert_eq!((w, points.len(), *d), (from_u64(6), 28, digest));
        proved()
    };
    let generator = (vesta(1).x, vesta(1).y);
    let built = build_base_case::<_, _, _, _, _, _, 16, 40>(
        &SquareApp,
        from_u64(6),
        wrap_points(),
        true,
        &setup(),
        generator,
        &prove,
        &toy_sponge,
        &toy_sponge_fq,
        &stream,
        &to_field,
    );
    let (statement, witness) = match built {
        BaseCaseBuild::Proof { statement, witness, old_bulletproof_challenges, wrap_vk_pts } => {
            assert_eq!(old_bulletproof_challenges.len(), 2);
            // the stream is stored backwards
            assert_eq!(old_bulletproof_challenges[0][14], from_u64::<Fq>(1));
            assert_eq!(old_bulletproof_challenges[1][0], from_u64::<Fq>(15));
            assert_eq!(wrap_vk_pts, wrap_points());
            (statement, witness)
        }
        BaseCaseBuild::Compiled { .. } => panic!("a proof was asked for"),
    };
    let xi = expected_xi();
    assert_eq!(claimed_xi(&toy_sponge, &proved()), xi);
    // two rows of fifteen dummies, two coordinates and the squeeze
    let wrap_digest: Fq = from_u64(33);
    let head = [100, 101, 102, 103, 104, 105, 106, 107, 108];
    for (i, n) in head.iter().enumerate() {
        assert_eq!(statement[i], from_u64(*n));
    }
    assert_eq!(statement[9], fp_to_fq(&xi));
    assert_eq!(statement[10], from_u64(110));
    assert_eq!(statement[11], wrap_digest);
    assert_eq!(statement[12], fp_to_fq(&digest));
    assert_eq!(statement[13], from_u64(200));
    assert_eq!(statement[28], from_u64(215));
    assert_eq!(statement[29], from_u64(36));
    assert!(statement[30..].iter().all(|x| *x == from_u64(0)));
    assert_eq!(
        base_case_statement(&transcript(), &xi, &digest, &wrap_digest, 9),
        statement
    );

    let stmt: [Fq; 40] = statement.try_into().unwrap();
    let mds = vec![];
    let circuit = WrapCircuit::<16, 40> { w: None };
    let inputs = circuit.circuit(&stmt, Some(&witness), &[], &mds).unwrap();
    assert!(inputs.is_base_case);
    assert_eq!(inputs.xi, fp_to_fq(&xi));
    assert_eq!(inputs.new_acc_dummies.len(), 2);
    // the dummies of the new accumulator are those of the stream, in field form
    assert_eq!(inputs.new_acc_dummies[0][14], from_u64(2));
    assert_eq!(inputs.claimed.bulletproof_challenges.len(), 16);
    assert_eq!(inputs.vk.sigma_last, vec![vesta(7)]);
    assert_eq!(inputs.openings.challenge_polynomial_commitment, vesta(54));
    assert_eq!(inputs.messages.t_comm.len(), 7);
    match inputs.advice.b {
        ShiftedScalar::Type1(b) => assert_eq!(b, from_u64(101)),
        ShiftedScalar::Type2(..) => panic!("the wrap side shifts once"),
    }

    // a forbidden shifted value, a wrong branch, and a point off the curve
    assert!(circuit.circuit(&stmt, Some(&witness), &[from_u64(101)], &mds).is_none());
    assert!(circuit.circuit(&stmt, Some(&witness), &[from_u64(121)], &mds).is_none());
    let mut wrong = stmt;
    wrong[29] = from_u64(37);
    assert!(circuit.circuit(&wrong, Some(&witness), &[], &mds).is_none());
    let mut off = witness;
    off.delta.0 = from_u64(1);
    off.delta.1 = from_u64(1);
    assert!(circuit.circuit(&stmt, Some(&off), &[], &mds).is_none());
}

#[test]
fn compiling_gives_a_witness_of_the_right_shape() {
    let generator = (vesta(1).x, vesta(1).y);
    let never = |_: &SquareApp, _: Fp, _: &Vec<Point<Fp>>, _: &Fp| -> ProvedStep {
        panic!("nothing is proved")
    };
    let built = build_base_case::<_, _, _, _, _, _, 16, 40>(
        &SquareApp,
        from_u64(6),
        wrap_points(),
        false,
        &setup(),
        generator,
        &never,
        &toy_sponge,
        &toy_sponge_fq,
        &stream,
        &to_field,
    );
    let witness = match built {
        BaseCaseBuild::Compiled { witness } => witness,
        BaseCaseBuild::Proof { .. } => panic!("no proof was asked for"),
    };
    assert_eq!(witness.w_comm, vec![generator; 15]);
    assert_eq!(witness.t_comm.len(), 7);
    assert_eq!(witness.lr.len(), 16);
    assert_eq!(witness.step_domain_log2, 9);
    assert_eq!(witness.generic, (vesta(23).x, vesta(23).y));
    assert!(matches!(witness.step_statement[0], WrapStepStatementSlot::Packed { .. }));
}

#[test]
fn indexes_are_given_cached_or_compiled() {
    assert_eq!(wrap_index_source(true, true, true), IndexSource::Given);
    assert_eq!(wrap_index_source(false, true, true), IndexSource::Cached);
    assert_eq!(wrap_index_source(false, true, false), IndexSource::Compiled);
    assert_eq!(wrap_index_source(false, false, false), IndexSource::Compiled);
}

#[test]
fn compiled_cases_prove_one_after_another() {
    let build = |app: &u8, points: &Vec<Option<Point<Fp>>>| {
        assert_eq!(points.len(), 28);
        (u64::from(*app), "wrap".to_string(), key(pallas, 13))
    };
    let mut compiled = CompiledBaseCase::compile(9u8, &pallas(1), &build);
    assert_eq!(compiled.wrap_vk_pts[27], pallas(28));
    let prove = |app: &u8, w: u64, vk: &Vec<Point<Fp>>, step: u64, wrap: String| {
        (u64::from(*app) + w + vk.len() as u64 + step, step + 1, wrap)
    };
    assert_eq!(compiled.prove(100, &prove), 9 + 100 + 28 + 9);
    assert_eq!(compiled.prove(100, &prove), 9 + 100 + 28 + 10);
    assert_eq!(compiled.step_indexes, Some(11));
}

#[test]
fn two_passes_must_end_with_one_key() {
    let discover = |_: &Vec<Option<Point<Fp>>>| (5u8, key(pallas, 13));
    let stable = |points: &Vec<Point<Fp>>, shared: u8| {
        assert_eq!(points[0], pallas(1));
        (shared + 1, key(pallas, 13))
    };
    assert_eq!(prove_base_case_two_pass(&pallas(1), &discover, &stable), Some(6));
    let moved = |_: &Vec<Point<Fp>>, shared: u8| {
        let mut k = key(pallas, 13);
        k.mul_comm = comm(pallas(1000));
        (shared, k)
    };
    assert_eq!(prove_base_case_two_pass(&pallas(1), &discover, &moved), None);
}

#[test]
fn built_statements_bind_the_state() {
    let backend = BaseCaseRuleBackend::compile(&base_rule(ProofsVerified::N0), SquareApp).unwrap();
    let state: Vec<Fp> = vec![from_u64(36)];
    let vk: Vec<Point<Fp>> = (1..=28).map(pallas).collect();
    let digest = base_case_digest(&toy_sponge, &vk, &state);
    let statement =
        base_case_statement(&transcript(), &from_u64(109), &digest, &from_u64(33), 9);
    let proof = BaseCaseProof { statement, wrap_vk_pts: vk, wrap_index: key(pallas, 13) };
    let yes = |_: &Vec<Fq>| true;
    assert_eq!(backend.verify(&state, &proof, 40, &toy_sponge, &yes), Ok(()));
    assert_eq!(
        backend.verify(&vec![from_u64(37)], &proof, 40, &toy_sponge, &yes),
        Err(BaseCaseBackendError::PublicStateMismatch)
    );
}
