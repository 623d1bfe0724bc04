use pickles::api::{BaseCaseBackendError, MinaWrapProof, O1jsWrapProofJson, StepApp};
use pickles::common::{encode_lagrange_basis_jsoo, new_store, JsooPoint, PolyComm, Srs};
use pickles::composition_types::ProofsVerified;
use pickles::curve::Point;
use pickles::field::{from_u64, neg, Fp, Fq};
use pickles::host::{
    decimal_pairs, decimal_rows, decimals, join_lines, key_envelope, parse_fp_bytes,
    parse_fp_decimal, parse_fp_decimals, parse_fp_rows, parse_points, parse_program_branches,
    parse_row_points, proof_envelope, read_side_loaded_rows, recorded_n1_envelope,
    recorded_n2_envelope, run_on_bytes, run_on_texts, rust_pickles_compile_recorded_program,
    rust_pickles_decode_mina_proof_base64, rust_pickles_decode_side_loaded_vk,
    rust_pickles_export_srs, rust_pickles_prove_recorded_base, rust_pickles_prove_recorded_n1,
    rust_pickles_prove_recorded_n2, rust_pickles_recorded_base_envelope,
    rust_pickles_recorded_n1_envelope, rust_pickles_recorded_program_n1_envelope,
    rust_pickles_recorded_program_n2_envelope, rust_pickles_seed_srs_cache_batch,
    rust_pickles_verify_side_loaded, verification_answer, verify_side_loaded_rows, Argument,
    CallError, CompileStep, DecodedKey, DecodedProof, HostError, KernelCensus, KeyDecodingError,
    PointNames, ProgramBranchJson, ProgramError, ProgramMessages, ProofDecodingError,
    RecordedN1Proof, RecordedN2Proof, RecordedProof, SeedEntry, SeedPayload, SideLoadedArguments,
    SideLoadedInputs, SideLoadedRows, SquareApp, StandaloneVerifyError,
};

fn f(n: u64) -> Fp {
    from_u64(n)
}

fn texts(values: &[&str]) -> Vec<String> {
    values.iter().map(|s| s.to_string()).collect()
}

fn pairs(values: &[(&str, &str)]) -> Vec<(String, String)> {
    values.iter().map(|(a, b)| (a.to_string(), b.to_string())).collect()
}

fn wrap_proof() -> MinaWrapProof {
    MinaWrapProof {
        statement: vec![from_u64(5)],
        wrap_wire_proof: vec![1, 2, 3],
        side_loaded_verification_key: "vk".to_string(),
    }
}

#[test]
fn decimals_are_read_modulo_the_prime() {
    assert_eq!(parse_fp_decimal("36", Argument::Witness), Ok(f(36)));
    let p = "28948022309329048855892746252171976963363056481941560715954676764349967630337";
    assert_eq!(parse_fp_decimal(p, Argument::Witness), Ok(f(0)));
    assert_eq!(parse_fp_decimal("-1", Argument::Witness), Ok(neg(&f(1))));
    assert_eq!(
        parse_fp_decimal("0x10", Argument::AppState),
        Err(HostError::Decimal(Argument::AppState))
    );
    assert_eq!(
        parse_fp_decimals(&texts(&["1", "2"]), Argument::Witness),
        Ok(vec![f(1), f(2)])
    );
    assert_eq!(
        parse_fp_decimals(&texts(&["1", ""]), Argument::FirstWitness),
        Err(HostError::Decimal(Argument::FirstWitness))
    );
    assert_eq!(
        parse_fp_rows(&vec![texts(&["1"]), texts(&[])], Argument::Witness),
        Ok(vec![vec![f(1)], vec![]])
    );
    assert_eq!(
        parse_points(&pairs(&[("1", "2")]), Argument::CommitmentX, Argument::CommitmentY),
        Ok(vec![(f(1), f(2))])
    );
    assert_eq!(
        parse_points(&pairs(&[("1", "y")]), Argument::CommitmentX, Argument::CommitmentY),
        Err(HostError::Decimal(Argument::CommitmentY))
    );
    assert_eq!(
        parse_points(&pairs(&[("x", "y")]), Argument::CommitmentX, Argument::CommitmentY),
        Err(HostError::Decimal(Argument::CommitmentX))
    );
}

#[test]
fn decimals_read_back() {
    let values = vec![f(0), f(17), neg(&f(1))];
    assert_eq!(parse_fp_decimals(&decimals(&values), Argument::Witness), Ok(values.clone()));
    assert_eq!(decimal_pairs(&vec![(f(1), f(2))]), pairs(&[("1", "2")]));
    assert_eq!(decimal_rows(&vec![vec![f(3)], vec![]]), vec![texts(&["3"]), texts(&[])]);
}

#[test]
fn bytes_are_read_in_chunks_of_an_element() {
    let mut bytes = vec![0u8; 64];
    bytes[0] = 7;
    bytes[33] = 1;
    assert_eq!(parse_fp_bytes(&bytes, Argument::Witness), Ok(vec![f(7), f(256)]));
    assert_eq!(parse_fp_bytes(&[], Argument::Witness), Ok(vec![]));
    assert_eq!(
        parse_fp_bytes(&bytes[..40], Argument::Witness),
        Err(HostError::ByteLength(Argument::Witness))
    );
    bytes[63] = 0x80;
    assert_eq!(
        parse_fp_bytes(&bytes, Argument::Witness),
        Err(HostError::ByteEncoding(Argument::Witness))
    );
}

#[test]
fn envelopes_hold_what_a_verifier_needs() {
    let base = rust_pickles_recorded_base_envelope(&vec![f(36)], &wrap_proof());
    assert_eq!(base.app_state, texts(&["36"]));
    assert_eq!(base.proof.wrap_wire_proof_base64, "AQID");
    let n1 = recorded_n1_envelope(
        &vec![f(36)],
        &wrap_proof(),
        &(f(1), f(2)),
        &vec![f(3)],
        &vec![(f(4), f(5))],
        Some(2),
    );
    assert_eq!(n1.challenge_polynomial_commitment, ("1".to_string(), "2".to_string()));
    assert_eq!(n1.old_bulletproof_challenges, texts(&["3"]));
    assert_eq!(n1.dlog_plonk_index, pairs(&[("4", "5")]));
    assert_eq!(n1.stable_cycles, Some(2));
    let n2 = recorded_n2_envelope(
        &vec![],
        &wrap_proof(),
        &vec![(f(1), f(2)), (f(3), f(4))],
        &vec![vec![f(5)], vec![f(6)]],
        &vec![],
    );
    assert_eq!(n2.challenge_polynomial_commitments, pairs(&[("1", "2"), ("3", "4")]));
    assert_eq!(n2.old_bulletproof_challenges, vec![texts(&["5"]), texts(&["6"])]);
}

fn messages(accumulators: usize, challenges: usize) -> Option<ProgramMessages> {
    Some(ProgramMessages {
        accumulators: (0..accumulators as u64).map(|i| (f(i), f(i + 10))).collect(),
        challenges: (0..challenges as u64).map(|i| vec![f(i + 20)]).collect(),
        dlog_plonk_index: vec![],
    })
}

#[test]
fn program_envelopes_need_their_accumulators() {
    let state = vec![f(1)];
    let n1 = |m| rust_pickles_recorded_program_n1_envelope(&m, &state, &wrap_proof());
    assert_eq!(n1(None).err(), Some(HostError::NotAProgramProof));
    assert_eq!(n1(messages(0, 1)).err(), Some(HostError::NoAccumulator));
    assert_eq!(n1(messages(1, 0)).err(), Some(HostError::NoChallenges));
    let ok = n1(messages(2, 2)).ok().unwrap();
    assert_eq!(ok.challenge_polynomial_commitment.1, "10");
    assert_eq!(ok.stable_cycles, None);
    let n2 = |m| rust_pickles_recorded_program_n2_envelope(&m, &state, &wrap_proof());
    assert_eq!(n2(None).err(), Some(HostError::NotAProgramProof));
    assert_eq!(n2(messages(1, 2)).err(), Some(HostError::NotTwoAccumulators));
    assert_eq!(n2(messages(2, 3)).err(), Some(HostError::NotTwoAccumulators));
    assert_eq!(n2(messages(2, 2)).ok().unwrap().old_bulletproof_challenges[1], texts(&["21"]));
    assert_eq!(
        rust_pickles_recorded_n1_envelope(&None).err(),
        Some(HostError::NotRecursive)
    );
    assert!(rust_pickles_recorded_n1_envelope(&Some(n1_proof())).is_ok());
}

fn n1_proof() -> RecordedN1Proof {
    RecordedN1Proof {
        app_state: vec![f(9)],
        proof: wrap_proof(),
        challenge_polynomial_commitment: (f(1), f(2)),
        old_bulletproof_challenges: vec![],
        dlog_plonk_index: vec![],
    }
}

fn arguments() -> SideLoadedArguments {
    SideLoadedArguments {
        app_state: texts(&["36"]),
        dlog_plonk_index: None,
        challenge_polynomial_commitments: Some(pairs(&[("1", "2")])),
        old_bulletproof_challenges: Some(vec![texts(&["3"])]),
        proof: Some(wrap_proof().to_o1js_json_value()),
    }
}

#[test]
fn side_loaded_verification_answers_by_the_outcome() {
    let check = |i: &SideLoadedInputs| {
        assert_eq!(i.app_state, vec![f(36)]);
        assert_eq!(i.challenge_polynomial_commitments, vec![(f(1), f(2))]);
        assert_eq!(i.old_bulletproof_challenges, vec![vec![f(3)]]);
        assert!(i.dlog_plonk_index.is_none());
        Ok(())
    };
    assert_eq!(rust_pickles_verify_side_loaded(arguments(), &check), Ok(true));
    let outcome = |e: StandaloneVerifyError| {
        rust_pickles_verify_side_loaded(arguments(), &move |_: &SideLoadedInputs| Err(e))
    };
    assert_eq!(outcome(StandaloneVerifyError::Rejected), Ok(false));
    assert_eq!(
        outcome(StandaloneVerifyError::VerificationKey),
        Err(HostError::VerificationKey)
    );
    assert_eq!(outcome(StandaloneVerifyError::ProofDecoding), Err(HostError::WireProof));
    assert_eq!(verification_answer(Ok(())), Ok(true));
}

#[test]
fn side_loaded_arguments_are_refused_in_order() {
    let never = |_: &SideLoadedInputs| panic!("not to be called");
    let refused = |a: SideLoadedArguments| rust_pickles_verify_side_loaded(a, &never).err().unwrap();
    let mut a = arguments();
    a.app_state = texts(&["?"]);
    a.challenge_polynomial_commitments = None;
    assert_eq!(refused(a), HostError::Decimal(Argument::AppState));
    let mut a = arguments();
    a.dlog_plonk_index = Some(None);
    a.challenge_polynomial_commitments = None;
    assert_eq!(refused(a), HostError::Json(Argument::DlogPlonkIndex));
    let mut a = arguments();
    a.dlog_plonk_index = Some(Some(pairs(&[("1", "?")])));
    assert_eq!(refused(a), HostError::Decimal(Argument::DlogPlonkIndex));
    let mut a = arguments();
    a.challenge_polynomial_commitments = None;
    assert_eq!(refused(a), HostError::Json(Argument::ChallengePolynomialCommitments));
    let mut a = arguments();
    a.challenge_polynomial_commitments = Some(pairs(&[("1", "?")]));
    assert_eq!(refused(a), HostError::Decimal(Argument::CommitmentY));
    let mut a = arguments();
    a.dlog_plonk_index = Some(Some(vec![]));
    a.challenge_polynomial_commitments = Some(pairs(&[("?", "1")]));
    assert_eq!(refused(a), HostError::Decimal(Argument::ChallengePolynomialCommitments));
    let mut a = arguments();
    a.old_bulletproof_challenges = None;
    assert_eq!(refused(a), HostError::Json(Argument::OldBulletproofChallenges));
    let mut a = arguments();
    a.old_bulletproof_challenges = Some(vec![texts(&["?"])]);
    assert_eq!(refused(a), HostError::Decimal(Argument::OldBulletproofChallenges));
    let mut a = arguments();
    a.proof = None;
    assert_eq!(refused(a), HostError::Proof(BaseCaseBackendError::O1jsJsonSerialization));
    let mut a = arguments();
    a.proof = Some(O1jsWrapProofJson { version: 9, ..wrap_proof().to_o1js_json_value() });
    assert_eq!(refused(a), HostError::Proof(BaseCaseBackendError::O1jsJsonVersion(9)));
}

fn branch(proofs_verified: u8, witness: &[&str]) -> ProgramBranchJson<u32> {
    ProgramBranchJson { circuit: 100 + u32::from(proofs_verified), witness: texts(witness), proofs_verified }
}

#[test]
fn branches_compile_by_the_proofs_they_verify() {
    let base = |c: &u32, w: &Vec<Fp>| Ok::<_, String>(format!("base {c} {}", w.len()));
    let donor = |b: &String, _: &Vec<Fp>| Ok::<_, String>(format!("donor of {b}"));
    let n1 = |h: &String, _: &u32, _: &Vec<Fp>| Ok::<_, String>(format!("n1 over {h}"));
    let n2 = |h: &String, g: &String, _: &u32, _: &Vec<Fp>| {
        assert_eq!(h, g);
        Ok::<_, String>(format!("n2 over {h}"))
    };
    let out = rust_pickles_compile_recorded_program(
        vec![branch(0, &["6", "36"]), branch(1, &["6"]), branch(2, &[]), branch(3, &[])],
        &base,
        &donor,
        &n1,
        &n2,
    )
    .unwrap();
    assert_eq!(out[0], ("base 100 2".to_string(), None, None));
    assert_eq!(out[1].1, Some("n1 over donor of base 101 1".to_string()));
    assert_eq!(out[1].2, None);
    assert_eq!(out[2].1, None);
    assert_eq!(out[2].2, Some("n2 over donor of base 102 0".to_string()));
    assert_eq!((&out[3].1, &out[3].2), (&None, &None));

    let bad = rust_pickles_compile_recorded_program(
        vec![branch(0, &["6"]), branch(1, &["x"])],
        &base,
        &donor,
        &n1,
        &n2,
    );
    assert_eq!(bad, Err(ProgramError::Host(HostError::Decimal(Argument::Witness))));
    let fails = |_: &String, _: &u32, _: &Vec<Fp>| Err::<String, _>("no".to_string());
    let bad = rust_pickles_compile_recorded_program(
        vec![branch(0, &["6"]), branch(1, &["6"])],
        &base,
        &donor,
        &fails,
        &n2,
    );
    assert_eq!(bad, Err(ProgramError::Branch(1, CompileStep::N1, "no".to_string())));
    let no_donor = |_: &String, _: &Vec<Fp>| Err::<String, _>("none".to_string());
    let bad = rust_pickles_compile_recorded_program(
        vec![branch(2, &["6"])],
        &base,
        &no_donor,
        &n1,
        &n2,
    );
    assert_eq!(bad, Err(ProgramError::Branch(0, CompileStep::DonorTemplate, "none".to_string())));
    let parsed = parse_program_branches(vec![branch(0, &["1"]), branch(2, &["2"])]).unwrap();
    assert_eq!((parsed[0].circuit, parsed[1].circuit), (100, 102));
    assert_eq!(parsed[1].witness, vec![f(2)]);
}

#[test]
fn provers_run_on_texts_and_bytes() {
    let sum = |c: &u64, w: &Vec<Fp>| {
        if w.is_empty() {
            Err("empty")
        } else {
            Ok(*c + w.len() as u64)
        }
    };
    assert_eq!(run_on_texts(&Some(10), &texts(&["1", "2"]), &sum), Ok(12));
    assert_eq!(run_on_texts(&None, &texts(&["x"]), &sum), Err(CallError::Circuit));
    assert_eq!(
        run_on_texts(&Some(10), &texts(&["x"]), &sum),
        Err(CallError::Host(HostError::Decimal(Argument::Witness)))
    );
    assert_eq!(run_on_texts(&Some(10), &texts(&[]), &sum), Err(CallError::Prover("empty")));
    assert_eq!(run_on_bytes(&Some(10), &[0; 96], &sum), Ok(13));
    assert_eq!(
        run_on_bytes(&Some(10), &[0; 95], &sum),
        Err(CallError::Host(HostError::ByteLength(Argument::Witness)))
    );
    assert_eq!(
        run_on_bytes(&Some(10), &[255; 32], &sum),
        Err(CallError::Host(HostError::ByteEncoding(Argument::Witness)))
    );
    assert_eq!(run_on_bytes(&None, &[0; 1], &sum), Err(CallError::Circuit));
}

#[test]
fn proofs_come_out_as_envelopes() {
    let base = |_: &(), w: &Vec<Fp>| Ok::<_, ()>(RecordedProof { app_state: w.clone(), proof: wrap_proof() });
    let out = rust_pickles_prove_recorded_base(&Some(()), &texts(&["6"]), &base).ok().unwrap();
    assert_eq!(out.app_state, texts(&["6"]));
    let n1 = |_: &(), _: &Vec<Fp>| Ok::<_, ()>((n1_proof(), Some(3)));
    let out = rust_pickles_prove_recorded_n1(&Some(()), &texts(&["6"]), &n1).ok().unwrap();
    assert_eq!((out.app_state, out.stable_cycles), (texts(&["9"]), Some(3)));
    let n2 = |_: &(), a: &Vec<Fp>, b: &Vec<Fp>, s: &Vec<Fp>| {
        Ok::<_, ()>(RecordedN2Proof {
            app_state: vec![a[0], b[0], s[0]],
            proof: wrap_proof(),
            challenge_polynomial_commitments: vec![],
            old_bulletproof_challenges: vec![],
            dlog_plonk_index: vec![],
        })
    };
    let run = |a: &str, b: &str, s: &str| {
        rust_pickles_prove_recorded_n2(&Some(()), &texts(&[a]), &texts(&[b]), &texts(&[s]), &n2)
    };
    assert_eq!(run("1", "2", "3").ok().unwrap().app_state, texts(&["1", "2", "3"]));
    let name = |r: Result<_, CallError<()>>| match r {
        Err(CallError::Host(HostError::Decimal(name))) => name,
        _ => panic!("a text is no number"),
    };
    assert_eq!(name(run("x", "y", "z")), Argument::FirstWitness);
    assert_eq!(name(run("1", "y", "z")), Argument::SecondWitness);
    assert_eq!(name(run("1", "2", "z")), Argument::AppState);
}

#[test]
fn encoded_keys_and_proofs_are_decoded_by_format() {
    let base58 = |t: &str| if t == "good" { Ok(58u8) } else { Err("check") };
    let bytes = |b: &Vec<u8>| if b == &[1, 2, 3] { Ok(64u8) } else { Err("bytes") };
    let run = |t: &str, fmt: &str| rust_pickles_decode_side_loaded_vk(t, fmt, &base58, &bytes);
    assert_eq!(run("good", "base58"), Ok(58));
    assert_eq!(run("bad", "base58"), Err(KeyDecodingError::Base58("check")));
    assert_eq!(run("AQID", "base64"), Ok(64));
    assert_eq!(run("AQI=", "base64"), Err(KeyDecodingError::BinProt("bytes")));
    assert_eq!(run("***", "base64"), Err(KeyDecodingError::Base64));
    assert_eq!(run("good", "hex"), Err(KeyDecodingError::UnknownFormat));

    let mina = |b: &Vec<u8>| if b.len() == 3 { Ok("mina") } else { Err("not mina") };
    let normal = |b: &Vec<u8>| if b.len() == 2 { Ok("normalized") } else { Err("neither") };
    let run = |t: &str| rust_pickles_decode_mina_proof_base64(t, &mina, &normal);
    assert_eq!(run("AQID"), Ok("mina"));
    assert_eq!(run("AQI="), Ok("normalized"));
    assert_eq!(run("AQ=="), Err(ProofDecodingError::BinProt("neither")));
    assert_eq!(run("?"), Err(ProofDecodingError::Base64));
}

#[test]
fn lines_are_joined_and_counts_are_reported() {
    assert_eq!(join_lines(&texts(&[])), "");
    assert_eq!(join_lines(&texts(&["a"])), "a");
    assert_eq!(join_lines(&texts(&["a", "", "b"])), "a\n\nb");
    let mut census = KernelCensus {
        poseidon_permutations: 1,
        msm_calls: 2,
        msm_points: 3,
        msm_calls_big: 4,
        msm_points_big: 5,
        fft_calls: 6,
        fft_elems: 7,
        fft_work: 18446744073709551615,
    };
    let text = "{\"poseidon_permutations\":1,\"msm_calls\":2,\"msm_points\":3,\"msm_calls_big\":4,\"msm_points_big\":5,\"fft_calls\":6,\"fft_elems\":7,\"fft_work\":18446744073709551615}";
    assert_eq!(census.report(false), text);
    assert_eq!(census.report(true), text);
    assert!(census.report(false).contains("\"fft_work\":0}"));
}

fn vesta_point(x: u64, y: u64) -> Option<Point<Fq>> {
    Some(Point { x: from_u64(x), y: from_u64(y) })
}

#[test]
fn batches_count_the_accepted_entries() {
    let create_tick = |_: usize| Srs::new(vec![vesta_point(1, 2)], vesta_point(3, 4));
    let create_tock = |_: usize| Srs::<Fp>::new(vec![], None);
    let comms = || encode_lagrange_basis_jsoo(&[
        PolyComm { chunks: vec![vesta_point(5, 6)] },
        PolyComm { chunks: vec![vesta_point(7, 8)] },
    ]);
    let entry = |curve: &str, domain_log2: i32| SeedEntry { curve: curve.to_string(), domain_log2 };
    let mut store = new_store();
    let entries = vec![
        entry("vesta", -1),
        entry("vesta", 1),
        entry("vesta", 2),
        entry("vesta", -1),
        entry("bn254", -1),
        entry("pallas", 1),
    ];
    let payloads = vec![
        SeedPayload::Malformed,
        SeedPayload::Comms(comms()),
        SeedPayload::Comms(comms()),
        SeedPayload::Malformed,
        SeedPayload::Points(vec![]),
        SeedPayload::Malformed,
    ];
    // the basis of size two alone; a malformed payload is not accepted though the
    // reference string that the basis brought is there
    assert_eq!(
        rust_pickles_seed_srs_cache_batch(&mut store, &entries, &payloads, &create_tick, &create_tock),
        Ok(1)
    );
    assert_eq!(
        rust_pickles_seed_srs_cache_batch(&mut store, &entries, &vec![], &create_tick, &create_tock),
        Err(HostError::EntriesMismatch)
    );
    let exported: Vec<JsooPoint> = rust_pickles_export_srs(&store, "vesta").unwrap();
    assert_eq!(exported.len(), 2);
    assert!(rust_pickles_export_srs(&store, "pallas").is_none());
    assert!(rust_pickles_export_srs(&store, "bn254").is_none());
}

fn rows() -> SideLoadedRows {
    SideLoadedRows {
        app_state: texts(&["36"]),
        dlog_plonk_index: None,
        challenge_polynomial_commitments: vec![texts(&["1", "2"])],
        old_bulletproof_challenges: vec![texts(&["3"])],
        proof: Some(wrap_proof().to_o1js_json_value()),
    }
}

#[test]
fn rows_must_be_pairs() {
    let name = Argument::ChallengePolynomialCommitments;
    let names = PointNames { pair: name, x: Argument::CommitmentX, y: Argument::CommitmentY };
    let good = vec![texts(&["1", "2"]), texts(&["3", "-1"])];
    assert_eq!(
        parse_row_points(&good, names),
        Ok(vec![(f(1), f(2)), (f(3), neg(&f(1)))])
    );
    let refused = |rows: Vec<Vec<String>>| parse_row_points(&rows, names).err().unwrap();
    assert_eq!(refused(vec![texts(&["1"])]), HostError::NotAPair(name));
    assert_eq!(refused(vec![texts(&["1", "2", "3"])]), HostError::NotAPair(name));
    assert_eq!(refused(vec![texts(&["?", "?"])]), HostError::Decimal(Argument::CommitmentX));
    assert_eq!(
        refused(vec![texts(&["1", "?"]), texts(&[])]),
        HostError::Decimal(Argument::CommitmentY)
    );
    assert_eq!(
        HostError::NotAPair(name).message(),
        "challenge_polynomial_commitments: expected [x, y] decimal pairs"
    );
}

#[test]
fn rows_are_read_in_order() {
    let check = |i: &SideLoadedInputs| {
        assert_eq!(i.app_state, vec![f(36)]);
        assert_eq!(i.challenge_polynomial_commitments, vec![(f(1), f(2))]);
        assert_eq!(i.old_bulletproof_challenges, vec![vec![f(3)]]);
        Err(StandaloneVerifyError::Rejected)
    };
    assert_eq!(verify_side_loaded_rows(rows(), &check), Ok(false));
    assert_eq!(read_side_loaded_rows(rows()).ok().unwrap().dlog_plonk_index, None);
    let refused = |a: SideLoadedRows| read_side_loaded_rows(a).err().unwrap();
    let mut a = rows();
    a.dlog_plonk_index = Some(vec![texts(&["1", "2"]), texts(&["1"])]);
    a.challenge_polynomial_commitments = vec![texts(&[])];
    assert_eq!(refused(a), HostError::NotAPair(Argument::DlogPlonkIndex));
    let mut a = rows();
    a.challenge_polynomial_commitments = vec![texts(&["1", "?"])];
    assert_eq!(refused(a), HostError::Decimal(Argument::CommitmentY));
    let mut a = rows();
    a.dlog_plonk_index = Some(vec![]);
    a.challenge_polynomial_commitments = vec![texts(&["1", "?"])];
    assert_eq!(refused(a), HostError::Decimal(Argument::ChallengePolynomialCommitments));
    let mut a = rows();
    a.proof = None;
    assert_eq!(refused(a), HostError::Proof(BaseCaseBackendError::O1jsJsonSerialization));
}

#[test]
fn decoded_envelopes_hold_numbers_decimals_and_lengths() {
    let envelope = key_envelope(DecodedKey {
        max_proofs_verified: ProofsVerified::N2,
        actual_wrap_domain_size: ProofsVerified::N1,
        mina_hash: f(77),
        bin_prot: vec![1, 2, 3],
        base58: "6Mkey".to_string(),
        commitments: vec![(f(1), neg(&f(1)))],
    });
    assert_eq!((envelope.max_proofs_verified, envelope.actual_wrap_domain_size), (2, 1));
    assert_eq!((envelope.mina_hash.as_str(), envelope.base64.as_str()), ("77", "AQID"));
    assert_eq!(envelope.base58, "6Mkey");
    assert_eq!(envelope.commitments[0].0, "1");
    assert_eq!(
        envelope.commitments[0].1,
        "28948022309329048855892746252171976963363056481941560715954676764349967630336"
    );
    let envelope = proof_envelope(&DecodedProof {
        statement: vec![from_u64(5), from_u64(0)],
        bulletproof_lr: vec![(), (), ()],
        wrap_old_bulletproof_challenges: vec![vec![1u8; 15], vec![2; 15]],
        step_challenge_polynomial_commitments: vec!["c"],
        step_old_bulletproof_challenges: vec![vec![0u8; 16]],
    });
    assert_eq!(envelope.statement, texts(&["5", "0"]));
    assert_eq!(envelope.wrap_ipa_rounds, 3);
    assert_eq!(envelope.wrap_old_bulletproof_challenges, vec![15, 15]);
    assert_eq!(envelope.step_challenge_polynomial_commitments, 1);
    assert_eq!(envelope.step_old_bulletproof_challenges, vec![16]);
}

#[test]
fn the_square_application_exposes_the_square() {
    assert_eq!(SquareApp.state(&f(6)), vec![f(36)]);
}

#[test]
fn refusals_say_what_was_wrong() {
    let text = |e: HostError| e.message();
    assert_eq!(
        text(HostError::Decimal(Argument::Witness)),
        "witness: expected decimal Pasta Fp field"
    );
    assert_eq!(
        text(HostError::Decimal(Argument::CommitmentX)),
        "commitment x: expected decimal Pasta Fp field"
    );
    assert_eq!(
        text(HostError::ByteLength(Argument::Witness)),
        "witness: expected a multiple of 32 canonical Fp bytes"
    );
    assert_eq!(
        text(HostError::ByteEncoding(Argument::FirstWitness)),
        "first_witness: non-canonical Pasta Fp encoding"
    );
    assert_eq!(
        text(HostError::Json(Argument::DlogPlonkIndex)),
        "invalid dlog_plonk_index"
    );
    assert_eq!(text(HostError::WireProof), "invalid wrap wire proof");
    assert_eq!(
        text(HostError::NotTwoAccumulators),
        "program proof does not carry two accumulators"
    );
    assert_eq!(
        text(HostError::EntriesMismatch),
        "seed entries/payloads length mismatch"
    );
}
