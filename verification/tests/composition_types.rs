use pickles::common::TOCK_ROUNDS;
use pickles::composition_types::{
    front_pad_proof_slots, plonk, step, wrap, BranchData, BulletproofChallenge, DeferredValues,
    Features, MessagesForNextStepProof, PlonkVerificationKeyEvals, ProofSlot, ProofsVerified,
    ScalarChallenge,
};
use pickles::field::{from_u64, Fq};

type Chal = Fq;
type WrapDeferredValues = DeferredValues<
    plonk::Minimal<Chal, ScalarChallenge<Chal>, bool>,
    Fq,
    ScalarChallenge<Chal>,
    Vec<BulletproofChallenge<ScalarChallenge<Chal>>>,
    (),
>;

fn fq(n: u64) -> Fq {
    from_u64(n)
}

#[test]
fn construct_wrap_deferred_values() {
    let dv: WrapDeferredValues = DeferredValues {
        plonk: plonk::Minimal {
            alpha: ScalarChallenge(fq(1)),
            beta: fq(2),
            gamma: fq(3),
            zeta: ScalarChallenge(fq(4)),
            joint_combiner: None,
            feature_flags: Features::none(),
        },
        combined_inner_product: fq(5),
        b: fq(6),
        xi: ScalarChallenge(fq(7)),
        bulletproof_challenges: (0..TOCK_ROUNDS)
            .map(|i| BulletproofChallenge {
                prechallenge: ScalarChallenge(fq(i as u64)),
            })
            .collect(),
        branch_data: (),
    };
    assert_eq!(dv.bulletproof_challenges.len(), TOCK_ROUNDS);
    assert_eq!(dv.plonk.feature_flags, Features::none());
}

#[test]
fn proof_slots_are_front_padded_to_width_two() {
    assert_eq!(ProofsVerified::N0.prefix_mask(), [false, false]);
    assert_eq!(ProofsVerified::N1.prefix_mask(), [false, true]);
    assert_eq!(ProofsVerified::N2.prefix_mask(), [true, true]);
    assert_eq!(
        front_pad_proof_slots(vec![7u64]),
        [ProofSlot::Dummy, ProofSlot::Proof(7)]
    );
    assert_eq!(
        front_pad_proof_slots(vec![7u64, 8]),
        [ProofSlot::Proof(7), ProofSlot::Proof(8)]
    );
    assert_eq!(
        front_pad_proof_slots(Vec::<u64>::new()),
        [ProofSlot::Dummy, ProofSlot::Dummy]
    );
}

#[test]
fn features_to_data_order_round_trips() {
    let features = Features {
        range_check0: true,
        range_check1: false,
        foreign_field_add: true,
        foreign_field_mul: false,
        xor: true,
        rot: false,
        lookup: true,
        runtime_tables: false,
    };
    assert_eq!(
        features.to_data(),
        [true, false, true, false, true, false, true, false]
    );
    assert_eq!(Features::from_data(features.to_data()), features);
}

#[test]
fn features_map_applies_to_each_flag() {
    let features = Features::of_bool(true).map(|b: &bool| !b);
    assert_eq!(features, Features::none());
    let mut calls = 0;
    let numbered = features.map(|_| {
        calls += 1;
        calls
    });
    assert_eq!(numbered.to_data(), [1, 2, 3, 4, 5, 6, 7, 8]);
}

#[test]
fn messages_for_next_wrap_to_field_elements() {
    let msg = wrap::MessagesForNextWrapProof {
        challenge_polynomial_commitment: (fq(10), fq(11)),
        old_bulletproof_challenges: vec![vec![fq(1), fq(2)], vec![fq(3), fq(4)]],
    };
    let fe = msg.to_field_elements(|(x, y): &(Fq, Fq)| vec![*x, *y]);
    assert_eq!(fe, vec![fq(1), fq(2), fq(3), fq(4), fq(10), fq(11)]);
}

#[test]
fn messages_for_next_step_to_field_elements_order() {
    let comm = |i| (fq(i), fq(100 + i));
    let msg = MessagesForNextStepProof {
        app_state: vec![fq(1), fq(2)],
        dlog_plonk_index: PlonkVerificationKeyEvals {
            sigma_comm: (10..17).map(comm).collect(),
            coefficients_comm: (20..35).map(comm).collect(),
            generic_comm: comm(40),
            psm_comm: comm(41),
            complete_add_comm: comm(42),
            mul_comm: comm(43),
            emul_comm: comm(44),
            endomul_scalar_comm: comm(45),
        },
        challenge_polynomial_commitments: vec![comm(50), comm(51)],
        old_bulletproof_challenges: vec![vec![fq(3), fq(4)], vec![fq(5), fq(6)]],
    };
    let app = |xs: &Vec<Fq>| xs.clone();
    let point = |(x, y): &(Fq, Fq)| vec![*x, *y];

    let without = msg.to_field_elements_without_index(app, point);
    assert_eq!(
        without,
        vec![
            fq(1),
            fq(2),
            fq(50),
            fq(150),
            fq(3),
            fq(4),
            fq(51),
            fq(151),
            fq(5),
            fq(6),
        ]
    );

    let with = msg.to_field_elements(app, point, point);
    let index_len = (7 + 15 + 6) * 2;
    assert_eq!(&with[index_len..], without.as_slice());
    assert_eq!(&with[..4], &[fq(10), fq(110), fq(11), fq(111)]);
}

#[test]
fn branch_data_pack_unpack_round_trips() {
    for proofs_verified in [ProofsVerified::N0, ProofsVerified::N1, ProofsVerified::N2] {
        let branch = BranchData {
            proofs_verified,
            domain_log2: 15,
        };
        assert_eq!(BranchData::unpack(branch.pack::<Fq>()), branch);
    }
}

#[test]
fn branch_data_unpacks_the_low_ten_bits() {
    let branch = BranchData::unpack(fq(1024 + 255 * 4 + 1));
    assert_eq!(branch.proofs_verified, ProofsVerified::N1);
    assert_eq!(branch.domain_log2, 255);
}

fn in_circuit(
    alpha: u64,
    beta: u64,
    gamma: u64,
    zeta: u64,
) -> plonk::InCircuit<Fq, ScalarChallenge<Fq>, bool> {
    plonk::InCircuit {
        alpha: ScalarChallenge(fq(alpha)),
        beta: fq(beta),
        gamma: fq(gamma),
        zeta: ScalarChallenge(fq(zeta)),
        zeta_to_srs_length: fq(102),
        zeta_to_domain_size: fq(103),
        perm: fq(104),
        feature_flags: Features::none(),
        joint_combiner: None,
    }
}

fn challenges(count: usize) -> Vec<BulletproofChallenge<ScalarChallenge<Fq>>> {
    (0..count)
        .map(|i| BulletproofChallenge {
            prechallenge: ScalarChallenge(fq(200 + i as u64)),
        })
        .collect()
}

#[test]
fn wrap_statement_to_field_elements_order() {
    let plonk = in_circuit(107, 105, 106, 108);
    let bp = challenges(16);
    let branch = BranchData {
        proofs_verified: ProofsVerified::N2,
        domain_log2: 15,
    };
    let fe = wrap::wrap_statement_to_field_elements(
        &plonk,
        fq(100),
        fq(101),
        &ScalarChallenge(fq(109)),
        &bp,
        &branch,
        fq(110),
        fq(111),
        fq(112),
    );

    let mut expected: Vec<Fq> = (100..113).map(fq).collect();
    expected.extend((200..216).map(fq));
    expected.push(fq(15 * 4 + 2));
    expected.extend(std::iter::repeat_n(fq(0), 8));
    assert_eq!(fe, expected);
    assert_eq!(fe.len(), 5 + 2 + 3 + 3 + 16 + 1 + 8);
}

#[test]
fn wrap_statement_has_forty_slots_in_the_network_layout() {
    let mut plonk = in_circuit(107, 105, 106, 108);
    plonk.joint_combiner = Some(ScalarChallenge(fq(77)));
    plonk.feature_flags.lookup = true;
    let bp = challenges(14);
    let branch = BranchData {
        proofs_verified: ProofsVerified::N0,
        domain_log2: 13,
    };
    let fe = wrap::wrap_statement_to_field_elements_ocaml(
        &plonk,
        fq(100),
        fq(101),
        &ScalarChallenge(fq(109)),
        &bp,
        &ScalarChallenge(fq(55)),
        &branch,
        fq(110),
        fq(111),
        fq(112),
    );
    let mut expected: Vec<Fq> = (100..113).map(fq).collect();
    expected.extend([fq(55), fq(55)]);
    expected.extend((200..214).map(fq));
    expected.push(fq(13 * 4));
    expected.extend([0, 0, 0, 0, 0, 0, 1, 0].map(fq));
    expected.extend([fq(0), fq(77)]);
    assert_eq!(fe, expected);
    assert_eq!(fe.len(), 40);
}

#[test]
fn step_statement_to_field_elements_order() {
    let plonk = in_circuit(108, 106, 107, 109);
    let bp = challenges(TOCK_ROUNDS);
    let unfinalized = step::unfinalized_to_field_elements(
        &plonk,
        fq(100),
        fq(101),
        &ScalarChallenge(fq(110)),
        &bp,
        fq(105),
        true,
    );

    let mut expected: Vec<Fq> = (100..111).map(fq).collect();
    expected.extend((200..200 + TOCK_ROUNDS as u64).map(fq));
    expected.push(fq(1));
    assert_eq!(unfinalized, expected);
    assert_eq!(unfinalized.len(), 5 + 1 + 2 + 3 + TOCK_ROUNDS + 1);

    let stmt = step::step_statement_to_field_elements(
        &[unfinalized.clone(), unfinalized.clone()],
        fq(300),
        &[fq(301), fq(302)],
    );
    assert_eq!(stmt.len(), 2 * unfinalized.len() + 1 + 2);
    assert_eq!(stmt[2 * unfinalized.len()], fq(300));
    assert_eq!(*stmt.last().unwrap(), fq(302));
}

#[test]
fn vk_evals_to_list_order() {
    let permuts = 7;
    let columns = 15;
    let vk = PlonkVerificationKeyEvals {
        sigma_comm: (0..permuts).map(|i| i as u32).collect(),
        coefficients_comm: (0..columns).map(|i| 100 + i as u32).collect(),
        generic_comm: 200,
        psm_comm: 201,
        complete_add_comm: 202,
        mul_comm: 203,
        emul_comm: 204,
        endomul_scalar_comm: 205,
    };
    let list: Vec<u32> = vk.to_list().into_iter().copied().collect();
    assert_eq!(list.len(), permuts + columns + 6);
    assert_eq!(list[0], 0);
    assert_eq!(list[permuts], 100);
    assert_eq!(list[permuts + columns], 200);
    assert_eq!(*list.last().unwrap(), 205);
}
