//! The wrap statement.

use vstd::prelude::*;

use crate::common::TICK_ROUNDS;
use crate::composition_types::{
    challenge_residues, flag_residues, flags_show_in_the_order_of_the_fields, plonk,
    push_challenges, push_flags, push_residue, BranchData, BulletproofChallenge, DeferredValues,
    ScalarChallenge,
};
use crate::field::{residues, zero, PrimeField};
use crate::sequences::{append_clones, are_clones, concat_rows};

verus! {

/// The fixed head of a wrap statement: five shifted values, two challenges,
/// three scalar challenges, three digests.
pub open spec fn statement_head<F: PrimeField>(
    plonk: plonk::InCircuit<F, ScalarChallenge<F>, bool>,
    combined_inner_product: F,
    b: F,
    xi: ScalarChallenge<F>,
    sponge_digest_before_evaluations: F,
    messages_for_next_wrap_proof_digest: F,
    messages_for_next_step_proof_digest: F,
) -> Seq<int> {
    seq![
        combined_inner_product.view(),
        b.view(),
        plonk.zeta_to_srs_length.view(),
        plonk.zeta_to_domain_size.view(),
        plonk.perm.view(),
        plonk.beta.view(),
        plonk.gamma.view(),
        plonk.alpha.0.view(),
        plonk.zeta.0.view(),
        xi.0.view(),
        sponge_digest_before_evaluations.view(),
        messages_for_next_wrap_proof_digest.view(),
        messages_for_next_step_proof_digest.view(),
    ]
}

fn push_statement_head<F: PrimeField>(
    plonk: &plonk::InCircuit<F, ScalarChallenge<F>, bool>,
    combined_inner_product: F,
    b: F,
    xi: &ScalarChallenge<F>,
    sponge_digest_before_evaluations: F,
    messages_for_next_wrap_proof_digest: F,
    messages_for_next_step_proof_digest: F,
) -> (out: Vec<F>)
    ensures
        residues(out@) == statement_head(
            *plonk,
            combined_inner_product,
            b,
            *xi,
            sponge_digest_before_evaluations,
            messages_for_next_wrap_proof_digest,
            messages_for_next_step_proof_digest,
        ),
{
    let mut out: Vec<F> = Vec::new();
    out.push(combined_inner_product);
    out.push(b);
    out.push(plonk.zeta_to_srs_length);
    out.push(plonk.zeta_to_domain_size);
    out.push(plonk.perm);
    out.push(plonk.beta);
    out.push(plonk.gamma);
    out.push(plonk.alpha.0);
    out.push(plonk.zeta.0);
    out.push(xi.0);
    out.push(sponge_digest_before_evaluations);
    out.push(messages_for_next_wrap_proof_digest);
    out.push(messages_for_next_step_proof_digest);
    assert(residues(out@) =~= statement_head(
        *plonk,
        combined_inner_product,
        b,
        *xi,
        sponge_digest_before_evaluations,
        messages_for_next_wrap_proof_digest,
        messages_for_next_step_proof_digest,
    ));
    out
}

/// The wrap statement's residues: the head, the challenges, the packed branch,
/// the flags.
pub open spec fn wrap_residues<F: PrimeField>(
    plonk: plonk::InCircuit<F, ScalarChallenge<F>, bool>,
    combined_inner_product: F,
    b: F,
    xi: ScalarChallenge<F>,
    bulletproof_challenges: Seq<BulletproofChallenge<ScalarChallenge<F>>>,
    branch_data: BranchData,
    sponge_digest_before_evaluations: F,
    messages_for_next_wrap_proof_digest: F,
    messages_for_next_step_proof_digest: F,
) -> Seq<int> {
    statement_head(
        plonk,
        combined_inner_product,
        b,
        xi,
        sponge_digest_before_evaluations,
        messages_for_next_wrap_proof_digest,
        messages_for_next_step_proof_digest,
    ) + challenge_residues(bulletproof_challenges) + seq![branch_data.packed()] + flag_residues(
        plonk.feature_flags,
    )
}

/// The residues of the network layout: the challenges are padded in front, and
/// the joint combiner's two slots follow the flags.
pub open spec fn network_residues<F: PrimeField>(
    plonk: plonk::InCircuit<F, ScalarChallenge<F>, bool>,
    combined_inner_product: F,
    b: F,
    xi: ScalarChallenge<F>,
    bulletproof_challenges: Seq<BulletproofChallenge<ScalarChallenge<F>>>,
    dummy_bulletproof_challenge: ScalarChallenge<F>,
    branch_data: BranchData,
    sponge_digest_before_evaluations: F,
    messages_for_next_wrap_proof_digest: F,
    messages_for_next_step_proof_digest: F,
) -> Seq<int> {
    statement_head(
        plonk,
        combined_inner_product,
        b,
        xi,
        sponge_digest_before_evaluations,
        messages_for_next_wrap_proof_digest,
        messages_for_next_step_proof_digest,
    ) + Seq::new(
        (TICK_ROUNDS - bulletproof_challenges.len()) as nat,
        |i: int| dummy_bulletproof_challenge.0.view(),
    ) + challenge_residues(bulletproof_challenges) + seq![branch_data.packed()] + flag_residues(
        plonk.feature_flags,
    ) + seq![0, joint_combiner_residue(plonk.joint_combiner)]
}

/// The wrap statement as field elements: the head, the bulletproof challenges,
/// the packed branch, the eight feature flags. The two `messages_for_next_*`
/// are given by their digests.
pub fn wrap_statement_to_field_elements<F: PrimeField>(
    plonk: &plonk::InCircuit<F, ScalarChallenge<F>, bool>,
    combined_inner_product: F,
    b: F,
    xi: &ScalarChallenge<F>,
    bulletproof_challenges: &[BulletproofChallenge<ScalarChallenge<F>>],
    branch_data: &BranchData,
    sponge_digest_before_evaluations: F,
    messages_for_next_wrap_proof_digest: F,
    messages_for_next_step_proof_digest: F,
) -> (out: Vec<F>)
    ensures
        residues(out@) == statement_head(
            *plonk,
            combined_inner_product,
            b,
            *xi,
            sponge_digest_before_evaluations,
            messages_for_next_wrap_proof_digest,
            messages_for_next_step_proof_digest,
        ) + challenge_residues(bulletproof_challenges@) + seq![branch_data.packed()]
            + flag_residues(plonk.feature_flags),
        residues(out@) == wrap_residues(
            *plonk,
            combined_inner_product,
            b,
            *xi,
            bulletproof_challenges@,
            *branch_data,
            sponge_digest_before_evaluations,
            messages_for_next_wrap_proof_digest,
            messages_for_next_step_proof_digest,
        ),
        out@.len() == 22 + bulletproof_challenges@.len(),
{
    let mut out = push_statement_head(
        plonk,
        combined_inner_product,
        b,
        xi,
        sponge_digest_before_evaluations,
        messages_for_next_wrap_proof_digest,
        messages_for_next_step_proof_digest,
    );
    let ghost head = residues(out@);
    push_challenges(&mut out, bulletproof_challenges);
    push_residue(&mut out, branch_data.pack());
    push_flags(&mut out, &plonk.feature_flags);
    assert(residues(out@) =~= head + challenge_residues(bulletproof_challenges@)
        + seq![branch_data.packed()] + flag_residues(plonk.feature_flags));
    assert(out@.len() == residues(out@).len());
    out
}

/// The residue of a joint combiner, zero where there is none.
pub open spec fn joint_combiner_residue<F: PrimeField>(jc: Option<ScalarChallenge<F>>) -> int {
    match jc {
        None => 0,
        Some(c) => c.0.view(),
    }
}

/// The wrap statement in the network layout of forty slots: the challenges
/// padded in front to the rounds of a full-size key, and after the feature
/// flags the two slots of the joint combiner, whose flag is always clear.
pub fn wrap_statement_to_field_elements_ocaml<F: PrimeField>(
    plonk: &plonk::InCircuit<F, ScalarChallenge<F>, bool>,
    combined_inner_product: F,
    b: F,
    xi: &ScalarChallenge<F>,
    bulletproof_challenges: &[BulletproofChallenge<ScalarChallenge<F>>],
    dummy_bulletproof_challenge: &ScalarChallenge<F>,
    branch_data: &BranchData,
    sponge_digest_before_evaluations: F,
    messages_for_next_wrap_proof_digest: F,
    messages_for_next_step_proof_digest: F,
) -> (out: Vec<F>)
    requires
        bulletproof_challenges@.len() <= TICK_ROUNDS,
    ensures
        residues(out@) == statement_head(
            *plonk,
            combined_inner_product,
            b,
            *xi,
            sponge_digest_before_evaluations,
            messages_for_next_wrap_proof_digest,
            messages_for_next_step_proof_digest,
        ) + Seq::new(
            (TICK_ROUNDS - bulletproof_challenges@.len()) as nat,
            |i: int| dummy_bulletproof_challenge.0.view(),
        ) + challenge_residues(bulletproof_challenges@) + seq![branch_data.packed()]
            + flag_residues(plonk.feature_flags) + seq![
            0,
            joint_combiner_residue(plonk.joint_combiner),
        ],
        residues(out@) == network_residues(
            *plonk,
            combined_inner_product,
            b,
            *xi,
            bulletproof_challenges@,
            *dummy_bulletproof_challenge,
            *branch_data,
            sponge_digest_before_evaluations,
            messages_for_next_wrap_proof_digest,
            messages_for_next_step_proof_digest,
        ),
        out@.len() == 40,
{
    let mut out = push_statement_head(
        plonk,
        combined_inner_product,
        b,
        xi,
        sponge_digest_before_evaluations,
        messages_for_next_wrap_proof_digest,
        messages_for_next_step_proof_digest,
    );
    let ghost head = residues(out@);
    let ghost dummy = dummy_bulletproof_challenge.0.view();
    let n = bulletproof_challenges.len();
    let mut i: usize = n;
    while i < TICK_ROUNDS
        invariant
            n <= i <= TICK_ROUNDS,
            dummy == dummy_bulletproof_challenge.0.view(),
            residues(out@) =~= head + Seq::new((i - n) as nat, |k: int| dummy),
        decreases TICK_ROUNDS - i,
    {
        push_residue(&mut out, dummy_bulletproof_challenge.0);
        i = i + 1;
    }
    push_challenges(&mut out, bulletproof_challenges);
    push_residue(&mut out, branch_data.pack());
    push_flags(&mut out, &plonk.feature_flags);
    push_residue(&mut out, zero());
    let joint = match &plonk.joint_combiner {
        Some(c) => c.0,
        None => zero(),
    };
    push_residue(&mut out, joint);
    assert(residues(out@) =~= head + Seq::new(
        (TICK_ROUNDS - n) as nat,
        |i: int| dummy_bulletproof_challenge.0.view(),
    ) + challenge_residues(bulletproof_challenges@) + seq![branch_data.packed()] + flag_residues(
        plonk.feature_flags,
    ) + seq![0, joint_combiner_residue(plonk.joint_combiner)]);
    assert(out@.len() == residues(out@).len());
    out
}

/// The wrap proof state.
#[derive(Clone, Debug, PartialEq, Eq)]
pub struct ProofState<Plonk, Fp, ScalarChallenge, BpChals, Digest, MessagesForNextWrap> {
    pub deferred_values: DeferredValues<Plonk, Fp, ScalarChallenge, BpChals, ()>,
    pub sponge_digest_before_evaluations: Digest,
    /// The accumulator passed to the next wrap proof.
    pub messages_for_next_wrap_proof: MessagesForNextWrap,
}

/// The full wrap statement: what a wrap proof proves.
#[derive(Clone, Debug, PartialEq, Eq)]
pub struct Statement<ProofState, MessagesForNextStep> {
    pub proof_state: ProofState,
    pub messages_for_next_step_proof: MessagesForNextStep,
}

/// The accumulator threaded to the next wrap proof.
#[derive(Clone, Debug, PartialEq, Eq)]
pub struct MessagesForNextWrapProof<G1, BpChals> {
    /// The commitment to the previous challenge polynomial.
    pub challenge_polynomial_commitment: G1,
    /// The bulletproof challenges of the previous proof.
    pub old_bulletproof_challenges: BpChals,
}

impl<G1, F: Clone> MessagesForNextWrapProof<G1, Vec<Vec<F>>> {
    /// The accumulator as field elements: the old challenges one list after the
    /// other, then the commitment's elements.
    pub fn to_field_elements<G: Fn(&G1) -> Vec<F>>(&self, g1_to_field_elements: G) -> (r: Vec<F>)
        requires
            call_requires(g1_to_field_elements, (&self.challenge_polynomial_commitment,)),
        ensures
            exists|g: Vec<F>, chals: Seq<F>|
                {
                    &&& call_ensures(
                        g1_to_field_elements,
                        (&self.challenge_polynomial_commitment,),
                        g,
                    )
                    &&& are_clones(concat_rows(self.old_bulletproof_challenges@), chals)
                    &&& r@ == #[trigger] (chals + g@)
                },
    {
        let mut out: Vec<F> = Vec::new();
        let ghost rows = self.old_bulletproof_challenges@;
        let mut i: usize = 0;
        while i < self.old_bulletproof_challenges.len()
            invariant
                i <= rows.len(),
                rows == self.old_bulletproof_challenges@,
                are_clones(concat_rows(rows.take(i as int)), out@),
            decreases self.old_bulletproof_challenges.len() - i,
        {
            let ghost before = out@;
            append_clones(&mut out, self.old_bulletproof_challenges[i].as_slice());
            proof {
                let n = before.len() as int;
                assert(rows.take(i + 1).drop_last() =~= rows.take(i as int));
                assert(rows.take(i + 1).last() == rows[i as int]);
                let all = concat_rows(rows.take(i + 1));
                assert forall|k: int| 0 <= k < all.len() implies cloned(
                    all[k],
                    #[trigger] out@[k],
                ) by {
                    if k < n {
                        assert(out@.take(n)[k] == before[k]);
                    } else {
                        assert(out@.skip(n)[k - n] == out@[k]);
                    }
                }
            }
            i = i + 1;
        }
        assert(rows.take(i as int) =~= rows);
        let ghost chals = out@;
        let mut g = g1_to_field_elements(&self.challenge_polynomial_commitment);
        let ghost elements = g;
        out.append(&mut g);
        assert(out@ =~= chals + elements@);
        out
    }
}

/// Every value of the wrap statement has its own slot: the thirteen of the head
/// by name, then the challenges in order, the packed branch, and the eight flags
/// in the order of the fields.
pub proof fn wrap_statement_slots<F: PrimeField>(
    plonk: plonk::InCircuit<F, ScalarChallenge<F>, bool>,
    cip: F,
    b: F,
    xi: ScalarChallenge<F>,
    chals: Seq<BulletproofChallenge<ScalarChallenge<F>>>,
    branch: BranchData,
    digest: F,
    next_wrap: F,
    next_step: F,
)
    ensures
        ({
            let all = wrap_residues(
                plonk,
                cip,
                b,
                xi,
                chals,
                branch,
                digest,
                next_wrap,
                next_step,
            );
            let n = 13 + chals.len() as int;
            let bit = |set: bool|
                if set {
                    1int
                } else {
                    0
                };
            &&& all.len() == n + 9
            &&& all[0] == cip.view()
            &&& all[1] == b.view()
            &&& all[2] == plonk.zeta_to_srs_length.view()
            &&& all[3] == plonk.zeta_to_domain_size.view()
            &&& all[4] == plonk.perm.view()
            &&& all[5] == plonk.beta.view()
            &&& all[6] == plonk.gamma.view()
            &&& all[7] == plonk.alpha.0.view()
            &&& all[8] == plonk.zeta.0.view()
            &&& all[9] == xi.0.view()
            &&& all[10] == digest.view()
            &&& all[11] == next_wrap.view()
            &&& all[12] == next_step.view()
            &&& forall|i: int|
                #![trigger chals[i]]
                0 <= i < chals.len() ==> all[13 + i] == chals[i].prechallenge.0.view()
            &&& all[n] == 4 * branch.domain_log2 + branch.proofs_verified.count()
            &&& all[n + 1] == bit(plonk.feature_flags.range_check0)
            &&& all[n + 2] == bit(plonk.feature_flags.range_check1)
            &&& all[n + 3] == bit(plonk.feature_flags.foreign_field_add)
            &&& all[n + 4] == bit(plonk.feature_flags.foreign_field_mul)
            &&& all[n + 5] == bit(plonk.feature_flags.xor)
            &&& all[n + 6] == bit(plonk.feature_flags.rot)
            &&& all[n + 7] == bit(plonk.feature_flags.lookup)
            &&& all[n + 8] == bit(plonk.feature_flags.runtime_tables)
        }),
{
    flags_show_in_the_order_of_the_fields(plonk.feature_flags);
}

/// The network layout is the wrap statement with the dummy challenge put in front
/// as often as rounds are missing, and the joint combiner's two slots at the end:
/// a clear flag, then the combiner, or zero where there is none.
pub proof fn the_network_layout_pads_in_front<F: PrimeField>(
    plonk: plonk::InCircuit<F, ScalarChallenge<F>, bool>,
    cip: F,
    b: F,
    xi: ScalarChallenge<F>,
    chals: Seq<BulletproofChallenge<ScalarChallenge<F>>>,
    dummy: ScalarChallenge<F>,
    branch: BranchData,
    digest: F,
    next_wrap: F,
    next_step: F,
)
    requires
        chals.len() <= 16,
    ensures
        ({
            let missing = Seq::new(
                (16 - chals.len()) as nat,
                |i: int| BulletproofChallenge { prechallenge: dummy },
            );
            network_residues(
                plonk,
                cip,
                b,
                xi,
                chals,
                dummy,
                branch,
                digest,
                next_wrap,
                next_step,
            ) == wrap_residues(
                plonk,
                cip,
                b,
                xi,
                missing + chals,
                branch,
                digest,
                next_wrap,
                next_step,
            ) + seq![
                0,
                match plonk.joint_combiner {
                    None => 0,
                    Some(c) => c.0.view(),
                },
            ]
        }),
        network_residues(
            plonk,
            cip,
            b,
            xi,
            chals,
            dummy,
            branch,
            digest,
            next_wrap,
            next_step,
        ).len() == 40,
{
    let missing = Seq::new(
        (16 - chals.len()) as nat,
        |i: int| BulletproofChallenge { prechallenge: dummy },
    );
    let pad = Seq::new((TICK_ROUNDS - chals.len()) as nat, |i: int| dummy.0.view());
    assert(challenge_residues(missing + chals) =~= pad + challenge_residues(chals));
    assert(network_residues(
        plonk,
        cip,
        b,
        xi,
        chals,
        dummy,
        branch,
        digest,
        next_wrap,
        next_step,
    ) =~= wrap_residues(
        plonk,
        cip,
        b,
        xi,
        missing + chals,
        branch,
        digest,
        next_wrap,
        next_step,
    ) + seq![0, joint_combiner_residue(plonk.joint_combiner)]);
}

} // verus!
