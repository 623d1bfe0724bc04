//! The step statement.

use vstd::prelude::*;

use crate::composition_types::{
    challenge_residues, plonk, push_challenges, push_residue, BulletproofChallenge, ScalarChallenge,
};
use crate::composition_types::wrap::statement_head;
use crate::field::{from_bool, residues, PrimeField};
use crate::sequences::{append, append_rows, concat_rows, rows_are_laid_end_to_end};

verus! {

/// One unfinalized proof's residues.
pub open spec fn unfinalized_residues<F: PrimeField>(
    plonk: plonk::InCircuit<F, ScalarChallenge<F>, bool>,
    combined_inner_product: F,
    b: F,
    xi: ScalarChallenge<F>,
    bulletproof_challenges: Seq<BulletproofChallenge<ScalarChallenge<F>>>,
    sponge_digest_before_evaluations: F,
    should_finalize: bool,
) -> Seq<int> {
    seq![
        combined_inner_product.view(),
        b.view(),
        plonk.zeta_to_srs_length.view(),
        plonk.zeta_to_domain_size.view(),
        plonk.perm.view(),
        sponge_digest_before_evaluations.view(),
        plonk.beta.view(),
        plonk.gamma.view(),
        plonk.alpha.0.view(),
        plonk.zeta.0.view(),
        xi.0.view(),
    ] + challenge_residues(bulletproof_challenges) + seq![
        if should_finalize {
            1int
        } else {
            0
        },
    ]
}

/// The step statement's elements.
pub open spec fn step_statement<F>(
    unfinalized_proofs: Seq<Vec<F>>,
    messages_for_next_step_proof_digest: F,
    messages_for_next_wrap_proof_digests: Seq<F>,
) -> Seq<F> {
    concat_rows(unfinalized_proofs) + seq![messages_for_next_step_proof_digest]
        + messages_for_next_wrap_proof_digests
}

/// One unfinalized proof as field elements: five shifted values, the digest,
/// two challenges, three scalar challenges, the bulletproof challenges, and
/// whether to finalize. The digest comes before the challenges, and the feature
/// flags and joint combiner have no slot.
pub fn unfinalized_to_field_elements<F: PrimeField>(
    plonk: &plonk::InCircuit<F, ScalarChallenge<F>, bool>,
    combined_inner_product: F,
    b: F,
    xi: &ScalarChallenge<F>,
    bulletproof_challenges: &[BulletproofChallenge<ScalarChallenge<F>>],
    sponge_digest_before_evaluations: F,
    should_finalize: bool,
) -> (out: Vec<F>)
    ensures
        residues(out@) == seq![
            combined_inner_product.view(),
            b.view(),
            plonk.zeta_to_srs_length.view(),
            plonk.zeta_to_domain_size.view(),
            plonk.perm.view(),
            sponge_digest_before_evaluations.view(),
            plonk.beta.view(),
            plonk.gamma.view(),
            plonk.alpha.0.view(),
            plonk.zeta.0.view(),
            xi.0.view(),
        ] + challenge_residues(bulletproof_challenges@) + seq![
            if should_finalize {
                1int
            } else {
                0
            },
        ],
        residues(out@) == unfinalized_residues(
            *plonk,
            combined_inner_product,
            b,
            *xi,
            bulletproof_challenges@,
            sponge_digest_before_evaluations,
            should_finalize,
        ),
        out@.len() == 12 + bulletproof_challenges@.len(),
{
    let mut out: Vec<F> = Vec::new();
    out.push(combined_inner_product);
    out.push(b);
    out.push(plonk.zeta_to_srs_length);
    out.push(plonk.zeta_to_domain_size);
    out.push(plonk.perm);
    out.push(sponge_digest_before_evaluations);
    out.push(plonk.beta);
    out.push(plonk.gamma);
    out.push(plonk.alpha.0);
    out.push(plonk.zeta.0);
    out.push(xi.0);
    let ghost head = seq![
        combined_inner_product.view(),
        b.view(),
        plonk.zeta_to_srs_length.view(),
        plonk.zeta_to_domain_size.view(),
        plonk.perm.view(),
        sponge_digest_before_evaluations.view(),
        plonk.beta.view(),
        plonk.gamma.view(),
        plonk.alpha.0.view(),
        plonk.zeta.0.view(),
        xi.0.view(),
    ];
    assert(residues(out@) =~= head);
    push_challenges(&mut out, bulletproof_challenges);
    push_residue(&mut out, from_bool(should_finalize));
    assert(residues(out@) =~= head + challenge_residues(bulletproof_challenges@) + seq![
        if should_finalize {
            1int
        } else {
            0
        },
    ]);
    assert(out@.len() == residues(out@).len());
    out
}

/// The step statement as field elements: the unfinalized proofs, each already
/// flattened, then the digest for the next step proof, then one digest for the
/// next wrap proof per proof verified.
pub fn step_statement_to_field_elements<F: PrimeField>(
    unfinalized_proofs: &[Vec<F>],
    messages_for_next_step_proof_digest: F,
    messages_for_next_wrap_proof_digests: &[F],
) -> (out: Vec<F>)
    ensures
        out@ == concat_rows(unfinalized_proofs@) + seq![messages_for_next_step_proof_digest]
            + messages_for_next_wrap_proof_digests@,
        out@ == step_statement(
            unfinalized_proofs@,
            messages_for_next_step_proof_digest,
            messages_for_next_wrap_proof_digests@,
        ),
{
    let mut out: Vec<F> = Vec::new();
    append_rows(&mut out, unfinalized_proofs);
    out.push(messages_for_next_step_proof_digest);
    append(&mut out, messages_for_next_wrap_proof_digests);
    assert(out@ =~= concat_rows(unfinalized_proofs@) + seq![messages_for_next_step_proof_digest]
        + messages_for_next_wrap_proof_digests@);
    out
}

/// Every value of an unfinalized proof has its own slot: the five shifted values,
/// the digest, the two challenges, the three scalar challenges, the bulletproof
/// challenges in order, and whether to finalize.
pub proof fn unfinalized_slots<F: PrimeField>(
    plonk: plonk::InCircuit<F, ScalarChallenge<F>, bool>,
    cip: F,
    b: F,
    xi: ScalarChallenge<F>,
    chals: Seq<BulletproofChallenge<ScalarChallenge<F>>>,
    digest: F,
    should_finalize: bool,
)
    ensures
        ({
            let all = unfinalized_residues(plonk, cip, b, xi, chals, digest, should_finalize);
            &&& all.len() == 12 + chals.len()
            &&& all[0] == cip.view()
            &&& all[1] == b.view()
            &&& all[2] == plonk.zeta_to_srs_length.view()
            &&& all[3] == plonk.zeta_to_domain_size.view()
            &&& all[4] == plonk.perm.view()
            &&& all[5] == digest.view()
            &&& all[6] == plonk.beta.view()
            &&& all[7] == plonk.gamma.view()
            &&& all[8] == plonk.alpha.0.view()
            &&& all[9] == plonk.zeta.0.view()
            &&& all[10] == xi.0.view()
            &&& forall|i: int|
                #![trigger chals[i]]
                0 <= i < chals.len() ==> all[11 + i] == chals[i].prechallenge.0.view()
            &&& all.last() == if should_finalize {
                1int
            } else {
                0
            }
        }),
{
}

/// Both statements carry a proof's deferred values alike: the five shifted values
/// are in the same slots, and the challenges keep their order, moved by one where
/// the step side's digest comes first.
pub proof fn both_statements_carry_the_values_alike<F: PrimeField>(
    plonk: plonk::InCircuit<F, ScalarChallenge<F>, bool>,
    cip: F,
    b: F,
    xi: ScalarChallenge<F>,
    chals: Seq<BulletproofChallenge<ScalarChallenge<F>>>,
    digest: F,
    should_finalize: bool,
    next_wrap: F,
    next_step: F,
)
    ensures
        ({
            let own = unfinalized_residues(plonk, cip, b, xi, chals, digest, should_finalize);
            let head = statement_head(plonk, cip, b, xi, digest, next_wrap, next_step);
            &&& own.take(5) == head.take(5)
            &&& own[5] == head[10]
            &&& own.subrange(6, 11) == head.subrange(5, 10)
            &&& own.subrange(11, 11int + chals.len()) == challenge_residues(chals)
        }),
{
    let own = unfinalized_residues(plonk, cip, b, xi, chals, digest, should_finalize);
    let head = statement_head(plonk, cip, b, xi, digest, next_wrap, next_step);
    assert(own.take(5) =~= head.take(5));
    assert(own.subrange(6, 11) =~= head.subrange(5, 10));
    assert(own.subrange(11, 11int + chals.len()) =~= challenge_residues(chals));
}

/// The step statement is the proofs' elements, then the digest for the next step
/// proof, then the digests for the next wrap proofs: one more proof at the end of
/// the proofs puts its elements right before the digest.
pub proof fn the_digest_follows_the_proofs<F>(
    proofs: Seq<Vec<F>>,
    proof_elements: Vec<F>,
    digest: F,
    wraps: Seq<F>,
)
    ensures
        step_statement(Seq::<Vec<F>>::empty(), digest, wraps) == seq![digest] + wraps,
        step_statement(proofs.push(proof_elements), digest, wraps) == concat_rows(proofs)
            + proof_elements@ + seq![digest] + wraps,
        step_statement(proofs, digest, wraps)[concat_rows(proofs).len() as int] == digest,
{
    rows_are_laid_end_to_end(proofs, seq![proof_elements], proof_elements);
    assert(proofs.push(proof_elements) =~= proofs + seq![proof_elements]);
    assert(step_statement(Seq::<Vec<F>>::empty(), digest, wraps) =~= seq![digest] + wraps);
}

} // verus!
