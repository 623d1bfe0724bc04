//! The digests of the two accumulators that proofs thread onwards.
//!
//! The step digest commits to the wrap verification key, the application state,
//! and for each previous proof its challenge-polynomial commitment followed by
//! its old challenges. The wrap digest commits to the old challenges, padded in
//! front, and a commitment. Both squeeze a fresh sponge once.

use vstd::prelude::*;

use crate::composition_types::PlonkVerificationKeyEvals;
use crate::curve::Point;
use crate::field::{residues, PrimeField};
use crate::sponge::{
    absorb_all, absorb_point, absorbing, coordinates, op_residues, replied, squeeze, SpongeOp,
};

verus! {

/// Each commitment's coordinates followed by its challenges.
pub open spec fn accumulators<F: PrimeField>(comms: Seq<Point<F>>, chals: Seq<Vec<F>>) -> Seq<int>
    decreases comms.len(),
{
    if comms.len() == 0 {
        Seq::empty()
    } else {
        accumulators(comms.drop_last(), chals.drop_last()) + seq![
            comms.last().x.view(),
            comms.last().y.view(),
        ] + residues(chals.last()@)
    }
}

/// The same, of the proofs whose bit is set.
pub open spec fn kept_accumulators<F: PrimeField>(
    keep: Seq<bool>,
    comms: Seq<Point<F>>,
    chals: Seq<Vec<F>>,
) -> Seq<int>
    decreases comms.len(),
{
    if comms.len() == 0 {
        Seq::empty()
    } else {
        let before = kept_accumulators(keep.drop_last(), comms.drop_last(), chals.drop_last());
        if keep.last() {
            before + seq![comms.last().x.view(), comms.last().y.view()] + residues(chals.last()@)
        } else {
            before
        }
    }
}

/// The residues of every row, one after the other.
pub open spec fn row_residues<F: PrimeField>(rows: Seq<Vec<F>>) -> Seq<int>
    decreases rows.len(),
{
    if rows.len() == 0 {
        Seq::empty()
    } else {
        row_residues(rows.drop_last()) + residues(rows.last()@)
    }
}

/// With every proof kept, the masked form is the plain one.
pub proof fn full_mask_hashes_everything<F: PrimeField>(
    keep: Seq<bool>,
    comms: Seq<Point<F>>,
    chals: Seq<Vec<F>>,
)
    requires
        keep.len() == comms.len() == chals.len(),
        forall|i: int| 0 <= i < keep.len() ==> #[trigger] keep[i],
    ensures
        kept_accumulators(keep, comms, chals) == accumulators(comms, chals),
    decreases comms.len(),
{
    if comms.len() > 0 {
        assert(keep.last() == keep[keep.len() - 1]);
        full_mask_hashes_everything(keep.drop_last(), comms.drop_last(), chals.drop_last());
    }
}

/// Masking out proofs is the same as not having them.
pub proof fn mask_hashes_the_kept<F: PrimeField>(
    keep: Seq<bool>,
    comms: Seq<Point<F>>,
    chals: Seq<Vec<F>>,
)
    requires
        keep.len() == comms.len() == chals.len(),
    ensures
        kept_accumulators(keep, comms, chals) == accumulators(
            crate::sequences::kept(keep, comms),
            crate::sequences::kept(keep, chals),
        ),
        crate::sequences::kept(keep, comms).len() == crate::sequences::kept(keep, chals).len(),
    decreases comms.len(),
{
    if comms.len() > 0 {
        mask_hashes_the_kept(keep.drop_last(), comms.drop_last(), chals.drop_last());
        if keep.last() {
            let cs = crate::sequences::kept(keep, comms);
            let hs = crate::sequences::kept(keep, chals);
            assert(cs.drop_last() =~= crate::sequences::kept(keep.drop_last(), comms.drop_last()));
            assert(hs.drop_last() =~= crate::sequences::kept(keep.drop_last(), chals.drop_last()));
        }
    }
}

/// A sponge gives one answer to each transcript.
pub open spec fn sponge_answers_once<F: PrimeField, H: Fn(&Vec<SpongeOp<F>>) -> F>(sponge: H) -> bool {
    forall|ops: Seq<Option<int>>, a: F, b: F| #[trigger]
        replied(sponge, ops, a) && #[trigger] replied(sponge, ops, b) ==> a == b
}

/// The accumulators that are masked out leave no trace: the masked digest, over a
/// sponge that has absorbed the key, is the digest from scratch of those kept.
pub proof fn masked_digest_is_that_of_the_kept<F: PrimeField, H: Fn(&Vec<SpongeOp<F>>) -> F>(
    sponge: H,
    vk: Seq<Point<F>>,
    sponge_after_index: Seq<SpongeOp<F>>,
    app_state: Seq<F>,
    keep: Seq<bool>,
    comms: Seq<Point<F>>,
    chals: Seq<Vec<F>>,
    masked: F,
    from_scratch: F,
)
    requires
        sponge_answers_once(sponge),
        op_residues(sponge_after_index) == absorbing(coordinates(vk)),
        keep.len() == comms.len() == chals.len(),
        replied(
            sponge,
            (op_residues(sponge_after_index) + absorbing(
                residues(app_state) + kept_accumulators(keep, comms, chals),
            )).push(None),
            masked,
        ),
        replied(
            sponge,
            (absorbing(coordinates(vk)) + absorbing(
                residues(app_state) + accumulators(
                    crate::sequences::kept(keep, comms),
                    crate::sequences::kept(keep, chals),
                ),
            )).push(None),
            from_scratch,
        ),
    ensures
        masked == from_scratch,
{
    mask_hashes_the_kept(keep, comms, chals);
}

/// The transcript of a fresh sponge that has absorbed the verification key: each
/// commitment in canonical order, `x` before `y`.
pub fn sponge_after_index<F: PrimeField>(vk: &PlonkVerificationKeyEvals<Point<F>>) -> (ops: Vec<
    SpongeOp<F>,
>)
    ensures
        op_residues(ops@) == absorbing(coordinates(vk.list())),
{
    let mut ops: Vec<SpongeOp<F>> = Vec::new();
    let list = vk.to_list();
    let ghost all = vk.list();
    let mut i: usize = 0;
    assert(op_residues(ops@) =~= absorbing(coordinates(all.take(0))));
    while i < list.len()
        invariant
            i <= list@.len(),
            list@.len() == all.len(),
            forall|k: int| 0 <= k < list@.len() ==> *(#[trigger] list@[k]) == all[k],
            op_residues(ops@) =~= absorbing(coordinates(all.take(i as int))),
        decreases list.len() - i,
    {
        absorb_point(&mut ops, list[i]);
        assert(all.take(i + 1).drop_last() =~= all.take(i as int));
        assert(all.take(i + 1).last() == *list@[i as int]);
        i = i + 1;
    }
    assert(all.take(i as int) =~= all);
    ops
}

fn absorb_accumulators<F: PrimeField>(
    ops: &mut Vec<SpongeOp<F>>,
    keep: &[bool],
    comms: &[Point<F>],
    chals: &[Vec<F>],
)
    requires
        keep@.len() == comms@.len() == chals@.len(),
    ensures
        op_residues(final(ops)@) == op_residues(old(ops)@) + absorbing(
            kept_accumulators(keep@, comms@, chals@),
        ),
{
    let ghost before = op_residues(ops@);
    let mut i: usize = 0;
    assert(kept_accumulators(keep@.take(0), comms@.take(0), chals@.take(0)) =~= Seq::empty());
    while i < comms.len()
        invariant
            i <= comms@.len(),
            keep@.len() == comms@.len() == chals@.len(),
            op_residues(ops@) =~= before + absorbing(
                kept_accumulators(
                    keep@.take(i as int),
                    comms@.take(i as int),
                    chals@.take(i as int),
                ),
            ),
        decreases comms.len() - i,
    {
        if keep[i] {
            absorb_point(ops, &comms[i]);
            absorb_all(ops, chals[i].as_slice());
        }
        assert(keep@.take(i + 1).drop_last() =~= keep@.take(i as int));
        assert(comms@.take(i + 1).drop_last() =~= comms@.take(i as int));
        assert(chals@.take(i + 1).drop_last() =~= chals@.take(i as int));
        i = i + 1;
    }
    assert(keep@.take(i as int) =~= keep@);
    assert(comms@.take(i as int) =~= comms@);
    assert(chals@.take(i as int) =~= chals@);
}

fn all_kept(n: usize) -> (r: Vec<bool>)
    ensures
        r@.len() == n,
        forall|i: int| 0 <= i < n ==> #[trigger] r@[i],
{
    let mut r: Vec<bool> = Vec::new();
    while r.len() < n
        invariant
            r@.len() <= n,
            forall|i: int| 0 <= i < r@.len() ==> #[trigger] r@[i],
        decreases n - r.len(),
    {
        r.push(true);
    }
    r
}

/// What the step digest absorbs: what the sponge has absorbed of the key, the
/// application state, and the accumulators of the proofs whose bit is set.
pub open spec fn step_message<F: PrimeField>(
    index_ops: Seq<Option<int>>,
    app_state: Seq<F>,
    keep: Seq<bool>,
    comms: Seq<Point<F>>,
    chals: Seq<Vec<F>>,
) -> Seq<Option<int>> {
    index_ops + absorbing(residues(app_state) + kept_accumulators(keep, comms, chals))
}

/// The step digest: continues a transcript that has absorbed the key with the
/// application state and the accumulators, and squeezes.
pub fn hash_messages_for_next_step_proof<F: PrimeField, H: Fn(&Vec<SpongeOp<F>>) -> F>(
    sponge: &H,
    sponge_after_index: &[SpongeOp<F>],
    app_state: &[F],
    challenge_polynomial_commitments: &[Point<F>],
    old_bulletproof_challenges: &[Vec<F>],
) -> (r: F)
    requires
        challenge_polynomial_commitments@.len() == old_bulletproof_challenges@.len(),
        forall|v: &Vec<SpongeOp<F>>| call_requires(*sponge, (v,)),
    ensures
        replied(
            *sponge,
            (op_residues(sponge_after_index@) + absorbing(
                residues(app_state@) + accumulators(
                    challenge_polynomial_commitments@,
                    old_bulletproof_challenges@,
                ),
            )).push(None),
            r,
        ),
{
    let keep = all_kept(challenge_polynomial_commitments.len());
    proof {
        full_mask_hashes_everything(
            keep@,
            challenge_polynomial_commitments@,
            old_bulletproof_challenges@,
        );
    }
    hash_messages_for_next_step_proof_opt(
        sponge,
        sponge_after_index,
        app_state,
        challenge_polynomial_commitments,
        old_bulletproof_challenges,
        keep.as_slice(),
    )
}

/// The step digest at a fixed width: the accumulators whose bit is clear are not
/// absorbed.
pub fn hash_messages_for_next_step_proof_opt<F: PrimeField, H: Fn(&Vec<SpongeOp<F>>) -> F>(
    sponge: &H,
    sponge_after_index: &[SpongeOp<F>],
    app_state: &[F],
    challenge_polynomial_commitments: &[Point<F>],
    old_bulletproof_challenges: &[Vec<F>],
    proofs_verified_mask: &[bool],
) -> (r: F)
    requires
        challenge_polynomial_commitments@.len() == old_bulletproof_challenges@.len(),
        challenge_polynomial_commitments@.len() == proofs_verified_mask@.len(),
        forall|v: &Vec<SpongeOp<F>>| call_requires(*sponge, (v,)),
    ensures
        replied(
            *sponge,
            (op_residues(sponge_after_index@) + absorbing(
                residues(app_state@) + kept_accumulators(
                    proofs_verified_mask@,
                    challenge_polynomial_commitments@,
                    old_bulletproof_challenges@,
                ),
            )).push(None),
            r,
        ),
        replied(
            *sponge,
            step_message(
                op_residues(sponge_after_index@),
                app_state@,
                proofs_verified_mask@,
                challenge_polynomial_commitments@,
                old_bulletproof_challenges@,
            ).push(None),
            r,
        ),
{
    let mut ops: Vec<SpongeOp<F>> = Vec::new();
    crate::sequences::append(&mut ops, sponge_after_index);
    assert(ops@ =~= sponge_after_index@);
    absorb_all(&mut ops, app_state);
    absorb_accumulators(
        &mut ops,
        proofs_verified_mask,
        challenge_polynomial_commitments,
        old_bulletproof_challenges,
    );
    assert(op_residues(ops@) =~= op_residues(sponge_after_index@) + absorbing(
        residues(app_state@) + kept_accumulators(
            proofs_verified_mask@,
            challenge_polynomial_commitments@,
            old_bulletproof_challenges@,
        ),
    ));
    squeeze(&mut ops, sponge)
}

/// The step digest from scratch, the key given by its commitments in canonical
/// order.
pub fn hash_messages_for_next_step_proof_ref<F: PrimeField, H: Fn(&Vec<SpongeOp<F>>) -> F>(
    sponge: &H,
    dlog_plonk_index: &[Point<F>],
    app_state: &[F],
    challenge_polynomial_commitments: &[Point<F>],
    old_bulletproof_challenges: &[Vec<F>],
) -> (r: F)
    requires
        challenge_polynomial_commitments@.len() == old_bulletproof_challenges@.len(),
        forall|v: &Vec<SpongeOp<F>>| call_requires(*sponge, (v,)),
    ensures
        replied(
            *sponge,
            (absorbing(coordinates(dlog_plonk_index@)) + absorbing(
                residues(app_state@) + accumulators(
                    challenge_polynomial_commitments@,
                    old_bulletproof_challenges@,
                ),
            )).push(None),
            r,
        ),
{
    let mut ops: Vec<SpongeOp<F>> = Vec::new();
    crate::sponge::absorb_commitment(&mut ops, dlog_plonk_index);
    assert(op_residues(ops@) =~= absorbing(coordinates(dlog_plonk_index@)));
    hash_messages_for_next_step_proof(
        sponge,
        ops.as_slice(),
        app_state,
        challenge_polynomial_commitments,
        old_bulletproof_challenges,
    )
}

fn absorb_rows<F: PrimeField>(ops: &mut Vec<SpongeOp<F>>, rows: &[Vec<F>])
    ensures
        op_residues(final(ops)@) == op_residues(old(ops)@) + absorbing(row_residues(rows@)),
{
    let ghost before = op_residues(ops@);
    let mut i: usize = 0;
    assert(row_residues(rows@.take(0)) =~= Seq::empty());
    while i < rows.len()
        invariant
            i <= rows@.len(),
            op_residues(ops@) =~= before + absorbing(row_residues(rows@.take(i as int))),
        decreases rows.len() - i,
    {
        absorb_all(ops, rows[i].as_slice());
        assert(rows@.take(i + 1).drop_last() =~= rows@.take(i as int));
        i = i + 1;
    }
    assert(rows@.take(i as int) =~= rows@);
}

/// What the wrap digest absorbs: the dummy challenges, the old challenges, the
/// commitment.
pub open spec fn wrap_message<F: PrimeField>(
    dummy_challenges: Seq<Vec<F>>,
    old_bulletproof_challenges: Seq<Vec<F>>,
    commitment: Point<F>,
) -> Seq<int> {
    row_residues(dummy_challenges) + row_residues(old_bulletproof_challenges) + seq![
        commitment.x.view(),
        commitment.y.view(),
    ]
}

/// The wrap digest: a fresh sponge absorbs the dummy challenges that pad the
/// width, the old challenges and the commitment, and is squeezed.
pub fn hash_messages_for_next_wrap_proof<F: PrimeField, H: Fn(&Vec<SpongeOp<F>>) -> F>(
    sponge: &H,
    dummy_challenges: &[Vec<F>],
    old_bulletproof_challenges: &[Vec<F>],
    challenge_polynomial_commitment: &Point<F>,
) -> (r: F)
    requires
        forall|v: &Vec<SpongeOp<F>>| call_requires(*sponge, (v,)),
    ensures
        replied(
            *sponge,
            absorbing(
                wrap_message(
                    dummy_challenges@,
                    old_bulletproof_challenges@,
                    *challenge_polynomial_commitment,
                ),
            ).push(None),
            r,
        ),
{
    let mut ops: Vec<SpongeOp<F>> = Vec::new();
    absorb_rows(&mut ops, dummy_challenges);
    absorb_rows(&mut ops, old_bulletproof_challenges);
    absorb_point(&mut ops, challenge_polynomial_commitment);
    assert(op_residues(ops@) =~= absorbing(
        wrap_message(
            dummy_challenges@,
            old_bulletproof_challenges@,
            *challenge_polynomial_commitment,
        ),
    ));
    squeeze(&mut ops, sponge)
}

/// The wrap digest, the commitment given by its coordinates.
pub fn hash_messages_for_next_wrap_proof_ref<F: PrimeField, H: Fn(&Vec<SpongeOp<F>>) -> F>(
    sponge: &H,
    dummy_challenges: &[Vec<F>],
    old_bulletproof_challenges: &[Vec<F>],
    challenge_polynomial_commitment: (F, F),
) -> (r: F)
    requires
        forall|v: &Vec<SpongeOp<F>>| call_requires(*sponge, (v,)),
    ensures
        replied(
            *sponge,
            absorbing(
                row_residues(dummy_challenges@) + row_residues(old_bulletproof_challenges@) + seq![
                    challenge_polynomial_commitment.0.view(),
                    challenge_polynomial_commitment.1.view(),
                ],
            ).push(None),
            r,
        ),
{
    let commitment = Point {
        x: challenge_polynomial_commitment.0,
        y: challenge_polynomial_commitment.1,
    };
    hash_messages_for_next_wrap_proof(
        sponge,
        dummy_challenges,
        old_bulletproof_challenges,
        &commitment,
    )
}

/// Padding in front with dummy rows is absorbing longer old challenges: where
/// the padding is cut does not matter.
pub proof fn padding_is_absorbed_in_front<F: PrimeField>(
    dummy_challenges: Seq<Vec<F>>,
    old_bulletproof_challenges: Seq<Vec<F>>,
    commitment: Point<F>,
)
    ensures
        wrap_message(dummy_challenges, old_bulletproof_challenges, commitment) == wrap_message(
            Seq::empty(),
            dummy_challenges + old_bulletproof_challenges,
            commitment,
        ),
    decreases old_bulletproof_challenges.len(),
{
    lemma_row_residues_of_sum(dummy_challenges, old_bulletproof_challenges);
}

proof fn lemma_row_residues_of_sum<F: PrimeField>(a: Seq<Vec<F>>, b: Seq<Vec<F>>)
    ensures
        row_residues(a + b) == row_residues(a) + row_residues(b),
    decreases b.len(),
{
    if b.len() == 0 {
        assert(a + b =~= a);
    } else {
        lemma_row_residues_of_sum(a, b.drop_last());
        assert((a + b).drop_last() =~= a + b.drop_last());
        assert(row_residues(a + b) =~= row_residues(a) + row_residues(b));
    }
}

/// The accumulators go proof by proof: those of two lists of proofs are those of
/// the first and then those of the second, and one proof gives its commitment's
/// two coordinates followed by its own challenges.
pub proof fn accumulators_go_proof_by_proof<F: PrimeField>(
    comms: Seq<Point<F>>,
    chals: Seq<Vec<F>>,
    more_comms: Seq<Point<F>>,
    more_chals: Seq<Vec<F>>,
    comm: Point<F>,
    row: Vec<F>,
)
    requires
        comms.len() == chals.len(),
        more_comms.len() == more_chals.len(),
    ensures
        accumulators(comms + more_comms, chals + more_chals) == accumulators(comms, chals)
            + accumulators(more_comms, more_chals),
        accumulators(seq![comm], seq![row]) == seq![comm.x.view(), comm.y.view()] + residues(row@),
        accumulators(Seq::<Point<F>>::empty(), Seq::<Vec<F>>::empty()) == Seq::<int>::empty(),
    decreases more_comms.len(),
{
    reveal_with_fuel(accumulators, 2);
    assert(seq![comm].drop_last() =~= Seq::<Point<F>>::empty());
    assert(accumulators(seq![comm], seq![row]) =~= seq![comm.x.view(), comm.y.view()] + residues(
        row@,
    ));
    if more_comms.len() == 0 {
        assert(comms + more_comms =~= comms);
        assert(chals + more_chals =~= chals);
        assert(accumulators(comms, chals) + accumulators(more_comms, more_chals) =~= accumulators(
            comms,
            chals,
        ));
    } else {
        accumulators_go_proof_by_proof(
            comms,
            chals,
            more_comms.drop_last(),
            more_chals.drop_last(),
            comm,
            row,
        );
        assert((comms + more_comms).drop_last() =~= comms + more_comms.drop_last());
        assert((chals + more_chals).drop_last() =~= chals + more_chals.drop_last());
        assert(accumulators(comms + more_comms, chals + more_chals) =~= accumulators(comms, chals)
            + accumulators(more_comms, more_chals));
    }
}

/// The wrap digest's message, end to end: all the dummy challenges, all the old
/// challenges, then the commitment with its abscissa first.
pub proof fn the_commitment_ends_the_wrap_message<F: PrimeField>(
    dummy_challenges: Seq<Vec<F>>,
    old_bulletproof_challenges: Seq<Vec<F>>,
    commitment: Point<F>,
)
    ensures
        wrap_message(dummy_challenges, old_bulletproof_challenges, commitment) == residues(
            crate::sequences::concat_rows(dummy_challenges),
        ) + residues(crate::sequences::concat_rows(old_bulletproof_challenges)) + seq![
            commitment.x.view(),
            commitment.y.view(),
        ],
{
    rows_give_the_residues_of_their_items(dummy_challenges);
    rows_give_the_residues_of_their_items(old_bulletproof_challenges);
}

/// The residues of rows are those of the rows laid end to end.
pub proof fn rows_give_the_residues_of_their_items<F: PrimeField>(rows: Seq<Vec<F>>)
    ensures
        row_residues(rows) == residues(crate::sequences::concat_rows(rows)),
    decreases rows.len(),
{
    if rows.len() > 0 {
        rows_give_the_residues_of_their_items(rows.drop_last());
        assert(row_residues(rows) =~= residues(crate::sequences::concat_rows(rows)));
    } else {
        assert(row_residues(rows) =~= residues(crate::sequences::concat_rows(rows)));
    }
}

/// The step digest's message, end to end: the key's part, the application state,
/// then proof by proof the commitment and its challenges; a proof whose bit is
/// clear leaves no trace, one whose bit is set comes last.
pub proof fn the_step_message_goes_from_the_key_on<F: PrimeField>(
    index_ops: Seq<Option<int>>,
    app_state: Seq<F>,
    keep: Seq<bool>,
    comms: Seq<Point<F>>,
    chals: Seq<Vec<F>>,
    comm: Point<F>,
    row: Vec<F>,
)
    requires
        keep.len() == comms.len() == chals.len(),
    ensures
        step_message(
            index_ops,
            app_state,
            Seq::empty(),
            Seq::<Point<F>>::empty(),
            Seq::<Vec<F>>::empty(),
        ) == index_ops + absorbing(residues(app_state)),
        step_message(index_ops, app_state, keep.push(false), comms.push(comm), chals.push(row))
            == step_message(index_ops, app_state, keep, comms, chals),
        step_message(index_ops, app_state, keep.push(true), comms.push(comm), chals.push(row))
            == step_message(index_ops, app_state, keep, comms, chals) + seq![
            Some(comm.x.view()),
            Some(comm.y.view()),
        ] + absorbing(residues(row@)),
{
    assert(keep.push(false).drop_last() =~= keep);
    assert(keep.push(true).drop_last() =~= keep);
    assert(comms.push(comm).drop_last() =~= comms);
    assert(chals.push(row).drop_last() =~= chals);
    let none = step_message(
        index_ops,
        app_state,
        Seq::empty(),
        Seq::<Point<F>>::empty(),
        Seq::<Vec<F>>::empty(),
    );
    assert(none =~= index_ops + absorbing(residues(app_state)));
    let before = step_message(index_ops, app_state, keep, comms, chals);
    assert(step_message(
        index_ops,
        app_state,
        keep.push(true),
        comms.push(comm),
        chals.push(row),
    ) =~= before + seq![Some(comm.x.view()), Some(comm.y.view())] + absorbing(residues(row@)));
}

} // verus!
