//! The wrap circuit: what it asserts of its statement and its witness before the
//! step proof is verified, and what it hands to the verifier.

use vstd::prelude::*;

use crate::commitments::ShiftedScalar;
use crate::composition_types::{
    challenge_residues, plonk, BranchData, BulletproofChallenge, ScalarChallenge,
};
use crate::composition_types::wrap::statement_head;
use crate::curve::{is_on_curve, on_curve, point_residues, Point};
use crate::domain::Domain;
use crate::expr_eval::PolishToken;
use crate::field::{equal, from_u64, residues, Fq, PrimeField};
use crate::finalize::{first_chunks, single_chunk, FinalizeParams, ShiftKind};
use crate::fr_sponge::{AbsorbEvalsVar, PointEvalVar};
use crate::ft_eval_circuit::{one_hot_mask_selects, sum_masked, FinalizeDomain};
use crate::incrementally_verify::{Advice, Messages, OpeningProof, VerificationKeyComm};
use crate::sequences::{copied, copied_rows, same_rows};

verus! {

/// A token of the wrap side's linearization.
pub type WrapPolishToken = PolishToken<Fq>;

/// The witness columns of a circuit.
pub const COLUMNS: usize = 15;

/// The columns of a circuit that are permuted.
pub const PERMUTS: usize = 7;

/// The bit length of the scalar field.
pub const SCALAR_BITS: usize = 255;

/// The slots of a statement before the bulletproof challenges.
pub const STATEMENT_HEAD: usize = 13;

/// The slots of a statement after the bulletproof challenges: branch, eight
/// feature flags, two for the joint combiner.
pub const STATEMENT_TAIL: usize = 11;

/// One element of the step statement.
#[derive(Clone, Copy, Debug, PartialEq, Eq)]
pub enum WrapStepStatementSlot {
    Field(Fq),
    Packed { value: Fq, num_bits: usize },
    Bool(bool),
}

/// A previous proof that a recursive step statement carries, to be finalized
/// before the step proof is verified.
pub struct WrapUnfinalizedWitnessData {
    pub finalize_tokens: Vec<WrapPolishToken>,
    pub finalize_domain: Domain<Fq>,
    pub finalize_srs_log2: u32,
    pub finalize_endo: Fq,
    pub finalize_endo_r: Fq,
    pub finalize_shifts: Vec<Fq>,
    pub ft_eval1: Fq,
    pub public_evals: (Vec<Fq>, Vec<Fq>),
    pub evals_flat: Vec<(Fq, Fq)>,
    pub alpha: Fq,
    pub beta: Fq,
    pub gamma: Fq,
    pub zeta: Fq,
    pub xi: Fq,
    pub cip_repr: Fq,
    pub b_repr: Fq,
    pub perm_repr: Fq,
    pub bulletproof_challenges: Vec<Fq>,
    pub sponge_digest_before_evaluations: Fq,
    pub should_finalize: bool,
    pub old_bulletproof_challenges: Vec<Vec<Fq>>,
    pub prev_step_acc: (Fq, Fq),
    pub hash_dummy_challenges: Vec<Vec<Fq>>,
    pub hash_old_bulletproof_challenges: Vec<Vec<Fq>>,
}

/// One branch of a program: its width, its domain and its verification key, all
/// constants of the circuit.
#[derive(Debug, PartialEq, Eq)]
pub struct WrapBranchData {
    pub proofs_verified: usize,
    pub step_domain_log2: u8,
    pub generic: (Fq, Fq),
    pub psm: (Fq, Fq),
    pub complete_add: (Fq, Fq),
    pub mul: (Fq, Fq),
    pub emul: (Fq, Fq),
    pub endomul_scalar: (Fq, Fq),
    pub coefficients: Vec<(Fq, Fq)>,
    pub sigma_init: Vec<(Fq, Fq)>,
    pub sigma_last: Vec<(Fq, Fq)>,
}

/// Everything the circuit witnesses about the step proof.
pub struct WrapWitnessData {
    /// The branch of the step proof. With no branches listed, the circuit has
    /// the one branch that the fields below describe.
    pub which_branch: usize,
    pub branches: Vec<WrapBranchData>,
    pub step_domain_log2: u8,
    pub step_vk_digest: Fq,
    pub generic: (Fq, Fq),
    pub psm: (Fq, Fq),
    pub complete_add: (Fq, Fq),
    pub mul: (Fq, Fq),
    pub emul: (Fq, Fq),
    pub endomul_scalar: (Fq, Fq),
    pub coefficients: Vec<(Fq, Fq)>,
    pub sigma_init: Vec<(Fq, Fq)>,
    pub sigma_last: Vec<(Fq, Fq)>,
    pub w_comm: Vec<(Fq, Fq)>,
    pub z_comm: (Fq, Fq),
    pub t_comm: Vec<(Fq, Fq)>,
    pub lr: Vec<((Fq, Fq), (Fq, Fq))>,
    pub delta: (Fq, Fq),
    pub sg: (Fq, Fq),
    pub z1_repr: Fq,
    pub z2_repr: Fq,
    /// The accumulators that the step proof folds, apart from the proofs to be
    /// finalized.
    pub sg_olds: Vec<(Fq, Fq)>,
    pub unfinalized: Vec<WrapUnfinalizedWitnessData>,
    pub step_statement: Vec<WrapStepStatementSlot>,
    pub step_statement_lagranges: Vec<((Fq, Fq), (Fq, Fq))>,
    pub h: (Fq, Fq),
    pub new_acc_dummies: Vec<Vec<Fq>>,
}

/// One element of the step statement as the verifier takes it.
#[derive(Clone, Copy, Debug, PartialEq, Eq)]
pub enum StepStatementElement {
    /// Split into its upper bits and its lowest one.
    Split(Fq),
    Packed { value: Fq, num_bits: usize },
    Bool(bool),
}

/// A previous proof as the verifier takes it.
pub struct PerUnfinalized<'a> {
    pub finalize_params: FinalizeParams<'a, Fq>,
    pub endo_r: Fq,
    pub ft_eval1: Fq,
    pub public_evals: (Vec<Fq>, Vec<Fq>),
    pub evals: AbsorbEvalsVar<Fq>,
    pub alpha: Fq,
    pub beta: Fq,
    pub gamma: Fq,
    pub zeta: Fq,
    pub xi: Fq,
    pub cip_repr: Fq,
    pub b_repr: Fq,
    pub perm_repr: Fq,
    pub bulletproof_challenges: Vec<Fq>,
    pub sponge_digest_before_evaluations: Fq,
    pub should_finalize: bool,
    pub old_bulletproof_challenges: Vec<Vec<Fq>>,
    pub prev_step_acc: Point<Fq>,
    pub hash_dummy_challenges: Vec<Vec<Fq>>,
    pub hash_old_bulletproof_challenges: Vec<Vec<Fq>>,
}

/// The challenges that the statement claims.
pub struct Claimed {
    pub beta: Fq,
    pub gamma: Fq,
    pub alpha: Fq,
    pub zeta: Fq,
    pub sponge_digest_before_evaluations: Fq,
    pub bulletproof_challenges: Vec<Fq>,
}

/// What the circuit hands to the verifier.
pub struct WrapMainInputs<'a> {
    pub unfinalized: Vec<PerUnfinalized<'a>>,
    pub actual_proofs_verified_mask: Vec<bool>,
    pub sg_olds: Vec<Point<Fq>>,
    pub vk: VerificationKeyComm<Fq>,
    pub elements: Vec<StepStatementElement>,
    pub lagranges: Vec<(Point<Fq>, Point<Fq>)>,
    pub h: Point<Fq>,
    pub openings: OpeningProof<Fq>,
    pub messages: Messages<Fq>,
    pub advice: Advice<Fq>,
    pub xi: Fq,
    pub claimed: Claimed,
    pub msgs_wrap_digest: Fq,
    pub new_acc_dummies: &'a Vec<Vec<Fq>>,
    pub is_base_case: bool,
    pub num_bits: usize,
}

/// The residues of a pair of coordinates.
pub open spec fn pair_view(p: (Fq, Fq)) -> (int, int) {
    (p.0.view(), p.1.view())
}

/// The residues of pairs of coordinates.
pub open spec fn pair_views(ps: Seq<(Fq, Fq)>) -> Seq<(int, int)> {
    Seq::new(ps.len(), |i: int| pair_view(ps[i]))
}

/// Every pair is a point of the curve.
pub open spec fn all_on_curve(ps: Seq<(Fq, Fq)>) -> bool {
    forall|i: int| 0 <= i < ps.len() ==> on_curve::<Fq>(pair_view(#[trigger] ps[i]))
}

/// A pair of coordinates as a point.
pub open spec fn point_of(p: (Fq, Fq)) -> Point<Fq> {
    Point { x: p.0, y: p.1 }
}

/// Pairs of coordinates as points.
pub open spec fn points_of(ps: Seq<(Fq, Fq)>) -> Seq<Point<Fq>> {
    Seq::new(ps.len(), |i: int| point_of(ps[i]))
}

fn make_point(p: (Fq, Fq)) -> (r: Point<Fq>)
    ensures
        r == point_of(p),
{
    Point { x: p.0, y: p.1 }
}

/// A witnessed point: none unless it is on the curve.
fn witness_point(p: (Fq, Fq)) -> (r: Option<Point<Fq>>)
    ensures
        r is Some <==> on_curve::<Fq>(pair_view(p)),
        r matches Some(q) ==> q == point_of(p),
{
    let q = make_point(p);
    if is_on_curve(&q) {
        Some(q)
    } else {
        None
    }
}

/// Witnessed points: none unless all are on the curve.
fn witness_points(ps: &Vec<(Fq, Fq)>) -> (r: Option<Vec<Point<Fq>>>)
    ensures
        r is Some <==> all_on_curve(ps@),
        r matches Some(v) ==> v@ == points_of(ps@),
{
    let mut out: Vec<Point<Fq>> = Vec::new();
    let mut i: usize = 0;
    while i < ps.len()
        invariant
            i <= ps@.len(),
            out@.len() == i,
            forall|k: int|
                0 <= k < i ==> on_curve::<Fq>(pair_view(#[trigger] ps@[k])) && out@[k] == point_of(
                    ps@[k],
                ),
        decreases ps.len() - i,
    {
        match witness_point(ps[i]) {
            None => {
                assert(!on_curve::<Fq>(pair_view(ps@[i as int])));
                return None;
            },
            Some(q) => out.push(q),
        }
        i = i + 1;
    }
    assert(out@ =~= points_of(ps@));
    Some(out)
}

/// The value is one of those listed.
pub open spec fn is_listed(values: Seq<Fq>, x: Fq) -> bool {
    exists|i: int| 0 <= i < values.len() && (#[trigger] values[i]).view() == x.view()
}

fn listed(values: &[Fq], x: &Fq) -> (r: bool)
    ensures
        r == is_listed(values@, *x),
{
    let mut any = false;
    let mut i: usize = 0;
    while i < values.len()
        invariant
            i <= values@.len(),
            any == exists|k: int|
                0 <= k < i && (#[trigger] values@[k]).view() == x.view(),
        decreases values.len() - i,
    {
        let eq = equal(x, &values[i]);
        assert(eq == (values@[i as int].view() == x.view()));
        any = any || eq;
        i = i + 1;
    }
    any
}

/// The number of branches.
pub open spec fn branch_count(w: WrapWitnessData) -> int {
    if w.branches@.len() == 0 {
        1
    } else {
        w.branches@.len() as int
    }
}

/// How many of the first previous proofs are to be finalized.
pub open spec fn finalize_count(us: Seq<WrapUnfinalizedWitnessData>) -> nat
    decreases us.len(),
{
    if us.len() == 0 {
        0
    } else {
        finalize_count(us.drop_last()) + if us.last().should_finalize {
            1nat
        } else {
            0
        }
    }
}

/// The width of the selected branch.
pub open spec fn selected_width(w: WrapWitnessData) -> int {
    if w.branches@.len() == 0 {
        finalize_count(w.unfinalized@) as int
    } else {
        w.branches@[w.which_branch as int].proofs_verified as int
    }
}

/// The domain of the selected branch.
pub open spec fn selected_domain(w: WrapWitnessData) -> int {
    if w.branches@.len() == 0 {
        w.step_domain_log2 as int
    } else {
        w.branches@[w.which_branch as int].step_domain_log2 as int
    }
}

/// The branches agree in the number of their commitments.
pub open spec fn branches_agree(branches: Seq<WrapBranchData>) -> bool {
    forall|i: int|
        0 <= i < branches.len() ==> {
            &&& (#[trigger] branches[i]).coefficients@.len() == branches[0].coefficients@.len()
            &&& branches[i].sigma_init@.len() == branches[0].sigma_init@.len()
            &&& branches[i].sigma_last@.len() == branches[0].sigma_last@.len()
        }
}

/// `vk` holds the commitments of a branch.
pub open spec fn is_key_of(branch: WrapBranchData, vk: VerificationKeyComm<Fq>) -> bool {
    &&& vk.generic.view() == pair_view(branch.generic)
    &&& vk.psm.view() == pair_view(branch.psm)
    &&& vk.complete_add.view() == pair_view(branch.complete_add)
    &&& vk.mul.view() == pair_view(branch.mul)
    &&& vk.emul.view() == pair_view(branch.emul)
    &&& vk.endomul_scalar.view() == pair_view(branch.endomul_scalar)
    &&& point_residues(vk.coefficients@) == pair_views(branch.coefficients@)
    &&& point_residues(vk.sigma_init@) == pair_views(branch.sigma_init@)
    &&& point_residues(vk.sigma_last@) == pair_views(branch.sigma_last@)
}

/// `vk` holds the commitments of the selected branch.
pub open spec fn is_selected_key(w: WrapWitnessData, vk: VerificationKeyComm<Fq>) -> bool {
    if w.branches@.len() == 0 {
        &&& vk.generic.view() == pair_view(w.generic)
        &&& vk.psm.view() == pair_view(w.psm)
        &&& vk.complete_add.view() == pair_view(w.complete_add)
        &&& vk.mul.view() == pair_view(w.mul)
        &&& vk.emul.view() == pair_view(w.emul)
        &&& vk.endomul_scalar.view() == pair_view(w.endomul_scalar)
        &&& point_residues(vk.coefficients@) == pair_views(w.coefficients@)
        &&& point_residues(vk.sigma_init@) == pair_views(w.sigma_init@)
        &&& point_residues(vk.sigma_last@) == pair_views(w.sigma_last@)
    } else {
        is_key_of(w.branches@[w.which_branch as int], vk)
    }
}

/// The slots that an element of the step statement takes in the public input.
pub open spec fn slot_width(slot: WrapStepStatementSlot) -> nat {
    match slot {
        WrapStepStatementSlot::Field(_) => 2,
        _ => 1,
    }
}

/// The slots that the step statement takes in the public input.
pub open spec fn expanded_len(slots: Seq<WrapStepStatementSlot>) -> nat
    decreases slots.len(),
{
    if slots.len() == 0 {
        0
    } else {
        expanded_len(slots.drop_last()) + slot_width(slots.last())
    }
}

/// An element of the step statement; a packed one in the first place is the
/// digest that the wrap statement carries.
pub open spec fn element_of(slot: WrapStepStatementSlot, first: bool, digest: Fq) -> StepStatementElement {
    match slot {
        WrapStepStatementSlot::Field(value) => StepStatementElement::Split(value),
        WrapStepStatementSlot::Packed { value, num_bits } => StepStatementElement::Packed {
            value: if first {
                digest
            } else {
                value
            },
            num_bits,
        },
        WrapStepStatementSlot::Bool(value) => StepStatementElement::Bool(value),
    }
}

/// A column's evaluations are the pair at a place of the flat list.
pub open spec fn is_eval_at(flat: Seq<(Fq, Fq)>, i: int, e: PointEvalVar<Fq>) -> bool {
    e.0@ == seq![flat[i].0] && e.1@ == seq![flat[i].1]
}

/// Columns are the pairs from a place of the flat list.
pub open spec fn are_evals_from(flat: Seq<(Fq, Fq)>, i: int, n: int, es: Seq<PointEvalVar<Fq>>) -> bool {
    &&& es.len() == n
    &&& forall|k: int| 0 <= k < n ==> is_eval_at(flat, i + k, #[trigger] es[k])
}

/// The evaluations from the flat list: witness, coefficients, permutation
/// aggregation, permutation columns, the six selectors.
pub open spec fn evals_from_flat(flat: Seq<(Fq, Fq)>, e: AbsorbEvalsVar<Fq>) -> bool {
    &&& are_evals_from(flat, 0, 15, e.w@)
    &&& are_evals_from(flat, 15, 15, e.coefficients@)
    &&& is_eval_at(flat, 30, e.z)
    &&& are_evals_from(flat, 31, 6, e.s@)
    &&& is_eval_at(flat, 37, e.generic_selector)
    &&& is_eval_at(flat, 38, e.poseidon_selector)
    &&& is_eval_at(flat, 39, e.complete_add_selector)
    &&& is_eval_at(flat, 40, e.mul_selector)
    &&& is_eval_at(flat, 41, e.emul_selector)
    &&& is_eval_at(flat, 42, e.endomul_scalar_selector)
}

/// The evaluations that a flat list holds.
pub const FLAT_EVALS: usize = 43;

/// The verifier's form of a previous proof.
pub open spec fn is_carried(
    u: WrapUnfinalizedWitnessData,
    mds: Seq<Vec<Fq>>,
    r: PerUnfinalized,
) -> bool {
    &&& r.finalize_params.tokens@ == u.finalize_tokens@
    &&& r.finalize_params.domain == FinalizeDomain::Fixed(u.finalize_domain)
    &&& r.finalize_params.srs_log2 == u.finalize_srs_log2
    &&& r.finalize_params.endo == u.finalize_endo
    &&& r.finalize_params.shifts@ == u.finalize_shifts@
    &&& r.finalize_params.mds@ == mds
    &&& r.finalize_params.shift == ShiftKind::Type2
    &&& r.endo_r == u.finalize_endo_r
    &&& r.ft_eval1 == u.ft_eval1
    &&& r.public_evals.0@ == u.public_evals.0@
    &&& r.public_evals.1@ == u.public_evals.1@
    &&& evals_from_flat(u.evals_flat@, r.evals)
    &&& r.alpha == u.alpha
    &&& r.beta == u.beta
    &&& r.gamma == u.gamma
    &&& r.zeta == u.zeta
    &&& r.xi == u.xi
    &&& r.cip_repr == u.cip_repr
    &&& r.b_repr == u.b_repr
    &&& r.perm_repr == u.perm_repr
    &&& r.bulletproof_challenges@ == u.bulletproof_challenges@
    &&& r.sponge_digest_before_evaluations == u.sponge_digest_before_evaluations
    &&& r.should_finalize == u.should_finalize
    &&& same_rows(r.old_bulletproof_challenges@, u.old_bulletproof_challenges@)
    &&& r.prev_step_acc == point_of(u.prev_step_acc)
    &&& same_rows(r.hash_dummy_challenges@, u.hash_dummy_challenges@)
    &&& same_rows(r.hash_old_bulletproof_challenges@, u.hash_old_bulletproof_challenges@)
}

/// The previous proofs' accumulators are on the curve.
pub open spec fn accumulators_on_curve(us: Seq<WrapUnfinalizedWitnessData>) -> bool {
    forall|i: int|
        0 <= i < us.len() ==> on_curve::<Fq>(pair_view((#[trigger] us[i]).prev_step_acc))
}

/// Both points of each round are on the curve.
pub open spec fn rounds_on_curve(lr: Seq<((Fq, Fq), (Fq, Fq))>) -> bool {
    forall|i: int|
        0 <= i < lr.len() ==> on_curve::<Fq>(pair_view((#[trigger] lr[i]).0)) && on_curve::<Fq>(
            pair_view(lr[i].1),
        )
}

/// The opening and the commitments of the proof are points of the curve, and the
/// two opening scalars are not among the forbidden representatives.
pub open spec fn proof_is_admissible(w: WrapWitnessData, forbidden: Seq<Fq>) -> bool {
    &&& rounds_on_curve(w.lr@)
    &&& !is_listed(forbidden, w.z1_repr)
    &&& !is_listed(forbidden, w.z2_repr)
    &&& on_curve::<Fq>(pair_view(w.delta))
    &&& on_curve::<Fq>(pair_view(w.sg))
    &&& all_on_curve(w.w_comm@)
    &&& on_curve::<Fq>(pair_view(w.z_comm))
    &&& all_on_curve(w.t_comm@)
}

/// What the circuit asserts: none of the five shifted values of the statement
/// is forbidden, the branch exists, the statement packs its domain and width,
/// and every witnessed point is on the curve.
pub open spec fn assertions_hold(
    w: WrapWitnessData,
    stmt: Seq<Fq>,
    rounds: int,
    forbidden: Seq<Fq>,
) -> bool {
    &&& forall|i: int| 0 <= i < 5 ==> !is_listed(forbidden, #[trigger] stmt[i])
    &&& w.which_branch < branch_count(w)
    &&& stmt[13 + rounds].view() == 4 * selected_domain(w) + selected_width(w)
    &&& all_on_curve(w.sg_olds@)
    &&& accumulators_on_curve(w.unfinalized@)
    &&& proof_is_admissible(w, forbidden)
}

/// The opening of the proof.
pub open spec fn is_opening(w: WrapWitnessData, r: OpeningProof<Fq>) -> bool {
    &&& r.lr@.len() == w.lr@.len()
    &&& forall|i: int|
        0 <= i < w.lr@.len() ==> #[trigger] r.lr@[i] == (point_of(w.lr@[i].0), point_of(w.lr@[i].1))
    &&& r.delta == point_of(w.delta)
    &&& r.z1 == ShiftedScalar::Type1(w.z1_repr)
    &&& r.z2 == ShiftedScalar::Type1(w.z2_repr)
    &&& r.challenge_polynomial_commitment == point_of(w.sg)
    &&& r.h_generator == point_of(w.h)
}

/// The commitments of the proof, one chunk per witness column.
pub open spec fn is_messages(w: WrapWitnessData, r: Messages<Fq>) -> bool {
    &&& r.w_comm@.len() == w.w_comm@.len()
    &&& forall|i: int|
        0 <= i < w.w_comm@.len() ==> (#[trigger] r.w_comm@[i])@ == seq![point_of(w.w_comm@[i])]
    &&& r.z_comm@ == seq![point_of(w.z_comm)]
    &&& r.t_comm@ == points_of(w.t_comm@)
}

/// What the circuit hands on, field by field.
pub open spec fn handed_on(
    w: WrapWitnessData,
    stmt: Seq<Fq>,
    rounds: int,
    mds: Seq<Vec<Fq>>,
    r: WrapMainInputs,
) -> bool {
    &&& r.unfinalized@.len() == w.unfinalized@.len()
    &&& forall|i: int|
        0 <= i < w.unfinalized@.len() ==> is_carried(
            w.unfinalized@[i],
            mds,
            #[trigger] r.unfinalized@[i],
        )
    &&& r.actual_proofs_verified_mask@.len() == w.sg_olds@.len()
    &&& forall|i: int|
        0 <= i < w.sg_olds@.len() ==> #[trigger] r.actual_proofs_verified_mask@[i] == (i
            < selected_width(w))
    &&& r.sg_olds@ == points_of(w.sg_olds@)
    &&& is_selected_key(w, r.vk)
    &&& r.elements@.len() == w.step_statement@.len()
    &&& forall|i: int|
        0 <= i < w.step_statement@.len() ==> #[trigger] r.elements@[i] == element_of(
            w.step_statement@[i],
            i == 0,
            stmt[12],
        )
    &&& r.lagranges@.len() == w.step_statement_lagranges@.len()
    &&& forall|i: int|
        0 <= i < w.step_statement_lagranges@.len() ==> #[trigger] r.lagranges@[i] == (
            point_of(w.step_statement_lagranges@[i].0),
            point_of(w.step_statement_lagranges@[i].1),
        )
    &&& r.h == point_of(w.h)
    &&& is_opening(w, r.openings)
    &&& is_messages(w, r.messages)
    &&& r.advice.combined_inner_product == ShiftedScalar::Type1(stmt[0])
    &&& r.advice.b == ShiftedScalar::Type1(stmt[1])
    &&& r.advice.zeta_to_srs_length == ShiftedScalar::Type1(stmt[2])
    &&& r.advice.zeta_to_domain_size == ShiftedScalar::Type1(stmt[3])
    &&& r.advice.perm == ShiftedScalar::Type1(stmt[4])
    &&& r.claimed.beta == stmt[5]
    &&& r.claimed.gamma == stmt[6]
    &&& r.claimed.alpha == stmt[7]
    &&& r.claimed.zeta == stmt[8]
    &&& r.xi == stmt[9]
    &&& r.claimed.sponge_digest_before_evaluations == stmt[10]
    &&& r.msgs_wrap_digest == stmt[11]
    &&& r.claimed.bulletproof_challenges@ == stmt.subrange(13, 13 + rounds)
    &&& *r.new_acc_dummies == w.new_acc_dummies
    &&& r.is_base_case == (selected_width(w) == 0)
    &&& r.num_bits == SCALAR_BITS
}

/// The one-hot of the branch, and whether any bit is set.
fn branch_bits(which: usize, count: usize) -> (r: (Vec<bool>, bool))
    ensures
        r.0@.len() == count,
        forall|i: int| 0 <= i < count ==> #[trigger] r.0@[i] == (i == which),
        r.1 == (which < count),
{
    let target: Fq = from_u64(which as u64);
    let mut bits: Vec<bool> = Vec::new();
    let mut any = false;
    let mut i: usize = 0;
    while i < count
        invariant
            i <= count,
            bits@.len() == i,
            target.view() == which,
            forall|k: int| 0 <= k < i ==> #[trigger] bits@[k] == (k == which),
            any == (which < i),
        decreases count - i,
    {
        let index: Fq = from_u64(i as u64);
        let bit = equal(&index, &target);
        bits.push(bit);
        any = any || bit;
        i = i + 1;
    }
    (bits, any)
}

fn chosen_number(bits: &[bool], values: &Vec<u64>, k: usize) -> (r: Fq)
    requires
        bits@.len() == values@.len(),
        k < bits@.len(),
        forall|i: int| 0 <= i < bits@.len() ==> #[trigger] bits@[i] == (i == k),
    ensures
        r.view() == values@[k as int],
{
    let mut elements: Vec<Fq> = Vec::new();
    let mut i: usize = 0;
    while i < values.len()
        invariant
            i <= values@.len(),
            elements@.len() == i,
            forall|j: int| 0 <= j < i ==> (#[trigger] elements@[j]).view() == values@[j],
        decreases values.len() - i,
    {
        elements.push(from_u64(values[i]));
        i = i + 1;
    }
    proof {
        Fq::lemma_modulus();
        assert forall|j: int| 0 <= j < elements@.len() implies 0 <= #[trigger] residues(
            elements@,
        )[j] < Fq::modulus() by {
            Fq::lemma_canonical(elements@[j]);
        }
        one_hot_mask_selects::<Fq>(bits@, residues(elements@), k as int);
    }
    sum_masked(bits, elements.as_slice())
}

fn choose_point(bits: &[bool], points: &Vec<(Fq, Fq)>, k: usize) -> (r: Point<Fq>)
    requires
        bits@.len() == points@.len(),
        k < bits@.len(),
        forall|i: int| 0 <= i < bits@.len() ==> #[trigger] bits@[i] == (i == k),
    ensures
        r.view() == pair_view(points@[k as int]),
{
    let mut xs: Vec<Fq> = Vec::new();
    let mut ys: Vec<Fq> = Vec::new();
    let mut i: usize = 0;
    while i < points.len()
        invariant
            i <= points@.len(),
            xs@.len() == i,
            ys@.len() == i,
            forall|j: int| 0 <= j < i ==> #[trigger] xs@[j] == points@[j].0,
            forall|j: int| 0 <= j < i ==> #[trigger] ys@[j] == points@[j].1,
        decreases points.len() - i,
    {
        xs.push(points[i].0);
        ys.push(points[i].1);
        i = i + 1;
    }
    proof {
        assert forall|j: int| 0 <= j < xs@.len() implies 0 <= #[trigger] residues(xs@)[j]
            < Fq::modulus() by {
            Fq::lemma_canonical(xs@[j]);
        }
        assert forall|j: int| 0 <= j < ys@.len() implies 0 <= #[trigger] residues(ys@)[j]
            < Fq::modulus() by {
            Fq::lemma_canonical(ys@[j]);
        }
        one_hot_mask_selects::<Fq>(bits@, residues(xs@), k as int);
        one_hot_mask_selects::<Fq>(bits@, residues(ys@), k as int);
    }
    let y = sum_masked(bits, ys.as_slice());
    let x = sum_masked(bits, xs.as_slice());
    Point { x, y }
}

/// Which commitment of a branch.
#[derive(Clone, Copy, Debug, PartialEq, Eq, Structural)]
enum KeyPart {
    Generic,
    Psm,
    CompleteAdd,
    Mul,
    Emul,
    EndomulScalar,
    Coefficients(usize),
    SigmaInit(usize),
    SigmaLast(usize),
}

impl WrapBranchData {
    spec fn part(self, part: KeyPart) -> (Fq, Fq) {
        match part {
            KeyPart::Generic => self.generic,
            KeyPart::Psm => self.psm,
            KeyPart::CompleteAdd => self.complete_add,
            KeyPart::Mul => self.mul,
            KeyPart::Emul => self.emul,
            KeyPart::EndomulScalar => self.endomul_scalar,
            KeyPart::Coefficients(i) => self.coefficients@[i as int],
            KeyPart::SigmaInit(i) => self.sigma_init@[i as int],
            KeyPart::SigmaLast(i) => self.sigma_last@[i as int],
        }
    }

    spec fn has_part(self, part: KeyPart) -> bool {
        match part {
            KeyPart::Coefficients(i) => i < self.coefficients@.len(),
            KeyPart::SigmaInit(i) => i < self.sigma_init@.len(),
            KeyPart::SigmaLast(i) => i < self.sigma_last@.len(),
            _ => true,
        }
    }

    fn get(&self, part: KeyPart) -> (r: (Fq, Fq))
        requires
            self.has_part(part),
        ensures
            r == self.part(part),
    {
        match part {
            KeyPart::Generic => self.generic,
            KeyPart::Psm => self.psm,
            KeyPart::CompleteAdd => self.complete_add,
            KeyPart::Mul => self.mul,
            KeyPart::Emul => self.emul,
            KeyPart::EndomulScalar => self.endomul_scalar,
            KeyPart::Coefficients(i) => self.coefficients[i],
            KeyPart::SigmaInit(i) => self.sigma_init[i],
            KeyPart::SigmaLast(i) => self.sigma_last[i],
        }
    }
}

fn choose_part(bits: &[bool], branches: &Vec<WrapBranchData>, k: usize, part: KeyPart) -> (r: Point<
    Fq,
>)
    requires
        bits@.len() == branches@.len(),
        k < bits@.len(),
        forall|i: int| 0 <= i < bits@.len() ==> #[trigger] bits@[i] == (i == k),
        forall|i: int| 0 <= i < branches@.len() ==> (#[trigger] branches@[i]).has_part(part),
    ensures
        r.view() == pair_view(branches@[k as int].part(part)),
{
    let mut points: Vec<(Fq, Fq)> = Vec::new();
    let mut i: usize = 0;
    while i < branches.len()
        invariant
            i <= branches@.len(),
            points@.len() == i,
            forall|j: int|
                0 <= j < branches@.len() ==> (#[trigger] branches@[j]).has_part(part),
            forall|j: int| 0 <= j < i ==> #[trigger] points@[j] == branches@[j].part(part),
        decreases branches.len() - i,
    {
        points.push(branches[i].get(part));
        i = i + 1;
    }
    choose_point(bits, &points, k)
}

fn choose_coefficients(bits: &[bool], branches: &Vec<WrapBranchData>, k: usize) -> (r: Vec<Point<Fq>>)
    requires
        bits@.len() == branches@.len(),
        k < bits@.len(),
        forall|i: int| 0 <= i < bits@.len() ==> #[trigger] bits@[i] == (i == k),
        branches_agree(branches@),
    ensures
        point_residues(r@) == pair_views(branches@[k as int].coefficients@),
{
    let n = branches[0].coefficients.len();
    let mut out: Vec<Point<Fq>> = Vec::new();
    while out.len() < n
        invariant
            out@.len() <= n,
            bits@.len() == branches@.len(),
            k < bits@.len(),
            forall|i: int| 0 <= i < bits@.len() ==> #[trigger] bits@[i] == (i == k),
            branches_agree(branches@),
            n == branches@[0].coefficients@.len(),
            forall|j: int|
                0 <= j < out@.len() ==> (#[trigger] out@[j]).view() == pair_view(
                    branches@[k as int].coefficients@[j],
                ),
        decreases n - out.len(),
    {
        let p = choose_part(bits, branches, k, KeyPart::Coefficients(out.len()));
        out.push(p);
    }
    assert(branches@[k as int].coefficients@.len() == n);
    assert(point_residues(out@) =~= pair_views(branches@[k as int].coefficients@));
    out
}

fn choose_sigma_init(bits: &[bool], branches: &Vec<WrapBranchData>, k: usize) -> (r: Vec<Point<Fq>>)
    requires
        bits@.len() == branches@.len(),
        k < bits@.len(),
        forall|i: int| 0 <= i < bits@.len() ==> #[trigger] bits@[i] == (i == k),
        branches_agree(branches@),
    ensures
        point_residues(r@) == pair_views(branches@[k as int].sigma_init@),
{
    let n = branches[0].sigma_init.len();
    let mut out: Vec<Point<Fq>> = Vec::new();
    while out.len() < n
        invariant
            out@.len() <= n,
            bits@.len() == branches@.len(),
            k < bits@.len(),
            forall|i: int| 0 <= i < bits@.len() ==> #[trigger] bits@[i] == (i == k),
            branches_agree(branches@),
            n == branches@[0].sigma_init@.len(),
            forall|j: int|
                0 <= j < out@.len() ==> (#[trigger] out@[j]).view() == pair_view(
                    branches@[k as int].sigma_init@[j],
                ),
        decreases n - out.len(),
    {
        let p = choose_part(bits, branches, k, KeyPart::SigmaInit(out.len()));
        out.push(p);
    }
    assert(branches@[k as int].sigma_init@.len() == n);
    assert(point_residues(out@) =~= pair_views(branches@[k as int].sigma_init@));
    out
}

fn choose_sigma_last(bits: &[bool], branches: &Vec<WrapBranchData>, k: usize) -> (r: Vec<Point<Fq>>)
    requires
        bits@.len() == branches@.len(),
        k < bits@.len(),
        forall|i: int| 0 <= i < bits@.len() ==> #[trigger] bits@[i] == (i == k),
        branches_agree(branches@),
    ensures
        point_residues(r@) == pair_views(branches@[k as int].sigma_last@),
{
    let n = branches[0].sigma_last.len();
    let mut out: Vec<Point<Fq>> = Vec::new();
    while out.len() < n
        invariant
            out@.len() <= n,
            bits@.len() == branches@.len(),
            k < bits@.len(),
            forall|i: int| 0 <= i < bits@.len() ==> #[trigger] bits@[i] == (i == k),
            branches_agree(branches@),
            n == branches@[0].sigma_last@.len(),
            forall|j: int|
                0 <= j < out@.len() ==> (#[trigger] out@[j]).view() == pair_view(
                    branches@[k as int].sigma_last@[j],
                ),
        decreases n - out.len(),
    {
        let p = choose_part(bits, branches, k, KeyPart::SigmaLast(out.len()));
        out.push(p);
    }
    assert(branches@[k as int].sigma_last@.len() == n);
    assert(point_residues(out@) =~= pair_views(branches@[k as int].sigma_last@));
    out
}

/// The verification key of the selected branch, every coordinate a sum over the
/// branches weighted by the one-hot.
fn choose_key(bits: &[bool], branches: &Vec<WrapBranchData>, k: usize) -> (r: VerificationKeyComm<
    Fq,
>)
    requires
        bits@.len() == branches@.len(),
        k < bits@.len(),
        forall|i: int| 0 <= i < bits@.len() ==> #[trigger] bits@[i] == (i == k),
        branches_agree(branches@),
    ensures
        is_key_of(branches@[k as int], r),
{
    VerificationKeyComm {
        generic: choose_part(bits, branches, k, KeyPart::Generic),
        psm: choose_part(bits, branches, k, KeyPart::Psm),
        complete_add: choose_part(bits, branches, k, KeyPart::CompleteAdd),
        mul: choose_part(bits, branches, k, KeyPart::Mul),
        emul: choose_part(bits, branches, k, KeyPart::Emul),
        endomul_scalar: choose_part(bits, branches, k, KeyPart::EndomulScalar),
        coefficients: choose_coefficients(bits, branches, k),
        sigma_init: choose_sigma_init(bits, branches, k),
        sigma_last: choose_sigma_last(bits, branches, k),
    }
}

fn count_to_finalize(us: &Vec<WrapUnfinalizedWitnessData>) -> (r: usize)
    ensures
        r == finalize_count(us@),
        r <= us@.len(),
{
    let mut count: usize = 0;
    let mut i: usize = 0;
    while i < us.len()
        invariant
            i <= us@.len(),
            count <= i,
            count == finalize_count(us@.take(i as int)),
        decreases us.len() - i,
    {
        if us[i].should_finalize {
            count = count + 1;
        }
        assert(us@.take(i + 1).drop_last() =~= us@.take(i as int));
        i = i + 1;
    }
    assert(us@.take(i as int) =~= us@);
    count
}

/// The bits of the accumulators that are real, cut at the width.
fn width_mask(width: &Fq, len: usize) -> (r: Vec<bool>)
    ensures
        r@.len() == len,
        forall|i: int| 0 <= i < len ==> #[trigger] r@[i] == (i < width.view()),
{
    let mut mask: Vec<bool> = Vec::new();
    let mut keep = true;
    let mut i: usize = 0;
    proof {
        Fq::lemma_canonical(*width);
    }
    while i < len
        invariant
            i <= len,
            mask@.len() == i,
            keep == (i <= width.view()),
            forall|k: int| 0 <= k < i ==> #[trigger] mask@[k] == (k < width.view()),
        decreases len - i,
    {
        let index: Fq = from_u64(i as u64);
        let is_first_zero = equal(width, &index);
        keep = keep && !is_first_zero;
        mask.push(keep);
        i = i + 1;
    }
    mask
}

fn single_eval(flat: &Vec<(Fq, Fq)>, i: usize) -> (r: PointEvalVar<Fq>)
    requires
        i < flat@.len(),
    ensures
        is_eval_at(flat@, i as int, r),
{
    let mut a: Vec<Fq> = Vec::new();
    a.push(flat[i].0);
    let mut b: Vec<Fq> = Vec::new();
    b.push(flat[i].1);
    assert(a@ =~= seq![flat@[i as int].0]);
    assert(b@ =~= seq![flat@[i as int].1]);
    (a, b)
}

fn evals_from(flat: &Vec<(Fq, Fq)>, start: usize, n: usize) -> (r: Vec<PointEvalVar<Fq>>)
    requires
        start + n <= flat@.len(),
    ensures
        are_evals_from(flat@, start as int, n as int, r@),
{
    let mut out: Vec<PointEvalVar<Fq>> = Vec::new();
    let len = flat.len();
    while out.len() < n
        invariant
            out@.len() <= n,
            start + n <= len,
            len == flat@.len(),
            forall|k: int| 0 <= k < out@.len() ==> is_eval_at(flat@, start + k, #[trigger] out@[k]),
        decreases n - out.len(),
    {
        let e = single_eval(flat, start + out.len());
        out.push(e);
    }
    out
}

fn read_evals(flat: &Vec<(Fq, Fq)>) -> (r: AbsorbEvalsVar<Fq>)
    requires
        flat@.len() >= FLAT_EVALS,
    ensures
        evals_from_flat(flat@, r),
{
    AbsorbEvalsVar {
        w: evals_from(flat, 0, COLUMNS),
        coefficients: evals_from(flat, 15, COLUMNS),
        z: single_eval(flat, 30),
        s: evals_from(flat, 31, PERMUTS - 1),
        generic_selector: single_eval(flat, 37),
        poseidon_selector: single_eval(flat, 38),
        complete_add_selector: single_eval(flat, 39),
        mul_selector: single_eval(flat, 40),
        emul_selector: single_eval(flat, 41),
        endomul_scalar_selector: single_eval(flat, 42),
    }
}

fn carry<'a>(
    u: &'a WrapUnfinalizedWitnessData,
    mds: &'a Vec<Vec<Fq>>,
    prev_step_acc: Point<Fq>,
) -> (r: PerUnfinalized<'a>)
    requires
        u.evals_flat@.len() >= FLAT_EVALS,
        prev_step_acc == point_of(u.prev_step_acc),
    ensures
        is_carried(*u, mds@, r),
{
    PerUnfinalized {
        finalize_params: FinalizeParams {
            tokens: &u.finalize_tokens,
            domain: FinalizeDomain::Fixed(u.finalize_domain),
            srs_log2: u.finalize_srs_log2,
            endo: u.finalize_endo,
            shifts: &u.finalize_shifts,
            mds,
            shift: ShiftKind::Type2,
        },
        endo_r: u.finalize_endo_r,
        ft_eval1: u.ft_eval1,
        public_evals: (copied(&u.public_evals.0), copied(&u.public_evals.1)),
        evals: read_evals(&u.evals_flat),
        alpha: u.alpha,
        beta: u.beta,
        gamma: u.gamma,
        zeta: u.zeta,
        xi: u.xi,
        cip_repr: u.cip_repr,
        b_repr: u.b_repr,
        perm_repr: u.perm_repr,
        bulletproof_challenges: copied(&u.bulletproof_challenges),
        sponge_digest_before_evaluations: u.sponge_digest_before_evaluations,
        should_finalize: u.should_finalize,
        old_bulletproof_challenges: copied_rows(&u.old_bulletproof_challenges),
        prev_step_acc,
        hash_dummy_challenges: copied_rows(&u.hash_dummy_challenges),
        hash_old_bulletproof_challenges: copied_rows(&u.hash_old_bulletproof_challenges),
    }
}

fn carry_all<'a>(us: &'a Vec<WrapUnfinalizedWitnessData>, mds: &'a Vec<Vec<Fq>>) -> (r: Option<
    Vec<PerUnfinalized<'a>>,
>)
    requires
        forall|i: int|
            0 <= i < us@.len() ==> (#[trigger] us@[i]).evals_flat@.len() >= FLAT_EVALS,
    ensures
        r is Some <==> accumulators_on_curve(us@),
        r matches Some(v) ==> v@.len() == us@.len() && forall|i: int|
            0 <= i < us@.len() ==> is_carried(us@[i], mds@, #[trigger] v@[i]),
{
    let mut out: Vec<PerUnfinalized<'a>> = Vec::new();
    let mut i: usize = 0;
    while i < us.len()
        invariant
            i <= us@.len(),
            forall|k: int|
                0 <= k < us@.len() ==> (#[trigger] us@[k]).evals_flat@.len() >= FLAT_EVALS,
            out@.len() == i,
            forall|k: int|
                0 <= k < i ==> on_curve::<Fq>(pair_view((#[trigger] us@[k]).prev_step_acc)),
            forall|k: int| 0 <= k < i ==> is_carried(us@[k], mds@, #[trigger] out@[k]),
        decreases us.len() - i,
    {
        match witness_point(us[i].prev_step_acc) {
            None => {
                assert(!on_curve::<Fq>(pair_view(us@[i as int].prev_step_acc)));
                return None;
            },
            Some(p) => {
                let carried = carry(&us[i], mds, p);
                out.push(carried);
            },
        }
        i = i + 1;
    }
    Some(out)
}

fn make_elements(slots: &Vec<WrapStepStatementSlot>, digest: Fq) -> (r: Vec<StepStatementElement>)
    ensures
        r@.len() == slots@.len(),
        forall|i: int|
            0 <= i < slots@.len() ==> #[trigger] r@[i] == element_of(slots@[i], i == 0, digest),
{
    let mut out: Vec<StepStatementElement> = Vec::new();
    let mut i: usize = 0;
    while i < slots.len()
        invariant
            i <= slots@.len(),
            out@.len() == i,
            forall|k: int|
                0 <= k < i ==> #[trigger] out@[k] == element_of(slots@[k], k == 0, digest),
        decreases slots.len() - i,
    {
        let element = match slots[i] {
            WrapStepStatementSlot::Field(value) => StepStatementElement::Split(value),
            WrapStepStatementSlot::Packed { value, num_bits } => StepStatementElement::Packed {
                value: if i == 0 {
                    digest
                } else {
                    value
                },
                num_bits,
            },
            WrapStepStatementSlot::Bool(value) => StepStatementElement::Bool(value),
        };
        out.push(element);
        i = i + 1;
    }
    out
}

fn make_lagranges(pairs: &Vec<((Fq, Fq), (Fq, Fq))>) -> (r: Vec<(Point<Fq>, Point<Fq>)>)
    ensures
        r@.len() == pairs@.len(),
        forall|i: int|
            0 <= i < pairs@.len() ==> #[trigger] r@[i] == (
                point_of(pairs@[i].0),
                point_of(pairs@[i].1),
            ),
{
    let mut out: Vec<(Point<Fq>, Point<Fq>)> = Vec::new();
    let mut i: usize = 0;
    while i < pairs.len()
        invariant
            i <= pairs@.len(),
            out@.len() == i,
            forall|k: int|
                0 <= k < i ==> #[trigger] out@[k] == (point_of(pairs@[k].0), point_of(pairs@[k].1)),
        decreases pairs.len() - i,
    {
        out.push((make_point(pairs[i].0), make_point(pairs[i].1)));
        i = i + 1;
    }
    out
}

/// The opening and the commitments of the proof: none when a point is not on the
/// curve or an opening scalar is forbidden.
pub fn witness_proof(w: &WrapWitnessData, forbidden: &[Fq]) -> (r: Option<
    (OpeningProof<Fq>, Messages<Fq>),
>)
    ensures
        r is Some <==> proof_is_admissible(*w, forbidden@),
        r matches Some((openings, messages)) ==> is_opening(*w, openings) && is_messages(
            *w,
            messages,
        ),
{
    let mut lr: Vec<(Point<Fq>, Point<Fq>)> = Vec::new();
    let mut i: usize = 0;
    while i < w.lr.len()
        invariant
            i <= w.lr@.len(),
            lr@.len() == i,
            forall|k: int|
                0 <= k < i ==> on_curve::<Fq>(pair_view((#[trigger] w.lr@[k]).0)) && on_curve::<Fq>(
                    pair_view(w.lr@[k].1),
                ) && lr@[k] == (point_of(w.lr@[k].0), point_of(w.lr@[k].1)),
        decreases w.lr.len() - i,
    {
        match (witness_point(w.lr[i].0), witness_point(w.lr[i].1)) {
            (Some(l), Some(r)) => lr.push((l, r)),
            _ => {
                assert(!rounds_on_curve(w.lr@)) by {
                    assert(!(on_curve::<Fq>(pair_view(w.lr@[i as int].0)) && on_curve::<Fq>(
                        pair_view(w.lr@[i as int].1),
                    )));
                }
                return None;
            },
        }
        i = i + 1;
    }
    if listed(forbidden, &w.z1_repr) || listed(forbidden, &w.z2_repr) {
        return None;
    }
    let (delta, sg, z_comm) = match (
        witness_point(w.delta),
        witness_point(w.sg),
        witness_point(w.z_comm),
    ) {
        (Some(delta), Some(sg), Some(z_comm)) => (delta, sg, z_comm),
        _ => return None,
    };
    let (w_points, t_comm) = match (witness_points(&w.w_comm), witness_points(&w.t_comm)) {
        (Some(w_points), Some(t_comm)) => (w_points, t_comm),
        _ => return None,
    };
    let mut w_comm: Vec<Vec<Point<Fq>>> = Vec::new();
    let mut j: usize = 0;
    while j < w_points.len()
        invariant
            j <= w_points@.len(),
            w_comm@.len() == j,
            forall|k: int| 0 <= k < j ==> (#[trigger] w_comm@[k])@ == seq![w_points@[k]],
        decreases w_points.len() - j,
    {
        let mut chunk: Vec<Point<Fq>> = Vec::new();
        chunk.push(w_points[j]);
        assert(chunk@ =~= seq![w_points@[j as int]]);
        w_comm.push(chunk);
        j = j + 1;
    }
    let mut z_chunks: Vec<Point<Fq>> = Vec::new();
    z_chunks.push(z_comm);
    assert(z_chunks@ =~= seq![point_of(w.z_comm)]);
    let openings = OpeningProof {
        lr,
        delta,
        z1: ShiftedScalar::Type1(w.z1_repr),
        z2: ShiftedScalar::Type1(w.z2_repr),
        challenge_polynomial_commitment: sg,
        h_generator: make_point(w.h),
    };
    let messages = Messages { w_comm, z_comm: z_chunks, t_comm };
    Some((openings, messages))
}

/// The wrap circuit, for `ROUNDS` bulletproof challenges and a statement of
/// `STMT_LEN` slots.
pub struct WrapCircuit<const ROUNDS: usize, const STMT_LEN: usize> {
    /// The witness with which the circuit is compiled, where none is proved.
    pub w: Option<WrapWitnessData>,
}

/// What the circuit needs of its witness: as many Lagrange points as slots, the
/// same number of commitments in every branch, and all evaluations of every
/// previous proof.
pub open spec fn witness_wf(w: WrapWitnessData) -> bool {
    &&& expanded_len(w.step_statement@) == w.step_statement_lagranges@.len()
    &&& branches_agree(w.branches@)
    &&& forall|i: int|
        0 <= i < w.unfinalized@.len() ==> (#[trigger] w.unfinalized@[i]).evals_flat@.len()
            >= FLAT_EVALS
}

impl<const ROUNDS: usize, const STMT_LEN: usize> WrapCircuit<ROUNDS, STMT_LEN> {
    /// The witness in use: the one that is proved, else the one compiled with.
    pub open spec fn witness(self, private: Option<&WrapWitnessData>) -> WrapWitnessData {
        match private {
            Some(w) => *w,
            None => self.w->0,
        }
    }

    /// Runs the circuit on a statement: what it hands to the verifier, or none
    /// when one of its own assertions fails. `forbidden` lists the shifted
    /// values that stand for two scalars, and `mds` is the Poseidon matrix.
    pub fn circuit<'a>(
        &'a self,
        stmt: &[Fq; STMT_LEN],
        private: Option<&'a WrapWitnessData>,
        forbidden: &[Fq],
        mds: &'a Vec<Vec<Fq>>,
    ) -> (r: Option<WrapMainInputs<'a>>)
        requires
            STMT_LEN == STATEMENT_HEAD + ROUNDS + STATEMENT_TAIL,
            private is Some || self.w is Some,
            witness_wf(self.witness(private)),
        ensures
            r is Some <==> assertions_hold(
                self.witness(private),
                stmt@,
                ROUNDS as int,
                forbidden@,
            ),
            r matches Some(inputs) ==> handed_on(
                self.witness(private),
                stmt@,
                ROUNDS as int,
                mds@,
                inputs,
            ),
    {
        let w: &'a WrapWitnessData = match private {
            Some(w) => w,
            None => self.w.as_ref().unwrap(),
        };
        run(w, stmt.as_slice(), ROUNDS, forbidden, mds)
    }
}

/// Whether one of the first five slots is forbidden, last to first.
fn any_forbidden(stmt: &[Fq], forbidden: &[Fq]) -> (r: bool)
    requires
        stmt@.len() >= 5,
    ensures
        !r <==> forall|i: int| 0 <= i < 5 ==> !is_listed(forbidden@, #[trigger] stmt@[i]),
{
    let mut i: usize = 5;
    while i > 0
        invariant
            i <= 5,
            stmt@.len() >= 5,
            forall|k: int| i <= k < 5 ==> !is_listed(forbidden@, #[trigger] stmt@[k]),
        decreases i,
    {
        i = i - 1;
        if listed(forbidden, &stmt[i]) {
            assert(is_listed(forbidden@, stmt@[i as int]));
            return true;
        }
    }
    false
}

/// The one branch of a circuit with no branches listed.
fn own_branch(w: &WrapWitnessData) -> (r: WrapBranchData)
    ensures
        r.proofs_verified == finalize_count(w.unfinalized@),
        r.step_domain_log2 == w.step_domain_log2,
        r.generic == w.generic,
        r.psm == w.psm,
        r.complete_add == w.complete_add,
        r.mul == w.mul,
        r.emul == w.emul,
        r.endomul_scalar == w.endomul_scalar,
        r.coefficients@ == w.coefficients@,
        r.sigma_init@ == w.sigma_init@,
        r.sigma_last@ == w.sigma_last@,
{
    WrapBranchData {
        proofs_verified: count_to_finalize(&w.unfinalized),
        step_domain_log2: w.step_domain_log2,
        generic: w.generic,
        psm: w.psm,
        complete_add: w.complete_add,
        mul: w.mul,
        emul: w.emul,
        endomul_scalar: w.endomul_scalar,
        coefficients: copied(&w.coefficients),
        sigma_init: copied(&w.sigma_init),
        sigma_last: copied(&w.sigma_last),
    }
}

/// The width, the packed branch and the key of the selected branch.
struct Selection {
    width: Fq,
    packed: Fq,
    vk: VerificationKeyComm<Fq>,
}

fn select(branches: &Vec<WrapBranchData>, which: usize) -> (r: Option<Selection>)
    requires
        branches_agree(branches@),
    ensures
        r is Some <==> which < branches@.len(),
        r matches Some(s) ==> {
            let branch = branches@[which as int];
            &&& s.width.view() == branch.proofs_verified
            &&& s.packed.view() == 4 * branch.step_domain_log2 + branch.proofs_verified
            &&& is_key_of(branch, s.vk)
        },
{
    let (bits, any) = branch_bits(which, branches.len());
    if !any {
        return None;
    }
    let mut widths: Vec<u64> = Vec::new();
    let mut domains: Vec<u64> = Vec::new();
    let mut i: usize = 0;
    while i < branches.len()
        invariant
            i <= branches@.len(),
            widths@.len() == i,
            domains@.len() == i,
            forall|k: int| 0 <= k < i ==> #[trigger] widths@[k] == branches@[k].proofs_verified,
            forall|k: int| 0 <= k < i ==> #[trigger] domains@[k] == branches@[k].step_domain_log2,
        decreases branches.len() - i,
    {
        widths.push(branches[i].proofs_verified as u64);
        domains.push(branches[i].step_domain_log2 as u64);
        i = i + 1;
    }
    let width = chosen_number(bits.as_slice(), &widths, which);
    let domain = chosen_number(bits.as_slice(), &domains, which);
    let four: Fq = from_u64(4);
    let packed = four.mul(&domain).add(&width);
    proof {
        Fq::lemma_modulus();
        let d = branches@[which as int].step_domain_log2 as int;
        let n = branches@[which as int].proofs_verified as int;
        vstd::arithmetic::div_mod::lemma_small_mod((4 * d) as nat, Fq::modulus() as nat);
        vstd::arithmetic::div_mod::lemma_small_mod((4 * d + n) as nat, Fq::modulus() as nat);
    }
    let vk = choose_key(bits.as_slice(), branches, which);
    Some(Selection { width, packed, vk })
}

fn run<'a>(
    w: &'a WrapWitnessData,
    stmt: &[Fq],
    rounds: usize,
    forbidden: &[Fq],
    mds: &'a Vec<Vec<Fq>>,
) -> (r: Option<WrapMainInputs<'a>>)
    requires
        stmt@.len() == STATEMENT_HEAD + rounds + STATEMENT_TAIL,
        witness_wf(*w),
    ensures
        r is Some <==> assertions_hold(*w, stmt@, rounds as int, forbidden@),
        r matches Some(inputs) ==> handed_on(*w, stmt@, rounds as int, mds@, inputs),
{
    if any_forbidden(stmt, forbidden) {
        return None;
    }
    let branch_slot = stmt.len() - STATEMENT_TAIL;
    let selection = if w.branches.len() == 0 {
        let mut own: Vec<WrapBranchData> = Vec::new();
        own.push(own_branch(w));
        select(&own, w.which_branch)
    } else {
        select(&w.branches, w.which_branch)
    };
    let selection = match selection {
        None => return None,
        Some(s) => s,
    };
    assert(selection.width.view() == selected_width(*w));
    assert(selection.packed.view() == 4 * selected_domain(*w) + selected_width(*w));
    assert(is_selected_key(*w, selection.vk));
    if !equal(&stmt[branch_slot], &selection.packed) {
        return None;
    }
    let actual_proofs_verified_mask = width_mask(&selection.width, w.sg_olds.len());
    let elements = make_elements(&w.step_statement, stmt[12]);
    let sg_olds = match witness_points(&w.sg_olds) {
        None => return None,
        Some(points) => points,
    };
    let unfinalized = match carry_all(&w.unfinalized, mds) {
        None => return None,
        Some(us) => us,
    };
    let (openings, messages) = match witness_proof(w, forbidden) {
        None => return None,
        Some(parts) => parts,
    };
    let mut bulletproof_challenges: Vec<Fq> = Vec::new();
    crate::sequences::append(
        &mut bulletproof_challenges,
        vstd::slice::slice_subrange(stmt, 13, branch_slot),
    );
    assert(bulletproof_challenges@ =~= stmt@.subrange(13, 13 + rounds));
    let nothing: Fq = from_u64(0);
    let is_base_case = equal(&selection.width, &nothing);
    Some(
        WrapMainInputs {
            unfinalized,
            actual_proofs_verified_mask,
            sg_olds,
            vk: selection.vk,
            elements,
            lagranges: make_lagranges(&w.step_statement_lagranges),
            h: make_point(w.h),
            openings,
            messages,
            advice: Advice {
                combined_inner_product: ShiftedScalar::Type1(stmt[0]),
                b: ShiftedScalar::Type1(stmt[1]),
                zeta_to_srs_length: ShiftedScalar::Type1(stmt[2]),
                zeta_to_domain_size: ShiftedScalar::Type1(stmt[3]),
                perm: ShiftedScalar::Type1(stmt[4]),
            },
            xi: stmt[9],
            claimed: Claimed {
                beta: stmt[5],
                gamma: stmt[6],
                alpha: stmt[7],
                zeta: stmt[8],
                sponge_digest_before_evaluations: stmt[10],
                bulletproof_challenges,
            },
            msgs_wrap_digest: stmt[11],
            new_acc_dummies: &w.new_acc_dummies,
            is_base_case,
            num_bits: SCALAR_BITS,
        },
    )
}

/// Reading the flat evaluations undoes laying them out: evaluations of single
/// chunks, laid out as the witness columns, the coefficients, the permutation,
/// the permutation columns and the six selectors, are read back each into its
/// own column.
pub proof fn reading_undoes_laying_out(
    e: AbsorbEvalsVar<Fq>,
    flat: Seq<(Fq, Fq)>,
    r: AbsorbEvalsVar<Fq>,
)
    requires
        e.w@.len() == 15,
        e.coefficients@.len() == 15,
        e.s@.len() == 6,
        forall|i: int|
            0 <= i < e.ordered_points().len() ==> single_chunk(#[trigger] e.ordered_points()[i]),
        flat == first_chunks(e.w@) + first_chunks(e.coefficients@) + first_chunks(seq![e.z])
            + first_chunks(e.s@) + first_chunks(
            seq![
                e.generic_selector,
                e.poseidon_selector,
                e.complete_add_selector,
                e.mul_selector,
                e.emul_selector,
                e.endomul_scalar_selector,
            ],
        ),
        evals_from_flat(flat, r),
    ensures
        flat.len() == FLAT_EVALS,
        same_evaluations(r.w@, e.w@),
        same_evaluations(r.coefficients@, e.coefficients@),
        same_evaluations(seq![r.z], seq![e.z]),
        same_evaluations(r.s@, e.s@),
        same_evaluations(seq![r.generic_selector], seq![e.generic_selector]),
        same_evaluations(seq![r.poseidon_selector], seq![e.poseidon_selector]),
        same_evaluations(seq![r.complete_add_selector], seq![e.complete_add_selector]),
        same_evaluations(seq![r.mul_selector], seq![e.mul_selector]),
        same_evaluations(seq![r.emul_selector], seq![e.emul_selector]),
        same_evaluations(seq![r.endomul_scalar_selector], seq![e.endomul_scalar_selector]),
{
    let all = e.ordered_points();
    assert forall|i: int| 0 <= i < 15 implies single_chunk(#[trigger] e.w@[i]) by {
        assert(all[7 + i] == e.w@[i]);
    }
    assert forall|i: int| 0 <= i < 15 implies single_chunk(#[trigger] e.coefficients@[i]) by {
        assert(all[22 + i] == e.coefficients@[i]);
    }
    assert forall|i: int| 0 <= i < 6 implies single_chunk(#[trigger] e.s@[i]) by {
        assert(all[37 + i] == e.s@[i]);
    }
    assert(single_chunk(all[0]) && single_chunk(all[1]) && single_chunk(all[2]));
    assert(single_chunk(all[3]) && single_chunk(all[4]) && single_chunk(all[5]));
    assert(single_chunk(all[6]));
    assert forall|i: int| 0 <= i < 15 implies (#[trigger] r.w@[i]).0@ == e.w@[i].0@ && r.w@[i].1@
        == e.w@[i].1@ by {
        assert(flat[i] == (e.w@[i].0@[0], e.w@[i].1@[0]));
        assert(is_eval_at(flat, 0 + i, r.w@[i]));
        assert(r.w@[i].0@ =~= e.w@[i].0@ && r.w@[i].1@ =~= e.w@[i].1@);
    }
    assert forall|i: int| 0 <= i < 15 implies (#[trigger] r.coefficients@[i]).0@
        == e.coefficients@[i].0@ && r.coefficients@[i].1@ == e.coefficients@[i].1@ by {
        assert(flat[15 + i] == (e.coefficients@[i].0@[0], e.coefficients@[i].1@[0]));
        assert(is_eval_at(flat, 15 + i, r.coefficients@[i]));
        assert(r.coefficients@[i].0@ =~= e.coefficients@[i].0@ && r.coefficients@[i].1@
            =~= e.coefficients@[i].1@);
    }
    assert forall|i: int| 0 <= i < 6 implies (#[trigger] r.s@[i]).0@ == e.s@[i].0@ && r.s@[i].1@
        == e.s@[i].1@ by {
        assert(flat[31 + i] == (e.s@[i].0@[0], e.s@[i].1@[0]));
        assert(is_eval_at(flat, 31 + i, r.s@[i]));
        assert(r.s@[i].0@ =~= e.s@[i].0@ && r.s@[i].1@ =~= e.s@[i].1@);
    }
    assert(flat[30] == (e.z.0@[0], e.z.1@[0]));
    assert(flat[37] == (e.generic_selector.0@[0], e.generic_selector.1@[0]));
    assert(flat[38] == (e.poseidon_selector.0@[0], e.poseidon_selector.1@[0]));
    assert(flat[39] == (e.complete_add_selector.0@[0], e.complete_add_selector.1@[0]));
    assert(flat[40] == (e.mul_selector.0@[0], e.mul_selector.1@[0]));
    assert(flat[41] == (e.emul_selector.0@[0], e.emul_selector.1@[0]));
    assert(flat[42] == (e.endomul_scalar_selector.0@[0], e.endomul_scalar_selector.1@[0]));
    assert(r.z.0@ =~= e.z.0@ && r.z.1@ =~= e.z.1@);
    assert(r.generic_selector.0@ =~= e.generic_selector.0@ && r.generic_selector.1@
        =~= e.generic_selector.1@);
    assert(r.poseidon_selector.0@ =~= e.poseidon_selector.0@ && r.poseidon_selector.1@
        =~= e.poseidon_selector.1@);
    assert(r.complete_add_selector.0@ =~= e.complete_add_selector.0@
        && r.complete_add_selector.1@ =~= e.complete_add_selector.1@);
    assert(r.mul_selector.0@ =~= e.mul_selector.0@ && r.mul_selector.1@ =~= e.mul_selector.1@);
    assert(r.emul_selector.0@ =~= e.emul_selector.0@ && r.emul_selector.1@
        =~= e.emul_selector.1@);
    assert(r.endomul_scalar_selector.0@ =~= e.endomul_scalar_selector.0@
        && r.endomul_scalar_selector.1@ =~= e.endomul_scalar_selector.1@);
}

/// The evaluations are the same, column by column, at both points.
pub open spec fn same_evaluations(a: Seq<PointEvalVar<Fq>>, b: Seq<PointEvalVar<Fq>>) -> bool {
    &&& a.len() == b.len()
    &&& forall|i: int| 0 <= i < a.len() ==> (#[trigger] a[i]).0@ == b[i].0@ && a[i].1@ == b[i].1@
}

/// The circuit reads the statement that the layout writes: every claimed value
/// comes out of the slot that it was laid into, each under its own name.
pub proof fn the_circuit_reads_what_the_statement_lays_out(
    w: WrapWitnessData,
    stmt: Seq<Fq>,
    rounds: int,
    mds: Seq<Vec<Fq>>,
    r: WrapMainInputs,
    plonk: plonk::InCircuit<Fq, ScalarChallenge<Fq>, bool>,
    cip: Fq,
    b: Fq,
    xi: ScalarChallenge<Fq>,
    digest: Fq,
    next_wrap: Fq,
    next_step: Fq,
    chals: Seq<BulletproofChallenge<ScalarChallenge<Fq>>>,
    branch: BranchData,
    rest: Seq<int>,
    forbidden: Seq<Fq>,
)
    requires
        handed_on(w, stmt, rounds, mds, r),
        assertions_hold(w, stmt, rounds, forbidden),
        0 <= selected_width(w) <= 3,
        rounds == chals.len(),
        residues(stmt) == statement_head(
            plonk,
            cip,
            b,
            xi,
            digest,
            next_wrap,
            next_step,
        ) + challenge_residues(chals) + seq![branch.packed()] + rest,
    ensures
        r.advice.combined_inner_product matches ShiftedScalar::Type1(x) && x.view() == cip.view(),
        r.advice.b matches ShiftedScalar::Type1(x) && x.view() == b.view(),
        r.advice.zeta_to_srs_length matches ShiftedScalar::Type1(x) && x.view()
            == plonk.zeta_to_srs_length.view(),
        r.advice.zeta_to_domain_size matches ShiftedScalar::Type1(x) && x.view()
            == plonk.zeta_to_domain_size.view(),
        r.advice.perm matches ShiftedScalar::Type1(x) && x.view() == plonk.perm.view(),
        r.claimed.beta.view() == plonk.beta.view(),
        r.claimed.gamma.view() == plonk.gamma.view(),
        r.claimed.alpha.view() == plonk.alpha.0.view(),
        r.claimed.zeta.view() == plonk.zeta.0.view(),
        r.xi.view() == xi.0.view(),
        r.claimed.sponge_digest_before_evaluations.view() == digest.view(),
        r.msgs_wrap_digest.view() == next_wrap.view(),
        residues(r.claimed.bulletproof_challenges@) == challenge_residues(chals),
        branch.domain_log2 == selected_domain(w),
        branch.proofs_verified.count() == selected_width(w),
        w.step_statement@.len() > 0 ==> (w.step_statement@[0] matches
            WrapStepStatementSlot::Packed { num_bits: n, .. } ==> (r.elements@[0] matches
            StepStatementElement::Packed { value: v, num_bits: k } && v.view() == next_step.view()
            && k == n)),
{
    let all = residues(stmt);
    assert forall|i: int| 0 <= i < stmt.len() implies #[trigger] all[i] == stmt[i].view() by {}
    assert(all.len() == stmt.len());
    assert(all.len() >= 14 + rounds);
    assert(all[0] == cip.view() && all[1] == b.view());
    assert(all[2] == plonk.zeta_to_srs_length.view() && all[3]
        == plonk.zeta_to_domain_size.view());
    assert(all[4] == plonk.perm.view() && all[5] == plonk.beta.view());
    assert(all[6] == plonk.gamma.view() && all[7] == plonk.alpha.0.view());
    assert(all[8] == plonk.zeta.0.view() && all[9] == xi.0.view());
    assert(all[10] == digest.view() && all[11] == next_wrap.view());
    assert(all[12] == next_step.view());
    assert(all[13 + rounds] == branch.packed());
    assert(residues(r.claimed.bulletproof_challenges@) =~= challenge_residues(chals)) by {
        assert forall|i: int| 0 <= i < rounds implies residues(
            r.claimed.bulletproof_challenges@,
        )[i] == challenge_residues(chals)[i] by {
            assert(all[13 + i] == challenge_residues(chals)[i]);
        }
    }
    if w.step_statement@.len() > 0 {
        assert(r.elements@[0] == element_of(w.step_statement@[0], 0 == 0, stmt[12]));
    }
}

/// What a proof to be finalized carries keeps its names on the way in.
pub proof fn carried_values_keep_their_names(
    u: WrapUnfinalizedWitnessData,
    mds: Seq<Vec<Fq>>,
    r: PerUnfinalized,
    i: int,
)
    requires
        is_carried(u, mds, r),
    ensures
        r.alpha == u.alpha,
        r.beta == u.beta,
        r.gamma == u.gamma,
        r.zeta == u.zeta,
        r.xi == u.xi,
        r.cip_repr == u.cip_repr,
        r.b_repr == u.b_repr,
        r.perm_repr == u.perm_repr,
        r.ft_eval1 == u.ft_eval1,
        r.should_finalize == u.should_finalize,
        r.endo_r == u.finalize_endo_r,
        r.sponge_digest_before_evaluations == u.sponge_digest_before_evaluations,
        r.bulletproof_challenges@ == u.bulletproof_challenges@,
        r.public_evals.0@ == u.public_evals.0@,
        r.public_evals.1@ == u.public_evals.1@,
        r.prev_step_acc.x == u.prev_step_acc.0,
        r.prev_step_acc.y == u.prev_step_acc.1,
        r.old_bulletproof_challenges@.len() == u.old_bulletproof_challenges@.len(),
        0 <= i < u.old_bulletproof_challenges@.len() ==> r.old_bulletproof_challenges@[i]@
            == u.old_bulletproof_challenges@[i]@,
        r.hash_dummy_challenges@.len() == u.hash_dummy_challenges@.len(),
        0 <= i < u.hash_dummy_challenges@.len() ==> r.hash_dummy_challenges@[i]@
            == u.hash_dummy_challenges@[i]@,
        r.hash_old_bulletproof_challenges@.len() == u.hash_old_bulletproof_challenges@.len(),
        0 <= i < u.hash_old_bulletproof_challenges@.len()
            ==> r.hash_old_bulletproof_challenges@[i]@ == u.hash_old_bulletproof_challenges@[i]@,
        r.finalize_params.tokens@ == u.finalize_tokens@,
        r.finalize_params.domain == FinalizeDomain::Fixed(u.finalize_domain),
        r.finalize_params.srs_log2 == u.finalize_srs_log2,
        r.finalize_params.endo == u.finalize_endo,
        r.finalize_params.shifts@ == u.finalize_shifts@,
        r.finalize_params.mds@ == mds,
        r.finalize_params.shift == ShiftKind::Type2,
{
}

/// The proof's parts keep their names on the way in: each opening value, each
/// commitment, each old accumulator, and the key of the branch that was taken.
pub proof fn proof_parts_keep_their_names(
    w: WrapWitnessData,
    stmt: Seq<Fq>,
    rounds: int,
    mds: Seq<Vec<Fq>>,
    r: WrapMainInputs,
    i: int,
)
    requires
        handed_on(w, stmt, rounds, mds, r),
    ensures
        r.openings.delta.x == w.delta.0,
        r.openings.delta.y == w.delta.1,
        r.openings.z1 == ShiftedScalar::Type1(w.z1_repr),
        r.openings.z2 == ShiftedScalar::Type1(w.z2_repr),
        r.openings.challenge_polynomial_commitment.x == w.sg.0,
        r.openings.challenge_polynomial_commitment.y == w.sg.1,
        r.openings.h_generator.x == w.h.0,
        r.openings.h_generator.y == w.h.1,
        r.h.x == w.h.0,
        r.h.y == w.h.1,
        r.openings.lr@.len() == w.lr@.len(),
        0 <= i < w.lr@.len() ==> {
            &&& r.openings.lr@[i].0.x == (w.lr@[i].0).0
            &&& r.openings.lr@[i].0.y == (w.lr@[i].0).1
            &&& r.openings.lr@[i].1.x == (w.lr@[i].1).0
            &&& r.openings.lr@[i].1.y == (w.lr@[i].1).1
        },
        r.messages.w_comm@.len() == w.w_comm@.len(),
        0 <= i < w.w_comm@.len() ==> r.messages.w_comm@[i]@ == seq![
            Point { x: w.w_comm@[i].0, y: w.w_comm@[i].1 },
        ],
        r.messages.z_comm@ == seq![Point { x: w.z_comm.0, y: w.z_comm.1 }],
        r.messages.t_comm@.len() == w.t_comm@.len(),
        0 <= i < w.t_comm@.len() ==> r.messages.t_comm@[i] == (Point {
            x: w.t_comm@[i].0,
            y: w.t_comm@[i].1,
        }),
        r.sg_olds@.len() == w.sg_olds@.len(),
        0 <= i < w.sg_olds@.len() ==> r.sg_olds@[i] == (Point {
            x: w.sg_olds@[i].0,
            y: w.sg_olds@[i].1,
        }) && r.actual_proofs_verified_mask@[i] == (i < selected_width(w)),
        0 <= i < w.step_statement_lagranges@.len() ==> {
            &&& r.lagranges@[i].0.x == (w.step_statement_lagranges@[i].0).0
            &&& r.lagranges@[i].0.y == (w.step_statement_lagranges@[i].0).1
            &&& r.lagranges@[i].1.x == (w.step_statement_lagranges@[i].1).0
            &&& r.lagranges@[i].1.y == (w.step_statement_lagranges@[i].1).1
        },
        0 <= i < w.step_statement@.len() ==> {
            &&& w.step_statement@[i] matches WrapStepStatementSlot::Field(v) ==> r.elements@[i]
                == StepStatementElement::Split(v)
            &&& w.step_statement@[i] matches WrapStepStatementSlot::Bool(v) ==> r.elements@[i]
                == StepStatementElement::Bool(v)
            &&& w.step_statement@[i] matches WrapStepStatementSlot::Packed { value, num_bits }
                ==> (i > 0 ==> r.elements@[i] == (StepStatementElement::Packed {
                value,
                num_bits,
            }))
        },
        r.is_base_case == (selected_width(w) == 0),
        r.num_bits == 255,
        *r.new_acc_dummies == w.new_acc_dummies,
{
    if 0 <= i < w.w_comm@.len() {
        assert(r.messages.w_comm@[i]@ == seq![point_of(w.w_comm@[i])]);
    }
    if 0 <= i < w.step_statement@.len() {
        assert(r.elements@[i] == element_of(w.step_statement@[i], i == 0, stmt[12]));
    }
    if 0 <= i < w.lr@.len() {
        assert(r.openings.lr@[i] == (point_of(w.lr@[i].0), point_of(w.lr@[i].1)));
    }
    if 0 <= i < w.step_statement_lagranges@.len() {
        assert(r.lagranges@[i] == (
            point_of(w.step_statement_lagranges@[i].0),
            point_of(w.step_statement_lagranges@[i].1),
        ));
    }
}

/// The key is the taken branch's, part by part; without a list of branches it is
/// the one that the witness itself describes, whose width is the number of
/// proofs to be finalized.
pub proof fn the_key_is_the_taken_branch(
    w: WrapWitnessData,
    vk: VerificationKeyComm<Fq>,
    branch: WrapBranchData,
)
    requires
        is_selected_key(w, vk),
        w.branches@.len() > 0 ==> branch == w.branches@[w.which_branch as int],
        w.branches@.len() == 0 ==> {
            &&& branch.generic == w.generic
            &&& branch.psm == w.psm
            &&& branch.complete_add == w.complete_add
            &&& branch.mul == w.mul
            &&& branch.emul == w.emul
            &&& branch.endomul_scalar == w.endomul_scalar
            &&& branch.coefficients@ == w.coefficients@
            &&& branch.sigma_init@ == w.sigma_init@
            &&& branch.sigma_last@ == w.sigma_last@
            &&& branch.step_domain_log2 == w.step_domain_log2
        },
    ensures
        vk.generic.view() == (branch.generic.0.view(), branch.generic.1.view()),
        vk.psm.view() == (branch.psm.0.view(), branch.psm.1.view()),
        vk.complete_add.view() == (branch.complete_add.0.view(), branch.complete_add.1.view()),
        vk.mul.view() == (branch.mul.0.view(), branch.mul.1.view()),
        vk.emul.view() == (branch.emul.0.view(), branch.emul.1.view()),
        vk.endomul_scalar.view() == (
            branch.endomul_scalar.0.view(),
            branch.endomul_scalar.1.view(),
        ),
        vk.coefficients@.len() == branch.coefficients@.len(),
        forall|i: int|
            0 <= i < branch.coefficients@.len() ==> (#[trigger] vk.coefficients@[i]).view() == (
                branch.coefficients@[i].0.view(),
                branch.coefficients@[i].1.view(),
            ),
        vk.sigma_init@.len() == branch.sigma_init@.len(),
        forall|i: int|
            0 <= i < branch.sigma_init@.len() ==> (#[trigger] vk.sigma_init@[i]).view() == (
                branch.sigma_init@[i].0.view(),
                branch.sigma_init@[i].1.view(),
            ),
        vk.sigma_last@.len() == branch.sigma_last@.len(),
        forall|i: int|
            0 <= i < branch.sigma_last@.len() ==> (#[trigger] vk.sigma_last@[i]).view() == (
                branch.sigma_last@[i].0.view(),
                branch.sigma_last@[i].1.view(),
            ),
        selected_domain(w) == branch.step_domain_log2,
        w.branches@.len() > 0 ==> selected_width(w) == branch.proofs_verified,
        w.branches@.len() == 0 ==> selected_width(w) == w.unfinalized@.filter(
            |u: WrapUnfinalizedWitnessData| u.should_finalize,
        ).len(),
{
    assert(point_residues(vk.coefficients@).len() == pair_views(branch.coefficients@).len());
    assert(point_residues(vk.sigma_init@).len() == pair_views(branch.sigma_init@).len());
    assert(point_residues(vk.sigma_last@).len() == pair_views(branch.sigma_last@).len());
    assert forall|i: int| 0 <= i < branch.coefficients@.len() implies (
    #[trigger] vk.coefficients@[i]).view() == (
        branch.coefficients@[i].0.view(),
        branch.coefficients@[i].1.view(),
    ) by {
        assert(point_residues(vk.coefficients@)[i] == pair_views(branch.coefficients@)[i]);
    }
    assert forall|i: int| 0 <= i < branch.sigma_init@.len() implies (
    #[trigger] vk.sigma_init@[i]).view() == (
        branch.sigma_init@[i].0.view(),
        branch.sigma_init@[i].1.view(),
    ) by {
        assert(point_residues(vk.sigma_init@)[i] == pair_views(branch.sigma_init@)[i]);
    }
    assert forall|i: int| 0 <= i < branch.sigma_last@.len() implies (
    #[trigger] vk.sigma_last@[i]).view() == (
        branch.sigma_last@[i].0.view(),
        branch.sigma_last@[i].1.view(),
    ) by {
        assert(point_residues(vk.sigma_last@)[i] == pair_views(branch.sigma_last@)[i]);
    }
    lemma_finalize_count(w.unfinalized@);
}

proof fn lemma_finalize_count(us: Seq<WrapUnfinalizedWitnessData>)
    ensures
        finalize_count(us) == us.filter(|u: WrapUnfinalizedWitnessData| u.should_finalize).len(),
    decreases us.len(),
{
    let p = |u: WrapUnfinalizedWitnessData| u.should_finalize;
    reveal(Seq::filter);
    if us.len() > 0 {
        lemma_finalize_count(us.drop_last());
    }
}

/// The circuit's own checks, spelled out: none of the five shifted values is
/// forbidden, the branch exists, its packed form is in its slot, and every point
/// and opening scalar that the proof brings is admissible.
pub proof fn the_checks_cover_every_input(
    w: WrapWitnessData,
    stmt: Seq<Fq>,
    rounds: int,
    forbidden: Seq<Fq>,
    i: int,
    k: int,
)
    requires
        assertions_hold(w, stmt, rounds, forbidden),
        0 <= k < forbidden.len(),
    ensures
        0 <= i < 5 ==> stmt[i].view() != forbidden[k].view(),
        w.z1_repr.view() != forbidden[k].view(),
        w.z2_repr.view() != forbidden[k].view(),
        w.branches@.len() > 0 ==> w.which_branch < w.branches@.len(),
        w.branches@.len() == 0 ==> w.which_branch == 0,
        stmt[13 + rounds].view() == 4 * selected_domain(w) + selected_width(w),
        on_curve::<Fq>((w.delta.0.view(), w.delta.1.view())),
        on_curve::<Fq>((w.sg.0.view(), w.sg.1.view())),
        on_curve::<Fq>((w.z_comm.0.view(), w.z_comm.1.view())),
        0 <= i < w.w_comm@.len() ==> on_curve::<Fq>(
            (w.w_comm@[i].0.view(), w.w_comm@[i].1.view()),
        ),
        0 <= i < w.t_comm@.len() ==> on_curve::<Fq>(
            (w.t_comm@[i].0.view(), w.t_comm@[i].1.view()),
        ),
        0 <= i < w.sg_olds@.len() ==> on_curve::<Fq>(
            (w.sg_olds@[i].0.view(), w.sg_olds@[i].1.view()),
        ),
        0 <= i < w.unfinalized@.len() ==> on_curve::<Fq>(
            (w.unfinalized@[i].prev_step_acc.0.view(), w.unfinalized@[i].prev_step_acc.1.view()),
        ),
        0 <= i < w.lr@.len() ==> on_curve::<Fq>(((w.lr@[i].0).0.view(), (w.lr@[i].0).1.view()))
            && on_curve::<Fq>(((w.lr@[i].1).0.view(), (w.lr@[i].1).1.view())),
{
    if 0 <= i < 5 {
        assert(!is_listed(forbidden, stmt[i]));
    }
    if 0 <= i < w.w_comm@.len() {
        assert(on_curve::<Fq>(pair_view(w.w_comm@[i])));
    }
    if 0 <= i < w.t_comm@.len() {
        assert(on_curve::<Fq>(pair_view(w.t_comm@[i])));
    }
    if 0 <= i < w.sg_olds@.len() {
        assert(on_curve::<Fq>(pair_view(w.sg_olds@[i])));
    }
    if 0 <= i < w.unfinalized@.len() {
        assert(on_curve::<Fq>(pair_view(w.unfinalized@[i].prev_step_acc)));
    }
    if 0 <= i < w.lr@.len() {
        assert(on_curve::<Fq>(pair_view(w.lr@[i].0)));
    }
}

/// The checks ask no more than that: a witness whose parts are all admissible
/// and whose branch is in its slot passes.
pub proof fn admissible_witnesses_pass(
    w: WrapWitnessData,
    stmt: Seq<Fq>,
    rounds: int,
    forbidden: Seq<Fq>,
)
    requires
        forall|i: int, k: int|
            #![trigger stmt[i], forbidden[k]]
            0 <= i < 5 && 0 <= k < forbidden.len() ==> stmt[i].view() != forbidden[k].view(),
        forall|k: int|
            #![trigger forbidden[k]]
            0 <= k < forbidden.len() ==> w.z1_repr.view() != forbidden[k].view()
                && w.z2_repr.view() != forbidden[k].view(),
        w.which_branch == 0 || w.which_branch < w.branches@.len(),
        stmt[13 + rounds].view() == 4 * selected_domain(w) + selected_width(w),
        on_curve::<Fq>((w.delta.0.view(), w.delta.1.view())),
        on_curve::<Fq>((w.sg.0.view(), w.sg.1.view())),
        on_curve::<Fq>((w.z_comm.0.view(), w.z_comm.1.view())),
        forall|i: int|
            #![trigger w.w_comm@[i]]
            0 <= i < w.w_comm@.len() ==> on_curve::<Fq>(
                (w.w_comm@[i].0.view(), w.w_comm@[i].1.view()),
            ),
        forall|i: int|
            #![trigger w.t_comm@[i]]
            0 <= i < w.t_comm@.len() ==> on_curve::<Fq>(
                (w.t_comm@[i].0.view(), w.t_comm@[i].1.view()),
            ),
        forall|i: int|
            #![trigger w.sg_olds@[i]]
            0 <= i < w.sg_olds@.len() ==> on_curve::<Fq>(
                (w.sg_olds@[i].0.view(), w.sg_olds@[i].1.view()),
            ),
        forall|i: int|
            #![trigger w.unfinalized@[i]]
            0 <= i < w.unfinalized@.len() ==> on_curve::<Fq>(
                (
                    w.unfinalized@[i].prev_step_acc.0.view(),
                    w.unfinalized@[i].prev_step_acc.1.view(),
                ),
            ),
        forall|i: int|
            #![trigger w.lr@[i]]
            0 <= i < w.lr@.len() ==> on_curve::<Fq>(
                ((w.lr@[i].0).0.view(), (w.lr@[i].0).1.view()),
            ) && on_curve::<Fq>(((w.lr@[i].1).0.view(), (w.lr@[i].1).1.view())),
    ensures
        assertions_hold(w, stmt, rounds, forbidden),
{
}

/// A statement's elements take their places one after the other: a whole field
/// element two, a packed value or a bit one.
pub proof fn slots_take_their_places(
    a: Seq<WrapStepStatementSlot>,
    b: Seq<WrapStepStatementSlot>,
    x: Fq,
    n: usize,
    bit: bool,
)
    ensures
        expanded_len(a + b) == expanded_len(a) + expanded_len(b),
        expanded_len(seq![WrapStepStatementSlot::Field(x)]) == 2,
        expanded_len(seq![WrapStepStatementSlot::Packed { value: x, num_bits: n }]) == 1,
        expanded_len(seq![WrapStepStatementSlot::Bool(bit)]) == 1,
    decreases b.len(),
{
    reveal_with_fuel(expanded_len, 2);
    if b.len() == 0 {
        assert(a + b =~= a);
    } else {
        slots_take_their_places(a, b.drop_last(), x, n, bit);
        assert((a + b).drop_last() =~= a + b.drop_last());
        assert((a + b).last() == b.last());
    }
}

} // verus!
