//! The curve side of verifying a proof: the transcript that gives the
//! challenges, the combination of all commitments, and the inner-product
//! argument on them.

use vstd::prelude::*;

use crate::bulletproof::{
    bullet_reduce_terms, bulletproof_equation, check_bulletproof_equation, combination,
    combine_commitments, entries, ipa_challenges_transcript, ipa_transcript, rounds_sum,
    CommitmentOpt, IpaChallenges,
};
use crate::challenge::{challenged, squeeze_challenge};
use crate::commitments::{ft_comm, ft_commitment, reduced, ShiftedScalar};
use crate::curve::{ec_add, point_residues, Curve, Point};
use crate::field::{residues, PrimeField};
use crate::finalize::{
    every_evaluation_has_its_place, old_proofs_count_by_their_polynomials, FinalizeWitness,
};
use crate::ipa::challenge_polynomial;
use crate::sponge::{
    absorb, absorb_commitment, absorb_commitments, absorbing, coordinates, op_residues,
    points_give_their_coordinates, replied, row_coordinates,
    rows_give_the_coordinates_of_their_points, squeeze, SpongeOp,
};

verus! {

/// The commitments of a verification key, one chunk each.
pub struct VerificationKeyComm<F: PrimeField> {
    pub generic: Point<F>,
    pub psm: Point<F>,
    pub complete_add: Point<F>,
    pub mul: Point<F>,
    pub emul: Point<F>,
    pub endomul_scalar: Point<F>,
    /// The coefficient commitments.
    pub coefficients: Vec<Point<F>>,
    /// The permutation commitments but the last.
    pub sigma_init: Vec<Point<F>>,
    /// The last permutation commitment, by chunks.
    pub sigma_last: Vec<Point<F>>,
}

/// The commitments that a proof sends, by chunks.
pub struct Messages<F: PrimeField> {
    /// The witness columns.
    pub w_comm: Vec<Vec<Point<F>>>,
    pub z_comm: Vec<Point<F>>,
    /// The quotient.
    pub t_comm: Vec<Point<F>>,
}

/// The opening proof, with the blinding generator.
pub struct OpeningProof<F: PrimeField> {
    /// The `(L, R)` of each round.
    pub lr: Vec<(Point<F>, Point<F>)>,
    pub delta: Point<F>,
    pub z1: ShiftedScalar<F>,
    pub z2: ShiftedScalar<F>,
    pub challenge_polynomial_commitment: Point<F>,
    pub h_generator: Point<F>,
}

/// The scalars that the other side of the cycle checks.
pub struct Advice<F: PrimeField> {
    pub combined_inner_product: ShiftedScalar<F>,
    pub b: ShiftedScalar<F>,
    pub perm: ShiftedScalar<F>,
    pub zeta_to_srs_length: ShiftedScalar<F>,
    pub zeta_to_domain_size: ShiftedScalar<F>,
}

/// The four challenges, each of 128 bits, not yet in field form.
#[derive(Clone, Copy, Debug, PartialEq, Eq)]
pub struct FqOracles<F> {
    pub beta: F,
    pub gamma: F,
    pub alpha: F,
    pub zeta: F,
}

/// What verifying gives: whether the argument's equation holds, the challenges,
/// the digest before the evaluations, and the challenges of the rounds.
pub struct IncrementalResult<F: PrimeField> {
    pub success: bool,
    pub oracles: FqOracles<F>,
    pub sponge_digest: F,
    pub bulletproof_challenges: Vec<F>,
}

/// The transcript up to the squeeze of `beta`: key digest, old commitments, the
/// public input, the witness columns.
pub open spec fn beta_ops<F: PrimeField>(
    vk_digest: F,
    sg_old: Seq<Point<F>>,
    x_hat: Seq<Point<F>>,
    messages: Messages<F>,
) -> Seq<Option<int>> {
    absorbing(
        seq![vk_digest.view()] + coordinates(sg_old) + coordinates(x_hat) + row_coordinates(
            messages.w_comm@,
        ),
    ).push(None)
}

/// The transcript up to the squeeze of `alpha`.
pub open spec fn alpha_ops<F: PrimeField>(
    vk_digest: F,
    sg_old: Seq<Point<F>>,
    x_hat: Seq<Point<F>>,
    messages: Messages<F>,
) -> Seq<Option<int>> {
    (beta_ops(vk_digest, sg_old, x_hat, messages).push(None) + absorbing(
        coordinates(messages.z_comm@),
    )).push(None)
}

/// The transcript up to the squeeze of `zeta`, at which it forks: one copy
/// gives the digest, the other goes on into the inner-product argument.
pub open spec fn zeta_ops<F: PrimeField>(
    vk_digest: F,
    sg_old: Seq<Point<F>>,
    x_hat: Seq<Point<F>>,
    messages: Messages<F>,
) -> Seq<Option<int>> {
    (alpha_ops(vk_digest, sg_old, x_hat, messages) + absorbing(
        coordinates(messages.t_comm@),
    )).push(None)
}

/// Every point as an entry that is there.
pub open spec fn just_entries(points: Seq<(int, int)>) -> Seq<Option<(bool, (int, int))>> {
    crate::bulletproof::all_present(points)
}

/// Everything but the challenges that decides the verdict.
pub struct VerifierInputs<'a, F: PrimeField> {
    pub vk: &'a VerificationKeyComm<F>,
    pub sg_old: &'a [Point<F>],
    pub x_hat: &'a [Point<F>],
    pub messages: &'a Messages<F>,
    pub openings: &'a OpeningProof<F>,
    pub advice: &'a Advice<F>,
}

/// The points that are combined, in order: old commitments, public input,
/// linearization, permutation, the six selectors, witness, coefficients,
/// permutation columns.
pub open spec fn combined_residues<F: PrimeField>(
    inputs: VerifierInputs<F>,
    ft: (int, int),
) -> Seq<(int, int)> {
    point_residues(inputs.sg_old@) + point_residues(inputs.x_hat@) + seq![ft] + point_residues(
        inputs.messages.z_comm@,
    ) + seq![
        inputs.vk.generic.view(),
        inputs.vk.psm.view(),
        inputs.vk.complete_add.view(),
        inputs.vk.mul.view(),
        inputs.vk.emul.view(),
        inputs.vk.endomul_scalar.view(),
    ] + point_residues(crate::sequences::concat_rows(inputs.messages.w_comm@)) + point_residues(
        inputs.vk.coefficients@,
    ) + point_residues(inputs.vk.sigma_init@)
}

/// The verdict for challenges in field form: none when a sum meets the
/// identity, else whether the argument's equation holds.
pub open spec fn verdict<C: Curve>(
    inputs: VerifierInputs<C::Base>,
    xi: int,
    u: (int, int),
    pres: Seq<C::Scalar>,
    c: int,
    num_bits: nat,
) -> Option<bool> {
    let ft = ft_commitment::<C>(
        point_residues(inputs.vk.sigma_last@),
        point_residues(inputs.messages.t_comm@),
        inputs.advice.perm.scalar::<C::Scalar>(num_bits),
        inputs.advice.zeta_to_srs_length.scalar::<C::Scalar>(num_bits),
        inputs.advice.zeta_to_domain_size.scalar::<C::Scalar>(num_bits),
    );
    match ft {
        None => None,
        Some(f) => {
            let whole = combination::<C>(just_entries(combined_residues(inputs, f)), xi);
            let sum = rounds_sum::<C>(inputs.openings.lr@, pres);
            match (whole, sum) {
                (Some(combined), Some(lr_prod)) => bulletproof_equation::<C>(
                    combined,
                    lr_prod,
                    u,
                    inputs.advice.combined_inner_product.scalar::<C::Scalar>(num_bits),
                    inputs.advice.b.scalar::<C::Scalar>(num_bits),
                    inputs.openings.z1.scalar::<C::Scalar>(num_bits),
                    inputs.openings.z2.scalar::<C::Scalar>(num_bits),
                    c,
                    inputs.openings.delta.view(),
                    inputs.openings.challenge_polynomial_commitment.view(),
                    inputs.openings.h_generator.view(),
                ),
                _ => None,
            }
        },
    }
}

fn push_all<F: PrimeField>(out: &mut Vec<CommitmentOpt<F>>, points: &[Point<F>])
    ensures
        entries(final(out)@) == entries(old(out)@) + just_entries(point_residues(points@)),
{
    let ghost before = entries(out@);
    let ghost all = just_entries(point_residues(points@));
    let mut i: usize = 0;
    while i < points.len()
        invariant
            i <= points@.len(),
            all == just_entries(point_residues(points@)),
            entries(out@) =~= before + all.take(i as int),
        decreases points.len() - i,
    {
        let ghost seen = entries(out@);
        out.push(CommitmentOpt::Just(points[i]));
        assert(entries(out@) =~= seen.push(all[i as int]));
        assert(all.take(i + 1) =~= all.take(i as int).push(all[i as int]));
        i = i + 1;
    }
    assert(all.take(i as int) =~= all);
}

fn push_one<F: PrimeField>(out: &mut Vec<CommitmentOpt<F>>, p: &Point<F>)
    ensures
        entries(final(out)@) == entries(old(out)@) + just_entries(seq![p.view()]),
{
    out.push(CommitmentOpt::Just(*p));
    assert(entries(out@) =~= entries(old(out)@) + just_entries(seq![p.view()]));
}

fn commitment_list<'a, F: PrimeField>(inputs: &VerifierInputs<'a, F>, ft: &Point<F>) -> (r: Vec<
    CommitmentOpt<F>,
>)
    ensures
        entries(r@) == just_entries(combined_residues(*inputs, ft.view())),
{
    let mut out: Vec<CommitmentOpt<F>> = Vec::new();
    push_all(&mut out, inputs.sg_old);
    push_all(&mut out, inputs.x_hat);
    push_one(&mut out, ft);
    push_all(&mut out, inputs.messages.z_comm.as_slice());
    push_one(&mut out, &inputs.vk.generic);
    push_one(&mut out, &inputs.vk.psm);
    push_one(&mut out, &inputs.vk.complete_add);
    push_one(&mut out, &inputs.vk.mul);
    push_one(&mut out, &inputs.vk.emul);
    push_one(&mut out, &inputs.vk.endomul_scalar);
    let mut w: Vec<Point<F>> = Vec::new();
    crate::sequences::append_rows(&mut w, inputs.messages.w_comm.as_slice());
    assert(w@ =~= crate::sequences::concat_rows(inputs.messages.w_comm@));
    push_all(&mut out, w.as_slice());
    push_all(&mut out, inputs.vk.coefficients.as_slice());
    push_all(&mut out, inputs.vk.sigma_init.as_slice());
    assert(entries(out@) =~= just_entries(combined_residues(*inputs, ft.view())));
    out
}

/// The verdict on a proof, for challenges in field form.
pub fn verify_with_challenges<'a, C: Curve>(
    inputs: &VerifierInputs<'a, C::Base>,
    xi: &C::Scalar,
    u: &Point<C::Base>,
    prechallenges: &[C::Scalar],
    c: &C::Scalar,
    num_bits: u64,
) -> (r: Option<bool>)
    requires
        inputs.vk.sigma_last@.len() > 0,
        inputs.messages.t_comm@.len() > 0,
        inputs.openings.lr@.len() == prechallenges@.len(),
        inputs.openings.lr@.len() > 0,
    ensures
        r == verdict::<C>(
            *inputs,
            xi.view(),
            u.view(),
            prechallenges@,
            c.view(),
            num_bits as nat,
        ),
{
    let advice = inputs.advice;
    let openings = inputs.openings;
    let ft = match ft_comm::<C>(
        inputs.vk.sigma_last.as_slice(),
        inputs.messages.t_comm.as_slice(),
        &advice.perm,
        &advice.zeta_to_srs_length,
        &advice.zeta_to_domain_size,
        num_bits,
    ) {
        None => return None,
        Some(ft) => ft,
    };
    let list = commitment_list(inputs, &ft);
    let combined = combine_commitments::<C>(list.as_slice(), xi);
    let lr_prod = bullet_reduce_terms::<C>(openings.lr.as_slice(), prechallenges);
    match (combined, lr_prod) {
        (Some(combined), Some(lr_prod)) => check_bulletproof_equation::<C>(
            &combined,
            &lr_prod,
            u,
            &advice.combined_inner_product,
            &advice.b,
            &openings.z1,
            &openings.z2,
            c,
            &openings.delta,
            &openings.challenge_polynomial_commitment,
            &openings.h_generator,
            num_bits,
        ),
        _ => None,
    }
}

/// The field forms of challenges.
pub open spec fn field_forms<A: PrimeField, B: PrimeField, E: Fn(A) -> B>(
    to_field: E,
    raw: Seq<A>,
    images: Seq<B>,
) -> bool {
    &&& images.len() == raw.len()
    &&& forall|i: int|
        0 <= i < raw.len() ==> call_ensures(to_field, (raw[i],), #[trigger] images[i])
}

fn map_challenges<A: PrimeField, B: PrimeField, E: Fn(A) -> B>(to_field: &E, raw: &[A]) -> (r: Vec<
    B,
>)
    requires
        forall|x: A| call_requires(*to_field, (x,)),
    ensures
        field_forms(*to_field, raw@, r@),
{
    let mut out: Vec<B> = Vec::new();
    let mut i: usize = 0;
    while i < raw.len()
        invariant
            i <= raw@.len(),
            forall|x: A| call_requires(*to_field, (x,)),
            out@.len() == i,
            forall|k: int|
                0 <= k < i ==> call_ensures(*to_field, (raw@[k],), #[trigger] out@[k]),
        decreases raw.len() - i,
    {
        out.push(to_field(raw[i]));
        i = i + 1;
    }
    out
}

/// The challenges are those of the transcript.
pub open spec fn oracles_derived<F: PrimeField, H: Fn(&Vec<SpongeOp<F>>) -> F>(
    sponge: H,
    vk_digest: F,
    sg_old: Seq<Point<F>>,
    x_hat: Seq<Point<F>>,
    messages: Messages<F>,
    r: IncrementalResult<F>,
) -> bool {
    &&& challenged(sponge, beta_ops(vk_digest, sg_old, x_hat, messages), r.oracles.beta)
    &&& challenged(
        sponge,
        beta_ops(vk_digest, sg_old, x_hat, messages).push(None),
        r.oracles.gamma,
    )
    &&& challenged(sponge, alpha_ops(vk_digest, sg_old, x_hat, messages), r.oracles.alpha)
    &&& challenged(sponge, zeta_ops(vk_digest, sg_old, x_hat, messages), r.oracles.zeta)
    &&& replied(
        sponge,
        zeta_ops(vk_digest, sg_old, x_hat, messages).push(None),
        r.sponge_digest,
    )
}

/// The result is the verdict for the transcript's challenges in field form, with
/// the challenges; none when a sum meets the identity.
pub open spec fn verified<
    C: Curve,
    H: Fn(&Vec<SpongeOp<C::Base>>) -> C::Base,
    M: Fn(C::Base) -> Point<C::Base>,
    E: Fn(C::Base) -> C::Scalar,
>(
    sponge: H,
    group_map: M,
    to_field: E,
    vk_digest: C::Base,
    inputs: VerifierInputs<C::Base>,
    xi: C::Base,
    num_bits: nat,
    ipa: IpaChallenges<C::Base>,
    pres: Seq<C::Scalar>,
    xi_field: C::Scalar,
    c_field: C::Scalar,
    r: Option<IncrementalResult<C::Base>>,
) -> bool {
    let outcome = verdict::<C>(
        inputs,
        xi_field.view(),
        ipa.u.view(),
        pres,
        c_field.view(),
        num_bits,
    );
    &&& ipa_transcript(
        sponge,
        group_map,
        zeta_ops(vk_digest, inputs.sg_old@, inputs.x_hat@, *inputs.messages),
        inputs.advice.combined_inner_product,
        inputs.openings.lr@,
        inputs.openings.delta,
        ipa,
    )
    &&& call_ensures(to_field, (xi,), xi_field)
    &&& call_ensures(to_field, (ipa.c,), c_field)
    &&& field_forms(to_field, ipa.prechallenges@, pres)
    &&& match r {
        None => outcome is None,
        Some(result) => {
            &&& outcome == Some(result.success)
            &&& oracles_derived(
                sponge,
                vk_digest,
                inputs.sg_old@,
                inputs.x_hat@,
                *inputs.messages,
                result,
            )
            &&& result.bulletproof_challenges == ipa.prechallenges
        },
    }
}

/// Verifies a proof on the curve side. `vk_digest` is the key's digest, `xi` the
/// 128-bit challenge that combines polynomials; `sponge` answers a transcript's
/// last squeeze, `group_map` maps an element to the curve, and `to_field` turns a
/// 128-bit challenge into a scalar.
pub fn incrementally_verify_proof<
    'a,
    C: Curve,
    H: Fn(&Vec<SpongeOp<C::Base>>) -> C::Base,
    M: Fn(C::Base) -> Point<C::Base>,
    E: Fn(C::Base) -> C::Scalar,
>(
    sponge: &H,
    group_map: &M,
    to_field: &E,
    vk_digest: &C::Base,
    inputs: &VerifierInputs<'a, C::Base>,
    xi: &C::Base,
    num_bits: u64,
) -> (r: Option<IncrementalResult<C::Base>>)
    requires
        inputs.vk.sigma_last@.len() > 0,
        inputs.messages.t_comm@.len() > 0,
        inputs.openings.lr@.len() > 0,
        forall|v: &Vec<SpongeOp<C::Base>>| call_requires(*sponge, (v,)),
        forall|t: C::Base| call_requires(*group_map, (t,)),
        forall|x: C::Base| call_requires(*to_field, (x,)),
    ensures
        exists|
            ipa: IpaChallenges<C::Base>,
            pres: Seq<C::Scalar>,
            xi_field: C::Scalar,
            c_field: C::Scalar,
        | #[trigger]
            verified::<C, H, M, E>(
                *sponge,
                *group_map,
                *to_field,
                *vk_digest,
                *inputs,
                *xi,
                num_bits as nat,
                ipa,
                pres,
                xi_field,
                c_field,
                r,
            ),
{
    let messages = inputs.messages;
    let mut ops: Vec<SpongeOp<C::Base>> = Vec::new();
    absorb(&mut ops, *vk_digest);
    absorb_commitment(&mut ops, inputs.sg_old);
    absorb_commitment(&mut ops, inputs.x_hat);
    absorb_commitments(&mut ops, messages.w_comm.as_slice());
    let beta = squeeze_challenge(&mut ops, sponge).lo;
    let ghost b_ops = op_residues(ops@);
    assert(b_ops =~= beta_ops(*vk_digest, inputs.sg_old@, inputs.x_hat@, *messages));
    assert(challenged(*sponge, b_ops, beta));
    let gamma = squeeze_challenge(&mut ops, sponge).lo;
    assert(challenged(*sponge, b_ops.push(None), gamma));
    absorb_commitment(&mut ops, messages.z_comm.as_slice());
    let alpha = squeeze_challenge(&mut ops, sponge).lo;
    let ghost a_ops = op_residues(ops@);
    assert(challenged(*sponge, a_ops, alpha));
    absorb_commitment(&mut ops, messages.t_comm.as_slice());
    let zeta = squeeze_challenge(&mut ops, sponge).lo;
    let ghost z_ops = op_residues(ops@);
    assert(challenged(*sponge, z_ops, zeta));
    let mut digest_ops: Vec<SpongeOp<C::Base>> = Vec::new();
    crate::sequences::append(&mut digest_ops, ops.as_slice());
    assert(digest_ops@ =~= ops@);
    let sponge_digest = squeeze(&mut digest_ops, sponge);

    let openings = inputs.openings;
    let ipa = ipa_challenges_transcript(
        &mut ops,
        sponge,
        group_map,
        &inputs.advice.combined_inner_product,
        openings.lr.as_slice(),
        &openings.delta,
    );
    let xi_field = to_field(*xi);
    let c_field = to_field(ipa.c);
    let pres = map_challenges(to_field, ipa.prechallenges.as_slice());
    let outcome = verify_with_challenges::<C>(
        inputs,
        &xi_field,
        &ipa.u,
        pres.as_slice(),
        &c_field,
        num_bits,
    );
    let ghost challenges = ipa;
    let r = match outcome {
        None => None,
        Some(success) => Some(
            IncrementalResult {
                success,
                oracles: FqOracles { beta, gamma, alpha, zeta },
                sponge_digest,
                bulletproof_challenges: ipa.prechallenges,
            },
        ),
    };
    assert(verified::<C, H, M, E>(
        *sponge,
        *group_map,
        *to_field,
        *vk_digest,
        *inputs,
        *xi,
        num_bits as nat,
        challenges,
        pres@,
        xi_field,
        c_field,
        r,
    ));
    r
}

/// Every commitment is combined, once, and each has its own power of the
/// challenge: the old ones come first, however many they are, then the public
/// input, the linearization, the permutation, the six selectors by name, the
/// witness columns, the coefficients and the permutation columns but the last.
pub proof fn every_commitment_has_its_place<F: PrimeField>(
    inputs: VerifierInputs<F>,
    ft: (int, int),
)
    ensures
        ({
            let all = combined_residues(inputs, ft);
            let w = crate::sequences::concat_rows(inputs.messages.w_comm@);
            let a = inputs.sg_old@.len() as int;
            let x = a + inputs.x_hat@.len();
            let z = x + 1 + inputs.messages.z_comm@.len();
            let c = z + 6 + w.len();
            let s = c + inputs.vk.coefficients@.len();
            &&& all.len() == s + inputs.vk.sigma_init@.len()
            &&& forall|i: int|
                #![trigger inputs.sg_old@[i]]
                0 <= i < inputs.sg_old@.len() ==> all[i] == inputs.sg_old@[i].view()
            &&& forall|i: int|
                #![trigger inputs.x_hat@[i]]
                0 <= i < inputs.x_hat@.len() ==> all[a + i] == inputs.x_hat@[i].view()
            &&& all[x] == ft
            &&& forall|i: int|
                #![trigger inputs.messages.z_comm@[i]]
                0 <= i < inputs.messages.z_comm@.len() ==> all[x + 1 + i]
                    == inputs.messages.z_comm@[i].view()
            &&& all[z] == inputs.vk.generic.view()
            &&& all[z + 1] == inputs.vk.psm.view()
            &&& all[z + 2] == inputs.vk.complete_add.view()
            &&& all[z + 3] == inputs.vk.mul.view()
            &&& all[z + 4] == inputs.vk.emul.view()
            &&& all[z + 5] == inputs.vk.endomul_scalar.view()
            &&& forall|i: int|
                #![trigger w[i]]
                0 <= i < w.len() ==> all[z + 6 + i] == w[i].view()
            &&& forall|i: int|
                #![trigger inputs.vk.coefficients@[i]]
                0 <= i < inputs.vk.coefficients@.len() ==> all[c + i]
                    == inputs.vk.coefficients@[i].view()
            &&& forall|i: int|
                #![trigger inputs.vk.sigma_init@[i]]
                0 <= i < inputs.vk.sigma_init@.len() ==> all[s + i]
                    == inputs.vk.sigma_init@[i].view()
        }),
{
}

/// An old commitment counts by itself: one more in front of the others shifts
/// every other commitment by one power and changes nothing else.
pub proof fn one_more_old_commitment_shifts_the_rest<F: PrimeField>(
    fewer: VerifierInputs<F>,
    more: VerifierInputs<F>,
    old: Point<F>,
    ft: (int, int),
)
    requires
        more.sg_old@ == seq![old] + fewer.sg_old@,
        more.x_hat@ == fewer.x_hat@,
        more.messages == fewer.messages,
        more.vk == fewer.vk,
    ensures
        combined_residues(more, ft) == seq![old.view()] + combined_residues(fewer, ft),
{
    assert(combined_residues(more, ft) =~= seq![old.view()] + combined_residues(fewer, ft));
}

/// The transcript binds everything before each challenge, in order: the key's
/// digest, the old commitments, the public input and the witness columns before
/// `beta` and `gamma`, the permutation before `alpha`, the quotient before
/// `zeta`. Every old commitment that is combined is also absorbed.
pub proof fn the_transcript_binds_in_order<F: PrimeField>(
    vk_digest: F,
    sg_old: Seq<Point<F>>,
    x_hat: Seq<Point<F>>,
    messages: Messages<F>,
)
    ensures
        ({
            let beta = beta_ops(vk_digest, sg_old, x_hat, messages);
            let alpha = alpha_ops(vk_digest, sg_old, x_hat, messages);
            let zeta = zeta_ops(vk_digest, sg_old, x_hat, messages);
            let w = crate::sequences::concat_rows(messages.w_comm@);
            let x = 1int + 2 * sg_old.len();
            let c = x + 2 * x_hat.len();
            let g = c + 2 * w.len();
            let a = g + 2 + 2 * messages.z_comm@.len();
            let t = a + 1 + 2 * messages.t_comm@.len();
            &&& beta.len() == g + 1
            &&& beta[0] == Some(vk_digest.view())
            &&& forall|i: int|
                #![trigger sg_old[i]]
                0 <= i < sg_old.len() ==> beta[1 + 2 * i] == Some(sg_old[i].x.view()) && beta[2 + 2
                    * i] == Some(sg_old[i].y.view())
            &&& forall|i: int|
                #![trigger x_hat[i]]
                0 <= i < x_hat.len() ==> beta[x + 2 * i] == Some(x_hat[i].x.view()) && beta[x + 2
                    * i + 1] == Some(x_hat[i].y.view())
            &&& forall|i: int|
                #![trigger w[i]]
                0 <= i < w.len() ==> beta[c + 2 * i] == Some(w[i].x.view()) && beta[c + 2 * i + 1]
                    == Some(w[i].y.view())
            &&& beta[g] is None
            &&& alpha.len() == a + 1
            &&& alpha.take(g + 2) == beta.push(None)
            &&& forall|i: int|
                #![trigger messages.z_comm@[i]]
                0 <= i < messages.z_comm@.len() ==> alpha[g + 2 + 2 * i] == Some(
                    messages.z_comm@[i].x.view(),
                ) && alpha[g + 3 + 2 * i] == Some(messages.z_comm@[i].y.view())
            &&& alpha[a] is None
            &&& zeta.len() == t + 1
            &&& zeta.take(a + 1) == alpha
            &&& forall|i: int|
                #![trigger messages.t_comm@[i]]
                0 <= i < messages.t_comm@.len() ==> zeta[a + 1 + 2 * i] == Some(
                    messages.t_comm@[i].x.view(),
                ) && zeta[a + 2 + 2 * i] == Some(messages.t_comm@[i].y.view())
            &&& zeta[t] is None
        }),
{
    let w = crate::sequences::concat_rows(messages.w_comm@);
    points_give_their_coordinates(sg_old);
    points_give_their_coordinates(x_hat);
    points_give_their_coordinates(w);
    points_give_their_coordinates(messages.z_comm@);
    points_give_their_coordinates(messages.t_comm@);
    rows_give_the_coordinates_of_their_points(messages.w_comm@);
    let beta = beta_ops(vk_digest, sg_old, x_hat, messages);
    let alpha = alpha_ops(vk_digest, sg_old, x_hat, messages);
    let zeta = zeta_ops(vk_digest, sg_old, x_hat, messages);
    let g = 1int + 2 * sg_old.len() + 2 * x_hat.len() + 2 * w.len();
    let a = g + 2 + 2 * messages.z_comm@.len();
    assert(alpha.take(g + 2) =~= beta.push(None));
    assert(zeta.take(a + 1) =~= alpha);
}

/// The verdict is the argument's equation: with the combined commitment `p`, the
/// rounds' sum `l`, `q = p + cip u + l`, it is whether
/// `c q + delta = z1 (sg + b u) + z2 h`, each scalar read from its own place.
pub proof fn the_verdict_is_the_equation<C: Curve>(
    inputs: VerifierInputs<C::Base>,
    xi: int,
    u: (int, int),
    pres: Seq<C::Scalar>,
    c: int,
    num_bits: nat,
    f: (int, int),
    p: (int, int),
    l: (int, int),
    cip_u: (int, int),
    p_u: (int, int),
    q: (int, int),
    c_q: (int, int),
    left: (int, int),
    b_u: (int, int),
    sg_u: (int, int),
    z1_sg: (int, int),
    z2_h: (int, int),
    right: (int, int),
)
    requires
        ft_commitment::<C>(
            point_residues(inputs.vk.sigma_last@),
            point_residues(inputs.messages.t_comm@),
            inputs.advice.perm.scalar::<C::Scalar>(num_bits),
            inputs.advice.zeta_to_srs_length.scalar::<C::Scalar>(num_bits),
            inputs.advice.zeta_to_domain_size.scalar::<C::Scalar>(num_bits),
        ) == Some(f),
        reduced::<C>(combined_residues(inputs, f), xi) == Some(p),
        rounds_sum::<C>(inputs.openings.lr@, pres) == Some(l),
        C::multiple(u, inputs.advice.combined_inner_product.scalar::<C::Scalar>(num_bits)) == Some(
            cip_u,
        ),
        ec_add::<C::Base>(Some(p), Some(cip_u)) == Some(p_u),
        ec_add::<C::Base>(Some(p_u), Some(l)) == Some(q),
        C::multiple(q, c) == Some(c_q),
        ec_add::<C::Base>(Some(c_q), Some(inputs.openings.delta.view())) == Some(left),
        C::multiple(u, inputs.advice.b.scalar::<C::Scalar>(num_bits)) == Some(b_u),
        ec_add::<C::Base>(
            Some(inputs.openings.challenge_polynomial_commitment.view()),
            Some(b_u),
        ) == Some(sg_u),
        C::multiple(sg_u, inputs.openings.z1.scalar::<C::Scalar>(num_bits)) == Some(z1_sg),
        C::multiple(
            inputs.openings.h_generator.view(),
            inputs.openings.z2.scalar::<C::Scalar>(num_bits),
        ) == Some(z2_h),
        ec_add::<C::Base>(Some(z1_sg), Some(z2_h)) == Some(right),
    ensures
        verdict::<C>(inputs, xi, u, pres, c, num_bits) == Some(left == right),
{
    every_commitment_has_its_place(inputs, f);
    crate::bulletproof::combination_is_horner::<C>(combined_residues(inputs, f), xi);
}

/// What a result says: its verdict is that for the challenges in field form, each
/// challenge is the transcript's at its own place, and the rounds' challenges are
/// the argument's; there is no result if and only if there is no verdict.
pub proof fn results_follow_the_transcript<
    C: Curve,
    H: Fn(&Vec<SpongeOp<C::Base>>) -> C::Base,
    M: Fn(C::Base) -> Point<C::Base>,
    E: Fn(C::Base) -> C::Scalar,
>(
    sponge: H,
    group_map: M,
    to_field: E,
    vk_digest: C::Base,
    inputs: VerifierInputs<C::Base>,
    xi: C::Base,
    num_bits: nat,
    ipa: IpaChallenges<C::Base>,
    pres: Seq<C::Scalar>,
    xi_field: C::Scalar,
    c_field: C::Scalar,
    r: Option<IncrementalResult<C::Base>>,
    i: int,
)
    requires
        verified::<C, H, M, E>(
            sponge,
            group_map,
            to_field,
            vk_digest,
            inputs,
            xi,
            num_bits,
            ipa,
            pres,
            xi_field,
            c_field,
            r,
        ),
    ensures
        ({
            let beta = beta_ops(vk_digest, inputs.sg_old@, inputs.x_hat@, *inputs.messages);
            let alpha = alpha_ops(vk_digest, inputs.sg_old@, inputs.x_hat@, *inputs.messages);
            let zeta = zeta_ops(vk_digest, inputs.sg_old@, inputs.x_hat@, *inputs.messages);
            let outcome = verdict::<C>(
                inputs,
                xi_field.view(),
                ipa.u.view(),
                pres,
                c_field.view(),
                num_bits,
            );
            &&& r is None <==> outcome is None
            &&& call_ensures(to_field, (xi,), xi_field)
            &&& call_ensures(to_field, (ipa.c,), c_field)
            &&& pres.len() == ipa.prechallenges@.len() == inputs.openings.lr@.len()
            &&& 0 <= i < pres.len() ==> call_ensures(to_field, (ipa.prechallenges@[i],), pres[i])
            &&& r matches Some(result) ==> {
                &&& outcome == Some(result.success)
                &&& challenged(sponge, beta, result.oracles.beta)
                &&& challenged(sponge, beta.push(None), result.oracles.gamma)
                &&& challenged(sponge, alpha, result.oracles.alpha)
                &&& challenged(sponge, zeta, result.oracles.zeta)
                &&& replied(sponge, zeta.push(None), result.sponge_digest)
                &&& result.bulletproof_challenges@ == ipa.prechallenges@
            }
            &&& inputs.advice.combined_inner_product matches ShiftedScalar::Type1(cip) ==> {
                let at = zeta + seq![Some(cip.view()), None];
                &&& challenged(
                    sponge,
                    at + crate::bulletproof::rounds_ops(inputs.openings.lr@) + seq![
                        Some(inputs.openings.delta.x.view()),
                        Some(inputs.openings.delta.y.view()),
                        None,
                    ],
                    ipa.c,
                )
                &&& 0 <= i < inputs.openings.lr@.len() ==> challenged(
                    sponge,
                    at + crate::bulletproof::rounds_ops(inputs.openings.lr@.take(i + 1)),
                    ipa.prechallenges@[i],
                )
            }
        }),
{
    let zeta = zeta_ops(vk_digest, inputs.sg_old@, inputs.x_hat@, *inputs.messages);
    if inputs.advice.combined_inner_product is Type1 {
        if let ShiftedScalar::Type1(cip) = inputs.advice.combined_inner_product {
            crate::bulletproof::the_argument_is_bound_in_order(
                sponge,
                group_map,
                zeta,
                cip,
                inputs.openings.lr@,
                inputs.openings.delta,
                ipa,
            );
        }
    }
}

/// Without a commitment to the linearization, a combination or a sum of the
/// rounds there is no verdict.
pub proof fn the_identity_leaves_no_verdict<C: Curve>(
    inputs: VerifierInputs<C::Base>,
    xi: int,
    u: (int, int),
    pres: Seq<C::Scalar>,
    c: int,
    num_bits: nat,
)
    ensures
        rounds_sum::<C>(inputs.openings.lr@, pres) is None ==> verdict::<C>(
            inputs,
            xi,
            u,
            pres,
            c,
            num_bits,
        ) is None,
        ft_commitment::<C>(
            point_residues(inputs.vk.sigma_last@),
            point_residues(inputs.messages.t_comm@),
            inputs.advice.perm.scalar::<C::Scalar>(num_bits),
            inputs.advice.zeta_to_srs_length.scalar::<C::Scalar>(num_bits),
            inputs.advice.zeta_to_domain_size.scalar::<C::Scalar>(num_bits),
        ) is None ==> verdict::<C>(inputs, xi, u, pres, c, num_bits) is None,
        C::multiple(u, inputs.advice.b.scalar::<C::Scalar>(num_bits)) is None ==> verdict::<C>(
            inputs,
            xi,
            u,
            pres,
            c,
            num_bits,
        ) is None,
{
}

/// Commitments and evaluations are combined in one order: where a proof's numbers
/// of columns are those of its key, what is opened at a power of the challenge
/// and what is claimed of it stand at the same place, name by name.
pub proof fn commitments_and_evaluations_share_one_order<F: PrimeField, G: PrimeField>(
    inputs: VerifierInputs<F>,
    ft: (int, int),
    w: FinalizeWitness<G>,
    zetaw: int,
    ft_eval0: int,
    i: int,
)
    requires
        w.prev_challenge_mask is None,
        inputs.sg_old@.len() == w.prev_challenges@.len(),
        inputs.x_hat@.len() == 1,
        inputs.messages.z_comm@.len() == 1,
        crate::sequences::concat_rows(inputs.messages.w_comm@).len() == w.evals.w@.len(),
        inputs.vk.coefficients@.len() == w.evals.coefficients@.len(),
        inputs.vk.sigma_init@.len() == w.evals.s@.len(),
    ensures
        ({
            let comms = combined_residues(inputs, ft);
            let claims = w.cip_entries(zetaw, ft_eval0);
            let columns = crate::sequences::concat_rows(inputs.messages.w_comm@);
            let e = w.evals;
            let a = inputs.sg_old@.len() as int;
            let c = a + 9 + e.w@.len();
            let s = c + e.coefficients@.len();
            &&& comms.len() == claims.len()
            &&& 0 <= i < a ==> comms[i] == inputs.sg_old@[i].view() && claims[i].0
                == challenge_polynomial::<G>(residues(w.prev_challenges@[i]@), w.zeta.view())
            &&& comms[a] == inputs.x_hat@[0].view() && claims[a].0
                == w.public_evals.0@[0].view()
            &&& comms[a + 1] == ft && claims[a + 1] == (ft_eval0, w.ft_eval1.view())
            &&& comms[a + 2] == inputs.messages.z_comm@[0].view() && claims[a + 2].0
                == e.z.0@[0].view()
            &&& comms[a + 3] == inputs.vk.generic.view() && claims[a + 3].0
                == e.generic_selector.0@[0].view()
            &&& comms[a + 4] == inputs.vk.psm.view() && claims[a + 4].0
                == e.poseidon_selector.0@[0].view()
            &&& comms[a + 5] == inputs.vk.complete_add.view() && claims[a + 5].0
                == e.complete_add_selector.0@[0].view()
            &&& comms[a + 6] == inputs.vk.mul.view() && claims[a + 6].0
                == e.mul_selector.0@[0].view()
            &&& comms[a + 7] == inputs.vk.emul.view() && claims[a + 7].0
                == e.emul_selector.0@[0].view()
            &&& comms[a + 8] == inputs.vk.endomul_scalar.view() && claims[a + 8].0
                == e.endomul_scalar_selector.0@[0].view()
            &&& 0 <= i < e.w@.len() ==> comms[a + 9 + i] == columns[i].view() && claims[a + 9
                + i].0 == e.w@[i].0@[0].view()
            &&& 0 <= i < e.coefficients@.len() ==> comms[c + i]
                == inputs.vk.coefficients@[i].view() && claims[c + i].0
                == e.coefficients@[i].0@[0].view()
            &&& 0 <= i < e.s@.len() ==> comms[s + i] == inputs.vk.sigma_init@[i].view()
                && claims[s + i].0 == e.s@[i].0@[0].view()
        }),
{
    every_commitment_has_its_place(inputs, ft);
    every_evaluation_has_its_place(w, zetaw, ft_eval0);
    let claims = w.cip_entries(zetaw, ft_eval0);
    let columns = crate::sequences::concat_rows(inputs.messages.w_comm@);
    let a = inputs.sg_old@.len() as int;
    if 0 <= i < a {
        old_proofs_count_by_their_polynomials(w, w.zeta.view(), zetaw, i);
        assert(inputs.sg_old@[i] == inputs.sg_old@[i]);
        assert(claims.take(a)[i] == claims[i]);
    }
    assert(inputs.x_hat@[0] == inputs.x_hat@[0]);
    assert(inputs.messages.z_comm@[0] == inputs.messages.z_comm@[0]);
    if 0 <= i < columns.len() {
        assert(columns[i] == columns[i]);
    }
}

} // verus!
