//! The inner-product-argument check: combining commitments, the reduction of
//! its rounds, its challenges, and its final equation.
//!
//! The circuit's addition and scaling cannot represent the identity, so a
//! computation that would meet it has no result.

use vstd::prelude::*;

use crate::challenge::{challenged, squeeze_scalar};
use crate::commitments::{
    add_finite, add_options, are_curve_points, is_power_sum, lemma_next_power, lemma_one_power,
    power_term, reduced, scale_element, scale_option, sum_of_powers, ShiftedScalar,
};
use crate::curve::{ec_add, element, is_curve_point, Curve, Point};
use crate::field::{finv, PrimeField};
use crate::sponge::{absorb_all, absorb_point, absorbing, op_residues, replied, squeeze, SpongeOp};

verus! {

/// One entry of the combination of commitments.
#[derive(Clone, Copy, Debug)]
pub enum CommitmentOpt<F: PrimeField> {
    /// Always there.
    Just(Point<F>),
    /// There if and only if the bit is set.
    Maybe(bool, Point<F>),
    /// Not there.
    Nothing,
}

impl<F: PrimeField> CommitmentOpt<F> {
    /// The bit and the point of an entry.
    pub open spec fn entry(self) -> Option<(bool, (int, int))> {
        match self {
            CommitmentOpt::Just(p) => Some((true, p.view())),
            CommitmentOpt::Maybe(keep, p) => Some((keep, p.view())),
            CommitmentOpt::Nothing => None,
        }
    }
}

/// The bits and points of a list.
pub open spec fn entries<F: PrimeField>(list: Seq<CommitmentOpt<F>>) -> Seq<
    Option<(bool, (int, int))>,
> {
    Seq::new(list.len(), |i: int| list[i].entry())
}

/// The combination of a list, last entry first: the accumulated point and
/// whether anything was accumulated. The inner option is empty before the first
/// entry, the outer when a step meets the identity. Every step is computed,
/// whether or not its entry is there.
pub open spec fn combined<C: Curve>(list: Seq<Option<(bool, (int, int))>>, xi: int) -> Option<
    Option<(bool, (int, int))>,
>
    decreases list.len(),
{
    if list.len() == 0 {
        Some(None)
    } else {
        match (combined::<C>(list.drop_first(), xi), list[0]) {
            (None, _) => None,
            (Some(acc), None) => Some(acc),
            (Some(None), Some((keep, p))) => Some(Some((keep, p))),
            (Some(Some((non_zero, point))), Some((keep, p))) => {
                match add_finite::<C::Base>(Some(p), C::multiple(point, xi)) {
                    None => None,
                    Some(added) => {
                        let base = if non_zero {
                            added
                        } else {
                            p
                        };
                        Some(
                            Some(
                                (
                                    keep || non_zero,
                                    if keep {
                                        base
                                    } else {
                                        point
                                    },
                                ),
                            ),
                        )
                    },
                }
            },
        }
    }
}

/// The entries that are there.
pub open spec fn present(list: Seq<Option<(bool, (int, int))>>) -> Seq<
    Option<(bool, (int, int))>,
>
    decreases list.len(),
{
    if list.len() == 0 {
        Seq::empty()
    } else {
        let rest = present(list.drop_first());
        match list[0] {
            Some((true, p)) => seq![Some((true, p))] + rest,
            _ => rest,
        }
    }
}

/// An entry that is not there counts for nothing: where a combination has a
/// point, the entries that are there combine to the same point.
pub proof fn absent_entries_count_for_nothing<C: Curve>(
    list: Seq<Option<(bool, (int, int))>>,
    xi: int,
)
    ensures
        combined::<C>(list, xi) matches Some(Some((true, point))) ==> combined::<C>(
            present(list),
            xi,
        ) == Some(Some((true, point))),
        combined::<C>(list, xi) matches Some(Some((false, point))) ==> present(list).len() == 0,
        combined::<C>(list, xi) == Some(None::<(bool, (int, int))>) ==> present(list).len() == 0,
    decreases list.len(),
{
    if list.len() > 0 {
        absent_entries_count_for_nothing::<C>(list.drop_first(), xi);
        let rest = present(list.drop_first());
        let all = present(list);
        if list[0] matches Some((true, p)) {
            assert(all.drop_first() =~= rest);
            assert(all[0] == list[0]);
        }
    }
}

/// A list of points that are all there.
pub open spec fn all_present(points: Seq<(int, int)>) -> Seq<Option<(bool, (int, int))>> {
    Seq::new(points.len(), |i: int| Some((true, points[i])))
}

/// Entries that are all there combine as a polynomial in the challenge,
/// `p_0 + xi (p_1 + xi (..))`.
pub proof fn combination_is_horner<C: Curve>(points: Seq<(int, int)>, xi: int)
    requires
        points.len() > 0,
    ensures
        combined::<C>(all_present(points), xi) == (match reduced::<C>(points, xi) {
            None => None,
            Some(p) => Some(Some((true, p))),
        }),
    decreases points.len(),
{
    let list = all_present(points);
    assert(list.drop_first() =~= all_present(points.drop_first()));
    if points.len() == 1 {
        assert(combined::<C>(list.drop_first(), xi) == Some(None::<(bool, (int, int))>));
    } else {
        combination_is_horner::<C>(points.drop_first(), xi);
    }
}

/// The points of the entries that are there.
pub open spec fn kept_points(list: Seq<Option<(bool, (int, int))>>) -> Seq<(int, int)>
    decreases list.len(),
{
    if list.len() == 0 {
        Seq::empty()
    } else {
        let rest = kept_points(list.drop_first());
        match list[0] {
            Some((true, p)) => seq![p] + rest,
            _ => rest,
        }
    }
}

/// Combines commitments by the challenge `xi`, given in field form. No result
/// when a step meets the identity, when no entry is there, or when the circuit's
/// assertion that something was accumulated fails. On points of the curve the
/// result is the sum of the points that are there by the powers of `xi`, which an
/// entry that is not there neither joins nor advances.
pub fn combine_commitments<C: Curve>(
    commitments: &[CommitmentOpt<C::Base>],
    xi: &C::Scalar,
) -> (r: Option<Point<C::Base>>)
    ensures
        element(r) == combination::<C>(entries(commitments@), xi.view()),
        are_curve_points::<C::Base>(kept_points(entries(commitments@))) ==> (element(r) matches Some(
            sum,
        ) ==> Some(sum) == sum_of_powers::<C>(
            kept_points(entries(commitments@)),
            xi.view(),
            0,
        )),
{
    let ghost list = entries(commitments@);
    let ghost on = are_curve_points::<C::Base>(kept_points(list));
    proof {
        C::Scalar::lemma_canonical(*xi);
    }
    let mut acc: Option<(bool, Point<C::Base>)> = None;
    let mut i: usize = commitments.len();
    assert(list.skip(i as int) =~= Seq::empty());
    while i > 0
        invariant
            i <= commitments@.len(),
            list == entries(commitments@),
            combined::<C>(list.skip(i as int), xi.view()) == Some(accumulated(acc)),
            0 <= xi.view() < C::Scalar::modulus(),
            on == are_curve_points::<C::Base>(kept_points(list)),
            on ==> (acc matches Some((true, point)) ==> is_power_sum::<C>(
                kept_points(list.skip(i as int)),
                xi.view(),
                point.view(),
            )),
            !(acc matches Some((true, _))) ==> kept_points(list.skip(i as int)).len() == 0,
        decreases i,
    {
        i = i - 1;
        let ghost rest = kept_points(list.skip(i + 1));
        proof {
            assert(list.skip(i as int).drop_first() =~= list.skip(i + 1));
            assert(list.skip(i as int)[0] == commitments@[i as int].entry());
            if on {
                lemma_kept_on_curve::<C::Base>(list, i as int);
            }
        }
        let (keep, p) = match &commitments[i] {
            CommitmentOpt::Nothing => (None, None),
            CommitmentOpt::Just(p) => (Some(true), Some(*p)),
            CommitmentOpt::Maybe(keep, p) => (Some(*keep), Some(*p)),
        };
        if let (Some(keep), Some(p)) = (keep, p) {
            match acc {
                None => {
                    proof {
                        assert(seq![p.view()] + rest =~= seq![p.view()]);
                        if on && keep {
                            assert(kept_points(list.skip(i as int))[0] == p.view());
                            lemma_one_power::<C>(p.view(), xi.view());
                        }
                    }
                    acc = Some((keep, p));
                },
                Some((non_zero, point)) => {
                    let scaled = C::scale(&point, xi);
                    let added = match add_options(&Some(p), &scaled) {
                        None => {
                            proof {
                                lemma_failure_spreads::<C>(list, xi.view(), i as int);
                            }
                            return None;
                        },
                        Some(a) => a,
                    };
                    let base = if non_zero {
                        added
                    } else {
                        p
                    };
                    let next = if keep {
                        base
                    } else {
                        point
                    };
                    proof {
                        if on && keep {
                            assert(kept_points(list.skip(i as int))[0] == p.view());
                            if non_zero {
                                let s = element(scaled)->0;
                                assert(ec_add::<C::Base>(Some(p.view()), Some(s)) == Some(
                                    added.view(),
                                ));
                                lemma_next_power::<C>(
                                    rest,
                                    xi.view(),
                                    p.view(),
                                    point.view(),
                                    s,
                                    added.view(),
                                );
                            } else {
                                assert(seq![p.view()] + rest =~= seq![p.view()]);
                                lemma_one_power::<C>(p.view(), xi.view());
                            }
                        }
                    }
                    acc = Some((keep || non_zero, next));
                },
            }
        }
    }
    assert(list.skip(0) =~= list);
    match acc {
        Some((true, point)) => {
            assert(on ==> power_term::<C>(point.view(), xi.view(), 0) == sum_of_powers::<C>(
                kept_points(list),
                xi.view(),
                0,
            ));
            Some(point)
        },
        _ => None,
    }
}

/// The points that are there from a place on are among all.
proof fn lemma_kept_on_curve<F: PrimeField>(list: Seq<Option<(bool, (int, int))>>, i: int)
    requires
        0 <= i <= list.len(),
        are_curve_points::<F>(kept_points(list)),
    ensures
        are_curve_points::<F>(kept_points(list.skip(i))),
    decreases i,
{
    if i == 0 {
        assert(list.skip(0) =~= list);
    } else {
        lemma_kept_on_curve::<F>(list, i - 1);
        let all = kept_points(list.skip(i - 1));
        let rest = kept_points(list.skip(i));
        assert(list.skip(i - 1).drop_first() =~= list.skip(i));
        assert forall|k: int| 0 <= k < rest.len() implies is_curve_point::<F>(
            #[trigger] rest[k],
        ) by {
            if list.skip(i - 1)[0] matches Some((true, _)) {
                assert(all[k + 1] == rest[k]);
            } else {
                assert(all[k] == rest[k]);
            }
        }
    }
}

proof fn lemma_failure_spreads<C: Curve>(
    list: Seq<Option<(bool, (int, int))>>,
    xi: int,
    i: int,
)
    requires
        0 <= i <= list.len(),
        combined::<C>(list.skip(i), xi) is None,
    ensures
        combined::<C>(list, xi) is None,
    decreases i,
{
    if i == 0 {
        assert(list.skip(0) =~= list);
    } else {
        assert(list.skip(i - 1).drop_first() =~= list.skip(i));
        lemma_failure_spreads::<C>(list, xi, i - 1);
    }
}

/// The residues of an accumulator.
pub open spec fn accumulated<F: PrimeField>(acc: Option<(bool, Point<F>)>) -> Option<
    (bool, (int, int)),
> {
    match acc {
        None => None,
        Some((non_zero, p)) => Some((non_zero, p.view())),
    }
}

/// The point of a combination, where something was accumulated.
pub open spec fn combination<C: Curve>(list: Seq<Option<(bool, (int, int))>>, xi: int) -> Option<
    (int, int),
> {
    match combined::<C>(list, xi) {
        Some(Some((true, p))) => Some(p),
        _ => None,
    }
}

/// `pre^-1 L + pre R` of one round.
pub open spec fn round_term<C: Curve>(l: (int, int), r: (int, int), pre: int) -> Option<
    (int, int),
> {
    if pre == 0 {
        None
    } else {
        add_finite::<C::Base>(C::multiple(l, finv::<C::Scalar>(pre)), C::multiple(r, pre))
    }
}

/// The sum of the terms of the rounds, first to last.
pub open spec fn rounds_sum<C: Curve>(
    lr: Seq<(Point<C::Base>, Point<C::Base>)>,
    pres: Seq<C::Scalar>,
) -> Option<(int, int)>
    decreases lr.len(),
{
    if lr.len() == 0 {
        None
    } else {
        let term = round_term::<C>(
            lr.last().0.view(),
            lr.last().1.view(),
            pres.last().view(),
        );
        if lr.len() == 1 {
            term
        } else {
            add_finite::<C::Base>(rounds_sum::<C>(lr.drop_last(), pres.drop_last()), term)
        }
    }
}

fn term_of_round<C: Curve>(l: &Point<C::Base>, r: &Point<C::Base>, pre: &C::Scalar) -> (t: Option<
    Point<C::Base>,
>)
    ensures
        element(t) == round_term::<C>(l.view(), r.view(), pre.view()),
{
    match pre.inverse() {
        None => None,
        Some(inverse) => {
            proof {
                crate::field::lemma_inverse_is_unique::<C::Scalar>(pre.view(), inverse.view());
            }
            let left = C::scale(l, &inverse);
            let right = C::scale(r, pre);
            add_options(&left, &right)
        },
    }
}

/// The reduction of the rounds: `sum (pre^-1 L + pre R)`, the challenges given in
/// field form. Every term is computed before the first sum.
pub fn bullet_reduce_terms<C: Curve>(
    lr: &[(Point<C::Base>, Point<C::Base>)],
    prechallenges: &[C::Scalar],
) -> (r: Option<Point<C::Base>>)
    requires
        lr@.len() == prechallenges@.len(),
        lr@.len() > 0,
    ensures
        element(r) == rounds_sum::<C>(lr@, prechallenges@),
{
    let mut terms: Vec<Option<Point<C::Base>>> = Vec::new();
    let mut i: usize = 0;
    while i < lr.len()
        invariant
            i <= lr@.len(),
            lr@.len() == prechallenges@.len(),
            terms@.len() == i,
            forall|k: int|
                0 <= k < i ==> element(#[trigger] terms@[k]) == round_term::<C>(
                    lr@[k].0.view(),
                    lr@[k].1.view(),
                    prechallenges@[k].view(),
                ),
        decreases lr.len() - i,
    {
        terms.push(term_of_round::<C>(&lr[i].0, &lr[i].1, &prechallenges[i]));
        i = i + 1;
    }
    let mut acc: Option<Point<C::Base>> = terms[0];
    let mut j: usize = 1;
    while j < terms.len()
        invariant
            1 <= j <= terms@.len(),
            terms@.len() == lr@.len() == prechallenges@.len(),
            forall|k: int|
                0 <= k < terms@.len() ==> element(#[trigger] terms@[k]) == round_term::<C>(
                    lr@[k].0.view(),
                    lr@[k].1.view(),
                    prechallenges@[k].view(),
                ),
            element(acc) == rounds_sum::<C>(lr@.take(j as int), prechallenges@.take(j as int)),
        decreases terms.len() - j,
    {
        acc = add_options(&acc, &terms[j]);
        proof {
            assert(lr@.take(j + 1).drop_last() =~= lr@.take(j as int));
            assert(prechallenges@.take(j + 1).drop_last() =~= prechallenges@.take(j as int));
        }
        j = j + 1;
    }
    assert(lr@.take(j as int) =~= lr@);
    assert(prechallenges@.take(j as int) =~= prechallenges@);
    acc
}

/// What a round adds to the transcript: `L`, `R`, a squeeze.
pub open spec fn round_ops<F: PrimeField>(lr: (Point<F>, Point<F>)) -> Seq<Option<int>> {
    absorbing(
        seq![lr.0.x.view(), lr.0.y.view(), lr.1.x.view(), lr.1.y.view()],
    ).push(None)
}

/// What the rounds add to the transcript.
pub open spec fn rounds_ops<F: PrimeField>(lr: Seq<(Point<F>, Point<F>)>) -> Seq<Option<int>>
    decreases lr.len(),
{
    if lr.len() == 0 {
        Seq::empty()
    } else {
        rounds_ops(lr.drop_last()) + round_ops(lr.last())
    }
}

/// The challenges of the rounds: each round absorbs `L` and `R`, and takes the
/// low 128 bits of a squeeze.
pub fn bullet_reduce_challenges<F: PrimeField, H: Fn(&Vec<SpongeOp<F>>) -> F>(
    ops: &mut Vec<SpongeOp<F>>,
    sponge: &H,
    lr: &[(Point<F>, Point<F>)],
) -> (r: Vec<F>)
    requires
        forall|v: &Vec<SpongeOp<F>>| call_requires(*sponge, (v,)),
    ensures
        op_residues(final(ops)@) == op_residues(old(ops)@) + rounds_ops(lr@),
        r@.len() == lr@.len(),
        forall|i: int|
            0 <= i < lr@.len() ==> challenged(
                *sponge,
                op_residues(old(ops)@) + rounds_ops(lr@.take(i + 1)),
                #[trigger] r@[i],
            ),
{
    let ghost before = op_residues(ops@);
    let mut out: Vec<F> = Vec::new();
    let mut i: usize = 0;
    assert(rounds_ops(lr@.take(0)) =~= Seq::empty());
    while i < lr.len()
        invariant
            i <= lr@.len(),
            out@.len() == i,
            before == op_residues(old(ops)@),
            op_residues(ops@) =~= before + rounds_ops(lr@.take(i as int)),
            forall|v: &Vec<SpongeOp<F>>| call_requires(*sponge, (v,)),
            forall|k: int|
                0 <= k < i ==> challenged(
                    *sponge,
                    before + rounds_ops(lr@.take(k + 1)),
                    #[trigger] out@[k],
                ),
        decreases lr.len() - i,
    {
        absorb_point(ops, &lr[i].0);
        absorb_point(ops, &lr[i].1);
        let challenge = squeeze_scalar(ops, sponge).lo;
        proof {
            assert(lr@.take(i + 1).drop_last() =~= lr@.take(i as int));
            assert(op_residues(ops@) =~= before + rounds_ops(lr@.take(i + 1)));
            assert(challenged(*sponge, before + rounds_ops(lr@.take(i + 1)), challenge));
        }
        out.push(challenge);
        i = i + 1;
    }
    assert(lr@.take(i as int) =~= lr@);
    out
}

/// The challenges of the argument: the point `u`, the challenges of the rounds,
/// and the last challenge.
pub struct IpaChallenges<F: PrimeField> {
    pub u: Point<F>,
    pub prechallenges: Vec<F>,
    pub c: F,
}

/// The transcript up to the squeeze that gives `u`.
pub open spec fn u_ops<F: PrimeField>(before: Seq<Option<int>>, cip: ShiftedScalar<F>) -> Seq<
    Option<int>,
> {
    (before + absorbing(cip.absorbed_spec())).push(None)
}

/// The challenges are those of the transcript: absorb the combined inner
/// product, squeeze and map to the group, run the rounds, absorb `delta`,
/// squeeze.
pub open spec fn ipa_transcript<
    F: PrimeField,
    H: Fn(&Vec<SpongeOp<F>>) -> F,
    M: Fn(F) -> Point<F>,
>(
    sponge: H,
    group_map: M,
    before: Seq<Option<int>>,
    cip: ShiftedScalar<F>,
    lr: Seq<(Point<F>, Point<F>)>,
    delta: Point<F>,
    r: IpaChallenges<F>,
) -> bool {
    &&& exists|t: F|
        #[trigger] replied(sponge, u_ops(before, cip), t) && call_ensures(group_map, (t,), r.u)
    &&& r.prechallenges@.len() == lr.len()
    &&& forall|i: int|
        0 <= i < lr.len() ==> challenged(
            sponge,
            u_ops(before, cip) + rounds_ops(lr.take(i + 1)),
            #[trigger] r.prechallenges@[i],
        )
    &&& challenged(
        sponge,
        (u_ops(before, cip) + rounds_ops(lr) + absorbing(
            seq![delta.x.view(), delta.y.view()],
        )).push(None),
        r.c,
    )
}

/// Derives the challenges of the argument from the transcript so far.
pub fn ipa_challenges_transcript<
    F: PrimeField,
    H: Fn(&Vec<SpongeOp<F>>) -> F,
    M: Fn(F) -> Point<F>,
>(
    ops: &mut Vec<SpongeOp<F>>,
    sponge: &H,
    group_map: &M,
    cip: &ShiftedScalar<F>,
    lr: &[(Point<F>, Point<F>)],
    delta: &Point<F>,
) -> (r: IpaChallenges<F>)
    requires
        forall|v: &Vec<SpongeOp<F>>| call_requires(*sponge, (v,)),
        forall|t: F| call_requires(*group_map, (t,)),
    ensures
        ipa_transcript(*sponge, *group_map, op_residues(old(ops)@), *cip, lr@, *delta, r),
        op_residues(final(ops)@) == (u_ops(op_residues(old(ops)@), *cip) + rounds_ops(lr@)
            + absorbing(seq![delta.x.view(), delta.y.view()])).push(None),
{
    let absorbed = cip.absorbed();
    absorb_all(ops, absorbed.as_slice());
    let t = squeeze(ops, sponge);
    let ghost at_u = op_residues(ops@);
    assert(at_u =~= u_ops(op_residues(old(ops)@), *cip));
    let u = group_map(t);
    let prechallenges = bullet_reduce_challenges(ops, sponge, lr);
    absorb_point(ops, delta);
    let c = squeeze_scalar(ops, sponge).lo;
    assert(op_residues(ops@) =~= (at_u + rounds_ops(lr@) + absorbing(
        seq![delta.x.view(), delta.y.view()],
    )).push(None));
    assert(challenged(*sponge, op_residues(ops@), c));
    IpaChallenges { u, prechallenges, c }
}

/// `combined + cip u + lr_prod`.
pub open spec fn bulletproof_q<C: Curve>(
    combined: (int, int),
    lr_prod: (int, int),
    u: (int, int),
    cip: int,
) -> Option<(int, int)> {
    add_finite::<C::Base>(
        add_finite::<C::Base>(Some(combined), C::multiple(u, cip)),
        Some(lr_prod),
    )
}

/// The left side of the final equation, its point part: `combined + cip u +
/// lr_prod`.
pub fn prepare_bulletproof_q<C: Curve>(
    combined_polynomial: &Point<C::Base>,
    lr_prod: &Point<C::Base>,
    u: &Point<C::Base>,
    cip: &ShiftedScalar<C::Base>,
    num_bits: u64,
) -> (r: Option<Point<C::Base>>)
    ensures
        element(r) == bulletproof_q::<C>(
            combined_polynomial.view(),
            lr_prod.view(),
            u.view(),
            cip.scalar::<C::Scalar>(num_bits as nat),
        ),
{
    let cip_scalar: C::Scalar = cip.to_scalar(num_bits);
    let uc = C::scale(u, &cip_scalar);
    let p_prime = add_options(&Some(*combined_polynomial), &uc);
    add_options(&p_prime, &Some(*lr_prod))
}

/// `c q + delta`.
pub open spec fn equation_left<C: Curve>(q: (int, int), c: int, delta: (int, int)) -> Option<
    (int, int),
> {
    add_finite::<C::Base>(C::multiple(q, c), Some(delta))
}

/// `z1 (sg + b u) + z2 h`.
pub open spec fn equation_right<C: Curve>(
    u: (int, int),
    b: int,
    z1: int,
    z2: int,
    sg: (int, int),
    h: (int, int),
) -> Option<(int, int)> {
    add_finite::<C::Base>(
        scale_element::<C>(add_finite::<C::Base>(Some(sg), C::multiple(u, b)), z1),
        C::multiple(h, z2),
    )
}

/// Whether two points that both exist are the same.
pub open spec fn both_equal(a: Option<(int, int)>, b: Option<(int, int)>) -> Option<bool> {
    match (a, b) {
        (Some(p), Some(q)) => Some(p == q),
        _ => None,
    }
}

/// Whether `c q + delta == z1 (sg + b u) + z2 h`. The scalars but `c` are given
/// by their shifted representatives, `c` in field form.
pub fn check_bulletproof_equation_from_q<C: Curve>(
    q: &Point<C::Base>,
    u: &Point<C::Base>,
    b: &ShiftedScalar<C::Base>,
    z1: &ShiftedScalar<C::Base>,
    z2: &ShiftedScalar<C::Base>,
    c: &C::Scalar,
    delta: &Point<C::Base>,
    challenge_polynomial_commitment: &Point<C::Base>,
    h_generator: &Point<C::Base>,
    num_bits: u64,
) -> (r: Option<bool>)
    ensures
        r == both_equal(
            equation_left::<C>(q.view(), c.view(), delta.view()),
            equation_right::<C>(
                u.view(),
                b.scalar::<C::Scalar>(num_bits as nat),
                z1.scalar::<C::Scalar>(num_bits as nat),
                z2.scalar::<C::Scalar>(num_bits as nat),
                challenge_polynomial_commitment.view(),
                h_generator.view(),
            ),
        ),
{
    let cq = C::scale(q, c);
    let lhs = add_options(&cq, &Some(*delta));
    let b_scalar: C::Scalar = b.to_scalar(num_bits);
    let b_u = C::scale(u, &b_scalar);
    let g_plus_b_u = add_options(&Some(*challenge_polynomial_commitment), &b_u);
    let z1_scalar: C::Scalar = z1.to_scalar(num_bits);
    let z1_g_plus_b_u = scale_option::<C>(&g_plus_b_u, &z1_scalar);
    let z2_scalar: C::Scalar = z2.to_scalar(num_bits);
    let z2_h = C::scale(h_generator, &z2_scalar);
    let rhs = add_options(&z1_g_plus_b_u, &z2_h);
    match (lhs, rhs) {
        (Some(l), Some(r)) => {
            let x_eq = crate::field::equal(&l.x, &r.x);
            let y_eq = crate::field::equal(&l.y, &r.y);
            Some(x_eq && y_eq)
        },
        _ => None,
    }
}

/// The final equation of the argument, from the combined commitment and the sum
/// of the rounds.
pub open spec fn bulletproof_equation<C: Curve>(
    combined: (int, int),
    lr_prod: (int, int),
    u: (int, int),
    cip: int,
    b: int,
    z1: int,
    z2: int,
    c: int,
    delta: (int, int),
    sg: (int, int),
    h: (int, int),
) -> Option<bool> {
    match bulletproof_q::<C>(combined, lr_prod, u, cip) {
        None => None,
        Some(q) => both_equal(
            equation_left::<C>(q, c, delta),
            equation_right::<C>(u, b, z1, z2, sg, h),
        ),
    }
}

/// Whether the argument's final equation holds.
pub fn check_bulletproof_equation<C: Curve>(
    combined_polynomial: &Point<C::Base>,
    lr_prod: &Point<C::Base>,
    u: &Point<C::Base>,
    cip: &ShiftedScalar<C::Base>,
    b: &ShiftedScalar<C::Base>,
    z1: &ShiftedScalar<C::Base>,
    z2: &ShiftedScalar<C::Base>,
    c: &C::Scalar,
    delta: &Point<C::Base>,
    challenge_polynomial_commitment: &Point<C::Base>,
    h_generator: &Point<C::Base>,
    num_bits: u64,
) -> (r: Option<bool>)
    ensures
        r == bulletproof_equation::<C>(
            combined_polynomial.view(),
            lr_prod.view(),
            u.view(),
            cip.scalar::<C::Scalar>(num_bits as nat),
            b.scalar::<C::Scalar>(num_bits as nat),
            z1.scalar::<C::Scalar>(num_bits as nat),
            z2.scalar::<C::Scalar>(num_bits as nat),
            c.view(),
            delta.view(),
            challenge_polynomial_commitment.view(),
            h_generator.view(),
        ),
{
    match prepare_bulletproof_q::<C>(combined_polynomial, lr_prod, u, cip, num_bits) {
        None => None,
        Some(q) => check_bulletproof_equation_from_q::<C>(
            &q,
            u,
            b,
            z1,
            z2,
            c,
            delta,
            challenge_polynomial_commitment,
            h_generator,
            num_bits,
        ),
    }
}

/// A round's two points are absorbed left before right, abscissa before
/// ordinate, and closed by one squeeze: the first of two lists of rounds is a
/// prefix of the whole, and each round takes five operations of its own.
pub proof fn rounds_are_absorbed_in_order<F: PrimeField>(lr: Seq<(Point<F>, Point<F>)>)
    ensures
        rounds_ops(lr).len() == 5 * lr.len(),
        forall|i: int|
            #![trigger lr[i]]
            0 <= i < lr.len() ==> {
                &&& rounds_ops(lr)[5 * i] == Some(lr[i].0.x.view())
                &&& rounds_ops(lr)[5 * i + 1] == Some(lr[i].0.y.view())
                &&& rounds_ops(lr)[5 * i + 2] == Some(lr[i].1.x.view())
                &&& rounds_ops(lr)[5 * i + 3] == Some(lr[i].1.y.view())
                &&& rounds_ops(lr)[5 * i + 4] is None
            },
    decreases lr.len(),
{
    if lr.len() > 0 {
        let rest = lr.drop_last();
        rounds_are_absorbed_in_order(rest);
        let n = lr.len() - 1;
        assert forall|i: int| #![trigger lr[i]] 0 <= i < lr.len() implies {
            &&& rounds_ops(lr)[5 * i] == Some(lr[i].0.x.view())
            &&& rounds_ops(lr)[5 * i + 1] == Some(lr[i].0.y.view())
            &&& rounds_ops(lr)[5 * i + 2] == Some(lr[i].1.x.view())
            &&& rounds_ops(lr)[5 * i + 3] == Some(lr[i].1.y.view())
            &&& rounds_ops(lr)[5 * i + 4] is None
        } by {
            if i < n {
                assert(rest[i] == lr[i]);
            }
        }
    }
}

/// The combined inner product is bound before the argument's base is drawn, in
/// the form in which it is sent: one element, or the half and the odd bit.
pub proof fn the_base_binds_the_inner_product<F: PrimeField>(
    before: Seq<Option<int>>,
    n: F,
    odd: bool,
)
    ensures
        u_ops(before, ShiftedScalar::Type1(n)) == before + seq![Some(n.view()), None],
        u_ops(before, ShiftedScalar::Type2(n, odd)) == before + seq![
            Some(n.view()),
            Some(
                if odd {
                    1int
                } else {
                    0
                },
            ),
            None,
        ],
{
    assert(u_ops(before, ShiftedScalar::Type1(n)) =~= before + seq![Some(n.view()), None]);
    assert(u_ops(before, ShiftedScalar::Type2(n, odd)) =~= before + seq![
        Some(n.view()),
        Some(
            if odd {
                1int
            } else {
                0
            },
        ),
        None,
    ]);
}

/// The last challenge follows every round and then `delta`, abscissa first; the
/// challenge of a round follows that round and no later one.
pub proof fn the_argument_is_bound_in_order<
    F: PrimeField,
    H: Fn(&Vec<SpongeOp<F>>) -> F,
    M: Fn(F) -> Point<F>,
>(
    sponge: H,
    group_map: M,
    before: Seq<Option<int>>,
    cip: F,
    lr: Seq<(Point<F>, Point<F>)>,
    delta: Point<F>,
    r: IpaChallenges<F>,
)
    requires
        ipa_transcript(sponge, group_map, before, ShiftedScalar::Type1(cip), lr, delta, r),
    ensures
        ({
            let at = before + seq![Some(cip.view()), None];
            exists|t: F| #[trigger]
                replied(sponge, at, t) && call_ensures(group_map, (t,), r.u)
        }),
        forall|i: int|
            0 <= i < lr.len() ==> challenged(
                sponge,
                before + seq![Some(cip.view()), None] + rounds_ops(lr.take(i + 1)),
                #[trigger] r.prechallenges@[i],
            ),
        challenged(
            sponge,
            before + seq![Some(cip.view()), None] + rounds_ops(lr) + seq![
                Some(delta.x.view()),
                Some(delta.y.view()),
                None,
            ],
            r.c,
        ),
{
    the_base_binds_the_inner_product(before, cip, false);
    let at = before + seq![Some(cip.view()), None];
    assert((at + rounds_ops(lr) + absorbing(seq![delta.x.view(), delta.y.view()])).push(None)
        =~= at + rounds_ops(lr) + seq![Some(delta.x.view()), Some(delta.y.view()), None]);
}

/// A round contributes its left point at the challenge's inverse and its right
/// point at the challenge itself, and the rounds are summed one after the other.
pub proof fn rounds_weigh_left_by_the_inverse<C: Curve>(
    lr: Seq<(Point<C::Base>, Point<C::Base>)>,
    pres: Seq<C::Scalar>,
    l: Point<C::Base>,
    r: Point<C::Base>,
    pre: C::Scalar,
    inv: int,
    lt: (int, int),
    rt: (int, int),
    sum: (int, int),
)
    requires
        lr.len() == pres.len(),
        lr.len() > 0,
        crate::field::is_inverse(C::Scalar::modulus(), pre.view(), inv),
        C::multiple(l.view(), inv) == Some(lt),
        C::multiple(r.view(), pre.view()) == Some(rt),
        rounds_sum::<C>(lr, pres) == Some(sum),
    ensures
        rounds_sum::<C>(seq![(l, r)], seq![pre]) == ec_add::<C::Base>(Some(lt), Some(rt)),
        ec_add::<C::Base>(Some(lt), Some(rt)) matches Some(t) ==> rounds_sum::<C>(
            lr.push((l, r)),
            pres.push(pre),
        ) == ec_add::<C::Base>(Some(sum), Some(t)),
{
    crate::field::lemma_inverse_is_unique::<C::Scalar>(pre.view(), inv);
    assert(pre.view() != 0) by {
        C::Scalar::lemma_modulus();
        if pre.view() == 0 {
            assert(0 * inv == 0);
            vstd::arithmetic::div_mod::lemma_small_mod(0, C::Scalar::modulus() as nat);
        }
    }
    assert(lr.push((l, r)).drop_last() =~= lr);
    assert(pres.push(pre).drop_last() =~= pres);
}

/// The argument's equation, term by term: the left side is `c q + delta` with
/// `q = combined + cip u + lr`, the right side `z1 (sg + b u) + z2 h`.
pub proof fn the_equation_has_two_sides<C: Curve>(
    combined: (int, int),
    lr_prod: (int, int),
    u: (int, int),
    cip: int,
    b: int,
    z1: int,
    z2: int,
    c: int,
    delta: (int, int),
    sg: (int, int),
    h: (int, int),
    cip_u: (int, int),
    p_u: (int, int),
    q: (int, int),
    c_q: (int, int),
    left: (int, int),
    b_u: (int, int),
    sg_u: (int, int),
    z1_sg: (int, int),
    z2_h: (int, int),
    right: (int, int),
)
    requires
        C::multiple(u, cip) == Some(cip_u),
        ec_add::<C::Base>(Some(combined), Some(cip_u)) == Some(p_u),
        ec_add::<C::Base>(Some(p_u), Some(lr_prod)) == Some(q),
        C::multiple(q, c) == Some(c_q),
        ec_add::<C::Base>(Some(c_q), Some(delta)) == Some(left),
        C::multiple(u, b) == Some(b_u),
        ec_add::<C::Base>(Some(sg), Some(b_u)) == Some(sg_u),
        C::multiple(sg_u, z1) == Some(z1_sg),
        C::multiple(h, z2) == Some(z2_h),
        ec_add::<C::Base>(Some(z1_sg), Some(z2_h)) == Some(right),
    ensures
        bulletproof_equation::<C>(combined, lr_prod, u, cip, b, z1, z2, c, delta, sg, h) == Some(
            left == right,
        ),
{
}

/// Presence shows entry by entry: an entry that is always there counts with its
/// point, one with a bit by that bit, and one that is not there not at all.
pub proof fn entries_show_their_presence<F: PrimeField>(
    list: Seq<CommitmentOpt<F>>,
    p: Point<F>,
    keep: bool,
)
    ensures
        entries(list.push(CommitmentOpt::Just(p))) == entries(list).push(Some((true, p.view()))),
        entries(list.push(CommitmentOpt::Maybe(keep, p))) == entries(list).push(
            Some((keep, p.view())),
        ),
        entries(list.push(CommitmentOpt::Nothing)) == entries(list).push(None),
{
    assert(entries(list.push(CommitmentOpt::Just(p))) =~= entries(list).push(
        Some((true, p.view())),
    ));
    assert(entries(list.push(CommitmentOpt::Maybe(keep, p))) =~= entries(list).push(
        Some((keep, p.view())),
    ));
    assert(entries(list.push(CommitmentOpt::Nothing)) =~= entries(list).push(None));
}

/// A sum that meets the identity has no result, and so has a round whose
/// challenge is zero; an equation without one of its sides has no answer.
pub proof fn the_identity_has_no_result<C: Curve>(
    l: (int, int),
    r: (int, int),
    a: Option<(int, int)>,
    p: (int, int),
    q: (int, int),
    k: int,
)
    ensures
        round_term::<C>(l, r, 0) is None,
        add_finite::<C::Base>(None, a) is None,
        add_finite::<C::Base>(a, None) is None,
        add_finite::<C::Base>(Some(p), Some(q)) == ec_add::<C::Base>(Some(p), Some(q)),
        scale_element::<C>(None, k) is None,
        scale_element::<C>(Some(p), k) == C::multiple(p, k),
        both_equal(None, a) is None,
        both_equal(a, None) is None,
        both_equal(Some(p), Some(q)) == Some(p == q),
{
}

/// The kept points are those of the entries that are there, and combining points
/// that are all there is combining them from the front.
pub proof fn combining_takes_the_points_that_are_there<C: Curve>(
    list: Seq<Option<(bool, (int, int))>>,
    points: Seq<(int, int)>,
    xi: int,
)
    requires
        points.len() > 0,
    ensures
        all_present(kept_points(list)) == present(list),
        kept_points(all_present(points)) == points,
        combination::<C>(all_present(points), xi) == reduced::<C>(points, xi),
{
    lemma_kept_points_are_present(list);
    lemma_present_points_are_kept(points);
    combination_is_horner::<C>(points, xi);
}

proof fn lemma_kept_points_are_present(list: Seq<Option<(bool, (int, int))>>)
    ensures
        all_present(kept_points(list)) == present(list),
    decreases list.len(),
{
    if list.len() > 0 {
        lemma_kept_points_are_present(list.drop_first());
    }
    assert(all_present(kept_points(list)) =~= present(list));
}

proof fn lemma_present_points_are_kept(points: Seq<(int, int)>)
    ensures
        kept_points(all_present(points)) == points,
    decreases points.len(),
{
    let all = all_present(points);
    if points.len() > 0 {
        lemma_present_points_are_kept(points.drop_first());
        assert(all.drop_first() =~= all_present(points.drop_first()));
        assert(all[0] == Some((true, points[0])));
        assert(seq![points[0]] + points.drop_first() =~= points);
    } else {
        assert(kept_points(all) =~= points);
    }
}

} // verus!
