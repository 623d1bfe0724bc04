//! Dummy proof data, for the base case and for padding.
//!
//! The values are fixed by two deterministic streams: one of 128-bit challenges,
//! one of field elements. A stream is given as a function from the index of a
//! draw.

use vstd::arithmetic::power2::pow2;
use vstd::prelude::*;

use crate::all_evals::{AllEvals, PointEvaluations, ProofEvaluations};
use crate::common::{Srs, MAX_PROOFS_VERIFIED, TICK_ROUNDS, TOCK_ROUNDS};
use crate::curve::{element, elements, scalar_residues, Curve, Pallas, Point};
use crate::field::{fadd, from_u128, residues, zero, Fp, Fq, PrimeField};
use crate::ipa::{b_poly_coefficients, challenge_coefficients};
use crate::ring::lemma_mul_units;
use crate::sequences::copied;

verus! {

/// The challenges of one side: 128 bits each, and in field form.
#[derive(Clone, Debug, PartialEq, Eq)]
pub struct DummyIpa<F: PrimeField> {
    pub prechallenges: Vec<F>,
    pub challenges_computed: Vec<F>,
}

/// A challenge polynomial: its commitment, none for the identity, and its
/// challenges in field form.
pub struct ChallengePolynomial<C: Curve> {
    pub commitment: Option<Point<C::Base>>,
    pub challenges: Vec<C::Scalar>,
}

/// `x` is the element of a draw of the challenge stream.
pub open spec fn is_draw<F: PrimeField, R: Fn(usize) -> u128>(stream: R, index: int, x: F) -> bool {
    exists|d: u128| #[trigger] call_ensures(stream, (index as usize,), d) && x.view() == d
}

/// `ipa` holds the draws from `start`, in reverse, with their field forms.
pub open spec fn drawn<F: PrimeField, R: Fn(usize) -> u128, E: Fn(F) -> F>(
    stream: R,
    to_field: E,
    start: int,
    rounds: int,
    ipa: DummyIpa<F>,
) -> bool {
    &&& ipa.prechallenges@.len() == rounds
    &&& ipa.challenges_computed@.len() == rounds
    &&& forall|i: int|
        0 <= i < rounds ==> is_draw(
            stream,
            start + rounds - 1 - i,
            #[trigger] ipa.prechallenges@[i],
        )
    &&& forall|i: int|
        0 <= i < rounds ==> call_ensures(
            to_field,
            (ipa.prechallenges@[i],),
            #[trigger] ipa.challenges_computed@[i],
        )
}

/// Draws `rounds` challenges, starting at a draw of the stream. They are listed
/// in the reverse of the order in which they are drawn.
pub fn ipa_challenges<F: PrimeField, R: Fn(usize) -> u128, E: Fn(F) -> F>(
    stream: &R,
    start: usize,
    rounds: usize,
    to_field: &E,
) -> (r: DummyIpa<F>)
    requires
        start + rounds <= usize::MAX,
        forall|i: usize| call_requires(*stream, (i,)),
        forall|x: F| call_requires(*to_field, (x,)),
    ensures
        drawn(*stream, *to_field, start as int, rounds as int, r),
{
    let mut prechallenges: Vec<F> = Vec::new();
    let mut challenges_computed: Vec<F> = Vec::new();
    let mut left: usize = rounds;
    while left > 0
        invariant
            left <= rounds,
            start + rounds <= usize::MAX,
            forall|i: usize| call_requires(*stream, (i,)),
            forall|x: F| call_requires(*to_field, (x,)),
            prechallenges@.len() == rounds - left,
            challenges_computed@.len() == rounds - left,
            forall|i: int|
                0 <= i < rounds - left ==> is_draw(
                    *stream,
                    start + rounds - 1 - i,
                    #[trigger] prechallenges@[i],
                ),
            forall|i: int|
                0 <= i < rounds - left ==> call_ensures(
                    *to_field,
                    (prechallenges@[i],),
                    #[trigger] challenges_computed@[i],
                ),
        decreases left,
    {
        left = left - 1;
        let d = stream(start + left);
        let c: F = from_u128(d);
        assert(is_draw(*stream, (start + left) as int, c));
        challenges_computed.push(to_field(c));
        prechallenges.push(c);
    }
    DummyIpa { prechallenges, challenges_computed }
}

/// The dummy challenges of the wrap side and of the step side, from one stream,
/// the wrap side's first.
pub fn ipa_wrap_and_step<
    W: PrimeField,
    S: PrimeField,
    R: Fn(usize) -> u128,
    EW: Fn(W) -> W,
    ES: Fn(S) -> S,
>(stream: &R, to_field_wrap: &EW, to_field_step: &ES) -> (r: (DummyIpa<W>, DummyIpa<S>))
    requires
        forall|i: usize| call_requires(*stream, (i,)),
        forall|x: W| call_requires(*to_field_wrap, (x,)),
        forall|x: S| call_requires(*to_field_step, (x,)),
    ensures
        drawn(*stream, *to_field_wrap, 0, TOCK_ROUNDS as int, r.0),
        drawn(*stream, *to_field_step, TOCK_ROUNDS as int, TICK_ROUNDS as int, r.1),
{
    let wrap = ipa_challenges(stream, 0, TOCK_ROUNDS, to_field_wrap);
    let step = ipa_challenges(stream, TOCK_ROUNDS, TICK_ROUNDS, to_field_step);
    (wrap, step)
}

/// The dummy challenges on the Pasta fields.
pub fn pasta_ipa_wrap_and_step<R: Fn(usize) -> u128, EW: Fn(Fq) -> Fq, ES: Fn(Fp) -> Fp>(
    stream: &R,
    to_field_wrap: &EW,
    to_field_step: &ES,
) -> (r: (DummyIpa<Fq>, DummyIpa<Fp>))
    requires
        forall|i: usize| call_requires(*stream, (i,)),
        forall|x: Fq| call_requires(*to_field_wrap, (x,)),
        forall|x: Fp| call_requires(*to_field_step, (x,)),
    ensures
        drawn(*stream, *to_field_wrap, 0, TOCK_ROUNDS as int, r.0),
        drawn(*stream, *to_field_step, TOCK_ROUNDS as int, TICK_ROUNDS as int, r.1),
{
    ipa_wrap_and_step(stream, to_field_wrap, to_field_step)
}

/// The wrap side's dummy challenges in field form.
pub fn wrap_challenges_computed<W: PrimeField, R: Fn(usize) -> u128, EW: Fn(W) -> W>(
    stream: &R,
    to_field_wrap: &EW,
) -> (r: Vec<W>)
    requires
        forall|i: usize| call_requires(*stream, (i,)),
        forall|x: W| call_requires(*to_field_wrap, (x,)),
    ensures
        exists|ipa: DummyIpa<W>|
            #[trigger] drawn(*stream, *to_field_wrap, 0, TOCK_ROUNDS as int, ipa)
                && ipa.challenges_computed == r,
{
    let ipa = ipa_challenges(stream, 0, TOCK_ROUNDS, to_field_wrap);
    let ghost all = ipa;
    assert(drawn(*stream, *to_field_wrap, 0, TOCK_ROUNDS as int, all));
    ipa.challenges_computed
}

/// `padded` is `actual` behind copies of `dummy`, up to the full width.
pub open spec fn is_padded<T>(actual: Seq<Vec<T>>, dummy: Seq<T>, padded: Seq<Vec<T>>) -> bool {
    let n = MAX_PROOFS_VERIFIED - actual.len();
    &&& padded.len() == MAX_PROOFS_VERIFIED
    &&& forall|i: int| 0 <= i < n ==> (#[trigger] padded[i])@ == dummy
    &&& forall|i: int| n <= i < MAX_PROOFS_VERIFIED ==> (#[trigger] padded[i])@ == actual[i - n]@
}

/// Pads rows in front to the full width.
fn pad_rows<T: Copy>(actual: &[Vec<T>], dummy: &Vec<T>) -> (r: Vec<Vec<T>>)
    requires
        actual@.len() <= MAX_PROOFS_VERIFIED,
    ensures
        is_padded(actual@, dummy@, r@),
{
    let mut out: Vec<Vec<T>> = Vec::new();
    let n = MAX_PROOFS_VERIFIED - actual.len();
    while out.len() < n
        invariant
            out@.len() <= n,
            forall|i: int| 0 <= i < out@.len() ==> (#[trigger] out@[i])@ == dummy@,
        decreases n - out.len(),
    {
        out.push(copied(dummy));
    }
    let mut j: usize = 0;
    while j < actual.len()
        invariant
            j <= actual@.len(),
            n == MAX_PROOFS_VERIFIED - actual@.len(),
            out@.len() == n + j,
            forall|i: int| 0 <= i < n ==> (#[trigger] out@[i])@ == dummy@,
            forall|i: int| n <= i < n + j ==> (#[trigger] out@[i])@ == actual@[i - n]@,
        decreases actual.len() - j,
    {
        out.push(copied(&actual[j]));
        j = j + 1;
    }
    out
}

/// Pads the wrap side's challenge vectors in front to the full width, with the
/// dummy challenges in field form.
pub fn pad_wrap_challenges<W: PrimeField, R: Fn(usize) -> u128, EW: Fn(W) -> W>(
    actual: &[Vec<W>],
    stream: &R,
    to_field_wrap: &EW,
) -> (r: Vec<Vec<W>>)
    requires
        actual@.len() <= MAX_PROOFS_VERIFIED,
        forall|i: usize| call_requires(*stream, (i,)),
        forall|x: W| call_requires(*to_field_wrap, (x,)),
    ensures
        exists|ipa: DummyIpa<W>|
            #[trigger] drawn(*stream, *to_field_wrap, 0, TOCK_ROUNDS as int, ipa) && is_padded(
                actual@,
                ipa.challenges_computed@,
                r@,
            ),
{
    let ipa = ipa_challenges(stream, 0, TOCK_ROUNDS, to_field_wrap);
    pad_rows(actual, &ipa.challenges_computed)
}

/// A stream gives one number for each draw.
pub open spec fn draws_once<R: Fn(usize) -> u128>(stream: R) -> bool {
    forall|i: usize, a: u128, b: u128| #[trigger]
        call_ensures(stream, (i,), a) && #[trigger] call_ensures(stream, (i,), b) ==> a == b
}

/// A function of field elements gives one residue for each residue.
pub open spec fn maps_residues<F: PrimeField, E: Fn(F) -> F>(f: E) -> bool {
    forall|x: F, y: F, a: F, b: F| #[trigger]
        call_ensures(f, (x,), a) && #[trigger] call_ensures(f, (y,), b) && x.view() == y.view()
            ==> a.view() == b.view()
}

/// The same draws of one stream are the same challenges.
pub proof fn draws_are_one<F: PrimeField, R: Fn(usize) -> u128, E: Fn(F) -> F>(
    stream: R,
    to_field: E,
    start: int,
    rounds: int,
    a: DummyIpa<F>,
    b: DummyIpa<F>,
)
    requires
        draws_once(stream),
        maps_residues(to_field),
        drawn(stream, to_field, start, rounds, a),
        drawn(stream, to_field, start, rounds, b),
    ensures
        residues(a.prechallenges@) == residues(b.prechallenges@),
        residues(a.challenges_computed@) == residues(b.challenges_computed@),
{
    assert forall|i: int| 0 <= i < rounds implies a.prechallenges@[i].view()
        == b.prechallenges@[i].view() && a.challenges_computed@[i].view()
        == b.challenges_computed@[i].view() by {
        let index = start + rounds - 1 - i;
        assert(is_draw(stream, index, a.prechallenges@[i]));
        assert(is_draw(stream, index, b.prechallenges@[i]));
        assert(call_ensures(to_field, (a.prechallenges@[i],), a.challenges_computed@[i]));
        assert(call_ensures(to_field, (b.prechallenges@[i],), b.challenges_computed@[i]));
    }
    assert(residues(a.prechallenges@) =~= residues(b.prechallenges@));
    assert(residues(a.challenges_computed@) =~= residues(b.challenges_computed@));
}

/// Padding puts the wrap side's dummy challenges in front, up to the full width,
/// and leaves the actual ones as they are, in order.
pub proof fn padding_is_the_wrap_dummy<W: PrimeField, R: Fn(usize) -> u128, EW: Fn(W) -> W>(
    stream: R,
    to_field_wrap: EW,
    actual: Seq<Vec<W>>,
    drawn_for_padding: DummyIpa<W>,
    padded: Seq<Vec<W>>,
    dummy: DummyIpa<W>,
)
    requires
        draws_once(stream),
        maps_residues(to_field_wrap),
        actual.len() <= MAX_PROOFS_VERIFIED,
        drawn(stream, to_field_wrap, 0, TOCK_ROUNDS as int, drawn_for_padding),
        is_padded(actual, drawn_for_padding.challenges_computed@, padded),
        drawn(stream, to_field_wrap, 0, TOCK_ROUNDS as int, dummy),
    ensures
        padded.len() == MAX_PROOFS_VERIFIED,
        forall|i: int|
            0 <= i < MAX_PROOFS_VERIFIED - actual.len() ==> residues((#[trigger] padded[i])@)
                == residues(dummy.challenges_computed@),
        forall|i: int|
            0 <= i < actual.len() ==> padded[MAX_PROOFS_VERIFIED - actual.len() + i]@ == (
            #[trigger] actual[i])@,
{
    draws_are_one(stream, to_field_wrap, 0, TOCK_ROUNDS as int, drawn_for_padding, dummy);
    assert forall|i: int| 0 <= i < actual.len() implies padded[MAX_PROOFS_VERIFIED - actual.len()
        + i]@ == (#[trigger] actual[i])@ by {
        let at = MAX_PROOFS_VERIFIED - actual.len() + i;
        assert(padded[at]@ == actual[at - (MAX_PROOFS_VERIFIED - actual.len())]@);
    }
}

/// The commitment to a challenge polynomial, without blinding: the multi-scalar
/// sum of its coefficients with the points of the reference string, as far as
/// there are points.
pub open spec fn sg_value<C: Curve>(g: Seq<Option<Point<C::Base>>>, chals: Seq<int>) -> Option<
    (int, int),
> {
    let coeffs = challenge_coefficients::<C::Scalar>(chals);
    let n = if coeffs.len() <= g.len() {
        coeffs.len()
    } else {
        g.len()
    };
    C::msm_value(elements(g).take(n as int), coeffs.take(n as int))
}

/// The commitment to the challenge polynomial of field-form challenges.
pub fn compute_sg<C: Curve>(srs: &Srs<C::Base>, challenges_computed: &[C::Scalar]) -> (r: Option<
    Point<C::Base>,
>)
    requires
        pow2(challenges_computed@.len()) <= usize::MAX,
    ensures
        element(r) == sg_value::<C>(srs.g@, residues(challenges_computed@)),
{
    let coeffs = b_poly_coefficients(challenges_computed);
    let ghost values = challenge_coefficients::<C::Scalar>(residues(challenges_computed@));
    let n = if coeffs.len() <= srs.g.len() {
        coeffs.len()
    } else {
        srs.g.len()
    };
    let mut points: Vec<Option<Point<C::Base>>> = Vec::new();
    let mut scalars: Vec<C::Scalar> = Vec::new();
    let mut i: usize = 0;
    while i < n
        invariant
            i <= n,
            n <= coeffs@.len(),
            n <= srs.g@.len(),
            points@ == srs.g@.take(i as int),
            scalars@ == coeffs@.take(i as int),
        decreases n - i,
    {
        points.push(srs.g[i]);
        scalars.push(coeffs[i]);
        assert(points@ =~= srs.g@.take(i + 1));
        assert(scalars@ =~= coeffs@.take(i + 1));
        i = i + 1;
    }
    proof {
        assert(residues(coeffs@).len() == coeffs@.len());
        assert(elements(points@) =~= elements(srs.g@).take(n as int));
        assert(scalar_residues(scalars@) =~= values.take(n as int));
    }
    C::sum_of_multiples(&points, &scalars)
}

/// The commitment to the wrap side's dummy challenge polynomial.
pub fn pasta_dummy_wrap_sg<R: Fn(usize) -> u128, EW: Fn(Fq) -> Fq>(
    srs: &Srs<Fp>,
    stream: &R,
    to_field_wrap: &EW,
) -> (r: Option<Point<Fp>>)
    requires
        forall|i: usize| call_requires(*stream, (i,)),
        forall|x: Fq| call_requires(*to_field_wrap, (x,)),
    ensures
        exists|ipa: DummyIpa<Fq>|
            #[trigger] drawn(*stream, *to_field_wrap, 0, TOCK_ROUNDS as int, ipa) && element(r)
                == sg_value::<Pallas>(srs.g@, residues(ipa.challenges_computed@)),
{
    let ipa = ipa_challenges(stream, 0, TOCK_ROUNDS, to_field_wrap);
    proof {
        vstd::arithmetic::power2::lemma2_to64();
    }
    compute_sg::<Pallas>(srs, ipa.challenges_computed.as_slice())
}

/// Pads accumulator entries in front to the full width, with the dummy challenge
/// polynomial.
pub fn pad_wrap_accumulator<C: Curve, R: Fn(usize) -> u128, E: Fn(C::Scalar) -> C::Scalar>(
    srs: &Srs<C::Base>,
    actual: &[ChallengePolynomial<C>],
    stream: &R,
    to_field_wrap: &E,
) -> (r: Vec<ChallengePolynomial<C>>)
    requires
        actual@.len() <= MAX_PROOFS_VERIFIED,
        forall|i: usize| call_requires(*stream, (i,)),
        forall|x: C::Scalar| call_requires(*to_field_wrap, (x,)),
    ensures
        exists|ipa: DummyIpa<C::Scalar>|
            {
                &&& #[trigger] drawn(*stream, *to_field_wrap, 0, TOCK_ROUNDS as int, ipa)
                &&& r@.len() == MAX_PROOFS_VERIFIED
                &&& forall|i: int|
                    0 <= i < MAX_PROOFS_VERIFIED - actual@.len() ==> (#[trigger] r@[i]).challenges@
                        == ipa.challenges_computed@ && element(r@[i].commitment) == sg_value::<C>(
                        srs.g@,
                        residues(ipa.challenges_computed@),
                    )
                &&& forall|i: int|
                    MAX_PROOFS_VERIFIED - actual@.len() <= i < MAX_PROOFS_VERIFIED ==> {
                        let entry = actual@[i - (MAX_PROOFS_VERIFIED - actual@.len())];
                        (#[trigger] r@[i]).challenges@ == entry.challenges@ && r@[i].commitment
                            == entry.commitment
                    }
            },
{
    let ipa = ipa_challenges(stream, 0, TOCK_ROUNDS, to_field_wrap);
    proof {
        vstd::arithmetic::power2::lemma2_to64();
    }
    let commitment = compute_sg::<C>(srs, ipa.challenges_computed.as_slice());
    let mut out: Vec<ChallengePolynomial<C>> = Vec::new();
    let n = MAX_PROOFS_VERIFIED - actual.len();
    while out.len() < n
        invariant
            out@.len() <= n,
            element(commitment) == sg_value::<C>(srs.g@, residues(ipa.challenges_computed@)),
            forall|i: int|
                0 <= i < out@.len() ==> (#[trigger] out@[i]).challenges@
                    == ipa.challenges_computed@ && element(out@[i].commitment) == sg_value::<C>(
                    srs.g@,
                    residues(ipa.challenges_computed@),
                ),
        decreases n - out.len(),
    {
        out.push(ChallengePolynomial { commitment, challenges: copied(&ipa.challenges_computed) });
    }
    let mut j: usize = 0;
    while j < actual.len()
        invariant
            j <= actual@.len(),
            n == MAX_PROOFS_VERIFIED - actual@.len(),
            out@.len() == n + j,
            forall|i: int|
                0 <= i < n ==> (#[trigger] out@[i]).challenges@ == ipa.challenges_computed@
                    && element(out@[i].commitment) == sg_value::<C>(
                    srs.g@,
                    residues(ipa.challenges_computed@),
                ),
            forall|i: int|
                n <= i < n + j ==> (#[trigger] out@[i]).challenges@ == actual@[i - n].challenges@
                    && out@[i].commitment == actual@[i - n].commitment,
        decreases actual.len() - j,
    {
        out.push(
            ChallengePolynomial {
                commitment: actual[j].commitment,
                challenges: copied(&actual[j].challenges),
            },
        );
        j = j + 1;
    }
    out
}

/// The two evaluations of a column are draws `2 k` and `2 k + 1` of the element
/// stream, one chunk each.
pub open spec fn is_pair<F, R: Fn(usize) -> F>(
    stream: R,
    k: int,
    pair: PointEvaluations<Vec<F>>,
) -> bool {
    &&& pair.zeta@.len() == 1
    &&& call_ensures(stream, ((2 * k) as usize,), pair.zeta@[0])
    &&& pair.zeta_omega@.len() == 1
    &&& call_ensures(stream, ((2 * k + 1) as usize,), pair.zeta_omega@[0])
}

/// The columns are the pairs from `k`.
pub open spec fn are_pairs<F, R: Fn(usize) -> F>(
    stream: R,
    k: int,
    n: int,
    pairs: Seq<PointEvaluations<Vec<F>>>,
) -> bool {
    &&& pairs.len() == n
    &&& forall|i: int| 0 <= i < n ==> is_pair(stream, k + i, #[trigger] pairs[i])
}

fn draw_pair<F, R: Fn(usize) -> F>(stream: &R, k: usize) -> (r: PointEvaluations<Vec<F>>)
    requires
        k < 0x1000,
        forall|i: usize| call_requires(*stream, (i,)),
    ensures
        is_pair(*stream, k as int, r),
{
    let mut zeta: Vec<F> = Vec::new();
    zeta.push(stream(2 * k));
    let mut zeta_omega: Vec<F> = Vec::new();
    zeta_omega.push(stream(2 * k + 1));
    PointEvaluations { zeta, zeta_omega }
}

fn draw_pairs<F, R: Fn(usize) -> F>(stream: &R, k: usize, n: usize) -> (r: Vec<
    PointEvaluations<Vec<F>>,
>)
    requires
        k + n < 0x1000,
        forall|i: usize| call_requires(*stream, (i,)),
    ensures
        are_pairs(*stream, k as int, n as int, r@),
{
    let mut out: Vec<PointEvaluations<Vec<F>>> = Vec::new();
    while out.len() < n
        invariant
            out@.len() <= n,
            k + n < 0x1000,
            forall|i: usize| call_requires(*stream, (i,)),
            forall|i: int| 0 <= i < out@.len() ==> is_pair(*stream, k + i, #[trigger] out@[i]),
        decreases n - out.len(),
    {
        let pair = draw_pair(stream, k + out.len());
        out.push(pair);
    }
    out
}

fn no_columns<E>(n: usize) -> (r: Vec<Option<E>>)
    ensures
        r@.len() == n,
        forall|i: int| 0 <= i < n ==> (#[trigger] r@[i]) is None,
{
    let mut out: Vec<Option<E>> = Vec::new();
    while out.len() < n
        invariant
            out@.len() <= n,
            forall|i: int| 0 <= i < out@.len() ==> (#[trigger] out@[i]) is None,
        decreases n - out.len(),
    {
        out.push(None);
    }
    out
}

/// No optional column is there.
pub open spec fn has_no_optional_column<E>(evals: ProofEvaluations<E>) -> bool {
    &&& evals.public is None
    &&& evals.range_check0_selector is None
    &&& evals.range_check1_selector is None
    &&& evals.foreign_field_add_selector is None
    &&& evals.foreign_field_mul_selector is None
    &&& evals.xor_selector is None
    &&& evals.rot_selector is None
    &&& evals.lookup_aggregation is None
    &&& evals.lookup_table is None
    &&& evals.runtime_lookup_table is None
    &&& evals.runtime_lookup_table_selector is None
    &&& evals.xor_lookup_selector is None
    &&& evals.lookup_gate_lookup_selector is None
    &&& evals.range_check_lookup_selector is None
    &&& evals.foreign_field_mul_lookup_selector is None
    &&& evals.lookup_sorted@.len() == 5
    &&& forall|i: int| 0 <= i < 5 ==> (#[trigger] evals.lookup_sorted@[i]) is None
}

/// `r` holds the dummy evaluations of an element stream.
pub open spec fn are_dummy_evals<F, R: Fn(usize) -> F>(stream: R, r: AllEvals<F>) -> bool {
    &&& are_pairs(stream, 0, 15, r.evals.w@)
    &&& are_pairs(stream, 15, 15, r.evals.coefficients@)
    &&& is_pair(stream, 30, r.evals.z)
    &&& are_pairs(stream, 31, 6, r.evals.s@)
    &&& is_pair(stream, 37, r.evals.generic_selector)
    &&& is_pair(stream, 38, r.evals.poseidon_selector)
    &&& is_pair(stream, 39, r.evals.complete_add_selector)
    &&& is_pair(stream, 40, r.evals.mul_selector)
    &&& is_pair(stream, 41, r.evals.emul_selector)
    &&& is_pair(stream, 42, r.evals.endomul_scalar_selector)
    &&& is_pair(stream, 43, r.public_input)
    &&& call_ensures(stream, (88usize,), r.ft_eval1)
    &&& has_no_optional_column(r.evals)
}

/// The dummy evaluations, from the element stream: witness, coefficients,
/// permutation aggregation, permutation columns, the six selectors, then the
/// public input, then `ft(zeta omega)`. Every column has one chunk at each
/// point, and there is no optional column.
pub fn evals<F, R: Fn(usize) -> F>(stream: &R) -> (r: AllEvals<F>)
    requires
        forall|i: usize| call_requires(*stream, (i,)),
    ensures
        are_pairs(*stream, 0, 15, r.evals.w@),
        are_pairs(*stream, 15, 15, r.evals.coefficients@),
        is_pair(*stream, 30, r.evals.z),
        are_pairs(*stream, 31, 6, r.evals.s@),
        is_pair(*stream, 37, r.evals.generic_selector),
        is_pair(*stream, 38, r.evals.poseidon_selector),
        is_pair(*stream, 39, r.evals.complete_add_selector),
        is_pair(*stream, 40, r.evals.mul_selector),
        is_pair(*stream, 41, r.evals.emul_selector),
        is_pair(*stream, 42, r.evals.endomul_scalar_selector),
        is_pair(*stream, 43, r.public_input),
        call_ensures(*stream, (88usize,), r.ft_eval1),
        has_no_optional_column(r.evals),
        are_dummy_evals(*stream, r),
{
    let w = draw_pairs(stream, 0, 15);
    let coefficients = draw_pairs(stream, 15, 15);
    let z = draw_pair(stream, 30);
    let s = draw_pairs(stream, 31, 6);
    let generic_selector = draw_pair(stream, 37);
    let poseidon_selector = draw_pair(stream, 38);
    let complete_add_selector = draw_pair(stream, 39);
    let mul_selector = draw_pair(stream, 40);
    let emul_selector = draw_pair(stream, 41);
    let endomul_scalar_selector = draw_pair(stream, 42);
    let public_input = draw_pair(stream, 43);
    let ft_eval1 = stream(88);
    let evals = ProofEvaluations {
        public: None,
        w,
        z,
        s,
        coefficients,
        generic_selector,
        poseidon_selector,
        complete_add_selector,
        mul_selector,
        emul_selector,
        endomul_scalar_selector,
        range_check0_selector: None,
        range_check1_selector: None,
        foreign_field_add_selector: None,
        foreign_field_mul_selector: None,
        xor_selector: None,
        rot_selector: None,
        lookup_aggregation: None,
        lookup_table: None,
        runtime_lookup_table: None,
        runtime_lookup_table_selector: None,
        xor_lookup_selector: None,
        lookup_gate_lookup_selector: None,
        range_check_lookup_selector: None,
        foreign_field_mul_lookup_selector: None,
        lookup_sorted: no_columns(5),
    };
    AllEvals { ft_eval1, public_input, evals }
}

/// The sum of residues.
pub open spec fn sum_of<F: PrimeField>(xs: Seq<int>) -> int
    decreases xs.len(),
{
    if xs.len() == 0 {
        0
    } else {
        fadd::<F>(sum_of::<F>(xs.drop_last()), xs.last())
    }
}

/// `r` is the one chunk that is the sum of chunks.
pub open spec fn is_combined<F: PrimeField>(chunks: Vec<F>, r: Vec<F>) -> bool {
    residues(r@) == seq![sum_of::<F>(residues(chunks@))]
}

/// Both evaluations of a column are combined.
pub open spec fn is_combined_pair<F: PrimeField>(
    pair: PointEvaluations<Vec<F>>,
    r: PointEvaluations<Vec<F>>,
) -> bool {
    is_combined(pair.zeta, r.zeta) && is_combined(pair.zeta_omega, r.zeta_omega)
}

/// Every column of a list is combined.
pub open spec fn is_combined_list<F: PrimeField>(
    pairs: Seq<PointEvaluations<Vec<F>>>,
    r: Seq<PointEvaluations<Vec<F>>>,
) -> bool {
    &&& r.len() == pairs.len()
    &&& forall|i: int| 0 <= i < pairs.len() ==> is_combined_pair(pairs[i], #[trigger] r[i])
}

/// An optional column is combined where it is there.
pub open spec fn is_combined_option<F: PrimeField>(
    pair: Option<PointEvaluations<Vec<F>>>,
    r: Option<PointEvaluations<Vec<F>>>,
) -> bool {
    match (pair, r) {
        (None, None) => true,
        (Some(a), Some(b)) => is_combined_pair(a, b),
        _ => false,
    }
}

/// Every optional column of a list is combined where it is there.
pub open spec fn is_combined_option_list<F: PrimeField>(
    pairs: Seq<Option<PointEvaluations<Vec<F>>>>,
    r: Seq<Option<PointEvaluations<Vec<F>>>>,
) -> bool {
    &&& r.len() == pairs.len()
    &&& forall|i: int| 0 <= i < pairs.len() ==> is_combined_option(pairs[i], #[trigger] r[i])
}

/// Combining a single chunk changes nothing.
pub proof fn single_chunks_combine_to_themselves<F: PrimeField>(x: F)
    ensures
        sum_of::<F>(seq![x.view()]) == x.view(),
{
    F::lemma_canonical(x);
    lemma_mul_units::<F>(x.view());
    assert(seq![x.view()].drop_last() =~= Seq::empty());
    assert(sum_of::<F>(Seq::empty()) == 0);
}

fn combine<F: PrimeField>(chunks: &Vec<F>) -> (r: Vec<F>)
    ensures
        is_combined(*chunks, r),
{
    let mut total: F = zero();
    let ghost all = residues(chunks@);
    let mut i: usize = 0;
    assert(all.take(0) =~= Seq::empty());
    while i < chunks.len()
        invariant
            i <= chunks@.len(),
            all == residues(chunks@),
            total.view() == sum_of::<F>(all.take(i as int)),
        decreases chunks.len() - i,
    {
        total = total.add(&chunks[i]);
        assert(all.take(i + 1).drop_last() =~= all.take(i as int));
        i = i + 1;
    }
    assert(all.take(i as int) =~= all);
    let mut out: Vec<F> = Vec::new();
    out.push(total);
    assert(residues(out@) =~= seq![sum_of::<F>(all)]);
    out
}

fn combine_pair<F: PrimeField>(pair: &PointEvaluations<Vec<F>>) -> (r: PointEvaluations<Vec<F>>)
    ensures
        is_combined_pair(*pair, r),
{
    PointEvaluations { zeta: combine(&pair.zeta), zeta_omega: combine(&pair.zeta_omega) }
}

fn combine_list<F: PrimeField>(pairs: &Vec<PointEvaluations<Vec<F>>>) -> (r: Vec<
    PointEvaluations<Vec<F>>,
>)
    ensures
        is_combined_list(pairs@, r@),
{
    let mut out: Vec<PointEvaluations<Vec<F>>> = Vec::new();
    let mut i: usize = 0;
    while i < pairs.len()
        invariant
            i <= pairs@.len(),
            out@.len() == i,
            forall|k: int| 0 <= k < i ==> is_combined_pair(pairs@[k], #[trigger] out@[k]),
        decreases pairs.len() - i,
    {
        out.push(combine_pair(&pairs[i]));
        i = i + 1;
    }
    out
}

fn combine_option<F: PrimeField>(pair: &Option<PointEvaluations<Vec<F>>>) -> (r: Option<
    PointEvaluations<Vec<F>>,
>)
    ensures
        is_combined_option(*pair, r),
{
    match pair {
        None => None,
        Some(p) => Some(combine_pair(p)),
    }
}

fn combine_option_list<F: PrimeField>(pairs: &Vec<Option<PointEvaluations<Vec<F>>>>) -> (r: Vec<
    Option<PointEvaluations<Vec<F>>>,
>)
    ensures
        is_combined_option_list(pairs@, r@),
{
    let mut out: Vec<Option<PointEvaluations<Vec<F>>>> = Vec::new();
    let mut i: usize = 0;
    while i < pairs.len()
        invariant
            i <= pairs@.len(),
            out@.len() == i,
            forall|k: int| 0 <= k < i ==> is_combined_option(pairs@[k], #[trigger] out@[k]),
        decreases pairs.len() - i,
    {
        out.push(combine_option(&pairs[i]));
        i = i + 1;
    }
    out
}

/// `r` holds every evaluation of `all` with its chunks summed.
pub open spec fn chunks_combined<F: PrimeField>(all: AllEvals<F>, r: AllEvals<F>) -> bool {
    &&& r.ft_eval1 == all.ft_eval1
    &&& is_combined_pair(all.public_input, r.public_input)
    &&& is_combined_option(all.evals.public, r.evals.public)
    &&& is_combined_list(all.evals.w@, r.evals.w@)
    &&& is_combined_list(all.evals.s@, r.evals.s@)
    &&& is_combined_list(all.evals.coefficients@, r.evals.coefficients@)
    &&& is_combined_pair(all.evals.z, r.evals.z)
    &&& is_combined_pair(all.evals.generic_selector, r.evals.generic_selector)
    &&& is_combined_pair(all.evals.poseidon_selector, r.evals.poseidon_selector)
    &&& is_combined_pair(all.evals.complete_add_selector, r.evals.complete_add_selector)
    &&& is_combined_pair(all.evals.mul_selector, r.evals.mul_selector)
    &&& is_combined_pair(all.evals.emul_selector, r.evals.emul_selector)
    &&& is_combined_pair(all.evals.endomul_scalar_selector, r.evals.endomul_scalar_selector)
    &&& is_combined_option(all.evals.range_check0_selector, r.evals.range_check0_selector)
    &&& is_combined_option(all.evals.range_check1_selector, r.evals.range_check1_selector)
    &&& is_combined_option(all.evals.foreign_field_add_selector, r.evals.foreign_field_add_selector)
    &&& is_combined_option(all.evals.foreign_field_mul_selector, r.evals.foreign_field_mul_selector)
    &&& is_combined_option(all.evals.xor_selector, r.evals.xor_selector)
    &&& is_combined_option(all.evals.rot_selector, r.evals.rot_selector)
    &&& is_combined_option(all.evals.lookup_aggregation, r.evals.lookup_aggregation)
    &&& is_combined_option(all.evals.lookup_table, r.evals.lookup_table)
    &&& is_combined_option(all.evals.runtime_lookup_table, r.evals.runtime_lookup_table)
    &&& is_combined_option(all.evals.runtime_lookup_table_selector, r.evals.runtime_lookup_table_selector)
    &&& is_combined_option(all.evals.xor_lookup_selector, r.evals.xor_lookup_selector)
    &&& is_combined_option(all.evals.lookup_gate_lookup_selector, r.evals.lookup_gate_lookup_selector)
    &&& is_combined_option(all.evals.range_check_lookup_selector, r.evals.range_check_lookup_selector)
    &&& is_combined_option(all.evals.foreign_field_mul_lookup_selector, r.evals.foreign_field_mul_lookup_selector)
    &&& is_combined_option_list(all.evals.lookup_sorted@, r.evals.lookup_sorted@)
}

/// Sums the chunks of every evaluation.
pub fn combine_chunks<F: PrimeField>(all: &AllEvals<F>) -> (r: AllEvals<F>)
    ensures
        chunks_combined(*all, r),
{
    let e = &all.evals;
    let evals = ProofEvaluations {
        public: combine_option(&e.public),
        w: combine_list(&e.w),
        s: combine_list(&e.s),
        coefficients: combine_list(&e.coefficients),
        z: combine_pair(&e.z),
        generic_selector: combine_pair(&e.generic_selector),
        poseidon_selector: combine_pair(&e.poseidon_selector),
        complete_add_selector: combine_pair(&e.complete_add_selector),
        mul_selector: combine_pair(&e.mul_selector),
        emul_selector: combine_pair(&e.emul_selector),
        endomul_scalar_selector: combine_pair(&e.endomul_scalar_selector),
        range_check0_selector: combine_option(&e.range_check0_selector),
        range_check1_selector: combine_option(&e.range_check1_selector),
        foreign_field_add_selector: combine_option(&e.foreign_field_add_selector),
        foreign_field_mul_selector: combine_option(&e.foreign_field_mul_selector),
        xor_selector: combine_option(&e.xor_selector),
        rot_selector: combine_option(&e.rot_selector),
        lookup_aggregation: combine_option(&e.lookup_aggregation),
        lookup_table: combine_option(&e.lookup_table),
        runtime_lookup_table: combine_option(&e.runtime_lookup_table),
        runtime_lookup_table_selector: combine_option(&e.runtime_lookup_table_selector),
        xor_lookup_selector: combine_option(&e.xor_lookup_selector),
        lookup_gate_lookup_selector: combine_option(&e.lookup_gate_lookup_selector),
        range_check_lookup_selector: combine_option(&e.range_check_lookup_selector),
        foreign_field_mul_lookup_selector: combine_option(&e.foreign_field_mul_lookup_selector),
        lookup_sorted: combine_option_list(&e.lookup_sorted),
    };
    AllEvals { ft_eval1: all.ft_eval1, public_input: combine_pair(&all.public_input), evals }
}

/// The dummy evaluations with the chunks of each summed. There is one chunk, so
/// these are the dummy evaluations.
pub fn evals_combined<F: PrimeField, R: Fn(usize) -> F>(stream: &R) -> (r: AllEvals<F>)
    requires
        forall|i: usize| call_requires(*stream, (i,)),
    ensures
        exists|all: AllEvals<F>|
            {
                &&& are_pairs(*stream, 0, 15, all.evals.w@)
                &&& are_pairs(*stream, 15, 15, all.evals.coefficients@)
                &&& is_pair(*stream, 30, all.evals.z)
                &&& are_pairs(*stream, 31, 6, all.evals.s@)
                &&& is_pair(*stream, 37, all.evals.generic_selector)
                &&& is_pair(*stream, 38, all.evals.poseidon_selector)
                &&& is_pair(*stream, 39, all.evals.complete_add_selector)
                &&& is_pair(*stream, 40, all.evals.mul_selector)
                &&& is_pair(*stream, 41, all.evals.emul_selector)
                &&& is_pair(*stream, 42, all.evals.endomul_scalar_selector)
                &&& is_pair(*stream, 43, all.public_input)
                &&& call_ensures(*stream, (88usize,), all.ft_eval1)
                &&& has_no_optional_column(all.evals)
                &&& are_dummy_evals(*stream, all)
                &&& #[trigger] chunks_combined(all, r)
            },
{
    let all = evals(stream);
    combine_chunks(&all)
}

/// The draws are listed from the last to the first: the draw `k` places after the
/// start is `k` places from the end of the list.
pub proof fn draws_are_listed_in_reverse<
    F: PrimeField,
    R: Fn(usize) -> u128,
    E: Fn(F) -> F,
>(
    stream: R,
    to_field: E,
    start: int,
    rounds: int,
    ipa: DummyIpa<F>,
    k: int,
    d: u128,
)
    requires
        draws_once(stream),
        drawn(stream, to_field, start, rounds, ipa),
        0 <= k < rounds,
        0 <= start,
        start + rounds <= usize::MAX,
        call_ensures(stream, ((start + k) as usize,), d),
    ensures
        ipa.prechallenges@.len() == rounds,
        ipa.prechallenges@[rounds - 1 - k].view() == d,
        call_ensures(
            to_field,
            (ipa.prechallenges@[rounds - 1 - k],),
            ipa.challenges_computed@[rounds - 1 - k],
        ),
{
    let i = rounds - 1 - k;
    assert(is_draw(stream, start + rounds - 1 - i, ipa.prechallenges@[i]));
    assert(start + rounds - 1 - i == start + k);
}

/// The commitment weighs each point of the reference string by the coefficient of
/// the same place, and leaves the points past the coefficients alone.
pub proof fn commitments_weigh_place_by_place<C: Curve>(
    g: Seq<Option<Point<C::Base>>>,
    more: Seq<Option<Point<C::Base>>>,
    chals: Seq<int>,
)
    requires
        g.len() == pow2(chals.len()),
    ensures
        sg_value::<C>(g, chals) == C::msm_value(
            elements(g),
            challenge_coefficients::<C::Scalar>(chals),
        ),
        sg_value::<C>(g + more, chals) == sg_value::<C>(g, chals),
{
    crate::ipa::coefficients_give_the_challenge_polynomial::<C::Scalar>(chals, 0);
    let coeffs = challenge_coefficients::<C::Scalar>(chals);
    assert(elements(g).take(coeffs.len() as int) =~= elements(g));
    assert(coeffs.take(coeffs.len() as int) =~= coeffs);
    assert(elements(g + more).take(coeffs.len() as int) =~= elements(g));
}

/// A column's two draws are neighbours, the one at `zeta` first, and columns draw
/// one after the other.
pub proof fn columns_draw_in_pairs<F, R: Fn(usize) -> F>(
    stream: R,
    k: int,
    n: int,
    pairs: Seq<PointEvaluations<Vec<F>>>,
    i: int,
)
    requires
        are_pairs(stream, k, n, pairs),
        0 <= i < n,
    ensures
        pairs.len() == n,
        pairs[i].zeta@.len() == 1,
        pairs[i].zeta_omega@.len() == 1,
        call_ensures(stream, ((2 * (k + i)) as usize,), pairs[i].zeta@[0]),
        call_ensures(stream, ((2 * (k + i) + 1) as usize,), pairs[i].zeta_omega@[0]),
{
    assert(is_pair(stream, k + i, pairs[i]));
}

/// Sums go chunk by chunk: that of two lists is the sum of both sums, and the
/// order does not matter.
pub proof fn chunks_are_summed<F: PrimeField>(a: Seq<int>, b: Seq<int>, x: int)
    ensures
        sum_of::<F>(a + b) == fadd::<F>(sum_of::<F>(a), sum_of::<F>(b)),
        sum_of::<F>(a.push(x)) == fadd::<F>(sum_of::<F>(a), x),
        sum_of::<F>(Seq::empty()) == 0,
    decreases b.len(),
{
    F::lemma_modulus();
    assert(a.push(x).drop_last() =~= a);
    if b.len() == 0 {
        assert(a + b =~= a);
        assert(0 <= sum_of::<F>(a) < F::modulus());
        vstd::arithmetic::div_mod::lemma_small_mod(
            sum_of::<F>(a) as nat,
            F::modulus() as nat,
        );
    } else {
        chunks_are_summed::<F>(a, b.drop_last(), x);
        assert((a + b).drop_last() =~= a + b.drop_last());
        assert((a + b).last() == b.last());
        crate::ring::lemma_add_laws::<F>(
            sum_of::<F>(a),
            sum_of::<F>(b.drop_last()),
            b.last(),
        );
    }
}

/// Every combined column is the sum of its own chunks, at both points.
pub open spec fn is_summed<F: PrimeField>(
    pair: PointEvaluations<Vec<F>>,
    r: PointEvaluations<Vec<F>>,
) -> bool {
    &&& r.zeta@.len() == 1 && r.zeta@[0].view() == sum_of::<F>(residues(pair.zeta@))
    &&& r.zeta_omega@.len() == 1 && r.zeta_omega@[0].view() == sum_of::<F>(
        residues(pair.zeta_omega@),
    )
}

/// Combining keeps every column under its own name and at its own point, and
/// leaves `ft(zeta omega)` alone.
#[verifier::spinoff_prover]
pub proof fn combined_columns_keep_their_names<F: PrimeField>(
    all: AllEvals<F>,
    r: AllEvals<F>,
    i: int,
)
    requires
        chunks_combined(all, r),
    ensures
        r.ft_eval1 == all.ft_eval1,
        is_summed(all.public_input, r.public_input),
        r.evals.w@.len() == all.evals.w@.len(),
        0 <= i < all.evals.w@.len() ==> is_summed(all.evals.w@[i], r.evals.w@[i]),
        r.evals.s@.len() == all.evals.s@.len(),
        0 <= i < all.evals.s@.len() ==> is_summed(all.evals.s@[i], r.evals.s@[i]),
        r.evals.coefficients@.len() == all.evals.coefficients@.len(),
        0 <= i < all.evals.coefficients@.len() ==> is_summed(
            all.evals.coefficients@[i],
            r.evals.coefficients@[i],
        ),
        is_summed(all.evals.z, r.evals.z),
        is_summed(all.evals.generic_selector, r.evals.generic_selector),
        is_summed(all.evals.poseidon_selector, r.evals.poseidon_selector),
        is_summed(all.evals.complete_add_selector, r.evals.complete_add_selector),
        is_summed(all.evals.mul_selector, r.evals.mul_selector),
        is_summed(all.evals.emul_selector, r.evals.emul_selector),
        is_summed(all.evals.endomul_scalar_selector, r.evals.endomul_scalar_selector),
        r.evals.public is Some <==> all.evals.public is Some,
        all.evals.public is Some ==> is_summed(all.evals.public->0, r.evals.public->0),
        r.evals.range_check0_selector is Some <==> all.evals.range_check0_selector is Some,
        all.evals.range_check0_selector is Some ==> is_summed(
            all.evals.range_check0_selector->0,
            r.evals.range_check0_selector->0,
        ),
        r.evals.range_check1_selector is Some <==> all.evals.range_check1_selector is Some,
        all.evals.range_check1_selector is Some ==> is_summed(
            all.evals.range_check1_selector->0,
            r.evals.range_check1_selector->0,
        ),
        r.evals.foreign_field_add_selector is Some <==> all.evals.foreign_field_add_selector
            is Some,
        all.evals.foreign_field_add_selector is Some ==> is_summed(
            all.evals.foreign_field_add_selector->0,
            r.evals.foreign_field_add_selector->0,
        ),
        r.evals.foreign_field_mul_selector is Some <==> all.evals.foreign_field_mul_selector
            is Some,
        all.evals.foreign_field_mul_selector is Some ==> is_summed(
            all.evals.foreign_field_mul_selector->0,
            r.evals.foreign_field_mul_selector->0,
        ),
        r.evals.xor_selector is Some <==> all.evals.xor_selector is Some,
        all.evals.xor_selector is Some ==> is_summed(
            all.evals.xor_selector->0,
            r.evals.xor_selector->0,
        ),
        r.evals.rot_selector is Some <==> all.evals.rot_selector is Some,
        all.evals.rot_selector is Some ==> is_summed(
            all.evals.rot_selector->0,
            r.evals.rot_selector->0,
        ),
        r.evals.lookup_aggregation is Some <==> all.evals.lookup_aggregation is Some,
        all.evals.lookup_aggregation is Some ==> is_summed(
            all.evals.lookup_aggregation->0,
            r.evals.lookup_aggregation->0,
        ),
        r.evals.lookup_table is Some <==> all.evals.lookup_table is Some,
        all.evals.lookup_table is Some ==> is_summed(
            all.evals.lookup_table->0,
            r.evals.lookup_table->0,
        ),
        r.evals.runtime_lookup_table is Some <==> all.evals.runtime_lookup_table is Some,
        all.evals.runtime_lookup_table is Some ==> is_summed(
            all.evals.runtime_lookup_table->0,
            r.evals.runtime_lookup_table->0,
        ),
        r.evals.runtime_lookup_table_selector is Some
            <==> all.evals.runtime_lookup_table_selector is Some,
        all.evals.runtime_lookup_table_selector is Some ==> is_summed(
            all.evals.runtime_lookup_table_selector->0,
            r.evals.runtime_lookup_table_selector->0,
        ),
        r.evals.xor_lookup_selector is Some <==> all.evals.xor_lookup_selector is Some,
        all.evals.xor_lookup_selector is Some ==> is_summed(
            all.evals.xor_lookup_selector->0,
            r.evals.xor_lookup_selector->0,
        ),
        r.evals.lookup_gate_lookup_selector is Some <==> all.evals.lookup_gate_lookup_selector
            is Some,
        all.evals.lookup_gate_lookup_selector is Some ==> is_summed(
            all.evals.lookup_gate_lookup_selector->0,
            r.evals.lookup_gate_lookup_selector->0,
        ),
        r.evals.range_check_lookup_selector is Some <==> all.evals.range_check_lookup_selector
            is Some,
        all.evals.range_check_lookup_selector is Some ==> is_summed(
            all.evals.range_check_lookup_selector->0,
            r.evals.range_check_lookup_selector->0,
        ),
        r.evals.foreign_field_mul_lookup_selector is Some
            <==> all.evals.foreign_field_mul_lookup_selector is Some,
        all.evals.foreign_field_mul_lookup_selector is Some ==> is_summed(
            all.evals.foreign_field_mul_lookup_selector->0,
            r.evals.foreign_field_mul_lookup_selector->0,
        ),
        r.evals.lookup_sorted@.len() == all.evals.lookup_sorted@.len(),
        0 <= i < all.evals.lookup_sorted@.len() ==> (all.evals.lookup_sorted@[i] is Some
            <==> r.evals.lookup_sorted@[i] is Some) && (all.evals.lookup_sorted@[i] is Some
            ==> is_summed(all.evals.lookup_sorted@[i]->0, r.evals.lookup_sorted@[i]->0)),
{
    assert forall|p: PointEvaluations<Vec<F>>, q: PointEvaluations<Vec<F>>| #[trigger]
        is_combined_pair(p, q) implies is_summed(p, q) by {
        lemma_summed(p, q);
    }
    if 0 <= i < all.evals.w@.len() {
        assert(is_combined_pair(all.evals.w@[i], r.evals.w@[i]));
    }
    if 0 <= i < all.evals.s@.len() {
        assert(is_combined_pair(all.evals.s@[i], r.evals.s@[i]));
    }
    if 0 <= i < all.evals.coefficients@.len() {
        assert(is_combined_pair(all.evals.coefficients@[i], r.evals.coefficients@[i]));
    }
    if 0 <= i < all.evals.lookup_sorted@.len() {
        assert(is_combined_option(all.evals.lookup_sorted@[i], r.evals.lookup_sorted@[i]));
    }
}

proof fn lemma_summed<F: PrimeField>(
    pair: PointEvaluations<Vec<F>>,
    r: PointEvaluations<Vec<F>>,
)
    requires
        is_combined_pair(pair, r),
    ensures
        is_summed(pair, r),
{
    assert(residues(r.zeta@).len() == 1);
    assert(residues(r.zeta_omega@).len() == 1);
    assert(residues(r.zeta@)[0] == r.zeta@[0].view());
    assert(residues(r.zeta_omega@)[0] == r.zeta_omega@[0].view());
}

/// The dummy evaluations take the stream's draws in one order: witness columns,
/// coefficients, permutation, permutation columns, the six selectors by name, the
/// public input, `ft`; each column at `zeta` first, in one chunk.
pub proof fn dummy_columns_draw_in_order<F, R: Fn(usize) -> F>(
    stream: R,
    r: AllEvals<F>,
    i: int,
)
    requires
        are_dummy_evals(stream, r),
    ensures
        r.evals.w@.len() == 15,
        r.evals.coefficients@.len() == 15,
        r.evals.s@.len() == 6,
        0 <= i < 15 ==> call_ensures(stream, ((2 * i) as usize,), r.evals.w@[i].zeta@[0]),
        0 <= i < 15 ==> call_ensures(stream, ((2 * i + 1) as usize,), r.evals.w@[i].zeta_omega@[0]),
        0 <= i < 15 ==> call_ensures(
            stream,
            ((30 + 2 * i) as usize,),
            r.evals.coefficients@[i].zeta@[0],
        ),
        0 <= i < 15 ==> call_ensures(
            stream,
            ((31 + 2 * i) as usize,),
            r.evals.coefficients@[i].zeta_omega@[0],
        ),
        call_ensures(stream, (60usize,), r.evals.z.zeta@[0]),
        call_ensures(stream, (61usize,), r.evals.z.zeta_omega@[0]),
        0 <= i < 6 ==> call_ensures(stream, ((62 + 2 * i) as usize,), r.evals.s@[i].zeta@[0]),
        0 <= i < 6 ==> call_ensures(stream, ((63 + 2 * i) as usize,), r.evals.s@[i].zeta_omega@[0]),
        call_ensures(stream, (74usize,), r.evals.generic_selector.zeta@[0]),
        call_ensures(stream, (75usize,), r.evals.generic_selector.zeta_omega@[0]),
        call_ensures(stream, (76usize,), r.evals.poseidon_selector.zeta@[0]),
        call_ensures(stream, (77usize,), r.evals.poseidon_selector.zeta_omega@[0]),
        call_ensures(stream, (78usize,), r.evals.complete_add_selector.zeta@[0]),
        call_ensures(stream, (79usize,), r.evals.complete_add_selector.zeta_omega@[0]),
        call_ensures(stream, (80usize,), r.evals.mul_selector.zeta@[0]),
        call_ensures(stream, (81usize,), r.evals.mul_selector.zeta_omega@[0]),
        call_ensures(stream, (82usize,), r.evals.emul_selector.zeta@[0]),
        call_ensures(stream, (83usize,), r.evals.emul_selector.zeta_omega@[0]),
        call_ensures(stream, (84usize,), r.evals.endomul_scalar_selector.zeta@[0]),
        call_ensures(stream, (85usize,), r.evals.endomul_scalar_selector.zeta_omega@[0]),
        call_ensures(stream, (86usize,), r.public_input.zeta@[0]),
        call_ensures(stream, (87usize,), r.public_input.zeta_omega@[0]),
        call_ensures(stream, (88usize,), r.ft_eval1),
        r.evals.z.zeta@.len() == 1 && r.evals.z.zeta_omega@.len() == 1,
        r.public_input.zeta@.len() == 1 && r.public_input.zeta_omega@.len() == 1,
        r.evals.public is None,
        r.evals.range_check0_selector is None,
        r.evals.range_check1_selector is None,
        r.evals.foreign_field_add_selector is None,
        r.evals.foreign_field_mul_selector is None,
        r.evals.xor_selector is None,
        r.evals.rot_selector is None,
        r.evals.lookup_aggregation is None,
        r.evals.lookup_table is None,
        r.evals.runtime_lookup_table is None,
        r.evals.runtime_lookup_table_selector is None,
        r.evals.xor_lookup_selector is None,
        r.evals.lookup_gate_lookup_selector is None,
        r.evals.range_check_lookup_selector is None,
        r.evals.foreign_field_mul_lookup_selector is None,
        r.evals.lookup_sorted@.len() == 5,
        0 <= i < 5 ==> r.evals.lookup_sorted@[i] is None,
{
    if 0 <= i < 15 {
        columns_draw_in_pairs(stream, 0, 15, r.evals.w@, i);
        columns_draw_in_pairs(stream, 15, 15, r.evals.coefficients@, i);
    }
    if 0 <= i < 6 {
        columns_draw_in_pairs(stream, 31, 6, r.evals.s@, i);
    }
}

} // verus!
