//! The scalar-field transcript from which the polyscale `xi` and the evalscale
//! `r` are resampled.
//!
//! The transcript absorbs, in order: the base-field sponge digest; the digest
//! of the previous recursion challenges, taken in a sponge of its own;
//! `ft(zeta * omega)`; the public-input evaluations at `zeta`, then at
//! `zeta * omega`; and for each column its evaluations at `zeta`, then at
//! `zeta * omega`. Two squeezes follow, `xi` first. What the sponge answers is
//! the caller's: this module says what is absorbed, and what the two squeezed
//! elements become.

use vstd::prelude::*;

use crate::challenge::{is_split, lowest_128_bits, ChallengeBits};
use crate::field::{residues, PrimeField};
use crate::sequences::{append, append_kept_rows, append_rows, concat_rows, kept};
use crate::sponge::{absorb_all, absorbing, op_residues, replied, squeeze, SpongeOp};

verus! {

/// A polynomial's evaluations at `zeta` and at `zeta * omega`, each a list of
/// chunks.
pub type PointEvalVar<F> = (Vec<F>, Vec<F>);

/// The proof's column evaluations.
pub struct AbsorbEvalsVar<F: PrimeField> {
    pub z: PointEvalVar<F>,
    pub generic_selector: PointEvalVar<F>,
    pub poseidon_selector: PointEvalVar<F>,
    pub complete_add_selector: PointEvalVar<F>,
    pub mul_selector: PointEvalVar<F>,
    pub emul_selector: PointEvalVar<F>,
    pub endomul_scalar_selector: PointEvalVar<F>,
    /// The witness columns.
    pub w: Vec<PointEvalVar<F>>,
    /// The coefficient columns.
    pub coefficients: Vec<PointEvalVar<F>>,
    /// The evaluated permutation columns.
    pub s: Vec<PointEvalVar<F>>,
}

impl<F: PrimeField> AbsorbEvalsVar<F> {
    /// The columns in transcript order: `z`, the six fixed selectors, then `w`,
    /// `coefficients` and `s`.
    pub open spec fn ordered_points(self) -> Seq<PointEvalVar<F>> {
        seq![
            self.z,
            self.generic_selector,
            self.poseidon_selector,
            self.complete_add_selector,
            self.mul_selector,
            self.emul_selector,
            self.endomul_scalar_selector,
        ] + self.w@ + self.coefficients@ + self.s@
    }
}

/// The chunks of each point, `zeta` before `zeta * omega`.
pub open spec fn flatten_points<F: PrimeField>(points: Seq<PointEvalVar<F>>) -> Seq<F>
    decreases points.len(),
{
    if points.len() == 0 {
        Seq::empty()
    } else {
        flatten_points(points.drop_last()) + points.last().0@ + points.last().1@
    }
}

/// Appending a point appends its chunks.
proof fn lemma_flatten_push<F: PrimeField>(points: Seq<PointEvalVar<F>>, p: PointEvalVar<F>)
    ensures
        flatten_points(points.push(p)) == flatten_points(points) + p.0@ + p.1@,
{
    assert(points.push(p).drop_last() == points);
}

fn append_point<F: PrimeField>(
    out: &mut Vec<F>,
    p: &PointEvalVar<F>,
    points: Ghost<Seq<PointEvalVar<F>>>,
    base: Ghost<Seq<F>>,
)
    requires
        old(out)@ == base@ + flatten_points(points@),
    ensures
        final(out)@ == base@ + flatten_points(points@.push(*p)),
{
    append(out, p.0.as_slice());
    append(out, p.1.as_slice());
    proof {
        lemma_flatten_push(points@, *p);
    }
}

fn append_points<F: PrimeField>(
    out: &mut Vec<F>,
    ps: &Vec<PointEvalVar<F>>,
    points: Ghost<Seq<PointEvalVar<F>>>,
    base: Ghost<Seq<F>>,
)
    requires
        old(out)@ == base@ + flatten_points(points@),
    ensures
        final(out)@ == base@ + flatten_points(points@ + ps@),
{
    let mut i: usize = 0;
    assert(points@ + ps@.take(0) == points@);
    while i < ps.len()
        invariant
            i <= ps.len(),
            out@ == base@ + flatten_points(points@ + ps@.take(i as int)),
        decreases ps.len() - i,
    {
        append_point(out, &ps[i], Ghost(points@ + ps@.take(i as int)), base);
        i = i + 1;
        assert(points@ + ps@.take(i as int) == (points@ + ps@.take(i - 1)).push(ps@[i - 1]));
    }
    assert(ps@.take(i as int) == ps@);
}

/// All that the transcript takes in before `xi` and `r` are squeezed.
pub struct FrSpongeInputs<'a, F: PrimeField> {
    /// The base-field sponge digest.
    pub digest: F,
    /// The previous recursion challenges, one list per prior proof.
    pub prev_challenges: &'a Vec<Vec<F>>,
    /// When present, which of the prior proofs are real: the lists of the others
    /// are not absorbed.
    pub prev_challenge_mask: &'a Option<Vec<bool>>,
    /// `ft(zeta * omega)`.
    pub ft_eval1: F,
    /// The negated public-input evaluations at `zeta` and at `zeta * omega`.
    pub public_evals: &'a (Vec<F>, Vec<F>),
    /// The column evaluations.
    pub evals: &'a AbsorbEvalsVar<F>,
    /// Whether both halves of `xi` are range-checked, or the high one alone.
    pub xi_constrain_low_bits: bool,
}

impl<'a, F: PrimeField> FrSpongeInputs<'a, F> {
    /// A mask, where there is one, has a bit per previous proof.
    pub open spec fn wf(self) -> bool {
        *self.prev_challenge_mask matches Some(mask) ==> mask@.len() == self.prev_challenges@.len()
    }

    /// What the sponge for the previous challenges absorbs.
    pub open spec fn prev_challenges_spec(self) -> Seq<F> {
        match *self.prev_challenge_mask {
            None => concat_rows(self.prev_challenges@),
            Some(mask) => concat_rows(kept(mask@, self.prev_challenges@)),
        }
    }

    /// What the transcript absorbs, given the previous challenges' digest.
    pub open spec fn transcript_spec(self, prev_challenge_digest: F) -> Seq<F> {
        seq![self.digest, prev_challenge_digest, self.ft_eval1] + self.public_evals.0@
            + self.public_evals.1@ + flatten_points(self.evals.ordered_points())
    }

    /// The elements absorbed by the sponge whose squeeze is the previous
    /// challenges' digest.
    pub fn prev_challenges_absorbed(&self) -> (r: Vec<F>)
        requires
            self.wf(),
        ensures
            r@ == self.prev_challenges_spec(),
    {
        let mut out: Vec<F> = Vec::new();
        match self.prev_challenge_mask {
            None => append_rows(&mut out, self.prev_challenges.as_slice()),
            Some(mask) => append_kept_rows(
                &mut out,
                mask.as_slice(),
                self.prev_challenges.as_slice(),
            ),
        }
        out
    }

    /// The elements absorbed before `xi` and `r` are squeezed.
    pub fn transcript(&self, prev_challenge_digest: F) -> (r: Vec<F>)
        ensures
            r@ == self.transcript_spec(prev_challenge_digest),
    {
        let mut out: Vec<F> = Vec::new();
        out.push(self.digest);
        out.push(prev_challenge_digest);
        out.push(self.ft_eval1);
        append(&mut out, self.public_evals.0.as_slice());
        append(&mut out, self.public_evals.1.as_slice());
        let ghost base = out@;
        let e = self.evals;
        let ghost p0: Seq<PointEvalVar<F>> = Seq::empty();
        assert(out@ == base + flatten_points(p0));
        append_point(&mut out, &e.z, Ghost(p0), Ghost(base));
        let ghost p1 = p0.push(e.z);
        append_point(&mut out, &e.generic_selector, Ghost(p1), Ghost(base));
        let ghost p2 = p1.push(e.generic_selector);
        append_point(&mut out, &e.poseidon_selector, Ghost(p2), Ghost(base));
        let ghost p3 = p2.push(e.poseidon_selector);
        append_point(&mut out, &e.complete_add_selector, Ghost(p3), Ghost(base));
        let ghost p4 = p3.push(e.complete_add_selector);
        append_point(&mut out, &e.mul_selector, Ghost(p4), Ghost(base));
        let ghost p5 = p4.push(e.mul_selector);
        append_point(&mut out, &e.emul_selector, Ghost(p5), Ghost(base));
        let ghost p6 = p5.push(e.emul_selector);
        append_point(&mut out, &e.endomul_scalar_selector, Ghost(p6), Ghost(base));
        let ghost p7 = p6.push(e.endomul_scalar_selector);
        append_points(&mut out, &e.w, Ghost(p7), Ghost(base));
        append_points(&mut out, &e.coefficients, Ghost(p7 + e.w@), Ghost(base));
        append_points(&mut out, &e.s, Ghost(p7 + e.w@ + e.coefficients@), Ghost(base));
        assert(p7 + e.w@ + e.coefficients@ + e.s@ == e.ordered_points());
        assert(base == seq![self.digest, prev_challenge_digest, self.ft_eval1]
            + self.public_evals.0@ + self.public_evals.1@);
        out
    }
}

/// `first` and `second` are answers of the sponge to the two squeezes of the
/// transcript, whose digest of the previous challenges is an answer too.
pub open spec fn squeezed_from<'a, F: PrimeField, H: Fn(&Vec<SpongeOp<F>>) -> F>(
    inputs: FrSpongeInputs<'a, F>,
    sponge: H,
    first: F,
    second: F,
) -> bool {
    exists|digest: F|
        {
            let ops = absorbing(residues(inputs.transcript_spec(digest))).push(None);
            &&& #[trigger] replied(
                sponge,
                absorbing(residues(inputs.prev_challenges_spec())).push(None),
                digest,
            )
            &&& replied(sponge, ops, first)
            &&& replied(sponge, ops.push(None), second)
        }
}

/// The two elements squeezed after the transcript, `xi`'s first.
pub fn squeeze_transcript<'a, F: PrimeField, H: Fn(&Vec<SpongeOp<F>>) -> F>(
    inputs: &FrSpongeInputs<'a, F>,
    sponge: &H,
) -> (r: (F, F))
    requires
        inputs.wf(),
        forall|v: &Vec<SpongeOp<F>>| call_requires(*sponge, (v,)),
    ensures
        squeezed_from(*inputs, *sponge, r.0, r.1),
{
    let previous = inputs.prev_challenges_absorbed();
    let mut previous_ops: Vec<SpongeOp<F>> = Vec::new();
    absorb_all(&mut previous_ops, previous.as_slice());
    let digest = squeeze(&mut previous_ops, sponge);
    assert(op_residues(previous_ops@) =~= absorbing(residues(inputs.prev_challenges_spec())).push(
        None,
    ));
    let transcript = inputs.transcript(digest);
    let mut ops: Vec<SpongeOp<F>> = Vec::new();
    absorb_all(&mut ops, transcript.as_slice());
    let first = squeeze(&mut ops, sponge);
    assert(op_residues(ops@) =~= absorbing(residues(inputs.transcript_spec(digest))).push(None));
    let second = squeeze(&mut ops, sponge);
    (first, second)
}

/// The 128-bit challenges `(xi, r)` of two squeezed elements. Both halves of `r`
/// are range-checked; of `xi`, as the inputs say.
pub open spec fn are_challenges<'a, F: PrimeField>(
    inputs: FrSpongeInputs<'a, F>,
    first: F,
    second: F,
    r: (ChallengeBits<F>, ChallengeBits<F>),
) -> bool {
    &&& is_split(first, r.0)
    &&& is_split(second, r.1)
    &&& r.0.range_checked@ == if inputs.xi_constrain_low_bits {
        seq![r.0.hi, r.0.lo]
    } else {
        seq![r.0.hi]
    }
    &&& r.1.range_checked@ == seq![r.1.hi, r.1.lo]
}

/// The 128-bit challenges `(xi, r)` of the two elements squeezed after the
/// transcript.
pub fn challenges_of_squeezes<'a, F: PrimeField>(
    inputs: &FrSpongeInputs<'a, F>,
    first: &F,
    second: &F,
) -> (r: (ChallengeBits<F>, ChallengeBits<F>))
    ensures
        are_challenges(*inputs, *first, *second, r),
{
    (lowest_128_bits(first, inputs.xi_constrain_low_bits), lowest_128_bits(second, true))
}

/// Absorbs the transcript and squeezes the two 128-bit challenges `(xi, r)`.
pub fn squeeze_xi_r<'a, F: PrimeField, H: Fn(&Vec<SpongeOp<F>>) -> F>(
    inputs: &FrSpongeInputs<'a, F>,
    sponge: &H,
) -> (r: (ChallengeBits<F>, ChallengeBits<F>))
    requires
        inputs.wf(),
        forall|v: &Vec<SpongeOp<F>>| call_requires(*sponge, (v,)),
    ensures
        exists|first: F, second: F| #[trigger]
            squeezed_from(*inputs, *sponge, first, second) && are_challenges(
                *inputs,
                first,
                second,
                r,
            ),
{
    let (first, second) = squeeze_transcript(inputs, sponge);
    challenges_of_squeezes(inputs, &first, &second)
}

/// The transcript's slots: the digest, the digest of the previous challenges,
/// `ft` at the second point, the public input at the first point and then at the
/// second, and after them the columns.
pub proof fn transcript_slots<'a, F: PrimeField>(inputs: FrSpongeInputs<'a, F>, prev: F)
    ensures
        ({
            let all = inputs.transcript_spec(prev);
            let p = inputs.public_evals.0@;
            let q = inputs.public_evals.1@;
            &&& all[0] == inputs.digest
            &&& all[1] == prev
            &&& all[2] == inputs.ft_eval1
            &&& all.subrange(3, 3int + p.len()) == p
            &&& all.subrange(3int + p.len(), 3int + p.len() + q.len()) == q
            &&& all.skip(3int + p.len() + q.len()) == flatten_points(
                inputs.evals.ordered_points(),
            )
        }),
{
    let all = inputs.transcript_spec(prev);
    let p = inputs.public_evals.0@;
    let q = inputs.public_evals.1@;
    assert(all.subrange(3, 3int + p.len()) =~= p);
    assert(all.subrange(3int + p.len(), 3int + p.len() + q.len()) =~= q);
    assert(all.skip(3int + p.len() + q.len()) =~= flatten_points(
        inputs.evals.ordered_points(),
    ));
}

/// Columns are absorbed one after the other, each with its chunks at the first
/// point before those at the second.
pub proof fn columns_are_absorbed_point_by_point<F: PrimeField>(
    a: Seq<PointEvalVar<F>>,
    b: Seq<PointEvalVar<F>>,
    p: PointEvalVar<F>,
)
    ensures
        flatten_points(a + b) == flatten_points(a) + flatten_points(b),
        flatten_points(seq![p]) == p.0@ + p.1@,
        flatten_points(Seq::<PointEvalVar<F>>::empty()) == Seq::<F>::empty(),
    decreases b.len(),
{
    reveal_with_fuel(flatten_points, 2);
    assert(seq![p].drop_last() =~= Seq::<PointEvalVar<F>>::empty());
    assert(flatten_points(seq![p]) =~= p.0@ + p.1@);
    if b.len() == 0 {
        assert(a + b =~= a);
        assert(flatten_points(a) + flatten_points(b) =~= flatten_points(a));
    } else {
        columns_are_absorbed_point_by_point(a, b.drop_last(), p);
        assert((a + b).drop_last() =~= a + b.drop_last());
        assert((a + b).last() == b.last());
        assert(flatten_points(a + b) =~= flatten_points(a) + flatten_points(b));
    }
}

/// The columns' order: the permutation, the six selectors by name, the witness,
/// the coefficients, the permutation columns.
pub proof fn columns_have_their_order<F: PrimeField>(e: AbsorbEvalsVar<F>, i: int)
    ensures
        e.ordered_points().len() == 7 + e.w@.len() + e.coefficients@.len() + e.s@.len(),
        e.ordered_points()[0] == e.z,
        e.ordered_points()[1] == e.generic_selector,
        e.ordered_points()[2] == e.poseidon_selector,
        e.ordered_points()[3] == e.complete_add_selector,
        e.ordered_points()[4] == e.mul_selector,
        e.ordered_points()[5] == e.emul_selector,
        e.ordered_points()[6] == e.endomul_scalar_selector,
        0 <= i < e.w@.len() ==> e.ordered_points()[7 + i] == e.w@[i],
        0 <= i < e.coefficients@.len() ==> e.ordered_points()[7 + e.w@.len() + i]
            == e.coefficients@[i],
        0 <= i < e.s@.len() ==> e.ordered_points()[7 + e.w@.len() + e.coefficients@.len() + i]
            == e.s@[i],
{
}

/// Without a mask every list of previous challenges is absorbed; with one, those
/// whose bit is set, in order.
pub proof fn masked_challenges_are_not_absorbed<'a, F: PrimeField>(inputs: FrSpongeInputs<'a, F>)
    ensures
        *inputs.prev_challenge_mask is None ==> inputs.prev_challenges_spec() == concat_rows(
            inputs.prev_challenges@,
        ),
        *inputs.prev_challenge_mask matches Some(mask) ==> inputs.prev_challenges_spec()
            == concat_rows(kept(mask@, inputs.prev_challenges@)),
{
}

/// The two challenges come from the two squeezes in order, each as the low 128
/// bits, and the mode decides about the first one's range check alone.
pub proof fn challenges_come_from_the_squeezes_in_order<'a, F: PrimeField>(
    inputs: FrSpongeInputs<'a, F>,
    first: F,
    second: F,
    r: (ChallengeBits<F>, ChallengeBits<F>),
)
    requires
        are_challenges(inputs, first, second, r),
    ensures
        r.0.lo.view() == first.view() % 0x1_0000_0000_0000_0000_0000_0000_0000_0000int,
        r.0.hi.view() == first.view() / 0x1_0000_0000_0000_0000_0000_0000_0000_0000int,
        r.1.lo.view() == second.view() % 0x1_0000_0000_0000_0000_0000_0000_0000_0000int,
        r.1.hi.view() == second.view() / 0x1_0000_0000_0000_0000_0000_0000_0000_0000int,
        r.0.range_checked@.contains(r.0.hi),
        inputs.xi_constrain_low_bits ==> r.0.range_checked@ == seq![r.0.hi, r.0.lo],
        !inputs.xi_constrain_low_bits ==> r.0.range_checked@ == seq![r.0.hi],
        r.1.range_checked@ == seq![r.1.hi, r.1.lo],
{
    assert(r.0.range_checked@[0] == r.0.hi);
}

/// What the two squeezes answer to: first the previous challenges in a sponge of
/// their own, then the transcript with that digest, squeezed twice.
pub proof fn squeezes_answer_to_the_transcript<'a, F: PrimeField, H: Fn(&Vec<SpongeOp<F>>) -> F>(
    inputs: FrSpongeInputs<'a, F>,
    sponge: H,
    first: F,
    second: F,
)
    requires
        squeezed_from(inputs, sponge, first, second),
    ensures
        ({
            let prev = absorbing(residues(inputs.prev_challenges_spec())).push(None);
            exists|digest: F|
                {
                    &&& #[trigger] replied(sponge, prev, digest)
                    &&& replied(
                        sponge,
                        absorbing(residues(inputs.transcript_spec(digest))).push(None),
                        first,
                    )
                    &&& replied(
                        sponge,
                        absorbing(residues(inputs.transcript_spec(digest))).push(None).push(None),
                        second,
                    )
                }
        }),
{
}

} // verus!
