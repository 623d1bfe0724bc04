//! Finalizing the deferred values of another proof: resample `xi` and `r`,
//! re-derive the combined inner product, `b` and the permutation scalar, and
//! compare each with what the statement claims.
//!
//! The conversion of a 128-bit challenge to a full field element (the scalar
//! endomorphism) is a parameter, and the two elements that the transcript
//! squeezes are arguments.

use vstd::arithmetic::div_mod::{
    lemma_add_mod_noop, lemma_mod_bound, lemma_mod_multiples_vanish, lemma_mod_twice,
    lemma_mul_mod_noop_left, lemma_small_mod, lemma_sub_mod_noop,
};
use vstd::arithmetic::power::pow;
use vstd::prelude::*;

use crate::commitments::{shifted_values_stand_for_scalars, ShiftedScalar};
use crate::domain::FftField;
use crate::expr_eval::{
    eval_polish, pow_circuit, the_last_operator_acts_on_the_value, Challenges, ChallengesView,
    ConstantTerm, DomainView, EnvView, PolishDomain, PolishEnv, PolishToken,
};
use crate::field::{
    div, equal, fadd, fdiv, fmul, fpow, from_u64, fsub, lemma_inverse_is_unique, one, residues,
    zero, PrimeField,
};
use crate::fr_sponge::{
    challenges_of_squeezes, squeeze_transcript, squeezed_from, AbsorbEvalsVar, FrSpongeInputs,
    PointEvalVar,
};
use crate::ft_eval_circuit::{
    at_zeta, at_zeta_omega, ft_denominator, ft_eval0_prefix, ft_eval0_prefix_circuit, perm_scalar,
    perm_scalar_circuit, scalars_env, scalars_env_circuit, EvalsVar, EvalsView, FinalizeDomain,
    ScalarsView, ZK_ROWS,
};
use crate::ipa::{
    challenge_coefficients, challenge_polynomial, challenge_polynomial_circuit,
    coefficients_give_the_challenge_polynomial, combined_inner_product,
    combined_inner_product_circuit_masked, firsts, mask_bits, mask_pairs, pair_residues,
    polynomial_at, seconds, the_inner_product_combines_both_points,
};
use crate::montgomery::b2;
use crate::ring::{lemma_differences_make_up, lemma_operands_may_be_reduced};
use crate::sequences::{append, kept};
use crate::sponge::SpongeOp;

verus! {

/// The residue of `2^255`, the size in bits of either field.
pub open spec fn two_to_size<F: PrimeField>() -> int {
    fpow::<F>(2, 255)
}

fn two_to_size_element<F: PrimeField>() -> (r: F)
    ensures
        r.view() == two_to_size::<F>(),
{
    pow_circuit(&from_u64(2), 255)
}

/// Recovers a value from its first shifted representation:
/// `2 repr + 2^size + 1`.
pub fn type1_to_field<F: PrimeField>(repr: &F) -> (r: F)
    ensures
        r.view() == ShiftKind::Type1.spec_to_field::<F>(repr.view()),
{
    let c = two_to_size_element::<F>().add(&one());
    repr.add(repr).add(&c)
}

/// Recovers a value from its second shifted representation: `repr + 2^size`.
pub fn type2_to_field<F: PrimeField>(repr: &F) -> (r: F)
    ensures
        r.view() == ShiftKind::Type2.spec_to_field::<F>(repr.view()),
{
    repr.add(&two_to_size_element())
}

/// The first shifted representation of a value: `(s - 2^size - 1) / 2`.
pub fn type1_of_field<F: PrimeField>(s: &F) -> (r: F)
    ensures
        r.view() == ShiftKind::Type1.spec_of_field::<F>(s.view()),
{
    let c = two_to_size_element::<F>().add(&one());
    let half = div(&s.sub(&c), &from_u64(2));
    half.unwrap()
}

/// The second shifted representation of a value: `s - 2^size`.
pub fn type2_of_field<F: PrimeField>(s: &F) -> (r: F)
    ensures
        r.view() == ShiftKind::Type2.spec_of_field::<F>(s.view()),
{
    s.sub(&two_to_size_element())
}

/// Which shifted representation the claimed deferred values use: the first on
/// the step side, the second on the wrap side.
#[derive(Clone, Copy, Debug, PartialEq, Eq, Structural)]
pub enum ShiftKind {
    Type1,
    Type2,
}

impl ShiftKind {
    /// The value of a representation.
    pub open spec fn spec_to_field<F: PrimeField>(self, repr: int) -> int {
        match self {
            ShiftKind::Type1 => fadd::<F>(
                fadd::<F>(repr, repr),
                fadd::<F>(two_to_size::<F>(), 1),
            ),
            ShiftKind::Type2 => fadd::<F>(repr, two_to_size::<F>()),
        }
    }

    /// The representation of a value.
    pub open spec fn spec_of_field<F: PrimeField>(self, s: int) -> int {
        match self {
            ShiftKind::Type1 => fdiv::<F>(fsub::<F>(s, fadd::<F>(two_to_size::<F>(), 1)), 2),
            ShiftKind::Type2 => fsub::<F>(s, two_to_size::<F>()),
        }
    }

    /// Recovers a value from its representation.
    pub fn to_field<F: PrimeField>(self, repr: &F) -> (r: F)
        ensures
            r.view() == self.spec_to_field::<F>(repr.view()),
    {
        match self {
            ShiftKind::Type1 => type1_to_field(repr),
            ShiftKind::Type2 => type2_to_field(repr),
        }
    }
}

/// The shifted representations are representations: a value is recovered from
/// its own, and a representation is that of the value it recovers.
pub proof fn shifts_are_inverse<F: PrimeField>(kind: ShiftKind, s: int)
    requires
        0 <= s < F::modulus(),
    ensures
        kind.spec_to_field::<F>(kind.spec_of_field::<F>(s)) == s,
        kind.spec_of_field::<F>(kind.spec_to_field::<F>(s)) == s,
{
    F::lemma_modulus();
    let p = F::modulus();
    match kind {
        ShiftKind::Type1 => {
            let c = fadd::<F>(two_to_size::<F>(), 1);
            let half = (p + 1) / 2;
            assert(2 * half == p + 1);
            lemma_small_mod(1, p as nat);
            lemma_mod_multiples_vanish(1, 1, p);
            lemma_inverse_is_unique::<F>(2, half);
            // forth: 2 ((s - c) / 2) + c = s
            let d = fsub::<F>(s, c);
            lemma_mod_bound(s - c, p);
            let x = fmul::<F>(d, half);
            assert((x + x) % p == d) by {
                lemma_add_mod_noop(d * half, d * half, p);
                assert(d * half + d * half == d + p * d) by (nonlinear_arith)
                    requires
                        2 * half == p + 1,
                ;
                lemma_mod_multiples_vanish(d, d, p);
                lemma_small_mod(d as nat, p as nat);
            }
            lemma_add_mod_noop(s - c, c, p);
            lemma_mod_twice(s - c, p);
            lemma_add_mod_noop(d, c, p);
            lemma_small_mod(s as nat, p as nat);
            // back: (2 s + c - c) / 2 = s
            let t = fadd::<F>(fadd::<F>(s, s), c);
            let u = fadd::<F>(s, s);
            lemma_mod_bound(u + c, p);
            lemma_mod_bound(s + s, p);
            lemma_sub_mod_noop(u + c, c, p);
            lemma_mod_twice(u + c, p);
            lemma_sub_mod_noop(t, c, p);
            lemma_small_mod(u as nat, p as nat);
            assert(fsub::<F>(t, c) == u);
            lemma_mul_mod_noop_left(s + s, half, p);
            assert((s + s) * half == s + p * s) by (nonlinear_arith)
                requires
                    2 * half == p + 1,
            ;
            lemma_mod_multiples_vanish(s, s, p);
        },
        ShiftKind::Type2 => {
            let c = two_to_size::<F>();
            lemma_add_mod_noop(s - c, c, p);
            lemma_mod_twice(s - c, p);
            lemma_add_mod_noop(fsub::<F>(s, c), c, p);
            lemma_sub_mod_noop(s + c, c, p);
            lemma_mod_twice(s + c, p);
            lemma_sub_mod_noop(fadd::<F>(s, c), c, p);
            lemma_small_mod(s as nat, p as nat);
        },
    }
}

/// `b = h(zeta) + r h(zetaw)`, with `h` the polynomial of the new challenges.
pub open spec fn b_value<F: PrimeField>(chals: Seq<int>, zeta: int, zetaw: int, r: int) -> int {
    fadd::<F>(
        challenge_polynomial::<F>(chals, zeta),
        fmul::<F>(r, challenge_polynomial::<F>(chals, zetaw)),
    )
}

/// The value of `b` re-derived from the new bulletproof challenges.
pub fn b_actual<F: PrimeField>(chals: &[F], zeta: &F, zetaw: &F, r: &F) -> (b: F)
    ensures
        b.view() == b_value::<F>(residues(chals@), zeta.view(), zetaw.view(), r.view()),
{
    let h_zeta = challenge_polynomial_circuit(chals, zeta);
    let h_zetaw = challenge_polynomial_circuit(chals, zetaw);
    h_zeta.add(&r.mul(&h_zetaw))
}

/// The conjunction of the four checks: the comparison of `xi`, and derived
/// equals claimed for the inner product, `b` and the permutation scalar.
pub fn finalize_all<F: PrimeField>(
    xi_correct: bool,
    cip_derived: &F,
    cip_claimed: &F,
    b_derived: &F,
    b_claimed: &F,
    perm_derived: &F,
    perm_claimed: &F,
) -> (all: bool)
    ensures
        all == (xi_correct && cip_derived.view() == cip_claimed.view() && b_derived.view()
            == b_claimed.view() && perm_derived.view() == perm_claimed.view()),
{
    let cip_correct = equal(cip_derived, cip_claimed);
    let b_correct = equal(b_derived, b_claimed);
    let perm_correct = equal(perm_derived, perm_claimed);
    xi_correct && cip_correct && b_correct && perm_correct
}

/// The challenges and the inner product that finalizing re-derives.
pub struct FinalizeCore<F: PrimeField> {
    /// The squeezed `r`, 128 bits.
    pub r_challenge: F,
    /// `xi` as a full field element.
    pub xi_field: F,
    /// `r` as a full field element.
    pub r_field: F,
    /// The combined inner product.
    pub combined_inner_product: F,
    /// Whether the squeezed `xi` is the claimed one.
    pub xi_correct: bool,
}

/// What [`finalize_core`] owes: the raw `xi` compared, the claimed `xi` and the
/// squeezed `r` converted, and the inner product taken with the two.
pub open spec fn core_spec<F: PrimeField, E: Fn(F) -> F>(
    core: FinalizeCore<F>,
    squeezed: (F, F),
    claimed_xi: F,
    entries: Seq<(int, int)>,
    to_field: E,
) -> bool {
    &&& core.r_challenge.view() == squeezed.1.view() % b2()
    &&& call_ensures(to_field, (claimed_xi,), core.xi_field)
    &&& call_ensures(to_field, (core.r_challenge,), core.r_field)
    &&& core.xi_correct == (squeezed.0.view() % b2() == claimed_xi.view())
    &&& core.combined_inner_product.view() == combined_inner_product::<F>(
        core.xi_field.view(),
        core.r_field.view(),
        entries,
    )
}

/// Runs the arithmetic core after the transcript of `sponge_inputs`;
/// `cip_entries` are the evaluation pairs of the inner product, in order.
pub fn finalize_core<'a, F: PrimeField, H: Fn(&Vec<SpongeOp<F>>) -> F, E: Fn(F) -> F>(
    sponge_inputs: &FrSpongeInputs<'a, F>,
    sponge: &H,
    claimed_xi: &F,
    cip_entries: &[(F, F)],
    to_field: &E,
) -> (core: FinalizeCore<F>)
    requires
        sponge_inputs.wf(),
        cip_entries@.len() > 0,
        forall|v: &Vec<SpongeOp<F>>| call_requires(*sponge, (v,)),
        forall|x: F| call_requires(*to_field, (x,)),
    ensures
        exists|first: F, second: F| #[trigger]
            squeezed_from(*sponge_inputs, *sponge, first, second) && core_spec(
                core,
                (first, second),
                *claimed_xi,
                pair_residues(cip_entries@),
                *to_field,
            ),
{
    let prefix: [(bool, F, F); 0] = [];
    let squeezed = squeeze_transcript(sponge_inputs, sponge);
    let core = finalize_core_with_mask(
        sponge_inputs,
        squeezed,
        claimed_xi,
        &prefix,
        cip_entries,
        to_field,
    );
    assert(kept(mask_bits(prefix@), mask_pairs(prefix@)) + cip_entries@ =~= cip_entries@);
    core
}

fn finalize_core_with_mask<'a, F: PrimeField, E: Fn(F) -> F>(
    sponge_inputs: &FrSpongeInputs<'a, F>,
    squeezed: (F, F),
    claimed_xi: &F,
    masked_prefix: &[(bool, F, F)],
    cip_entries: &[(F, F)],
    to_field: &E,
) -> (core: FinalizeCore<F>)
    requires
        cip_entries@.len() > 0,
        forall|x: F| call_requires(*to_field, (x,)),
    ensures
        core_spec(
            core,
            squeezed,
            *claimed_xi,
            pair_residues(
                kept(mask_bits(masked_prefix@), mask_pairs(masked_prefix@)) + cip_entries@,
            ),
            *to_field,
        ),
{
    let (xi_bits, r_bits) = challenges_of_squeezes(sponge_inputs, &squeezed.0, &squeezed.1);
    let xi_correct = equal(&xi_bits.lo, claimed_xi);
    let xi_field = to_field(*claimed_xi);
    let r_field = to_field(r_bits.lo);
    let combined_inner_product = combined_inner_product_circuit_masked(
        &xi_field,
        &r_field,
        masked_prefix,
        cip_entries,
    );
    FinalizeCore { r_challenge: r_bits.lo, xi_field, r_field, combined_inner_product, xi_correct }
}

/// Whether another proof's deferred values are the derived ones, its claims
/// given in the first shifted representation and its permutation scalar already
/// derived: true exactly when the four checks of [`finalize_all`] hold for the
/// re-derived core.
pub fn finalize_other_proof<'a, F: PrimeField, H: Fn(&Vec<SpongeOp<F>>) -> F, E: Fn(F) -> F>(
    sponge_inputs: &FrSpongeInputs<'a, F>,
    sponge: &H,
    claimed_xi: &F,
    cip_entries: &[(F, F)],
    cip_claimed_repr: &F,
    b_chals: &[F],
    zeta: &F,
    domain_generator: &F,
    b_claimed_repr: &F,
    perm_derived: &F,
    perm_claimed_repr: &F,
    to_field: &E,
) -> (r: (bool, FinalizeCore<F>))
    requires
        sponge_inputs.wf(),
        cip_entries@.len() > 0,
        forall|v: &Vec<SpongeOp<F>>| call_requires(*sponge, (v,)),
        forall|x: F| call_requires(*to_field, (x,)),
    ensures
        exists|first: F, second: F| #[trigger]
            squeezed_from(*sponge_inputs, *sponge, first, second) && core_spec(
                r.1,
                (first, second),
                *claimed_xi,
                pair_residues(cip_entries@),
                *to_field,
            ),
        r.0 == (r.1.xi_correct && r.1.combined_inner_product.view()
            == ShiftKind::Type1.spec_to_field::<F>(cip_claimed_repr.view()) && b_value::<F>(
            residues(b_chals@),
            zeta.view(),
            fmul::<F>(zeta.view(), domain_generator.view()),
            r.1.r_field.view(),
        ) == ShiftKind::Type1.spec_to_field::<F>(b_claimed_repr.view()) && perm_derived.view()
            == ShiftKind::Type1.spec_to_field::<F>(perm_claimed_repr.view())),
{
    let core = finalize_core(sponge_inputs, sponge, claimed_xi, cip_entries, to_field);
    let zetaw = zeta.mul(domain_generator);
    let b_derived = b_actual(b_chals, zeta, &zetaw, &core.r_field);
    let cip_claimed = type1_to_field(cip_claimed_repr);
    let b_claimed = type1_to_field(b_claimed_repr);
    let perm_claimed = type1_to_field(perm_claimed_repr);
    let all = finalize_all(
        core.xi_correct,
        &core.combined_inner_product,
        &cip_claimed,
        &b_derived,
        &b_claimed,
        perm_derived,
        &perm_claimed,
    );
    (all, core)
}

/// What is fixed when a circuit is compiled.
pub struct FinalizeParams<'a, F: PrimeField> {
    /// The linearization's constant term.
    pub tokens: &'a Vec<PolishToken<F>>,
    /// The evaluation domain of the proof.
    pub domain: FinalizeDomain<F>,
    /// The length of the commitment key, as a power of two.
    pub srs_log2: u32,
    /// The endomorphism coefficient of the linearization.
    pub endo: F,
    /// The permutation shifts.
    pub shifts: &'a Vec<F>,
    /// The Poseidon matrix.
    pub mds: &'a Vec<Vec<F>>,
    /// The representation of the claimed values.
    pub shift: ShiftKind,
}

/// The statement's deferred values and the proof's evaluations. `alpha` and
/// `zeta` are full field elements; `beta`, `gamma`, `xi` and the bulletproof
/// challenges are raw.
pub struct FinalizeWitness<F: PrimeField> {
    pub alpha: F,
    pub beta: F,
    pub gamma: F,
    pub zeta: F,
    /// The claimed `xi`, 128 bits.
    pub xi: F,
    /// The claimed combined inner product, shifted.
    pub cip_repr: F,
    /// The claimed `b`, shifted.
    pub b_repr: F,
    /// The claimed permutation scalar, shifted.
    pub perm_repr: F,
    /// The new bulletproof challenges, 128 bits each.
    pub bulletproof_challenges: Vec<F>,
    /// The digest that seeds the transcript.
    pub digest: F,
    /// The previous proofs' challenges.
    pub prev_challenges: Vec<Vec<F>>,
    /// Which of the previous proofs are real, where that varies.
    pub prev_challenge_mask: Option<Vec<bool>>,
    pub ft_eval1: F,
    pub public_evals: (Vec<F>, Vec<F>),
    /// The column evaluations.
    pub evals: AbsorbEvalsVar<F>,
}

/// The outcome of finalizing, with the values it was decided by.
pub struct FinalizedDeferred<F: PrimeField> {
    /// Whether all four checks hold.
    pub finalized: bool,
    /// The bulletproof challenges as full field elements.
    pub challenges: Vec<F>,
    /// The squeezed `r`, 128 bits.
    pub r_challenge: F,
    /// `xi` as a full field element.
    pub xi_field: F,
    /// `r` as a full field element.
    pub r_field: F,
    /// The re-derived combined inner product.
    pub combined_inner_product: F,
    pub xi_correct: bool,
    pub cip_correct: bool,
    pub b_correct: bool,
    pub perm_correct: bool,
}

/// One chunk at each of the two points.
pub open spec fn single_chunk<F: PrimeField>(pe: PointEvalVar<F>) -> bool {
    pe.0@.len() == 1 && pe.1@.len() == 1
}

/// The first chunks of each point.
pub open spec fn first_chunks<F: PrimeField>(points: Seq<PointEvalVar<F>>) -> Seq<(F, F)> {
    Seq::new(points.len(), |i: int| (points[i].0@[0], points[i].1@[0]))
}

impl<F: PrimeField> FinalizeWitness<F> {
    /// Single-chunk evaluations with more witness than permutation columns, and
    /// a mask, where there is one, with a bit per previous proof.
    pub open spec fn wf(self) -> bool {
        &&& forall|i: int|
            0 <= i < self.evals.ordered_points().len() ==> single_chunk(
                #[trigger] self.evals.ordered_points()[i],
            )
        &&& self.evals.s@.len() < self.evals.w@.len()
        &&& self.public_evals.0@.len() > 0
        &&& self.public_evals.1@.len() > 0
        &&& self.prev_challenge_mask matches Some(mask) ==> mask@.len()
            == self.prev_challenges@.len()
    }

    /// The transcript's inputs are the witness's.
    pub open spec fn are_sponge_inputs<'a>(
        &self,
        shift: ShiftKind,
        r: FrSpongeInputs<'a, F>,
    ) -> bool {
        &&& r.digest == self.digest
        &&& *r.prev_challenges == self.prev_challenges
        &&& *r.prev_challenge_mask == self.prev_challenge_mask
        &&& r.ft_eval1 == self.ft_eval1
        &&& *r.public_evals == self.public_evals
        &&& *r.evals == self.evals
        &&& r.xi_constrain_low_bits == (shift == ShiftKind::Type1)
    }

    /// The transcript's inputs. A step circuit (first shifted representation)
    /// range-checks both halves of `xi`, a wrap circuit the high one alone.
    pub fn sponge_inputs<'a>(&'a self, shift: ShiftKind) -> (r: FrSpongeInputs<'a, F>)
        ensures
            self.are_sponge_inputs(shift, r),
    {
        FrSpongeInputs {
            digest: self.digest,
            prev_challenges: &self.prev_challenges,
            prev_challenge_mask: &self.prev_challenge_mask,
            ft_eval1: self.ft_eval1,
            public_evals: &self.public_evals,
            evals: &self.evals,
            xi_constrain_low_bits: shift == ShiftKind::Type1,
        }
    }

    /// The evaluations that the permutation formulas read.
    pub open spec fn evals_view(self) -> EvalsView {
        EvalsView {
            w: at_zeta(first_chunks(self.evals.w@)),
            w_omega: at_zeta_omega(first_chunks(self.evals.w@)),
            s: at_zeta(first_chunks(self.evals.s@)),
            s_omega: at_zeta_omega(first_chunks(self.evals.s@)),
            z: self.evals.z.0@[0].view(),
            z_omega: self.evals.z.1@[0].view(),
        }
    }

    /// The previous challenge polynomials at the two points, for the proofs that
    /// are real.
    pub open spec fn old_entries(self, zeta: int, zetaw: int) -> Seq<(int, int)> {
        let all = Seq::new(
            self.prev_challenges@.len(),
            |i: int|
                (
                    challenge_polynomial::<F>(residues(self.prev_challenges@[i]@), zeta),
                    challenge_polynomial::<F>(residues(self.prev_challenges@[i]@), zetaw),
                ),
        );
        match self.prev_challenge_mask {
            None => all,
            Some(mask) => kept(mask@, all),
        }
    }

    /// The evaluation pairs of the inner product: the previous challenge
    /// polynomials, the public input, `ft`, then the columns.
    pub open spec fn cip_entries(self, zetaw: int, ft_eval0: int) -> Seq<(int, int)> {
        self.old_entries(self.zeta.view(), zetaw) + seq![
            (self.public_evals.0@[0].view(), self.public_evals.1@[0].view()),
            (ft_eval0, self.ft_eval1.view()),
        ] + pair_residues(first_chunks(self.evals.ordered_points()))
    }
}

impl<'a, F: FftField> FinalizeParams<'a, F> {
    /// A domain, and a key length that fits a machine word.
    pub open spec fn wf(self) -> bool {
        self.domain.wf() && self.srs_log2 < 64
    }

    /// The scalars derived from a witness.
    pub open spec fn scalars(self, w: FinalizeWitness<F>) -> ScalarsView {
        scalars_env::<F>(
            self.domain,
            self.srs_log2 as nat,
            w.alpha.view(),
            w.beta.view(),
            w.gamma.view(),
            w.zeta.view(),
        )
    }

    /// What the linearization's tokens refer to.
    pub open spec fn token_env(self, w: FinalizeWitness<F>) -> EnvView<F> {
        EnvView {
            domain: match self.domain {
                FinalizeDomain::Fixed(d) => DomainView::Fixed {
                    size: d.size as nat,
                    group_gen: d.group_gen.view(),
                },
                _ => DomainView::Selected {
                    omegas: self.scalars(w).omegas,
                    zeta_to_n_minus_1: self.scalars(w).zeta_to_n_minus_1,
                },
            },
            endo_coefficient: self.endo.view(),
            mds: self.mds@,
            zk_rows: ZK_ROWS as nat,
            pt: w.zeta.view(),
            challenges: ChallengesView {
                alpha: w.alpha.view(),
                beta: w.beta.view(),
                gamma: w.gamma.view(),
                joint_combiner: 0,
            },
            evals: w.evals,
        }
    }

    /// The linearization's constant term.
    pub open spec fn constant_term(self, w: FinalizeWitness<F>) -> Option<int> {
        self.token_env(w).value(self.tokens@)
    }

    /// Whether every division has a divisor and every token a value.
    pub open spec fn derivable(self, w: FinalizeWitness<F>) -> bool {
        &&& self.domain.exists_domain()
        &&& self.domain.generator() != 0
        &&& ft_denominator::<F>(self.scalars(w)) != 0
        &&& self.constant_term(w) is Some
    }

    /// `ft(zeta)`.
    pub open spec fn ft_eval0(self, w: FinalizeWitness<F>) -> int {
        fsub::<F>(
            ft_eval0_prefix::<F>(
                self.scalars(w),
                residues(self.shifts@),
                w.evals_view(),
                residues(w.public_evals.0@),
            ),
            self.constant_term(w)->0,
        )
    }

    /// `zeta * omega`.
    pub open spec fn zetaw(self, w: FinalizeWitness<F>) -> int {
        fmul::<F>(self.domain.generator(), w.zeta.view())
    }
}

/// The first chunks of a list of points.
fn take_first_chunks<F: PrimeField>(points: &Vec<PointEvalVar<F>>) -> (r: Vec<(F, F)>)
    requires
        forall|i: int| 0 <= i < points@.len() ==> single_chunk(#[trigger] points@[i]),
    ensures
        r@ == first_chunks(points@),
{
    let mut out: Vec<(F, F)> = Vec::new();
    let mut i: usize = 0;
    while i < points.len()
        invariant
            i <= points@.len(),
            out@.len() == i,
            forall|i: int| 0 <= i < points@.len() ==> single_chunk(#[trigger] points@[i]),
            forall|k: int| 0 <= k < i ==> #[trigger] out@[k] == (points@[k].0@[0], points@[k].1@[0]),
        decreases points.len() - i,
    {
        let pe = &points[i];
        out.push((pe.0[0], pe.1[0]));
        i = i + 1;
    }
    assert(out@ =~= first_chunks(points@));
    out
}

/// The first chunks of all columns, in transcript order.
fn ordered_first_chunks<F: PrimeField>(evals: &AbsorbEvalsVar<F>) -> (r: Vec<(F, F)>)
    requires
        forall|i: int|
            0 <= i < evals.ordered_points().len() ==> single_chunk(
                #[trigger] evals.ordered_points()[i],
            ),
    ensures
        r@ == first_chunks(evals.ordered_points()),
{
    let ghost all = evals.ordered_points();
    let mut out: Vec<(F, F)> = Vec::new();
    assert(all[0] == evals.z);
    assert(all[1] == evals.generic_selector);
    assert(all[2] == evals.poseidon_selector);
    assert(all[3] == evals.complete_add_selector);
    assert(all[4] == evals.mul_selector);
    assert(all[5] == evals.emul_selector);
    assert(all[6] == evals.endomul_scalar_selector);
    out.push((evals.z.0[0], evals.z.1[0]));
    out.push((evals.generic_selector.0[0], evals.generic_selector.1[0]));
    out.push((evals.poseidon_selector.0[0], evals.poseidon_selector.1[0]));
    out.push((evals.complete_add_selector.0[0], evals.complete_add_selector.1[0]));
    out.push((evals.mul_selector.0[0], evals.mul_selector.1[0]));
    out.push((evals.emul_selector.0[0], evals.emul_selector.1[0]));
    out.push((evals.endomul_scalar_selector.0[0], evals.endomul_scalar_selector.1[0]));
    let ghost n = evals.w@.len() as int;
    let ghost m = evals.coefficients@.len() as int;
    assert forall|i: int| 0 <= i < evals.w@.len() implies single_chunk(#[trigger] evals.w@[i]) by {
        assert(all[7 + i] == evals.w@[i]);
    }
    assert forall|i: int| 0 <= i < evals.coefficients@.len() implies single_chunk(
        #[trigger] evals.coefficients@[i],
    ) by {
        assert(all[7 + n + i] == evals.coefficients@[i]);
    }
    assert forall|i: int| 0 <= i < evals.s@.len() implies single_chunk(#[trigger] evals.s@[i]) by {
        assert(all[7 + n + m + i] == evals.s@[i]);
    }
    append(&mut out, take_first_chunks(&evals.w).as_slice());
    append(&mut out, take_first_chunks(&evals.coefficients).as_slice());
    append(&mut out, take_first_chunks(&evals.s).as_slice());
    assert(out@ =~= first_chunks(all));
    out
}

/// The previous challenge polynomials at the two points, with their bits.
fn old_masked_entries<F: PrimeField>(w: &FinalizeWitness<F>, zetaw: &F) -> (r: Vec<(bool, F, F)>)
    requires
        w.wf(),
    ensures
        pair_residues(kept(mask_bits(r@), mask_pairs(r@))) == w.old_entries(
            w.zeta.view(),
            zetaw.view(),
        ),
{
    let mut out: Vec<(bool, F, F)> = Vec::new();
    let ghost all = Seq::new(
        w.prev_challenges@.len(),
        |i: int|
            (
                challenge_polynomial::<F>(residues(w.prev_challenges@[i]@), w.zeta.view()),
                challenge_polynomial::<F>(residues(w.prev_challenges@[i]@), zetaw.view()),
            ),
    );
    let n = w.prev_challenges.len();
    let mut i: usize = 0;
    while i < n
        invariant
            i <= n,
            n == w.prev_challenges@.len(),
            w.wf(),
            out@.len() == i,
            forall|k: int|
                0 <= k < i ==> (#[trigger] out@[k]).1.view() == challenge_polynomial::<F>(
                    residues(w.prev_challenges@[k]@),
                    w.zeta.view(),
                ) && out@[k].2.view() == challenge_polynomial::<F>(
                    residues(w.prev_challenges@[k]@),
                    zetaw.view(),
                ) && out@[k].0 == match w.prev_challenge_mask {
                    None => true,
                    Some(mask) => mask@[k],
                },
        decreases n - i,
    {
        let chals = w.prev_challenges[i].as_slice();
        let at_zeta = challenge_polynomial_circuit(chals, &w.zeta);
        let at_zetaw = challenge_polynomial_circuit(chals, zetaw);
        let keep = match &w.prev_challenge_mask {
            None => true,
            Some(mask) => mask[i],
        };
        out.push((keep, at_zeta, at_zetaw));
        i = i + 1;
    }
    proof {
        assert(pair_residues(mask_pairs(out@)) =~= all);
        lemma_kept_residues(mask_bits(out@), mask_pairs(out@));
        match &w.prev_challenge_mask {
            None => crate::sequences::full_mask_keeps_everything(mask_bits(out@), all),
            Some(mask) => assert(mask_bits(out@) =~= mask@),
        }
    }
    out
}

/// Taking residues and keeping by a mask commute.
proof fn lemma_kept_residues<F: PrimeField>(keep: Seq<bool>, pairs: Seq<(F, F)>)
    requires
        keep.len() == pairs.len(),
    ensures
        pair_residues(kept(keep, pairs)) == kept(keep, pair_residues(pairs)),
    decreases pairs.len(),
{
    if pairs.len() > 0 {
        lemma_kept_residues(keep.drop_last(), pairs.drop_last());
        assert(pair_residues(pairs).drop_last() =~= pair_residues(pairs.drop_last()));
        let rest = kept(keep.drop_last(), pairs.drop_last());
        assert(pair_residues(rest.push(pairs.last())) =~= pair_residues(rest).push(
            (pairs.last().0.view(), pairs.last().1.view()),
        ));
    } else {
        assert(pair_residues(kept(keep, pairs)) =~= Seq::<(int, int)>::empty());
    }
}

/// What finalizing gives for the two squeezed elements: none where a value is
/// not derivable, else the four checks on the re-derived values.
pub open spec fn deferred_outcome<'a, F: FftField, E: Fn(F) -> F>(
    params: FinalizeParams<'a, F>,
    witness: FinalizeWitness<F>,
    squeezed: (F, F),
    to_field: E,
    r: Option<FinalizedDeferred<F>>,
) -> bool {
    match r {
        None => !params.derivable(witness),
        Some(out) => {
            &&& params.derivable(witness)
            &&& out.r_challenge.view() == squeezed.1.view() % b2()
            &&& call_ensures(to_field, (witness.xi,), out.xi_field)
            &&& call_ensures(to_field, (out.r_challenge,), out.r_field)
            &&& out.challenges@.len() == witness.bulletproof_challenges@.len()
            &&& forall|i: int|
                0 <= i < out.challenges@.len() ==> call_ensures(
                    to_field,
                    (witness.bulletproof_challenges@[i],),
                    #[trigger] out.challenges@[i],
                )
            &&& out.combined_inner_product.view() == combined_inner_product::<F>(
                out.xi_field.view(),
                out.r_field.view(),
                witness.cip_entries(params.zetaw(witness), params.ft_eval0(witness)),
            )
            &&& out.xi_correct == (squeezed.0.view() % b2() == witness.xi.view())
            &&& out.cip_correct == (out.combined_inner_product.view()
                == params.shift.spec_to_field::<F>(witness.cip_repr.view()))
            &&& out.b_correct == (b_value::<F>(
                residues(out.challenges@),
                witness.zeta.view(),
                params.zetaw(witness),
                out.r_field.view(),
            ) == params.shift.spec_to_field::<F>(witness.b_repr.view()))
            &&& out.perm_correct == (perm_scalar::<F>(
                params.scalars(witness),
                witness.evals_view(),
            ) == params.shift.spec_to_field::<F>(witness.perm_repr.view()))
            &&& out.finalized == (out.xi_correct && out.cip_correct && out.b_correct
                && out.perm_correct)
        },
    }
}

/// A representation recovers a value exactly when it is that value's own.
proof fn lemma_recovers<F: PrimeField>(kind: ShiftKind, repr: int, value: int)
    requires
        0 <= repr < F::modulus(),
        0 <= value < F::modulus(),
    ensures
        (value == kind.spec_to_field::<F>(repr)) == (repr == kind.spec_of_field::<F>(value)),
{
    shifts_are_inverse::<F>(kind, repr);
    shifts_are_inverse::<F>(kind, value);
}

/// Finalizing accepts the claims that the witness derives, and no others: the
/// challenge that was squeezed, and the representations of the inner product, of
/// `b` and of the permutation scalar.
pub proof fn only_derived_claims_finalize<'a, F: FftField, E: Fn(F) -> F>(
    params: FinalizeParams<'a, F>,
    witness: FinalizeWitness<F>,
    squeezed: (F, F),
    to_field: E,
    out: FinalizedDeferred<F>,
)
    requires
        deferred_outcome(params, witness, squeezed, to_field, Some(out)),
    ensures
        out.finalized <==> {
            &&& witness.xi.view() == squeezed.0.view() % b2()
            &&& witness.cip_repr.view() == params.shift.spec_of_field::<F>(
                out.combined_inner_product.view(),
            )
            &&& witness.b_repr.view() == params.shift.spec_of_field::<F>(
                b_value::<F>(
                    residues(out.challenges@),
                    witness.zeta.view(),
                    params.zetaw(witness),
                    out.r_field.view(),
                ),
            )
            &&& witness.perm_repr.view() == params.shift.spec_of_field::<F>(
                perm_scalar::<F>(params.scalars(witness), witness.evals_view()),
            )
        },
{
    F::lemma_modulus();
    let p = F::modulus();
    let b = b_value::<F>(
        residues(out.challenges@),
        witness.zeta.view(),
        params.zetaw(witness),
        out.r_field.view(),
    );
    let perm = perm_scalar::<F>(params.scalars(witness), witness.evals_view());
    assert(0 <= b < p && 0 <= perm < p) by {
        assert(forall|x: int| 0 <= #[trigger] (x % p) < p) by {
            assert forall|x: int| 0 <= #[trigger] (x % p) < p by {
                lemma_mod_bound(x, p);
            }
        }
    }
    F::lemma_canonical(out.combined_inner_product);
    F::lemma_canonical(witness.cip_repr);
    F::lemma_canonical(witness.b_repr);
    F::lemma_canonical(witness.perm_repr);
    lemma_recovers::<F>(
        params.shift,
        witness.cip_repr.view(),
        out.combined_inner_product.view(),
    );
    lemma_recovers::<F>(params.shift, witness.b_repr.view(), b);
    lemma_recovers::<F>(params.shift, witness.perm_repr.view(), perm);
}

/// Finalizes the deferred values of another proof, for the two elements squeezed
/// after its transcript. There is no outcome when a division has no divisor, a
/// token no value or a side-loaded size no domain; otherwise the outcome is the
/// conjunction of the four checks on the values re-derived from the witness.
pub fn finalize_squeezed<'a, F: FftField, E: Fn(F) -> F>(
    params: FinalizeParams<'a, F>,
    witness: &FinalizeWitness<F>,
    squeezed: (F, F),
    to_field: &E,
) -> (r: Option<FinalizedDeferred<F>>)
    requires
        params.wf(),
        witness.wf(),
        params.shifts@.len() <= witness.evals.w@.len(),
        forall|x: F| call_requires(*to_field, (x,)),
    ensures
        deferred_outcome(params, *witness, squeezed, *to_field, r),
{
    let ghost params0 = params;
    let shift = params.shift;
    let srs_log2 = params.srs_log2;
    let domain = match params.domain.materialize() {
        None => return None,
        Some(domain) => domain,
    };
    let generator = domain.generator_var();
    let zetaw = generator.mul(&witness.zeta);
    let masked_entries = old_masked_entries(witness, &zetaw);
    let env = match scalars_env_circuit(
        &domain,
        srs_log2,
        &witness.alpha,
        witness.beta,
        witness.gamma,
        &witness.zeta,
    ) {
        None => return None,
        Some(env) => env,
    };
    proof {
        assert(env.view() == params0.scalars(*witness));
    }
    let columns = ordered_first_chunks(&witness.evals);
    proof {
        let all = witness.evals.ordered_points();
        let n = witness.evals.w@.len() as int;
        let m = witness.evals.coefficients@.len() as int;
        assert(all[0] == witness.evals.z);
        assert forall|i: int| 0 <= i < witness.evals.w@.len() implies single_chunk(
            #[trigger] witness.evals.w@[i],
        ) by {
            assert(all[7 + i] == witness.evals.w@[i]);
        }
        assert forall|i: int| 0 <= i < witness.evals.s@.len() implies single_chunk(
            #[trigger] witness.evals.s@[i],
        ) by {
            assert(all[7 + n + m + i] == witness.evals.s@[i]);
        }
    }
    let ft_evals = EvalsVar {
        w: take_first_chunks(&witness.evals.w),
        s: take_first_chunks(&witness.evals.s),
        z: (witness.evals.z.0[0], witness.evals.z.1[0]),
    };
    assert(ft_evals.view() == witness.evals_view());
    let ft_prefix = match ft_eval0_prefix_circuit(
        &env,
        params.shifts.as_slice(),
        &ft_evals,
        witness.public_evals.0.as_slice(),
    ) {
        None => return None,
        Some(v) => v,
    };
    let token_env = PolishEnv {
        domain: match &domain {
            FinalizeDomain::Fixed(d) => PolishDomain::Fixed(*d),
            _ => PolishDomain::Selected {
                omegas: env.omegas,
                zeta_to_n_minus_1: env.zeta_to_n_minus_1,
            },
        },
        endo_coefficient: params.endo,
        mds: params.mds,
        zk_rows: ZK_ROWS as u64,
        pt: witness.zeta,
        challenges: Challenges {
            alpha: witness.alpha,
            beta: witness.beta,
            gamma: witness.gamma,
            joint_combiner: zero(),
        },
        evals: &witness.evals,
    };
    proof {
        assert(token_env.view() == params0.token_env(*witness));
    }
    let constant_term = match eval_polish(params.tokens.as_slice(), &token_env) {
        None => return None,
        Some(v) => v,
    };
    let ft_eval0 = ft_prefix.sub(&constant_term);
    let mut entries: Vec<(F, F)> = Vec::new();
    entries.push((witness.public_evals.0[0], witness.public_evals.1[0]));
    entries.push((ft_eval0, witness.ft_eval1));
    append(&mut entries, columns.as_slice());
    let sponge_inputs = witness.sponge_inputs(shift);
    let core = finalize_core_with_mask(
        &sponge_inputs,
        squeezed,
        &witness.xi,
        masked_entries.as_slice(),
        entries.as_slice(),
        to_field,
    );
    proof {
        let old_pairs = kept(mask_bits(masked_entries@), mask_pairs(masked_entries@));
        assert(pair_residues(old_pairs + entries@) =~= pair_residues(old_pairs) + pair_residues(
            entries@,
        ));
        assert(pair_residues(old_pairs + entries@) =~= witness.cip_entries(
            params0.zetaw(*witness),
            params0.ft_eval0(*witness),
        ));
    }
    let cip_claimed = shift.to_field(&witness.cip_repr);
    let cip_correct = equal(&core.combined_inner_product, &cip_claimed);
    let mut challenges: Vec<F> = Vec::new();
    let mut i: usize = 0;
    while i < witness.bulletproof_challenges.len()
        invariant
            i <= witness.bulletproof_challenges@.len(),
            challenges@.len() == i,
            forall|x: F| call_requires(*to_field, (x,)),
            forall|k: int|
                0 <= k < i ==> call_ensures(
                    *to_field,
                    (witness.bulletproof_challenges@[k],),
                    #[trigger] challenges@[k],
                ),
        decreases witness.bulletproof_challenges.len() - i,
    {
        challenges.push(to_field(witness.bulletproof_challenges[i]));
        i = i + 1;
    }
    let b_derived = b_actual(challenges.as_slice(), &witness.zeta, &zetaw, &core.r_field);
    let b_claimed = shift.to_field(&witness.b_repr);
    let b_correct = equal(&b_derived, &b_claimed);
    let perm_derived = perm_scalar_circuit(&env, &ft_evals);
    let perm_claimed = shift.to_field(&witness.perm_repr);
    let perm_correct = equal(&perm_derived, &perm_claimed);
    let finalized = finalize_all(
        core.xi_correct,
        &core.combined_inner_product,
        &cip_claimed,
        &b_derived,
        &b_claimed,
        &perm_derived,
        &perm_claimed,
    );
    Some(
        FinalizedDeferred {
            finalized,
            challenges,
            r_challenge: core.r_challenge,
            xi_field: core.xi_field,
            r_field: core.r_field,
            combined_inner_product: core.combined_inner_product,
            xi_correct: core.xi_correct,
            cip_correct,
            b_correct,
            perm_correct,
        },
    )
}

/// Finalizes another proof's deferred values: the transcript's two squeezes, then
/// the four checks on the values re-derived from the witness.
pub fn finalize_deferred<'a, F: FftField, H: Fn(&Vec<SpongeOp<F>>) -> F, E: Fn(F) -> F>(
    params: FinalizeParams<'a, F>,
    witness: &FinalizeWitness<F>,
    sponge: &H,
    to_field: &E,
) -> (r: Option<FinalizedDeferred<F>>)
    requires
        params.wf(),
        witness.wf(),
        params.shifts@.len() <= witness.evals.w@.len(),
        forall|v: &Vec<SpongeOp<F>>| call_requires(*sponge, (v,)),
        forall|x: F| call_requires(*to_field, (x,)),
    ensures
        exists|inputs: FrSpongeInputs<F>, first: F, second: F|
            {
                &&& witness.are_sponge_inputs(params.shift, inputs)
                &&& #[trigger] squeezed_from(inputs, *sponge, first, second)
                &&& deferred_outcome(params, *witness, (first, second), *to_field, r)
            },
{
    let inputs = witness.sponge_inputs(params.shift);
    let squeezed = squeeze_transcript(&inputs, sponge);
    assert(squeezed_from(inputs, *sponge, squeezed.0, squeezed.1));
    finalize_squeezed(params, witness, squeezed, to_field)
}

/// The constant term is taken away: `ft(zeta)` and the linearization's constant
/// term add up to the part of the permutation argument.
pub proof fn the_constant_term_is_taken_away<'a, F: FftField>(
    params: FinalizeParams<'a, F>,
    w: FinalizeWitness<F>,
    constant: int,
)
    requires
        params.constant_term(w) == Some(constant),
    ensures
        fadd::<F>(params.ft_eval0(w), constant) == ft_eval0_prefix::<F>(
            params.scalars(w),
            residues(params.shifts@),
            w.evals_view(),
            residues(w.public_evals.0@),
        ),
{
    let prefix = ft_eval0_prefix::<F>(
        params.scalars(w),
        residues(params.shifts@),
        w.evals_view(),
        residues(w.public_evals.0@),
    );
    F::lemma_modulus();
    assert(0 <= prefix < F::modulus());
    lemma_differences_make_up::<F>(prefix, constant);
}

/// A constant term that is higher by a literal lowers `ft(zeta)` by it.
pub proof fn a_higher_constant_term_lowers_ft<'a, F: FftField>(
    lower: FinalizeParams<'a, F>,
    higher: FinalizeParams<'a, F>,
    w: FinalizeWitness<F>,
    k: F,
)
    requires
        lower.constant_term(w) is Some,
        higher.tokens@ == lower.tokens@.push(
            PolishToken::Constant(ConstantTerm::Literal(k)),
        ).push(PolishToken::Add),
        higher.domain == lower.domain,
        higher.srs_log2 == lower.srs_log2,
        higher.endo == lower.endo,
        higher.shifts@ == lower.shifts@,
        higher.mds@ == lower.mds@,
    ensures
        fadd::<F>(higher.ft_eval0(w), k.view()) == lower.ft_eval0(w),
{
    let c = lower.constant_term(w)->0;
    assert(higher.token_env(w) == lower.token_env(w));
    the_last_operator_acts_on_the_value(lower.token_env(w), lower.tokens@, c, k);
    let prefix = ft_eval0_prefix::<F>(
        lower.scalars(w),
        residues(lower.shifts@),
        w.evals_view(),
        residues(w.public_evals.0@),
    );
    lemma_operands_may_be_reduced::<F>(prefix, c + k.view());
    lemma_operands_may_be_reduced::<F>(prefix - (c + k.view()), k.view());
}

/// The constant term is evaluated where the proof is: at its `zeta`, with its
/// challenges and evaluations, the parameters' coefficient and matrix, three
/// zero-knowledge rows and no joint combiner.
pub proof fn the_constant_term_is_evaluated_at_zeta<'a, F: FftField>(
    params: FinalizeParams<'a, F>,
    w: FinalizeWitness<F>,
)
    ensures
        ({
            let env = params.token_env(w);
            &&& env.pt == w.zeta.view()
            &&& env.challenges.alpha == w.alpha.view()
            &&& env.challenges.beta == w.beta.view()
            &&& env.challenges.gamma == w.gamma.view()
            &&& env.challenges.joint_combiner == 0
            &&& env.endo_coefficient == params.endo.view()
            &&& env.mds == params.mds@
            &&& env.zk_rows == 3
            &&& env.evals == w.evals
            &&& params.domain matches FinalizeDomain::Fixed(d) ==> env.domain
                == (DomainView::Fixed { size: d.size as nat, group_gen: d.group_gen.view() })
            &&& !(params.domain is Fixed) ==> env.domain == (DomainView::Selected {
                omegas: params.scalars(w).omegas,
                zeta_to_n_minus_1: params.domain.vanishing(w.zeta.view()),
            })
            &&& params.scalars(w).zeta == w.zeta.view()
            &&& params.scalars(w).beta == w.beta.view()
            &&& params.scalars(w).gamma == w.gamma.view()
            &&& params.scalars(w).alpha_pows[1] == fpow::<F>(w.alpha.view(), 1)
            &&& params.scalars(w).srs_length_log2 == params.srs_log2
            &&& params.zetaw(w) == (params.domain.generator() * w.zeta.view()) % F::modulus()
        }),
{
}

/// Every evaluation is combined, once, in the order of the commitments: the old
/// proofs' polynomials that are kept, the public input, the linearization, the
/// permutation, the six selectors by name, the witness columns, the coefficients
/// and the permutation columns; each with its value at `zeta` first.
pub proof fn every_evaluation_has_its_place<F: PrimeField>(
    w: FinalizeWitness<F>,
    zetaw: int,
    ft_eval0: int,
)
    ensures
        ({
            let all = w.cip_entries(zetaw, ft_eval0);
            let a = w.old_entries(w.zeta.view(), zetaw).len() as int;
            let e = w.evals;
            let c = a + 9 + e.w@.len();
            let s = c + e.coefficients@.len();
            &&& all.len() == s + e.s@.len()
            &&& all.take(a) == w.old_entries(w.zeta.view(), zetaw)
            &&& all[a] == (w.public_evals.0@[0].view(), w.public_evals.1@[0].view())
            &&& all[a + 1] == (ft_eval0, w.ft_eval1.view())
            &&& all[a + 2] == (e.z.0@[0].view(), e.z.1@[0].view())
            &&& all[a + 3] == (e.generic_selector.0@[0].view(), e.generic_selector.1@[0].view())
            &&& all[a + 4] == (e.poseidon_selector.0@[0].view(), e.poseidon_selector.1@[0].view())
            &&& all[a + 5] == (
                e.complete_add_selector.0@[0].view(),
                e.complete_add_selector.1@[0].view(),
            )
            &&& all[a + 6] == (e.mul_selector.0@[0].view(), e.mul_selector.1@[0].view())
            &&& all[a + 7] == (e.emul_selector.0@[0].view(), e.emul_selector.1@[0].view())
            &&& all[a + 8] == (
                e.endomul_scalar_selector.0@[0].view(),
                e.endomul_scalar_selector.1@[0].view(),
            )
            &&& forall|i: int|
                #![trigger e.w@[i]]
                0 <= i < e.w@.len() ==> all[a + 9 + i] == (
                    e.w@[i].0@[0].view(),
                    e.w@[i].1@[0].view(),
                )
            &&& forall|i: int|
                #![trigger e.coefficients@[i]]
                0 <= i < e.coefficients@.len() ==> all[c + i] == (
                    e.coefficients@[i].0@[0].view(),
                    e.coefficients@[i].1@[0].view(),
                )
            &&& forall|i: int|
                #![trigger e.s@[i]]
                0 <= i < e.s@.len() ==> all[s + i] == (
                    e.s@[i].0@[0].view(),
                    e.s@[i].1@[0].view(),
                )
        }),
{
    let all = w.cip_entries(zetaw, ft_eval0);
    let old_part = w.old_entries(w.zeta.view(), zetaw);
    assert(all.take(old_part.len() as int) =~= old_part);
}

/// Without a mask every old proof counts, with one those whose bit is set, each
/// by its challenge polynomial at `zeta` and at the next point.
pub proof fn old_proofs_count_by_their_polynomials<F: PrimeField>(
    w: FinalizeWitness<F>,
    zeta: int,
    zetaw: int,
    i: int,
)
    requires
        0 <= i < w.prev_challenges@.len(),
    ensures
        w.prev_challenge_mask is None ==> {
            &&& w.old_entries(zeta, zetaw).len() == w.prev_challenges@.len()
            &&& w.old_entries(zeta, zetaw)[i].0 == challenge_polynomial::<F>(
                residues(w.prev_challenges@[i]@),
                zeta,
            )
            &&& w.old_entries(zeta, zetaw)[i].1 == challenge_polynomial::<F>(
                residues(w.prev_challenges@[i]@),
                zetaw,
            )
        },
        w.prev_challenge_mask matches Some(mask) ==> w.old_entries(zeta, zetaw) == kept(
            mask@,
            Seq::new(
                w.prev_challenges@.len(),
                |j: int|
                    (
                        challenge_polynomial::<F>(residues(w.prev_challenges@[j]@), zeta),
                        challenge_polynomial::<F>(residues(w.prev_challenges@[j]@), zetaw),
                    ),
            ),
        ),
{
}

/// `b` is the challenge polynomial's value at the first point plus `r` times that
/// at the second, both as sums over the coefficients.
pub proof fn b_is_taken_at_both_points<F: PrimeField>(
    chals: Seq<int>,
    zeta: int,
    zetaw: int,
    r: int,
)
    ensures
        b_value::<F>(chals, zeta, zetaw, r) == (polynomial_at::<F>(
            challenge_coefficients::<F>(chals),
            zeta,
        ) + r * polynomial_at::<F>(challenge_coefficients::<F>(chals), zetaw)) % F::modulus(),
{
    coefficients_give_the_challenge_polynomial::<F>(chals, zeta);
    coefficients_give_the_challenge_polynomial::<F>(chals, zetaw);
    let h = polynomial_at::<F>(challenge_coefficients::<F>(chals), zeta);
    let hw = polynomial_at::<F>(challenge_coefficients::<F>(chals), zetaw);
    lemma_operands_may_be_reduced::<F>(h, r * hw);
}

/// Both sides of the cycle read a shifted value alike: what is recovered here is
/// the scalar that the curve's side multiplies by, in either representation.
pub proof fn both_sides_read_shifted_values_alike<F: PrimeField>(n: F, odd: bool)
    ensures
        ShiftKind::Type1.spec_to_field::<F>(n.view()) == ShiftedScalar::Type1(n).scalar::<F>(255),
        ShiftKind::Type1.spec_to_field::<F>(n.view()) == (2 * n.view() + pow(2, 255) + 1)
            % F::modulus(),
        ShiftKind::Type2.spec_to_field::<F>(
            2 * n.view() + if odd {
                1int
            } else {
                0
            },
        ) == ShiftedScalar::Type2(n, odd).scalar::<F>(255),
        ShiftKind::Type2.spec_to_field::<F>(n.view()) == (n.view() + pow(2, 255)) % F::modulus(),
{
    F::lemma_canonical(n);
    let x = n.view();
    let p = pow(2, 255);
    shifted_values_stand_for_scalars::<F, F>(n, odd, 255);
    lemma_operands_may_be_reduced::<F>(p, 1);
    lemma_operands_may_be_reduced::<F>(x + x, p + 1);
    lemma_operands_may_be_reduced::<F>(x, p);
    lemma_operands_may_be_reduced::<F>(
        2 * x + if odd {
            1int
        } else {
            0
        },
        p,
    );
}

/// The resampled challenges and the comparison with the claim: `r` is the low 128
/// bits of the second squeeze, `xi` is right if and only if it is the low 128
/// bits of the first, and the inner product combines both points by `xi` and `r`.
pub proof fn the_core_is_resampled<F: PrimeField, E: Fn(F) -> F>(
    core: FinalizeCore<F>,
    squeezed: (F, F),
    claimed_xi: F,
    entries: Seq<(int, int)>,
    to_field: E,
)
    requires
        core_spec(core, squeezed, claimed_xi, entries, to_field),
    ensures
        core.r_challenge.view() == squeezed.1.view()
            % 0x1_0000_0000_0000_0000_0000_0000_0000_0000int,
        core.xi_correct <==> claimed_xi.view() == squeezed.0.view()
            % 0x1_0000_0000_0000_0000_0000_0000_0000_0000int,
        call_ensures(to_field, (claimed_xi,), core.xi_field),
        call_ensures(to_field, (core.r_challenge,), core.r_field),
        core.combined_inner_product.view() == fadd::<F>(
            polynomial_at::<F>(firsts(entries), core.xi_field.view()),
            fmul::<F>(
                core.r_field.view(),
                polynomial_at::<F>(seconds(entries), core.xi_field.view()),
            ),
        ),
{
    the_inner_product_combines_both_points::<F>(
        core.xi_field.view(),
        core.r_field.view(),
        entries,
    );
}

/// What finalizing derives, and that all of it counts: the challenges from the
/// squeezes, the inner product over every entry at both points, `b`, the
/// permutation scalar; the outcome is the four comparisons together.
pub proof fn finalizing_compares_all_four<'a, F: FftField, E: Fn(F) -> F>(
    params: FinalizeParams<'a, F>,
    witness: FinalizeWitness<F>,
    squeezed: (F, F),
    to_field: E,
    out: FinalizedDeferred<F>,
    i: int,
)
    requires
        deferred_outcome(params, witness, squeezed, to_field, Some(out)),
    ensures
        out.r_challenge.view() == squeezed.1.view()
            % 0x1_0000_0000_0000_0000_0000_0000_0000_0000int,
        out.xi_correct <==> witness.xi.view() == squeezed.0.view()
            % 0x1_0000_0000_0000_0000_0000_0000_0000_0000int,
        call_ensures(to_field, (witness.xi,), out.xi_field),
        call_ensures(to_field, (out.r_challenge,), out.r_field),
        out.challenges@.len() == witness.bulletproof_challenges@.len(),
        0 <= i < out.challenges@.len() ==> call_ensures(
            to_field,
            (witness.bulletproof_challenges@[i],),
            out.challenges@[i],
        ),
        ({
            let entries = witness.cip_entries(params.zetaw(witness), params.ft_eval0(witness));
            out.combined_inner_product.view() == fadd::<F>(
                polynomial_at::<F>(firsts(entries), out.xi_field.view()),
                fmul::<F>(
                    out.r_field.view(),
                    polynomial_at::<F>(seconds(entries), out.xi_field.view()),
                ),
            )
        }),
        out.cip_correct <==> params.shift.spec_to_field::<F>(witness.cip_repr.view())
            == out.combined_inner_product.view(),
        out.b_correct <==> params.shift.spec_to_field::<F>(witness.b_repr.view()) == (
        polynomial_at::<F>(
            challenge_coefficients::<F>(residues(out.challenges@)),
            witness.zeta.view(),
        ) + out.r_field.view() * polynomial_at::<F>(
            challenge_coefficients::<F>(residues(out.challenges@)),
            params.zetaw(witness),
        )) % F::modulus(),
        out.perm_correct <==> params.shift.spec_to_field::<F>(witness.perm_repr.view())
            == perm_scalar::<F>(params.scalars(witness), witness.evals_view()),
        out.finalized <==> out.xi_correct && out.cip_correct && out.b_correct && out.perm_correct,
{
    the_inner_product_combines_both_points::<F>(
        out.xi_field.view(),
        out.r_field.view(),
        witness.cip_entries(params.zetaw(witness), params.ft_eval0(witness)),
    );
    b_is_taken_at_both_points::<F>(
        residues(out.challenges@),
        witness.zeta.view(),
        params.zetaw(witness),
        out.r_field.view(),
    );
}

/// The permutation argument reads each column's single chunk at its own point.
pub proof fn the_permutation_reads_first_chunks<F: PrimeField>(w: FinalizeWitness<F>, i: int)
    ensures
        w.evals_view().w.len() == w.evals.w@.len(),
        w.evals_view().s.len() == w.evals.s@.len(),
        0 <= i < w.evals.w@.len() ==> w.evals_view().w[i] == w.evals.w@[i].0@[0].view()
            && w.evals_view().w_omega[i] == w.evals.w@[i].1@[0].view(),
        0 <= i < w.evals.s@.len() ==> w.evals_view().s[i] == w.evals.s@[i].0@[0].view()
            && w.evals_view().s_omega[i] == w.evals.s@[i].1@[0].view(),
        w.evals_view().z == w.evals.z.0@[0].view(),
        w.evals_view().z_omega == w.evals.z.1@[0].view(),
{
}

/// The transcript that finalizing replays is the witness's own, and the first
/// representation alone has both halves of `xi` range-checked.
pub proof fn the_replayed_transcript_is_the_proofs_own<'a, F: PrimeField>(
    w: FinalizeWitness<F>,
    shift: ShiftKind,
    r: FrSpongeInputs<'a, F>,
)
    requires
        w.are_sponge_inputs(shift, r),
    ensures
        r.digest == w.digest,
        *r.prev_challenges == w.prev_challenges,
        *r.prev_challenge_mask == w.prev_challenge_mask,
        r.ft_eval1 == w.ft_eval1,
        r.public_evals.0 == w.public_evals.0,
        r.public_evals.1 == w.public_evals.1,
        *r.evals == w.evals,
        r.xi_constrain_low_bits <==> shift is Type1,
{
}

/// Finalizing derives something if and only if the domain exists, its generator
/// is no zero, `zeta` is off the two boundary points, and the constant term has a
/// value.
pub proof fn derivable_means_all_four<'a, F: FftField>(
    params: FinalizeParams<'a, F>,
    w: FinalizeWitness<F>,
)
    ensures
        params.derivable(w) <==> {
            &&& params.domain.exists_domain()
            &&& params.domain.generator() != 0
            &&& ((w.zeta.view() - params.scalars(w).omegas.omega_to_zk) * (w.zeta.view() - 1))
                % F::modulus() != 0
            &&& params.token_env(w).value(params.tokens@) is Some
        },
{
    crate::ft_eval_circuit::the_boundary_in_plain_integers::<F>(
        params.scalars(w),
        w.evals_view(),
    );
}

} // verus!
