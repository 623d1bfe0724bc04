//! Evaluation of a linearization's constant term, stored as a stream of tokens
//! in reverse Polish notation.

use vstd::prelude::*;

use crate::domain::Domain;
use crate::field::{
    div, fadd, fdiv, finv, fmul, fpow, fsub, lemma_inverse_is_unique, one, residues, PrimeField,
};
use crate::fr_sponge::{AbsorbEvalsVar, PointEvalVar};
use crate::gates::{Column, CurrOrNext, GateType};
use crate::ring::{
    lemma_mul_units, lemma_pow_nonzero, lemma_pow_small, lemma_pow_step,
    lemma_results_are_canonical, lemma_square_and_multiply,
};

verus! {

/// `base^exp`, by square-and-multiply.
pub fn pow_circuit<F: PrimeField>(base: &F, exp: u64) -> (r: F)
    ensures
        r.view() == fpow::<F>(base.view(), exp as nat),
{
    let mut acc: F = one();
    let mut sq: F = *base;
    let mut e: u64 = exp;
    proof {
        lemma_results_are_canonical::<F>(base.view(), 0, exp as nat);
        lemma_mul_units::<F>(fpow::<F>(base.view(), exp as nat));
    }
    while e > 0
        invariant
            fmul::<F>(acc.view(), fpow::<F>(sq.view(), e as nat)) == fpow::<F>(
                base.view(),
                exp as nat,
            ),
        decreases e,
    {
        proof {
            F::lemma_canonical(acc);
            F::lemma_canonical(sq);
            lemma_square_and_multiply::<F>(acc.view(), sq.view(), e as nat);
            lemma_pow_small::<F>(sq.view());
            lemma_pow_small::<F>(fmul::<F>(sq.view(), sq.view()));
        }
        if e % 2 == 1 {
            acc = acc.mul(&sq);
        }
        e = e / 2;
        if e > 0 {
            sq = sq.mul(&sq);
        }
    }
    proof {
        F::lemma_canonical(acc);
        lemma_pow_small::<F>(sq.view());
        lemma_mul_units::<F>(acc.view());
    }
    acc
}

/// `base` squared.
pub fn square_circuit<F: PrimeField>(base: &F) -> (r: F)
    ensures
        r.view() == fmul::<F>(base.view(), base.view()),
{
    base.mul(base)
}

/// `prod_{j < count} (pt - gen^{start + j})`.
pub open spec fn vanishing_product<F: PrimeField>(pt: int, gen: int, start: nat, count: nat) -> int
    decreases count,
{
    if count == 0 {
        1
    } else {
        fmul::<F>(
            vanishing_product::<F>(pt, gen, start, (count - 1) as nat),
            fsub::<F>(pt, fpow::<F>(gen, (start + count - 1) as nat)),
        )
    }
}

/// The polynomial that vanishes on the last `i` rows of the domain, at `pt`:
/// `prod_{j < i} (pt - omega^{n - i + j})`.
fn vanishes_on_last_n_rows<F: PrimeField>(domain: &Domain<F>, i: u64, pt: &F) -> (r: F)
    requires
        i <= domain.size,
    ensures
        r.view() == vanishing_product::<F>(
            pt.view(),
            domain.group_gen.view(),
            (domain.size - i) as nat,
            i as nat,
        ),
{
    if i == 0 {
        return one();
    }
    let ghost gen = domain.group_gen.view();
    let ghost start = (domain.size - i) as nat;
    let mut term = pow_circuit(&domain.group_gen, domain.size - i);
    let mut acc = pt.sub(&term);
    proof {
        F::lemma_canonical(acc);
        lemma_mul_units::<F>(acc.view());
        assert(vanishing_product::<F>(pt.view(), gen, start, 0) == 1);
    }
    let mut j: u64 = 1;
    while j < i
        invariant
            1 <= j <= i,
            gen == domain.group_gen.view(),
            start == domain.size - i,
            i <= domain.size,
            term.view() == fpow::<F>(gen, (start + j - 1) as nat),
            acc.view() == vanishing_product::<F>(pt.view(), gen, start, j as nat),
        decreases i - j,
    {
        proof {
            F::lemma_canonical(domain.group_gen);
            lemma_pow_step::<F>(gen, (start + j - 1) as nat);
        }
        term = term.mul(&domain.group_gen);
        let factor = pt.sub(&term);
        acc = acc.mul(&factor);
        j = j + 1;
    }
    acc
}

/// `gen^offset`, for offsets of either sign.
pub open spec fn omega_power<F: PrimeField>(gen: int, offset: int) -> int {
    if offset < 0 {
        finv::<F>(fpow::<F>(gen, (-offset) as nat))
    } else {
        fpow::<F>(gen, offset as nat)
    }
}

/// `(pt^n - 1) / (pt - omega^offset)`; none at the pole.
fn unnormalized_lagrange_basis<F: PrimeField>(domain: &Domain<F>, offset: i64, pt: &F) -> (r: Option<
    F,
>)
    requires
        domain.wf(),
        offset > i64::MIN,
    ensures
        r is None <==> pt.view() == omega_power::<F>(domain.group_gen.view(), offset as int),
        r matches Some(v) ==> v.view() == fdiv::<F>(
            fsub::<F>(fpow::<F>(pt.view(), domain.size as nat), 1),
            fsub::<F>(pt.view(), omega_power::<F>(domain.group_gen.view(), offset as int)),
        ),
{
    let omega_i: F = if offset < 0 {
        let up = pow_circuit(&domain.group_gen, (-offset) as u64);
        proof {
            lemma_pow_nonzero::<F>(
                domain.group_gen.view(),
                domain.size as nat,
                (-offset) as nat,
            );
        }
        let inv = up.inverse().unwrap();
        proof {
            lemma_inverse_is_unique::<F>(up.view(), inv.view());
        }
        inv
    } else {
        pow_circuit(&domain.group_gen, offset as u64)
    };
    let numerator = pow_circuit(pt, domain.size).sub(&one());
    let denominator = pt.sub(&omega_i);
    proof {
        lemma_difference_is_zero::<F>(*pt, omega_i);
    }
    div(&numerator, &denominator)
}

/// A difference is zero exactly when the two elements are equal.
pub proof fn lemma_difference_is_zero<F: PrimeField>(a: F, b: F)
    ensures
        fsub::<F>(a.view(), b.view()) == 0 <==> a.view() == b.view(),
{
    F::lemma_modulus();
    F::lemma_canonical(a);
    F::lemma_canonical(b);
    let p = F::modulus();
    let d = a.view() - b.view();
    if d >= 0 {
        vstd::arithmetic::div_mod::lemma_small_mod(d as nat, p as nat);
    } else {
        vstd::arithmetic::div_mod::lemma_mod_multiples_vanish(1, d, p);
        vstd::arithmetic::div_mod::lemma_small_mod((d + p) as nat, p as nat);
    }
}

/// The challenges a linearization refers to.
#[derive(Clone, Copy, Debug, PartialEq, Eq, Structural)]
pub enum ChallengeTerm {
    Alpha,
    Beta,
    Gamma,
    JointCombiner,
}

/// The values of the challenges.
#[derive(Clone, Copy, Debug)]
pub struct Challenges<F: PrimeField> {
    pub alpha: F,
    pub beta: F,
    pub gamma: F,
    pub joint_combiner: F,
}

/// The residues of the challenges.
pub struct ChallengesView {
    pub alpha: int,
    pub beta: int,
    pub gamma: int,
    pub joint_combiner: int,
}

impl ChallengesView {
    /// The residue of a challenge.
    pub open spec fn value(self, term: ChallengeTerm) -> int {
        match term {
            ChallengeTerm::Alpha => self.alpha,
            ChallengeTerm::Beta => self.beta,
            ChallengeTerm::Gamma => self.gamma,
            ChallengeTerm::JointCombiner => self.joint_combiner,
        }
    }
}

impl<F: PrimeField> Challenges<F> {
    /// The residues.
    pub open spec fn view(&self) -> ChallengesView {
        ChallengesView {
            alpha: self.alpha.view(),
            beta: self.beta.view(),
            gamma: self.gamma.view(),
            joint_combiner: self.joint_combiner.view(),
        }
    }

    /// The value of a challenge.
    pub fn get(&self, term: ChallengeTerm) -> (r: F)
        ensures
            r.view() == self.view().value(term),
    {
        match term {
            ChallengeTerm::Alpha => self.alpha,
            ChallengeTerm::Beta => self.beta,
            ChallengeTerm::Gamma => self.gamma,
            ChallengeTerm::JointCombiner => self.joint_combiner,
        }
    }
}

/// The constants a linearization refers to.
#[derive(Clone, Copy, Debug)]
pub enum ConstantTerm<F: PrimeField> {
    EndoCoefficient,
    Mds { row: usize, col: usize },
    Literal(F),
}

/// A row counted from the first row, or from the first zero-knowledge row.
#[derive(Clone, Copy, Debug, PartialEq, Eq, Structural)]
pub struct RowOffset {
    pub zk_rows: bool,
    pub offset: i32,
}

/// One token of the stream.
#[derive(Clone, Copy, Debug)]
pub enum PolishToken<F: PrimeField> {
    Challenge(ChallengeTerm),
    Constant(ConstantTerm<F>),
    VanishesOnZeroKnowledgeAndPreviousRows,
    UnnormalizedLagrangeBasis(RowOffset),
    Cell { col: Column, row: CurrOrNext },
    Dup,
    Pow(u64),
    Add,
    Sub,
    Mul,
    Store,
    Load(usize),
    /// Skips tokens where a feature is on; not evaluated here.
    SkipIf(usize),
    /// Skips tokens where a feature is off; not evaluated here.
    SkipIfNot(usize),
}

/// The powers of the generator's inverse that a verifier precomputes.
#[derive(Clone, Copy, Debug)]
pub struct DomainOmegas<F: PrimeField> {
    pub generator: F,
    /// `omega^{-1}`.
    pub omega_to_minus_1: F,
    /// `omega^{-2}`.
    pub omega_to_zk_plus_1: F,
    /// `omega^{-3}`.
    pub omega_to_zk: F,
}

/// The residues of the powers of omega.
pub struct OmegasView {
    pub generator: int,
    pub omega_to_minus_1: int,
    pub omega_to_zk_plus_1: int,
    pub omega_to_zk: int,
}

impl<F: PrimeField> DomainOmegas<F> {
    /// The residues.
    pub open spec fn view(&self) -> OmegasView {
        OmegasView {
            generator: self.generator.view(),
            omega_to_minus_1: self.omega_to_minus_1.view(),
            omega_to_zk_plus_1: self.omega_to_zk_plus_1.view(),
            omega_to_zk: self.omega_to_zk.view(),
        }
    }
}

/// The evaluation domain: known, or selected among several, in which case its
/// powers of omega and `zeta^n - 1` come precomputed.
#[derive(Clone, Copy, Debug)]
pub enum PolishDomain<F: PrimeField> {
    Fixed(Domain<F>),
    Selected { omegas: DomainOmegas<F>, zeta_to_n_minus_1: F },
}

/// The residues of an evaluation domain.
pub enum DomainView {
    Fixed { size: nat, group_gen: int },
    Selected { omegas: OmegasView, zeta_to_n_minus_1: int },
}

impl<F: PrimeField> PolishDomain<F> {
    /// The residues.
    pub open spec fn view(&self) -> DomainView {
        match self {
            PolishDomain::Fixed(d) => DomainView::Fixed {
                size: d.size as nat,
                group_gen: d.group_gen.view(),
            },
            PolishDomain::Selected { omegas, zeta_to_n_minus_1 } => DomainView::Selected {
                omegas: omegas.view(),
                zeta_to_n_minus_1: zeta_to_n_minus_1.view(),
            },
        }
    }
}

/// What the tokens refer to.
pub struct PolishEnv<'a, F: PrimeField> {
    /// The evaluation domain.
    pub domain: PolishDomain<F>,
    /// The endomorphism coefficient.
    pub endo_coefficient: F,
    /// The Poseidon matrix.
    pub mds: &'a Vec<Vec<F>>,
    /// Number of zero-knowledge rows.
    pub zk_rows: u64,
    /// The evaluation point.
    pub pt: F,
    /// The challenges.
    pub challenges: Challenges<F>,
    /// The column evaluations.
    pub evals: &'a AbsorbEvalsVar<F>,
}

/// A column's evaluations, for the columns that have any.
pub open spec fn column_point<F: PrimeField>(evals: AbsorbEvalsVar<F>, col: Column) -> Option<
    PointEvalVar<F>,
> {
    match col {
        Column::Witness(i) => if i < evals.w@.len() {
            Some(evals.w@[i as int])
        } else {
            None
        },
        Column::Z => Some(evals.z),
        Column::Index(GateType::Generic) => Some(evals.generic_selector),
        Column::Index(GateType::Poseidon) => Some(evals.poseidon_selector),
        Column::Index(GateType::CompleteAdd) => Some(evals.complete_add_selector),
        Column::Index(GateType::VarBaseMul) => Some(evals.mul_selector),
        Column::Index(GateType::EndoMul) => Some(evals.emul_selector),
        Column::Index(GateType::EndoMulScalar) => Some(evals.endomul_scalar_selector),
        Column::Index(_) => None,
        Column::Coefficient(i) => if i < evals.coefficients@.len() {
            Some(evals.coefficients@[i as int])
        } else {
            None
        },
        Column::Permutation(i) => if i < evals.s@.len() {
            Some(evals.s@[i as int])
        } else {
            None
        },
    }
}

/// A column's evaluations: the fixed selectors, and the witness, coefficient
/// and permutation columns that are there.
pub fn column_eval<'a, F: PrimeField>(evals: &'a AbsorbEvalsVar<F>, col: Column) -> (r: Option<
    &'a PointEvalVar<F>,
>)
    ensures
        r is None <==> column_point(*evals, col) is None,
        r matches Some(pe) ==> column_point(*evals, col) == Some(*pe),
{
    match col {
        Column::Witness(i) => if i < evals.w.len() {
            Some(&evals.w[i])
        } else {
            None
        },
        Column::Z => Some(&evals.z),
        Column::Index(GateType::Generic) => Some(&evals.generic_selector),
        Column::Index(GateType::Poseidon) => Some(&evals.poseidon_selector),
        Column::Index(GateType::CompleteAdd) => Some(&evals.complete_add_selector),
        Column::Index(GateType::VarBaseMul) => Some(&evals.mul_selector),
        Column::Index(GateType::EndoMul) => Some(&evals.emul_selector),
        Column::Index(GateType::EndoMulScalar) => Some(&evals.endomul_scalar_selector),
        Column::Index(_) => None,
        Column::Coefficient(i) => if i < evals.coefficients.len() {
            Some(&evals.coefficients[i])
        } else {
            None
        },
        Column::Permutation(i) => if i < evals.s.len() {
            Some(&evals.s[i])
        } else {
            None
        },
    }
}

/// What the tokens refer to, as residues.
pub struct EnvView<F: PrimeField> {
    pub domain: DomainView,
    pub endo_coefficient: int,
    pub mds: Seq<Vec<F>>,
    pub zk_rows: nat,
    pub pt: int,
    pub challenges: ChallengesView,
    pub evals: AbsorbEvalsVar<F>,
}

impl<F: PrimeField> EnvView<F> {
    /// The value of a cell: the first chunk at the row's point.
    pub open spec fn cell(self, col: Column, row: CurrOrNext) -> Option<int> {
        match column_point(self.evals, col) {
            None => None,
            Some(pe) => {
                let chunks = if row == CurrOrNext::Curr {
                    pe.0@
                } else {
                    pe.1@
                };
                if chunks.len() > 0 {
                    Some(chunks[0].view())
                } else {
                    None
                }
            },
        }
    }

    /// The value of a constant.
    pub open spec fn constant(self, term: ConstantTerm<F>) -> Option<int> {
        match term {
            ConstantTerm::EndoCoefficient => Some(self.endo_coefficient),
            ConstantTerm::Mds { row, col } => if row < self.mds.len() && col
                < self.mds[row as int]@.len() {
                Some(self.mds[row as int]@[col as int].view())
            } else {
                None
            },
            ConstantTerm::Literal(x) => Some(x.view()),
        }
    }

    /// The polynomial that vanishes on the zero-knowledge rows and the row
    /// before them. A selected domain has three zero-knowledge rows.
    pub open spec fn vanishing(self) -> Option<int> {
        match self.domain {
            DomainView::Fixed { size, group_gen } => if self.zk_rows + 1 <= size {
                Some(
                    vanishing_product::<F>(
                        self.pt,
                        group_gen,
                        (size - self.zk_rows - 1) as nat,
                        (self.zk_rows + 1) as nat,
                    ),
                )
            } else {
                None
            },
            DomainView::Selected { omegas, .. } => if self.zk_rows == 3 {
                let pt = self.pt;
                let fourth = fmul::<F>(omegas.omega_to_zk, omegas.omega_to_minus_1);
                Some(
                    fmul::<F>(
                        fmul::<F>(
                            fmul::<F>(
                                fsub::<F>(pt, fourth),
                                fsub::<F>(pt, omegas.omega_to_zk),
                            ),
                            fsub::<F>(pt, omegas.omega_to_zk_plus_1),
                        ),
                        fsub::<F>(pt, omegas.omega_to_minus_1),
                    ),
                )
            } else {
                None
            },
        }
    }

    /// The row that an offset stands for.
    pub open spec fn row(self, o: RowOffset) -> int {
        if o.zk_rows {
            o.offset - self.zk_rows
        } else {
            o.offset as int
        }
    }

    /// `omega^row` and the numerator of the Lagrange polynomial, where the
    /// domain knows them. A selected domain knows the rows `-4..=1`.
    pub open spec fn lagrange_parts(self, o: RowOffset) -> Option<(int, int)> {
        let row = self.row(o);
        match self.domain {
            DomainView::Fixed { size, group_gen } => Some(
                (
                    omega_power::<F>(group_gen, row),
                    fsub::<F>(fpow::<F>(self.pt, size), 1),
                ),
            ),
            DomainView::Selected { omegas, zeta_to_n_minus_1 } => {
                let numerator = zeta_to_n_minus_1;
                if row == 0 {
                    Some((1, numerator))
                } else if row == 1 {
                    Some((omegas.generator, numerator))
                } else if row == -1 {
                    Some((omegas.omega_to_minus_1, numerator))
                } else if row == -2 {
                    Some((omegas.omega_to_zk_plus_1, numerator))
                } else if row == -3 {
                    Some((omegas.omega_to_zk, numerator))
                } else if row == -4 {
                    Some(
                        (
                            fmul::<F>(omegas.omega_to_zk, omegas.omega_to_minus_1),
                            numerator,
                        ),
                    )
                } else {
                    None
                }
            },
        }
    }

    /// The unnormalized Lagrange polynomial of a row, away from its pole.
    pub open spec fn lagrange(self, o: RowOffset) -> Option<int> {
        match self.lagrange_parts(o) {
            None => None,
            Some((w, numerator)) => if self.pt == w {
                None
            } else {
                Some(fdiv::<F>(numerator, fsub::<F>(self.pt, w)))
            },
        }
    }

    /// The value that a token pushes without looking at the stack, where it has
    /// one; none at all for a token that works on the stack.
    pub open spec fn pushes(self, t: PolishToken<F>) -> Option<Option<int>> {
        match t {
            PolishToken::Challenge(term) => Some(Some(self.challenges.value(term))),
            PolishToken::Constant(term) => Some(self.constant(term)),
            PolishToken::VanishesOnZeroKnowledgeAndPreviousRows => Some(self.vanishing()),
            PolishToken::UnnormalizedLagrangeBasis(o) => Some(self.lagrange(o)),
            PolishToken::Cell { col, row } => Some(self.cell(col, row)),
            _ => None,
        }
    }

    /// One token: the stack and the cache after it, or nothing when the token
    /// cannot be evaluated there.
    pub open spec fn step(self, t: PolishToken<F>, stack: Seq<int>, cache: Seq<int>) -> Option<
        (Seq<int>, Seq<int>),
    > {
        match t {
            PolishToken::Dup => if stack.len() >= 1 {
                Some((stack.push(stack.last()), cache))
            } else {
                None
            },
            PolishToken::Pow(n) => if stack.len() >= 1 {
                Some((stack.drop_last().push(fpow::<F>(stack.last(), n as nat)), cache))
            } else {
                None
            },
            PolishToken::Add => if stack.len() >= 2 {
                Some(
                    (
                        stack.take(stack.len() - 2).push(
                            fadd::<F>(stack[stack.len() - 2], stack.last()),
                        ),
                        cache,
                    ),
                )
            } else {
                None
            },
            PolishToken::Sub => if stack.len() >= 2 {
                Some(
                    (
                        stack.take(stack.len() - 2).push(
                            fsub::<F>(stack[stack.len() - 2], stack.last()),
                        ),
                        cache,
                    ),
                )
            } else {
                None
            },
            PolishToken::Mul => if stack.len() >= 2 {
                Some(
                    (
                        stack.take(stack.len() - 2).push(
                            fmul::<F>(stack[stack.len() - 2], stack.last()),
                        ),
                        cache,
                    ),
                )
            } else {
                None
            },
            PolishToken::Store => if stack.len() >= 1 {
                Some((stack, cache.push(stack.last())))
            } else {
                None
            },
            PolishToken::Load(i) => if i < cache.len() {
                Some((stack.push(cache[i as int]), cache))
            } else {
                None
            },
            PolishToken::SkipIf(_) => None,
            PolishToken::SkipIfNot(_) => None,
            _ => match self.pushes(t) {
                Some(Some(v)) => Some((stack.push(v), cache)),
                _ => None,
            },
        }
    }

    /// The state after the tokens, from an empty stack and cache.
    pub open spec fn run(self, toks: Seq<PolishToken<F>>) -> Option<(Seq<int>, Seq<int>)>
        decreases toks.len(),
    {
        if toks.len() == 0 {
            Some((Seq::empty(), Seq::empty()))
        } else {
            match self.run(toks.drop_last()) {
                None => None,
                Some((stack, cache)) => self.step(toks.last(), stack, cache),
            }
        }
    }

    /// The value of a stream that leaves one value on the stack.
    pub open spec fn value(self, toks: Seq<PolishToken<F>>) -> Option<int> {
        match self.run(toks) {
            Some((stack, _)) => if stack.len() == 1 {
                Some(stack[0])
            } else {
                None
            },
            None => None,
        }
    }
}

impl<'a, F: PrimeField> PolishEnv<'a, F> {
    /// A known domain is one; the zero-knowledge rows are few.
    pub open spec fn wf(self) -> bool {
        &&& self.zk_rows <= i32::MAX
        &&& self.domain matches PolishDomain::Fixed(d) ==> d.wf()
    }

    /// The residues.
    pub open spec fn view(&self) -> EnvView<F> {
        EnvView {
            domain: self.domain.view(),
            endo_coefficient: self.endo_coefficient.view(),
            mds: self.mds@,
            zk_rows: self.zk_rows as nat,
            pt: self.pt.view(),
            challenges: self.challenges.view(),
            evals: *self.evals,
        }
    }

    fn eval_vanishing(&self) -> (r: Option<F>)
        requires
            self.wf(),
        ensures
            r is None <==> self.view().vanishing() is None,
            r matches Some(v) ==> self.view().vanishing() == Some(v.view()),
    {
        match &self.domain {
            PolishDomain::Fixed(d) => if self.zk_rows + 1 <= d.size {
                Some(vanishes_on_last_n_rows(d, self.zk_rows + 1, &self.pt))
            } else {
                None
            },
            PolishDomain::Selected { omegas, .. } => if self.zk_rows == 3 {
                let fourth = omegas.omega_to_zk.mul(&omegas.omega_to_minus_1);
                let acc = self.pt.sub(&fourth);
                let acc = acc.mul(&self.pt.sub(&omegas.omega_to_zk));
                let acc = acc.mul(&self.pt.sub(&omegas.omega_to_zk_plus_1));
                let acc = acc.mul(&self.pt.sub(&omegas.omega_to_minus_1));
                Some(acc)
            } else {
                None
            },
        }
    }

    fn eval_lagrange(&self, o: RowOffset) -> (r: Option<F>)
        requires
            self.wf(),
        ensures
            r is None <==> self.view().lagrange(o) is None,
            r matches Some(v) ==> self.view().lagrange(o) == Some(v.view()),
    {
        let row: i64 = if o.zk_rows {
            o.offset as i64 - self.zk_rows as i64
        } else {
            o.offset as i64
        };
        match &self.domain {
            PolishDomain::Fixed(d) => unnormalized_lagrange_basis(d, row, &self.pt),
            PolishDomain::Selected { omegas, zeta_to_n_minus_1 } => {
                let w: F = if row == 0 {
                    one()
                } else if row == 1 {
                    omegas.generator
                } else if row == -1 {
                    omegas.omega_to_minus_1
                } else if row == -2 {
                    omegas.omega_to_zk_plus_1
                } else if row == -3 {
                    omegas.omega_to_zk
                } else if row == -4 {
                    omegas.omega_to_zk.mul(&omegas.omega_to_minus_1)
                } else {
                    return None;
                };
                proof {
                    lemma_difference_is_zero::<F>(self.pt, w);
                }
                let denominator = self.pt.sub(&w);
                div(zeta_to_n_minus_1, &denominator)
            },
        }
    }

    fn eval_cell(&self, col: Column, row: CurrOrNext) -> (r: Option<F>)
        ensures
            r is None <==> self.view().cell(col, row) is None,
            r matches Some(v) ==> self.view().cell(col, row) == Some(v.view()),
    {
        match column_eval(self.evals, col) {
            None => None,
            Some(pe) => {
                let chunks = if row == CurrOrNext::Curr {
                    &pe.0
                } else {
                    &pe.1
                };
                if chunks.len() > 0 {
                    Some(chunks[0])
                } else {
                    None
                }
            },
        }
    }

    fn eval_constant(&self, term: ConstantTerm<F>) -> (r: Option<F>)
        ensures
            r is None <==> self.view().constant(term) is None,
            r matches Some(v) ==> self.view().constant(term) == Some(v.view()),
    {
        match term {
            ConstantTerm::EndoCoefficient => Some(self.endo_coefficient),
            ConstantTerm::Mds { row, col } => if row < self.mds.len() && col < self.mds[row].len() {
                Some(self.mds[row][col])
            } else {
                None
            },
            ConstantTerm::Literal(x) => Some(x),
        }
    }

    /// Evaluates one token in place; false when it cannot be evaluated.
    fn eval_step(&self, t: &PolishToken<F>, stack: &mut Vec<F>, cache: &mut Vec<F>) -> (ok: bool)
        requires
            self.wf(),
        ensures
            ok <==> self.view().step(*t, residues(old(stack)@), residues(old(cache)@)) is Some,
            ok ==> self.view().step(*t, residues(old(stack)@), residues(old(cache)@)) == Some(
                (residues(final(stack)@), residues(final(cache)@)),
            ),
    {
        let ghost s0 = stack@;
        let ghost c0 = cache@;
        let n = stack.len();
        match *t {
            PolishToken::Dup => {
                if n == 0 {
                    return false;
                }
                let x = stack[n - 1];
                stack.push(x);
                assert(residues(stack@) == residues(s0).push(residues(s0).last()));
            },
            PolishToken::Pow(e) => {
                if n == 0 {
                    return false;
                }
                let x = stack.pop().unwrap();
                stack.push(pow_circuit(&x, e));
                assert(residues(stack@) == residues(s0).drop_last().push(
                    fpow::<F>(residues(s0).last(), e as nat),
                ));
            },
            PolishToken::Add => {
                if n < 2 {
                    return false;
                }
                let y = stack.pop().unwrap();
                let x = stack.pop().unwrap();
                stack.push(x.add(&y));
                assert(residues(stack@) == residues(s0).take(n - 2).push(
                    fadd::<F>(residues(s0)[n - 2], residues(s0).last()),
                ));
            },
            PolishToken::Sub => {
                if n < 2 {
                    return false;
                }
                let y = stack.pop().unwrap();
                let x = stack.pop().unwrap();
                stack.push(x.sub(&y));
                assert(residues(stack@) == residues(s0).take(n - 2).push(
                    fsub::<F>(residues(s0)[n - 2], residues(s0).last()),
                ));
            },
            PolishToken::Mul => {
                if n < 2 {
                    return false;
                }
                let y = stack.pop().unwrap();
                let x = stack.pop().unwrap();
                stack.push(x.mul(&y));
                assert(residues(stack@) == residues(s0).take(n - 2).push(
                    fmul::<F>(residues(s0)[n - 2], residues(s0).last()),
                ));
            },
            PolishToken::Store => {
                if n == 0 {
                    return false;
                }
                let x = stack[n - 1];
                cache.push(x);
                assert(residues(cache@) == residues(c0).push(residues(s0).last()));
            },
            PolishToken::Load(i) => {
                if i >= cache.len() {
                    return false;
                }
                let x = cache[i];
                stack.push(x);
                assert(residues(stack@) == residues(s0).push(residues(c0)[i as int]));
            },
            PolishToken::SkipIf(_) => {
                return false;
            },
            PolishToken::SkipIfNot(_) => {
                return false;
            },
            _ => {
                let pushed = match *t {
                    PolishToken::Challenge(term) => Some(self.challenges.get(term)),
                    PolishToken::Constant(term) => self.eval_constant(term),
                    PolishToken::VanishesOnZeroKnowledgeAndPreviousRows => self.eval_vanishing(),
                    PolishToken::UnnormalizedLagrangeBasis(o) => self.eval_lagrange(o),
                    PolishToken::Cell { col, row } => self.eval_cell(col, row),
                    _ => None,
                };
                match pushed {
                    None => {
                        return false;
                    },
                    Some(v) => {
                        stack.push(v);
                        assert(residues(stack@) == residues(s0).push(v.view()));
                    },
                }
            },
        }
        true
    }
}

/// Evaluates a token stream. There is no value when a token finds too few
/// operands, refers to what the environment does not have, meets a pole or is
/// one of the feature tokens, or when more or fewer than one value is left.
pub fn eval_polish<'a, F: PrimeField>(toks: &[PolishToken<F>], env: &PolishEnv<'a, F>) -> (r: Option<
    F,
>)
    requires
        env.wf(),
    ensures
        r is None <==> env.view().value(toks@) is None,
        r matches Some(v) ==> env.view().value(toks@) == Some(v.view()),
{
    let mut stack: Vec<F> = Vec::new();
    let mut cache: Vec<F> = Vec::new();
    let mut i: usize = 0;
    assert(residues(stack@) == Seq::<int>::empty());
    assert(residues(cache@) == Seq::<int>::empty());
    while i < toks.len()
        invariant
            i <= toks.len(),
            env.wf(),
            env.view().run(toks@.take(i as int)) == Some((residues(stack@), residues(cache@))),
        decreases toks.len() - i,
    {
        proof {
            assert(toks@.take(i + 1).drop_last() == toks@.take(i as int));
            assert(toks@.take(i + 1).last() == toks@[i as int]);
        }
        let ok = env.eval_step(&toks[i], &mut stack, &mut cache);
        if !ok {
            proof {
                lemma_run_stays_undefined(env.view(), toks@, i + 1);
            }
            return None;
        }
        i = i + 1;
    }
    assert(toks@.take(i as int) == toks@);
    if stack.len() == 1 {
        Some(stack[0])
    } else {
        None
    }
}

/// Once a token cannot be evaluated, the stream has no value.
proof fn lemma_run_stays_undefined<F: PrimeField>(
    env: EnvView<F>,
    toks: Seq<PolishToken<F>>,
    i: int,
)
    requires
        0 <= i <= toks.len(),
        env.run(toks.take(i)) is None,
    ensures
        env.run(toks) is None,
    decreases toks.len() - i,
{
    if i == toks.len() {
        assert(toks.take(i) == toks);
    } else {
        assert(toks.take(i + 1).drop_last() == toks.take(i));
        lemma_run_stays_undefined(env, toks, i + 1);
    }
}

/// A cell is the first chunk of its own column: at the current row that at
/// `zeta`, at the next row that at `zeta` times the generator. Each of the six
/// selectors answers for its own gate and no other gate has one.
pub proof fn cells_read_their_own_column<F: PrimeField>(env: EnvView<F>, i: usize)
    requires
        forall|p: PointEvalVar<F>|
            #![trigger env.evals.ordered_points().contains(p)]
            env.evals.ordered_points().contains(p) ==> p.0@.len() > 0 && p.1@.len() > 0,
    ensures
        ({
            let e = env.evals;
            let curr = CurrOrNext::Curr;
            let next = CurrOrNext::Next;
            &&& env.cell(Column::Z, curr) == Some(e.z.0@[0].view())
            &&& env.cell(Column::Z, next) == Some(e.z.1@[0].view())
            &&& env.cell(Column::Index(GateType::Generic), curr) == Some(
                e.generic_selector.0@[0].view(),
            )
            &&& env.cell(Column::Index(GateType::Generic), next) == Some(
                e.generic_selector.1@[0].view(),
            )
            &&& env.cell(Column::Index(GateType::Poseidon), curr) == Some(
                e.poseidon_selector.0@[0].view(),
            )
            &&& env.cell(Column::Index(GateType::Poseidon), next) == Some(
                e.poseidon_selector.1@[0].view(),
            )
            &&& env.cell(Column::Index(GateType::CompleteAdd), curr) == Some(
                e.complete_add_selector.0@[0].view(),
            )
            &&& env.cell(Column::Index(GateType::CompleteAdd), next) == Some(
                e.complete_add_selector.1@[0].view(),
            )
            &&& env.cell(Column::Index(GateType::VarBaseMul), curr) == Some(
                e.mul_selector.0@[0].view(),
            )
            &&& env.cell(Column::Index(GateType::VarBaseMul), next) == Some(
                e.mul_selector.1@[0].view(),
            )
            &&& env.cell(Column::Index(GateType::EndoMul), curr) == Some(
                e.emul_selector.0@[0].view(),
            )
            &&& env.cell(Column::Index(GateType::EndoMul), next) == Some(
                e.emul_selector.1@[0].view(),
            )
            &&& env.cell(Column::Index(GateType::EndoMulScalar), curr) == Some(
                e.endomul_scalar_selector.0@[0].view(),
            )
            &&& env.cell(Column::Index(GateType::EndoMulScalar), next) == Some(
                e.endomul_scalar_selector.1@[0].view(),
            )
            &&& env.cell(Column::Witness(i), curr) == if i < e.w@.len() {
                Some(e.w@[i as int].0@[0].view())
            } else {
                None
            }
            &&& env.cell(Column::Witness(i), next) == if i < e.w@.len() {
                Some(e.w@[i as int].1@[0].view())
            } else {
                None
            }
            &&& env.cell(Column::Coefficient(i), curr) == if i < e.coefficients@.len() {
                Some(e.coefficients@[i as int].0@[0].view())
            } else {
                None
            }
            &&& env.cell(Column::Coefficient(i), next) == if i < e.coefficients@.len() {
                Some(e.coefficients@[i as int].1@[0].view())
            } else {
                None
            }
            &&& env.cell(Column::Permutation(i), curr) == if i < e.s@.len() {
                Some(e.s@[i as int].0@[0].view())
            } else {
                None
            }
            &&& env.cell(Column::Permutation(i), next) == if i < e.s@.len() {
                Some(e.s@[i as int].1@[0].view())
            } else {
                None
            }
        }),
{
    let e = env.evals;
    let all = e.ordered_points();
    assert(all[0] == e.z);
    assert(all[1] == e.generic_selector);
    assert(all[2] == e.poseidon_selector);
    assert(all[3] == e.complete_add_selector);
    assert(all[4] == e.mul_selector);
    assert(all[5] == e.emul_selector);
    assert(all[6] == e.endomul_scalar_selector);
    assert forall|k: int| 0 <= k < all.len() implies all.contains(#[trigger] all[k]) by {}
    if i < e.w@.len() {
        assert(all[7 + i] == e.w@[i as int]);
    }
    if i < e.coefficients@.len() {
        assert(all[7 + e.w@.len() + i] == e.coefficients@[i as int]);
    }
    if i < e.s@.len() {
        assert(all[7 + e.w@.len() + e.coefficients@.len() + i] == e.s@[i as int]);
    }
}

/// The columns that the constant term reads are the columns that the transcript
/// absorbs: the permutation first, the selectors at the numbers of their gates,
/// then the witness, the coefficients and the permutation columns.
pub proof fn columns_are_read_where_they_are_absorbed<F: PrimeField>(
    evals: AbsorbEvalsVar<F>,
    gate: GateType,
    i: usize,
)
    ensures
        column_point(evals, Column::Z) == Some(evals.ordered_points()[0]),
        1 <= gate.number() <= 6 ==> column_point(evals, Column::Index(gate)) == Some(
            evals.ordered_points()[gate.number()],
        ),
        !(1 <= gate.number() <= 6) ==> column_point(evals, Column::Index(gate)) is None,
        i < evals.w@.len() ==> column_point(evals, Column::Witness(i)) == Some(
            evals.ordered_points()[7 + i],
        ),
        i < evals.coefficients@.len() ==> column_point(evals, Column::Coefficient(i)) == Some(
            evals.ordered_points()[7 + evals.w@.len() + i],
        ),
        i < evals.s@.len() ==> column_point(evals, Column::Permutation(i)) == Some(
            evals.ordered_points()[7 + evals.w@.len() + evals.coefficients@.len() + i],
        ),
{
}

/// The notation is postfix: on top of whatever a stream has left, two literals
/// and an operator leave the first one operated with the second, a power is of
/// the top, a copy repeats it, and a stored value is loaded by its number.
pub proof fn operators_follow_their_operands<F: PrimeField>(
    env: EnvView<F>,
    toks: Seq<PolishToken<F>>,
    stack: Seq<int>,
    cache: Seq<int>,
    a: F,
    b: F,
    n: u64,
    k: usize,
)
    requires
        env.run(toks) == Some((stack, cache)),
    ensures
        ({
            let la = PolishToken::Constant(ConstantTerm::Literal(a));
            let lb = PolishToken::Constant(ConstantTerm::Literal(b));
            &&& env.run(toks.push(la)) == Some((stack.push(a.view()), cache))
            &&& env.run(toks.push(la).push(lb).push(PolishToken::Add)) == Some(
                (stack.push((a.view() + b.view()) % F::modulus()), cache),
            )
            &&& env.run(toks.push(la).push(lb).push(PolishToken::Sub)) == Some(
                (stack.push((a.view() - b.view()) % F::modulus()), cache),
            )
            &&& env.run(toks.push(la).push(lb).push(PolishToken::Mul)) == Some(
                (stack.push((a.view() * b.view()) % F::modulus()), cache),
            )
            &&& env.run(toks.push(la).push(PolishToken::Pow(n))) == Some(
                (stack.push(fpow::<F>(a.view(), n as nat)), cache),
            )
            &&& env.run(toks.push(la).push(PolishToken::Dup)) == Some(
                (stack.push(a.view()).push(a.view()), cache),
            )
            &&& env.run(toks.push(la).push(PolishToken::Store)) == Some(
                (stack.push(a.view()), cache.push(a.view())),
            )
            &&& env.run(toks.push(PolishToken::Load(k))) == if k < cache.len() {
                Some((stack.push(cache[k as int]), cache))
            } else {
                None
            }
        }),
{
    let la = PolishToken::Constant(ConstantTerm::Literal(a));
    let lb = PolishToken::Constant(ConstantTerm::Literal(b));
    lemma_run_step(env, toks, la);
    let two = toks.push(la).push(lb);
    lemma_run_step(env, toks.push(la), lb);
    let full = stack.push(a.view()).push(b.view());
    assert(env.run(two) == Some((full, cache)));
    lemma_run_step(env, two, PolishToken::Add);
    lemma_run_step(env, two, PolishToken::Sub);
    lemma_run_step(env, two, PolishToken::Mul);
    assert(full.take(full.len() - 2) =~= stack);
    lemma_run_step(env, toks.push(la), PolishToken::Pow(n));
    assert(stack.push(a.view()).drop_last() =~= stack);
    lemma_run_step(env, toks.push(la), PolishToken::Dup);
    lemma_run_step(env, toks.push(la), PolishToken::Store);
    lemma_run_step(env, toks, PolishToken::Load(k));
}

proof fn lemma_run_step<F: PrimeField>(
    env: EnvView<F>,
    toks: Seq<PolishToken<F>>,
    t: PolishToken<F>,
)
    ensures
        env.run(toks) matches Some((stack, cache)) ==> env.run(toks.push(t)) == env.step(
            t,
            stack,
            cache,
        ),
        env.run(toks) is None ==> env.run(toks.push(t)) is None,
{
    assert(toks.push(t).drop_last() =~= toks);
    assert(toks.push(t).last() == t);
}

/// What a leaf leaves on the stack: a challenge by its own name, the
/// endomorphism coefficient, the matrix entry of that row and that column, the
/// cell of that column and that row.
pub proof fn leaves_leave_their_values<F: PrimeField>(
    env: EnvView<F>,
    toks: Seq<PolishToken<F>>,
    stack: Seq<int>,
    cache: Seq<int>,
    row: usize,
    col: usize,
    column: Column,
    at: CurrOrNext,
    v: int,
)
    requires
        env.run(toks) == Some((stack, cache)),
        env.cell(column, at) == Some(v),
    ensures
        env.run(toks.push(PolishToken::Challenge(ChallengeTerm::Alpha))) == Some(
            (stack.push(env.challenges.alpha), cache),
        ),
        env.run(toks.push(PolishToken::Challenge(ChallengeTerm::Beta))) == Some(
            (stack.push(env.challenges.beta), cache),
        ),
        env.run(toks.push(PolishToken::Challenge(ChallengeTerm::Gamma))) == Some(
            (stack.push(env.challenges.gamma), cache),
        ),
        env.run(toks.push(PolishToken::Challenge(ChallengeTerm::JointCombiner))) == Some(
            (stack.push(env.challenges.joint_combiner), cache),
        ),
        env.run(toks.push(PolishToken::Constant(ConstantTerm::EndoCoefficient))) == Some(
            (stack.push(env.endo_coefficient), cache),
        ),
        env.run(toks.push(PolishToken::Constant(ConstantTerm::Mds { row, col }))) == if row
            < env.mds.len() && col < env.mds[row as int]@.len() {
            Some((stack.push(env.mds[row as int]@[col as int].view()), cache))
        } else {
            None
        },
        env.run(toks.push(PolishToken::Cell { col: column, row: at })) == Some(
            (stack.push(v), cache),
        ),
{
    lemma_run_step(env, toks, PolishToken::Challenge(ChallengeTerm::Alpha));
    lemma_run_step(env, toks, PolishToken::Challenge(ChallengeTerm::Beta));
    lemma_run_step(env, toks, PolishToken::Challenge(ChallengeTerm::Gamma));
    lemma_run_step(env, toks, PolishToken::Challenge(ChallengeTerm::JointCombiner));
    lemma_run_step(env, toks, PolishToken::Constant(ConstantTerm::EndoCoefficient));
    lemma_run_step(env, toks, PolishToken::Constant(ConstantTerm::Mds { row, col }));
    lemma_run_step(env, toks, PolishToken::Cell { col: column, row: at });
}

/// A literal added at the end raises the value by it, one taken away at the end
/// lowers it, and one multiplied at the end multiplies it.
pub proof fn the_last_operator_acts_on_the_value<F: PrimeField>(
    env: EnvView<F>,
    toks: Seq<PolishToken<F>>,
    v: int,
    k: F,
)
    requires
        env.value(toks) == Some(v),
    ensures
        ({
            let lk = PolishToken::Constant(ConstantTerm::Literal(k));
            &&& env.value(toks.push(lk).push(PolishToken::Add)) == Some(
                (v + k.view()) % F::modulus(),
            )
            &&& env.value(toks.push(lk).push(PolishToken::Sub)) == Some(
                (v - k.view()) % F::modulus(),
            )
            &&& env.value(toks.push(lk).push(PolishToken::Mul)) == Some(
                (v * k.view()) % F::modulus(),
            )
        }),
{
    let lk = PolishToken::Constant(ConstantTerm::Literal(k));
    let (stack, cache) = env.run(toks)->0;
    lemma_run_step(env, toks, lk);
    let two = toks.push(lk);
    let full = stack.push(k.view());
    assert(env.run(two) == Some((full, cache)));
    lemma_run_step(env, two, PolishToken::Add);
    lemma_run_step(env, two, PolishToken::Sub);
    lemma_run_step(env, two, PolishToken::Mul);
    assert(full.take(full.len() - 2) =~= Seq::<int>::empty());
}

/// A basis element is what its name says: multiplied by the distance of the
/// point from the row's power of the generator, it gives the vanishing of the
/// whole domain at the point; a row counted from the end lies that many
/// multiplications before one.
pub proof fn basis_elements_divide_the_vanishing<F: PrimeField>(
    env: EnvView<F>,
    o: RowOffset,
    w: int,
    numerator: int,
    inv: int,
)
    requires
        env.lagrange_parts(o) == Some((w, numerator)),
        env.pt != w,
        crate::field::is_inverse(F::modulus(), fsub::<F>(env.pt, w), inv),
    ensures
        env.lagrange(o) matches Some(v) && fmul::<F>(v, fsub::<F>(env.pt, w)) == numerator
            % F::modulus(),
{
    let d = fsub::<F>(env.pt, w);
    let m = F::modulus();
    F::lemma_modulus();
    lemma_inverse_is_unique::<F>(d, inv);
    crate::ring::lemma_mul_associates::<F>(numerator, inv, d);
    crate::ring::lemma_mul_commutes::<F>(inv, d);
    assert(fmul::<F>(inv, d) == 1);
    assert(numerator * 1 == numerator);
    let v = fdiv::<F>(numerator, d);
    assert(env.lagrange(o) == Some(v));
    assert(v == fmul::<F>(numerator, inv));
    assert(fmul::<F>(v, d) == numerator % m);
}

/// The row's power of the generator, on a fixed domain: for a row counted from
/// the start that power itself, for one counted from the end its inverse; the
/// zero-knowledge rows are counted back first.
pub proof fn rows_are_powers_of_the_generator<F: PrimeField>(
    env: EnvView<F>,
    o: RowOffset,
    size: nat,
    group_gen: int,
    inv: int,
)
    requires
        env.domain == (DomainView::Fixed { size, group_gen }),
    ensures
        ({
            let row = if o.zk_rows {
                o.offset as int - env.zk_rows
            } else {
                o.offset as int
            };
            &&& env.lagrange_parts(o) matches Some((w, numerator)) && numerator == (fpow::<F>(
                env.pt,
                size,
            ) - 1) % F::modulus() && (row >= 0 ==> w == fpow::<F>(group_gen, row as nat)) && (row
                < 0 && crate::field::is_inverse(
                F::modulus(),
                fpow::<F>(group_gen, (-row) as nat),
                inv,
            ) ==> w == inv)
        }),
{
    let row = if o.zk_rows {
        o.offset as int - env.zk_rows
    } else {
        o.offset as int
    };
    if row < 0 && crate::field::is_inverse(
        F::modulus(),
        fpow::<F>(group_gen, (-row) as nat),
        inv,
    ) {
        lemma_inverse_is_unique::<F>(fpow::<F>(group_gen, (-row) as nat), inv);
    }
}

/// On a selected domain the rows one back to four back are the negative powers
/// of the generator by name, and the rows zero and one are one and the generator.
pub proof fn selected_rows_are_named_powers<F: PrimeField>(
    env: EnvView<F>,
    omegas: OmegasView,
    zeta_to_n_minus_1: int,
    o: RowOffset,
)
    requires
        env.domain == (DomainView::Selected { omegas, zeta_to_n_minus_1 }),
        env.zk_rows == 3,
    ensures
        ({
            let row = o.offset - (if o.zk_rows {
                3int
            } else {
                0
            });
            let w = if row == 0 {
                1
            } else if row == 1 {
                omegas.generator
            } else if row == -1 {
                omegas.omega_to_minus_1
            } else if row == -2 {
                omegas.omega_to_zk_plus_1
            } else if row == -3 {
                omegas.omega_to_zk
            } else {
                (omegas.omega_to_zk * omegas.omega_to_minus_1) % F::modulus()
            };
            env.lagrange_parts(o) == if -4 <= row <= 1 {
                Some((w, zeta_to_n_minus_1))
            } else {
                None
            }
        }),
{
}

/// The product over the last rows, on a selected domain, is that over the four
/// rows before the end of the domain: one factor for each of the first four
/// negative powers.
pub proof fn the_last_rows_vanish<F: PrimeField>(
    env: EnvView<F>,
    omegas: OmegasView,
    zeta_to_n_minus_1: int,
)
    requires
        env.domain == (DomainView::Selected { omegas, zeta_to_n_minus_1 }),
        env.zk_rows == 3,
    ensures
        env.vanishing() == Some(
            ((env.pt - omegas.omega_to_minus_1) * (env.pt - omegas.omega_to_zk_plus_1) * (env.pt
                - omegas.omega_to_zk) * (env.pt - (omegas.omega_to_zk * omegas.omega_to_minus_1)
                % F::modulus())) % F::modulus(),
        ),
{
    let a = env.pt - omegas.omega_to_minus_1;
    let b = env.pt - omegas.omega_to_zk_plus_1;
    let c = env.pt - omegas.omega_to_zk;
    let d = env.pt - fmul::<F>(omegas.omega_to_zk, omegas.omega_to_minus_1);
    crate::ring::lemma_operands_may_be_reduced::<F>(d, c);
    crate::ring::lemma_operands_may_be_reduced::<F>(d * c, b);
    crate::ring::lemma_operands_may_be_reduced::<F>(d * c * b, a);
    assert(d * c * b * a == a * b * c * d) by (nonlinear_arith);
}

/// On a fixed domain the product over the last rows has one factor for each of
/// the zero-knowledge rows and one for the row before them: it is zero at every
/// one of these rows' powers of the generator.
pub proof fn the_last_rows_vanish_on_a_fixed_domain<F: PrimeField>(
    env: EnvView<F>,
    size: nat,
    group_gen: int,
    k: nat,
)
    requires
        env.domain == (DomainView::Fixed { size, group_gen }),
        env.zk_rows + 1 <= size,
        size - env.zk_rows - 1 <= k < size,
        env.pt == fpow::<F>(group_gen, k),
    ensures
        env.vanishing() == Some(0int),
{
    lemma_product_vanishes::<F>(
        env.pt,
        group_gen,
        (size - env.zk_rows - 1) as nat,
        (env.zk_rows + 1) as nat,
        k,
    );
}

proof fn lemma_product_vanishes<F: PrimeField>(
    pt: int,
    gen: int,
    start: nat,
    count: nat,
    k: nat,
)
    requires
        start <= k < start + count,
        pt == fpow::<F>(gen, k),
    ensures
        vanishing_product::<F>(pt, gen, start, count) == 0,
    decreases count,
{
    F::lemma_modulus();
    vstd::arithmetic::div_mod::lemma_small_mod(0, F::modulus() as nat);
    if k == start + count - 1 {
        let rest = vanishing_product::<F>(pt, gen, start, (count - 1) as nat);
        assert(rest * 0 == 0);
    } else {
        lemma_product_vanishes::<F>(pt, gen, start, (count - 1) as nat, k);
        let f = fsub::<F>(pt, fpow::<F>(gen, (start + count - 1) as nat));
        assert(0 * f == 0);
    }
}

/// A token needs its operands: an operator on fewer than two values, or a copy,
/// power or store on none, has no outcome, nor has a skip; a stream's value is
/// the one value that it leaves.
pub proof fn missing_operands_leave_no_value<F: PrimeField>(
    env: EnvView<F>,
    toks: Seq<PolishToken<F>>,
    stack: Seq<int>,
    cache: Seq<int>,
    n: u64,
    k: usize,
)
    requires
        env.run(toks) == Some((stack, cache)),
    ensures
        stack.len() < 2 ==> env.run(toks.push(PolishToken::Add)) is None,
        stack.len() < 2 ==> env.run(toks.push(PolishToken::Sub)) is None,
        stack.len() < 2 ==> env.run(toks.push(PolishToken::Mul)) is None,
        stack.len() < 1 ==> env.run(toks.push(PolishToken::Dup)) is None,
        stack.len() < 1 ==> env.run(toks.push(PolishToken::Pow(n))) is None,
        stack.len() < 1 ==> env.run(toks.push(PolishToken::Store)) is None,
        env.run(toks.push(PolishToken::SkipIf(k))) is None,
        env.run(toks.push(PolishToken::SkipIfNot(k))) is None,
        env.value(toks) == if stack.len() == 1 {
            Some(stack[0])
        } else {
            None
        },
        env.run(Seq::empty()) == Some((Seq::<int>::empty(), Seq::<int>::empty())),
{
    lemma_run_step(env, toks, PolishToken::Add);
    lemma_run_step(env, toks, PolishToken::Sub);
    lemma_run_step(env, toks, PolishToken::Mul);
    lemma_run_step(env, toks, PolishToken::Dup);
    lemma_run_step(env, toks, PolishToken::Pow(n));
    lemma_run_step(env, toks, PolishToken::Store);
    lemma_run_step(env, toks, PolishToken::SkipIf(k));
    lemma_run_step(env, toks, PolishToken::SkipIfNot(k));
}

/// A stream that has failed stays failed, whatever follows.
pub proof fn failed_streams_stay_failed<F: PrimeField>(
    env: EnvView<F>,
    toks: Seq<PolishToken<F>>,
    t: PolishToken<F>,
)
    requires
        env.run(toks) is None,
    ensures
        env.run(toks.push(t)) is None,
        env.value(toks) is None,
        env.value(toks.push(t)) is None,
{
    lemma_run_step(env, toks, t);
}

/// The two kinds of leaf that the domain decides leave what their names say.
pub proof fn domain_leaves_leave_their_values<F: PrimeField>(
    env: EnvView<F>,
    toks: Seq<PolishToken<F>>,
    stack: Seq<int>,
    cache: Seq<int>,
    o: RowOffset,
    v: int,
    l: int,
)
    requires
        env.run(toks) == Some((stack, cache)),
        env.vanishing() == Some(v),
        env.lagrange(o) == Some(l),
    ensures
        env.run(toks.push(PolishToken::VanishesOnZeroKnowledgeAndPreviousRows)) == Some(
            (stack.push(v), cache),
        ),
        env.run(toks.push(PolishToken::UnnormalizedLagrangeBasis(o))) == Some(
            (stack.push(l), cache),
        ),
{
    lemma_run_step(env, toks, PolishToken::VanishesOnZeroKnowledgeAndPreviousRows);
    lemma_run_step(env, toks, PolishToken::UnnormalizedLagrangeBasis(o));
}

/// On a domain of order `size` a fixed and a selected environment see the same
/// last rows: the generator's highest powers are its lowest negative ones.
pub proof fn fixed_and_selected_rows_agree<F: PrimeField>(
    fixed: EnvView<F>,
    selected: EnvView<F>,
    size: nat,
    group_gen: int,
    omegas: OmegasView,
    zeta_to_n_minus_1: int,
)
    requires
        fixed.domain == (DomainView::Fixed { size, group_gen }),
        selected.domain == (DomainView::Selected { omegas, zeta_to_n_minus_1 }),
        fixed.pt == selected.pt,
        fixed.zk_rows == 3,
        selected.zk_rows == 3,
        size >= 4,
        omegas.omega_to_minus_1 == fpow::<F>(group_gen, (size - 1) as nat),
        omegas.omega_to_zk_plus_1 == fpow::<F>(group_gen, (size - 2) as nat),
        omegas.omega_to_zk == fpow::<F>(group_gen, (size - 3) as nat),
        fmul::<F>(omegas.omega_to_zk, omegas.omega_to_minus_1) == fpow::<F>(
            group_gen,
            (size - 4) as nat,
        ),
    ensures
        fixed.vanishing() == selected.vanishing(),
{
    let pt = fixed.pt;
    let s = (size - 4) as nat;
    reveal_with_fuel(vanishing_product, 5);
    let d = fsub::<F>(pt, fpow::<F>(group_gen, s));
    lemma_results_are_canonical::<F>(pt, fpow::<F>(group_gen, s), 0);
    lemma_mul_units::<F>(d);
    assert(vanishing_product::<F>(pt, group_gen, s, 0) == 1);
    assert(vanishing_product::<F>(pt, group_gen, s, 1) == d);
    assert(vanishing_product::<F>(pt, group_gen, s, 2) == fmul::<F>(
        d,
        fsub::<F>(pt, omegas.omega_to_zk),
    ));
    assert(vanishing_product::<F>(pt, group_gen, s, 3) == fmul::<F>(
        fmul::<F>(d, fsub::<F>(pt, omegas.omega_to_zk)),
        fsub::<F>(pt, omegas.omega_to_zk_plus_1),
    ));
}

} // verus!
