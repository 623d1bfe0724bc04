//! The evaluations carried in a proof: `ft` at `zeta omega`, the public input at
//! both points, and every column at both points, each in chunks.

use vstd::prelude::*;

use crate::composition_types::clones_faithfully;

verus! {

/// A polynomial at `zeta` and at `zeta omega`.
#[derive(Clone, Debug, PartialEq, Eq)]
pub struct PointEvaluations<E> {
    pub zeta: E,
    pub zeta_omega: E,
}

/// The evaluations of every column.
#[derive(Clone, Debug, PartialEq, Eq)]
pub struct ProofEvaluations<E> {
    /// The public input, where the proof carries it.
    pub public: Option<E>,
    /// The witness columns.
    pub w: Vec<E>,
    /// The permutation aggregation.
    pub z: E,
    /// The permutation columns but the last.
    pub s: Vec<E>,
    /// The coefficient columns.
    pub coefficients: Vec<E>,
    pub generic_selector: E,
    pub poseidon_selector: E,
    pub complete_add_selector: E,
    pub mul_selector: E,
    pub emul_selector: E,
    pub endomul_scalar_selector: E,
    pub range_check0_selector: Option<E>,
    pub range_check1_selector: Option<E>,
    pub foreign_field_add_selector: Option<E>,
    pub foreign_field_mul_selector: Option<E>,
    pub xor_selector: Option<E>,
    pub rot_selector: Option<E>,
    pub lookup_aggregation: Option<E>,
    pub lookup_table: Option<E>,
    pub lookup_sorted: Vec<Option<E>>,
    pub runtime_lookup_table: Option<E>,
    pub runtime_lookup_table_selector: Option<E>,
    pub xor_lookup_selector: Option<E>,
    pub lookup_gate_lookup_selector: Option<E>,
    pub range_check_lookup_selector: Option<E>,
    pub foreign_field_mul_lookup_selector: Option<E>,
}

/// The public-input and column evaluations at one point.
#[derive(Clone, Debug, PartialEq, Eq)]
pub struct PointEvals<F> {
    /// The public input at this point, in chunks.
    pub public_input: Vec<F>,
    /// Every column at this point, in chunks.
    pub evals: ProofEvaluations<Vec<F>>,
}

/// `ft(zeta omega)`, and the public input and the columns at both points.
#[derive(Clone, Debug, PartialEq, Eq)]
pub struct AllEvals<F> {
    /// `ft(zeta omega)`.
    pub ft_eval1: F,
    /// The public input at `zeta` and `zeta omega`, in chunks.
    pub public_input: PointEvaluations<Vec<F>>,
    /// Every column at `zeta` and `zeta omega`, in chunks.
    pub evals: ProofEvaluations<PointEvaluations<Vec<F>>>,
}

/// One of the two points.
#[derive(Clone, Copy, Debug, PartialEq, Eq, Structural)]
pub enum EvalPoint {
    Zeta,
    ZetaOmega,
}

/// `copy` holds clones of the items of `v`, in order.
pub open spec fn is_copy<F: Clone>(v: Vec<F>, copy: Vec<F>) -> bool {
    &&& copy@.len() == v@.len()
    &&& forall|i: int| 0 <= i < v@.len() ==> cloned(v@[i], #[trigger] copy@[i])
}

/// The chunks at a point.
pub open spec fn at<F>(pe: PointEvaluations<Vec<F>>, point: EvalPoint) -> Vec<F> {
    match point {
        EvalPoint::Zeta => pe.zeta,
        EvalPoint::ZetaOmega => pe.zeta_omega,
    }
}

/// `r` holds the chunks at a point, where there are any.
pub open spec fn option_at<F: Clone>(
    pe: Option<PointEvaluations<Vec<F>>>,
    point: EvalPoint,
    r: Option<Vec<F>>,
) -> bool {
    match (pe, r) {
        (None, None) => true,
        (Some(e), Some(v)) => is_copy(at(e, point), v),
        _ => false,
    }
}

/// `r` holds the chunks of each column at a point.
pub open spec fn list_at<F: Clone>(
    pes: Seq<PointEvaluations<Vec<F>>>,
    point: EvalPoint,
    r: Seq<Vec<F>>,
) -> bool {
    &&& r.len() == pes.len()
    &&& forall|i: int| 0 <= i < pes.len() ==> is_copy(at(pes[i], point), #[trigger] r[i])
}

/// `r` holds the chunks of each optional column at a point.
pub open spec fn option_list_at<F: Clone>(
    pes: Seq<Option<PointEvaluations<Vec<F>>>>,
    point: EvalPoint,
    r: Seq<Option<Vec<F>>>,
) -> bool {
    &&& r.len() == pes.len()
    &&& forall|i: int| 0 <= i < pes.len() ==> option_at(pes[i], point, #[trigger] r[i])
}

impl<F: Clone> ProofEvaluations<PointEvaluations<Vec<F>>> {
    /// `r` holds every column's chunks at a point.
    pub open spec fn splits_to(self, point: EvalPoint, r: ProofEvaluations<Vec<F>>) -> bool {
        &&& option_at(self.public, point, r.public)
        &&& list_at(self.w@, point, r.w@)
        &&& list_at(self.s@, point, r.s@)
        &&& list_at(self.coefficients@, point, r.coefficients@)
        &&& is_copy(at(self.z, point), r.z)
        &&& is_copy(at(self.generic_selector, point), r.generic_selector)
        &&& is_copy(at(self.poseidon_selector, point), r.poseidon_selector)
        &&& is_copy(at(self.complete_add_selector, point), r.complete_add_selector)
        &&& is_copy(at(self.mul_selector, point), r.mul_selector)
        &&& is_copy(at(self.emul_selector, point), r.emul_selector)
        &&& is_copy(at(self.endomul_scalar_selector, point), r.endomul_scalar_selector)
        &&& option_at(self.range_check0_selector, point, r.range_check0_selector)
        &&& option_at(self.range_check1_selector, point, r.range_check1_selector)
        &&& option_at(self.foreign_field_add_selector, point, r.foreign_field_add_selector)
        &&& option_at(self.foreign_field_mul_selector, point, r.foreign_field_mul_selector)
        &&& option_at(self.xor_selector, point, r.xor_selector)
        &&& option_at(self.rot_selector, point, r.rot_selector)
        &&& option_at(self.lookup_aggregation, point, r.lookup_aggregation)
        &&& option_at(self.lookup_table, point, r.lookup_table)
        &&& option_at(self.runtime_lookup_table, point, r.runtime_lookup_table)
        &&& option_at(self.runtime_lookup_table_selector, point, r.runtime_lookup_table_selector)
        &&& option_at(self.xor_lookup_selector, point, r.xor_lookup_selector)
        &&& option_at(self.lookup_gate_lookup_selector, point, r.lookup_gate_lookup_selector)
        &&& option_at(self.range_check_lookup_selector, point, r.range_check_lookup_selector)
        &&& option_at(self.foreign_field_mul_lookup_selector, point, r.foreign_field_mul_lookup_selector)
        &&& option_list_at(self.lookup_sorted@, point, r.lookup_sorted@)
    }

    /// Every column's chunks at a point.
    pub fn split(&self, point: EvalPoint) -> (r: ProofEvaluations<Vec<F>>)
        ensures
            self.splits_to(point, r),
    {
        ProofEvaluations {
            public: pick_option(&self.public, point),
            w: pick_list(&self.w, point),
            s: pick_list(&self.s, point),
            coefficients: pick_list(&self.coefficients, point),
            z: pick(&self.z, point),
            generic_selector: pick(&self.generic_selector, point),
            poseidon_selector: pick(&self.poseidon_selector, point),
            complete_add_selector: pick(&self.complete_add_selector, point),
            mul_selector: pick(&self.mul_selector, point),
            emul_selector: pick(&self.emul_selector, point),
            endomul_scalar_selector: pick(&self.endomul_scalar_selector, point),
            range_check0_selector: pick_option(&self.range_check0_selector, point),
            range_check1_selector: pick_option(&self.range_check1_selector, point),
            foreign_field_add_selector: pick_option(&self.foreign_field_add_selector, point),
            foreign_field_mul_selector: pick_option(&self.foreign_field_mul_selector, point),
            xor_selector: pick_option(&self.xor_selector, point),
            rot_selector: pick_option(&self.rot_selector, point),
            lookup_aggregation: pick_option(&self.lookup_aggregation, point),
            lookup_table: pick_option(&self.lookup_table, point),
            runtime_lookup_table: pick_option(&self.runtime_lookup_table, point),
            runtime_lookup_table_selector: pick_option(&self.runtime_lookup_table_selector, point),
            xor_lookup_selector: pick_option(&self.xor_lookup_selector, point),
            lookup_gate_lookup_selector: pick_option(&self.lookup_gate_lookup_selector, point),
            range_check_lookup_selector: pick_option(&self.range_check_lookup_selector, point),
            foreign_field_mul_lookup_selector: pick_option(&self.foreign_field_mul_lookup_selector, point),
            lookup_sorted: pick_option_list(&self.lookup_sorted, point),
        }
    }
}

fn pick<F: Clone>(pe: &PointEvaluations<Vec<F>>, point: EvalPoint) -> (r: Vec<F>)
    ensures
        is_copy(at(*pe, point), r),
{
    match point {
        EvalPoint::Zeta => pe.zeta.clone(),
        EvalPoint::ZetaOmega => pe.zeta_omega.clone(),
    }
}

fn pick_option<F: Clone>(pe: &Option<PointEvaluations<Vec<F>>>, point: EvalPoint) -> (r: Option<
    Vec<F>,
>)
    ensures
        option_at(*pe, point, r),
{
    match pe {
        None => None,
        Some(e) => Some(pick(e, point)),
    }
}

fn pick_list<F: Clone>(pes: &Vec<PointEvaluations<Vec<F>>>, point: EvalPoint) -> (r: Vec<Vec<F>>)
    ensures
        list_at(pes@, point, r@),
{
    let mut out: Vec<Vec<F>> = Vec::new();
    let mut i: usize = 0;
    while i < pes.len()
        invariant
            i <= pes@.len(),
            list_at(pes@.take(i as int), point, out@),
        decreases pes.len() - i,
    {
        out.push(pick(&pes[i], point));
        i = i + 1;
    }
    assert(pes@.take(i as int) == pes@);
    out
}

fn pick_option_list<F: Clone>(
    pes: &Vec<Option<PointEvaluations<Vec<F>>>>,
    point: EvalPoint,
) -> (r: Vec<Option<Vec<F>>>)
    ensures
        option_list_at(pes@, point, r@),
{
    let mut out: Vec<Option<Vec<F>>> = Vec::new();
    let mut i: usize = 0;
    while i < pes.len()
        invariant
            i <= pes@.len(),
            option_list_at(pes@.take(i as int), point, out@),
        decreases pes.len() - i,
    {
        out.push(pick_option(&pes[i], point));
        i = i + 1;
    }
    assert(pes@.take(i as int) == pes@);
    out
}

impl<F: Clone> AllEvals<F> {
    /// Splits the paired evaluations into the two points: all that is at `zeta`,
    /// then all that is at `zeta omega`.
    pub fn factor(&self) -> (r: (PointEvals<F>, PointEvals<F>))
        ensures
            is_copy(self.public_input.zeta, r.0.public_input),
            self.evals.splits_to(EvalPoint::Zeta, r.0.evals),
            is_copy(self.public_input.zeta_omega, r.1.public_input),
            self.evals.splits_to(EvalPoint::ZetaOmega, r.1.evals),
    {
        let at_zeta = PointEvals {
            public_input: self.public_input.zeta.clone(),
            evals: self.evals.split(EvalPoint::Zeta),
        };
        let at_zetaw = PointEvals {
            public_input: self.public_input.zeta_omega.clone(),
            evals: self.evals.split(EvalPoint::ZetaOmega),
        };
        (at_zeta, at_zetaw)
    }

    /// The evaluations from a proof's columns, its public input at `zeta` and
    /// `zeta omega`, in that order, and `ft(zeta omega)`.
    pub fn from_parts(
        evals: ProofEvaluations<PointEvaluations<Vec<F>>>,
        public_evals: [Vec<F>; 2],
        ft_eval1: F,
    ) -> (r: Self)
        ensures
            r.ft_eval1 == ft_eval1,
            r.evals == evals,
            r.public_input.zeta == public_evals@[0],
            r.public_input.zeta_omega == public_evals@[1],
    {
        let mut public_evals = public_evals;
        let mut zeta: Vec<F> = Vec::new();
        let mut zeta_omega: Vec<F> = Vec::new();
        std::mem::swap(&mut zeta, &mut public_evals[0]);
        std::mem::swap(&mut zeta_omega, &mut public_evals[1]);
        AllEvals { ft_eval1, public_input: PointEvaluations { zeta, zeta_omega }, evals }
    }
}

/// The two halves of a column: what is at `zeta`, and what is at `zeta omega`.
pub open spec fn are_halves<F>(pe: PointEvaluations<Vec<F>>, a: Vec<F>, b: Vec<F>) -> bool {
    a@ == pe.zeta@ && b@ == pe.zeta_omega@
}

/// The two halves of a column that may not be there.
pub open spec fn are_optional_halves<F>(
    pe: Option<PointEvaluations<Vec<F>>>,
    a: Option<Vec<F>>,
    b: Option<Vec<F>>,
) -> bool {
    match pe {
        None => a is None && b is None,
        Some(e) => a is Some && b is Some && are_halves(e, a->0, b->0),
    }
}

/// Splitting loses nothing and mixes nothing up: with faithful clones, the two
/// halves give every column back under its own name, at its own point.
#[verifier::spinoff_prover]
pub proof fn split_columns_keep_their_names<F: Clone>(
    e: ProofEvaluations<PointEvaluations<Vec<F>>>,
    a: ProofEvaluations<Vec<F>>,
    b: ProofEvaluations<Vec<F>>,
    i: int,
)
    requires
        clones_faithfully::<F>(),
        e.splits_to(EvalPoint::Zeta, a),
        e.splits_to(EvalPoint::ZetaOmega, b),
    ensures
        are_optional_halves(e.public, a.public, b.public),
        a.w@.len() == e.w@.len() && b.w@.len() == e.w@.len(),
        0 <= i < e.w@.len() ==> are_halves(e.w@[i], a.w@[i], b.w@[i]),
        a.s@.len() == e.s@.len() && b.s@.len() == e.s@.len(),
        0 <= i < e.s@.len() ==> are_halves(e.s@[i], a.s@[i], b.s@[i]),
        a.coefficients@.len() == e.coefficients@.len() && b.coefficients@.len()
            == e.coefficients@.len(),
        0 <= i < e.coefficients@.len() ==> are_halves(
            e.coefficients@[i],
            a.coefficients@[i],
            b.coefficients@[i],
        ),
        are_halves(e.z, a.z, b.z),
        are_halves(e.generic_selector, a.generic_selector, b.generic_selector),
        are_halves(e.poseidon_selector, a.poseidon_selector, b.poseidon_selector),
        are_halves(e.complete_add_selector, a.complete_add_selector, b.complete_add_selector),
        are_halves(e.mul_selector, a.mul_selector, b.mul_selector),
        are_halves(e.emul_selector, a.emul_selector, b.emul_selector),
        are_halves(e.endomul_scalar_selector, a.endomul_scalar_selector, b.endomul_scalar_selector),
        are_optional_halves(
            e.range_check0_selector,
            a.range_check0_selector,
            b.range_check0_selector,
        ),
        are_optional_halves(
            e.range_check1_selector,
            a.range_check1_selector,
            b.range_check1_selector,
        ),
        are_optional_halves(
            e.foreign_field_add_selector,
            a.foreign_field_add_selector,
            b.foreign_field_add_selector,
        ),
        are_optional_halves(
            e.foreign_field_mul_selector,
            a.foreign_field_mul_selector,
            b.foreign_field_mul_selector,
        ),
        are_optional_halves(e.xor_selector, a.xor_selector, b.xor_selector),
        are_optional_halves(e.rot_selector, a.rot_selector, b.rot_selector),
        are_optional_halves(e.lookup_aggregation, a.lookup_aggregation, b.lookup_aggregation),
        are_optional_halves(e.lookup_table, a.lookup_table, b.lookup_table),
        are_optional_halves(
            e.runtime_lookup_table,
            a.runtime_lookup_table,
            b.runtime_lookup_table,
        ),
        are_optional_halves(
            e.runtime_lookup_table_selector,
            a.runtime_lookup_table_selector,
            b.runtime_lookup_table_selector,
        ),
        are_optional_halves(e.xor_lookup_selector, a.xor_lookup_selector, b.xor_lookup_selector),
        are_optional_halves(
            e.lookup_gate_lookup_selector,
            a.lookup_gate_lookup_selector,
            b.lookup_gate_lookup_selector,
        ),
        are_optional_halves(
            e.range_check_lookup_selector,
            a.range_check_lookup_selector,
            b.range_check_lookup_selector,
        ),
        are_optional_halves(
            e.foreign_field_mul_lookup_selector,
            a.foreign_field_mul_lookup_selector,
            b.foreign_field_mul_lookup_selector,
        ),
        a.lookup_sorted@.len() == e.lookup_sorted@.len() && b.lookup_sorted@.len()
            == e.lookup_sorted@.len(),
        0 <= i < e.lookup_sorted@.len() ==> are_optional_halves(
            e.lookup_sorted@[i],
            a.lookup_sorted@[i],
            b.lookup_sorted@[i],
        ),
{
    lemma_optional_halves(e.public, a.public, b.public);
    lemma_halves(e.z, a.z, b.z);
    lemma_halves(e.generic_selector, a.generic_selector, b.generic_selector);
    lemma_halves(e.poseidon_selector, a.poseidon_selector, b.poseidon_selector);
    lemma_halves(e.complete_add_selector, a.complete_add_selector, b.complete_add_selector);
    lemma_halves(e.mul_selector, a.mul_selector, b.mul_selector);
    lemma_halves(e.emul_selector, a.emul_selector, b.emul_selector);
    lemma_halves(e.endomul_scalar_selector, a.endomul_scalar_selector, b.endomul_scalar_selector);
    lemma_optional_halves(
        e.range_check0_selector,
        a.range_check0_selector,
        b.range_check0_selector,
    );
    lemma_optional_halves(
        e.range_check1_selector,
        a.range_check1_selector,
        b.range_check1_selector,
    );
    lemma_optional_halves(
        e.foreign_field_add_selector,
        a.foreign_field_add_selector,
        b.foreign_field_add_selector,
    );
    lemma_optional_halves(
        e.foreign_field_mul_selector,
        a.foreign_field_mul_selector,
        b.foreign_field_mul_selector,
    );
    lemma_optional_halves(e.xor_selector, a.xor_selector, b.xor_selector);
    lemma_optional_halves(e.rot_selector, a.rot_selector, b.rot_selector);
    lemma_optional_halves(e.lookup_aggregation, a.lookup_aggregation, b.lookup_aggregation);
    lemma_optional_halves(e.lookup_table, a.lookup_table, b.lookup_table);
    lemma_optional_halves(e.runtime_lookup_table, a.runtime_lookup_table, b.runtime_lookup_table);
    lemma_optional_halves(
        e.runtime_lookup_table_selector,
        a.runtime_lookup_table_selector,
        b.runtime_lookup_table_selector,
    );
    lemma_optional_halves(e.xor_lookup_selector, a.xor_lookup_selector, b.xor_lookup_selector);
    lemma_optional_halves(
        e.lookup_gate_lookup_selector,
        a.lookup_gate_lookup_selector,
        b.lookup_gate_lookup_selector,
    );
    lemma_optional_halves(
        e.range_check_lookup_selector,
        a.range_check_lookup_selector,
        b.range_check_lookup_selector,
    );
    lemma_optional_halves(
        e.foreign_field_mul_lookup_selector,
        a.foreign_field_mul_lookup_selector,
        b.foreign_field_mul_lookup_selector,
    );
    if 0 <= i < e.w@.len() {
        assert(is_copy(at(e.w@[i], EvalPoint::Zeta), a.w@[i]));
        assert(is_copy(at(e.w@[i], EvalPoint::ZetaOmega), b.w@[i]));
        lemma_halves(e.w@[i], a.w@[i], b.w@[i]);
    }
    if 0 <= i < e.s@.len() {
        assert(is_copy(at(e.s@[i], EvalPoint::Zeta), a.s@[i]));
        assert(is_copy(at(e.s@[i], EvalPoint::ZetaOmega), b.s@[i]));
        lemma_halves(e.s@[i], a.s@[i], b.s@[i]);
    }
    if 0 <= i < e.coefficients@.len() {
        assert(is_copy(at(e.coefficients@[i], EvalPoint::Zeta), a.coefficients@[i]));
        assert(is_copy(at(e.coefficients@[i], EvalPoint::ZetaOmega), b.coefficients@[i]));
        lemma_halves(e.coefficients@[i], a.coefficients@[i], b.coefficients@[i]);
    }
    if 0 <= i < e.lookup_sorted@.len() {
        assert(option_at(e.lookup_sorted@[i], EvalPoint::Zeta, a.lookup_sorted@[i]));
        assert(option_at(e.lookup_sorted@[i], EvalPoint::ZetaOmega, b.lookup_sorted@[i]));
        lemma_optional_halves(e.lookup_sorted@[i], a.lookup_sorted@[i], b.lookup_sorted@[i]);
    }
}

proof fn lemma_halves<F: Clone>(pe: PointEvaluations<Vec<F>>, a: Vec<F>, b: Vec<F>)
    requires
        clones_faithfully::<F>(),
        is_copy(at(pe, EvalPoint::Zeta), a),
        is_copy(at(pe, EvalPoint::ZetaOmega), b),
    ensures
        are_halves(pe, a, b),
{
    assert forall|i: int| 0 <= i < a@.len() implies a@[i] == pe.zeta@[i] by {
        assert(cloned(pe.zeta@[i], a@[i]));
    }
    assert forall|i: int| 0 <= i < b@.len() implies b@[i] == pe.zeta_omega@[i] by {
        assert(cloned(pe.zeta_omega@[i], b@[i]));
    }
    assert(a@ =~= pe.zeta@);
    assert(b@ =~= pe.zeta_omega@);
}

proof fn lemma_optional_halves<F: Clone>(
    pe: Option<PointEvaluations<Vec<F>>>,
    a: Option<Vec<F>>,
    b: Option<Vec<F>>,
)
    requires
        clones_faithfully::<F>(),
        option_at(pe, EvalPoint::Zeta, a),
        option_at(pe, EvalPoint::ZetaOmega, b),
    ensures
        are_optional_halves(pe, a, b),
{
    if pe is Some {
        lemma_halves(pe->0, a->0, b->0);
    }
}

} // verus!
