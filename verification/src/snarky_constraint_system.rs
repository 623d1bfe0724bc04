//! Circuit variables and constraints as a front end hands them over.

use vstd::prelude::*;

use crate::field::PrimeField;

verus! {

/// A circuit variable, as a flattened linear combination: a constant and terms of
/// a coefficient and a variable's index.
pub struct LinComCvar<F>(pub Option<F>, pub Vec<(F, usize)>);

impl<F: Clone> LinComCvar<F> {
    /// The constant and the terms.
    pub fn to_constant_and_terms(&self) -> (r: (Option<F>, Vec<(F, usize)>))
        ensures
            match (self.0, r.0) {
                (None, None) => true,
                (Some(constant), Some(copy)) => cloned(constant, copy),
                _ => false,
            },
            r.1@.len() == self.1@.len(),
            forall|i: int|
                0 <= i < self.1@.len() ==> cloned(self.1@[i].0, (#[trigger] r.1@[i]).0)
                    && r.1@[i].1 == self.1@[i].1,
    {
        let mut terms: Vec<(F, usize)> = Vec::new();
        let mut i: usize = 0;
        while i < self.1.len()
            invariant
                i <= self.1@.len(),
                terms@.len() == i,
                forall|k: int|
                    0 <= k < i ==> cloned(self.1@[k].0, (#[trigger] terms@[k]).0) && terms@[k].1
                        == self.1@[k].1,
            decreases self.1.len() - i,
        {
            terms.push((self.1[i].0.clone(), self.1[i].1));
            i = i + 1;
        }
        let constant = match &self.0 {
            None => None,
            Some(c) => Some(c.clone()),
        };
        (constant, terms)
    }
}

/// The linear combination of a constant and of as many coefficients as indices.
pub fn lincom<F: PrimeField>(constant: Option<F>, coeffs: &Vec<F>, indices: &Vec<u32>) -> (r:
    LinComCvar<F>)
    requires
        coeffs@.len() == indices@.len(),
    ensures
        r.0 == constant,
        r.1@ == Seq::new(coeffs@.len(), |i: int| (coeffs@[i], indices@[i] as usize)),
{
    let mut terms: Vec<(F, usize)> = Vec::new();
    let mut i: usize = 0;
    while i < coeffs.len()
        invariant
            i <= coeffs@.len(),
            coeffs@.len() == indices@.len(),
            terms@.len() == i,
            forall|k: int|
                0 <= k < i ==> #[trigger] terms@[k] == (coeffs@[k], indices@[k] as usize),
        decreases coeffs.len() - i,
    {
        terms.push((coeffs[i], indices[i] as usize));
        i = i + 1;
    }
    assert(terms@ =~= Seq::new(coeffs@.len(), |i: int| (coeffs@[i], indices@[i] as usize)));
    LinComCvar(constant, terms)
}

/// A complete addition of points.
pub struct EcAddCompleteInput<F: PrimeField> {
    pub p1: (LinComCvar<F>, LinComCvar<F>),
    pub p2: (LinComCvar<F>, LinComCvar<F>),
    pub p3: (LinComCvar<F>, LinComCvar<F>),
    pub inf: LinComCvar<F>,
    pub same_x: LinComCvar<F>,
    pub slope: LinComCvar<F>,
    pub inf_z: LinComCvar<F>,
    pub x21_inv: LinComCvar<F>,
}

impl<F: PrimeField> EcAddCompleteInput<F> {
    /// The variables: the three points, then the five auxiliary values.
    pub open spec fn variables(self) -> Seq<LinComCvar<F>> {
        seq![
            self.p1.0,
            self.p1.1,
            self.p2.0,
            self.p2.1,
            self.p3.0,
            self.p3.1,
            self.inf,
            self.same_x,
            self.slope,
            self.inf_z,
            self.x21_inv,
        ]
    }
}

/// A complete addition, its variables in the order
/// `[x1, y1, x2, y2, x3, y3, inf, same_x, slope, inf_z, x21_inv]`.
pub fn ec_add_complete<F: PrimeField>(vars: Vec<LinComCvar<F>>) -> (r: EcAddCompleteInput<F>)
    requires
        vars@.len() == 11,
    ensures
        r.p1 == (vars@[0], vars@[1]),
        r.p2 == (vars@[2], vars@[3]),
        r.p3 == (vars@[4], vars@[5]),
        r.inf == vars@[6],
        r.same_x == vars@[7],
        r.slope == vars@[8],
        r.inf_z == vars@[9],
        r.x21_inv == vars@[10],
        r.variables() == vars@,
{
    let mut vars = vars;
    let x21_inv = vars.pop().unwrap();
    let inf_z = vars.pop().unwrap();
    let slope = vars.pop().unwrap();
    let same_x = vars.pop().unwrap();
    let inf = vars.pop().unwrap();
    let y3 = vars.pop().unwrap();
    let x3 = vars.pop().unwrap();
    let y2 = vars.pop().unwrap();
    let x2 = vars.pop().unwrap();
    let y1 = vars.pop().unwrap();
    let x1 = vars.pop().unwrap();
    EcAddCompleteInput {
        p1: (x1, y1),
        p2: (x2, y2),
        p3: (x3, y3),
        inf,
        same_x,
        slope,
        inf_z,
        x21_inv,
    }
}

/// One round of an endomorphism-accelerated multiple.
pub struct EndoscaleRound<F: PrimeField> {
    pub xt: LinComCvar<F>,
    pub yt: LinComCvar<F>,
    pub xp: LinComCvar<F>,
    pub yp: LinComCvar<F>,
    pub n_acc: LinComCvar<F>,
    pub xr: LinComCvar<F>,
    pub yr: LinComCvar<F>,
    pub s1: LinComCvar<F>,
    pub s3: LinComCvar<F>,
    pub b1: LinComCvar<F>,
    pub b2: LinComCvar<F>,
    pub b3: LinComCvar<F>,
    pub b4: LinComCvar<F>,
    pub inv: LinComCvar<F>,
}

impl<F: PrimeField> EndoscaleRound<F> {
    /// The variables in the order of the fields.
    pub open spec fn variables(self) -> Seq<LinComCvar<F>> {
        seq![
            self.xt,
            self.yt,
            self.xp,
            self.yp,
            self.n_acc,
            self.xr,
            self.yr,
            self.s1,
            self.s3,
            self.b1,
            self.b2,
            self.b3,
            self.b4,
            self.inv,
        ]
    }
}

/// A round from its variables in the order of the fields; any further ones are
/// left out.
pub fn endoscale_round<F: PrimeField>(vars: Vec<LinComCvar<F>>) -> (r: EndoscaleRound<F>)
    requires
        vars@.len() >= 14,
    ensures
        r.xt == vars@[0],
        r.yt == vars@[1],
        r.xp == vars@[2],
        r.yp == vars@[3],
        r.n_acc == vars@[4],
        r.xr == vars@[5],
        r.yr == vars@[6],
        r.s1 == vars@[7],
        r.s3 == vars@[8],
        r.b1 == vars@[9],
        r.b2 == vars@[10],
        r.b3 == vars@[11],
        r.b4 == vars@[12],
        r.inv == vars@[13],
        r.variables() == vars@.take(14),
{
    let mut vars = vars;
    vars.truncate(14);
    let inv = vars.pop().unwrap();
    let b4 = vars.pop().unwrap();
    let b3 = vars.pop().unwrap();
    let b2 = vars.pop().unwrap();
    let b1 = vars.pop().unwrap();
    let s3 = vars.pop().unwrap();
    let s1 = vars.pop().unwrap();
    let yr = vars.pop().unwrap();
    let xr = vars.pop().unwrap();
    let n_acc = vars.pop().unwrap();
    let yp = vars.pop().unwrap();
    let xp = vars.pop().unwrap();
    let yt = vars.pop().unwrap();
    let xt = vars.pop().unwrap();
    EndoscaleRound { xt, yt, xp, yp, n_acc, xr, yr, s1, s3, b1, b2, b3, b4, inv }
}

/// One round of the scalar of an endomorphism-accelerated multiple.
pub struct EndoscaleScalarRound<F: PrimeField> {
    pub n0: LinComCvar<F>,
    pub n8: LinComCvar<F>,
    pub a0: LinComCvar<F>,
    pub b0: LinComCvar<F>,
    pub a8: LinComCvar<F>,
    pub b8: LinComCvar<F>,
    pub x0: LinComCvar<F>,
    pub x1: LinComCvar<F>,
    pub x2: LinComCvar<F>,
    pub x3: LinComCvar<F>,
    pub x4: LinComCvar<F>,
    pub x5: LinComCvar<F>,
    pub x6: LinComCvar<F>,
    pub x7: LinComCvar<F>,
}

impl<F: PrimeField> EndoscaleScalarRound<F> {
    /// The variables in the order of the fields.
    pub open spec fn variables(self) -> Seq<LinComCvar<F>> {
        seq![
            self.n0,
            self.n8,
            self.a0,
            self.b0,
            self.a8,
            self.b8,
            self.x0,
            self.x1,
            self.x2,
            self.x3,
            self.x4,
            self.x5,
            self.x6,
            self.x7,
        ]
    }
}

/// A round from its variables in the order of the fields; any further ones are
/// left out.
pub fn endoscale_scalar_round<F: PrimeField>(vars: Vec<LinComCvar<F>>) -> (r: EndoscaleScalarRound<F>)
    requires
        vars@.len() >= 14,
    ensures
        r.n0 == vars@[0],
        r.n8 == vars@[1],
        r.a0 == vars@[2],
        r.b0 == vars@[3],
        r.a8 == vars@[4],
        r.b8 == vars@[5],
        r.x0 == vars@[6],
        r.x1 == vars@[7],
        r.x2 == vars@[8],
        r.x3 == vars@[9],
        r.x4 == vars@[10],
        r.x5 == vars@[11],
        r.x6 == vars@[12],
        r.x7 == vars@[13],
        r.variables() == vars@.take(14),
{
    let mut vars = vars;
    vars.truncate(14);
    let x7 = vars.pop().unwrap();
    let x6 = vars.pop().unwrap();
    let x5 = vars.pop().unwrap();
    let x4 = vars.pop().unwrap();
    let x3 = vars.pop().unwrap();
    let x2 = vars.pop().unwrap();
    let x1 = vars.pop().unwrap();
    let x0 = vars.pop().unwrap();
    let b8 = vars.pop().unwrap();
    let a8 = vars.pop().unwrap();
    let b0 = vars.pop().unwrap();
    let a0 = vars.pop().unwrap();
    let n8 = vars.pop().unwrap();
    let n0 = vars.pop().unwrap();
    EndoscaleScalarRound { n0, n8, a0, b0, a8, b8, x0, x1, x2, x3, x4, x5, x6, x7 }
}

/// The variables of a complete addition: both summands, the sum, each abscissa
/// first, and then the auxiliary values by name.
pub proof fn additions_list_their_points_first<F: PrimeField>(r: EcAddCompleteInput<F>)
    ensures
        r.variables().len() == 11,
        r.variables()[0] == r.p1.0,
        r.variables()[1] == r.p1.1,
        r.variables()[2] == r.p2.0,
        r.variables()[3] == r.p2.1,
        r.variables()[4] == r.p3.0,
        r.variables()[5] == r.p3.1,
        r.variables()[6] == r.inf,
        r.variables()[7] == r.same_x,
        r.variables()[8] == r.slope,
        r.variables()[9] == r.inf_z,
        r.variables()[10] == r.x21_inv,
{
}

/// The variables of a round by name: the base, the accumulator, the counter, the
/// result, the slopes, the bits and the inverse.
pub proof fn rounds_list_their_fields<F: PrimeField>(r: EndoscaleRound<F>)
    ensures
        r.variables().len() == 14,
        r.variables()[0] == r.xt,
        r.variables()[1] == r.yt,
        r.variables()[2] == r.xp,
        r.variables()[3] == r.yp,
        r.variables()[4] == r.n_acc,
        r.variables()[5] == r.xr,
        r.variables()[6] == r.yr,
        r.variables()[7] == r.s1,
        r.variables()[8] == r.s3,
        r.variables()[9] == r.b1,
        r.variables()[10] == r.b2,
        r.variables()[11] == r.b3,
        r.variables()[12] == r.b4,
        r.variables()[13] == r.inv,
{
}

/// The variables of a scalar's round by name: the counter before and after, the
/// two halves before and after, and the eight digits.
pub proof fn scalar_rounds_list_their_fields<F: PrimeField>(r: EndoscaleScalarRound<F>)
    ensures
        r.variables().len() == 14,
        r.variables()[0] == r.n0,
        r.variables()[1] == r.n8,
        r.variables()[2] == r.a0,
        r.variables()[3] == r.b0,
        r.variables()[4] == r.a8,
        r.variables()[5] == r.b8,
        r.variables()[6] == r.x0,
        r.variables()[7] == r.x1,
        r.variables()[8] == r.x2,
        r.variables()[9] == r.x3,
        r.variables()[10] == r.x4,
        r.variables()[11] == r.x5,
        r.variables()[12] == r.x6,
        r.variables()[13] == r.x7,
{
}

} // verus!
