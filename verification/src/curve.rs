//! The two Pasta curves, `y^2 = x^3 + 5` over either field.
//!
//! A group element is a finite point or the identity; [`add_fast`] is the chord
//! and tangent law. Scalar multiples and multi-scalar sums come from arkworks.

use vstd::prelude::*;

use crate::arkworks::{
    ark_pallas_msm, ark_pallas_multiple, ark_vesta_msm, ark_vesta_multiple, pallas_msm,
    pallas_multiple, vesta_msm, vesta_multiple,
};
use crate::expr_eval::lemma_difference_is_zero;
use crate::field::{
    div, equal, fadd, fdiv, fmul, fneg, from_u64, fsub, is_inverse, is_zero,
    lemma_inverse_is_unique, neg, Fp, Fq, PrimeField,
};
use crate::montgomery::limbs_value;

verus! {

/// A finite point.
#[derive(Clone, Copy, Debug, PartialEq, Eq)]
pub struct Point<F: PrimeField> {
    pub x: F,
    pub y: F,
}

impl<F: PrimeField> Point<F> {
    /// The residues of the coordinates.
    pub open spec fn view(&self) -> (int, int) {
        (self.x.view(), self.y.view())
    }
}

/// The residues of a group element, none for the identity.
pub open spec fn element<F: PrimeField>(p: Option<Point<F>>) -> Option<(int, int)> {
    match p {
        None => None,
        Some(q) => Some(q.view()),
    }
}

/// `y^2 = x^3 + 5`.
pub open spec fn on_curve<F: PrimeField>(p: (int, int)) -> bool {
    fmul::<F>(p.1, p.1) == fadd::<F>(fmul::<F>(fmul::<F>(p.0, p.0), p.0), 5)
}

/// The coordinates are residues of a point of the curve.
pub open spec fn is_curve_point<F: PrimeField>(p: (int, int)) -> bool {
    &&& 0 <= p.0 < F::modulus()
    &&& 0 <= p.1 < F::modulus()
    &&& on_curve::<F>(p)
}

/// The third point of the line of slope `slope` through `p` and `q`, reflected.
pub open spec fn third_point<F: PrimeField>(p: (int, int), q: (int, int), slope: int) -> (int, int) {
    let x = fsub::<F>(fsub::<F>(fmul::<F>(slope, slope), p.0), q.0);
    (x, fsub::<F>(fmul::<F>(slope, fsub::<F>(p.0, x)), p.1))
}

/// The group law: chord, tangent, or the identity for opposite points.
pub open spec fn ec_add<F: PrimeField>(a: Option<(int, int)>, b: Option<(int, int)>) -> Option<
    (int, int),
> {
    match (a, b) {
        (None, _) => b,
        (_, None) => a,
        (Some(p), Some(q)) => if p.0 != q.0 {
            Some(third_point::<F>(p, q, fdiv::<F>(fsub::<F>(q.1, p.1), fsub::<F>(q.0, p.0))))
        } else if p.1 == q.1 && p.1 != 0 {
            Some(
                third_point::<F>(
                    p,
                    q,
                    fdiv::<F>(fmul::<F>(3, fmul::<F>(p.0, p.0)), fadd::<F>(p.1, p.1)),
                ),
            )
        } else {
            None
        },
    }
}

/// The `k`-fold sum of a group element.
pub open spec fn ec_multiple<F: PrimeField>(p: Option<(int, int)>, k: nat) -> Option<(int, int)>
    decreases k,
{
    if k == 0 {
        None
    } else {
        ec_add::<F>(ec_multiple::<F>(p, (k - 1) as nat), p)
    }
}

/// Every finite point is on the curve.
pub open spec fn finite_on_curve<F: PrimeField>(points: Seq<Option<(int, int)>>) -> bool {
    forall|i: int|
        0 <= i < points.len() ==> (#[trigger] points[i] matches Some(p) ==> on_curve::<F>(p))
}

/// `sum_i k_i p_i`.
pub open spec fn ec_msm<F: PrimeField>(points: Seq<Option<(int, int)>>, scalars: Seq<int>) -> Option<
    (int, int),
>
    decreases points.len(),
{
    if points.len() == 0 {
        None
    } else {
        ec_add::<F>(
            ec_msm::<F>(points.drop_last(), scalars.drop_last()),
            ec_multiple::<F>(points.last(), scalars.last() as nat),
        )
    }
}

/// Twice a nonzero residue is nonzero.
proof fn lemma_double_nonzero<F: PrimeField>(y: F)
    ensures
        fadd::<F>(y.view(), y.view()) == 0 <==> y.view() == 0,
{
    F::lemma_modulus();
    F::lemma_canonical(y);
    let p = F::modulus();
    let v = y.view();
    if v + v >= p {
        vstd::arithmetic::div_mod::lemma_mod_multiples_vanish(-1, v + v, p);
        vstd::arithmetic::div_mod::lemma_small_mod((v + v - p) as nat, p as nat);
    } else {
        vstd::arithmetic::div_mod::lemma_small_mod((v + v) as nat, p as nat);
    }
}

/// The sum of two finite points; none when it is the identity.
pub fn add_fast<F: PrimeField>(p: &Point<F>, q: &Point<F>) -> (r: Option<Point<F>>)
    ensures
        element(r) == ec_add::<F>(Some(p.view()), Some(q.view())),
{
    proof {
        lemma_difference_is_zero::<F>(q.x, p.x);
        lemma_double_nonzero::<F>(p.y);
    }
    let slope = if !equal(&p.x, &q.x) {
        div(&q.y.sub(&p.y), &q.x.sub(&p.x)).unwrap()
    } else if equal(&p.y, &q.y) && !is_zero(&p.y) {
        let three: F = from_u64(3);
        div(&three.mul(&p.x.mul(&p.x)), &p.y.add(&p.y)).unwrap()
    } else {
        return None;
    };
    let x = slope.mul(&slope).sub(&p.x).sub(&q.x);
    let y = slope.mul(&p.x.sub(&x)).sub(&p.y);
    Some(Point { x, y })
}

/// The sum of two group elements, none standing for the identity.
pub fn add_elements<F: PrimeField>(a: &Option<Point<F>>, b: &Option<Point<F>>) -> (r: Option<
    Point<F>,
>)
    ensures
        element(r) == ec_add::<F>(element(*a), element(*b)),
{
    match (a, b) {
        (Some(p), Some(q)) => add_fast(p, q),
        (Some(p), None) => Some(*p),
        (None, Some(q)) => Some(*q),
        (None, None) => None,
    }
}

/// Whether the point satisfies the curve equation.
pub fn is_on_curve<F: PrimeField>(p: &Point<F>) -> (r: bool)
    ensures
        r == on_curve::<F>(p.view()),
{
    let five: F = from_u64(5);
    equal(&p.y.mul(&p.y), &p.x.mul(&p.x).mul(&p.x).add(&five))
}

/// The opposite point.
pub fn negate<F: PrimeField>(p: &Point<F>) -> (r: Point<F>)
    ensures
        r.view() == (p.x.view(), fneg::<F>(p.y.view())),
{
    Point { x: p.x, y: neg(&p.y) }
}

/// Negation and addition on the curve: a point and its opposite cancel.
pub proof fn opposite_points_cancel<F: PrimeField>(p: Point<F>)
    ensures
        ec_add::<F>(Some(p.view()), Some((p.x.view(), fneg::<F>(p.y.view())))) is None,
{
    F::lemma_modulus();
    F::lemma_canonical(p.y);
    let m = F::modulus();
    let v = p.y.view();
    if v == 0 {
        vstd::arithmetic::div_mod::lemma_small_mod(0, m as nat);
    } else {
        vstd::arithmetic::div_mod::lemma_mod_multiples_vanish(1, -v, m);
        vstd::arithmetic::div_mod::lemma_small_mod((m - v) as nat, m as nat);
    }
}

/// A curve with its two fields.
pub trait Curve {
    type Base: PrimeField;

    type Scalar: PrimeField;

    /// The multiple of a finite point.
    spec fn multiple(p: (int, int), k: int) -> Option<(int, int)>;

    /// The multi-scalar sum.
    spec fn msm_value(points: Seq<Option<(int, int)>>, scalars: Seq<int>) -> Option<(int, int)>;

    /// The multiple of a finite point; none when it is the identity.
    fn scale(p: &Point<Self::Base>, k: &Self::Scalar) -> (r: Option<Point<Self::Base>>)
        ensures
            element(r) == Self::multiple(p.view(), k.view()),
            on_curve::<Self::Base>(p.view()) ==> element(r) == ec_multiple::<Self::Base>(
                Some(p.view()),
                k.view() as nat,
            ),
            on_curve::<Self::Base>(p.view()) ==> (element(r) matches Some(s) ==> is_curve_point::<
                Self::Base,
            >(s)),
            on_curve::<Self::Base>(p.view()) ==> (element(r) matches Some(s) ==> forall|l: int|
                0 <= l < Self::Scalar::modulus() ==> #[trigger] Self::multiple(s, l)
                    == Self::multiple(p.view(), (k.view() * l) % Self::Scalar::modulus())),
            on_curve::<Self::Base>(p.view()) ==> (element(r) matches Some(s) ==> forall|
                a: (int, int),
            |
                is_curve_point::<Self::Base>(a) ==> (#[trigger] ec_add::<Self::Base>(
                    Some(a),
                    Some(s),
                ) matches Some(t) ==> is_curve_point::<Self::Base>(t))),
            on_curve::<Self::Base>(p.view()) ==> (element(r) matches Some(s) ==> forall|
                a: (int, int),
                t: (int, int),
                l: int,
            |
                #![trigger Self::multiple(a, l), Self::multiple(t, l)]
                is_curve_point::<Self::Base>(a) && ec_add::<Self::Base>(Some(a), Some(s)) == Some(t)
                    && 0 <= l < Self::Scalar::modulus() ==> Self::multiple(t, l) == ec_add::<
                    Self::Base,
                >(Self::multiple(a, l), Self::multiple(s, l))),
    ;

    /// The multi-scalar sum; none when it is the identity.
    fn sum_of_multiples(
        points: &Vec<Option<Point<Self::Base>>>,
        scalars: &Vec<Self::Scalar>,
    ) -> (r: Option<Point<Self::Base>>)
        requires
            points@.len() == scalars@.len(),
        ensures
            element(r) == Self::msm_value(elements(points@), scalar_residues(scalars@)),
            finite_on_curve::<Self::Base>(elements(points@)) ==> element(r) == ec_msm::<Self::Base>(
                elements(points@),
                scalar_residues(scalars@),
            ),
    ;
}

/// The residues of a list of group elements.
pub open spec fn elements<F: PrimeField>(points: Seq<Option<Point<F>>>) -> Seq<Option<(int, int)>> {
    Seq::new(points.len(), |i: int| element(points[i]))
}

/// The residues of a list of points.
pub open spec fn point_residues<F: PrimeField>(points: Seq<Point<F>>) -> Seq<(int, int)> {
    Seq::new(points.len(), |i: int| points[i].view())
}

/// The residues of a list of scalars.
pub open spec fn scalar_residues<F: PrimeField>(scalars: Seq<F>) -> Seq<int> {
    Seq::new(scalars.len(), |i: int| scalars[i].view())
}

/// The limbs of each group element, as residues.
pub open spec fn limb_elements(points: Seq<Option<([u64; 4], [u64; 4])>>) -> Seq<
    Option<(int, int)>,
> {
    Seq::new(points.len(), |i: int| limb_element(points[i]))
}

/// The limbs of each scalar, as residues.
pub open spec fn limb_scalars(scalars: Seq<[u64; 4]>) -> Seq<int> {
    Seq::new(scalars.len(), |i: int| limbs_value(scalars[i]))
}

/// The limbs of a group element.
pub(crate) fn point_to_limbs<F: PrimeField>(p: &Option<Point<F>>) -> (r: Option<
    ([u64; 4], [u64; 4]),
>)
    ensures
        limb_element(r) == element(*p),
        r matches Some((x, y)) ==> limbs_value(x) < F::modulus() && limbs_value(y) < F::modulus(),
{
    match p {
        None => None,
        Some(q) => {
            proof {
                F::lemma_canonical(q.x);
                F::lemma_canonical(q.y);
            }
            Some((q.x.to_limbs(), q.y.to_limbs()))
        },
    }
}

fn points_to_limbs<F: PrimeField>(points: &Vec<Option<Point<F>>>) -> (r: Vec<
    Option<([u64; 4], [u64; 4])>,
>)
    ensures
        limb_elements(r@) == elements(points@),
        forall|i: int|
            0 <= i < r@.len() ==> (#[trigger] r@[i] matches Some((x, y)) ==> limbs_value(x)
                < F::modulus() && limbs_value(y) < F::modulus()),
{
    let mut out: Vec<Option<([u64; 4], [u64; 4])>> = Vec::new();
    let mut i: usize = 0;
    while i < points.len()
        invariant
            i <= points@.len(),
            out@.len() == i,
            forall|k: int|
                0 <= k < i ==> limb_element(#[trigger] out@[k]) == element(points@[k]) && (out@[k]
                    matches Some((x, y)) ==> limbs_value(x) < F::modulus() && limbs_value(y)
                    < F::modulus()),
        decreases points.len() - i,
    {
        out.push(point_to_limbs(&points[i]));
        i = i + 1;
    }
    assert(limb_elements(out@) =~= elements(points@));
    out
}

pub(crate) fn scalars_to_limbs<F: PrimeField>(scalars: &Vec<F>) -> (r: Vec<[u64; 4]>)
    ensures
        limb_scalars(r@) == scalar_residues(scalars@),
        forall|i: int| 0 <= i < r@.len() ==> limbs_value(#[trigger] r@[i]) < F::modulus(),
{
    let mut out: Vec<[u64; 4]> = Vec::new();
    let mut i: usize = 0;
    while i < scalars.len()
        invariant
            i <= scalars@.len(),
            out@.len() == i,
            forall|k: int| 0 <= k < i ==> limbs_value(#[trigger] out@[k]) == scalars@[k].view(),
        decreases scalars.len() - i,
    {
        out.push(scalars[i].to_limbs());
        i = i + 1;
    }
    assert(limb_scalars(out@) =~= scalar_residues(scalars@));
    assert forall|i: int| 0 <= i < out@.len() implies limbs_value(#[trigger] out@[i])
        < F::modulus() by {
        F::lemma_canonical(scalars@[i]);
    }
    out
}

/// The Pallas curve.
pub struct Pallas;

/// The Vesta curve.
pub struct Vesta;

pub(crate) fn point_from_limbs<F: PrimeField>(limbs: Option<([u64; 4], [u64; 4])>) -> (r: Option<Point<F>>)
    requires
        limbs matches Some((x, y)) ==> limbs_value(x) < F::modulus() && limbs_value(y)
            < F::modulus(),
    ensures
        element(r) == limb_element(limbs),
{
    match limbs {
        None => None,
        Some((x, y)) => Some(
            Point { x: F::from_limbs(x).unwrap(), y: F::from_limbs(y).unwrap() },
        ),
    }
}

/// The residues of a group element given by its limbs.
pub open spec fn limb_element(limbs: Option<([u64; 4], [u64; 4])>) -> Option<(int, int)> {
    match limbs {
        None => None,
        Some((x, y)) => Some((limbs_value(x), limbs_value(y))),
    }
}

impl Curve for Pallas {
    type Base = Fp;

    type Scalar = Fq;

    open spec fn multiple(p: (int, int), k: int) -> Option<(int, int)> {
        pallas_multiple(p.0, p.1, k)
    }

    open spec fn msm_value(points: Seq<Option<(int, int)>>, scalars: Seq<int>) -> Option<
        (int, int),
    > {
        pallas_msm(points, scalars)
    }

    fn scale(p: &Point<Fp>, k: &Fq) -> (r: Option<Point<Fp>>) {
        proof {
            Fp::lemma_canonical(p.x);
            Fp::lemma_canonical(p.y);
            Fq::lemma_canonical(*k);
        }
        point_from_limbs(ark_pallas_multiple(p.x.to_limbs(), p.y.to_limbs(), k.to_limbs()))
    }

    fn sum_of_multiples(points: &Vec<Option<Point<Fp>>>, scalars: &Vec<Fq>) -> (r: Option<
        Point<Fp>,
    >) {
        let ps = points_to_limbs(points);
        let ks = scalars_to_limbs(scalars);
        proof {
            assert(ps@.len() == limb_elements(ps@).len());
            assert(ks@.len() == limb_scalars(ks@).len());
        }
        point_from_limbs(ark_pallas_msm(&ps, &ks))
    }
}

impl Curve for Vesta {
    type Base = Fq;

    type Scalar = Fp;

    open spec fn multiple(p: (int, int), k: int) -> Option<(int, int)> {
        vesta_multiple(p.0, p.1, k)
    }

    open spec fn msm_value(points: Seq<Option<(int, int)>>, scalars: Seq<int>) -> Option<
        (int, int),
    > {
        vesta_msm(points, scalars)
    }

    fn scale(p: &Point<Fq>, k: &Fp) -> (r: Option<Point<Fq>>) {
        proof {
            Fq::lemma_canonical(p.x);
            Fq::lemma_canonical(p.y);
            Fp::lemma_canonical(*k);
        }
        point_from_limbs(ark_vesta_multiple(p.x.to_limbs(), p.y.to_limbs(), k.to_limbs()))
    }

    fn sum_of_multiples(points: &Vec<Option<Point<Fq>>>, scalars: &Vec<Fp>) -> (r: Option<
        Point<Fq>,
    >) {
        let ps = points_to_limbs(points);
        let ks = scalars_to_limbs(scalars);
        proof {
            assert(ps@.len() == limb_elements(ps@).len());
            assert(ks@.len() == limb_scalars(ks@).len());
        }
        point_from_limbs(ark_vesta_msm(&ps, &ks))
    }
}

/// The points and scalars of a multi-scalar sum differ in number.
#[derive(Clone, Copy, Debug, PartialEq, Eq, Structural)]
pub struct LengthMismatch {
    pub points: usize,
    pub scalars: usize,
}

/// The multi-scalar sum of as many points as scalars, none standing for the
/// identity.
pub fn msm<C: Curve>(points: &Vec<Option<Point<C::Base>>>, scalars: &Vec<C::Scalar>) -> (r: Result<
    Option<Point<C::Base>>,
    LengthMismatch,
>)
    ensures
        r is Ok <==> points@.len() == scalars@.len(),
        r matches Err(e) ==> e.points == points@.len() && e.scalars == scalars@.len(),
        r matches Ok(sum) ==> element(sum) == C::msm_value(
            elements(points@),
            scalar_residues(scalars@),
        ),
        r matches Ok(sum) ==> finite_on_curve::<C::Base>(elements(points@)) ==> element(sum)
            == ec_msm::<C::Base>(elements(points@), scalar_residues(scalars@)),
{
    if points.len() != scalars.len() {
        return Err(LengthMismatch { points: points.len(), scalars: scalars.len() });
    }
    Ok(C::sum_of_multiples(points, scalars))
}

/// The sum of two points with different abscissas lies on their line: with the
/// line's slope `s`, the three abscissas add up to `s^2`, and the third ordinate
/// is opposite to that of the line.
pub proof fn sums_lie_on_the_line<F: PrimeField>(p: (int, int), q: (int, int), inv: int)
    requires
        p.0 != q.0,
        0 <= p.0 < F::modulus(),
        0 <= p.1 < F::modulus(),
        0 <= q.0 < F::modulus(),
        is_inverse(F::modulus(), fsub::<F>(q.0, p.0), inv),
    ensures
        ({
            let s = fmul::<F>(fsub::<F>(q.1, p.1), inv);
            &&& ec_add::<F>(Some(p), Some(q)) matches Some(r) && fmul::<F>(
                s,
                fsub::<F>(q.0, p.0),
            ) == fsub::<F>(q.1, p.1) && (r.0 + p.0 + q.0) % F::modulus() == fmul::<F>(s, s) && (r.1
                + p.1) % F::modulus() == fmul::<F>(s, fsub::<F>(p.0, r.0))
        }),
{
    let d = fsub::<F>(q.0, p.0);
    let e = fsub::<F>(q.1, p.1);
    lemma_inverse_is_unique::<F>(d, inv);
    let s = fmul::<F>(e, inv);
    lemma_slope::<F>(e, d, inv);
    lemma_third_point::<F>(p, q, s);
}

/// Doubling uses the tangent: with its slope `s`, `2 y s = 3 x^2`, the abscissa of
/// the double is `s^2 - 2 x`, and its ordinate is opposite to that of the tangent.
pub proof fn doubles_lie_on_the_tangent<F: PrimeField>(p: (int, int), inv: int)
    requires
        p.1 != 0,
        0 <= p.0 < F::modulus(),
        0 <= p.1 < F::modulus(),
        is_inverse(F::modulus(), fadd::<F>(p.1, p.1), inv),
    ensures
        ({
            let t = fmul::<F>(3, fmul::<F>(p.0, p.0));
            let s = fmul::<F>(t, inv);
            &&& ec_add::<F>(Some(p), Some(p)) matches Some(r) && fmul::<F>(
                s,
                fadd::<F>(p.1, p.1),
            ) == t && (r.0 + p.0 + p.0) % F::modulus() == fmul::<F>(s, s) && (r.1 + p.1)
                % F::modulus() == fmul::<F>(s, fsub::<F>(p.0, r.0))
        }),
{
    let d = fadd::<F>(p.1, p.1);
    let t = fmul::<F>(3, fmul::<F>(p.0, p.0));
    lemma_inverse_is_unique::<F>(d, inv);
    let s = fmul::<F>(t, inv);
    lemma_slope::<F>(t, d, inv);
    lemma_third_point::<F>(p, p, s);
}

proof fn lemma_slope<F: PrimeField>(e: int, d: int, inv: int)
    requires
        is_inverse(F::modulus(), d, inv),
        exists|x: int| e == #[trigger] (x % F::modulus()),
    ensures
        fmul::<F>(fmul::<F>(e, inv), d) == e,
{
    F::lemma_modulus();
    let x = choose|x: int| e == #[trigger] (x % F::modulus());
    crate::ring::lemma_mul_associates::<F>(e, inv, d);
    crate::ring::lemma_mul_commutes::<F>(inv, d);
    vstd::arithmetic::div_mod::lemma_mod_bound(x, F::modulus());
    crate::ring::lemma_mul_units::<F>(e);
}

proof fn lemma_third_point<F: PrimeField>(p: (int, int), q: (int, int), s: int)
    ensures
        ({
            let r = third_point::<F>(p, q, s);
            &&& (r.0 + p.0 + q.0) % F::modulus() == fmul::<F>(s, s)
            &&& (r.1 + p.1) % F::modulus() == fmul::<F>(s, fsub::<F>(p.0, r.0))
        }),
{
    let m = F::modulus();
    F::lemma_modulus();
    let s2 = fmul::<F>(s, s);
    let r = third_point::<F>(p, q, s);
    crate::ring::lemma_operands_may_be_reduced::<F>(s2 - p.0, q.0);
    crate::ring::lemma_operands_may_be_reduced::<F>(s2 - p.0 - q.0, p.0 + q.0);
    vstd::arithmetic::div_mod::lemma_mod_twice(s * s, m);
    let l = fmul::<F>(s, fsub::<F>(p.0, r.0));
    crate::ring::lemma_operands_may_be_reduced::<F>(l - p.1, p.1);
    vstd::arithmetic::div_mod::lemma_mod_twice(s * fsub::<F>(p.0, r.0), m);
}

/// The curve is `y^2 = x^3 + 5`; the identity adds nothing; a point and its
/// opposite give the identity.
pub proof fn the_curve_and_its_identity<F: PrimeField>(p: (int, int), a: Option<(int, int)>)
    ensures
        on_curve::<F>(p) <==> (p.1 * p.1) % F::modulus() == (p.0 * p.0 * p.0 + 5) % F::modulus(),
        is_curve_point::<F>(p) <==> 0 <= p.0 < F::modulus() && 0 <= p.1 < F::modulus()
            && on_curve::<F>(p),
        ec_add::<F>(None, a) == a,
        ec_add::<F>(a, None) == a,
        ec_multiple::<F>(a, 0) == None::<(int, int)>,
        ec_multiple::<F>(a, 1) == a,
        ec_multiple::<F>(a, 2) == ec_add::<F>(a, a),
{
    crate::ring::lemma_operands_may_be_reduced::<F>(p.0 * p.0, p.0);
    crate::ring::lemma_operands_may_be_reduced::<F>(p.0 * p.0 * p.0, 5);
    reveal_with_fuel(ec_multiple, 3);
}

/// A multi-scalar sum takes each point as often as the scalar of its own place.
pub proof fn scalars_weigh_their_own_points<F: PrimeField>(
    points: Seq<Option<(int, int)>>,
    scalars: Seq<int>,
    p: Option<(int, int)>,
    k: nat,
)
    requires
        points.len() == scalars.len(),
    ensures
        ec_msm::<F>(points.push(p), scalars.push(k as int)) == ec_add::<F>(
            ec_msm::<F>(points, scalars),
            ec_multiple::<F>(p, k),
        ),
        ec_msm::<F>(seq![p], seq![k as int]) == ec_multiple::<F>(p, k),
{
    assert(points.push(p).drop_last() =~= points);
    assert(scalars.push(k as int).drop_last() =~= scalars);
    assert(seq![p].drop_last() =~= Seq::<Option<(int, int)>>::empty());
    reveal_with_fuel(ec_msm, 2);
}

/// Lists of points and scalars show item by item.
pub proof fn lists_show_item_by_item<F: PrimeField>(
    points: Seq<Point<F>>,
    maybe: Seq<Option<Point<F>>>,
    scalars: Seq<F>,
    i: int,
)
    ensures
        point_residues(points).len() == points.len(),
        0 <= i < points.len() ==> point_residues(points)[i] == (
            points[i].x.view(),
            points[i].y.view(),
        ),
        elements(maybe).len() == maybe.len(),
        0 <= i < maybe.len() ==> (maybe[i] is None <==> elements(maybe)[i] is None),
        0 <= i < maybe.len() && maybe[i] is Some ==> elements(maybe)[i] == Some(
            (maybe[i]->0.x.view(), maybe[i]->0.y.view()),
        ),
        scalar_residues(scalars).len() == scalars.len(),
        0 <= i < scalars.len() ==> scalar_residues(scalars)[i] == scalars[i].view(),
{
}

/// A multiple grows by the point itself.
pub proof fn multiples_grow_by_the_point<F: PrimeField>(p: Option<(int, int)>, k: nat)
    ensures
        ec_multiple::<F>(p, k + 1) == ec_add::<F>(ec_multiple::<F>(p, k), p),
{
}

} // verus!
