//! Commitment combinations of the verifier.

use vstd::arithmetic::div_mod::{lemma_add_mod_noop, lemma_mod_twice};
use vstd::arithmetic::power::pow;
use vstd::prelude::*;

use crate::curve::{
    add_fast, ec_add, element, is_curve_point, negate, point_residues, Curve, Point,
};
use crate::expr_eval::pow_circuit;
use crate::field::{fadd, fneg, fpow, from_bool, from_u64, one, PrimeField};
use crate::montgomery::{limbs_sub, limbs_value};
use crate::ring::{lemma_pow_small, lemma_pow_sum, lemma_results_are_canonical};

verus! {

/// A scalar of the curve, represented in the circuit's own field: shifted once,
/// or shifted and split into its upper bits and its lowest one.
#[derive(Clone, Copy, Debug)]
pub enum ShiftedScalar<F: PrimeField> {
    /// The scalar is `2 n + 2^bits + 1`.
    Type1(F),
    /// The scalar is `2 half + odd + 2^bits`.
    Type2(F, bool),
}

impl<F: PrimeField> ShiftedScalar<F> {
    /// The scalar, in a field of scalars, for the given number of bits.
    pub open spec fn scalar<S: PrimeField>(self, num_bits: nat) -> int {
        match self {
            ShiftedScalar::Type1(n) => fadd::<S>(
                fadd::<S>(n.view() % S::modulus(), n.view() % S::modulus()),
                fadd::<S>(fpow::<S>(2, num_bits), 1),
            ),
            ShiftedScalar::Type2(half, odd) => fadd::<S>(
                fadd::<S>(
                    fadd::<S>(half.view() % S::modulus(), half.view() % S::modulus()),
                    if odd {
                        1
                    } else {
                        0
                    },
                ),
                fpow::<S>(2, num_bits),
            ),
        }
    }

    /// The elements that a transcript absorbs for the scalar.
    pub open spec fn absorbed_spec(self) -> Seq<int> {
        match self {
            ShiftedScalar::Type1(n) => seq![n.view()],
            ShiftedScalar::Type2(half, odd) => seq![
                half.view(),
                if odd {
                    1
                } else {
                    0
                },
            ],
        }
    }

    /// The scalar, in a field of scalars.
    pub fn to_scalar<S: PrimeField>(&self, num_bits: u64) -> (r: S)
        ensures
            r.view() == self.scalar::<S>(num_bits as nat),
    {
        let two_to_bits: S = pow_circuit(&from_u64(2), num_bits);
        match self {
            ShiftedScalar::Type1(n) => {
                let m: S = embed(n);
                m.add(&m).add(&two_to_bits.add(&one()))
            },
            ShiftedScalar::Type2(half, odd) => {
                let m: S = embed(half);
                m.add(&m).add(&from_bool(*odd)).add(&two_to_bits)
            },
        }
    }

    /// The elements that a transcript absorbs for the scalar.
    pub fn absorbed(&self) -> (r: Vec<F>)
        ensures
            crate::field::residues(r@) == self.absorbed_spec(),
    {
        let mut out: Vec<F> = Vec::new();
        match self {
            ShiftedScalar::Type1(n) => {
                out.push(*n);
            },
            ShiftedScalar::Type2(half, odd) => {
                out.push(*half);
                out.push(from_bool(*odd));
            },
        }
        assert(crate::field::residues(out@) =~= self.absorbed_spec());
        out
    }
}

/// A residue of one field as a residue of the other.
pub fn embed<F: PrimeField, S: PrimeField>(x: &F) -> (r: S)
    ensures
        r.view() == x.view() % S::modulus(),
{
    let l = x.to_limbs();
    proof {
        F::lemma_canonical(*x);
        F::lemma_modulus();
        S::lemma_modulus();
    }
    match S::from_limbs(l) {
        Some(r) => {
            proof {
                vstd::arithmetic::div_mod::lemma_small_mod(
                    x.view() as nat,
                    S::modulus() as nat,
                );
            }
            r
        },
        None => {
            let m = minus_one::<S>();
            let d = limbs_sub(&l, &m.to_limbs());
            proof {
                // x - p, through (x - (p - 1)) - 1
                vstd::arithmetic::div_mod::lemma_mod_multiples_vanish(
                    -1,
                    x.view(),
                    S::modulus(),
                );
                vstd::arithmetic::div_mod::lemma_small_mod(
                    (x.view() - S::modulus()) as nat,
                    S::modulus() as nat,
                );
                vstd::arithmetic::div_mod::lemma_small_mod(
                    (limbs_value(d) - 1) as nat,
                    S::modulus() as nat,
                );
            }
            S::from_limbs(d).unwrap().sub(&one())
        },
    }
}

/// The largest residue.
fn minus_one<S: PrimeField>() -> (r: S)
    ensures
        r.view() == S::modulus() - 1,
{
    proof {
        S::lemma_modulus();
        vstd::arithmetic::div_mod::lemma_mod_multiples_vanish(1, -1, S::modulus());
        vstd::arithmetic::div_mod::lemma_small_mod(
            (S::modulus() - 1) as nat,
            S::modulus() as nat,
        );
    }
    crate::field::zero::<S>().sub(&one())
}

/// The multiple of a group element that is known to be finite; none otherwise.
pub open spec fn scale_element<C: Curve>(p: Option<(int, int)>, k: int) -> Option<(int, int)> {
    match p {
        None => None,
        Some(q) => C::multiple(q, k),
    }
}

/// The sum of two group elements where both are finite and so is the sum.
pub open spec fn add_finite<F: PrimeField>(a: Option<(int, int)>, b: Option<(int, int)>) -> Option<
    (int, int),
> {
    if a is None || b is None {
        None
    } else {
        ec_add::<F>(a, b)
    }
}

pub(crate) fn add_options<F: PrimeField>(a: &Option<Point<F>>, b: &Option<Point<F>>) -> (r: Option<Point<F>>)
    ensures
        element(r) == add_finite::<F>(element(*a), element(*b)),
{
    match (a, b) {
        (Some(p), Some(q)) => add_fast(p, q),
        _ => None,
    }
}

pub(crate) fn scale_option<C: Curve>(p: &Option<Point<C::Base>>, k: &C::Scalar) -> (r: Option<
    Point<C::Base>,
>)
    ensures
        element(r) == scale_element::<C>(element(*p), k.view()),
{
    match p {
        None => None,
        Some(q) => C::scale(q, k),
    }
}

/// A chunked commitment combined by a scalar, `c_0 + k (c_1 + k (..))`, as long
/// as every partial sum is finite.
pub open spec fn reduced<C: Curve>(comm: Seq<(int, int)>, k: int) -> Option<(int, int)>
    decreases comm.len(),
{
    if comm.len() == 0 {
        None
    } else if comm.len() == 1 {
        Some(comm[0])
    } else {
        add_finite::<C::Base>(
            Some(comm[0]),
            scale_element::<C>(reduced::<C>(comm.drop_first(), k), k),
        )
    }
}

/// Every point is on the curve.
pub open spec fn are_curve_points<F: PrimeField>(points: Seq<(int, int)>) -> bool {
    forall|i: int| 0 <= i < points.len() ==> is_curve_point::<F>(#[trigger] points[i])
}

/// `xi^i p`.
pub open spec fn power_term<C: Curve>(p: (int, int), xi: int, i: nat) -> Option<(int, int)> {
    if i == 0 {
        Some(p)
    } else {
        C::multiple(p, fpow::<C::Scalar>(xi, i))
    }
}

/// `xi^i p_0 + xi^(i+1) p_1 + ..`.
pub open spec fn sum_of_powers<C: Curve>(points: Seq<(int, int)>, xi: int, i: nat) -> Option<
    (int, int),
>
    decreases points.len(),
{
    if points.len() == 0 {
        None
    } else {
        ec_add::<C::Base>(
            power_term::<C>(points[0], xi, i),
            sum_of_powers::<C>(points.drop_first(), xi, i + 1),
        )
    }
}

/// The point is a point of the curve, and `xi^i` times it is the sum from the
/// `i`-th power on.
pub open spec fn is_power_sum<C: Curve>(points: Seq<(int, int)>, xi: int, p: (int, int)) -> bool {
    &&& is_curve_point::<C::Base>(p)
    &&& forall|i: nat| power_term::<C>(p, xi, i) == #[trigger] sum_of_powers::<C>(points, xi, i)
}

/// One point is its own sum of powers.
pub proof fn lemma_one_power<C: Curve>(p: (int, int), xi: int)
    requires
        is_curve_point::<C::Base>(p),
    ensures
        is_power_sum::<C>(seq![p], xi, p),
{
    assert forall|i: nat| power_term::<C>(p, xi, i) == #[trigger] sum_of_powers::<C>(
        seq![p],
        xi,
        i,
    ) by {
        assert(seq![p].drop_first() =~= Seq::empty());
        assert(sum_of_powers::<C>(seq![p].drop_first(), xi, i + 1) is None);
    }
}

/// One more point before a sum of powers: `p + xi (..)`. `s` is the sum times
/// `xi`.
pub proof fn lemma_next_power<C: Curve>(
    points: Seq<(int, int)>,
    xi: int,
    p: (int, int),
    sum: (int, int),
    s: (int, int),
    t: (int, int),
)
    requires
        0 <= xi < C::Scalar::modulus(),
        is_power_sum::<C>(points, xi, sum),
        is_curve_point::<C::Base>(p),
        is_curve_point::<C::Base>(t),
        C::multiple(sum, xi) == Some(s),
        ec_add::<C::Base>(Some(p), Some(s)) == Some(t),
        forall|l: int|
            0 <= l < C::Scalar::modulus() ==> #[trigger] C::multiple(s, l) == C::multiple(
                sum,
                (xi * l) % C::Scalar::modulus(),
            ),
        forall|l: int|
            0 <= l < C::Scalar::modulus() ==> #[trigger] C::multiple(t, l) == ec_add::<C::Base>(
                C::multiple(p, l),
                C::multiple(s, l),
            ),
    ensures
        is_power_sum::<C>(seq![p] + points, xi, t),
{
    let all = seq![p] + points;
    assert(all.drop_first() =~= points);
    assert forall|i: nat| power_term::<C>(t, xi, i) == #[trigger] sum_of_powers::<C>(all, xi, i) by {
        assert(power_term::<C>(sum, xi, i + 1) == sum_of_powers::<C>(points, xi, i + 1));
        if i == 0 {
            lemma_pow_small::<C::Scalar>(xi);
        } else {
            let l = fpow::<C::Scalar>(xi, i);
            lemma_results_are_canonical::<C::Scalar>(xi, xi, i);
            lemma_pow_sum::<C::Scalar>(xi, 1, i);
            lemma_pow_small::<C::Scalar>(xi);
            assert(C::multiple(s, l) == C::multiple(sum, fpow::<C::Scalar>(xi, i + 1)));
            assert(C::multiple(t, l) == ec_add::<C::Base>(C::multiple(p, l), C::multiple(s, l)));
        }
    }
}

/// Combines a chunked commitment by the scalar for the key length, last chunk
/// first. On points of the curve it is the sum of the chunks by the powers of the
/// scalar.
pub fn reduce_chunks<C: Curve>(comm: &[Point<C::Base>], zeta_to_srs_length: &C::Scalar) -> (r: Option<
    Point<C::Base>,
>)
    requires
        comm@.len() > 0,
    ensures
        element(r) == reduced::<C>(point_residues(comm@), zeta_to_srs_length.view()),
        are_curve_points::<C::Base>(point_residues(comm@)) ==> (element(r) matches Some(sum) ==> Some(
            sum,
        ) == sum_of_powers::<C>(point_residues(comm@), zeta_to_srs_length.view(), 0)),
{
    let n = comm.len();
    let mut res = Some(comm[n - 1]);
    let mut i: usize = n - 1;
    let ghost all = point_residues(comm@);
    let ghost on = are_curve_points::<C::Base>(all);
    let ghost k = zeta_to_srs_length.view();
    proof {
        C::Scalar::lemma_canonical(*zeta_to_srs_length);
        assert(all.skip(n - 1).len() == 1);
        assert(all.skip(n - 1) =~= seq![all[n - 1]]);
        if on {
            lemma_one_power::<C>(all[n - 1], k);
        }
    }
    while i > 0
        invariant
            i < n,
            n == comm@.len(),
            all == point_residues(comm@),
            on == are_curve_points::<C::Base>(all),
            k == zeta_to_srs_length.view(),
            0 <= k < C::Scalar::modulus(),
            element(res) == reduced::<C>(all.skip(i as int), k),
            on ==> (element(res) matches Some(sum) ==> is_power_sum::<C>(
                all.skip(i as int),
                k,
                sum,
            )),
        decreases i,
    {
        i = i - 1;
        assert(all.skip(i as int).drop_first() == all.skip(i + 1));
        let before = res;
        let scaled = match &before {
            None => None,
            Some(sum) => C::scale(sum, zeta_to_srs_length),
        };
        res = add_options(&Some(comm[i]), &scaled);
        proof {
            assert(all[i as int] == comm@[i as int].view());
            if on && res is Some {
                let s = element(scaled)->0;
                let t = element(res)->0;
                assert(ec_add::<C::Base>(Some(all[i as int]), Some(s)) == Some(t));
                assert(is_curve_point::<C::Base>(all[i as int]));
                lemma_next_power::<C>(
                    all.skip(i + 1),
                    k,
                    all[i as int],
                    element(before)->0,
                    s,
                    t,
                );
                assert(seq![all[i as int]] + all.skip(i + 1) =~= all.skip(i as int));
            }
        }
    }
    proof {
        assert(all.skip(0) == all);
        if on && res is Some {
            assert(power_term::<C>(element(res)->0, k, 0) == sum_of_powers::<C>(all, k, 0));
        }
    }
    res
}

/// The commitment to the linearization polynomial:
/// `perm sigma + t - zeta^n t`, with `sigma` and `t` combined from their chunks.
pub open spec fn ft_commitment<C: Curve>(
    sigma_comm_last: Seq<(int, int)>,
    t_comm: Seq<(int, int)>,
    perm: int,
    zeta_to_srs_length: int,
    zeta_to_domain_size: int,
) -> Option<(int, int)> {
    let f = scale_element::<C>(reduced::<C>(sigma_comm_last, zeta_to_srs_length), perm);
    let t = reduced::<C>(t_comm, zeta_to_srs_length);
    match scale_element::<C>(t, zeta_to_domain_size) {
        None => None,
        Some(s) => add_finite::<C::Base>(
            add_finite::<C::Base>(f, t),
            Some((s.0, fneg::<C::Base>(s.1))),
        ),
    }
}

/// The commitment to the linearization polynomial; none when a partial sum is
/// the identity, which the circuit's addition cannot represent.
pub fn ft_comm<C: Curve>(
    sigma_comm_last: &[Point<C::Base>],
    t_comm: &[Point<C::Base>],
    perm: &ShiftedScalar<C::Base>,
    zeta_to_srs_length: &ShiftedScalar<C::Base>,
    zeta_to_domain_size: &ShiftedScalar<C::Base>,
    num_bits: u64,
) -> (r: Option<Point<C::Base>>)
    requires
        sigma_comm_last@.len() > 0,
        t_comm@.len() > 0,
    ensures
        element(r) == ft_commitment::<C>(
            point_residues(sigma_comm_last@),
            point_residues(t_comm@),
            perm.scalar::<C::Scalar>(num_bits as nat),
            zeta_to_srs_length.scalar::<C::Scalar>(num_bits as nat),
            zeta_to_domain_size.scalar::<C::Scalar>(num_bits as nat),
        ),
{
    let srs_length: C::Scalar = zeta_to_srs_length.to_scalar(num_bits);
    let sigma = reduce_chunks::<C>(sigma_comm_last, &srs_length);
    let perm_scalar: C::Scalar = perm.to_scalar(num_bits);
    let f_comm = scale_option::<C>(&sigma, &perm_scalar);
    let chunked_t = reduce_chunks::<C>(t_comm, &srs_length);
    let domain_size: C::Scalar = zeta_to_domain_size.to_scalar(num_bits);
    let t_scaled = match scale_option::<C>(&chunked_t, &domain_size) {
        None => return None,
        Some(p) => p,
    };
    let sum = add_options(&f_comm, &chunked_t);
    add_options(&sum, &Some(negate(&t_scaled)))
}

/// The commitment to the linearization is `perm sigma + t - zeta^n t`, with the
/// chunks of both combined by `zeta` to the length of the commitment key.
pub proof fn the_linearization_is_committed<C: Curve>(
    sigma_comm_last: Seq<(int, int)>,
    t_comm: Seq<(int, int)>,
    perm: int,
    zeta_to_srs_length: int,
    zeta_to_domain_size: int,
    sigma: (int, int),
    perm_sigma: (int, int),
    t: (int, int),
    zn_t: (int, int),
    sum: (int, int),
)
    requires
        reduced::<C>(sigma_comm_last, zeta_to_srs_length) == Some(sigma),
        C::multiple(sigma, perm) == Some(perm_sigma),
        reduced::<C>(t_comm, zeta_to_srs_length) == Some(t),
        C::multiple(t, zeta_to_domain_size) == Some(zn_t),
        ec_add::<C::Base>(Some(perm_sigma), Some(t)) == Some(sum),
    ensures
        ft_commitment::<C>(sigma_comm_last, t_comm, perm, zeta_to_srs_length, zeta_to_domain_size)
            == ec_add::<C::Base>(
            Some(sum),
            Some((zn_t.0, (-zn_t.1) % C::Base::modulus())),
        ),
{
}

/// Combining goes from the front: a point alone is itself, and a point in front
/// of others is added to `k` times what they combine to.
pub proof fn points_combine_from_the_front<C: Curve>(
    p: (int, int),
    rest: Seq<(int, int)>,
    k: int,
    combined: (int, int),
    scaled: (int, int),
)
    requires
        rest.len() > 0,
        reduced::<C>(rest, k) == Some(combined),
        C::multiple(combined, k) == Some(scaled),
    ensures
        reduced::<C>(seq![p], k) == Some(p),
        reduced::<C>(seq![p] + rest, k) == ec_add::<C::Base>(Some(p), Some(scaled)),
{
    assert((seq![p] + rest).drop_first() =~= rest);
}

/// A shifted value stands for `2 n + 2^bits + 1` in the first form and for
/// `2 half + odd + 2^bits` in the second, whatever the number of bits.
pub proof fn shifted_values_stand_for_scalars<F: PrimeField, S: PrimeField>(
    n: F,
    odd: bool,
    num_bits: nat,
)
    ensures
        ShiftedScalar::Type1(n).scalar::<S>(num_bits) == (2 * n.view() + pow(2, num_bits) + 1)
            % S::modulus(),
        ShiftedScalar::Type2(n, odd).scalar::<S>(num_bits) == (2 * n.view() + (if odd {
            1int
        } else {
            0
        }) + pow(2, num_bits)) % S::modulus(),
{
    S::lemma_modulus();
    let m = S::modulus();
    let x = n.view();
    let p = pow(2, num_bits);
    let o = if odd {
        1int
    } else {
        0
    };
    lemma_add_mod_noop(x, x, m);
    lemma_add_mod_noop(p, 1, m);
    lemma_mod_twice(p, m);
    assert((p % m + 1) % m == (p + 1) % m) by {
        lemma_add_mod_noop(p % m, 1, m);
    }
    lemma_add_mod_noop(x + x, p + 1, m);
    lemma_add_mod_noop(x + x, o, m);
    lemma_add_mod_noop((x + x) % m, o, m);
    lemma_mod_twice(x + x, m);
    lemma_add_mod_noop(x + x + o, p, m);
    lemma_mod_twice(x + x + o, m);
    assert(x + x == 2 * x);
}

/// A sum of powers is what its name says: the point itself at the lowest power,
/// and with a further factor the same points at powers that are higher by it; one
/// point alone is its own sum, two are the first and the second at the challenge.
pub proof fn sums_of_powers_start_at_the_point<C: Curve>(
    points: Seq<(int, int)>,
    xi: int,
    p: (int, int),
    q: (int, int),
)
    requires
        is_power_sum::<C>(points, xi, p),
    ensures
        is_curve_point::<C::Base>(p),
        sum_of_powers::<C>(points, xi, 0) == Some(p),
        sum_of_powers::<C>(seq![q], xi, 0) == Some(q),
        sum_of_powers::<C>(seq![q, p], xi, 0) == ec_add::<C::Base>(
            Some(q),
            C::multiple(p, fpow::<C::Scalar>(xi, 1)),
        ),
{
    reveal_with_fuel(sum_of_powers, 3);
    assert(power_term::<C>(p, xi, 0) == sum_of_powers::<C>(points, xi, 0));
    assert(seq![q].drop_first() =~= Seq::<(int, int)>::empty());
    assert(seq![q, p].drop_first() =~= seq![p]);
    assert(seq![p].drop_first() =~= Seq::<(int, int)>::empty());
}

} // verus!
