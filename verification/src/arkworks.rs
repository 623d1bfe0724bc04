//! The calls into outside crates, on plain values: arkworks on limbs, base64 on
//! bytes.

use ark_ec::{AffineRepr, CurveGroup, VariableBaseMSM};
use ark_ff::{BigInt, Field, PrimeField};
use ark_poly::{EvaluationDomain, Radix2EvaluationDomain};
use ark_serialize::{CanonicalDeserialize, CanonicalSerialize};
use base64::Engine;
use vstd::arithmetic::power::pow;
use vstd::arithmetic::power2::pow2;
use vstd::prelude::*;
use vstd::utf8::*;

use crate::codec::{
    decimal_chars, decimal_value, decoded_point, is_plain_decimal, le_value, point_bytes,
};
use crate::curve::{
    ec_add, ec_msm, ec_multiple, finite_on_curve, is_curve_point, limb_element, limb_elements,
    limb_scalars, on_curve,
};
use crate::fft::dft;
use crate::field::{fp_modulus, fq_modulus, is_inverse, Fp, Fq};
use crate::montgomery::limbs_value;

verus! {

/// `ark_ff::Field::inverse` on the Pallas base field, between canonical limbs.
/// A nonzero element has its multiplicative inverse, zero has none.
#[verifier::external_body]
pub(crate) fn ark_fp_inverse(x: [u64; 4]) -> (r: Option<[u64; 4]>)
    requires
        limbs_value(x) < fp_modulus(),
    ensures
        r is None <==> limbs_value(x) == 0,
        r matches Some(y) ==> is_inverse(fp_modulus(), limbs_value(x), limbs_value(y)),
{
    ark_pallas::Fq::from_bigint(BigInt(x)).and_then(|v| v.inverse()).map(|v| v.into_bigint().0)
}

/// `ark_ff::Field::inverse` on the Pallas scalar field, between canonical
/// limbs. A nonzero element has its multiplicative inverse, zero has none.
#[verifier::external_body]
pub(crate) fn ark_fq_inverse(x: [u64; 4]) -> (r: Option<[u64; 4]>)
    requires
        limbs_value(x) < fq_modulus(),
    ensures
        r is None <==> limbs_value(x) == 0,
        r matches Some(y) ==> is_inverse(fq_modulus(), limbs_value(x), limbs_value(y)),
{
    ark_pallas::Fr::from_bigint(BigInt(x)).and_then(|v| v.inverse()).map(|v| v.into_bigint().0)
}

/// The generator that `ark_poly::Radix2EvaluationDomain` picks for the subgroup
/// of the given order in a field whose multiplicative group `5` generates.
pub open spec fn power_of_five(modulus: int, size: int) -> int {
    pow(5, ((modulus - 1) / size) as nat) % modulus
}

/// The generator of the Pallas base field's subgroup of the given size.
pub open spec fn fp_domain_generator(size: int) -> int {
    power_of_five(fp_modulus(), size)
}

/// The generator of the Pallas scalar field's subgroup of the given size.
pub open spec fn fq_domain_generator(size: int) -> int {
    power_of_five(fq_modulus(), size)
}

/// `g` generates a subgroup of order `size`, a power of two, modulo `p`.
pub open spec fn is_root_of_unity(p: int, g: int, size: int) -> bool {
    &&& 0 <= g < p
    &&& pow(g, size as nat) % p == 1
    &&& size > 1 ==> pow(g, (size / 2) as nat) % p == p - 1
}

/// `ark_poly::Radix2EvaluationDomain::new` on the Pallas base field, reduced to
/// the group generator of the domain: every power of two up to `2^32` has a
/// domain. Its generator is the field's generator `5` raised to the order of the
/// multiplicative group over that of the domain, a primitive root of unity.
#[verifier::external_body]
pub(crate) fn ark_fp_domain_generator(size: usize) -> (r: Option<[u64; 4]>)
    requires
        exists|log2: nat| log2 <= 32 && size == #[trigger] pow2(log2),
    ensures
        r is Some,
        limbs_value(r->0) == fp_domain_generator(size as int),
        is_root_of_unity(fp_modulus(), limbs_value(r->0), size as int),
{
    Radix2EvaluationDomain::<ark_pallas::Fq>::new(size).map(|d| d.group_gen.into_bigint().0)
}

/// `ark_poly::Radix2EvaluationDomain::new` on the Pallas scalar field, reduced
/// to the group generator of the domain: every power of two up to `2^32` has a
/// domain. Its generator is the field's generator `5` raised to the order of the
/// multiplicative group over that of the domain, a primitive root of unity.
#[verifier::external_body]
pub(crate) fn ark_fq_domain_generator(size: usize) -> (r: Option<[u64; 4]>)
    requires
        exists|log2: nat| log2 <= 32 && size == #[trigger] pow2(log2),
    ensures
        r is Some,
        limbs_value(r->0) == fq_domain_generator(size as int),
        is_root_of_unity(fq_modulus(), limbs_value(r->0), size as int),
{
    Radix2EvaluationDomain::<ark_pallas::Fr>::new(size).map(|d| d.group_gen.into_bigint().0)
}

/// `ark_poly::EvaluationDomain::fft` on the radix-2 domain of the Pallas base
/// field that has as many elements as there are coefficients, between canonical
/// limbs: the polynomial's values at the powers of the domain's generator, from
/// the zeroth.
#[verifier::external_body]
pub(crate) fn ark_fp_fft(coefficients: &Vec<[u64; 4]>) -> (r: Option<Vec<[u64; 4]>>)
    requires
        exists|log2: nat| log2 <= 32 && coefficients@.len() == #[trigger] pow2(log2),
        forall|i: int|
            0 <= i < coefficients@.len() ==> limbs_value(#[trigger] coefficients@[i])
                < fp_modulus(),
    ensures
        r is Some,
        limb_scalars(r->0@) == dft::<Fp>(
            limb_scalars(coefficients@),
            fp_domain_generator(coefficients@.len() as int),
        ),
{
    let f = |l: &[u64; 4]| ark_pallas::Fq::new(BigInt(*l));
    let c: Vec<ark_pallas::Fq> = coefficients.iter().map(f).collect();
    let d = Radix2EvaluationDomain::<ark_pallas::Fq>::new(c.len());
    d.map(|d| d.fft(&c).iter().map(|v| v.into_bigint().0).collect())
}

/// The multiple that arkworks computes of a point of the Pallas curve, none for
/// the identity.
pub uninterp spec fn pallas_multiple(x: int, y: int, k: int) -> Option<(int, int)>;

/// A multiple `s` of `p` by `k` as the group has it, whose order is the scalars'
/// prime: it is on the curve, as are sums with it, its multiples are those of `p`
/// by products, and the multiples of a sum with it are the sums of the multiples.
pub open spec fn is_pallas_scaled(p: (int, int), k: int, s: (int, int)) -> bool {
    &&& is_curve_point::<Fp>(s)
    &&& forall|l: int|
        0 <= l < fq_modulus() ==> #[trigger] pallas_multiple(s.0, s.1, l) == pallas_multiple(
            p.0,
            p.1,
            (k * l) % fq_modulus(),
        )
    &&& forall|a: (int, int)|
        is_curve_point::<Fp>(a) ==> (#[trigger] ec_add::<Fp>(Some(a), Some(s)) matches Some(t)
            ==> is_curve_point::<Fp>(t))
    &&& forall|a: (int, int), t: (int, int), l: int|
        #![trigger pallas_multiple(a.0, a.1, l), pallas_multiple(t.0, t.1, l)]
        is_curve_point::<Fp>(a) && ec_add::<Fp>(Some(a), Some(s)) == Some(t) && 0 <= l
            < fq_modulus() ==> pallas_multiple(t.0, t.1, l) == ec_add::<Fp>(
            pallas_multiple(a.0, a.1, l),
            pallas_multiple(s.0, s.1, l),
        )
}

/// `ark_ec::AffineRepr::mul_bigint` on the Pallas curve, between canonical limbs.
/// On a point of the curve it is the `k`-fold sum; arkworks documents the curve's
/// points as a group of the scalars' prime order, so multiples of it compose and
/// distribute over sums. The point is not checked to be on the curve: what comes
/// out otherwise is left to the name.
#[verifier::external_body]
pub(crate) fn ark_pallas_multiple(x: [u64; 4], y: [u64; 4], k: [u64; 4]) -> (r: Option<
    ([u64; 4], [u64; 4]),
>)
    requires
        limbs_value(x) < fp_modulus(),
        limbs_value(y) < fp_modulus(),
        limbs_value(k) < fq_modulus(),
    ensures
        r matches Some((u, v)) ==> limbs_value(u) < fp_modulus() && limbs_value(v) < fp_modulus(),
        limb_element(r) == pallas_multiple(limbs_value(x), limbs_value(y), limbs_value(k)),
        on_curve::<Fp>((limbs_value(x), limbs_value(y))) ==> limb_element(r) == ec_multiple::<Fp>(
            Some((limbs_value(x), limbs_value(y))),
            limbs_value(k) as nat,
        ),
        on_curve::<Fp>((limbs_value(x), limbs_value(y))) ==> (limb_element(r) matches Some(s)
            ==> is_pallas_scaled((limbs_value(x), limbs_value(y)), limbs_value(k), s)),
{
    let p = ark_pallas::Affine::new_unchecked(
        ark_pallas::Fq::new(BigInt(x)),
        ark_pallas::Fq::new(BigInt(y)),
    );
    let q = p.mul_bigint(BigInt(k)).into_affine();
    q.xy().map(|(u, v)| (u.into_bigint().0, v.into_bigint().0))
}

/// The multi-scalar sum that arkworks computes on the Pallas curve, none for the
/// identity.
pub uninterp spec fn pallas_msm(points: Seq<Option<(int, int)>>, scalars: Seq<int>) -> Option<
    (int, int),
>;

/// `ark_ec::VariableBaseMSM::msm_bigint` on the Pallas curve, between canonical
/// limbs, none standing for the identity. On points of the curve it is the sum of
/// the multiples. The points are not checked to be on the curve: what comes out
/// otherwise is left to the name.
#[verifier::external_body]
pub(crate) fn ark_pallas_msm(
    points: &Vec<Option<([u64; 4], [u64; 4])>>,
    scalars: &Vec<[u64; 4]>,
) -> (r: Option<([u64; 4], [u64; 4])>)
    requires
        points@.len() == scalars@.len(),
        forall|i: int|
            0 <= i < points@.len() ==> (#[trigger] points@[i] matches Some((x, y)) ==> limbs_value(x)
                < fp_modulus() && limbs_value(y) < fp_modulus()),
        forall|i: int|
            0 <= i < scalars@.len() ==> limbs_value(#[trigger] scalars@[i]) < fq_modulus(),
    ensures
        r matches Some((u, v)) ==> limbs_value(u) < fp_modulus() && limbs_value(v) < fp_modulus(),
        limb_element(r) == pallas_msm(limb_elements(points@), limb_scalars(scalars@)),
        finite_on_curve::<Fp>(limb_elements(points@)) ==> limb_element(r) == ec_msm::<Fp>(
            limb_elements(points@),
            limb_scalars(scalars@),
        ),
{
    let f = |l: [u64; 4]| ark_pallas::Fq::new(BigInt(l));
    let g = |p: &Option<([u64; 4], [u64; 4])>| {
        p.map_or(ark_pallas::Affine::identity(), |(x, y)| {
            ark_pallas::Affine::new_unchecked(f(x), f(y))
        })
    };
    let bases: Vec<ark_pallas::Affine> = points.iter().map(g).collect();
    let bigints: Vec<BigInt<4>> = scalars.iter().map(|k| BigInt(*k)).collect();
    let q = ark_pallas::Projective::msm_bigint(&bases, &bigints).into_affine();
    q.xy().map(|(u, v)| (u.into_bigint().0, v.into_bigint().0))
}

/// The multiple that arkworks computes of a point of the Vesta curve, none for
/// the identity.
pub uninterp spec fn vesta_multiple(x: int, y: int, k: int) -> Option<(int, int)>;

/// A multiple `s` of `p` by `k` as the group has it, whose order is the scalars'
/// prime: it is on the curve, as are sums with it, its multiples are those of `p`
/// by products, and the multiples of a sum with it are the sums of the multiples.
pub open spec fn is_vesta_scaled(p: (int, int), k: int, s: (int, int)) -> bool {
    &&& is_curve_point::<Fq>(s)
    &&& forall|l: int|
        0 <= l < fp_modulus() ==> #[trigger] vesta_multiple(s.0, s.1, l) == vesta_multiple(
            p.0,
            p.1,
            (k * l) % fp_modulus(),
        )
    &&& forall|a: (int, int)|
        is_curve_point::<Fq>(a) ==> (#[trigger] ec_add::<Fq>(Some(a), Some(s)) matches Some(t)
            ==> is_curve_point::<Fq>(t))
    &&& forall|a: (int, int), t: (int, int), l: int|
        #![trigger vesta_multiple(a.0, a.1, l), vesta_multiple(t.0, t.1, l)]
        is_curve_point::<Fq>(a) && ec_add::<Fq>(Some(a), Some(s)) == Some(t) && 0 <= l
            < fp_modulus() ==> vesta_multiple(t.0, t.1, l) == ec_add::<Fq>(
            vesta_multiple(a.0, a.1, l),
            vesta_multiple(s.0, s.1, l),
        )
}

/// `ark_ec::AffineRepr::mul_bigint` on the Vesta curve, between canonical limbs.
/// On a point of the curve it is the `k`-fold sum; arkworks documents the curve's
/// points as a group of the scalars' prime order, so multiples of it compose and
/// distribute over sums. The point is not checked to be on the curve: what comes
/// out otherwise is left to the name.
#[verifier::external_body]
pub(crate) fn ark_vesta_multiple(x: [u64; 4], y: [u64; 4], k: [u64; 4]) -> (r: Option<
    ([u64; 4], [u64; 4]),
>)
    requires
        limbs_value(x) < fq_modulus(),
        limbs_value(y) < fq_modulus(),
        limbs_value(k) < fp_modulus(),
    ensures
        r matches Some((u, v)) ==> limbs_value(u) < fq_modulus() && limbs_value(v) < fq_modulus(),
        limb_element(r) == vesta_multiple(limbs_value(x), limbs_value(y), limbs_value(k)),
        on_curve::<Fq>((limbs_value(x), limbs_value(y))) ==> limb_element(r) == ec_multiple::<Fq>(
            Some((limbs_value(x), limbs_value(y))),
            limbs_value(k) as nat,
        ),
        on_curve::<Fq>((limbs_value(x), limbs_value(y))) ==> (limb_element(r) matches Some(s)
            ==> is_vesta_scaled((limbs_value(x), limbs_value(y)), limbs_value(k), s)),
{
    let p = ark_vesta::Affine::new_unchecked(
        ark_vesta::Fq::new(BigInt(x)),
        ark_vesta::Fq::new(BigInt(y)),
    );
    let q = p.mul_bigint(BigInt(k)).into_affine();
    q.xy().map(|(u, v)| (u.into_bigint().0, v.into_bigint().0))
}

/// The multi-scalar sum that arkworks computes on the Vesta curve, none for the
/// identity.
pub uninterp spec fn vesta_msm(points: Seq<Option<(int, int)>>, scalars: Seq<int>) -> Option<
    (int, int),
>;

/// `ark_ec::VariableBaseMSM::msm_bigint` on the Vesta curve, between canonical
/// limbs, none standing for the identity. On points of the curve it is the sum of
/// the multiples. The points are not checked to be on the curve: what comes out
/// otherwise is left to the name.
#[verifier::external_body]
pub(crate) fn ark_vesta_msm(
    points: &Vec<Option<([u64; 4], [u64; 4])>>,
    scalars: &Vec<[u64; 4]>,
) -> (r: Option<([u64; 4], [u64; 4])>)
    requires
        points@.len() == scalars@.len(),
        forall|i: int|
            0 <= i < points@.len() ==> (#[trigger] points@[i] matches Some((x, y)) ==> limbs_value(x)
                < fq_modulus() && limbs_value(y) < fq_modulus()),
        forall|i: int|
            0 <= i < scalars@.len() ==> limbs_value(#[trigger] scalars@[i]) < fp_modulus(),
    ensures
        r matches Some((u, v)) ==> limbs_value(u) < fq_modulus() && limbs_value(v) < fq_modulus(),
        limb_element(r) == vesta_msm(limb_elements(points@), limb_scalars(scalars@)),
        finite_on_curve::<Fq>(limb_elements(points@)) ==> limb_element(r) == ec_msm::<Fq>(
            limb_elements(points@),
            limb_scalars(scalars@),
        ),
{
    let f = |l: [u64; 4]| ark_vesta::Fq::new(BigInt(l));
    let g = |p: &Option<([u64; 4], [u64; 4])>| {
        p.map_or(ark_vesta::Affine::identity(), |(x, y)| {
            ark_vesta::Affine::new_unchecked(f(x), f(y))
        })
    };
    let bases: Vec<ark_vesta::Affine> = points.iter().map(g).collect();
    let bigints: Vec<BigInt<4>> = scalars.iter().map(|k| BigInt(*k)).collect();
    let q = ark_vesta::Projective::msm_bigint(&bases, &bigints).into_affine();
    q.xy().map(|(u, v)| (u.into_bigint().0, v.into_bigint().0))
}

/// `ark_serialize::CanonicalSerialize::serialize_uncompressed` on a point of the
/// Pallas curve, none for the identity, between canonical limbs. Writing to a vector
/// does not fail. The bytes are both coordinates, 32 bytes each, and a byte of
/// flags: `64` for the identity (with zero coordinates), else `128` when `y` is
/// above its negative.
#[verifier::external_body]
pub(crate) fn ark_pallas_to_bytes(p: Option<([u64; 4], [u64; 4])>) -> (r: Option<Vec<u8>>)
    requires
        p matches Some((x, y)) ==> limbs_value(x) < fp_modulus() && limbs_value(y) < fp_modulus(),
    ensures
        r is Some,
        r->0@ == point_bytes(fp_modulus(), limb_element(p)),
{
    let f = |l: [u64; 4]| ark_pallas::Fq::new(BigInt(l));
    let point = p.map_or(ark_pallas::Affine::identity(), |(x, y)| {
        ark_pallas::Affine::new_unchecked(f(x), f(y))
    });
    let mut out = Vec::new();
    point.serialize_uncompressed(&mut out).ok().map(|_| out)
}

/// `ark_serialize::CanonicalDeserialize::deserialize_uncompressed_unchecked` of a
/// point of the Pallas curve. It reads 65 bytes, leaves any others unread, and fails
/// when they are not there, when a coordinate is not reduced or when both flags
/// are set. The flags are the two top bits of the last byte; its other bits are
/// not looked at. The point is not checked to be on the curve.
#[verifier::external_body]
pub(crate) fn ark_pallas_from_bytes(bytes: &[u8]) -> (r: Option<Option<([u64; 4], [u64; 4])>>)
    ensures
        r is None <==> decoded_point(fp_modulus(), bytes@) is None,
        r is Some ==> decoded_point(fp_modulus(), bytes@) == Some(limb_element(r->0)),
{
    ark_pallas::Affine::deserialize_uncompressed_unchecked(bytes).ok().map(|p| {
        p.xy().map(|(u, v)| (u.into_bigint().0, v.into_bigint().0))
    })
}

/// `ark_serialize::CanonicalSerialize::serialize_uncompressed` on a point of the
/// Vesta curve, none for the identity, between canonical limbs. Writing to a vector
/// does not fail. The bytes are both coordinates, 32 bytes each, and a byte of
/// flags: `64` for the identity (with zero coordinates), else `128` when `y` is
/// above its negative.
#[verifier::external_body]
pub(crate) fn ark_vesta_to_bytes(p: Option<([u64; 4], [u64; 4])>) -> (r: Option<Vec<u8>>)
    requires
        p matches Some((x, y)) ==> limbs_value(x) < fq_modulus() && limbs_value(y) < fq_modulus(),
    ensures
        r is Some,
        r->0@ == point_bytes(fq_modulus(), limb_element(p)),
{
    let f = |l: [u64; 4]| ark_vesta::Fq::new(BigInt(l));
    let point = p.map_or(ark_vesta::Affine::identity(), |(x, y)| {
        ark_vesta::Affine::new_unchecked(f(x), f(y))
    });
    let mut out = Vec::new();
    point.serialize_uncompressed(&mut out).ok().map(|_| out)
}

/// `ark_serialize::CanonicalDeserialize::deserialize_uncompressed_unchecked` of a
/// point of the Vesta curve. It reads 65 bytes, leaves any others unread, and fails
/// when they are not there, when a coordinate is not reduced or when both flags
/// are set. The flags are the two top bits of the last byte; its other bits are
/// not looked at. The point is not checked to be on the curve.
#[verifier::external_body]
pub(crate) fn ark_vesta_from_bytes(bytes: &[u8]) -> (r: Option<Option<([u64; 4], [u64; 4])>>)
    ensures
        r is None <==> decoded_point(fq_modulus(), bytes@) is None,
        r is Some ==> decoded_point(fq_modulus(), bytes@) == Some(limb_element(r->0)),
{
    ark_vesta::Affine::deserialize_uncompressed_unchecked(bytes).ok().map(|p| {
        p.xy().map(|(u, v)| (u.into_bigint().0, v.into_bigint().0))
    })
}

/// `ark_ff::BigInt`'s `to_string`: the decimal digits, without leading zeros.
#[verifier::external_body]
pub(crate) fn ark_decimal(x: [u64; 4]) -> (r: String)
    ensures
        r@ == decimal_chars(limbs_value(x) as nat),
{
    BigInt(x).to_string()
}

/// The element that arkworks reads from text, none where it reads none.
pub uninterp spec fn fq_of_text(text: Seq<char>) -> Option<int>;

/// `str::parse` into an element of the Pallas scalar field, as canonical limbs.
/// Text of decimal digits alone gives their number, reduced; what other texts
/// give is left to the name.
#[verifier::external_body]
pub(crate) fn ark_fq_parse(text: &str) -> (r: Option<[u64; 4]>)
    ensures
        r is Some <==> fq_of_text(text@) is Some,
        r is Some ==> fq_of_text(text@) == Some(limbs_value(r->0)),
        r is Some ==> limbs_value(r->0) < fq_modulus(),
        is_plain_decimal(text@) ==> r is Some,
        is_plain_decimal(text@) ==> limbs_value(r->0) == decimal_value(encode_utf8(text@))
            as int % fq_modulus(),
{
    text.parse::<ark_pallas::Fr>().ok().map(|x| x.into_bigint().0)
}

/// The element of the Pallas base field that arkworks reads from text, none
/// where it reads none.
pub uninterp spec fn fp_of_text(text: Seq<char>) -> Option<int>;

/// `str::parse` into an element of the Pallas base field, as canonical limbs.
/// Text of decimal digits alone gives their number, reduced; what other texts
/// give is left to the name.
#[verifier::external_body]
pub(crate) fn ark_fp_parse(text: &str) -> (r: Option<[u64; 4]>)
    ensures
        r is Some <==> fp_of_text(text@) is Some,
        r is Some ==> fp_of_text(text@) == Some(limbs_value(r->0)),
        r is Some ==> limbs_value(r->0) < fp_modulus(),
        is_plain_decimal(text@) ==> r is Some,
        is_plain_decimal(text@) ==> limbs_value(r->0) == decimal_value(encode_utf8(text@))
            as int % fp_modulus(),
{
    text.parse::<ark_pallas::Fq>().ok().map(|x| x.into_bigint().0)
}

/// `ark_serialize::CanonicalDeserialize::deserialize_compressed` of an element of
/// the Pallas base field from 32 bytes, as canonical limbs: the little-endian
/// number, where it is below the prime.
#[verifier::external_body]
pub(crate) fn ark_fp_from_bytes(bytes: &[u8]) -> (r: Option<[u64; 4]>)
    requires
        bytes@.len() == 32,
    ensures
        r is Some <==> le_value(bytes@) < fp_modulus(),
        r is Some ==> limbs_value(r->0) == le_value(bytes@),
{
    ark_pallas::Fq::deserialize_compressed(bytes).ok().map(|x| x.into_bigint().0)
}

/// The standard base64 text of bytes.
pub uninterp spec fn base64_text(bytes: Seq<u8>) -> Seq<char>;

/// The bytes of a standard base64 text, none where it is not one.
pub uninterp spec fn base64_bytes(text: Seq<char>) -> Option<Seq<u8>>;

/// `base64::Engine::encode` of the standard engine, with padding. The text
/// decodes to the bytes.
#[verifier::external_body]
pub(crate) fn base64_encode(bytes: &[u8]) -> (r: String)
    ensures
        r@ == base64_text(bytes@),
        base64_bytes(r@) == Some(bytes@),
{
    base64::engine::general_purpose::STANDARD.encode(bytes)
}

/// `base64::Engine::decode` of the standard engine, with padding.
#[verifier::external_body]
pub(crate) fn base64_decode(text: &str) -> (r: Option<Vec<u8>>)
    ensures
        r is Some <==> base64_bytes(text@) is Some,
        r is Some ==> base64_bytes(text@) == Some(r->0@),
{
    base64::engine::general_purpose::STANDARD.decode(text).ok()
}

} // verus!
