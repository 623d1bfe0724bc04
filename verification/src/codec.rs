//! Bytes and decimals: little-endian integers, uncompressed curve points,
//! decimal field elements.

use vstd::arithmetic::power::pow;
use vstd::prelude::*;
use vstd::string::*;
use vstd::utf8::*;

use crate::arkworks::{
    ark_decimal, ark_pallas_from_bytes, ark_pallas_to_bytes, ark_vesta_from_bytes,
    ark_vesta_to_bytes,
};
use crate::curve::{element, limb_element, point_from_limbs, point_to_limbs, Point};
use crate::field::{Fp, Fq, PrimeField};
use crate::montgomery::{limbs_value, radix};

verus! {

/// The number that little-endian bytes stand for.
pub open spec fn le_value(bytes: Seq<u8>) -> nat
    decreases bytes.len(),
{
    if bytes.len() == 0 {
        0
    } else {
        bytes[0] as nat + 256 * le_value(bytes.skip(1))
    }
}

/// The low `len` bytes of a number, least significant first.
pub open spec fn le_bytes(n: nat, len: nat) -> Seq<u8>
    decreases len,
{
    if len == 0 {
        Seq::empty()
    } else {
        seq![(n % 256) as u8] + le_bytes(n / 256, (len - 1) as nat)
    }
}

/// `256^len`.
pub open spec fn byte_power(len: nat) -> nat
    decreases len,
{
    if len == 0 {
        1
    } else {
        256 * byte_power((len - 1) as nat)
    }
}

/// Reading the bytes of a number that fits gives the number back.
pub proof fn le_value_inverts_le_bytes(n: nat, len: nat)
    requires
        n < byte_power(len),
    ensures
        le_bytes(n, len).len() == len,
        le_value(le_bytes(n, len)) == n,
    decreases len,
{
    if len > 0 {
        le_value_inverts_le_bytes(n / 256, (len - 1) as nat);
        assert(le_bytes(n, len).skip(1) =~= le_bytes(n / 256, (len - 1) as nat));
    }
}

/// `len` bytes hold a number below `256^len`.
pub proof fn lemma_le_value_bound(bytes: Seq<u8>)
    ensures
        le_value(bytes) < byte_power(bytes.len()),
    decreases bytes.len(),
{
    if bytes.len() > 0 {
        lemma_le_value_bound(bytes.skip(1));
    }
}

proof fn lemma_byte_powers()
    ensures
        byte_power(8) == 0x1_0000_0000_0000_0000,
        byte_power(32) == radix(),
{
    reveal_with_fuel(byte_power, 33);
    assert(byte_power(8) == 0x1_0000_0000_0000_0000);
    assert(byte_power(16) == 0x1_0000_0000_0000_0000_0000_0000_0000_0000);
}

/// Appends the eight little-endian bytes of a number.
pub fn push_u64_le(out: &mut Vec<u8>, n: u64)
    ensures
        final(out)@ == old(out)@ + le_bytes(n as nat, 8),
{
    let ghost before = out@;
    let mut rest: u64 = n;
    let mut left: usize = 8;
    while left > 0
        invariant
            left <= 8,
            before + le_bytes(n as nat, 8) == out@ + le_bytes(rest as nat, left as nat),
        decreases left,
    {
        out.push((rest % 256) as u8);
        assert(seq![(rest % 256) as u8] + le_bytes((rest / 256) as nat, (left - 1) as nat)
            == le_bytes(rest as nat, left as nat));
        assert(out@ + le_bytes((rest / 256) as nat, (left - 1) as nat) =~= before + le_bytes(
            n as nat,
            8,
        ));
        rest = rest / 256;
        left = left - 1;
    }
    assert(out@ =~= before + le_bytes(n as nat, 8));
}

/// The number in eight little-endian bytes.
pub fn u64_from_le(bytes: &[u8]) -> (r: u64)
    requires
        bytes@.len() == 8,
    ensures
        r == le_value(bytes@),
{
    let mut value: u64 = 0;
    let mut left: usize = 8;
    assert(bytes@.skip(8) =~= Seq::empty());
    while left > 0
        invariant
            left <= 8,
            bytes@.len() == 8,
            value == le_value(bytes@.skip(left as int)),
        decreases left,
    {
        left = left - 1;
        proof {
            assert(bytes@.skip(left as int).skip(1) =~= bytes@.skip(left + 1));
            lemma_le_value_bound(bytes@.skip(left as int));
            reveal_with_fuel(byte_power, 9);
        }
        value = bytes[left] as u64 + 256 * value;
    }
    assert(bytes@.skip(0) =~= bytes@);
    value
}

/// The bytes of an uncompressed point over a field of the given modulus: both
/// coordinates in 32 bytes, then a byte that marks the identity or a `y` above
/// its negative.
pub open spec fn point_bytes(modulus: int, p: Option<(int, int)>) -> Seq<u8> {
    match p {
        None => le_bytes(0, 32) + le_bytes(0, 32) + seq![64u8],
        Some((x, y)) => le_bytes(x as nat, 32) + le_bytes(y as nat, 32) + seq![
            if 2 * y > modulus {
                128u8
            } else {
                0u8
            },
        ],
    }
}

/// The bytes that a point takes.
pub const POINT_SIZE: usize = 65;

/// The point in the first 65 bytes, not checked to be on the curve: none when
/// there are fewer, when a coordinate is not reduced, or when the two flag bits
/// are both set.
pub open spec fn decoded_point(modulus: int, bytes: Seq<u8>) -> Option<Option<(int, int)>> {
    let x = le_value(bytes.subrange(0, 32)) as int;
    let y = le_value(bytes.subrange(32, 64)) as int;
    if bytes.len() < POINT_SIZE || x >= modulus || y >= modulus || bytes[64] >= 192 {
        None
    } else if 64 <= bytes[64] < 128 {
        Some(None)
    } else {
        Some(Some((x, y)))
    }
}

/// Decoding undoes encoding, for reduced coordinates.
pub proof fn decoding_inverts_encoding(modulus: int, p: Option<(int, int)>)
    requires
        0 < modulus <= radix(),
        p matches Some((x, y)) ==> 0 <= x < modulus && 0 <= y < modulus,
    ensures
        point_bytes(modulus, p).len() == POINT_SIZE,
        decoded_point(modulus, point_bytes(modulus, p)) == Some(p),
{
    let (x, y) = match p {
        None => (0, 0),
        Some(q) => q,
    };
    lemma_byte_powers();
    le_value_inverts_le_bytes(x as nat, 32);
    le_value_inverts_le_bytes(y as nat, 32);
    let bytes = point_bytes(modulus, p);
    assert(bytes.subrange(0, 32) =~= le_bytes(x as nat, 32));
    assert(bytes.subrange(32, 64) =~= le_bytes(y as nat, 32));
}

/// A base field of one of the two curves, with the byte form of its points.
pub trait PointField: PrimeField {
    /// The uncompressed bytes of a point, none for the identity.
    fn point_to_bytes(p: &Option<Point<Self>>) -> (r: Vec<u8>)
        ensures
            r@ == point_bytes(Self::modulus(), element(*p)),
    ;

    /// The point in the first 65 bytes, not checked to be on the curve.
    fn point_from_bytes(bytes: &[u8]) -> (r: Option<Option<Point<Self>>>)
        ensures
            match r {
                None => decoded_point(Self::modulus(), bytes@) is None,
                Some(p) => decoded_point(Self::modulus(), bytes@) == Some(element(p)),
            },
    ;
}

/// The points of the Pallas curve.
impl PointField for Fp {
    fn point_to_bytes(p: &Option<Point<Fp>>) -> (r: Vec<u8>) {
        ark_pallas_to_bytes(point_to_limbs(p)).unwrap()
    }

    fn point_from_bytes(bytes: &[u8]) -> (r: Option<Option<Point<Fp>>>) {
        match ark_pallas_from_bytes(bytes) {
            None => None,
            Some(limbs) => Some(point_from_limbs(limbs)),
        }
    }
}

/// The points of the Vesta curve.
impl PointField for Fq {
    fn point_to_bytes(p: &Option<Point<Fq>>) -> (r: Vec<u8>) {
        ark_vesta_to_bytes(point_to_limbs(p)).unwrap()
    }

    fn point_from_bytes(bytes: &[u8]) -> (r: Option<Option<Point<Fq>>>) {
        match ark_vesta_from_bytes(bytes) {
            None => None,
            Some(limbs) => Some(point_from_limbs(limbs)),
        }
    }
}

/// A decimal digit.
pub open spec fn is_digit(byte: u8) -> bool {
    48 <= byte <= 57
}

/// The number that decimal digits stand for, most significant first.
pub open spec fn decimal_value(digits: Seq<u8>) -> nat
    decreases digits.len(),
{
    if digits.len() == 0 {
        0
    } else {
        10 * decimal_value(digits.drop_last()) + (digits.last() - 48) as nat
    }
}

/// Whether the bytes are a decimal below a bound: one digit or more, and nothing
/// else. Leading zeros are fine.
pub open spec fn is_decimal_below(digits: Seq<u8>, bound: int) -> bool {
    &&& digits.len() > 0
    &&& forall|i: int| 0 <= i < digits.len() ==> is_digit(#[trigger] digits[i])
    &&& decimal_value(digits) < bound
}

/// The decimal digits of a number, without leading zeros.
pub open spec fn decimal_digits(n: nat) -> Seq<u8>
    decreases n,
{
    if n < 10 {
        seq![(48 + n) as u8]
    } else {
        decimal_digits(n / 10).push((48 + n % 10) as u8)
    }
}

/// The digits of a number are a decimal, and stand for the number.
pub proof fn decimal_value_inverts_decimal_digits(n: nat)
    ensures
        decimal_digits(n).len() > 0,
        forall|i: int| 0 <= i < decimal_digits(n).len() ==> is_digit(#[trigger] decimal_digits(n)[i]),
        decimal_value(decimal_digits(n)) == n,
    decreases n,
{
    if n < 10 {
        reveal_with_fuel(decimal_value, 2);
        assert(decimal_digits(n).drop_last() =~= Seq::empty());
    } else {
        decimal_value_inverts_decimal_digits(n / 10);
        assert(decimal_digits(n).drop_last() =~= decimal_digits(n / 10));
    }
}

/// Appending digits only makes the number larger.
proof fn lemma_decimal_value_grows(digits: Seq<u8>, k: int)
    requires
        0 <= k <= digits.len(),
        forall|i: int| 0 <= i < digits.len() ==> is_digit(#[trigger] digits[i]),
    ensures
        decimal_value(digits.take(k)) <= decimal_value(digits),
    decreases digits.len() - k,
{
    if k == digits.len() {
        assert(digits.take(k) =~= digits);
    } else {
        lemma_decimal_value_grows(digits, k + 1);
        assert(digits.take(k + 1).drop_last() =~= digits.take(k));
    }
}

/// `10 limb + carry`, as low limb and carry.
fn times_ten(limb: u64, carry: u64) -> (r: (u64, u64))
    requires
        carry < 10,
    ensures
        r.0 + 0x1_0000_0000_0000_0000 * r.1 == 10 * limb + carry,
        r.1 < 10,
{
    let value: u128 = (limb as u128) * 10 + carry as u128;
    ((value % 0x1_0000_0000_0000_0000) as u64, (value / 0x1_0000_0000_0000_0000) as u64)
}

/// The field element of a decimal: none when there is no digit, when another
/// byte occurs, or when the number is not reduced.
pub fn field_from_decimal<F: PrimeField>(s: &str) -> (r: Option<F>)
    ensures
        r is Some <==> is_decimal_below(s.spec_bytes(), F::modulus()),
        r is Some ==> r->0.view() == decimal_value(s.spec_bytes()),
{
    let bytes = s.as_bytes();
    if bytes.len() == 0 {
        return None;
    }
    let mut limbs: [u64; 4] = [0; 4];
    let mut i: usize = 0;
    while i < bytes.len()
        invariant
            bytes@ == s.spec_bytes(),
            i <= bytes@.len(),
            forall|k: int| 0 <= k < i ==> is_digit(#[trigger] bytes@[k]),
            limbs_value(limbs) == decimal_value(bytes@.take(i as int)),
        decreases bytes.len() - i,
    {
        let byte = bytes[i];
        if byte < 48 || byte > 57 {
            assert(!is_digit(bytes@[i as int]));
            return None;
        }
        assert(bytes@.take(i + 1).drop_last() =~= bytes@.take(i as int));
        let (r0, c0) = times_ten(limbs[0], (byte - 48) as u64);
        let (r1, c1) = times_ten(limbs[1], c0);
        let (r2, c2) = times_ten(limbs[2], c1);
        let (r3, c3) = times_ten(limbs[3], c2);
        if c3 != 0 {
            proof {
                F::lemma_modulus();
                assert(decimal_value(bytes@.take(i + 1)) >= radix());
                if is_decimal_below(bytes@, F::modulus()) {
                    lemma_decimal_value_grows(bytes@, i + 1);
                }
            }
            return None;
        }
        limbs = [r0, r1, r2, r3];
        i = i + 1;
    }
    assert(bytes@.take(i as int) =~= bytes@);
    F::from_limbs(limbs)
}

/// The decimal of a field element, without leading zeros.
pub fn field_to_decimal<F: PrimeField>(x: &F) -> (r: String)
    ensures
        r@ == decimal_chars(x.view() as nat),
{
    ark_decimal(x.to_limbs())
}

/// The decimal of a number, without leading zeros.
pub fn u64_to_decimal(n: u64) -> (r: String)
    ensures
        r@ == decimal_chars(n as nat),
{
    ark_decimal([n, 0, 0, 0])
}

/// The decimal digits of a number, as characters.
pub open spec fn decimal_chars(n: nat) -> Seq<char> {
    Seq::new(decimal_digits(n).len(), |i: int| decimal_digits(n)[i] as char)
}

/// The characters of a number are encoded as its digits.
pub proof fn lemma_decimal_chars(n: nat)
    ensures
        encode_utf8(decimal_chars(n)) == decimal_digits(n),
{
    decimal_value_inverts_decimal_digits(n);
    let chars = decimal_chars(n);
    assert forall|i: int| 0 <= i < chars.len() implies '\0' <= #[trigger] chars[i]
        <= '\u{7f}' by {
        assert(is_digit(decimal_digits(n)[i]));
    }
    is_ascii_chars_encode_utf8(chars);
    assert forall|i: int| 0 <= i < chars.len() implies encode_utf8(chars)[i] == decimal_digits(
        n,
    )[i] by {
        let byte = decimal_digits(n)[i];
        assert(is_digit(byte));
        assert(chars[i] as u8 == encode_utf8(chars)[i]);
    }
    assert(encode_utf8(chars) =~= decimal_digits(n));
}

/// Text of one decimal digit or more, and nothing else.
pub open spec fn is_plain_decimal(text: Seq<char>) -> bool {
    &&& text.len() > 0
    &&& forall|i: int| 0 <= i < text.len() ==> '0' <= #[trigger] text[i] <= '9'
}

/// The decimal of a number is plain.
pub proof fn lemma_decimal_is_plain(n: nat)
    ensures
        is_plain_decimal(decimal_chars(n)),
        decimal_value(encode_utf8(decimal_chars(n))) == n,
{
    lemma_decimal_chars(n);
    decimal_value_inverts_decimal_digits(n);
    assert forall|i: int| 0 <= i < decimal_chars(n).len() implies '0' <= #[trigger] decimal_chars(
        n,
    )[i] <= '9' by {
        assert(is_digit(decimal_digits(n)[i]));
    }
}

/// The decimal of a field element reads back as that element.
pub proof fn decimals_round_trip<F: PrimeField>(x: F)
    ensures
        is_decimal_below(encode_utf8(decimal_chars(x.view() as nat)), F::modulus()),
        decimal_value(encode_utf8(decimal_chars(x.view() as nat))) == x.view(),
{
    F::lemma_canonical(x);
    lemma_decimal_chars(x.view() as nat);
    decimal_value_inverts_decimal_digits(x.view() as nat);
}

/// The number of little-endian bytes grows at the end: a byte behind `n` others
/// counts for two hundred and fifty-six to the `n` times itself.
pub proof fn later_bytes_count_for_more(bytes: Seq<u8>, last: u8)
    ensures
        le_value(bytes.push(last)) == le_value(bytes) + last as nat * byte_power(bytes.len()),
        le_value(Seq::empty()) == 0,
    decreases bytes.len(),
{
    let more = bytes.push(last);
    assert(le_value(more) == more[0] as nat + 256 * le_value(more.skip(1)));
    if bytes.len() == 0 {
        assert(more.skip(1) =~= Seq::<u8>::empty());
        assert(le_value(more.skip(1)) == 0);
        assert(byte_power(bytes.len()) == 1);
        assert(last as nat * 1 == last as nat);
    } else {
        let rest = bytes.skip(1);
        later_bytes_count_for_more(rest, last);
        assert(more.skip(1) =~= rest.push(last));
        let p = byte_power(rest.len());
        assert(byte_power(bytes.len()) == 256 * p);
        lemma_weight_moves(last as nat, p);
    }
}

proof fn lemma_weight_moves(b: nat, p: nat)
    ensures
        256 * (b * p) == b * (256 * p),
{
    assert(256 * (b * p) == b * (256 * p)) by (nonlinear_arith);
}

/// A point's bytes: the abscissa's thirty-two, the ordinate's thirty-two, and a
/// last byte that tells the identity, else which of the two ordinates it is.
pub proof fn point_bytes_in_place(modulus: int, x: int, y: int)
    requires
        0 < modulus <= radix(),
        0 <= x < modulus,
        0 <= y < modulus,
    ensures
        point_bytes(modulus, Some((x, y))).len() == 65,
        le_value(point_bytes(modulus, Some((x, y))).take(32)) == x,
        le_value(point_bytes(modulus, Some((x, y))).subrange(32, 64)) == y,
        point_bytes(modulus, Some((x, y)))[64] == if y > modulus - y {
            128u8
        } else {
            0u8
        },
        point_bytes(modulus, None).len() == 65,
        point_bytes(modulus, None)[64] == 64u8,
        forall|i: int| 0 <= i < 64 ==> #[trigger] point_bytes(modulus, None)[i] == 0u8,
{
    decoding_inverts_encoding(modulus, Some((x, y)));
    decoding_inverts_encoding(modulus, None);
    let b = point_bytes(modulus, Some((x, y)));
    assert(b.take(32) =~= b.subrange(0, 32));
    lemma_zero_bytes(32);
    let z = le_bytes(0, 32);
    assert forall|i: int| 0 <= i < 64 implies #[trigger] point_bytes(modulus, None)[i] == 0u8 by {
        if i < 32 {
            assert(point_bytes(modulus, None)[i] == z[i]);
        } else {
            assert(point_bytes(modulus, None)[i] == z[i - 32]);
        }
    }
}

proof fn lemma_zero_bytes(len: nat)
    ensures
        le_bytes(0, len).len() == len,
        forall|i: int| 0 <= i < len ==> #[trigger] le_bytes(0, len)[i] == 0u8,
    decreases len,
{
    if len > 0 {
        lemma_zero_bytes((len - 1) as nat);
        assert forall|i: int| 0 <= i < len implies #[trigger] le_bytes(0, len)[i] == 0u8 by {
            if i > 0 {
                assert(le_bytes(0, len)[i] == le_bytes(0, (len - 1) as nat)[i - 1]);
            }
        }
    }
}

/// What bytes stand for: both coordinates below the modulus and no two flags at
/// once, the identity where its flag is set, else the two numbers; anything
/// shorter than a point stands for nothing.
pub proof fn bytes_stand_for_points(modulus: int, bytes: Seq<u8>)
    ensures
        bytes.len() < 65 ==> decoded_point(modulus, bytes) is None,
        bytes.len() >= 65 ==> {
            let x = le_value(bytes.subrange(0, 32)) as int;
            let y = le_value(bytes.subrange(32, 64)) as int;
            let flags = bytes[64];
            &&& decoded_point(modulus, bytes) is None <==> x >= modulus || y >= modulus || flags
                >= 192
            &&& x < modulus && y < modulus && 64 <= flags < 128 ==> decoded_point(modulus, bytes)
                == Some(None::<(int, int)>)
            &&& x < modulus && y < modulus && (flags < 64 || 128 <= flags < 192) ==> decoded_point(
                modulus,
                bytes,
            ) == Some(Some((x, y)))
        },
{
}

/// A further digit makes ten times as much and itself.
pub proof fn digits_count_in_tens(digits: Seq<u8>, more: Seq<u8>, d: u8)
    requires
        forall|i: int| 0 <= i < more.len() ==> is_digit(#[trigger] more[i]),
        is_digit(d),
    ensures
        decimal_value(seq![d]) == d - 48,
        decimal_value(digits + more) == decimal_value(digits) * pow(10, more.len())
            + decimal_value(more),
        is_digit(d) <==> '0' <= d as char <= '9',
    decreases more.len(),
{
    reveal_with_fuel(decimal_value, 2);
    assert(seq![d].drop_last() =~= Seq::<u8>::empty());
    if more.len() == 0 {
        assert(digits + more =~= digits);
        vstd::arithmetic::power::lemma_pow0(10);
    } else {
        digits_count_in_tens(digits, more.drop_last(), d);
        assert((digits + more).drop_last() =~= digits + more.drop_last());
        assert((digits + more).last() == more.last());
        let n = (more.len() - 1) as nat;
        assert(pow(10, more.len()) == 10 * pow(10, n)) by {
            reveal(vstd::arithmetic::power::pow);
        }
        let v = decimal_value(digits) as int;
        let p = pow(10, n);
        assert(10 * (v * p) == v * (10 * p)) by (nonlinear_arith);
    }
}

/// A decimal below a bound: at least one digit, nothing but digits, and a number
/// below it.
pub proof fn decimals_are_digits_below_the_bound(digits: Seq<u8>, bound: int)
    ensures
        is_decimal_below(digits, bound) <==> digits.len() > 0 && (forall|i: int|
            0 <= i < digits.len() ==> 48 <= #[trigger] digits[i] <= 57) && decimal_value(digits)
            < bound,
{
    assert(forall|i: int| 0 <= i < digits.len() ==> is_digit(#[trigger] digits[i]) == (48
        <= digits[i] <= 57));
    if digits.len() > 0 && (forall|i: int|
        0 <= i < digits.len() ==> 48 <= #[trigger] digits[i] <= 57) {
        assert(forall|i: int| 0 <= i < digits.len() ==> is_digit(#[trigger] digits[i]));
    }
    if is_decimal_below(digits, bound) {
        assert forall|i: int| 0 <= i < digits.len() implies 48 <= #[trigger] digits[i] <= 57 by {
            assert(is_digit(digits[i]));
        }
    }
}

/// The bytes' weights are the powers of 256.
pub proof fn byte_weights_are_powers(len: nat)
    ensures
        byte_power(len) == pow(256, len),
    decreases len,
{
    reveal(vstd::arithmetic::power::pow);
    if len > 0 {
        byte_weights_are_powers((len - 1) as nat);
    }
}

} // verus!
