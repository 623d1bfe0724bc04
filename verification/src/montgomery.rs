//! Montgomery multiplication of four-limb integers.
//!
//! The product is the word-by-word interleaved one (CIOS) with the no-carry
//! optimisation: each of the four rounds adds `a * b_i`, adds the multiple of
//! the modulus that clears the lowest limb, and shifts by one limb. The result
//! is left *before* the conditional subtraction of the modulus.

use vstd::prelude::*;

verus! {

/// `2^64`, the weight of the second limb.
#[verifier::inline]
pub open spec fn b1() -> int {
    0x1_0000_0000_0000_0000int
}

/// `2^128`, the weight of the third limb.
#[verifier::inline]
pub open spec fn b2() -> int {
    0x1_0000_0000_0000_0000_0000_0000_0000_0000int
}

/// `2^192`, the weight of the fourth limb.
#[verifier::inline]
pub open spec fn b3() -> int {
    0x1_0000_0000_0000_0000_0000_0000_0000_0000_0000_0000_0000_0000int
}

/// `2^256`, the Montgomery radix.
#[verifier::inline]
pub open spec fn radix() -> int {
    0x1_0000_0000_0000_0000_0000_0000_0000_0000_0000_0000_0000_0000_0000_0000_0000_0000int
}

/// The integer that four little-endian limbs stand for.
pub open spec fn limbs_value(l: [u64; 4]) -> int {
    l[0] + l[1] * b1() + l[2] * b2() + l[3] * b3()
}

/// `inv` is `-p^{-1}` modulo `2^64`.
pub open spec fn is_neg_inverse(inv: u64, p: [u64; 4]) -> bool {
    (inv * p[0] + 1) % b1() == 0
}

/// `r` is the unreduced Montgomery product of `a` and `b` modulo `p`:
/// `r * 2^256` is `a * b` plus the multiple of `p` below `2^256 * p` that makes
/// the sum divisible by `2^256`.
pub open spec fn is_montgomery_product(r: int, a: int, b: int, p: int) -> bool {
    exists|m: int| 0 <= m < radix() && #[trigger] (m * p) == r * radix() - a * b
}

/// `lo + 2^64 * hi = acc + x * y + carry`, which always fits.
fn mul_add(acc: u64, x: u64, y: u64, carry: u64) -> (res: (u64, u64))
    ensures
        res.0 + res.1 * b1() == acc + x * y + carry,
{
    assert(x * y <= 0xffff_ffff_ffff_ffff * 0xffff_ffff_ffff_ffff) by (nonlinear_arith)
        requires
            0 <= x <= 0xffff_ffff_ffff_ffff,
            0 <= y <= 0xffff_ffff_ffff_ffff,
    ;
    let t: u128 = acc as u128 + x as u128 * y as u128 + carry as u128;
    let lo: u64 = (t % 0x1_0000_0000_0000_0000u128) as u64;
    let hi: u64 = (t / 0x1_0000_0000_0000_0000u128) as u64;
    (lo, hi)
}

/// With `k = r0 * inv`, the sum `r0 + k * p0` is divisible by `2^64`.
proof fn lemma_clears_low_limb(r0: u64, inv: u64, p0: u64, k: u64)
    requires
        k == (r0 * inv) % b1(),
        (inv * p0 + 1) % b1() == 0,
    ensures
        (r0 + k * p0) % b1() == 0,
{
    let q: int = (r0 * inv) / b1();
    let w: int = (inv * p0 + 1) / b1();
    assert(r0 * inv == q * b1() + k);
    assert(inv * p0 + 1 == w * b1());
    assert(r0 + k * p0 == (r0 * w - q * p0) * b1()) by (nonlinear_arith)
        requires
            r0 * inv == q * b1() + k,
            inv * p0 + 1 == w * b1(),
    ;
    vstd::arithmetic::div_mod::lemma_mod_multiples_basic(r0 * w - q * p0, b1());
}

/// The arithmetic of one round. The `s_i` are the limbs of `r + a * b` (with
/// last carry `c1`), the `o_i` those of `(s + k * p) / 2^64` (with last carry
/// `c2`); the intermediate carries cancel.
proof fn lemma_round(
    r: [u64; 4],
    a: [u64; 4],
    b: u64,
    p: [u64; 4],
    k: u64,
    o0: u64,
    o1: u64,
    o2: u64,
    top: int,
)
    requires
        (o0 * b1() + o1 * b2() + o2 * b3() + top * radix()) == limbs_value(r) + (a[0] * b + (a[1]
            * b) * b1() + (a[2] * b) * b2() + (a[3] * b) * b3()) + (k * p[0] + (k * p[1]) * b1() + (
        k * p[2]) * b2() + (k * p[3]) * b3()),
        top >= 0,
        limbs_value(a) + limbs_value(p) <= radix(),
        limbs_value(r) < limbs_value(a) + limbs_value(p),
    ensures
        ({
            let wide = o0 + o1 * b1() + o2 * b2() + top * b3();
            &&& wide * b1() == limbs_value(r) + limbs_value(a) * b + k * limbs_value(p)
            &&& wide < limbs_value(a) + limbs_value(p)
            &&& top < b1()
        }),
{
    let av = limbs_value(a);
    let pv = limbs_value(p);
    let (a0, a1, a2, a3) = (a[0] as int, a[1] as int, a[2] as int, a[3] as int);
    let (p0, p1, p2, p3) = (p[0] as int, p[1] as int, p[2] as int, p[3] as int);
    assert(av * b == a0 * b + (a1 * b) * b1() + (a2 * b) * b2() + (a3 * b) * b3())
        by (nonlinear_arith)
        requires
            av == a0 + a1 * b1() + a2 * b2() + a3 * b3(),
    ;
    assert(k * pv == k * p0 + (k * p1) * b1() + (k * p2) * b2() + (k * p3) * b3())
        by (nonlinear_arith)
        requires
            pv == p0 + p1 * b1() + p2 * b2() + p3 * b3(),
    ;
    assert(av * b + k * pv <= (av + pv) * (b1() - 1)) by (nonlinear_arith)
        requires
            0 <= b <= b1() - 1,
            0 <= k <= b1() - 1,
            av >= 0,
            pv >= 0,
    ;
}

/// One round, each product folded into the running carry at once.
fn round(r: [u64; 4], a: &[u64; 4], b: u64, p: &[u64; 4], inv: u64) -> (out: ([u64; 4], Ghost<int>))
    requires
        is_neg_inverse(inv, *p),
        limbs_value(*a) + limbs_value(*p) <= radix(),
        limbs_value(r) < limbs_value(*a) + limbs_value(*p),
    ensures
        limbs_value(out.0) < limbs_value(*a) + limbs_value(*p),
        0 <= out.1@ < b1(),
        limbs_value(out.0) * b1() == limbs_value(r) + limbs_value(*a) * b + out.1@ * limbs_value(*p),
{
    let (s0, c1) = mul_add(r[0], a[0], b, 0);
    let k: u64 = s0.wrapping_mul(inv);
    let (z, c2) = mul_add(s0, k, p[0], 0);
    proof {
        lemma_clears_low_limb(s0, inv, p[0], k);
        assert(z == 0);
    }
    let (s1, c1) = mul_add(r[1], a[1], b, c1);
    let (o0, c2) = mul_add(s1, k, p[1], c2);
    let (s2, c1) = mul_add(r[2], a[2], b, c1);
    let (o1, c2) = mul_add(s2, k, p[2], c2);
    let (s3, c1) = mul_add(r[3], a[3], b, c1);
    let (o2, c2) = mul_add(s3, k, p[3], c2);
    proof {
        lemma_round(r, *a, b, *p, k, o0, o1, o2, c1 + c2);
    }
    let o3: u64 = c1 + c2;
    let out: [u64; 4] = [o0, o1, o2, o3];
    (out, Ghost(k as int))
}

/// The 128-bit product as two limbs.
fn wide_mul(x: u64, y: u64) -> (res: (u64, u64))
    ensures
        res.0 + res.1 * b1() == x * y,
{
    mul_add(0, x, y, 0)
}

/// Adds a limb and a carry to a two-limb product: the carry chain of one step.
fn carry_chain(lo: u64, hi: u64, acc: u64, carry: u64) -> (res: (u64, u64))
    requires
        lo + hi * b1() <= 0xffff_ffff_ffff_ffff * 0xffff_ffff_ffff_ffff,
    ensures
        res.0 + res.1 * b1() == lo + hi * b1() + acc + carry,
{
    let t: u128 = lo as u128 + acc as u128;
    let u: u128 = (t % 0x1_0000_0000_0000_0000u128) + carry as u128;
    let low: u64 = (u % 0x1_0000_0000_0000_0000u128) as u64;
    let first: u64 = (t / 0x1_0000_0000_0000_0000u128) as u64;
    let second: u64 = (u / 0x1_0000_0000_0000_0000u128) as u64;
    let high: u64 = hi + first + second;
    (low, high)
}

/// The product of two limbs is at most `(2^64 - 1)^2`.
proof fn lemma_limb_product(x: u64, y: u64)
    ensures
        0 <= x * y <= 0xffff_ffff_ffff_ffff * 0xffff_ffff_ffff_ffff,
{
    assert(0 <= x * y <= 0xffff_ffff_ffff_ffff * 0xffff_ffff_ffff_ffff) by (nonlinear_arith)
        requires
            0 <= x <= 0xffff_ffff_ffff_ffff,
            0 <= y <= 0xffff_ffff_ffff_ffff,
    ;
}

/// One round, both products of a step formed before the carry chain that
/// consumes them.
fn round_products_first(r: [u64; 4], a: &[u64; 4], b: u64, p: &[u64; 4], inv: u64) -> (out: (
    [u64; 4],
    Ghost<int>,
))
    requires
        is_neg_inverse(inv, *p),
        limbs_value(*a) + limbs_value(*p) <= radix(),
        limbs_value(r) < limbs_value(*a) + limbs_value(*p),
    ensures
        limbs_value(out.0) < limbs_value(*a) + limbs_value(*p),
        0 <= out.1@ < b1(),
        limbs_value(out.0) * b1() == limbs_value(r) + limbs_value(*a) * b + out.1@ * limbs_value(*p),
{
    proof {
        lemma_limb_product(a[0], b);
        lemma_limb_product(a[1], b);
        lemma_limb_product(a[2], b);
        lemma_limb_product(a[3], b);
    }
    let (m0, h0) = wide_mul(a[0], b);
    let (s0, c1) = carry_chain(m0, h0, r[0], 0);
    let k: u64 = s0.wrapping_mul(inv);
    proof {
        lemma_limb_product(k, p[0]);
        lemma_limb_product(k, p[1]);
        lemma_limb_product(k, p[2]);
        lemma_limb_product(k, p[3]);
    }
    let (m1, h1) = wide_mul(k, p[0]);
    let (z, c2) = carry_chain(m1, h1, s0, 0);
    proof {
        lemma_clears_low_limb(s0, inv, p[0], k);
        assert(z == 0);
    }
    let (m0, h0) = wide_mul(a[1], b);
    let (m1, h1) = wide_mul(k, p[1]);
    let (s1, c1) = carry_chain(m0, h0, r[1], c1);
    let (o0, c2) = carry_chain(m1, h1, s1, c2);
    let (m0, h0) = wide_mul(a[2], b);
    let (m1, h1) = wide_mul(k, p[2]);
    let (s2, c1) = carry_chain(m0, h0, r[2], c1);
    let (o1, c2) = carry_chain(m1, h1, s2, c2);
    let (m0, h0) = wide_mul(a[3], b);
    let (m1, h1) = wide_mul(k, p[3]);
    let (s3, c1) = carry_chain(m0, h0, r[3], c1);
    let (o2, c2) = carry_chain(m1, h1, s3, c2);
    proof {
        lemma_round(r, *a, b, *p, k, o0, o1, o2, c1 + c2);
    }
    let o3: u64 = c1 + c2;
    let out: [u64; 4] = [o0, o1, o2, o3];
    (out, Ghost(k as int))
}

/// The four rounds together are the Montgomery product.
proof fn lemma_four_rounds(
    a: int,
    b: [u64; 4],
    p: int,
    r1: int,
    r2: int,
    r3: int,
    r4: int,
    k0: int,
    k1: int,
    k2: int,
    k3: int,
)
    requires
        0 <= k0 < b1(),
        0 <= k1 < b1(),
        0 <= k2 < b1(),
        0 <= k3 < b1(),
        r1 * b1() == a * b[0] + k0 * p,
        r2 * b1() == r1 + a * b[1] + k1 * p,
        r3 * b1() == r2 + a * b[2] + k2 * p,
        r4 * b1() == r3 + a * b[3] + k3 * p,
    ensures
        is_montgomery_product(r4, a, limbs_value(b), p),
{
    let bv = limbs_value(b);
    let (x0, x1, x2, x3) = (b[0] as int, b[1] as int, b[2] as int, b[3] as int);
    let m = k0 + k1 * b1() + k2 * b2() + k3 * b3();
    assert(a * bv == a * x0 + (a * x1) * b1() + (a * x2) * b2() + (a * x3) * b3())
        by (nonlinear_arith)
        requires
            bv == x0 + x1 * b1() + x2 * b2() + x3 * b3(),
    ;
    assert(m * p == k0 * p + (k1 * p) * b1() + (k2 * p) * b2() + (k3 * p) * b3())
        by (nonlinear_arith)
        requires
            m == k0 + k1 * b1() + k2 * b2() + k3 * b3(),
    ;
    assert(m * p == r4 * radix() - a * bv);
}

/// A modulus that has a negated inverse modulo `2^64` is odd, hence positive.
pub proof fn lemma_modulus_is_odd(inv: u64, p: [u64; 4])
    requires
        is_neg_inverse(inv, p),
    ensures
        limbs_value(p) % 2 == 1,
        limbs_value(p) > 0,
{
    let p0 = p[0] as int;
    let w: int = (inv * p[0] + 1) / b1();
    assert(inv * p0 + 1 == w * b1());
    if p0 % 2 == 0 {
        let h = p0 / 2;
        assert(p0 == 2 * h);
        assert(inv * p0 == 2 * (inv * h)) by (nonlinear_arith)
            requires
                p0 == 2 * h,
        ;
        assert(false);
    }
}

/// Montgomery product of two four-limb integers, little-endian limbs:
/// `a * b / 2^256` modulo `modulus`, below `a + modulus`, so below twice the
/// modulus when `a` is reduced. Callers apply [`subtract_modulus`].
///
/// The no-carry optimisation needs `a + modulus <= 2^256`, which a modulus with
/// a spare high bit gives for every reduced `a`.
pub fn mont_mul(a: &[u64; 4], b: &[u64; 4], modulus: &[u64; 4], inv: u64) -> (r: [u64; 4])
    requires
        is_neg_inverse(inv, *modulus),
        limbs_value(*a) + limbs_value(*modulus) <= radix(),
    ensures
        is_montgomery_product(
            limbs_value(r),
            limbs_value(*a),
            limbs_value(*b),
            limbs_value(*modulus),
        ),
        limbs_value(r) < limbs_value(*a) + limbs_value(*modulus),
{
    proof {
        lemma_modulus_is_odd(inv, *modulus);
    }
    let r0: [u64; 4] = [0, 0, 0, 0];
    let (r1, Ghost(k0)) = round(r0, a, b[0], modulus, inv);
    let (r2, Ghost(k1)) = round(r1, a, b[1], modulus, inv);
    let (r3, Ghost(k2)) = round(r2, a, b[2], modulus, inv);
    let (r4, Ghost(k3)) = round(r3, a, b[3], modulus, inv);
    proof {
        lemma_four_rounds(
            limbs_value(*a),
            *b,
            limbs_value(*modulus),
            limbs_value(r1),
            limbs_value(r2),
            limbs_value(r3),
            limbs_value(r4),
            k0,
            k1,
            k2,
            k3,
        );
    }
    r4
}

/// The same product as [`mont_mul`], with both limb products of a step formed
/// before the carry chain that consumes them.
pub fn mont_mul_v2(a: &[u64; 4], b: &[u64; 4], modulus: &[u64; 4], inv: u64) -> (r: [u64; 4])
    requires
        is_neg_inverse(inv, *modulus),
        limbs_value(*a) + limbs_value(*modulus) <= radix(),
    ensures
        is_montgomery_product(
            limbs_value(r),
            limbs_value(*a),
            limbs_value(*b),
            limbs_value(*modulus),
        ),
        limbs_value(r) < limbs_value(*a) + limbs_value(*modulus),
{
    proof {
        lemma_modulus_is_odd(inv, *modulus);
    }
    let r0: [u64; 4] = [0, 0, 0, 0];
    let (r1, Ghost(k0)) = round_products_first(r0, a, b[0], modulus, inv);
    let (r2, Ghost(k1)) = round_products_first(r1, a, b[1], modulus, inv);
    let (r3, Ghost(k2)) = round_products_first(r2, a, b[2], modulus, inv);
    let (r4, Ghost(k3)) = round_products_first(r3, a, b[3], modulus, inv);
    proof {
        lemma_four_rounds(
            limbs_value(*a),
            *b,
            limbs_value(*modulus),
            limbs_value(r1),
            limbs_value(r2),
            limbs_value(r3),
            limbs_value(r4),
            k0,
            k1,
            k2,
            k3,
        );
    }
    r4
}

/// The same product as [`mont_mul`], operands taken by value.
pub fn mont_mul_v3(a: [u64; 4], b: [u64; 4], modulus: [u64; 4], inv: u64) -> (r: [u64; 4])
    requires
        is_neg_inverse(inv, modulus),
        limbs_value(a) + limbs_value(modulus) <= radix(),
    ensures
        is_montgomery_product(
            limbs_value(r),
            limbs_value(a),
            limbs_value(b),
            limbs_value(modulus),
        ),
        limbs_value(r) < limbs_value(a) + limbs_value(modulus),
{
    mont_mul(&a, &b, &modulus, inv)
}

/// `x >= y` on little-endian limbs.
pub fn limbs_ge(x: &[u64; 4], y: &[u64; 4]) -> (ge: bool)
    ensures
        ge == (limbs_value(*x) >= limbs_value(*y)),
{
    if x[3] != y[3] {
        x[3] > y[3]
    } else if x[2] != y[2] {
        x[2] > y[2]
    } else if x[1] != y[1] {
        x[1] > y[1]
    } else {
        x[0] >= y[0]
    }
}

/// `x - y - borrow` on one limb, with the borrow out.
fn sub_borrow(x: u64, y: u64, borrow: u64) -> (res: (u64, u64))
    requires
        borrow <= 1,
    ensures
        res.1 <= 1,
        x - y - borrow == res.0 - res.1 * b1(),
{
    if x as u128 >= y as u128 + borrow as u128 {
        let d: u128 = x as u128 - y as u128 - borrow as u128;
        (d as u64, 0)
    } else {
        let d: u128 = 0x1_0000_0000_0000_0000u128 + x as u128 - y as u128 - borrow as u128;
        (d as u64, 1)
    }
}

/// `x - y` for `x >= y`.
pub fn limbs_sub(x: &[u64; 4], y: &[u64; 4]) -> (r: [u64; 4])
    requires
        limbs_value(*x) >= limbs_value(*y),
    ensures
        limbs_value(r) == limbs_value(*x) - limbs_value(*y),
{
    let (d0, c) = sub_borrow(x[0], y[0], 0);
    let (d1, c) = sub_borrow(x[1], y[1], c);
    let (d2, c) = sub_borrow(x[2], y[2], c);
    let (d3, c) = sub_borrow(x[3], y[3], c);
    let r: [u64; 4] = [d0, d1, d2, d3];
    assert(limbs_value(r) - c * radix() == limbs_value(*x) - limbs_value(*y));
    r
}

/// The conditional subtraction that reduces a value below twice the modulus.
pub fn subtract_modulus(x: [u64; 4], modulus: &[u64; 4]) -> (r: [u64; 4])
    ensures
        limbs_value(r) == if limbs_value(x) >= limbs_value(*modulus) {
            limbs_value(x) - limbs_value(*modulus)
        } else {
            limbs_value(x)
        },
{
    if limbs_ge(&x, modulus) {
        limbs_sub(&x, modulus)
    } else {
        x
    }
}

/// An odd factor does not matter for divisibility by a power of two.
proof fn lemma_odd_factor(x: int, p: int, d: int, k: nat)
    requires
        p % 2 == 1,
        x * p == d * vstd::arithmetic::power2::pow2(k),
    ensures
        x % (vstd::arithmetic::power2::pow2(k) as int) == 0,
    decreases k,
{
    vstd::arithmetic::power2::lemma_pow2_pos(k);
    if k == 0 {
        vstd::arithmetic::power2::lemma2_to64();
    } else {
        let h = vstd::arithmetic::power2::pow2((k - 1) as nat) as int;
        vstd::arithmetic::power2::lemma_pow2_unfold(k);
        let y = x / 2;
        if x % 2 == 1 {
            assert(x == 2 * y + 1);
            let q = p / 2;
            assert(p == 2 * q + 1);
            assert(x * p == 2 * (2 * y * q + y + q) + 1) by (nonlinear_arith)
                requires
                    x == 2 * y + 1,
                    p == 2 * q + 1,
            ;
            assert(d * (2 * h) == 2 * (d * h)) by (nonlinear_arith);
            assert(false);
        }
        assert(y * p == d * h) by (nonlinear_arith)
            requires
                x == 2 * y,
                x * p == d * (2 * h),
        ;
        lemma_odd_factor(y, p, d, (k - 1) as nat);
        let z = y / h;
        vstd::arithmetic::power2::lemma_pow2_pos((k - 1) as nat);
        vstd::arithmetic::div_mod::lemma_fundamental_div_mod(y, h);
        assert(x == z * (2 * h)) by (nonlinear_arith)
            requires
                x == 2 * y,
                y == h * z,
        ;
        vstd::arithmetic::div_mod::lemma_mod_multiples_basic(z, 2 * h);
    }
}

/// Two Montgomery products of the same operands are the same integer, for an
/// odd modulus: [`mont_mul`], [`mont_mul_v2`] and [`mont_mul_v3`] agree.
pub proof fn montgomery_product_is_unique(r: int, s: int, a: int, b: int, p: int)
    requires
        p % 2 == 1,
        p > 0,
        is_montgomery_product(r, a, b, p),
        is_montgomery_product(s, a, b, p),
    ensures
        r == s,
{
    let m = choose|m: int| 0 <= m < radix() && #[trigger] (m * p) == r * radix() - a * b;
    let n = choose|m: int| 0 <= m < radix() && #[trigger] (m * p) == s * radix() - a * b;
    lemma_radix_is_power();
    assert((m - n) * p == (r - s) * radix()) by (nonlinear_arith)
        requires
            m * p == r * radix() - a * b,
            n * p == s * radix() - a * b,
    ;
    lemma_odd_factor(m - n, p, r - s, 256);
    assert(m == n);
}

/// `2^256` is the 256th power of two.
pub proof fn lemma_radix_is_power()
    ensures
        vstd::arithmetic::power2::pow2(256) == radix(),
        vstd::arithmetic::power2::pow2(128) == b2(),
{
    vstd::arithmetic::power2::lemma2_to64();
    vstd::arithmetic::power2::lemma_pow2_adds(64, 64);
    vstd::arithmetic::power2::lemma_pow2_adds(128, 128);
    let x = vstd::arithmetic::power2::pow2(128) as int;
    assert(x * x == radix()) by (nonlinear_arith)
        requires
            x == b2(),
    ;
}

/// The reduced Montgomery product times the radix is congruent to the product:
/// multiplication followed by one conditional subtraction is multiplication
/// in Montgomery form.
pub proof fn montgomery_product_is_congruent(r: int, reduced: int, a: int, b: int, p: int)
    requires
        p > 0,
        is_montgomery_product(r, a, b, p),
        0 <= r < 2 * p,
        reduced == if r >= p {
            r - p
        } else {
            r
        },
    ensures
        0 <= reduced < p,
        (reduced * radix()) % p == (a * b) % p,
{
    let m = choose|m: int| 0 <= m < radix() && #[trigger] (m * p) == r * radix() - a * b;
    let e: int = if r >= p {
        1
    } else {
        0
    };
    assert(reduced * radix() == a * b + (m - e * radix()) * p) by (nonlinear_arith)
        requires
            reduced == r - e * p,
            m * p == r * radix() - a * b,
    ;
    vstd::arithmetic::div_mod::lemma_mod_multiples_vanish(m - e * radix(), a * b, p);
    assert(p * (m - e * radix()) == (m - e * radix()) * p) by (nonlinear_arith);
}

/// The lowest limb gives the value modulo any power of two up to `2^10`.
pub proof fn lemma_low_limb(l: [u64; 4])
    ensures
        limbs_value(l) % 4 == l[0] % 4,
        (limbs_value(l) / 4) % 256 == (l[0] / 4) % 256,
{
    let high = l[1] + l[2] * b1() + l[3] * b2();
    assert(limbs_value(l) == l[0] + high * b1());
}

} // verus!
