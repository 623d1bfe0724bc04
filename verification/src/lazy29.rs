//! Multiplication modulo the Pallas base field's modulus in nine 29-bit limbs.
//!
//! A product of two limbs has 58 bits, so a 64-bit column takes all eighteen
//! products of a multiplication without passing a carry on; carries are resolved
//! once, at the end.

use vstd::prelude::*;

use crate::field::fp_modulus;
use crate::montgomery::{limbs_value, radix};

verus! {

/// `2^29`.
pub const LIMB: u64 = 0x2000_0000;

/// The modulus in 29-bit limbs, least significant first.
pub const P29: [u64; 9] = [0x1, 0x9698768, 0x133e46e6, 0xd31f812, 0x224, 0, 0, 0, 0x400000];

/// `-p^-1` modulo `2^29`.
pub const INV29: u64 = 0x1fff_ffff;

/// `2^(29 n)`.
pub open spec fn limb_power(n: nat) -> int
    decreases n,
{
    if n == 0 {
        1
    } else {
        0x2000_0000 * limb_power((n - 1) as nat)
    }
}

/// `2^261`.
pub open spec fn radix29() -> int {
    limb_power(9)
}

/// The number in the first `n` limbs.
pub open spec fn low_limbs(l: Seq<u64>, n: nat) -> int
    decreases n,
{
    if n == 0 {
        0
    } else {
        low_limbs(l, (n - 1) as nat) + l[n - 1] * limb_power((n - 1) as nat)
    }
}

/// The number in nine limbs.
pub open spec fn limbs29_value(l: [u64; 9]) -> int {
    low_limbs(l@, 9)
}

/// Every limb has 29 bits.
pub open spec fn are_limbs29(l: [u64; 9]) -> bool {
    forall|i: int| 0 <= i < 9 ==> #[trigger] l@[i] < 0x2000_0000
}

pub(crate) proof fn lemma_powers()
    ensures
        limb_power(0) == 1,
        limb_power(1) == 0x2000_0000,
        limb_power(2) == 0x400_0000_0000_0000,
        limb_power(3) == 0x80_0000_0000_0000_0000_0000,
        limb_power(4) == 0x10_0000_0000_0000_0000_0000_0000_0000,
        limb_power(5) == 0x2_0000_0000_0000_0000_0000_0000_0000_0000_0000,
        limb_power(6) == 0x4000_0000_0000_0000_0000_0000_0000_0000_0000_0000_0000,
        limb_power(7) == 0x800_0000_0000_0000_0000_0000_0000_0000_0000_0000_0000_0000_0000,
        limb_power(8) == 0x100_0000_0000_0000_0000_0000_0000_0000_0000_0000_0000_0000_0000_0000_0000,
        limb_power(9) == 0x20_0000_0000_0000_0000_0000_0000_0000_0000_0000_0000_0000_0000_0000_0000_0000_0000,
{
    reveal_with_fuel(limb_power, 10);
    assert(limb_power(1) == 0x2000_0000);
    assert(limb_power(2) == 0x400_0000_0000_0000);
    assert(limb_power(3) == 0x80_0000_0000_0000_0000_0000);
    assert(limb_power(4) == 0x10_0000_0000_0000_0000_0000_0000_0000);
}

/// The number in nine columns of any size, written out.
spec fn columns(t: Seq<u64>) -> int {
    t[0] + 0x2000_0000 * t[1] + 0x400_0000_0000_0000 * t[2] + 0x80_0000_0000_0000_0000_0000 * t[3]
        + 0x10_0000_0000_0000_0000_0000_0000_0000 * t[4]
        + 0x2_0000_0000_0000_0000_0000_0000_0000_0000_0000 * t[5]
        + 0x4000_0000_0000_0000_0000_0000_0000_0000_0000_0000_0000 * t[6]
        + 0x800_0000_0000_0000_0000_0000_0000_0000_0000_0000_0000_0000_0000 * t[7]
        + 0x100_0000_0000_0000_0000_0000_0000_0000_0000_0000_0000_0000_0000_0000_0000 * t[8]
}

proof fn lemma_value_is_written_out(l: Seq<u64>)
    ensures
        low_limbs(l, 9) == columns(l),
{
    lemma_powers();
    assert(low_limbs(l, 0) == 0);
    assert(low_limbs(l, 1) == low_limbs(l, 0) + l[0] * limb_power(0));
    assert(low_limbs(l, 2) == low_limbs(l, 1) + l[1] * limb_power(1));
    assert(low_limbs(l, 3) == low_limbs(l, 2) + l[2] * limb_power(2));
    assert(low_limbs(l, 4) == low_limbs(l, 3) + l[3] * limb_power(3));
    assert(low_limbs(l, 5) == low_limbs(l, 4) + l[4] * limb_power(4));
    assert(low_limbs(l, 6) == low_limbs(l, 5) + l[5] * limb_power(5));
    assert(low_limbs(l, 7) == low_limbs(l, 6) + l[6] * limb_power(6));
    assert(low_limbs(l, 8) == low_limbs(l, 7) + l[7] * limb_power(7));
    assert(low_limbs(l, 9) == low_limbs(l, 8) + l[8] * limb_power(8));
    assert(l[0] * limb_power(0) == l[0]);
    assert(l[1] * limb_power(1) == 0x2000_0000 * l[1]);
    assert(l[2] * limb_power(2) == 0x400_0000_0000_0000 * l[2]);
}

/// The limbs are those of the Pallas base field's modulus.
pub proof fn limbs_are_of_the_modulus()
    ensures
        limbs29_value(P29) == fp_modulus(),
        are_limbs29(P29),
        (INV29 * P29@[0] + 1) % 0x2000_0000 == 0,
{
    lemma_value_is_written_out(P29@);
    assert(P29@ =~= seq![0x1u64, 0x9698768, 0x133e46e6, 0xd31f812, 0x224, 0, 0, 0, 0x400000]);
}

/// The most that a round adds to a column.
spec fn round_bound() -> int {
    0x800_0010_0000_0000
}

/// A product of two limbs.
proof fn lemma_limb_product(x: u64, y: u64)
    requires
        x < 0x2000_0000,
        y < 0x2000_0000,
    ensures
        0 <= x * y <= 0x3ff_ffff_c000_0001,
{
    assert(0 <= x * y <= 0x3ff_ffff_c000_0001) by (nonlinear_arith)
        requires
            x <= 0x1fff_ffff,
            y <= 0x1fff_ffff,
    ;
}

/// A limb times a number is the sum over the number's limbs.
proof fn lemma_limb_times(x: int, b: Seq<u64>)
    ensures
        x * columns(b) == x * b[0] + 0x2000_0000 * (x * b[1]) + 0x400_0000_0000_0000 * (x * b[2])
            + 0x80_0000_0000_0000_0000_0000 * (x * b[3])
            + 0x10_0000_0000_0000_0000_0000_0000_0000 * (x * b[4])
            + 0x2_0000_0000_0000_0000_0000_0000_0000_0000_0000 * (x * b[5])
            + 0x4000_0000_0000_0000_0000_0000_0000_0000_0000_0000_0000 * (x * b[6])
            + 0x800_0000_0000_0000_0000_0000_0000_0000_0000_0000_0000_0000_0000 * (x * b[7])
            + 0x100_0000_0000_0000_0000_0000_0000_0000_0000_0000_0000_0000_0000_0000_0000 * (x
            * b[8]),
{
    let (b0, b1, b2) = (b[0] as int, b[1] as int, b[2] as int);
    let (b3, b4, b5) = (b[3] as int, b[4] as int, b[5] as int);
    let (b6, b7, b8) = (b[6] as int, b[7] as int, b[8] as int);
    lemma_nine_terms(x, b0, b1, b2, b3, b4, b5, b6, b7, b8);
}

proof fn lemma_nine_terms(
    x: int,
    b0: int,
    b1: int,
    b2: int,
    b3: int,
    b4: int,
    b5: int,
    b6: int,
    b7: int,
    b8: int,
)
    by (nonlinear_arith)
    ensures
        x * (b0 + 0x2000_0000 * b1 + 0x400_0000_0000_0000 * b2 + 0x80_0000_0000_0000_0000_0000 * b3
            + 0x10_0000_0000_0000_0000_0000_0000_0000 * b4
            + 0x2_0000_0000_0000_0000_0000_0000_0000_0000_0000 * b5
            + 0x4000_0000_0000_0000_0000_0000_0000_0000_0000_0000_0000 * b6
            + 0x800_0000_0000_0000_0000_0000_0000_0000_0000_0000_0000_0000_0000 * b7
            + 0x100_0000_0000_0000_0000_0000_0000_0000_0000_0000_0000_0000_0000_0000_0000 * b8) == x
            * b0 + 0x2000_0000 * (x * b1) + 0x400_0000_0000_0000 * (x * b2)
            + 0x80_0000_0000_0000_0000_0000 * (x * b3) + 0x10_0000_0000_0000_0000_0000_0000_0000
            * (x * b4) + 0x2_0000_0000_0000_0000_0000_0000_0000_0000_0000 * (x * b5)
            + 0x4000_0000_0000_0000_0000_0000_0000_0000_0000_0000_0000 * (x * b6)
            + 0x800_0000_0000_0000_0000_0000_0000_0000_0000_0000_0000_0000_0000 * (x * b7)
            + 0x100_0000_0000_0000_0000_0000_0000_0000_0000_0000_0000_0000_0000_0000_0000 * (x
            * b8),
{
}

/// One round: with `t` the columns, `2^29 t' = t + ai b + m p`. The columns grow
/// by at most a fixed amount.
fn round(t: &[u64; 9], ai: u64, b: &[u64; 9], i: Ghost<int>) -> (r: ([u64; 9], Ghost<int>))
    requires
        0 <= i@ < 9,
        forall|j: int| 0 <= j < 9 ==> #[trigger] t@[j] <= i@ * round_bound(),
        ai < 0x2000_0000,
        are_limbs29(*b),
    ensures
        0 <= r.1@ < 0x2000_0000,
        0x2000_0000 * columns(r.0@) == columns(t@) + ai * columns(b@) + r.1@ * columns(P29@),
        forall|j: int| 0 <= j < 9 ==> #[trigger] r.0@[j] <= (i@ + 1) * round_bound(),
{
    let ghost k = i@;
    proof {
        assert(k * round_bound() <= 8 * round_bound()) by (nonlinear_arith)
            requires
                0 <= k <= 8,
                round_bound() >= 0,
        ;
        assert((k + 1) * round_bound() == k * round_bound() + round_bound()) by (nonlinear_arith);
        assert(b@[0] < 0x2000_0000 && b@[1] < 0x2000_0000 && b@[2] < 0x2000_0000 && b@[3]
            < 0x2000_0000 && b@[4] < 0x2000_0000 && b@[5] < 0x2000_0000 && b@[6] < 0x2000_0000
            && b@[7] < 0x2000_0000 && b@[8] < 0x2000_0000);
        lemma_limb_product(ai, b@[0]);
        lemma_limb_product(ai, b@[1]);
        lemma_limb_product(ai, b@[2]);
        lemma_limb_product(ai, b@[3]);
        lemma_limb_product(ai, b@[4]);
        lemma_limb_product(ai, b@[5]);
        lemma_limb_product(ai, b@[6]);
        lemma_limb_product(ai, b@[7]);
        lemma_limb_product(ai, b@[8]);
        assert(t@[0] <= k * round_bound() && t@[1] <= k * round_bound() && t@[2] <= k
            * round_bound() && t@[3] <= k * round_bound() && t@[4] <= k * round_bound() && t@[5]
            <= k * round_bound() && t@[6] <= k * round_bound() && t@[7] <= k * round_bound()
            && t@[8] <= k * round_bound());
        assert(P29@ =~= seq![0x1u64, 0x9698768, 0x133e46e6, 0xd31f812, 0x224, 0, 0, 0, 0x400000]);
        lemma_limb_times(ai as int, b@);
    }
    let t0 = t[0] + ai * b[0];
    let low: u64 = t0 % LIMB;
    let m: u64 = (low * INV29) % LIMB;
    let c: u64 = (t0 + m * P29[0]) / LIMB;
    proof {
        // m clears the lowest column: t0 + m = 0 modulo 2^29
        assert((low * 0x1fff_ffff) % 0x2000_0000 == m);
        assert((low + m) % 0x2000_0000 == 0) by {
            assert(low + low * 0x1fff_ffff == low * 0x2000_0000) by (nonlinear_arith);
        }
        assert((t0 + m) % 0x2000_0000 == 0);
        lemma_limb_times(m as int, P29@);
    }
    let out: [u64; 9] = [
        t[1] + ai * b[1] + m * P29[1] + c,
        t[2] + ai * b[2] + m * P29[2],
        t[3] + ai * b[3] + m * P29[3],
        t[4] + ai * b[4] + m * P29[4],
        t[5] + ai * b[5] + m * P29[5],
        t[6] + ai * b[6] + m * P29[6],
        t[7] + ai * b[7] + m * P29[7],
        t[8] + ai * b[8] + m * P29[8],
        0,
    ];
    assert(0x2000_0000 * c == t0 + m);
    assert(columns(out@) == out@[0] + 0x2000_0000 * out@[1] + 0x400_0000_0000_0000 * out@[2]
        + 0x80_0000_0000_0000_0000_0000 * out@[3] + 0x10_0000_0000_0000_0000_0000_0000_0000
        * out@[4] + 0x2_0000_0000_0000_0000_0000_0000_0000_0000_0000 * out@[5]
        + 0x4000_0000_0000_0000_0000_0000_0000_0000_0000_0000_0000 * out@[6]
        + 0x800_0000_0000_0000_0000_0000_0000_0000_0000_0000_0000_0000_0000 * out@[7]);
    (out, Ghost(m as int))
}

/// What a round does to the running product: from `t w = s b + q p` to the same
/// with one more limb of the first factor.
proof fn lemma_round_extends(
    t: int,
    next: int,
    w: int,
    s: int,
    b: int,
    q: int,
    p: int,
    ai: int,
    m: int,
)
    requires
        t * w == s * b + q * p,
        0x2000_0000 * next == t + ai * b + m * p,
        0 <= q < w,
        0 <= m < 0x2000_0000,
    ensures
        next * (0x2000_0000 * w) == (s + ai * w) * b + (q + m * w) * p,
        0 <= q + m * w < 0x2000_0000 * w,
{
    assert(next * (0x2000_0000 * w) == (0x2000_0000 * next) * w) by (nonlinear_arith);
    assert((t + ai * b + m * p) * w == t * w + (ai * w) * b + (m * w) * p) by (nonlinear_arith);
    assert((s + ai * w) * b == s * b + (ai * w) * b) by (nonlinear_arith);
    assert((q + m * w) * p == q * p + (m * w) * p) by (nonlinear_arith);
    assert(0 <= q + m * w < 0x2000_0000 * w) by (nonlinear_arith)
        requires
            0 <= q < w,
            0 <= m < 0x2000_0000,
    ;
}

/// Whether the number in `a` is at least that in `p`, limbs being below `2^29`.
pub fn ge(a: &[u64; 9], p: &[u64; 9]) -> (r: bool)
    requires
        are_limbs29(*a),
        are_limbs29(*p),
    ensures
        r == (limbs29_value(*a) >= limbs29_value(*p)),
{
    proof {
        lemma_value_is_written_out(a@);
        lemma_value_is_written_out(p@);
        assert(a@[0] < 0x2000_0000 && a@[1] < 0x2000_0000 && a@[2] < 0x2000_0000 && a@[3]
            < 0x2000_0000 && a@[4] < 0x2000_0000 && a@[5] < 0x2000_0000 && a@[6] < 0x2000_0000
            && a@[7] < 0x2000_0000 && a@[8] < 0x2000_0000);
        assert(p@[0] < 0x2000_0000 && p@[1] < 0x2000_0000 && p@[2] < 0x2000_0000 && p@[3]
            < 0x2000_0000 && p@[4] < 0x2000_0000 && p@[5] < 0x2000_0000 && p@[6] < 0x2000_0000
            && p@[7] < 0x2000_0000 && p@[8] < 0x2000_0000);
    }
    if a[8] != p[8] {
        return a[8] > p[8];
    }
    if a[7] != p[7] {
        return a[7] > p[7];
    }
    if a[6] != p[6] {
        return a[6] > p[6];
    }
    if a[5] != p[5] {
        return a[5] > p[5];
    }
    if a[4] != p[4] {
        return a[4] > p[4];
    }
    if a[3] != p[3] {
        return a[3] > p[3];
    }
    if a[2] != p[2] {
        return a[2] > p[2];
    }
    if a[1] != p[1] {
        return a[1] > p[1];
    }
    if a[0] != p[0] {
        return a[0] > p[0];
    }
    true
}

/// One limb of a difference: the limb and the borrow.
fn sub_limb(x: u64, y: u64, borrow: u64) -> (r: (u64, u64))
    requires
        x < 0x2000_0000,
        y < 0x2000_0000,
        borrow <= 1,
    ensures
        r.0 < 0x2000_0000,
        r.1 <= 1,
        r.0 - 0x2000_0000 * r.1 == x - y - borrow,
{
    if x >= y + borrow {
        (x - y - borrow, 0)
    } else {
        (x + LIMB - y - borrow, 1)
    }
}

/// The difference, of a number at least as large as the other.
fn sub_limbs(a: &[u64; 9], p: &[u64; 9]) -> (r: [u64; 9])
    requires
        are_limbs29(*a),
        are_limbs29(*p),
        limbs29_value(*a) >= limbs29_value(*p),
    ensures
        are_limbs29(r),
        limbs29_value(r) == limbs29_value(*a) - limbs29_value(*p),
{
    proof {
        lemma_value_is_written_out(a@);
        lemma_value_is_written_out(p@);
        assert(a@[0] < 0x2000_0000 && a@[1] < 0x2000_0000 && a@[2] < 0x2000_0000 && a@[3]
            < 0x2000_0000 && a@[4] < 0x2000_0000 && a@[5] < 0x2000_0000 && a@[6] < 0x2000_0000
            && a@[7] < 0x2000_0000 && a@[8] < 0x2000_0000);
        assert(p@[0] < 0x2000_0000 && p@[1] < 0x2000_0000 && p@[2] < 0x2000_0000 && p@[3]
            < 0x2000_0000 && p@[4] < 0x2000_0000 && p@[5] < 0x2000_0000 && p@[6] < 0x2000_0000
            && p@[7] < 0x2000_0000 && p@[8] < 0x2000_0000);
    }
    let (r0, c0) = sub_limb(a[0], p[0], 0);
    let (r1, c1) = sub_limb(a[1], p[1], c0);
    let (r2, c2) = sub_limb(a[2], p[2], c1);
    let (r3, c3) = sub_limb(a[3], p[3], c2);
    let (r4, c4) = sub_limb(a[4], p[4], c3);
    let (r5, c5) = sub_limb(a[5], p[5], c4);
    let (r6, c6) = sub_limb(a[6], p[6], c5);
    let (r7, c7) = sub_limb(a[7], p[7], c6);
    let (r8, c8) = sub_limb(a[8], p[8], c7);
    let r: [u64; 9] = [r0, r1, r2, r3, r4, r5, r6, r7, r8];
    proof {
        lemma_value_is_written_out(r@);
        assert(r@ =~= seq![r0, r1, r2, r3, r4, r5, r6, r7, r8]);
        assert(columns(r@)
            - 0x20_0000_0000_0000_0000_0000_0000_0000_0000_0000_0000_0000_0000_0000_0000_0000_0000
            * c8 == columns(a@) - columns(p@));
    }
    r
}

/// One column with the carry into it: the limb and the carry out of it.
fn carry_limb(t: u64, carry: u64) -> (r: (u64, u64))
    requires
        t + carry <= u64::MAX,
    ensures
        r.0 < 0x2000_0000,
        r.0 + 0x2000_0000 * r.1 == t + carry,
        r.1 <= 0x8_0000_0000,
{
    let v = t + carry;
    (v % LIMB, v / LIMB)
}

/// Resolves the carries of columns whose number has nine limbs.
fn propagate(t: &[u64; 9]) -> (r: [u64; 9])
    requires
        forall|j: int| 0 <= j < 9 ==> #[trigger] t@[j] <= 9 * round_bound(),
        columns(t@) < radix29(),
    ensures
        are_limbs29(r),
        limbs29_value(r) == columns(t@),
{
    proof {
        lemma_powers();
        assert(t@[0] <= 9 * round_bound() && t@[1] <= 9 * round_bound() && t@[2] <= 9
            * round_bound() && t@[3] <= 9 * round_bound() && t@[4] <= 9 * round_bound() && t@[5]
            <= 9 * round_bound() && t@[6] <= 9 * round_bound() && t@[7] <= 9 * round_bound()
            && t@[8] <= 9 * round_bound());
    }
    let (r0, c0) = carry_limb(t[0], 0);
    let (r1, c1) = carry_limb(t[1], c0);
    let (r2, c2) = carry_limb(t[2], c1);
    let (r3, c3) = carry_limb(t[3], c2);
    let (r4, c4) = carry_limb(t[4], c3);
    let (r5, c5) = carry_limb(t[5], c4);
    let (r6, c6) = carry_limb(t[6], c5);
    let (r7, c7) = carry_limb(t[7], c6);
    let (r8, c8) = carry_limb(t[8], c7);
    let r: [u64; 9] = [r0, r1, r2, r3, r4, r5, r6, r7, r8];
    proof {
        lemma_value_is_written_out(r@);
        assert(r@ =~= seq![r0, r1, r2, r3, r4, r5, r6, r7, r8]);
        assert(columns(r@)
            + 0x20_0000_0000_0000_0000_0000_0000_0000_0000_0000_0000_0000_0000_0000_0000_0000_0000
            * c8 == columns(t@));
    }
    r
}

/// `r` is `a b 2^-261` modulo the modulus.
pub open spec fn is_product29(r: int, a: int, b: int) -> bool {
    (r * radix29()) % fp_modulus() == (a * b) % fp_modulus()
}

/// Limbs hold a natural number.
pub proof fn lemma_value_is_natural(l: [u64; 9])
    ensures
        limbs29_value(l) >= 0,
{
    lemma_value_is_written_out(l@);
}

/// `a b 2^-261` modulo the modulus, reduced. The limbs must be below `2^29`, and
/// the first factor plus the modulus must fit in nine limbs.
pub fn mont_mul(a: &[u64; 9], b: &[u64; 9]) -> (r: [u64; 9])
    requires
        are_limbs29(*a),
        are_limbs29(*b),
        limbs29_value(*a) + fp_modulus() <= radix29(),
    ensures
        are_limbs29(r),
        limbs29_value(r) < fp_modulus(),
        is_product29(limbs29_value(r), limbs29_value(*a), limbs29_value(*b)),
{
    let mut t: [u64; 9] = [0; 9];
    let ghost mut w: int = 1;
    let ghost mut q: int = 0;
    let ghost p = fp_modulus();
    let ghost bv = limbs29_value(*b);
    proof {
        limbs_are_of_the_modulus();
        lemma_value_is_written_out(b@);
        lemma_value_is_written_out(P29@);
        assert(t@ =~= seq![0u64, 0, 0, 0, 0, 0, 0, 0, 0]);
        assert(columns(t@) == 0);
        assert(low_limbs(a@, 0) == 0);
        assert(0 * bv + 0 * p == 0);
    }
    let mut i: usize = 0;
    while i < 9
        invariant
            i <= 9,
            are_limbs29(*a),
            are_limbs29(*b),
            p == fp_modulus(),
            p == columns(P29@),
            bv == columns(b@),
            w == limb_power(i as nat),
            0 <= q < w,
            columns(t@) * w == low_limbs(a@, i as nat) * bv + q * p,
            forall|j: int| 0 <= j < 9 ==> #[trigger] t@[j] <= i * round_bound(),
        decreases 9 - i,
    {
        let ghost before = columns(t@);
        let (next, m) = round(&t, a[i], b, Ghost(i as int));
        proof {
            lemma_round_extends(
                before,
                columns(next@),
                w,
                low_limbs(a@, i as nat),
                bv,
                q,
                p,
                a@[i as int] as int,
                m@,
            );
            assert(low_limbs(a@, (i + 1) as nat) == low_limbs(a@, i as nat) + a@[i as int] * w);
            q = q + m@ * w;
            w = 0x2000_0000 * w;
        }
        t = next;
        i = i + 1;
    }
    let ghost av = limbs29_value(*a);
    let ghost tv = columns(t@);
    let ghost rr = radix29();
    proof {
        lemma_powers();
        lemma_limbs_fit(*a);
        lemma_limbs_fit(*b);
        // t R = a b + q p < (a + p) R
        assert(tv < rr) by (nonlinear_arith)
            requires
                tv * rr == av * bv + q * p,
                0 <= q < rr,
                0 <= bv < rr,
                0 <= av,
                0 < p,
                av + p <= rr,
        ;
    }
    let mut out = propagate(&t);
    proof {
        assert((q * p) % p == 0) by {
            vstd::arithmetic::div_mod::lemma_mod_multiples_basic(q, p);
        }
        vstd::arithmetic::div_mod::lemma_mod_multiples_vanish(q, av * bv, p);
        assert(p * q + av * bv == av * bv + q * p) by (nonlinear_arith);
        lemma_limbs_fit(out);
    }
    while ge(&out, &P29)
        invariant
            are_limbs29(out),
            are_limbs29(P29),
            limbs29_value(P29) == p,
            p == fp_modulus(),
            rr == radix29(),
            limbs29_value(out) >= 0,
            (limbs29_value(out) * rr) % p == (av * bv) % p,
        decreases limbs29_value(out),
    {
        let ghost v = limbs29_value(out);
        out = sub_limbs(&out, &P29);
        proof {
            vstd::arithmetic::div_mod::lemma_mod_multiples_vanish(-rr, v * rr, p);
            assert((v - p) * rr == p * (-rr) + v * rr) by (nonlinear_arith);
            lemma_limbs_fit(out);
        }
    }
    out
}

/// Nine limbs hold a number below `2^261`.
proof fn lemma_limbs_fit(l: [u64; 9])
    requires
        are_limbs29(l),
    ensures
        0 <= limbs29_value(l) < radix29(),
{
    lemma_value_is_written_out(l@);
    lemma_powers();
    assert(l@[0] < 0x2000_0000 && l@[1] < 0x2000_0000 && l@[2] < 0x2000_0000 && l@[3] < 0x2000_0000
        && l@[4] < 0x2000_0000 && l@[5] < 0x2000_0000 && l@[6] < 0x2000_0000 && l@[7] < 0x2000_0000
        && l@[8] < 0x2000_0000);
}

/// Four 64-bit limbs as nine 29-bit limbs.
pub fn from_u64x4(l: &[u64; 4]) -> (r: [u64; 9])
    ensures
        are_limbs29(r),
        limbs29_value(r) == limbs_value(*l),
{
    let r: [u64; 9] = [
        l[0] % 0x2000_0000,
        (l[0] / 0x2000_0000) % 0x2000_0000,
        l[0] / 0x400_0000_0000_0000 + (l[1] % 0x80_0000) * 0x40,
        (l[1] / 0x80_0000) % 0x2000_0000,
        l[1] / 0x10_0000_0000_0000 + (l[2] % 0x2_0000) * 0x1000,
        (l[2] / 0x2_0000) % 0x2000_0000,
        l[2] / 0x4000_0000_0000 + (l[3] % 0x800) * 0x4_0000,
        (l[3] / 0x800) % 0x2000_0000,
        l[3] / 0x100_0000_0000,
    ];
    proof {
        lemma_value_is_written_out(r@);
        let (l0, l1, l2, l3) = (l@[0] as int, l@[1] as int, l@[2] as int, l@[3] as int);
        assert(l0 == l0 % 0x2000_0000 + 0x2000_0000 * ((l0 / 0x2000_0000) % 0x2000_0000)
            + 0x400_0000_0000_0000 * (l0 / 0x400_0000_0000_0000));
        assert(l1 == l1 % 0x80_0000 + 0x80_0000 * ((l1 / 0x80_0000) % 0x2000_0000)
            + 0x10_0000_0000_0000 * (l1 / 0x10_0000_0000_0000));
        assert(l2 == l2 % 0x2_0000 + 0x2_0000 * ((l2 / 0x2_0000) % 0x2000_0000) + 0x4000_0000_0000
            * (l2 / 0x4000_0000_0000));
        assert(l3 == l3 % 0x800 + 0x800 * ((l3 / 0x800) % 0x2000_0000) + 0x100_0000_0000 * (l3
            / 0x100_0000_0000));
        assert(r@ =~= seq![r@[0], r@[1], r@[2], r@[3], r@[4], r@[5], r@[6], r@[7], r@[8]]);
    }
    r
}

/// Nine 29-bit limbs as four 64-bit limbs, where the number fits.
pub fn to_u64x4(l: &[u64; 9]) -> (r: [u64; 4])
    requires
        are_limbs29(*l),
        limbs29_value(*l) < radix(),
    ensures
        limbs_value(r) == limbs29_value(*l),
{
    proof {
        lemma_value_is_written_out(l@);
        assert(l@[0] < 0x2000_0000 && l@[1] < 0x2000_0000 && l@[2] < 0x2000_0000 && l@[3]
            < 0x2000_0000 && l@[4] < 0x2000_0000 && l@[5] < 0x2000_0000 && l@[6] < 0x2000_0000
            && l@[7] < 0x2000_0000 && l@[8] < 0x2000_0000);
        assert(l@[8] < 0x100_0000);
    }
    let r: [u64; 4] = [
        l[0] + l[1] * 0x2000_0000 + (l[2] % 0x40) * 0x400_0000_0000_0000,
        l[2] / 0x40 + l[3] * 0x80_0000 + (l[4] % 0x1000) * 0x10_0000_0000_0000,
        l[4] / 0x1000 + l[5] * 0x2_0000 + (l[6] % 0x4_0000) * 0x4000_0000_0000,
        l[6] / 0x4_0000 + l[7] * 0x800 + l[8] * 0x100_0000_0000,
    ];
    r
}

/// Going to nine limbs and back gives the number back: whatever
/// [`to_u64x4`] returns of the limbs of `l` under its contract is `l`.
pub proof fn conversions_round_trip(l: [u64; 4], nine: [u64; 9], back: [u64; 4])
    requires
        limbs29_value(nine) == limbs_value(l),
        limbs_value(back) == limbs29_value(nine),
    ensures
        back@ == l@,
{
    assert(back@[0] == l@[0] && back@[1] == l@[1] && back@[2] == l@[2] && back@[3] == l@[3]);
    assert(back@ =~= l@);
}

} // verus!
