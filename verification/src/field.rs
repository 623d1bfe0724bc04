//! The two Pasta prime fields.
//!
//! An element is kept as its canonical residue in four limbs. Every operation
//! is specified over that residue: sums, differences, products, powers and
//! inverses modulo the field's prime.

use vstd::arithmetic::div_mod::{
    lemma_mod_bound, lemma_mod_multiples_vanish, lemma_mod_twice, lemma_mul_mod_noop_left,
    lemma_mul_mod_noop_right, lemma_small_mod,
};
use vstd::arithmetic::power::pow;
use vstd::prelude::*;

use crate::arkworks::{ark_fp_inverse, ark_fq_inverse};
use crate::montgomery::{
    is_neg_inverse, limbs_ge, limbs_sub, limbs_value, mont_mul, montgomery_product_is_congruent,
    radix, subtract_modulus,
};

verus! {

/// The prime of the Pallas base field (the Vesta scalar field).
pub open spec fn fp_modulus() -> int {
    0x4000_0000_0000_0000_0000_0000_0000_0000_2246_98fc_094c_f91b_992d_30ed_0000_0001int
}

/// The prime of the Pallas scalar field (the Vesta base field).
pub open spec fn fq_modulus() -> int {
    0x4000_0000_0000_0000_0000_0000_0000_0000_2246_98fc_0994_a8dd_8c46_eb21_0000_0001int
}

/// `y` is the inverse of `x` modulo `p`.
pub open spec fn is_inverse(p: int, x: int, y: int) -> bool {
    0 <= y < p && (x * y) % p == 1
}

/// A prime field, its elements seen as canonical residues.
pub trait PrimeField: Copy + Sized {
    /// The field's prime.
    spec fn modulus() -> int;

    /// The canonical residue.
    spec fn view(&self) -> int;

    /// Residues are canonical.
    proof fn lemma_canonical(x: Self)
        ensures
            0 <= x.view() < Self::modulus(),
    ;

    /// The prime is odd and has 255 bits.
    proof fn lemma_modulus()
        ensures
            0x4000_0000_0000_0000_0000_0000_0000_0000_0000_0000_0000_0000_0000_0000_0000_0000int
                < Self::modulus()
                < 0x8000_0000_0000_0000_0000_0000_0000_0000_0000_0000_0000_0000_0000_0000_0000_0000int,
            Self::modulus() % 2 == 1,
    ;

    /// The element with the given limbs, if they are canonical.
    fn from_limbs(limbs: [u64; 4]) -> (r: Option<Self>)
        ensures
            r is Some <==> limbs_value(limbs) < Self::modulus(),
            r matches Some(x) ==> x.view() == limbs_value(limbs),
    ;

    /// The limbs of the canonical residue.
    fn to_limbs(&self) -> (r: [u64; 4])
        ensures
            limbs_value(r) == self.view(),
    ;

    /// The sum.
    fn add(&self, other: &Self) -> (r: Self)
        ensures
            r.view() == (self.view() + other.view()) % Self::modulus(),
    ;

    /// The difference.
    fn sub(&self, other: &Self) -> (r: Self)
        ensures
            r.view() == (self.view() - other.view()) % Self::modulus(),
    ;

    /// The product.
    fn mul(&self, other: &Self) -> (r: Self)
        ensures
            r.view() == (self.view() * other.view()) % Self::modulus(),
    ;

    /// The multiplicative inverse; none for zero alone.
    fn inverse(&self) -> (r: Option<Self>)
        ensures
            r is None <==> self.view() == 0,
            r matches Some(y) ==> is_inverse(Self::modulus(), self.view(), y.view()),
    ;
}

/// `a + b` for operands below a modulus with a spare bit.
fn limbs_add(a: &[u64; 4], b: &[u64; 4]) -> (r: [u64; 4])
    requires
        limbs_value(*a) + limbs_value(*b) < radix(),
    ensures
        limbs_value(r) == limbs_value(*a) + limbs_value(*b),
{
    let t0: u128 = a[0] as u128 + b[0] as u128;
    let t1: u128 = a[1] as u128 + b[1] as u128 + t0 / 0x1_0000_0000_0000_0000u128;
    let t2: u128 = a[2] as u128 + b[2] as u128 + t1 / 0x1_0000_0000_0000_0000u128;
    let t3: u128 = a[3] as u128 + b[3] as u128 + t2 / 0x1_0000_0000_0000_0000u128;
    assert(t3 < 0x1_0000_0000_0000_0000);
    let r: [u64; 4] = [
        (t0 % 0x1_0000_0000_0000_0000u128) as u64,
        (t1 % 0x1_0000_0000_0000_0000u128) as u64,
        (t2 % 0x1_0000_0000_0000_0000u128) as u64,
        t3 as u64,
    ];
    r
}

/// `(a + b) mod p`.
fn add_mod(a: &[u64; 4], b: &[u64; 4], p: &[u64; 4]) -> (r: [u64; 4])
    requires
        limbs_value(*a) < limbs_value(*p),
        limbs_value(*b) < limbs_value(*p),
        2 * limbs_value(*p) <= radix(),
    ensures
        limbs_value(r) == (limbs_value(*a) + limbs_value(*b)) % limbs_value(*p),
{
    let s = limbs_add(a, b);
    let r = subtract_modulus(s, p);
    proof {
        let (pv, sv, rv) = (limbs_value(*p), limbs_value(s), limbs_value(r));
        if sv >= pv {
            lemma_mod_multiples_vanish(1, rv, pv);
        }
        lemma_small_mod(rv as nat, pv as nat);
    }
    r
}

/// `(a - b) mod p`.
fn sub_mod(a: &[u64; 4], b: &[u64; 4], p: &[u64; 4]) -> (r: [u64; 4])
    requires
        limbs_value(*a) < limbs_value(*p),
        limbs_value(*b) < limbs_value(*p),
        2 * limbs_value(*p) <= radix(),
    ensures
        limbs_value(r) == (limbs_value(*a) - limbs_value(*b)) % limbs_value(*p),
{
    let ghost pv = limbs_value(*p);
    if limbs_ge(a, b) {
        let r = limbs_sub(a, b);
        proof {
            lemma_small_mod(limbs_value(r) as nat, pv as nat);
        }
        r
    } else {
        let s = limbs_add(a, p);
        let r = limbs_sub(&s, b);
        proof {
            lemma_mod_multiples_vanish(-1, limbs_value(r), pv);
            lemma_small_mod(limbs_value(r) as nat, pv as nat);
        }
        r
    }
}

/// Multiplying twice in Montgomery form, the second time by the square of the
/// radix, is multiplication of residues.
proof fn lemma_two_montgomery_steps(a: int, b: int, t: int, u: int, r2: int, rinv: int, p: int)
    requires
        p > 1,
        (t * radix()) % p == (a * b) % p,
        (u * radix()) % p == (t * r2) % p,
        r2 == (radix() * radix()) % p,
        (radix() * rinv) % p == 1,
        0 <= u < p,
    ensures
        u == (a * b) % p,
{
    let c = radix();
    // u c = t c c = a b c, all modulo p
    lemma_mul_mod_noop_right(t, c * c, p);
    assert((u * c) % p == (t * (c * c)) % p);
    assert(t * (c * c) == (t * c) * c) by (nonlinear_arith);
    lemma_mul_mod_noop_left(t * c, c, p);
    lemma_mul_mod_noop_left(a * b, c, p);
    assert((u * c) % p == ((a * b) * c) % p);
    // cancel c with its inverse
    lemma_cancel_unit(u, a * b, c, rinv, p);
    lemma_small_mod(u as nat, p as nat);
}

/// A factor with an inverse cancels.
pub(crate) proof fn lemma_cancel_unit(x: int, y: int, c: int, cinv: int, p: int)
    requires
        p > 1,
        (c * cinv) % p == 1,
        (x * c) % p == (y * c) % p,
    ensures
        x % p == y % p,
{
    lemma_times_unit(x, c, cinv, p);
    lemma_times_unit(y, c, cinv, p);
    lemma_mul_mod_noop_left(x * c, cinv, p);
    lemma_mul_mod_noop_left(y * c, cinv, p);
}

/// `x * c * c^{-1} = x`.
proof fn lemma_times_unit(x: int, c: int, cinv: int, p: int)
    requires
        p > 1,
        (c * cinv) % p == 1,
    ensures
        ((x * c) * cinv) % p == x % p,
{
    assert((x * c) * cinv == x * (c * cinv)) by (nonlinear_arith);
    lemma_mul_mod_noop_right(x, c * cinv, p);
    assert(x * 1 == x);
}

/// `(a * b) mod p`, through two Montgomery multiplications.
fn mul_mod(
    a: &[u64; 4],
    b: &[u64; 4],
    p: &[u64; 4],
    inv: u64,
    r2: &[u64; 4],
    rinv: Ghost<int>,
) -> (r: [u64; 4])
    requires
        limbs_value(*p) > 1,
        limbs_value(*a) < limbs_value(*p),
        limbs_value(*b) < limbs_value(*p),
        2 * limbs_value(*p) <= radix(),
        is_neg_inverse(inv, *p),
        limbs_value(*r2) == (radix() * radix()) % limbs_value(*p),
        (radix() * rinv@) % limbs_value(*p) == 1,
    ensures
        limbs_value(r) == (limbs_value(*a) * limbs_value(*b)) % limbs_value(*p),
{
    let ghost pv = limbs_value(*p);
    let t0 = mont_mul(a, b, p, inv);
    let t = subtract_modulus(t0, p);
    let u0 = mont_mul(&t, r2, p, inv);
    let u = subtract_modulus(u0, p);
    proof {
        montgomery_product_is_congruent(
            limbs_value(t0),
            limbs_value(t),
            limbs_value(*a),
            limbs_value(*b),
            pv,
        );
        montgomery_product_is_congruent(
            limbs_value(u0),
            limbs_value(u),
            limbs_value(t),
            limbs_value(*r2),
            pv,
        );
        lemma_two_montgomery_steps(
            limbs_value(*a),
            limbs_value(*b),
            limbs_value(t),
            limbs_value(u),
            limbs_value(*r2),
            rinv@,
            pv,
        );
    }
    u
}

/// An element of the Pallas base field.
#[derive(Clone, Copy, Debug, PartialEq, Eq)]
pub struct Fp {
    limbs: [u64; 4],
}

/// An element of the Pallas scalar field.
#[derive(Clone, Copy, Debug, PartialEq, Eq)]
pub struct Fq {
    limbs: [u64; 4],
}

/// The limbs of the Pallas base prime.
pub fn fp_modulus_limbs() -> (r: [u64; 4])
    ensures
        limbs_value(r) == fp_modulus(),
        r[0] == 0x992d30ed00000001,
{
    [0x992d30ed00000001, 0x224698fc094cf91b, 0, 0x4000000000000000]
}

/// The limbs of the Pallas scalar prime.
pub fn fq_modulus_limbs() -> (r: [u64; 4])
    ensures
        limbs_value(r) == fq_modulus(),
        r[0] == 0x8c46eb2100000001,
{
    [0x8c46eb2100000001, 0x224698fc0994a8dd, 0, 0x4000000000000000]
}

/// The constants of Montgomery multiplication modulo the Pallas base prime: the
/// square of the radix and the radix's inverse.
proof fn lemma_fp_constants()
    ensures
        (radix() * radix()) % fp_modulus() == 0x96d41af7b9cb7147797a99bc3c95d18d7d30dbd8b0de0e78c78ecb30000000fint,
        (radix() * 0x21f1c4ff1e2278d570cb2996efc89a65ac9fba6a4077fc57cf3f8e8753a769a9int) % fp_modulus() == 1,
{
    let p = fp_modulus();
    assert(radix() * radix() == p * 0x3fffffffffffffffffffffffffffffffddb96703f6b306e466d2cf12ffffffff1int + 0x96d41af7b9cb7147797a99bc3c95d18d7d30dbd8b0de0e78c78ecb30000000fint);
    lemma_mod_multiples_vanish(0x3fffffffffffffffffffffffffffffffddb96703f6b306e466d2cf12ffffffff1int, 0x96d41af7b9cb7147797a99bc3c95d18d7d30dbd8b0de0e78c78ecb30000000fint, p);
    lemma_small_mod(0x96d41af7b9cb7147797a99bc3c95d18d7d30dbd8b0de0e78c78ecb30000000fnat, p as nat);
    assert(radix() * 0x21f1c4ff1e2278d570cb2996efc89a65ac9fba6a4077fc57cf3f8e8753a769a9int == p * 0x87c713fc7889e355c32ca65bbf22699669c760bd82a13db2992d30ecffffffffint + 1);
    lemma_mod_multiples_vanish(0x87c713fc7889e355c32ca65bbf22699669c760bd82a13db2992d30ecffffffffint, 1, p);
    lemma_small_mod(1, p as nat);
}

/// The product modulo the Pallas base prime.
fn fp_product(a: &[u64; 4], b: &[u64; 4]) -> (r: [u64; 4])
    requires
        limbs_value(*a) < fp_modulus(),
        limbs_value(*b) < fp_modulus(),
    ensures
        limbs_value(r) == (limbs_value(*a) * limbs_value(*b)) % fp_modulus(),
{
    let r2: [u64; 4] = [0x8c78ecb30000000f, 0xd7d30dbd8b0de0e7, 0x7797a99bc3c95d18, 0x96d41af7b9cb714];
    let p = fp_modulus_limbs();
    proof {
        lemma_fp_constants();
        assert(limbs_value(r2) == 0x96d41af7b9cb7147797a99bc3c95d18d7d30dbd8b0de0e78c78ecb30000000fint);
        assert(0x992d30ecffffffffint * 0x992d30ed00000001int + 1 == 0x5ba70c7586abbb69int * 0x1_0000_0000_0000_0000int);
        assert(is_neg_inverse(0x992d30ecffffffff, p));
    }
    mul_mod(
        a,
        b,
        &p,
        0x992d30ecffffffff,
        &r2,
        Ghost(0x21f1c4ff1e2278d570cb2996efc89a65ac9fba6a4077fc57cf3f8e8753a769a9int),
    )
}

/// The constants of Montgomery multiplication modulo the Pallas scalar prime: the
/// square of the radix and the radix's inverse.
proof fn lemma_fq_constants()
    ensures
        (radix() * radix()) % fq_modulus() == 0x96d41af7ccfdaa97fae231004ccf59067bb433d891a16e3fc9678ff0000000fint,
        (radix() * 0x1f7a89dd176479535790be58c050df13c68de1279dc601eb6119a3dd8e1a6f7fint) % fq_modulus() == 1,
{
    let p = fq_modulus();
    assert(radix() * radix() == p * 0x3fffffffffffffffffffffffffffffffddb96703f66b572273b914deffffffff1int + 0x96d41af7ccfdaa97fae231004ccf59067bb433d891a16e3fc9678ff0000000fint);
    lemma_mod_multiples_vanish(0x3fffffffffffffffffffffffffffffffddb96703f66b572273b914deffffffff1int, 0x96d41af7ccfdaa97fae231004ccf59067bb433d891a16e3fc9678ff0000000fint, p);
    lemma_small_mod(0x96d41af7ccfdaa97fae231004ccf59067bb433d891a16e3fc9678ff0000000fnat, p as nat);
    assert(radix() * 0x1f7a89dd176479535790be58c050df13c68de1279dc601eb6119a3dd8e1a6f7fint == p * 0x7dea27745d91e54d5e42f96301437c4ed6c83a9183930e9c8c46eb20ffffffffint + 1);
    lemma_mod_multiples_vanish(0x7dea27745d91e54d5e42f96301437c4ed6c83a9183930e9c8c46eb20ffffffffint, 1, p);
    lemma_small_mod(1, p as nat);
}

/// The product modulo the Pallas scalar prime.
fn fq_product(a: &[u64; 4], b: &[u64; 4]) -> (r: [u64; 4])
    requires
        limbs_value(*a) < fq_modulus(),
        limbs_value(*b) < fq_modulus(),
    ensures
        limbs_value(r) == (limbs_value(*a) * limbs_value(*b)) % fq_modulus(),
{
    let r2: [u64; 4] = [0xfc9678ff0000000f, 0x67bb433d891a16e3, 0x7fae231004ccf590, 0x96d41af7ccfdaa9];
    let p = fq_modulus_limbs();
    proof {
        lemma_fq_constants();
        assert(limbs_value(r2) == 0x96d41af7ccfdaa97fae231004ccf59067bb433d891a16e3fc9678ff0000000fint);
        assert(0x8c46eb20ffffffffint * 0x8c46eb2100000001int + 1 == 0x4cdda4d186019a41int * 0x1_0000_0000_0000_0000int);
        assert(is_neg_inverse(0x8c46eb20ffffffff, p));
    }
    mul_mod(
        a,
        b,
        &p,
        0x8c46eb20ffffffff,
        &r2,
        Ghost(0x1f7a89dd176479535790be58c050df13c68de1279dc601eb6119a3dd8e1a6f7fint),
    )
}

impl Fp {
    /// The limbs are canonical.
    #[verifier::type_invariant]
    spec fn canonical(self) -> bool {
        limbs_value(self.limbs) < fp_modulus()
    }
}

impl Fq {
    /// The limbs are canonical.
    #[verifier::type_invariant]
    spec fn canonical(self) -> bool {
        limbs_value(self.limbs) < fq_modulus()
    }
}

impl PrimeField for Fp {
    open spec fn modulus() -> int {
        fp_modulus()
    }

    closed spec fn view(&self) -> int {
        limbs_value(self.limbs) % fp_modulus()
    }

    proof fn lemma_canonical(x: Self) {
        lemma_mod_bound(limbs_value(x.limbs), fp_modulus());
    }

    proof fn lemma_modulus() {
    }

    fn from_limbs(limbs: [u64; 4]) -> (r: Option<Self>) {
        let p = fp_modulus_limbs();
        if limbs_ge(&limbs, &p) {
            None
        } else {
            proof {
                lemma_small_mod(limbs_value(limbs) as nat, fp_modulus() as nat);
            }
            Some(Fp { limbs })
        }
    }

    fn to_limbs(&self) -> (r: [u64; 4]) {
        proof {
            use_type_invariant(self);
            lemma_small_mod(limbs_value(self.limbs) as nat, fp_modulus() as nat);
        }
        self.limbs
    }

    fn add(&self, other: &Self) -> (r: Self) {
        let (a, b) = (self.to_limbs(), other.to_limbs());
        proof {
            use_type_invariant(self);
            use_type_invariant(other);
            lemma_small_mod(limbs_value(self.limbs) as nat, fp_modulus() as nat);
            lemma_small_mod(limbs_value(other.limbs) as nat, fp_modulus() as nat);
            lemma_mod_bound(limbs_value(a) + limbs_value(b), fp_modulus());
            lemma_mod_twice(limbs_value(a) + limbs_value(b), fp_modulus());
        }
        Fp { limbs: add_mod(&a, &b, &fp_modulus_limbs()) }
    }

    fn sub(&self, other: &Self) -> (r: Self) {
        let (a, b) = (self.to_limbs(), other.to_limbs());
        proof {
            use_type_invariant(self);
            use_type_invariant(other);
            lemma_small_mod(limbs_value(self.limbs) as nat, fp_modulus() as nat);
            lemma_small_mod(limbs_value(other.limbs) as nat, fp_modulus() as nat);
            lemma_mod_bound(limbs_value(a) - limbs_value(b), fp_modulus());
            lemma_mod_twice(limbs_value(a) - limbs_value(b), fp_modulus());
        }
        Fp { limbs: sub_mod(&a, &b, &fp_modulus_limbs()) }
    }

    fn mul(&self, other: &Self) -> (r: Self) {
        let (a, b) = (self.to_limbs(), other.to_limbs());
        proof {
            use_type_invariant(self);
            use_type_invariant(other);
            lemma_small_mod(limbs_value(self.limbs) as nat, fp_modulus() as nat);
            lemma_small_mod(limbs_value(other.limbs) as nat, fp_modulus() as nat);
            lemma_mod_bound(limbs_value(a) * limbs_value(b), fp_modulus());
            lemma_mod_twice(limbs_value(a) * limbs_value(b), fp_modulus());
        }
        Fp { limbs: fp_product(&a, &b) }
    }

    fn inverse(&self) -> (r: Option<Self>) {
        let x = self.to_limbs();
        proof {
            use_type_invariant(self);
            lemma_small_mod(limbs_value(self.limbs) as nat, fp_modulus() as nat);
        }
        match ark_fp_inverse(x) {
            None => None,
            Some(limbs) => {
                proof {
                    lemma_small_mod(limbs_value(limbs) as nat, fp_modulus() as nat);
                }
                Some(Fp { limbs })
            },
        }
    }
}

impl PrimeField for Fq {
    open spec fn modulus() -> int {
        fq_modulus()
    }

    closed spec fn view(&self) -> int {
        limbs_value(self.limbs) % fq_modulus()
    }

    proof fn lemma_canonical(x: Self) {
        lemma_mod_bound(limbs_value(x.limbs), fq_modulus());
    }

    proof fn lemma_modulus() {
    }

    fn from_limbs(limbs: [u64; 4]) -> (r: Option<Self>) {
        let p = fq_modulus_limbs();
        if limbs_ge(&limbs, &p) {
            None
        } else {
            proof {
                lemma_small_mod(limbs_value(limbs) as nat, fq_modulus() as nat);
            }
            Some(Fq { limbs })
        }
    }

    fn to_limbs(&self) -> (r: [u64; 4]) {
        proof {
            use_type_invariant(self);
            lemma_small_mod(limbs_value(self.limbs) as nat, fq_modulus() as nat);
        }
        self.limbs
    }

    fn add(&self, other: &Self) -> (r: Self) {
        let (a, b) = (self.to_limbs(), other.to_limbs());
        proof {
            use_type_invariant(self);
            use_type_invariant(other);
            lemma_small_mod(limbs_value(self.limbs) as nat, fq_modulus() as nat);
            lemma_small_mod(limbs_value(other.limbs) as nat, fq_modulus() as nat);
            lemma_mod_bound(limbs_value(a) + limbs_value(b), fq_modulus());
            lemma_mod_twice(limbs_value(a) + limbs_value(b), fq_modulus());
        }
        Fq { limbs: add_mod(&a, &b, &fq_modulus_limbs()) }
    }

    fn sub(&self, other: &Self) -> (r: Self) {
        let (a, b) = (self.to_limbs(), other.to_limbs());
        proof {
            use_type_invariant(self);
            use_type_invariant(other);
            lemma_small_mod(limbs_value(self.limbs) as nat, fq_modulus() as nat);
            lemma_small_mod(limbs_value(other.limbs) as nat, fq_modulus() as nat);
            lemma_mod_bound(limbs_value(a) - limbs_value(b), fq_modulus());
            lemma_mod_twice(limbs_value(a) - limbs_value(b), fq_modulus());
        }
        Fq { limbs: sub_mod(&a, &b, &fq_modulus_limbs()) }
    }

    fn mul(&self, other: &Self) -> (r: Self) {
        let (a, b) = (self.to_limbs(), other.to_limbs());
        proof {
            use_type_invariant(self);
            use_type_invariant(other);
            lemma_small_mod(limbs_value(self.limbs) as nat, fq_modulus() as nat);
            lemma_small_mod(limbs_value(other.limbs) as nat, fq_modulus() as nat);
            lemma_mod_bound(limbs_value(a) * limbs_value(b), fq_modulus());
            lemma_mod_twice(limbs_value(a) * limbs_value(b), fq_modulus());
        }
        Fq { limbs: fq_product(&a, &b) }
    }

    fn inverse(&self) -> (r: Option<Self>) {
        let x = self.to_limbs();
        proof {
            use_type_invariant(self);
            lemma_small_mod(limbs_value(self.limbs) as nat, fq_modulus() as nat);
        }
        match ark_fq_inverse(x) {
            None => None,
            Some(limbs) => {
                proof {
                    lemma_small_mod(limbs_value(limbs) as nat, fq_modulus() as nat);
                }
                Some(Fq { limbs })
            },
        }
    }
}


/// The sum of residues.
pub open spec fn fadd<F: PrimeField>(a: int, b: int) -> int {
    (a + b) % F::modulus()
}

/// The difference of residues.
pub open spec fn fsub<F: PrimeField>(a: int, b: int) -> int {
    (a - b) % F::modulus()
}

/// The product of residues.
pub open spec fn fmul<F: PrimeField>(a: int, b: int) -> int {
    (a * b) % F::modulus()
}

/// The negated residue.
pub open spec fn fneg<F: PrimeField>(a: int) -> int {
    (-a) % F::modulus()
}

/// The power of a residue.
pub open spec fn fpow<F: PrimeField>(a: int, n: nat) -> int {
    pow(a, n) % F::modulus()
}

/// The inverse of a residue that has one.
pub open spec fn finv<F: PrimeField>(a: int) -> int {
    choose|y: int| is_inverse(F::modulus(), a, y)
}

/// The quotient of residues, for a divisor that has an inverse.
pub open spec fn fdiv<F: PrimeField>(a: int, b: int) -> int {
    fmul::<F>(a, finv::<F>(b))
}

/// The residues of a sequence of elements.
pub open spec fn residues<F: PrimeField>(s: Seq<F>) -> Seq<int> {
    Seq::new(s.len(), |i: int| s[i].view())
}

/// An inverse is unique.
pub proof fn lemma_inverse_is_unique<F: PrimeField>(x: int, y: int)
    requires
        is_inverse(F::modulus(), x, y),
    ensures
        finv::<F>(x) == y,
{
    let p = F::modulus();
    F::lemma_modulus();
    let z = finv::<F>(x);
    assert(is_inverse(p, x, z));
    // y = y (x z) = (y x) z = z
    assert(y * x == x * y) by (nonlinear_arith);
    lemma_times_unit(y, x, z, p);
    lemma_mul_mod_noop_left(y * x, z, p);
    assert(1 * z == z);
    lemma_small_mod(y as nat, p as nat);
    lemma_small_mod(z as nat, p as nat);
}

/// The zero element.
pub fn zero<F: PrimeField>() -> (r: F)
    ensures
        r.view() == 0,
{
    from_u64(0)
}

/// The unit element.
pub fn one<F: PrimeField>() -> (r: F)
    ensures
        r.view() == 1,
{
    from_u64(1)
}

/// The element of a small integer.
pub fn from_u64<F: PrimeField>(n: u64) -> (r: F)
    ensures
        r.view() == n,
{
    proof {
        F::lemma_modulus();
    }
    F::from_limbs([n, 0, 0, 0]).unwrap()
}

/// The element of a 128-bit integer.
pub fn from_u128<F: PrimeField>(n: u128) -> (r: F)
    ensures
        r.view() == n,
{
    proof {
        F::lemma_modulus();
    }
    let lo: u64 = (n % 0x1_0000_0000_0000_0000u128) as u64;
    let hi: u64 = (n / 0x1_0000_0000_0000_0000u128) as u64;
    F::from_limbs([lo, hi, 0, 0]).unwrap()
}

/// The element of a boolean, one or zero.
pub fn from_bool<F: PrimeField>(b: bool) -> (r: F)
    ensures
        r.view() == if b {
            1int
        } else {
            0
        },
{
    if b {
        one()
    } else {
        zero()
    }
}

/// Equality of residues.
pub fn equal<F: PrimeField>(a: &F, b: &F) -> (r: bool)
    ensures
        r == (a.view() == b.view()),
{
    let (x, y) = (a.to_limbs(), b.to_limbs());
    x[0] == y[0] && x[1] == y[1] && x[2] == y[2] && x[3] == y[3]
}

/// Whether the element is zero.
pub fn is_zero<F: PrimeField>(a: &F) -> (r: bool)
    ensures
        r == (a.view() == 0),
{
    let x = a.to_limbs();
    x[0] == 0 && x[1] == 0 && x[2] == 0 && x[3] == 0
}

/// The negated element.
pub fn neg<F: PrimeField>(a: &F) -> (r: F)
    ensures
        r.view() == fneg::<F>(a.view()),
{
    zero::<F>().sub(a)
}

/// The quotient; none when the divisor is zero.
pub fn div<F: PrimeField>(a: &F, b: &F) -> (r: Option<F>)
    ensures
        r is None <==> b.view() == 0,
        r matches Some(q) ==> q.view() == fdiv::<F>(a.view(), b.view()),
{
    match b.inverse() {
        None => None,
        Some(c) => {
            proof {
                lemma_inverse_is_unique::<F>(b.view(), c.view());
            }
            Some(a.mul(&c))
        },
    }
}

/// The two primes and what the operations on residues are: integer sums,
/// differences, products, opposites and powers, reduced; a quotient is the
/// product with the inverse.
pub proof fn operations_are_those_of_integers<F: PrimeField>(
    a: int,
    b: int,
    n: nat,
    inv: int,
    s: Seq<F>,
    i: int,
)
    ensures
        fadd::<F>(a, b) == (a + b) % F::modulus(),
        fsub::<F>(a, b) == (a - b) % F::modulus(),
        fmul::<F>(a, b) == (a * b) % F::modulus(),
        fneg::<F>(a) == (0 - a) % F::modulus(),
        fpow::<F>(a, n) == pow(a, n) % F::modulus(),
        is_inverse(F::modulus(), b, inv) ==> fdiv::<F>(a, b) == (a * inv) % F::modulus(),
        is_inverse(F::modulus(), b, inv) <==> 0 <= inv < F::modulus() && (b * inv) % F::modulus()
            == 1,
        residues(s).len() == s.len(),
        0 <= i < s.len() ==> residues(s)[i] == s[i].view(),
        fp_modulus()
            == 28948022309329048855892746252171976963363056481941560715954676764349967630337int,
        fq_modulus()
            == 28948022309329048855892746252171976963363056481941647379679742748393362948097int,
{
    if is_inverse(F::modulus(), b, inv) {
        lemma_inverse_is_unique::<F>(b, inv);
    }
}

} // verus!
