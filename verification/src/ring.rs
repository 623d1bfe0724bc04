//! Ring laws of residues.

use vstd::arithmetic::div_mod::{
    lemma_add_mod_noop, lemma_mod_bound, lemma_mod_twice, lemma_mul_mod_noop,
    lemma_mul_mod_noop_left, lemma_mul_mod_noop_right, lemma_small_mod, lemma_sub_mod_noop,
};
use vstd::arithmetic::power::{
    lemma_pow0, lemma_pow1, lemma_pow_adds, lemma_pow_mod_noop, lemma_pow_multiplies, pow,
};
use vstd::prelude::*;

use crate::field::{fadd, fmul, fpow, fsub, PrimeField};

verus! {

/// A sum, difference, product or power is canonical.
pub proof fn lemma_results_are_canonical<F: PrimeField>(a: int, b: int, n: nat)
    ensures
        0 <= fadd::<F>(a, b) < F::modulus(),
        0 <= fsub::<F>(a, b) < F::modulus(),
        0 <= fmul::<F>(a, b) < F::modulus(),
        0 <= fpow::<F>(a, n) < F::modulus(),
{
    F::lemma_modulus();
    lemma_mod_bound(a + b, F::modulus());
    lemma_mod_bound(a - b, F::modulus());
    lemma_mod_bound(a * b, F::modulus());
    lemma_mod_bound(pow(a, n), F::modulus());
}

/// Multiplication commutes.
pub proof fn lemma_mul_commutes<F: PrimeField>(a: int, b: int)
    ensures
        fmul::<F>(a, b) == fmul::<F>(b, a),
{
    assert(a * b == b * a) by (nonlinear_arith);
}

/// Multiplication associates.
pub proof fn lemma_mul_associates<F: PrimeField>(a: int, b: int, c: int)
    ensures
        fmul::<F>(fmul::<F>(a, b), c) == fmul::<F>(a, fmul::<F>(b, c)),
{
    F::lemma_modulus();
    let p = F::modulus();
    lemma_mul_mod_noop_left(a * b, c, p);
    lemma_mul_mod_noop_right(a, b * c, p);
    assert((a * b) * c == a * (b * c)) by (nonlinear_arith);
}

/// One is the unit, zero annihilates.
pub proof fn lemma_mul_units<F: PrimeField>(a: int)
    requires
        0 <= a < F::modulus(),
    ensures
        fmul::<F>(1, a) == a,
        fmul::<F>(a, 1) == a,
        fmul::<F>(0, a) == 0,
        fadd::<F>(0, a) == a,
        fadd::<F>(a, 0) == a,
        fsub::<F>(a, 0) == a,
{
    F::lemma_modulus();
    lemma_small_mod(a as nat, F::modulus() as nat);
    lemma_small_mod(0, F::modulus() as nat);
    assert(0 * a == 0);
}

/// Multiplication distributes over sums and differences.
pub proof fn lemma_mul_distributes<F: PrimeField>(a: int, b: int, c: int)
    ensures
        fmul::<F>(a, fadd::<F>(b, c)) == fadd::<F>(fmul::<F>(a, b), fmul::<F>(a, c)),
        fmul::<F>(a, fsub::<F>(b, c)) == fsub::<F>(fmul::<F>(a, b), fmul::<F>(a, c)),
{
    F::lemma_modulus();
    let p = F::modulus();
    lemma_mul_mod_noop_right(a, b + c, p);
    lemma_mul_mod_noop_right(a, b - c, p);
    lemma_add_mod_noop(a * b, a * c, p);
    lemma_sub_mod_noop(a * b, a * c, p);
    assert(a * (b + c) == a * b + a * c) by (nonlinear_arith);
    assert(a * (b - c) == a * b - a * c) by (nonlinear_arith);
}

/// Addition commutes and associates.
pub proof fn lemma_add_laws<F: PrimeField>(a: int, b: int, c: int)
    ensures
        fadd::<F>(a, b) == fadd::<F>(b, a),
        fadd::<F>(fadd::<F>(a, b), c) == fadd::<F>(a, fadd::<F>(b, c)),
{
    F::lemma_modulus();
    let p = F::modulus();
    lemma_add_mod_noop(a + b, c, p);
    lemma_add_mod_noop(a, b + c, p);
    lemma_add_mod_noop((a + b) % p, c, p);
    lemma_add_mod_noop(a, (b + c) % p, p);
    lemma_mod_twice(a + b, p);
    lemma_mod_twice(b + c, p);
}

/// The exponents of a product of powers add.
pub proof fn lemma_pow_sum<F: PrimeField>(a: int, m: nat, n: nat)
    ensures
        fpow::<F>(a, m + n) == fmul::<F>(fpow::<F>(a, m), fpow::<F>(a, n)),
{
    F::lemma_modulus();
    lemma_pow_adds(a, m, n);
    lemma_mul_mod_noop(pow(a, m), pow(a, n), F::modulus());
}

/// The zeroth power is one, the first the base itself.
pub proof fn lemma_pow_small<F: PrimeField>(a: int)
    ensures
        fpow::<F>(a, 0) == 1,
        0 <= a < F::modulus() ==> fpow::<F>(a, 1) == a,
{
    F::lemma_modulus();
    lemma_pow0(a);
    lemma_pow1(a);
    lemma_small_mod(1, F::modulus() as nat);
    if 0 <= a < F::modulus() {
        lemma_small_mod(a as nat, F::modulus() as nat);
    }
}

/// A power of a power, the inner one reduced.
pub proof fn lemma_pow_of_pow<F: PrimeField>(a: int, m: nat, n: nat)
    ensures
        fpow::<F>(fpow::<F>(a, m), n) == fpow::<F>(a, m * n),
{
    F::lemma_modulus();
    lemma_pow_mod_noop(pow(a, m), n, F::modulus());
    lemma_pow_multiplies(a, m, n);
}

/// One more factor.
pub proof fn lemma_pow_step<F: PrimeField>(a: int, n: nat)
    requires
        0 <= a < F::modulus(),
    ensures
        fpow::<F>(a, n + 1) == fmul::<F>(fpow::<F>(a, n), a),
        fpow::<F>(a, n + 1) == fmul::<F>(a, fpow::<F>(a, n)),
{
    lemma_pow_sum::<F>(a, n, 1);
    lemma_pow_small::<F>(a);
    lemma_mul_commutes::<F>(fpow::<F>(a, n), a);
}

/// The square is the second power.
pub proof fn lemma_pow_two<F: PrimeField>(a: int)
    requires
        0 <= a < F::modulus(),
    ensures
        fpow::<F>(a, 2) == fmul::<F>(a, a),
{
    lemma_pow_sum::<F>(a, 1, 1);
    lemma_pow_small::<F>(a);
}

/// One step of square-and-multiply leaves `acc * sq^e` unchanged.
pub proof fn lemma_square_and_multiply<F: PrimeField>(acc: int, sq: int, e: nat)
    requires
        0 <= acc < F::modulus(),
        0 <= sq < F::modulus(),
    ensures
        e % 2 == 1 ==> fmul::<F>(
            fmul::<F>(acc, sq),
            fpow::<F>(fmul::<F>(sq, sq), e / 2),
        ) == fmul::<F>(acc, fpow::<F>(sq, e)),
        e % 2 == 0 ==> fmul::<F>(acc, fpow::<F>(fmul::<F>(sq, sq), e / 2)) == fmul::<F>(
            acc,
            fpow::<F>(sq, e),
        ),
{
    let h = e / 2;
    lemma_pow_two::<F>(sq);
    lemma_pow_of_pow::<F>(sq, 2, h);
    if e % 2 == 1 {
        lemma_pow_sum::<F>(sq, 1, 2 * h);
        lemma_pow_small::<F>(sq);
        lemma_mul_associates::<F>(acc, sq, fpow::<F>(sq, 2 * h));
    }
}

/// If some positive power is one, no power is zero.
pub proof fn lemma_pow_nonzero<F: PrimeField>(a: int, size: nat, n: nat)
    requires
        size > 0,
        fpow::<F>(a, size) == 1,
    ensures
        fpow::<F>(a, n) != 0,
{
    F::lemma_modulus();
    if fpow::<F>(a, n) == 0 {
        // 1 = (a^size)^n = (a^n)^size = 0^size
        lemma_pow_of_pow::<F>(a, size, n);
        lemma_pow_of_pow::<F>(a, n, size);
        assert(size * n == n * size) by (nonlinear_arith);
        vstd::arithmetic::power::lemma0_pow(size);
        vstd::arithmetic::power::lemma1_pow(n);
        lemma_small_mod(0, F::modulus() as nat);
        lemma_small_mod(1, F::modulus() as nat);
    }
}

/// An operand may be reduced first: sums, differences and products of residues
/// are those of any integers with these residues.
pub proof fn lemma_operands_may_be_reduced<F: PrimeField>(x: int, y: int)
    ensures
        fadd::<F>(x % F::modulus(), y) == (x + y) % F::modulus(),
        fadd::<F>(x, y % F::modulus()) == (x + y) % F::modulus(),
        fadd::<F>(x % F::modulus(), y % F::modulus()) == (x + y) % F::modulus(),
        fsub::<F>(x % F::modulus(), y) == (x - y) % F::modulus(),
        fsub::<F>(x, y % F::modulus()) == (x - y) % F::modulus(),
        fsub::<F>(x % F::modulus(), y % F::modulus()) == (x - y) % F::modulus(),
        fmul::<F>(x % F::modulus(), y) == (x * y) % F::modulus(),
        fmul::<F>(x, y % F::modulus()) == (x * y) % F::modulus(),
        fmul::<F>(x % F::modulus(), y % F::modulus()) == (x * y) % F::modulus(),
{
    F::lemma_modulus();
    let m = F::modulus();
    lemma_add_mod_noop(x, y, m);
    lemma_add_mod_noop(x % m, y, m);
    lemma_add_mod_noop(x, y % m, m);
    lemma_sub_mod_noop(x, y, m);
    lemma_sub_mod_noop(x % m, y, m);
    lemma_sub_mod_noop(x, y % m, m);
    lemma_mod_twice(x, m);
    lemma_mod_twice(y, m);
    lemma_mul_mod_noop(x, y, m);
    lemma_mul_mod_noop_left(x, y, m);
    lemma_mul_mod_noop_right(x, y, m);
}

/// A difference and what was taken away make up the whole, and a sum less one
/// of its parts is the other.
pub proof fn lemma_differences_make_up<F: PrimeField>(a: int, b: int)
    requires
        0 <= a < F::modulus(),
    ensures
        fadd::<F>(fsub::<F>(a, b), b) == a,
        fsub::<F>(fadd::<F>(a, b), b) == a,
{
    lemma_operands_may_be_reduced::<F>(a - b, b);
    lemma_operands_may_be_reduced::<F>(a + b, b);
    lemma_small_mod(a as nat, F::modulus() as nat);
}

} // verus!
