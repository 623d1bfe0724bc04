//! The field and curve workloads that timings are taken of.
//!
//! Each workload computes a value that is known in closed form, so a run can be
//! told from one whose work was optimized away or went wrong.

use vstd::arithmetic::div_mod::{
    lemma_mod_bound, lemma_mul_mod_noop_left, lemma_mul_mod_noop_right, lemma_small_mod,
};
use vstd::arithmetic::power2::{lemma2_to64, lemma_pow2, lemma_pow2_adds, lemma_pow2_unfold, pow2};
use vstd::prelude::*;

use crate::arkworks::{ark_fp_fft, fp_domain_generator, is_root_of_unity};
use crate::curve::{
    add_elements, ec_add, ec_msm, element, elements, limb_scalars, on_curve, point_residues,
    scalar_residues, scalars_to_limbs, Curve, Point,
};
use crate::domain::{power_of_two, FftField};
use crate::expr_eval::pow_circuit;
use crate::fft::{dft, fft_in_place, is_primitive, twiddles};
use crate::field::{
    equal, fadd, fmul, fp_modulus, fpow, from_u64, lemma_cancel_unit, one, residues, Fp, PrimeField,
};
use crate::lazy29::{
    are_limbs29, from_u64x4, is_product29, lemma_powers, lemma_value_is_natural, limb_power,
    limbs29_value, mont_mul, radix29, to_u64x4,
};
use crate::montgomery::{limbs_value, radix};
use crate::ring::{
    lemma_mul_associates, lemma_mul_commutes, lemma_mul_distributes, lemma_mul_units,
    lemma_pow_small, lemma_pow_step, lemma_results_are_canonical,
};

verus! {

/// The factor that the multiplication chains repeat.
pub const FACTOR: u64 = 0x9e37_79b9_7f4a_7c15;

/// The steps that are compared before a chain in 29-bit limbs is timed.
pub const CHECKED_STEPS: u32 = 256;

/// The number of terms of a multi-scalar sum that are compared before it is
/// timed.
pub const CHECKED_TERMS: usize = 64;

/// What a mode number asks to be timed.
#[derive(Clone, Copy, Debug, PartialEq, Eq, Structural)]
pub enum Workload {
    /// One chain of multiplications.
    Chain,
    /// One chain in 29-bit limbs, compared first.
    LazyChain,
    /// Four independent chains in 29-bit limbs.
    LazyLanes,
    /// A transform of `2^log2` items, by arkworks or by this library.
    Transform { log2: u32, by_arkworks: bool },
    /// The cost of an empty parallel region.
    ParallelRegion,
    /// The Poseidon permutation.
    Permutation,
    /// A multi-scalar sum, bucketed with projective or with affine additions.
    MultiScalarSum { affine_buckets: bool },
    /// Four independent chains of multiplications.
    Lanes,
}

/// The workload of a mode number.
pub open spec fn workload_spec(mode: int) -> Workload {
    if mode == 0 {
        Workload::Chain
    } else if mode == 6 {
        Workload::LazyChain
    } else if mode == 7 {
        Workload::LazyLanes
    } else if mode == 8 || mode == 9 {
        Workload::Transform { log2: 16, by_arkworks: mode == 8 }
    } else if mode == 11 {
        Workload::ParallelRegion
    } else if mode == 13 || mode == 14 {
        Workload::Transform { log2: 12, by_arkworks: mode == 13 }
    } else if mode == 15 {
        Workload::Permutation
    } else if mode == 16 || mode == 17 {
        Workload::MultiScalarSum { affine_buckets: mode == 17 }
    } else {
        Workload::Lanes
    }
}

/// The workload that a mode number asks for; any number without a workload of
/// its own asks for the four chains.
pub fn workload(mode: u32) -> (r: Workload)
    ensures
        r == workload_spec(mode as int),
{
    match mode {
        0 => Workload::Chain,
        6 => Workload::LazyChain,
        7 => Workload::LazyLanes,
        8 | 9 => Workload::Transform { log2: 16, by_arkworks: mode == 8 },
        11 => Workload::ParallelRegion,
        13 | 14 => Workload::Transform { log2: 12, by_arkworks: mode == 13 },
        15 => Workload::Permutation,
        16 | 17 => Workload::MultiScalarSum { affine_buckets: mode == 17 },
        _ => Workload::Lanes,
    }
}

/// `x y^n`.
pub open spec fn chained(x: int, n: nat) -> int {
    fmul::<Fp>(x, fpow::<Fp>(FACTOR as int, n))
}

proof fn lemma_factor()
    ensures
        0 < FACTOR as int + 1 < fp_modulus(),
        Fp::modulus() == fp_modulus(),
{
}

/// One more factor of a chain.
proof fn lemma_chain_step(x: int, n: nat)
    ensures
        fmul::<Fp>(chained(x, n), FACTOR as int) == chained(x, n + 1),
{
    lemma_factor();
    lemma_pow_step::<Fp>(FACTOR as int, n);
    lemma_mul_associates::<Fp>(x, fpow::<Fp>(FACTOR as int, n), FACTOR as int);
}

/// A chain of no factors is its start.
proof fn lemma_chain_start(x: int)
    requires
        0 <= x < fp_modulus(),
    ensures
        chained(x, 0) == x,
{
    lemma_pow_small::<Fp>(FACTOR as int);
    lemma_mul_units::<Fp>(x);
}

/// The factor cancels: only zero times the factor is zero.
proof fn lemma_factor_cancels(x: int)
    requires
        0 <= x < fp_modulus(),
        fmul::<Fp>(x, FACTOR as int) == 0,
    ensures
        x == 0,
{
    let p = fp_modulus();
    let y = FACTOR as int;
    let yinv: int = 0x3dba_aeed_a41b_94cc_14a5_4336_332e_ab5a_fe5e_98d9_87b8_da38_f4ff_f74e_5d92_6e0bint;
    assert(y * yinv == 0x989a_61b0_de7e_5ae6int * p + 1);
    vstd::arithmetic::div_mod::lemma_mod_multiples_vanish(0x989a_61b0_de7e_5ae6int, 1, p);
    assert(0x989a_61b0_de7e_5ae6int * p + 1 == p * 0x989a_61b0_de7e_5ae6int + 1);
    lemma_small_mod(1, p as nat);
    assert((y * yinv) % p == 1);
    assert(0 * y == 0);
    lemma_small_mod(0, p as nat);
    lemma_cancel_unit(x, 0, y, yinv, p);
    lemma_small_mod(x as nat, p as nat);
}

/// A chain that starts at a nonzero element never reaches zero.
pub proof fn chains_are_never_zero(x: int, n: nat)
    requires
        0 < x < fp_modulus(),
    ensures
        chained(x, n) != 0,
    decreases n,
{
    if n == 0 {
        lemma_chain_start(x);
    } else {
        chains_are_never_zero(x, (n - 1) as nat);
        lemma_chain_step(x, (n - 1) as nat);
        lemma_results_are_canonical::<Fp>(x, fpow::<Fp>(FACTOR as int, (n - 1) as nat), 0);
        if chained(x, n) == 0 {
            lemma_factor_cancels(chained(x, (n - 1) as nat));
        }
    }
}

/// The factor, as an element.
pub fn factor() -> (r: Fp)
    ensures
        r.view() == FACTOR,
{
    from_u64(FACTOR)
}

/// The chain from `1 + y`, of `iters` factors `y`. It is not zero.
pub fn chain(iters: u32) -> (r: Fp)
    ensures
        r.view() == chained(FACTOR as int + 1, iters as nat),
        r.view() != 0,
{
    let y = factor();
    let mut x: Fp = one::<Fp>().add(&y);
    let mut i: u32 = 0;
    proof {
        lemma_factor();
        lemma_small_mod((FACTOR as int + 1) as nat, fp_modulus() as nat);
        lemma_chain_start(FACTOR as int + 1);
        chains_are_never_zero(FACTOR as int + 1, iters as nat);
    }
    while i < iters
        invariant
            i <= iters,
            y.view() == FACTOR,
            x.view() == chained(FACTOR as int + 1, i as nat),
        decreases iters - i,
    {
        proof {
            lemma_chain_step(FACTOR as int + 1, i as nat);
        }
        x = x.mul(&y);
        i = i + 1;
    }
    x
}

proof fn lemma_lanes_add(x: int, z: int, n: nat)
    ensures
        fadd::<Fp>(chained(x, n), chained(z, n)) == chained(fadd::<Fp>(x, z), n),
{
    let q = fpow::<Fp>(FACTOR as int, n);
    lemma_mul_commutes::<Fp>(x, q);
    lemma_mul_commutes::<Fp>(z, q);
    lemma_mul_commutes::<Fp>(fadd::<Fp>(x, z), q);
    lemma_mul_distributes::<Fp>(q, x, z);
}

/// The sum of four chains, from `1 + y` to `1 + 4 y`, a quarter of `iters` long
/// each: `(4 + 10 y) y^(iters / 4)`. It is not zero.
pub fn lanes(iters: u32) -> (r: Fp)
    ensures
        r.view() == chained(4 + 10 * FACTOR, (iters / 4) as nat),
        r.view() != 0,
{
    let y = factor();
    let a0: Fp = one::<Fp>().add(&y);
    let b0 = a0.add(&y);
    let c0 = b0.add(&y);
    let d0 = c0.add(&y);
    let (mut a, mut b, mut c, mut d) = (a0, b0, c0, d0);
    let rounds: u32 = iters / 4;
    let mut i: u32 = 0;
    let ghost f = FACTOR as int;
    proof {
        let p = fp_modulus() as nat;
        lemma_small_mod((1 + f) as nat, p);
        lemma_small_mod((1 + 2 * f) as nat, p);
        lemma_small_mod((1 + 3 * f) as nat, p);
        lemma_small_mod((1 + 4 * f) as nat, p);
        lemma_small_mod((2 + 3 * f) as nat, p);
        lemma_small_mod((3 + 6 * f) as nat, p);
        lemma_small_mod((4 + 10 * f) as nat, p);
        lemma_chain_start(1 + f);
        lemma_chain_start(1 + 2 * f);
        lemma_chain_start(1 + 3 * f);
        lemma_chain_start(1 + 4 * f);
        chains_are_never_zero(4 + 10 * f, rounds as nat);
    }
    while i < rounds
        invariant
            i <= rounds,
            f == FACTOR,
            y.view() == f,
            a.view() == chained(1 + f, i as nat),
            b.view() == chained(1 + 2 * f, i as nat),
            c.view() == chained(1 + 3 * f, i as nat),
            d.view() == chained(1 + 4 * f, i as nat),
        decreases rounds - i,
    {
        proof {
            lemma_chain_step(1 + f, i as nat);
            lemma_chain_step(1 + 2 * f, i as nat);
            lemma_chain_step(1 + 3 * f, i as nat);
            lemma_chain_step(1 + 4 * f, i as nat);
        }
        a = a.mul(&y);
        b = b.mul(&y);
        c = c.mul(&y);
        d = d.mul(&y);
        i = i + 1;
    }
    proof {
        lemma_lanes_add(1 + f, 1 + 2 * f, rounds as nat);
        lemma_lanes_add(2 + 3 * f, 1 + 3 * f, rounds as nat);
        lemma_lanes_add(3 + 6 * f, 1 + 4 * f, rounds as nat);
    }
    a.add(&b).add(&c).add(&d)
}

/// `v 2^261`: what a value is represented by in 29-bit limbs.
#[verifier::opaque]
pub open spec fn entered(v: int) -> int {
    (v * radix29()) % fp_modulus()
}

proof fn lemma_limb_power_is_a_power_of_two(n: nat)
    ensures
        limb_power(n) == pow2(29 * n),
    decreases n,
{
    lemma2_to64();
    if n > 0 {
        lemma_limb_power_is_a_power_of_two((n - 1) as nat);
        lemma_pow2_adds(29, (29 * (n - 1)) as nat);
        assert(29 + 29 * (n - 1) == 29 * n);
    }
}

proof fn lemma_radix29()
    ensures
        fpow::<Fp>(2, 261) == radix29() % fp_modulus(),
        (radix29()
            * 0x2f0f_8e27_f8f1_13c6_ab86_594c_b77e_44d3_4607_bbc8_78b3_12ee_9492_779e_929d_3b4eint)
            % fp_modulus() == 1,
{
    lemma_limb_power_is_a_power_of_two(9);
    lemma_pow2(261);
    lemma_powers();
    let p = fp_modulus();
    let inv: int = 0x2f0f_8e27_f8f1_13c6_ab86_594c_b77e_44d3_4607_bbc8_78b3_12ee_9492_779e_929d_3b4eint;
    let q: int = 0x1787c713fc7889e355c32ca65bbf22699669c760bd82a13db2992d30ecffffffffint;
    assert(radix29() * inv == q * p + 1);
    assert(q * p + 1 == p * q + 1);
    vstd::arithmetic::div_mod::lemma_mod_multiples_vanish(q, 1, p);
    lemma_small_mod(1, p as nat);
}

/// Representations are reduced, and leave room for the modulus in nine limbs.
proof fn lemma_entered_bound(v: int)
    ensures
        0 <= entered(v) < fp_modulus(),
        2 * fp_modulus() <= radix29(),
        fp_modulus() < radix(),
{
    reveal(entered);
    lemma_powers();
    lemma_mod_bound(v * radix29(), fp_modulus());
}

/// A reduced product of represented values in 29-bit limbs represents the
/// product of the values.
pub proof fn lazy_products_represent_products(a: int, b: int, r: int)
    requires
        0 <= r < fp_modulus(),
        is_product29(r, entered(a), entered(b)),
    ensures
        r == entered(fmul::<Fp>(a, b)),
{
    reveal(entered);
    lemma_radix29();
    let p = fp_modulus();
    let m = radix29();
    let inv: int = 0x2f0f_8e27_f8f1_13c6_ab86_594c_b77e_44d3_4607_bbc8_78b3_12ee_9492_779e_929d_3b4eint;
    // r m = (a m) (b m) = ((a b) m) m
    lemma_mul_mod_noop_left(a * m, entered(b), p);
    lemma_mul_mod_noop_right(a * m, b * m, p);
    assert((a * m) * (b * m) == ((a * b) * m) * m) by (nonlinear_arith);
    assert((r * m) % p == (((a * b) * m) * m) % p);
    lemma_cancel_unit(r, (a * b) * m, m, inv, p);
    lemma_small_mod(r as nat, p as nat);
    lemma_mul_mod_noop_left(a * b, m, p);
}

/// A representation is the product with `2^261`.
proof fn lemma_entered_by_multiplying(v: int)
    ensures
        fmul::<Fp>(v, fpow::<Fp>(2, 261)) == entered(v),
{
    reveal(entered);
    lemma_radix29();
    lemma_mul_mod_noop_right(v, radix29(), fp_modulus());
}

/// The value's representation in 29-bit limbs.
pub fn enter(v: &Fp) -> (r: [u64; 9])
    ensures
        are_limbs29(r),
        limbs29_value(r) == entered(v.view()),
{
    let r261: Fp = pow_circuit(&from_u64(2), 261);
    proof {
        lemma_entered_by_multiplying(v.view());
    }
    from_u64x4(&v.mul(&r261).to_limbs())
}

fn same_limbs(a: &[u64; 4], b: &[u64; 4]) -> (r: bool)
    ensures
        r == (limbs_value(*a) == limbs_value(*b)),
{
    a[0] == b[0] && a[1] == b[1] && a[2] == b[2] && a[3] == b[3]
}

/// Compares the first steps of the chain in 29-bit limbs with the field: the
/// limbs reached, or the first step that differs. No step differs.
pub fn lazy_self_check() -> (r: Result<[u64; 9], u32>)
    ensures
        r matches Ok(x29) && are_limbs29(x29) && limbs29_value(x29) == entered(
            chained(FACTOR as int + 1, CHECKED_STEPS as nat),
        ),
{
    let y = factor();
    let r261: Fp = pow_circuit(&from_u64(2), 261);
    let mut x: Fp = one::<Fp>().add(&y);
    let mut x29 = enter(&x);
    let y29 = enter(&y);
    let mut step: u32 = 0;
    proof {
        lemma_small_mod((FACTOR as int + 1) as nat, fp_modulus() as nat);
        lemma_chain_start(FACTOR as int + 1);
    }
    while step < CHECKED_STEPS
        invariant
            step <= CHECKED_STEPS,
            y.view() == FACTOR,
            r261.view() == fpow::<Fp>(2, 261),
            x.view() == chained(FACTOR as int + 1, step as nat),
            are_limbs29(x29),
            are_limbs29(y29),
            limbs29_value(x29) == entered(x.view()),
            limbs29_value(y29) == entered(FACTOR as int),
        decreases CHECKED_STEPS - step,
    {
        let expected = x.mul(&y);
        let got = lazy_step(&x29, &y29, Ghost(FACTOR as int + 1), Ghost(step as nat));
        proof {
            lemma_chain_step(FACTOR as int + 1, step as nat);
            lemma_entered_bound(expected.view());
            lemma_entered_by_multiplying(expected.view());
        }
        if !same_limbs(&to_u64x4(&got), &expected.mul(&r261).to_limbs()) {
            return Err(step);
        }
        x = expected;
        x29 = got;
        step = step + 1;
    }
    Ok(x29)
}

/// The chain in 29-bit limbs, from the representation of an element.
pub fn lazy_chain(start: &[u64; 9], iters: u32) -> (r: [u64; 9])
    requires
        are_limbs29(*start),
        exists|x: int| limbs29_value(*start) == #[trigger] entered(x),
    ensures
        are_limbs29(r),
        forall|x: int|
            limbs29_value(*start) == #[trigger] entered(x) ==> limbs29_value(r) == entered(
                chained(x, iters as nat),
            ),
{
    let y29 = enter(&factor());
    let mut x29 = *start;
    let mut i: u32 = 0;
    let ghost x = choose|x: int| limbs29_value(*start) == #[trigger] entered(x);
    proof {
        lemma_entered_start(x);
    }
    while i < iters
        invariant
            i <= iters,
            are_limbs29(x29),
            are_limbs29(y29),
            limbs29_value(y29) == entered(FACTOR as int),
            limbs29_value(x29) == entered(chained(x, i as nat)),
        decreases iters - i,
    {
        x29 = lazy_step(&x29, &y29, Ghost(x), Ghost(i as nat));
        i = i + 1;
    }
    proof {
        assert forall|z: int| limbs29_value(*start) == #[trigger] entered(z) implies limbs29_value(
            x29,
        ) == entered(chained(z, iters as nat)) by {
            lemma_entered_is_injective(x, z);
            lemma_chain_of_congruent(x, z, iters as nat);
        }
    }
    x29
}

/// Elements with one representation are congruent.
proof fn lemma_entered_is_injective(x: int, z: int)
    requires
        entered(x) == entered(z),
    ensures
        x % fp_modulus() == z % fp_modulus(),
{
    reveal(entered);
    lemma_radix29();
    lemma_cancel_unit(
        x,
        z,
        radix29(),
        0x2f0f_8e27_f8f1_13c6_ab86_594c_b77e_44d3_4607_bbc8_78b3_12ee_9492_779e_929d_3b4eint,
        fp_modulus(),
    );
}

proof fn lemma_chain_of_congruent(x: int, z: int, n: nat)
    requires
        x % fp_modulus() == z % fp_modulus(),
    ensures
        chained(x, n) == chained(z, n),
{
    let q = fpow::<Fp>(FACTOR as int, n);
    lemma_mul_mod_noop_left(x, q, fp_modulus());
    lemma_mul_mod_noop_left(z, q, fp_modulus());
}

proof fn lemma_entered_start(x: int)
    ensures
        entered(chained(x, 0)) == entered(x),
{
    reveal(entered);
    lemma_pow_small::<Fp>(FACTOR as int);
    assert(x * 1 == x);
    lemma_mul_mod_noop_left(x, radix29(), fp_modulus());
}

/// Whether limbs hold zero.
pub fn lazy_is_zero(x: &[u64; 9]) -> (r: bool)
    requires
        are_limbs29(*x),
        limbs29_value(*x) < radix(),
    ensures
        r == (limbs29_value(*x) == 0),
{
    same_limbs(&to_u64x4(x), &[0, 0, 0, 0])
}

/// Four chains in 29-bit limbs, from `1 + y`, `2 y`, `y^2` and `y^2 + y`, a
/// quarter of `iters` long each.
pub fn lazy_lanes(iters: u32) -> (r: ([u64; 9], [u64; 9], [u64; 9], [u64; 9]))
    ensures
        are_limbs29(r.0) && are_limbs29(r.1) && are_limbs29(r.2) && are_limbs29(r.3),
        limbs29_value(r.0) == entered(chained(FACTOR as int + 1, (iters / 4) as nat)),
        limbs29_value(r.1) == entered(chained(2 * FACTOR, (iters / 4) as nat)),
        limbs29_value(r.2) == entered(
            chained(fmul::<Fp>(FACTOR as int, FACTOR as int), (iters / 4) as nat),
        ),
        limbs29_value(r.3) == entered(
            chained(
                fadd::<Fp>(fmul::<Fp>(FACTOR as int, FACTOR as int), FACTOR as int),
                (iters / 4) as nat,
            ),
        ),
{
    let y = factor();
    let y29 = enter(&y);
    let a0: Fp = one::<Fp>().add(&y);
    let b0 = y.add(&y);
    let c0 = y.mul(&y);
    let d0 = c0.add(&y);
    let mut a = enter(&a0);
    let mut b = enter(&b0);
    let mut c = enter(&c0);
    let mut d = enter(&d0);
    let rounds: u32 = iters / 4;
    let mut i: u32 = 0;
    proof {
        let f = FACTOR as int;
        lemma_small_mod((f + 1) as nat, fp_modulus() as nat);
        lemma_small_mod((2 * f) as nat, fp_modulus() as nat);
        Fp::lemma_canonical(c0);
        Fp::lemma_canonical(d0);
        lemma_chain_start(a0.view());
        lemma_chain_start(b0.view());
        lemma_chain_start(c0.view());
        lemma_chain_start(d0.view());
    }
    while i < rounds
        invariant
            i <= rounds,
            are_limbs29(y29),
            limbs29_value(y29) == entered(FACTOR as int),
            are_limbs29(a) && are_limbs29(b) && are_limbs29(c) && are_limbs29(d),
            limbs29_value(a) == entered(chained(a0.view(), i as nat)),
            limbs29_value(b) == entered(chained(b0.view(), i as nat)),
            limbs29_value(c) == entered(chained(c0.view(), i as nat)),
            limbs29_value(d) == entered(chained(d0.view(), i as nat)),
        decreases rounds - i,
    {
        a = lazy_step(&a, &y29, Ghost(a0.view()), Ghost(i as nat));
        b = lazy_step(&b, &y29, Ghost(b0.view()), Ghost(i as nat));
        c = lazy_step(&c, &y29, Ghost(c0.view()), Ghost(i as nat));
        d = lazy_step(&d, &y29, Ghost(d0.view()), Ghost(i as nat));
        i = i + 1;
    }
    (a, b, c, d)
}

/// One more factor of a chain in 29-bit limbs.
fn lazy_step(x29: &[u64; 9], y29: &[u64; 9], x: Ghost<int>, n: Ghost<nat>) -> (r: [u64; 9])
    requires
        are_limbs29(*x29),
        are_limbs29(*y29),
        limbs29_value(*y29) == entered(FACTOR as int),
        limbs29_value(*x29) == entered(chained(x@, n@)),
    ensures
        are_limbs29(r),
        limbs29_value(r) == entered(chained(x@, n@ + 1)),
{
    proof {
        lemma_entered_bound(chained(x@, n@));
    }
    let r = mont_mul(x29, y29);
    proof {
        lemma_value_is_natural(r);
        lazy_products_represent_products(chained(x@, n@), FACTOR as int, limbs29_value(r));
        lemma_chain_step(x@, n@);
    }
    r
}

/// The items of the squaring chain `x -> x^2 + y` from `1 + y`, from the first
/// step on.
pub open spec fn squaring_chain_spec(i: nat) -> int
    decreases i,
{
    let x = if i == 0 {
        FACTOR as int + 1
    } else {
        squaring_chain_spec((i - 1) as nat)
    };
    fadd::<Fp>(fmul::<Fp>(x, x), FACTOR as int)
}

/// The first `n` items of the squaring chain.
pub fn squaring_chain(n: usize) -> (r: Vec<Fp>)
    ensures
        r@.len() == n,
        forall|i: int| 0 <= i < n ==> (#[trigger] r@[i]).view() == squaring_chain_spec(i as nat),
{
    let y = factor();
    let mut x: Fp = one::<Fp>().add(&y);
    proof {
        lemma_small_mod((FACTOR as int + 1) as nat, fp_modulus() as nat);
    }
    let mut out: Vec<Fp> = Vec::new();
    while out.len() < n
        invariant
            out@.len() <= n,
            y.view() == FACTOR,
            x.view() == if out@.len() == 0 {
                FACTOR as int + 1
            } else {
                squaring_chain_spec((out@.len() - 1) as nat)
            },
            forall|i: int|
                0 <= i < out@.len() ==> (#[trigger] out@[i]).view() == squaring_chain_spec(
                    i as nat,
                ),
        decreases n - out@.len(),
    {
        x = x.mul(&x).add(&y);
        out.push(x);
    }
    out
}

/// The generator of a domain is a primitive root of unity.
proof fn lemma_generator_is_primitive(g: int, m: nat)
    requires
        is_root_of_unity(fp_modulus(), g, pow2(m) as int),
    ensures
        is_primitive::<Fp>(g, m),
{
    if m > 0 {
        lemma_pow2_unfold(m);
        vstd::arithmetic::power2::lemma_pow2_pos((m - 1) as nat);
    }
}

/// The index of the first difference; none when there is none.
pub fn first_difference(a: &Vec<Fp>, b: &Vec<[u64; 4]>) -> (r: Option<usize>)
    requires
        a@.len() == b@.len(),
    ensures
        r is None <==> residues(a@) == limb_scalars(b@),
        r matches Some(i) ==> i < a@.len() && a@[i as int].view() != limbs_value(b@[i as int])
            && forall|j: int| 0 <= j < i ==> (#[trigger] a@[j]).view() == limbs_value(b@[j]),
{
    let mut i: usize = 0;
    while i < a.len()
        invariant
            i <= a@.len(),
            a@.len() == b@.len(),
            forall|j: int| 0 <= j < i ==> (#[trigger] a@[j]).view() == limbs_value(b@[j]),
        decreases a.len() - i,
    {
        if !same_limbs(&a[i].to_limbs(), &b[i]) {
            proof {
                assert(residues(a@)[i as int] != limb_scalars(b@)[i as int]);
            }
            return Some(i);
        }
        i = i + 1;
    }
    assert(residues(a@) =~= limb_scalars(b@));
    None
}

/// Compares this library's transform of the first `2^log2` items of the squaring
/// chain with that of arkworks: the transform, or the first index that differs.
/// No index differs.
pub fn transform_self_check(log2: u32) -> (r: Result<Vec<Fp>, usize>)
    requires
        log2 <= 32,
        pow2(log2 as nat) <= usize::MAX,
    ensures
        r matches Ok(out) && residues(out@) == dft::<Fp>(
            Seq::new(pow2(log2 as nat), |i: int| squaring_chain_spec(i as nat)),
            fp_domain_generator(pow2(log2 as nat) as int),
        ),
{
    let n = power_of_two(log2);
    let coefficients = squaring_chain(n);
    let generator = Fp::group_generator(n);
    let tw = twiddles(&generator, n);
    let limbs = scalars_to_limbs(&coefficients);
    proof {
        assert(limbs@.len() == limb_scalars(limbs@).len());
        assert(residues(coefficients@) =~= scalar_residues(coefficients@));
        assert(residues(coefficients@) =~= Seq::new(
            pow2(log2 as nat),
            |i: int| squaring_chain_spec(i as nat),
        ));
        lemma_generator_is_primitive(generator.view(), log2 as nat);
    }
    let expected = ark_fp_fft(&limbs).unwrap();
    let mut d = coefficients;
    fft_in_place(&mut d, &tw, &generator);
    proof {
        assert(residues(d@).len() == d@.len());
        assert(limb_scalars(expected@).len() == expected@.len());
    }
    match first_difference(&d, &expected) {
        Some(i) => Err(i),
        None => Ok(d),
    }
}

/// How often a transform is repeated: at least once.
pub fn transform_repetitions(iters: u32) -> (r: u32)
    ensures
        r == if iters == 0 {
            1
        } else {
            iters as int
        },
{
    if iters == 0 {
        1
    } else {
        iters
    }
}

/// The number of terms of a timed multi-scalar sum: `2^iters`, at most `2^18`.
pub fn msm_size(iters: u32) -> (r: usize)
    ensures
        r == pow2(
            (if iters < 18 {
                iters as int
            } else {
                18
            }) as nat,
        ),
{
    proof {
        lemma2_to64();
        if iters < 18 {
            vstd::arithmetic::power2::lemma_pow2_strictly_increases(iters as nat, 18);
        }
    }
    power_of_two(
        if iters < 18 {
            iters
        } else {
            18
        },
    )
}

/// How often a multi-scalar sum of `n` terms is repeated: `2^21 / n` times, at
/// least once.
pub fn msm_repetitions(n: usize) -> (r: usize)
    requires
        n > 0,
    ensures
        r == if 0x20_0000int / (n as int) == 0 {
            1
        } else {
            0x20_0000int / (n as int)
        },
{
    let r: usize = 0x20_0000 / n;
    if r == 0 {
        1
    } else {
        r
    }
}

/// The `i`-th point of the chain `p -> 2 (p + 2 g)` from `g`.
pub open spec fn point_chain_spec<F: PrimeField>(g: (int, int), i: nat) -> Option<(int, int)>
    decreases i,
{
    if i == 0 {
        Some(g)
    } else {
        let q = ec_add::<F>(
            point_chain_spec::<F>(g, (i - 1) as nat),
            ec_add::<F>(Some(g), Some(g)),
        );
        ec_add::<F>(q, q)
    }
}

/// The first `n` points of the chain `p -> 2 (p + 2 g)` from `g`; none when one
/// of them is the identity.
pub fn point_chain<F: PrimeField>(g: &Point<F>, n: usize) -> (r: Option<Vec<Point<F>>>)
    ensures
        r is Some <==> forall|i: int|
            0 <= i < n ==> (#[trigger] point_chain_spec::<F>(g.view(), i as nat)) is Some,
        r matches Some(points) ==> points@.len() == n && forall|i: int|
            0 <= i < n ==> Some((#[trigger] points@[i]).view()) == point_chain_spec::<F>(
                g.view(),
                i as nat,
            ),
{
    let step = add_elements(&Some(*g), &Some(*g));
    let mut acc = Some(*g);
    let mut out: Vec<Point<F>> = Vec::new();
    while out.len() < n
        invariant
            out@.len() <= n,
            element(step) == ec_add::<F>(Some(g.view()), Some(g.view())),
            element(acc) == point_chain_spec::<F>(g.view(), out@.len()),
            forall|i: int|
                0 <= i < out@.len() ==> Some((#[trigger] out@[i]).view()) == point_chain_spec::<F>(
                    g.view(),
                    i as nat,
                ),
        decreases n - out@.len(),
    {
        let ghost len = out@.len();
        match acc {
            None => {
                proof {
                    let i = len as int;
                    assert(i as nat == len && 0 <= i < n);
                    assert(element(acc) is None);
                    assert(point_chain_spec::<F>(g.view(), i as nat) is None);
                }
                return None;
            },
            Some(p) => {
                out.push(p);
            },
        }
        let q = add_elements(&acc, &step);
        acc = add_elements(&q, &q);
    }
    proof {
        assert forall|i: int| 0 <= i < n implies (#[trigger] point_chain_spec::<F>(
            g.view(),
            i as nat,
        )) is Some by {
            assert(Some(out@[i].view()) == point_chain_spec::<F>(g.view(), i as nat));
        }
    }
    Some(out)
}

/// Every point as a group element.
pub open spec fn finite(points: Seq<(int, int)>) -> Seq<Option<(int, int)>> {
    Seq::new(points.len(), |i: int| Some(points[i]))
}

/// The sum of the multiples, one by one.
pub open spec fn sum_one_by_one<C: Curve>(points: Seq<(int, int)>, scalars: Seq<int>) -> Option<
    (int, int),
>
    decreases points.len(),
{
    if points.len() == 0 {
        None
    } else {
        ec_add::<C::Base>(
            sum_one_by_one::<C>(points.drop_last(), scalars.drop_last()),
            C::multiple(points.last(), scalars.last()),
        )
    }
}

/// The number of terms that are compared.
pub open spec fn checked_terms(n: int) -> int {
    if n < CHECKED_TERMS {
        n
    } else {
        CHECKED_TERMS as int
    }
}

/// Compares the multi-scalar sum of the first terms with the sum of their
/// multiples, one by one. On points of the curve they agree.
pub fn msm_self_check<C: Curve>(points: &Vec<Point<C::Base>>, scalars: &Vec<C::Scalar>) -> (r: bool)
    requires
        points@.len() == scalars@.len(),
    ensures
        r == ({
            let m = checked_terms(points@.len() as int);
            let ps = point_residues(points@).take(m);
            let ks = scalar_residues(scalars@).take(m);
            C::msm_value(finite(ps), ks) == sum_one_by_one::<C>(ps, ks)
        }),
        (forall|i: int|
            0 <= i < points@.len() ==> on_curve::<C::Base>(#[trigger] point_residues(points@)[i]))
            ==> r,
{
    let m: usize = if points.len() < CHECKED_TERMS {
        points.len()
    } else {
        CHECKED_TERMS
    };
    let ghost ps = point_residues(points@).take(m as int);
    let ghost ks = scalar_residues(scalars@).take(m as int);
    let ghost valid = forall|i: int|
        0 <= i < points@.len() ==> on_curve::<C::Base>(#[trigger] point_residues(points@)[i]);
    let mut bases: Vec<Option<Point<C::Base>>> = Vec::new();
    let mut factors: Vec<C::Scalar> = Vec::new();
    let mut want: Option<Point<C::Base>> = None;
    let mut i: usize = 0;
    while i < m
        invariant
            i <= m,
            m <= points@.len(),
            points@.len() == scalars@.len(),
            ps == point_residues(points@).take(m as int),
            ks == scalar_residues(scalars@).take(m as int),
            valid == (forall|i: int|
                0 <= i < points@.len() ==> on_curve::<C::Base>(
                    #[trigger] point_residues(points@)[i],
                )),
            elements(bases@) =~= finite(ps.take(i as int)),
            bases@.len() == i,
            factors@ == scalars@.take(i as int),
            element(want) == sum_one_by_one::<C>(ps.take(i as int), ks.take(i as int)),
            valid ==> element(want) == ec_msm::<C::Base>(
                finite(ps.take(i as int)),
                ks.take(i as int),
            ),
        decreases m - i,
    {
        let p = points[i];
        let k = scalars[i];
        let ghost seen = elements(bases@);
        bases.push(Some(p));
        factors.push(k);
        let multiple = C::scale(&p, &k);
        proof {
            let j = i as int;
            assert(elements(bases@) =~= seen.push(Some(p.view())));
            assert(finite(ps.take(j + 1)) =~= finite(ps.take(j)).push(Some(p.view())));
            assert(finite(ps.take(j + 1)).drop_last() =~= finite(ps.take(j)));
            assert(scalars@.take(j + 1) =~= scalars@.take(j).push(k));
            assert(ps.take(j + 1).drop_last() =~= ps.take(j));
            assert(ks.take(j + 1).drop_last() =~= ks.take(j));
            assert(ps[j] == point_residues(points@)[j]);
            assert(ps.take(j + 1).last() == p.view());
            assert(ks.take(j + 1).last() == k.view());
            if valid {
                assert(on_curve::<C::Base>(point_residues(points@)[j]));
            }
        }
        want = add_elements(&want, &multiple);
        i = i + 1;
    }
    let got = C::sum_of_multiples(&bases, &factors);
    proof {
        assert(ps.take(m as int) =~= ps);
        assert(ks.take(m as int) =~= ks);
        assert(scalar_residues(factors@) =~= ks);
        if valid {
            assert forall|i: int| 0 <= i < finite(ps).len() implies (#[trigger] finite(ps)[i] matches
                Some(p) ==> on_curve::<C::Base>(p)) by {
                assert(ps[i] == point_residues(points@)[i]);
            }
        }
    }
    match (&got, &want) {
        (None, None) => true,
        (Some(a), Some(b)) => equal(&a.x, &b.x) && equal(&a.y, &b.y),
        _ => false,
    }
}

/// Every mode that names a workload names its own; any other runs the lanes.
pub proof fn modes_name_their_workload(mode: int)
    ensures
        workload_spec(0) == Workload::Chain,
        workload_spec(6) == Workload::LazyChain,
        workload_spec(7) == Workload::LazyLanes,
        workload_spec(8) == (Workload::Transform { log2: 16, by_arkworks: true }),
        workload_spec(9) == (Workload::Transform { log2: 16, by_arkworks: false }),
        workload_spec(11) == Workload::ParallelRegion,
        workload_spec(13) == (Workload::Transform { log2: 12, by_arkworks: true }),
        workload_spec(14) == (Workload::Transform { log2: 12, by_arkworks: false }),
        workload_spec(15) == Workload::Permutation,
        workload_spec(16) == (Workload::MultiScalarSum { affine_buckets: false }),
        workload_spec(17) == (Workload::MultiScalarSum { affine_buckets: true }),
        workload_spec(mode) == Workload::Lanes <==> !(mode == 0 || 6 <= mode <= 9 || mode == 11
            || 13 <= mode <= 17),
{
}

} // verus!
