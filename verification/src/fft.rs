//! The radix-2 fast Fourier transform in place, by decimation in time.

use vstd::arithmetic::power2::{
    lemma2_to64, lemma_pow2_adds, lemma_pow2_pos, lemma_pow2_strictly_increases, lemma_pow2_unfold,
    pow2,
};
use vstd::prelude::*;

use crate::domain::floor_log2;
use crate::expr_eval::pow_circuit;
use crate::field::{fadd, fmul, fpow, fsub, one, residues, PrimeField};
use crate::ring::{
    lemma_add_laws, lemma_mul_associates, lemma_mul_commutes, lemma_mul_distributes,
    lemma_mul_units, lemma_pow_of_pow, lemma_pow_small, lemma_pow_step, lemma_pow_sum,
    lemma_pow_two, lemma_results_are_canonical,
};

verus! {

/// `sum_{i < n} a_i w^(i k)`.
pub open spec fn dft_sum<F: PrimeField>(a: Seq<int>, w: int, k: nat, n: nat) -> int
    decreases n,
{
    if n == 0 {
        0
    } else {
        fadd::<F>(
            dft_sum::<F>(a, w, k, (n - 1) as nat),
            fmul::<F>(a[n - 1], fpow::<F>(w, ((n - 1) * k) as nat)),
        )
    }
}

/// The discrete Fourier transform: the polynomial with coefficients `a` at the
/// powers of `w`.
pub open spec fn dft<F: PrimeField>(a: Seq<int>, w: int) -> Seq<int> {
    Seq::new(a.len(), |k: int| dft_sum::<F>(a, w, k as nat, a.len()))
}

/// Every second item, from the first or from the second on.
pub open spec fn every_second(a: Seq<int>, first: int) -> Seq<int> {
    Seq::new(a.len() / 2, |i: int| a[2 * i + first])
}

/// The transforms of the two halves joined: `e + w^k o`, then `e - w^k o`.
pub open spec fn butterfly<F: PrimeField>(e: Seq<int>, o: Seq<int>, w: int) -> Seq<int> {
    Seq::new(
        2 * e.len(),
        |k: int|
            if k < e.len() {
                fadd::<F>(e[k], fmul::<F>(o[k], fpow::<F>(w, k as nat)))
            } else {
                fsub::<F>(
                    e[k - e.len()],
                    fmul::<F>(o[k - e.len()], fpow::<F>(w, (k - e.len()) as nat)),
                )
            },
    )
}

/// The transform by halving.
pub open spec fn fft_value<F: PrimeField>(a: Seq<int>, w: int) -> Seq<int>
    decreases a.len(),
{
    if a.len() <= 1 {
        a
    } else {
        butterfly::<F>(
            fft_value::<F>(every_second(a, 0), fmul::<F>(w, w)),
            fft_value::<F>(every_second(a, 1), fmul::<F>(w, w)),
            w,
        )
    }
}

/// `w` is a primitive root of unity of order `2^m`.
pub open spec fn is_primitive<F: PrimeField>(w: int, m: nat) -> bool {
    &&& 0 <= w < F::modulus()
    &&& fpow::<F>(w, pow2(m)) == 1
    &&& m > 0 ==> fpow::<F>(w, pow2((m - 1) as nat)) == F::modulus() - 1
}

/// Every item is reduced.
pub open spec fn all_reduced<F: PrimeField>(a: Seq<int>) -> bool {
    forall|i: int| 0 <= i < a.len() ==> 0 <= #[trigger] a[i] < F::modulus()
}

proof fn lemma_dft_sum_reduced<F: PrimeField>(a: Seq<int>, w: int, k: nat, n: nat)
    ensures
        0 <= dft_sum::<F>(a, w, k, n) < F::modulus(),
{
    F::lemma_modulus();
    if n > 0 {
        lemma_results_are_canonical::<F>(
            dft_sum::<F>(a, w, k, (n - 1) as nat),
            fmul::<F>(a[n - 1], fpow::<F>(w, ((n - 1) * k) as nat)),
            0,
        );
    }
}

/// The square of a primitive root has half the order.
proof fn lemma_square_is_primitive<F: PrimeField>(w: int, m: nat)
    requires
        m > 0,
        is_primitive::<F>(w, m),
    ensures
        is_primitive::<F>(fmul::<F>(w, w), (m - 1) as nat),
{
    F::lemma_modulus();
    lemma_results_are_canonical::<F>(w, w, 0);
    lemma_pow_two::<F>(w);
    lemma_pow2_unfold(m);
    lemma_pow_of_pow::<F>(w, 2, pow2((m - 1) as nat));
    if m > 1 {
        lemma_pow2_unfold((m - 1) as nat);
        lemma_pow_of_pow::<F>(w, 2, pow2((m - 2) as nat));
    }
}

/// A sum over twice as many items, split into even and odd ones.
proof fn lemma_split<F: PrimeField>(a: Seq<int>, w: int, k: nat, h: nat)
    requires
        0 <= w < F::modulus(),
        2 * h <= a.len(),
    ensures
        dft_sum::<F>(a, w, k, 2 * h) == fadd::<F>(
            dft_sum::<F>(every_second(a, 0), fmul::<F>(w, w), k, h),
            fmul::<F>(
                fpow::<F>(w, k),
                dft_sum::<F>(every_second(a, 1), fmul::<F>(w, w), k, h),
            ),
        ),
    decreases h,
{
    F::lemma_modulus();
    let e = every_second(a, 0);
    let o = every_second(a, 1);
    let w2 = fmul::<F>(w, w);
    let wk = fpow::<F>(w, k);
    if h == 0 {
        assert(wk * 0 == 0);
        vstd::arithmetic::div_mod::lemma_small_mod(0, F::modulus() as nat);
    } else {
        let g = (h - 1) as nat;
        lemma_split::<F>(a, w, k, g);
        let se = dft_sum::<F>(e, w2, k, g);
        let so = dft_sum::<F>(o, w2, k, g);
        let u = fpow::<F>(w2, g * k);
        let x = fmul::<F>(a[g + g + 0int], u);
        let z = fmul::<F>(a[g + g + 1int], u);
        assert(e[g as int] == a[g + g + 0int]);
        assert(o[g as int] == a[g + g + 1int]);
        // w^(2 g k) = w2^(g k)
        lemma_pow_two::<F>(w);
        lemma_pow_of_pow::<F>(w, 2, g * k);
        assert(2 * (g * k) == (2 * g) * k) by (nonlinear_arith);
        // w^((2 g + 1) k) = w^k w2^(g k)
        lemma_pow_sum::<F>(w, k, (2 * g) * k);
        assert(k + (2 * g) * k == (2 * g + 1) * k) by (nonlinear_arith);
        // the two new terms
        assert(dft_sum::<F>(a, w, k, (2 * g + 1) as nat) == fadd::<F>(
            dft_sum::<F>(a, w, k, 2 * g),
            x,
        ));
        lemma_mul_associates::<F>(a[g + g + 1int], wk, u);
        lemma_mul_commutes::<F>(a[g + g + 1int], wk);
        lemma_mul_associates::<F>(wk, a[g + g + 1int], u);
        let y = fmul::<F>(wk, z);
        assert((2 * g + 1) as nat == (2 * h - 1) as nat);
        assert(dft_sum::<F>(a, w, k, 2 * h) == fadd::<F>(
            fadd::<F>(dft_sum::<F>(a, w, k, 2 * g), x),
            y,
        ));
        // (se + wk so) + x + y = (se + x) + (wk so + y)
        let mid = fmul::<F>(wk, so);
        lemma_mul_distributes::<F>(wk, so, z);
        lemma_add_laws::<F>(se, mid, x);
        lemma_add_laws::<F>(mid, x, y);
        lemma_add_laws::<F>(se, x, mid);
        lemma_add_laws::<F>(fadd::<F>(se, x), mid, y);
        lemma_add_laws::<F>(se, fadd::<F>(mid, x), y);
        lemma_add_laws::<F>(x, mid, y);
    }
}

/// The sum only depends on the index modulo the order.
proof fn lemma_periodic<F: PrimeField>(a: Seq<int>, w: int, k: nat, h: nat, n: nat)
    requires
        fpow::<F>(w, h) == 1,
    ensures
        dft_sum::<F>(a, w, k + h, n) == dft_sum::<F>(a, w, k, n),
    decreases n,
{
    F::lemma_modulus();
    if n > 0 {
        let g = (n - 1) as nat;
        lemma_periodic::<F>(a, w, k, h, g);
        // w^(g (k + h)) = w^(g k) (w^h)^g = w^(g k)
        assert(g * (k + h) == g * k + h * g) by (nonlinear_arith);
        lemma_pow_sum::<F>(w, g * k, h * g);
        lemma_pow_of_pow::<F>(w, h, g);
        lemma_power_of_one::<F>(g);
        lemma_results_are_canonical::<F>(w, w, g * k);
        lemma_mul_units::<F>(fpow::<F>(w, g * k));
    }
}

proof fn lemma_power_of_one<F: PrimeField>(n: nat)
    ensures
        fpow::<F>(1, n) == 1,
    decreases n,
{
    F::lemma_modulus();
    if n == 0 {
        lemma_pow_small::<F>(1);
    } else {
        lemma_power_of_one::<F>((n - 1) as nat);
        lemma_pow_step::<F>(1, (n - 1) as nat);
        lemma_mul_units::<F>(1);
    }
}

/// The transform by halving is the discrete Fourier transform.
pub proof fn halving_gives_the_dft<F: PrimeField>(a: Seq<int>, w: int, m: nat)
    requires
        a.len() == pow2(m),
        all_reduced::<F>(a),
        is_primitive::<F>(w, m),
    ensures
        fft_value::<F>(a, w) == dft::<F>(a, w),
    decreases m,
{
    F::lemma_modulus();
    lemma2_to64();
    let p = F::modulus();
    if m == 0 {
        lemma_pow_small::<F>(w);
        assert(dft_sum::<F>(a, w, 0, 0) == 0);
        assert(dft_sum::<F>(a, w, 0, 1) == fadd::<F>(0, fmul::<F>(a[0], fpow::<F>(w, 0))));
        lemma_mul_units::<F>(a[0]);
        assert(fft_value::<F>(a, w) =~= dft::<F>(a, w));
    } else {
        lemma_pow2_unfold(m);
        let h = pow2((m - 1) as nat);
        let e = every_second(a, 0);
        let o = every_second(a, 1);
        let w2 = fmul::<F>(w, w);
        lemma_square_is_primitive::<F>(w, m);
        assert forall|i: int| 0 <= i < e.len() implies 0 <= #[trigger] e[i] < p by {
            assert(e[i] == a[2 * i]);
        }
        assert forall|i: int| 0 <= i < o.len() implies 0 <= #[trigger] o[i] < p by {
            assert(o[i] == a[2 * i + 1]);
        }
        halving_gives_the_dft::<F>(e, w2, (m - 1) as nat);
        halving_gives_the_dft::<F>(o, w2, (m - 1) as nat);
        let whole = fft_value::<F>(a, w);
        assert(whole.len() == a.len());
        assert forall|k: int| 0 <= k < a.len() implies #[trigger] whole[k] == dft_sum::<F>(
            a,
            w,
            k as nat,
            a.len(),
        ) by {
            lemma_split::<F>(a, w, k as nat, h);
            if k < h {
                lemma_mul_commutes::<F>(
                    fpow::<F>(w, k as nat),
                    dft_sum::<F>(o, w2, k as nat, h),
                );
            } else {
                let j = (k - h) as nat;
                lemma_periodic::<F>(e, w2, j, h, h);
                lemma_periodic::<F>(o, w2, j, h, h);
                let se = dft_sum::<F>(e, w2, j, h);
                let so = dft_sum::<F>(o, w2, j, h);
                let wj = fpow::<F>(w, j);
                lemma_dft_sum_reduced::<F>(e, w2, j, h);
                lemma_dft_sum_reduced::<F>(o, w2, j, h);
                lemma_results_are_canonical::<F>(w, w, j);
                lemma_pow_sum::<F>(w, j, h);
                assert(fpow::<F>(w, k as nat) == fmul::<F>(wj, p - 1));
                lemma_times_minus_one::<F>(se, so, wj);
            }
        }
        assert(whole =~= dft::<F>(a, w));
    }
}

/// `s + (wj (-1)) t = s - t wj`.
proof fn lemma_times_minus_one<F: PrimeField>(s: int, t: int, wj: int)
    ensures
        fadd::<F>(s, fmul::<F>(fmul::<F>(wj, F::modulus() - 1), t)) == fsub::<F>(
            s,
            fmul::<F>(t, wj),
        ),
{
    F::lemma_modulus();
    let p = F::modulus();
    vstd::arithmetic::div_mod::lemma_mul_mod_noop_left(wj * (p - 1), t, p);
    assert(wj * (p - 1) * t == p * (wj * t) + -(t * wj)) by (nonlinear_arith);
    vstd::arithmetic::div_mod::lemma_mod_multiples_vanish(wj * t, -(t * wj), p);
    vstd::arithmetic::div_mod::lemma_add_mod_noop(s, -(t * wj), p);
    vstd::arithmetic::div_mod::lemma_sub_mod_noop(s, t * wj, p);
    vstd::arithmetic::div_mod::lemma_add_mod_noop(s, (-(t * wj)) % p, p);
    vstd::arithmetic::div_mod::lemma_sub_mod_noop(s, (t * wj) % p, p);
    vstd::arithmetic::div_mod::lemma_mod_twice(-(t * wj), p);
    vstd::arithmetic::div_mod::lemma_mod_twice(t * wj, p);
}

/// The reversal of the low bits of a number.
pub open spec fn reversed(bits: nat, i: int) -> int
    decreases bits,
{
    if bits == 0 {
        0
    } else {
        reversed((bits - 1) as nat, i / 2) + (i % 2) * pow2((bits - 1) as nat)
    }
}

proof fn lemma_reversed_bound(bits: nat, i: int)
    requires
        0 <= i,
    ensures
        0 <= reversed(bits, i) < pow2(bits),
    decreases bits,
{
    lemma_pow2_pos(bits);
    if bits > 0 {
        lemma_reversed_bound((bits - 1) as nat, i / 2);
        lemma_pow2_unfold(bits);
        let h = pow2((bits - 1) as nat) as int;
        assert(0 <= (i % 2) * h <= h) by (nonlinear_arith)
            requires
                0 <= i % 2 <= 1,
                h >= 0,
        ;
    }
}

/// Reversal from the top: the highest bit becomes the lowest.
proof fn lemma_reversed_top(bits: nat, i: int, top: int)
    requires
        0 <= i < pow2(bits),
        0 <= top <= 1,
    ensures
        reversed(bits + 1, i + top * pow2(bits)) == 2 * reversed(bits, i) + top,
    decreases bits,
{
    lemma2_to64();
    if bits == 0 {
        assert(top * 1 == top);
        assert(top % 2 == top);
        assert(reversed(0, top / 2) == 0);
        assert(reversed(1, top) == reversed(0, top / 2) + (top % 2) * pow2(0));
        assert(reversed(0, i) == 0);
    } else {
        let b = (bits - 1) as nat;
        let h = pow2(b) as int;
        lemma_pow2_unfold(bits);
        assert(pow2(bits) == 2 * h);
        let x = i + top * pow2(bits);
        assert(top * (2 * h) == 2 * (top * h)) by (nonlinear_arith);
        assert(x / 2 == i / 2 + top * h);
        assert(x % 2 == i % 2);
        lemma_reversed_top(b, i / 2, top);
        assert(reversed(bits + 1, x) == reversed(bits, x / 2) + (x % 2) * pow2(bits));
        assert((i % 2) * (2 * h) == 2 * ((i % 2) * h)) by (nonlinear_arith);
    }
}

/// Reversal is its own inverse.
pub proof fn reversal_is_an_involution(bits: nat, i: int)
    requires
        0 <= i < pow2(bits),
    ensures
        reversed(bits, reversed(bits, i)) == i,
        0 <= reversed(bits, i) < pow2(bits),
    decreases bits,
{
    lemma_reversed_bound(bits, i);
    lemma2_to64();
    if bits > 0 {
        let b = (bits - 1) as nat;
        lemma_pow2_unfold(bits);
        reversal_is_an_involution(b, i / 2);
        lemma_reversed_top(b, reversed(b, i / 2), i % 2);
    }
}

fn reverse_index(bits: u32, i: usize) -> (r: usize)
    requires
        i < pow2(bits as nat),
        pow2(bits as nat) <= usize::MAX,
    ensures
        r == reversed(bits as nat, i as int),
{
    let mut r: usize = 0;
    let mut x: usize = i;
    let mut left: u32 = bits;
    proof {
        assert(0 * pow2(bits as nat) == 0);
        lemma_reversed_bound(bits as nat, i as int);
    }
    while left > 0
        invariant
            left <= bits,
            pow2(bits as nat) <= usize::MAX,
            reversed(bits as nat, i as int) == r * pow2(left as nat) + reversed(
                left as nat,
                x as int,
            ),
            reversed(bits as nat, i as int) < pow2(bits as nat),
        decreases left,
    {
        proof {
            let h = pow2((left - 1) as nat) as int;
            lemma_pow2_unfold(left as nat);
            lemma_pow2_pos((left - 1) as nat);
            lemma_reversed_bound((left - 1) as nat, x as int / 2);
            let bit = x as int % 2;
            assert(r * (2 * h) + bit * h == (2 * r + bit) * h) by (nonlinear_arith);
            let all = reversed(bits as nat, i as int);
            assert(2 * r + bit <= all) by (nonlinear_arith)
                requires
                    (2 * r + bit) * h <= all,
                    h >= 1,
                    r >= 0,
                    bit >= 0,
            ;
        }
        r = 2 * r + x % 2;
        x = x / 2;
        left = left - 1;
    }
    proof {
        lemma2_to64();
        assert(r * 1 == r);
    }
    r
}

/// Permutes a list of `2^bits` items by the reversal of the bits of the index.
pub fn bit_reverse<T: Copy>(a: &mut Vec<T>, bits: u32)
    requires
        old(a)@.len() == pow2(bits as nat),
    ensures
        final(a)@.len() == old(a)@.len(),
        forall|i: int|
            0 <= i < old(a)@.len() ==> #[trigger] final(a)@[i] == old(a)@[reversed(
                bits as nat,
                i,
            )],
{
    let ghost before = a@;
    let n = a.len();
    let mut i: usize = 0;
    proof {
        assert forall|k: int| 0 <= k < n implies reversed(bits as nat, k) >= 0 by {
            lemma_reversed_bound(bits as nat, k);
        }
    }
    while i < n
        invariant
            i <= n,
            n == a@.len(),
            before.len() == n,
            n == pow2(bits as nat),
            forall|k: int|
                0 <= k < n ==> #[trigger] a@[k] == (if k < i || reversed(bits as nat, k) < i {
                    before[reversed(bits as nat, k)]
                } else {
                    before[k]
                }),
        decreases n - i,
    {
        let j = reverse_index(bits, i);
        proof {
            reversal_is_an_involution(bits as nat, i as int);
        }
        if j > i {
            let x = a[i];
            let y = a[j];
            a.set(i, y);
            a.set(j, x);
        }
        proof {
            assert forall|k: int| 0 <= k < n implies #[trigger] a@[k] == (if k < i + 1 || reversed(
                bits as nat,
                k,
            ) < i + 1 {
                before[reversed(bits as nat, k)]
            } else {
                before[k]
            }) by {
                reversal_is_an_involution(bits as nat, k);
            }
        }
        i = i + 1;
    }
}

/// The twiddle factors: for each stage `s`, the powers of
/// `omega^(2^(m - 1 - s))`, `2^s` of them.
pub open spec fn are_twiddles<F: PrimeField>(tw: Seq<Vec<F>>, omega: int, m: nat) -> bool {
    &&& tw.len() == m
    &&& forall|s: int|
        0 <= s < m ==> (#[trigger] tw[s])@.len() == pow2(s as nat) && are_powers(
            tw[s]@,
            stage_root::<F>(omega, m, s as nat),
        )
}

/// The root of a stage.
pub open spec fn stage_root<F: PrimeField>(omega: int, m: nat, s: nat) -> int {
    fpow::<F>(omega, pow2((m - 1 - s) as nat))
}

/// The powers of `w`, from the zeroth.
pub open spec fn are_powers<F: PrimeField>(tw: Seq<F>, w: int) -> bool {
    forall|j: int| 0 <= j < tw.len() ==> (#[trigger] tw[j]).view() == fpow::<F>(w, j as nat)
}

/// The twiddle factors of a transform of `n = 2^m` items.
pub fn twiddles<F: PrimeField>(omega: &F, n: usize) -> (tw: Vec<Vec<F>>)
    requires
        exists|m: nat| n == #[trigger] pow2(m),
    ensures
        forall|m: nat| n == #[trigger] pow2(m) ==> are_twiddles(tw@, omega.view(), m),
{
    let ghost m = choose|m: nat| n == #[trigger] pow2(m);
    proof {
        lemma_pow2_pos(m);
    }
    let stages: u32 = floor_log2(n as u64);
    proof {
        lemma_log_is_exact(stages as nat, m, n as int);
    }
    let mut out: Vec<Vec<F>> = Vec::new();
    let mut s: u32 = 0;
    let mut count: usize = 1;
    let mut power: usize = n / 2;
    proof {
        lemma2_to64();
        if m > 0 {
            lemma_pow2_unfold(m);
        }
    }
    while s < stages
        invariant
            s <= stages,
            stages == m,
            n == pow2(m),
            count == pow2(s as nat),
            s < stages ==> power == pow2((m - 1 - s) as nat),
            out@.len() == s,
            forall|k: int|
                0 <= k < s ==> (#[trigger] out@[k])@.len() == pow2(k as nat) && are_powers(
                    out@[k]@,
                    stage_root::<F>(omega.view(), m, k as nat),
                ),
        decreases stages - s,
    {
        let w = pow_circuit(omega, power as u64);
        let mut acc: F = one();
        let mut tws: Vec<F> = Vec::new();
        proof {
            F::lemma_canonical(w);
            lemma_pow_small::<F>(w.view());
        }
        while tws.len() < count
            invariant
                tws@.len() <= count,
                0 <= w.view() < F::modulus(),
                acc.view() == fpow::<F>(w.view(), tws@.len()),
                are_powers(tws@, w.view()),
            decreases count - tws.len(),
        {
            tws.push(acc);
            proof {
                lemma_pow_step::<F>(w.view(), (tws@.len() - 1) as nat);
            }
            acc = acc.mul(&w);
        }
        out.push(tws);
        proof {
            lemma_pow2_unfold((s + 1) as nat);
            if s + 1 < stages {
                lemma_pow2_unfold((m - 1 - s) as nat);
                lemma_pow2_strictly_increases((s + 1) as nat, m);
            }
        }
        if s + 1 < stages {
            count = count * 2;
            power = power / 2;
        } else {
            proof {
                // the last count is not used
                assert(pow2((s + 1) as nat) == n);
            }
            count = n;
        }
        s = s + 1;
    }
    proof {
        assert forall|k: nat| n == #[trigger] pow2(k) implies are_twiddles(
            out@,
            omega.view(),
            k,
        ) by {
            lemma_log_is_exact(m, k, n as int);
        }
    }
    out
}

/// The logarithm of a power of two.
proof fn lemma_log_is_exact(r: nat, m: nat, n: int)
    requires
        n == pow2(m),
        pow2(r) <= n < pow2(r + 1),
    ensures
        r == m,
{
    if r < m {
        if r + 1 < m {
            lemma_pow2_strictly_increases(r + 1, m);
        }
    } else if m < r {
        lemma_pow2_strictly_increases(m, r);
    }
}

/// Joins two neighbouring blocks of `half` items each.
fn join_blocks<F: PrimeField>(
    a: &mut Vec<F>,
    start: usize,
    half: usize,
    tw: &Vec<F>,
    w: Ghost<int>,
)
    requires
        start + 2 * half <= old(a)@.len(),
        tw@.len() == half,
        are_powers(tw@, w@),
    ensures
        final(a)@.len() == old(a)@.len(),
        forall|i: int|
            0 <= i < old(a)@.len() && !(start <= i < start + 2 * half) ==> #[trigger] final(a)@[i]
                == old(a)@[i],
        residues(final(a)@).subrange(start as int, start + 2 * half) == butterfly::<F>(
            residues(old(a)@).subrange(start as int, start + half),
            residues(old(a)@).subrange(start + half, start + 2 * half),
            w@,
        ),
{
    let ghost before = a@;
    let ghost e = residues(a@).subrange(start as int, start + half);
    let ghost o = residues(a@).subrange(start + half, start + 2 * half);
    let len = a.len();
    let mut j: usize = 0;
    while j < half
        invariant
            j <= half,
            len == a@.len(),
            before.len() == len,
            start + 2 * half <= len,
            tw@.len() == half,
            are_powers(tw@, w@),
            e == residues(before).subrange(start as int, start + half),
            o == residues(before).subrange(start + half, start + 2 * half),
            forall|i: int|
                0 <= i < len && !(start <= i < start + j) && !(start + half <= i < start + half + j)
                    ==> #[trigger] a@[i] == before[i],
            forall|k: int|
                0 <= k < j ==> (#[trigger] a@[start + k]).view() == fadd::<F>(
                    e[k],
                    fmul::<F>(o[k], fpow::<F>(w@, k as nat)),
                ),
            forall|k: int|
                0 <= k < j ==> (#[trigger] a@[start + half + k]).view() == fsub::<F>(
                    e[k],
                    fmul::<F>(o[k], fpow::<F>(w@, k as nat)),
                ),
        decreases half - j,
    {
        let t = a[start + half + j].mul(&tw[j]);
        let u = a[start + j];
        let sum = u.add(&t);
        let difference = u.sub(&t);
        a.set(start + j, sum);
        a.set(start + half + j, difference);
        j = j + 1;
    }
    proof {
        let joined = butterfly::<F>(e, o, w@);
        let block = residues(a@).subrange(start as int, start + 2 * half);
        assert forall|k: int| 0 <= k < 2 * half implies #[trigger] block[k] == joined[k] by {
            if k < half {
                assert(block[k] == a@[start + k].view());
            } else {
                let h = k - half;
                assert(block[k] == a@[start + half + h].view());
            }
        }
        assert(block =~= joined);
    }
}

/// Block `b` of `len` items.
pub open spec fn block(a: Seq<int>, len: int, b: int) -> Seq<int> {
    a.subrange(b * len, b * len + len)
}

proof fn lemma_block_bounds(b: int, len: int, count: int)
    requires
        0 <= b < count,
        len >= 0,
    ensures
        0 <= b * len,
        b * len + len <= count * len,
{
    assert(0 <= b * len && b * len + len <= count * len) by (nonlinear_arith)
        requires
            0 <= b < count,
            len >= 0,
    ;
}

/// One stage: joins every two neighbouring blocks of `half` items.
fn stage<F: PrimeField>(a: &mut Vec<F>, half: usize, count: usize, tw: &Vec<F>, w: Ghost<int>)
    requires
        old(a)@.len() == count * (2 * half),
        half > 0,
        tw@.len() == half,
        are_powers(tw@, w@),
    ensures
        final(a)@.len() == old(a)@.len(),
        forall|b: int|
            0 <= b < count ==> #[trigger] block(residues(final(a)@), 2 * half as int, b)
                == butterfly::<F>(
                block(residues(old(a)@), half as int, 2 * b),
                block(residues(old(a)@), half as int, 2 * b + 1),
                w@,
            ),
{
    let ghost before = a@;
    let ghost len = 2 * half as int;
    let n = a.len();
    let mut b: usize = 0;
    let mut start: usize = 0;
    assert(0 * len == 0);
    while b < count
        invariant
            b <= count,
            n == a@.len(),
            n == count * len,
            before.len() == n,
            len == 2 * half,
            half > 0,
            start == b * len,
            tw@.len() == half,
            are_powers(tw@, w@),
            forall|i: int| start <= i < n ==> #[trigger] a@[i] == before[i],
            forall|c: int|
                0 <= c < b ==> #[trigger] block(residues(a@), len, c) == butterfly::<F>(
                    block(residues(before), half as int, 2 * c),
                    block(residues(before), half as int, 2 * c + 1),
                    w@,
                ),
        decreases count - b,
    {
        proof {
            lemma_block_bounds(b as int, len, count as int);
            assert((b + 1) * len == b * len + len) by (nonlinear_arith);
        }
        let ghost prior = a@;
        join_blocks(a, start, half, tw, w);
        proof {
            let r = residues(before);
            assert(b * len == (2 * b) * half) by (nonlinear_arith)
                requires
                    len == 2 * half,
            ;
            assert((2 * b) * half + half == (2 * b + 1) * half) by (nonlinear_arith);
            assert(residues(prior).subrange(start as int, start + half) =~= block(
                r,
                half as int,
                2 * b as int,
            ));
            assert(residues(prior).subrange(start + half, start + 2 * half) =~= block(
                r,
                half as int,
                2 * b + 1,
            ));
            assert(block(residues(a@), len, b as int) =~= residues(a@).subrange(
                start as int,
                start + 2 * half,
            ));
            assert forall|c: int| 0 <= c < b implies #[trigger] block(residues(a@), len, c)
                == butterfly::<F>(
                block(residues(before), half as int, 2 * c),
                block(residues(before), half as int, 2 * c + 1),
                w@,
            ) by {
                lemma_block_bounds(c, len, count as int);
                assert(c * len + len <= b * len) by (nonlinear_arith)
                    requires
                        c < b,
                        len >= 0,
                ;
                assert(block(residues(a@), len, c) =~= block(residues(prior), len, c));
            }
        }
        start = start + 2 * half;
        b = b + 1;
    }
}

/// The items of `a` from `first`, `stride` apart.
pub open spec fn strided(a: Seq<int>, first: int, stride: int, n: nat) -> Seq<int> {
    Seq::new(n, |i: int| a[first + i * stride])
}

/// Joining the transforms of two interleaved halves gives that of the whole.
proof fn lemma_joined<F: PrimeField>(
    a: Seq<int>,
    m: nat,
    s: nat,
    b: int,
    omega: int,
    e: Seq<int>,
    o: Seq<int>,
)
    requires
        s < m,
        a.len() == pow2(m),
        0 <= omega < F::modulus(),
        0 <= b < pow2((m - s - 1) as nat),
        e == fft_value::<F>(
            strided(
                a,
                reversed((m - s) as nat, 2 * b),
                pow2((m - s) as nat) as int,
                pow2(s),
            ),
            fpow::<F>(omega, pow2((m - s) as nat)),
        ),
        o == fft_value::<F>(
            strided(
                a,
                reversed((m - s) as nat, 2 * b + 1),
                pow2((m - s) as nat) as int,
                pow2(s),
            ),
            fpow::<F>(omega, pow2((m - s) as nat)),
        ),
    ensures
        butterfly::<F>(e, o, stage_root::<F>(omega, m, s)) == fft_value::<F>(
            strided(
                a,
                reversed((m - s - 1) as nat, b),
                pow2((m - s - 1) as nat) as int,
                pow2(s + 1),
            ),
            fpow::<F>(omega, pow2((m - s - 1) as nat)),
        ),
{
    let q = (m - s - 1) as nat;
    let st = pow2(q) as int;
    let whole = strided(a, reversed(q, b), st, pow2(s + 1));
    let root = fpow::<F>(omega, pow2(q));
    lemma_pow2_unfold((m - s) as nat);
    lemma_pow2_unfold(s + 1);
    lemma_pow2_pos(s);
    lemma_pow2_pos(q);
    // the root of the halves is the square
    F::lemma_modulus();
    lemma_results_are_canonical::<F>(omega, omega, pow2(q));
    lemma_pow_two::<F>(root);
    lemma_pow_of_pow::<F>(omega, pow2(q), 2);
    assert(pow2(q) * 2 == pow2((m - s) as nat));
    // the halves are the even and the odd items
    assert((2 * b) / 2 == b && (2 * b) % 2 == 0);
    assert((2 * b + 1) / 2 == b && (2 * b + 1) % 2 == 1);
    assert(0 * st == 0 && 1 * st == st);
    assert(every_second(whole, 0) =~= strided(a, reversed((m - s) as nat, 2 * b), 2 * st, pow2(s)))
        by {
        assert forall|i: int| 0 <= i < pow2(s) implies every_second(whole, 0)[i] == strided(
            a,
            reversed((m - s) as nat, 2 * b),
            2 * st,
            pow2(s),
        )[i] by {
            assert((2 * i) * st == i * (2 * st)) by (nonlinear_arith);
        }
    }
    assert(every_second(whole, 1) =~= strided(
        a,
        reversed((m - s) as nat, 2 * b + 1),
        2 * st,
        pow2(s),
    )) by {
        assert forall|i: int| 0 <= i < pow2(s) implies every_second(whole, 1)[i] == strided(
            a,
            reversed((m - s) as nat, 2 * b + 1),
            2 * st,
            pow2(s),
        )[i] by {
            assert((2 * i + 1) * st == st + i * (2 * st)) by (nonlinear_arith);
        }
    }
}

/// Transforms `2^m` items in place, given the twiddle factors of a root: the
/// result is the discrete Fourier transform, for a primitive root of that order.
pub fn fft_in_place<F: PrimeField>(a: &mut Vec<F>, tw: &Vec<Vec<F>>, omega: &F)
    requires
        exists|m: nat| old(a)@.len() == #[trigger] pow2(m),
        forall|m: nat| old(a)@.len() == #[trigger] pow2(m) ==> are_twiddles(tw@, omega.view(), m),
    ensures
        residues(final(a)@) == fft_value::<F>(residues(old(a)@), omega.view()),
        forall|m: nat|
            old(a)@.len() == #[trigger] pow2(m) && is_primitive::<F>(omega.view(), m) ==> residues(
                final(a)@,
            ) == dft::<F>(residues(old(a)@), omega.view()),
{
    let n = a.len();
    let ghost m = choose|m: nat| a@.len() == #[trigger] pow2(m);
    proof {
        lemma_pow2_pos(m);
    }
    let bits: u32 = floor_log2(n as u64);
    let ghost a0 = residues(a@);
    let ghost w = omega.view();
    proof {
        lemma_log_is_exact(bits as nat, m, n as int);
        F::lemma_canonical(*omega);
    }
    bit_reverse(a, bits);
    let mut s: u32 = 0;
    let mut half: usize = 1;
    let mut count: usize = n;
    proof {
        lemma2_to64();
        assert forall|b: int| 0 <= b < count implies #[trigger] block(residues(a@), 1, b)
            == fft_value::<F>(
            strided(a0, reversed(m, b), pow2(m) as int, 1),
            fpow::<F>(w, pow2(m)),
        ) by {
            lemma_reversed_bound(m, b);
            assert(b * 1 == b);
            assert(0 * pow2(m) == 0);
            assert(block(residues(a@), 1, b) =~= strided(a0, reversed(m, b), pow2(m) as int, 1));
        }
    }
    while s < bits
        invariant
            s <= bits,
            bits == m,
            n == pow2(m),
            n == a@.len(),
            a0.len() == n,
            w == omega.view(),
            0 <= w < F::modulus(),
            half == pow2(s as nat),
            count == pow2((m - s) as nat),
            are_twiddles(tw@, w, m),
            forall|b: int|
                0 <= b < count ==> #[trigger] block(residues(a@), half as int, b) == fft_value::<F>(
                    strided(
                        a0,
                        reversed((m - s) as nat, b),
                        pow2((m - s) as nat) as int,
                        pow2(s as nat),
                    ),
                    fpow::<F>(w, pow2((m - s) as nat)),
                ),
        decreases bits - s,
    {
        let ghost prior = residues(a@);
        let ghost root = stage_root::<F>(w, m, s as nat);
        proof {
            lemma_pow2_unfold((m - s) as nat);
            lemma_pow2_unfold((s + 1) as nat);
            lemma_pow2_pos(s as nat);
            lemma_pow2_adds((m - s - 1) as nat, (s + 1) as nat);
            if s + 1 < m {
                lemma_pow2_strictly_increases((s + 1) as nat, m);
            }
        }
        stage(a, half, count / 2, &tw[s as usize], Ghost(root));
        proof {
            let q = (m - s - 1) as nat;
            assert forall|b: int| 0 <= b < pow2(q) implies #[trigger] block(
                residues(a@),
                2 * half as int,
                b,
            ) == fft_value::<F>(
                strided(a0, reversed(q, b), pow2(q) as int, pow2((s + 1) as nat)),
                fpow::<F>(w, pow2(q)),
            ) by {
                let e = block(prior, half as int, 2 * b);
                let o = block(prior, half as int, 2 * b + 1);
                lemma_joined::<F>(a0, m, s as nat, b, w, e, o);
            }
        }
        count = count / 2;
        half = 2 * half;
        s = s + 1;
    }
    proof {
        lemma2_to64();
        assert(0 * n == 0);
        assert(block(residues(a@), n as int, 0) =~= residues(a@));
        assert(strided(a0, 0, 1, n as nat) =~= a0) by {
            assert forall|i: int| 0 <= i < n implies strided(a0, 0, 1, n as nat)[i] == a0[i] by {
                assert(i * 1 == i);
            }
        }
        lemma_pow_small::<F>(w);
        assert(reversed(0, 0) == 0);
        assert(residues(a@) == fft_value::<F>(a0, w));
        assert forall|k: nat|
            a0.len() == #[trigger] pow2(k) && is_primitive::<F>(w, k) implies residues(a@)
            == dft::<F>(a0, w) by {
            assert forall|i: int| 0 <= i < a0.len() implies 0 <= #[trigger] a0[i] < F::modulus() by {
                F::lemma_canonical(old(a)@[i]);
            }
            halving_gives_the_dft::<F>(a0, w, k);
        }
    }
}

/// A transform's element is the polynomial's value at the element's own power of
/// the root.
pub proof fn transforms_evaluate_at_the_powers<F: PrimeField>(a: Seq<int>, w: int, k: nat)
    requires
        k < a.len(),
    ensures
        dft::<F>(a, w)[k as int] == crate::ipa::polynomial_at::<F>(a, fpow::<F>(w, k)),
{
    lemma_sum_is_the_polynomial::<F>(a, w, k, a.len());
    assert(a.take(a.len() as int) =~= a);
}

proof fn lemma_sum_is_the_polynomial<F: PrimeField>(a: Seq<int>, w: int, k: nat, n: nat)
    requires
        n <= a.len(),
    ensures
        dft_sum::<F>(a, w, k, n) == crate::ipa::polynomial_at::<F>(
            a.take(n as int),
            fpow::<F>(w, k),
        ),
    decreases n,
{
    if n > 0 {
        let m = (n - 1) as nat;
        lemma_sum_is_the_polynomial::<F>(a, w, k, m);
        assert(a.take(n as int).drop_last() =~= a.take(m as int));
        crate::ring::lemma_pow_of_pow::<F>(w, k, m);
        assert(k * m == m * k) by (nonlinear_arith);
    }
}

} // verus!
