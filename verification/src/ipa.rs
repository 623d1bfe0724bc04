//! The challenge polynomial of the inner-product argument and the combined
//! inner product.

use vstd::arithmetic::power2::pow2;
use vstd::prelude::*;

use crate::expr_eval::square_circuit;
use crate::field::{fadd, fmul, fpow, one, residues, PrimeField};
use crate::ft_eval_circuit::{actual_evaluation_circuit, horner, lemma_square_of_power};
use crate::ring::{
    lemma_add_laws, lemma_mul_associates, lemma_mul_commutes, lemma_mul_distributes,
    lemma_mul_units, lemma_operands_may_be_reduced, lemma_pow_small, lemma_pow_sum,
    lemma_results_are_canonical,
};
use crate::sequences::{kept, lemma_kept_step};

verus! {

/// `prod_{i < n} (1 + c_i x^(2^(k - 1 - i)))`, of `k` challenges.
pub open spec fn challenge_product<F: PrimeField>(chals: Seq<int>, x: int, n: nat) -> int
    decreases n,
{
    if n == 0 {
        1
    } else {
        fmul::<F>(
            challenge_product::<F>(chals, x, (n - 1) as nat),
            fadd::<F>(
                1,
                fmul::<F>(chals[n - 1], fpow::<F>(x, pow2((chals.len() - n) as nat))),
            ),
        )
    }
}

/// The challenge polynomial at `x`,
/// `h(x) = prod_i (1 + c_i x^(2^(k - 1 - i)))`.
pub open spec fn challenge_polynomial<F: PrimeField>(chals: Seq<int>, x: int) -> int {
    challenge_product::<F>(chals, x, chals.len())
}

/// The challenge polynomial at `x`.
pub fn challenge_polynomial_circuit<F: PrimeField>(chals: &[F], x: &F) -> (r: F)
    ensures
        r.view() == challenge_polynomial::<F>(residues(chals@), x.view()),
{
    let k = chals.len();
    let mut powers: Vec<F> = Vec::new();
    let mut power = *x;
    proof {
        vstd::arithmetic::power2::lemma2_to64();
        F::lemma_canonical(*x);
        lemma_pow_small::<F>(x.view());
    }
    let mut i: usize = 0;
    while i < k
        invariant
            i <= k,
            power.view() == fpow::<F>(x.view(), pow2(i as nat)),
            powers@.len() == i,
            forall|j: int|
                0 <= j < i ==> #[trigger] powers@[j].view() == fpow::<F>(
                    x.view(),
                    pow2(j as nat),
                ),
        decreases k - i,
    {
        powers.push(power);
        proof {
            lemma_square_of_power::<F>(x.view(), i as nat);
        }
        power = square_circuit(&power);
        i = i + 1;
    }
    let unit: F = one();
    let mut acc: F = unit;
    let mut n: usize = 0;
    while n < k
        invariant
            n <= k,
            k == chals@.len(),
            powers@.len() == k,
            unit.view() == 1,
            forall|j: int|
                0 <= j < k ==> #[trigger] powers@[j].view() == fpow::<F>(
                    x.view(),
                    pow2(j as nat),
                ),
            acc.view() == challenge_product::<F>(residues(chals@), x.view(), n as nat),
        decreases k - n,
    {
        let factor = unit.add(&chals[n].mul(&powers[k - 1 - n]));
        acc = acc.mul(&factor);
        n = n + 1;
    }
    acc
}

/// The residues of a list of evaluation pairs.
pub open spec fn pair_residues<F: PrimeField>(entries: Seq<(F, F)>) -> Seq<(int, int)> {
    Seq::new(entries.len(), |i: int| (entries[i].0.view(), entries[i].1.view()))
}

/// Each pair combined by the evalscale, `zeta_i + r * zetaw_i`.
pub open spec fn combined_pairs<F: PrimeField>(entries: Seq<(int, int)>, r: int) -> Seq<int> {
    Seq::new(entries.len(), |i: int| fadd::<F>(entries[i].0, fmul::<F>(r, entries[i].1)))
}

/// `sum_i xi^i (zeta_i + r * zetaw_i)`.
pub open spec fn combined_inner_product<F: PrimeField>(
    xi: int,
    r: int,
    entries: Seq<(int, int)>,
) -> int {
    horner::<F>(combined_pairs::<F>(entries, r), xi)
}

/// The combined inner product of a list of evaluation pairs.
pub fn combined_inner_product_circuit<F: PrimeField>(xi: &F, r: &F, entries: &[(F, F)]) -> (res: F)
    requires
        entries@.len() > 0,
    ensures
        res.view() == combined_inner_product::<F>(
            xi.view(),
            r.view(),
            pair_residues(entries@),
        ),
{
    let mut combined: Vec<F> = Vec::new();
    let mut i: usize = 0;
    while i < entries.len()
        invariant
            i <= entries@.len(),
            combined@.len() == i,
            forall|k: int|
                0 <= k < i ==> #[trigger] combined@[k].view() == fadd::<F>(
                    entries@[k].0.view(),
                    fmul::<F>(r.view(), entries@[k].1.view()),
                ),
        decreases entries.len() - i,
    {
        combined.push(entries[i].0.add(&r.mul(&entries[i].1)));
        i = i + 1;
    }
    assert(residues(combined@) =~= combined_pairs::<F>(pair_residues(entries@), r.view()));
    actual_evaluation_circuit(combined.as_slice(), xi)
}

/// The bits of a masked prefix.
pub open spec fn mask_bits<F: PrimeField>(prefix: Seq<(bool, F, F)>) -> Seq<bool> {
    Seq::new(prefix.len(), |i: int| prefix[i].0)
}

/// The pairs of a masked prefix.
pub open spec fn mask_pairs<F: PrimeField>(prefix: Seq<(bool, F, F)>) -> Seq<(F, F)> {
    Seq::new(prefix.len(), |i: int| (prefix[i].1, prefix[i].2))
}

/// The combined inner product behind a masked prefix: an entry whose bit is
/// clear contributes nothing and uses up no power of `xi`.
pub fn combined_inner_product_circuit_masked<F: PrimeField>(
    xi: &F,
    r: &F,
    masked_prefix: &[(bool, F, F)],
    entries: &[(F, F)],
) -> (res: F)
    requires
        entries@.len() > 0,
    ensures
        res.view() == combined_inner_product::<F>(
            xi.view(),
            r.view(),
            pair_residues(
                kept(mask_bits(masked_prefix@), mask_pairs(masked_prefix@)) + entries@,
            ),
        ),
{
    let mut all: Vec<(F, F)> = Vec::new();
    let mut i: usize = 0;
    let ghost bits = mask_bits(masked_prefix@);
    let ghost pairs = mask_pairs(masked_prefix@);
    while i < masked_prefix.len()
        invariant
            i <= masked_prefix@.len(),
            bits == mask_bits(masked_prefix@),
            pairs == mask_pairs(masked_prefix@),
            all@ == kept(bits.take(i as int), pairs.take(i as int)),
        decreases masked_prefix.len() - i,
    {
        proof {
            lemma_kept_step(bits, pairs, i as int);
        }
        let (keep, at_zeta, at_zetaw) = masked_prefix[i];
        if keep {
            all.push((at_zeta, at_zetaw));
        }
        i = i + 1;
    }
    assert(bits.take(i as int) == bits);
    assert(pairs.take(i as int) == pairs);
    crate::sequences::append(&mut all, entries);
    combined_inner_product_circuit(xi, r, all.as_slice())
}

/// The coefficients of the challenge polynomial, constant first: the factor
/// `c_j` occurs where the bit of weight `2^(k - 1 - j)` of the index is set.
pub open spec fn challenge_coefficients<F: PrimeField>(chals: Seq<int>) -> Seq<int>
    decreases chals.len(),
{
    if chals.len() == 0 {
        seq![1]
    } else {
        let rest = challenge_coefficients::<F>(chals.drop_first());
        rest + scaled::<F>(chals[0], rest)
    }
}

/// Every item times a factor.
pub open spec fn scaled<F: PrimeField>(c: int, xs: Seq<int>) -> Seq<int> {
    Seq::new(xs.len(), |i: int| fmul::<F>(c, xs[i]))
}

/// The polynomial with the given coefficients at `x`.
pub open spec fn polynomial_at<F: PrimeField>(coeffs: Seq<int>, x: int) -> int
    decreases coeffs.len(),
{
    if coeffs.len() == 0 {
        0
    } else {
        fadd::<F>(
            polynomial_at::<F>(coeffs.drop_last(), x),
            fmul::<F>(coeffs.last(), fpow::<F>(x, (coeffs.len() - 1) as nat)),
        )
    }
}

/// The coefficients of the challenge polynomial.
pub fn b_poly_coefficients<F: PrimeField>(chals: &[F]) -> (r: Vec<F>)
    requires
        pow2(chals@.len()) <= usize::MAX,
    ensures
        residues(r@) == challenge_coefficients::<F>(residues(chals@)),
        r@.len() == pow2(chals@.len()),
{
    let mut s: Vec<F> = Vec::new();
    s.push(one());
    let ghost all = residues(chals@);
    let k = chals.len();
    let mut i: usize = k;
    proof {
        assert(all.skip(k as int) =~= Seq::empty());
        assert(residues(s@) =~= challenge_coefficients::<F>(all.skip(k as int)));
        vstd::arithmetic::power2::lemma2_to64();
    }
    while i > 0
        invariant
            i <= k,
            k == chals@.len(),
            all == residues(chals@),
            s@.len() == pow2((k - i) as nat),
            residues(s@) == challenge_coefficients::<F>(all.skip(i as int)),
        decreases i,
    {
        i = i - 1;
        let c = chals[i];
        let half = s.len();
        let ghost rest = residues(s@);
        let mut j: usize = 0;
        while j < half
            invariant
                j <= half,
                half == rest.len(),
                s@.len() == half + j,
                residues(s@) =~= rest + scaled::<F>(c.view(), rest).take(j as int),
            decreases half - j,
        {
            let ghost seen = residues(s@);
            assert(s@[j as int].view() == seen[j as int]);
            let next = c.mul(&s[j]);
            s.push(next);
            assert(residues(s@) =~= seen.push(next.view()));
            assert(scaled::<F>(c.view(), rest).take(j + 1) =~= scaled::<F>(c.view(), rest).take(
                j as int,
            ).push(next.view()));
            j = j + 1;
        }
        proof {
            assert(scaled::<F>(c.view(), rest).take(j as int) =~= scaled::<F>(c.view(), rest));
            assert(all.skip(i as int).drop_first() =~= all.skip(i + 1));
            vstd::arithmetic::power2::lemma_pow2_unfold((k - i) as nat);
        }
    }
    assert(all.skip(0) =~= all);
    s
}

proof fn lemma_eval_canonical<F: PrimeField>(coeffs: Seq<int>, x: int)
    ensures
        0 <= polynomial_at::<F>(coeffs, x) < F::modulus(),
{
    F::lemma_modulus();
    if coeffs.len() > 0 {
        lemma_results_are_canonical::<F>(
            polynomial_at::<F>(coeffs.drop_last(), x),
            fmul::<F>(coeffs.last(), fpow::<F>(x, (coeffs.len() - 1) as nat)),
            0,
        );
    }
}

proof fn lemma_eval_of_scaled<F: PrimeField>(c: int, coeffs: Seq<int>, x: int)
    ensures
        polynomial_at::<F>(scaled::<F>(c, coeffs), x) == fmul::<F>(
            c,
            polynomial_at::<F>(coeffs, x),
        ),
    decreases coeffs.len(),
{
    let all = scaled::<F>(c, coeffs);
    F::lemma_modulus();
    if coeffs.len() == 0 {
        vstd::arithmetic::div_mod::lemma_small_mod(0, F::modulus() as nat);
    } else {
        let rest = coeffs.drop_last();
        lemma_eval_of_scaled::<F>(c, rest, x);
        assert(all.drop_last() =~= scaled::<F>(c, rest));
        let w = fpow::<F>(x, (coeffs.len() - 1) as nat);
        lemma_mul_associates::<F>(c, coeffs.last(), w);
        lemma_mul_distributes::<F>(
            c,
            polynomial_at::<F>(rest, x),
            fmul::<F>(coeffs.last(), w),
        );
    }
}

proof fn lemma_eval_of_sum<F: PrimeField>(a: Seq<int>, b: Seq<int>, x: int)
    ensures
        polynomial_at::<F>(a + b, x) == fadd::<F>(
            polynomial_at::<F>(a, x),
            fmul::<F>(fpow::<F>(x, a.len()), polynomial_at::<F>(b, x)),
        ),
    decreases b.len(),
{
    F::lemma_modulus();
    lemma_eval_canonical::<F>(a, x);
    let xa = fpow::<F>(x, a.len());
    if b.len() == 0 {
        assert(a + b =~= a);
        assert(xa * 0 == 0);
        vstd::arithmetic::div_mod::lemma_small_mod(0, F::modulus() as nat);
        vstd::arithmetic::div_mod::lemma_small_mod(
            polynomial_at::<F>(a, x) as nat,
            F::modulus() as nat,
        );
    } else {
        let rest = b.drop_last();
        lemma_eval_of_sum::<F>(a, rest, x);
        assert((a + b).drop_last() =~= a + rest);
        assert((a + b).last() == b.last());
        let n = (b.len() - 1) as nat;
        let w = fpow::<F>(x, n);
        let e = polynomial_at::<F>(rest, x);
        let l = b.last();
        // x^(|a| + n) = x^|a| x^n
        lemma_pow_sum::<F>(x, a.len(), n);
        assert(((a + b).len() - 1) as nat == a.len() + n);
        // l (xa w) = xa (l w)
        lemma_mul_associates::<F>(l, xa, w);
        lemma_mul_commutes::<F>(l, xa);
        lemma_mul_associates::<F>(xa, l, w);
        lemma_mul_distributes::<F>(xa, e, fmul::<F>(l, w));
        lemma_add_laws::<F>(
            polynomial_at::<F>(a, x),
            fmul::<F>(xa, e),
            fmul::<F>(xa, fmul::<F>(l, w)),
        );
    }
}

proof fn lemma_first_factor<F: PrimeField>(chals: Seq<int>, x: int, n: nat)
    requires
        1 <= n <= chals.len(),
    ensures
        challenge_product::<F>(chals, x, n) == fmul::<F>(
            fadd::<F>(1, fmul::<F>(chals[0], fpow::<F>(x, pow2((chals.len() - 1) as nat)))),
            challenge_product::<F>(chals.drop_first(), x, (n - 1) as nat),
        ),
    decreases n,
{
    let factor = |j: int|
        fadd::<F>(1, fmul::<F>(chals[j], fpow::<F>(x, pow2((chals.len() - 1 - j) as nat))));
    F::lemma_modulus();
    if n == 1 {
        lemma_results_are_canonical::<F>(
            1,
            fmul::<F>(chals[0], fpow::<F>(x, pow2((chals.len() - 1) as nat))),
            0,
        );
        assert(challenge_product::<F>(chals, x, 0) == 1);
        assert(challenge_product::<F>(chals.drop_first(), x, 0) == 1);
        lemma_mul_units::<F>(factor(0));
        lemma_mul_commutes::<F>(1, factor(0));
    } else {
        lemma_first_factor::<F>(chals, x, (n - 1) as nat);
        let rest = challenge_product::<F>(chals.drop_first(), x, (n - 2) as nat);
        assert(chals.drop_first()[n - 2] == chals[n - 1]);
        lemma_mul_associates::<F>(factor(0), rest, factor(n - 1));
    }
}

/// The coefficients are those of the challenge polynomial: their polynomial at
/// any point is the product over the challenges there.
pub proof fn coefficients_give_the_challenge_polynomial<F: PrimeField>(chals: Seq<int>, x: int)
    ensures
        challenge_coefficients::<F>(chals).len() == pow2(chals.len()),
        polynomial_at::<F>(challenge_coefficients::<F>(chals), x) == challenge_polynomial::<F>(
            chals,
            x,
        ),
    decreases chals.len(),
{
    F::lemma_modulus();
    vstd::arithmetic::power2::lemma2_to64();
    if chals.len() == 0 {
        let one_list = seq![1int];
        assert(one_list.drop_last() =~= Seq::empty());
        lemma_pow_small::<F>(x);
        vstd::arithmetic::div_mod::lemma_small_mod(1, F::modulus() as nat);
        assert(polynomial_at::<F>(Seq::empty(), x) == 0);
        assert(polynomial_at::<F>(one_list, x) == 1);
    } else {
        let rest = challenge_coefficients::<F>(chals.drop_first());
        let c = chals[0];
        coefficients_give_the_challenge_polynomial::<F>(chals.drop_first(), x);
        vstd::arithmetic::power2::lemma_pow2_unfold(chals.len());
        let e = polynomial_at::<F>(rest, x);
        let w = fpow::<F>(x, rest.len());
        lemma_eval_of_sum::<F>(rest, scaled::<F>(c, rest), x);
        lemma_eval_of_scaled::<F>(c, rest, x);
        lemma_eval_canonical::<F>(rest, x);
        // e + w (c e) = (1 + c w) e
        lemma_mul_associates::<F>(w, c, e);
        lemma_mul_commutes::<F>(w, c);
        lemma_mul_commutes::<F>(fmul::<F>(c, w), e);
        lemma_mul_units::<F>(e);
        lemma_mul_commutes::<F>(1, e);
        lemma_mul_distributes::<F>(e, 1, fmul::<F>(c, w));
        lemma_mul_commutes::<F>(e, fadd::<F>(1, fmul::<F>(c, w)));
        lemma_first_factor::<F>(chals, x, chals.len());
    }
}

/// Nested combination is the polynomial: folding from the back by `x` gives the
/// sum of the chunks, each by the power of `x` of its own place.
pub proof fn folding_is_the_polynomial<F: PrimeField>(chunks: Seq<int>, x: int)
    requires
        forall|i: int| 0 <= i < chunks.len() ==> 0 <= #[trigger] chunks[i] < F::modulus(),
    ensures
        horner::<F>(chunks, x) == polynomial_at::<F>(chunks, x),
    decreases chunks.len(),
{
    F::lemma_modulus();
    if chunks.len() > 0 {
        let first = seq![chunks[0]];
        let rest = chunks.drop_first();
        assert(first.drop_last() =~= Seq::empty());
        assert(polynomial_at::<F>(first.drop_last(), x) == 0);
        lemma_pow_small::<F>(x);
        lemma_mul_units::<F>(chunks[0]);
        assert(polynomial_at::<F>(first, x) == chunks[0]);
        if chunks.len() == 1 {
            assert(chunks =~= first);
        } else {
            assert forall|i: int| 0 <= i < rest.len() implies 0 <= #[trigger] rest[i]
                < F::modulus() by {
                assert(rest[i] == chunks[i + 1]);
            }
            folding_is_the_polynomial::<F>(rest, x);
            lemma_eval_of_sum::<F>(first, rest, x);
            assert(first + rest =~= chunks);
            let h = polynomial_at::<F>(rest, x);
            lemma_operands_may_be_reduced::<F>(x, h);
            assert(fpow::<F>(x, 1) == x % F::modulus()) by {
                vstd::arithmetic::power::lemma_pow1(x);
            }
        }
    }
}

/// The first components of pairs.
pub open spec fn firsts(entries: Seq<(int, int)>) -> Seq<int> {
    Seq::new(entries.len(), |i: int| entries[i].0)
}

/// The second components of pairs.
pub open spec fn seconds(entries: Seq<(int, int)>) -> Seq<int> {
    Seq::new(entries.len(), |i: int| entries[i].1)
}

/// The combined inner product is the combination by `xi` of the evaluations at
/// the first point, plus `r` times that of those at the second, every entry at
/// the power of `xi` of its own place.
pub proof fn the_inner_product_combines_both_points<F: PrimeField>(
    xi: int,
    r: int,
    entries: Seq<(int, int)>,
)
    ensures
        combined_inner_product::<F>(xi, r, entries) == fadd::<F>(
            polynomial_at::<F>(firsts(entries), xi),
            fmul::<F>(r, polynomial_at::<F>(seconds(entries), xi)),
        ),
{
    let pairs = combined_pairs::<F>(entries, r);
    assert forall|i: int| 0 <= i < pairs.len() implies 0 <= #[trigger] pairs[i] < F::modulus() by {
        lemma_results_are_canonical::<F>(entries[i].0, fmul::<F>(r, entries[i].1), 0);
    }
    folding_is_the_polynomial::<F>(pairs, xi);
    lemma_eval_of_pairs::<F>(xi, r, entries);
}

proof fn lemma_eval_of_pairs<F: PrimeField>(x: int, r: int, entries: Seq<(int, int)>)
    ensures
        polynomial_at::<F>(combined_pairs::<F>(entries, r), x) == fadd::<F>(
            polynomial_at::<F>(firsts(entries), x),
            fmul::<F>(r, polynomial_at::<F>(seconds(entries), x)),
        ),
    decreases entries.len(),
{
    F::lemma_modulus();
    let all = combined_pairs::<F>(entries, r);
    if entries.len() == 0 {
        assert(r * 0 == 0);
        vstd::arithmetic::div_mod::lemma_small_mod(0, F::modulus() as nat);
    } else {
        let rest = entries.drop_last();
        lemma_eval_of_pairs::<F>(x, r, rest);
        assert(all.drop_last() =~= combined_pairs::<F>(rest, r));
        assert(firsts(entries).drop_last() =~= firsts(rest));
        assert(seconds(entries).drop_last() =~= seconds(rest));
        let w = fpow::<F>(x, (entries.len() - 1) as nat);
        let (e0, e1) = entries.last();
        let a = polynomial_at::<F>(firsts(rest), x);
        let b = polynomial_at::<F>(seconds(rest), x);
        // (e0 + r e1) w = e0 w + r (e1 w)
        lemma_mul_commutes::<F>(fadd::<F>(e0, fmul::<F>(r, e1)), w);
        lemma_mul_distributes::<F>(w, e0, fmul::<F>(r, e1));
        lemma_mul_commutes::<F>(w, e0);
        lemma_mul_commutes::<F>(w, fmul::<F>(r, e1));
        lemma_mul_associates::<F>(r, e1, w);
        // (a + r b) + (e0 w + r (e1 w)) = (a + e0 w) + r (b + e1 w)
        let p = fmul::<F>(e0, w);
        let q = fmul::<F>(e1, w);
        lemma_mul_distributes::<F>(r, b, q);
        let rb = fmul::<F>(r, b);
        let rq = fmul::<F>(r, q);
        lemma_add_laws::<F>(a, rb, fadd::<F>(p, rq));
        lemma_add_laws::<F>(rb, p, rq);
        lemma_add_laws::<F>(p, rb, rq);
        lemma_add_laws::<F>(a, p, fadd::<F>(rb, rq));
    }
}

/// The first challenge belongs to the highest power and the last to the first:
/// in front, a challenge multiplies by `1 + c x^(2^k)` with `k` the number of
/// the others; at the end, by `1 + c x`, the others then taken at `x^2`.
pub proof fn challenges_go_from_high_to_low<F: PrimeField>(chals: Seq<int>, c: int, x: int)
    requires
        0 <= x < F::modulus(),
    ensures
        challenge_polynomial::<F>(seq![c] + chals, x) == fmul::<F>(
            fadd::<F>(1, fmul::<F>(c, fpow::<F>(x, pow2(chals.len())))),
            challenge_polynomial::<F>(chals, x),
        ),
        challenge_polynomial::<F>(chals.push(c), x) == fmul::<F>(
            challenge_polynomial::<F>(chals, fmul::<F>(x, x)),
            fadd::<F>(1, fmul::<F>(c, x)),
        ),
        challenge_polynomial::<F>(Seq::empty(), x) == 1,
{
    lemma_first_factor::<F>(seq![c] + chals, x, chals.len() + 1);
    assert((seq![c] + chals).drop_first() =~= chals);
    lemma_product_at_the_square::<F>(chals, c, x, chals.len());
    vstd::arithmetic::power2::lemma2_to64();
    lemma_pow_small::<F>(x);
}

proof fn lemma_product_at_the_square<F: PrimeField>(chals: Seq<int>, c: int, x: int, n: nat)
    requires
        0 <= x < F::modulus(),
        n <= chals.len(),
    ensures
        challenge_product::<F>(chals.push(c), x, n) == challenge_product::<F>(
            chals,
            fmul::<F>(x, x),
            n,
        ),
    decreases n,
{
    if n > 0 {
        lemma_product_at_the_square::<F>(chals, c, x, (n - 1) as nat);
        let h = pow2((chals.len() - n) as nat);
        crate::ring::lemma_pow_two::<F>(x);
        crate::ring::lemma_pow_of_pow::<F>(x, 2, h);
        vstd::arithmetic::power2::lemma_pow2_unfold((chals.len() + 1 - n) as nat);
    }
}

/// A masked entry is its bit and its two evaluations, in that order.
pub proof fn masked_entries_keep_their_parts<F: PrimeField>(
    prefix: Seq<(bool, F, F)>,
    entries: Seq<(F, F)>,
    i: int,
)
    ensures
        mask_bits(prefix).len() == prefix.len(),
        mask_pairs(prefix).len() == prefix.len(),
        0 <= i < prefix.len() ==> mask_bits(prefix)[i] == prefix[i].0 && mask_pairs(prefix)[i].0
            == prefix[i].1 && mask_pairs(prefix)[i].1 == prefix[i].2,
        pair_residues(entries).len() == entries.len(),
        0 <= i < entries.len() ==> pair_residues(entries)[i] == (
            entries[i].0.view(),
            entries[i].1.view(),
        ),
{
}

} // verus!
