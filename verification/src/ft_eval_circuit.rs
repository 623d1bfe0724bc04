//! `ft(zeta)` and the scalar environment it is computed from.

use vstd::arithmetic::power2::{lemma_pow2_unfold, pow2};
use vstd::prelude::*;

use crate::domain::{radix2_domain, Domain, FftField};
use crate::expr_eval::{pow_circuit, square_circuit, DomainOmegas, OmegasView};
use crate::field::{
    div, equal, fadd, fdiv, finv, fmul, fneg, fpow, from_u64, fsub, lemma_inverse_is_unique, neg,
    one, residues, zero, PrimeField,
};
use crate::ring::{
    lemma_mul_associates, lemma_mul_units, lemma_operands_may_be_reduced, lemma_pow_small,
    lemma_pow_step, lemma_results_are_canonical,
};

verus! {

/// The largest domain of a side-loaded proof, as a power of two.
pub const SIDE_LOADED_MAX_DOMAIN_LOG2: usize = 16;

/// The number of precomputed powers of `alpha`.
pub const NUM_ALPHA_POWS: usize = 71;

/// The first power of `alpha` that belongs to the permutation argument.
pub const PERM_ALPHA0: usize = 21;

/// The number of zero-knowledge rows.
pub const ZK_ROWS: usize = 3;

/// `sum_i which_i * xs_i`.
pub open spec fn masked_sum<F: PrimeField>(which: Seq<bool>, xs: Seq<int>) -> int
    decreases xs.len(),
{
    if xs.len() == 0 {
        0
    } else {
        fadd::<F>(
            masked_sum::<F>(which.drop_last(), xs.drop_last()),
            if which.last() {
                xs.last()
            } else {
                0
            },
        )
    }
}

/// The same sum, of elements.
pub(crate) fn sum_masked<F: PrimeField>(which: &[bool], xs: &[F]) -> (r: F)
    requires
        which@.len() == xs@.len(),
    ensures
        r.view() == masked_sum::<F>(which@, residues(xs@)),
{
    let mut acc: F = zero();
    let mut i: usize = 0;
    while i < xs.len()
        invariant
            i <= xs.len(),
            which@.len() == xs@.len(),
            acc.view() == masked_sum::<F>(which@.take(i as int), residues(xs@).take(i as int)),
        decreases xs.len() - i,
    {
        let term: F = if which[i] {
            xs[i]
        } else {
            zero()
        };
        acc = acc.add(&term);
        i = i + 1;
        proof {
            assert(which@.take(i as int).drop_last() == which@.take(i - 1));
            assert(residues(xs@).take(i as int).drop_last() == residues(xs@).take(i - 1));
        }
    }
    assert(which@.take(i as int) == which@);
    assert(residues(xs@).take(i as int) == residues(xs@));
    acc
}

/// A one-hot mask selects its entry.
pub proof fn one_hot_mask_selects<F: PrimeField>(which: Seq<bool>, xs: Seq<int>, k: int)
    requires
        which.len() == xs.len(),
        0 <= k < xs.len(),
        forall|i: int| 0 <= i < which.len() ==> which[i] == (i == k),
        0 <= xs[k] < F::modulus(),
    ensures
        masked_sum::<F>(which, xs) == xs[k],
    decreases xs.len(),
{
    if k == xs.len() - 1 {
        lemma_clear_mask::<F>(which.drop_last(), xs.drop_last());
        lemma_mul_units::<F>(xs[k]);
    } else {
        one_hot_mask_selects::<F>(which.drop_last(), xs.drop_last(), k);
        lemma_mul_units::<F>(xs[k]);
    }
}

/// A mask of zeros selects nothing.
proof fn lemma_clear_mask<F: PrimeField>(which: Seq<bool>, xs: Seq<int>)
    requires
        which.len() == xs.len(),
        forall|i: int| 0 <= i < which.len() ==> !which[i],
    ensures
        masked_sum::<F>(which, xs) == 0,
    decreases xs.len(),
{
    F::lemma_modulus();
    if xs.len() > 0 {
        lemma_clear_mask::<F>(which.drop_last(), xs.drop_last());
        lemma_mul_units::<F>(0);
    }
}

/// The residue of the generator of the radix-2 domain of size `2^log2`.
pub open spec fn domain_generator<F: FftField>(log2: nat) -> int {
    F::generator_spec(pow2(log2) as int)
}

/// The domain of a side-loaded proof, from a witnessed `log2` of its size: a
/// ones-prefix mask and a one-hot.
#[derive(Clone, Debug)]
pub struct SideLoadedDomain<F: PrimeField> {
    pub mask: Vec<bool>,
    pub which: Vec<bool>,
    pub log2_size: F,
}

/// `x` squared once for each leading set bit of the mask, in order.
pub open spec fn masked_squares<F: PrimeField>(mask: Seq<bool>, x: int) -> int
    decreases mask.len(),
{
    if mask.len() == 0 {
        x
    } else {
        let acc = masked_squares::<F>(mask.drop_last(), x);
        if mask.last() {
            fmul::<F>(acc, acc)
        } else {
            acc
        }
    }
}

/// The entries of a side-loaded one-hot: one, then the generators of the
/// domains of sizes `2, 4, ..`.
pub open spec fn side_loaded_generators<F: FftField>(n: nat) -> Seq<int> {
    Seq::new(
        n,
        |j: int|
            if j == 0 {
                1int
            } else {
                domain_generator::<F>(j as nat)
            },
    )
}

impl<F: PrimeField> SideLoadedDomain<F> {
    /// The shape that [`SideLoadedDomain::create`] gives.
    pub open spec fn wf(self) -> bool {
        &&& self.mask@.len() == SIDE_LOADED_MAX_DOMAIN_LOG2
        &&& self.which@.len() == SIDE_LOADED_MAX_DOMAIN_LOG2 + 1
        &&& 0 <= self.log2_size.view() <= SIDE_LOADED_MAX_DOMAIN_LOG2
        &&& forall|i: int|
            0 <= i < SIDE_LOADED_MAX_DOMAIN_LOG2 ==> self.mask@[i] == (i < self.log2_size.view())
        &&& forall|j: int|
            0 <= j <= SIDE_LOADED_MAX_DOMAIN_LOG2 ==> self.which@[j] == (j
                == self.log2_size.view())
    }

    /// The mask and the one-hot of `log2_size`; none when it exceeds the
    /// largest domain, as the one-hot then has no bit set.
    pub fn create(log2_size: &F) -> (r: Option<Self>)
        ensures
            r is Some <==> log2_size.view() <= SIDE_LOADED_MAX_DOMAIN_LOG2,
            r matches Some(d) ==> d.wf() && d.log2_size.view() == log2_size.view(),
    {
        proof {
            F::lemma_canonical(*log2_size);
        }
        let max = SIDE_LOADED_MAX_DOMAIN_LOG2;
        let mut mask: Vec<bool> = Vec::new();
        let mut value = true;
        let mut i: usize = 0;
        while i < max
            invariant
                i <= max,
                max == SIDE_LOADED_MAX_DOMAIN_LOG2,
                mask@.len() == i,
                0 <= log2_size.view(),
                value == (i <= log2_size.view()),
                forall|k: int| 0 <= k < i ==> mask@[k] == (k < log2_size.view()),
            decreases max - i,
        {
            let eq = equal(log2_size, &from_u64(i as u64));
            value = value && !eq;
            mask.push(value);
            i = i + 1;
        }
        let mut which: Vec<bool> = Vec::new();
        let mut any = false;
        let mut j: usize = 0;
        while j <= max
            invariant
                j <= max + 1,
                max == SIDE_LOADED_MAX_DOMAIN_LOG2,
                which@.len() == j,
                0 <= log2_size.view(),
                any == (log2_size.view() < j),
                forall|k: int| 0 <= k < j ==> which@[k] == (k == log2_size.view()),
            decreases max + 1 - j,
        {
            let eq = equal(&from_u64(j as u64), log2_size);
            any = any || eq;
            which.push(eq);
            j = j + 1;
        }
        if any {
            Some(SideLoadedDomain { mask, which, log2_size: *log2_size })
        } else {
            None
        }
    }

    /// The selected generator, `sum_j which_j * gen_j`.
    pub fn generator_var(&self) -> (r: F) where F: FftField
        requires
            self.wf(),
        ensures
            r.view() == masked_sum::<F>(
                self.which@,
                side_loaded_generators::<F>((SIDE_LOADED_MAX_DOMAIN_LOG2 + 1) as nat),
            ),
            self.log2_size.view() == 0 ==> r.view() == 1,
            self.log2_size.view() > 0 ==> r.view() == domain_generator::<F>(
                self.log2_size.view() as nat,
            ),
    {
        let mut gens: Vec<F> = Vec::new();
        gens.push(one());
        let mut j: usize = 1;
        while j < self.which.len()
            invariant
                1 <= j <= self.which@.len(),
                self.which@.len() == SIDE_LOADED_MAX_DOMAIN_LOG2 + 1,
                gens@.len() == j,
                residues(gens@) == side_loaded_generators::<F>(j as nat),
            decreases self.which.len() - j,
        {
            proof {
                lemma_small_power_fits(j as nat);
            }
            let d: Domain<F> = radix2_domain(j as u32);
            let ghost before = gens@;
            gens.push(d.group_gen);
            j = j + 1;
            assert(residues(gens@) == residues(before).push(d.group_gen.view()));
            assert(side_loaded_generators::<F>(j as nat) == side_loaded_generators::<F>(
                (j - 1) as nat,
            ).push(domain_generator::<F>((j - 1) as nat)));
        }
        proof {
            assert forall|i: int| 0 <= i < residues(gens@).len() implies 0 <= #[trigger] residues(
                gens@,
            )[i] < F::modulus() by {
                F::lemma_canonical(gens@[i]);
            }
            one_hot_mask_selects::<F>(self.which@, residues(gens@), self.log2_size.view());
        }
        sum_masked(self.which.as_slice(), gens.as_slice())
    }

    /// The vanishing polynomial of the selected domain: the masked squaring
    /// chain, minus one.
    pub fn vanishing_polynomial(&self, x: &F) -> (r: F)
        requires
            self.wf(),
        ensures
            r.view() == fsub::<F>(masked_squares::<F>(self.mask@, x.view()), 1),
            r.view() == fsub::<F>(
                fpow::<F>(x.view(), pow2(self.log2_size.view() as nat)),
                1,
            ),
    {
        let mut acc = *x;
        let mut i: usize = 0;
        while i < self.mask.len()
            invariant
                i <= self.mask@.len(),
                acc.view() == masked_squares::<F>(self.mask@.take(i as int), x.view()),
            decreases self.mask.len() - i,
        {
            let squared = square_circuit(&acc);
            if self.mask[i] {
                acc = squared;
            }
            i = i + 1;
            assert(self.mask@.take(i as int).drop_last() == self.mask@.take(i - 1));
        }
        assert(self.mask@.take(i as int) == self.mask@);
        proof {
            F::lemma_canonical(*x);
            prefix_mask_squares::<F>(self.mask@, x.view(), self.log2_size.view() as nat);
        }
        acc.sub(&one())
    }
}

/// A prefix of `k` ones squares `k` times: the value is `x^(2^k)`.
pub proof fn prefix_mask_squares<F: PrimeField>(mask: Seq<bool>, x: int, k: nat)
    requires
        k <= mask.len(),
        0 <= x < F::modulus(),
        forall|i: int| 0 <= i < mask.len() ==> mask[i] == (i < k),
    ensures
        masked_squares::<F>(mask, x) == fpow::<F>(x, pow2(k)),
    decreases mask.len(),
{
    if mask.len() == 0 {
        vstd::arithmetic::power2::lemma2_to64();
        lemma_pow_small::<F>(x);
    } else if k == mask.len() {
        let h = (k - 1) as nat;
        prefix_mask_squares::<F>(mask.drop_last(), x, h);
        lemma_square_of_power::<F>(x, h);
    } else {
        prefix_mask_squares::<F>(mask.drop_last(), x, k);
    }
}

/// `(x^(2^h))^2 = x^(2^(h + 1))`.
pub proof fn lemma_square_of_power<F: PrimeField>(x: int, h: nat)
    ensures
        fmul::<F>(fpow::<F>(x, pow2(h)), fpow::<F>(x, pow2(h))) == fpow::<F>(x, pow2(h + 1)),
{
    crate::ring::lemma_pow_sum::<F>(x, pow2(h), pow2(h));
    lemma_pow2_unfold(h + 1);
}

/// Small powers of two fit a machine word.
proof fn lemma_small_power_fits(k: nat)
    requires
        k <= 31,
    ensures
        pow2(k) <= usize::MAX,
{
    vstd::arithmetic::power2::lemma2_to64();
    if k < 31 {
        vstd::arithmetic::power2::lemma_pow2_strictly_increases(k, 31);
    }
}

/// A domain selected by a one-hot among the listed ones.
#[derive(Clone, Debug)]
pub struct SelectedDomain {
    /// The candidates' sizes, as powers of two.
    pub log2s: Vec<u32>,
    /// Which candidate's size is the witnessed one.
    pub which: Vec<bool>,
}

/// The generators of the listed domains.
pub open spec fn listed_generators<F: FftField>(log2s: Seq<u32>) -> Seq<int> {
    Seq::new(log2s.len(), |i: int| domain_generator::<F>(log2s[i] as nat))
}

/// `x^(2^l)` for each listed `l`.
pub open spec fn listed_powers<F: PrimeField>(log2s: Seq<u32>, x: int) -> Seq<int> {
    Seq::new(log2s.len(), |i: int| fpow::<F>(x, pow2(log2s[i] as nat)))
}

impl SelectedDomain {
    /// A bit per candidate, every candidate a domain.
    pub open spec fn wf(self) -> bool {
        &&& self.which@.len() == self.log2s@.len()
        &&& forall|i: int|
            0 <= i < self.log2s@.len() ==> #[trigger] self.log2s@[i] <= 32 && pow2(
                self.log2s@[i] as nat,
            ) <= usize::MAX
    }

    /// The bits of the witnessed `domain_log2`.
    pub fn create<F: PrimeField>(log2s: &[u32], domain_log2: &F) -> (r: Self)
        ensures
            r.log2s@ == log2s@,
            r.which@.len() == log2s@.len(),
            forall|i: int|
                0 <= i < log2s@.len() ==> #[trigger] r.which@[i] == (log2s@[i]
                    == domain_log2.view()),
    {
        let mut kept_log2s: Vec<u32> = Vec::new();
        let mut which: Vec<bool> = Vec::new();
        let mut i: usize = 0;
        while i < log2s.len()
            invariant
                i <= log2s@.len(),
                kept_log2s@ == log2s@.take(i as int),
                which@.len() == i,
                forall|k: int|
                    0 <= k < i ==> #[trigger] which@[k] == (log2s@[k] == domain_log2.view()),
            decreases log2s.len() - i,
        {
            kept_log2s.push(log2s[i]);
            which.push(equal(&from_u64(log2s[i] as u64), domain_log2));
            i = i + 1;
            assert(log2s@.take(i as int) == log2s@.take(i - 1).push(log2s@[i - 1]));
        }
        assert(log2s@.take(i as int) == log2s@);
        SelectedDomain { log2s: kept_log2s, which }
    }

    /// The generator of the radix-2 domain of size `2^log2`.
    pub fn generator_of<F: FftField>(log2: u32) -> (r: F)
        requires
            log2 <= 32,
            pow2(log2 as nat) <= usize::MAX,
        ensures
            r.view() == domain_generator::<F>(log2 as nat),
    {
        let d: Domain<F> = radix2_domain(log2);
        d.group_gen
    }

    /// `sum_i which_i * constants_i`.
    pub fn mask_constants<F: PrimeField>(&self, constants: &[F]) -> (r: F)
        requires
            constants@.len() == self.which@.len(),
        ensures
            r.view() == masked_sum::<F>(self.which@, residues(constants@)),
    {
        sum_masked(self.which.as_slice(), constants)
    }

    /// `sum_i which_i * xs_i`.
    pub fn mask_vars<F: PrimeField>(&self, xs: &[F]) -> (r: F)
        requires
            xs@.len() == self.which@.len(),
        ensures
            r.view() == masked_sum::<F>(self.which@, residues(xs@)),
    {
        sum_masked(self.which.as_slice(), xs)
    }

    /// The selected generator.
    pub fn generator_var<F: FftField>(&self) -> (r: F)
        requires
            self.wf(),
        ensures
            r.view() == masked_sum::<F>(self.which@, listed_generators::<F>(self.log2s@)),
    {
        let mut gens: Vec<F> = Vec::new();
        let mut i: usize = 0;
        while i < self.log2s.len()
            invariant
                i <= self.log2s@.len(),
                self.wf(),
                residues(gens@) == listed_generators::<F>(self.log2s@.take(i as int)),
            decreases self.log2s.len() - i,
        {
            let ghost before = gens@;
            let gen: F = Self::generator_of(self.log2s[i]);
            gens.push(gen);
            i = i + 1;
            assert(residues(gens@) == residues(before).push(gen.view()));
            assert(listed_generators::<F>(self.log2s@.take(i as int)) == listed_generators::<F>(
                self.log2s@.take(i - 1),
            ).push(domain_generator::<F>(self.log2s@[i - 1] as nat)));
        }
        assert(self.log2s@.take(i as int) == self.log2s@);
        self.mask_constants(gens.as_slice())
    }

    /// The vanishing polynomial of the selected domain,
    /// `sum_i which_i * x^(2^log2_i) - 1`.
    pub fn vanishing_polynomial<F: PrimeField>(&self, x: &F) -> (r: F)
        requires
            self.wf(),
            self.log2s@.len() > 0,
        ensures
            r.view() == fsub::<F>(
                masked_sum::<F>(self.which@, listed_powers::<F>(self.log2s@, x.view())),
                1,
            ),
    {
        let mut max_log2: u32 = 0;
        let mut i: usize = 0;
        while i < self.log2s.len()
            invariant
                i <= self.log2s@.len(),
                self.wf(),
                max_log2 <= 32,
                forall|k: int| 0 <= k < i ==> #[trigger] self.log2s@[k] <= max_log2,
            decreases self.log2s.len() - i,
        {
            if self.log2s[i] > max_log2 {
                max_log2 = self.log2s[i];
            }
            i = i + 1;
        }
        let mut pow2_pows: Vec<F> = Vec::new();
        pow2_pows.push(*x);
        proof {
            vstd::arithmetic::power2::lemma2_to64();
            F::lemma_canonical(*x);
            lemma_pow_small::<F>(x.view());
        }
        let mut k: u32 = 0;
        while k < max_log2
            invariant
                k <= max_log2 <= 32,
                pow2_pows@.len() == k + 1,
                forall|j: int|
                    0 <= j <= k ==> #[trigger] pow2_pows@[j].view() == fpow::<F>(
                        x.view(),
                        pow2(j as nat),
                    ),
            decreases max_log2 - k,
        {
            let prev = pow2_pows[k as usize];
            proof {
                lemma_square_of_power::<F>(x.view(), k as nat);
            }
            pow2_pows.push(square_circuit(&prev));
            k = k + 1;
        }
        let mut picks: Vec<F> = Vec::new();
        let mut j: usize = 0;
        while j < self.log2s.len()
            invariant
                j <= self.log2s@.len(),
                pow2_pows@.len() == max_log2 + 1,
                forall|k: int| 0 <= k < self.log2s@.len() ==> #[trigger] self.log2s@[k] <= max_log2,
                forall|j: int|
                    0 <= j <= max_log2 ==> #[trigger] pow2_pows@[j].view() == fpow::<F>(
                        x.view(),
                        pow2(j as nat),
                    ),
                residues(picks@) == listed_powers::<F>(self.log2s@.take(j as int), x.view()),
            decreases self.log2s.len() - j,
        {
            let ghost before = picks@;
            let pick = pow2_pows[self.log2s[j] as usize];
            picks.push(pick);
            j = j + 1;
            assert(residues(picks@) == residues(before).push(pick.view()));
            assert(listed_powers::<F>(self.log2s@.take(j as int), x.view()) == listed_powers::<F>(
                self.log2s@.take(j - 1),
                x.view(),
            ).push(fpow::<F>(x.view(), pow2(self.log2s@[j - 1] as nat))));
        }
        assert(self.log2s@.take(j as int) == self.log2s@);
        let chosen = self.mask_vars(picks.as_slice());
        chosen.sub(&one())
    }
}

/// The evaluation domain of the proof being finalized.
pub enum FinalizeDomain<F: PrimeField> {
    /// Known beforehand.
    Fixed(Domain<F>),
    /// Selected among listed ones.
    Selected(SelectedDomain),
    /// To be selected among listed ones by a witnessed size.
    SelectFrom { log2s: Vec<u32>, domain_log2: F },
    /// To be made from a witnessed size over the whole permissible range.
    SideLoadedFrom { log2_size: F },
    /// Made from a witnessed size.
    SideLoadedSelected(SideLoadedDomain<F>),
}

/// The one-hot of a value among listed ones.
pub open spec fn one_hot_of(log2s: Seq<u32>, value: int) -> Seq<bool> {
    Seq::new(log2s.len(), |i: int| log2s[i] == value)
}

/// Candidates that are domains, at least one of them.
pub open spec fn selectable_domains(log2s: Seq<u32>) -> bool {
    &&& log2s.len() > 0
    &&& forall|i: int|
        0 <= i < log2s.len() ==> #[trigger] log2s[i] <= 32 && pow2(log2s[i] as nat) <= usize::MAX
}

impl<F: FftField> FinalizeDomain<F> {
    /// Ready for use: nothing is left to be selected.
    pub open spec fn materialized(self) -> bool {
        match self {
            FinalizeDomain::Fixed(d) => d.wf(),
            FinalizeDomain::Selected(sel) => sel.wf() && sel.log2s@.len() > 0,
            FinalizeDomain::SideLoadedSelected(sel) => sel.wf(),
            _ => false,
        }
    }

    /// Ready for use, or to be selected among domains.
    pub open spec fn wf(self) -> bool {
        match self {
            FinalizeDomain::SelectFrom { log2s, .. } => selectable_domains(log2s@),
            FinalizeDomain::SideLoadedFrom { .. } => true,
            _ => self.materialized(),
        }
    }

    /// Whether there is a domain: a side-loaded size must be permissible.
    pub open spec fn exists_domain(self) -> bool {
        match self {
            FinalizeDomain::SideLoadedFrom { log2_size } => log2_size.view()
                <= SIDE_LOADED_MAX_DOMAIN_LOG2,
            _ => true,
        }
    }

    /// The generator: of a selected domain, the masked sum of the candidates'.
    pub open spec fn generator(self) -> int {
        match self {
            FinalizeDomain::Fixed(d) => d.group_gen.view(),
            FinalizeDomain::Selected(sel) => masked_sum::<F>(
                sel.which@,
                listed_generators::<F>(sel.log2s@),
            ),
            FinalizeDomain::SelectFrom { log2s, domain_log2 } => masked_sum::<F>(
                one_hot_of(log2s@, domain_log2.view()),
                listed_generators::<F>(log2s@),
            ),
            FinalizeDomain::SideLoadedSelected(sel) => masked_sum::<F>(
                sel.which@,
                side_loaded_generators::<F>((SIDE_LOADED_MAX_DOMAIN_LOG2 + 1) as nat),
            ),
            FinalizeDomain::SideLoadedFrom { log2_size } => masked_sum::<F>(
                Seq::new(
                    (SIDE_LOADED_MAX_DOMAIN_LOG2 + 1) as nat,
                    |j: int| j == log2_size.view(),
                ),
                side_loaded_generators::<F>((SIDE_LOADED_MAX_DOMAIN_LOG2 + 1) as nat),
            ),
        }
    }

    /// The vanishing polynomial at `x`.
    pub open spec fn vanishing(self, x: int) -> int {
        match self {
            FinalizeDomain::Fixed(d) => fsub::<F>(fpow::<F>(x, d.size as nat), 1),
            FinalizeDomain::Selected(sel) => fsub::<F>(
                masked_sum::<F>(sel.which@, listed_powers::<F>(sel.log2s@, x)),
                1,
            ),
            FinalizeDomain::SelectFrom { log2s, domain_log2 } => fsub::<F>(
                masked_sum::<F>(
                    one_hot_of(log2s@, domain_log2.view()),
                    listed_powers::<F>(log2s@, x),
                ),
                1,
            ),
            FinalizeDomain::SideLoadedSelected(sel) => fsub::<F>(
                masked_squares::<F>(sel.mask@, x),
                1,
            ),
            FinalizeDomain::SideLoadedFrom { log2_size } => fsub::<F>(
                masked_squares::<F>(
                    Seq::new(
                        SIDE_LOADED_MAX_DOMAIN_LOG2 as nat,
                        |i: int| i < log2_size.view(),
                    ),
                    x,
                ),
                1,
            ),
        }
    }

    /// Selects what is left to be selected; none when the side-loaded size is
    /// not permissible.
    pub fn materialize(self) -> (r: Option<Self>)
        requires
            self.wf(),
        ensures
            r is Some <==> self.exists_domain(),
            r matches Some(d) ==> d.materialized() && d.generator() == self.generator(),
            r matches Some(d) ==> forall|x: int| #[trigger] d.vanishing(x) == self.vanishing(x),
            r matches Some(d) ==> (d is Fixed <==> self is Fixed),
            self is Fixed ==> r == Some(self),
    {
        match self {
            FinalizeDomain::SelectFrom { log2s, domain_log2 } => {
                let sel = SelectedDomain::create(log2s.as_slice(), &domain_log2);
                assert(sel.which@ =~= one_hot_of(log2s@, domain_log2.view()));
                Some(FinalizeDomain::Selected(sel))
            },
            FinalizeDomain::SideLoadedFrom { log2_size } => {
                match SideLoadedDomain::create(&log2_size) {
                    None => None,
                    Some(sel) => {
                        assert(sel.which@ =~= Seq::new(
                            (SIDE_LOADED_MAX_DOMAIN_LOG2 + 1) as nat,
                            |j: int| j == log2_size.view(),
                        ));
                        assert(sel.mask@ =~= Seq::new(
                            SIDE_LOADED_MAX_DOMAIN_LOG2 as nat,
                            |i: int| i < log2_size.view(),
                        ));
                        Some(FinalizeDomain::SideLoadedSelected(sel))
                    },
                }
            },
            other => Some(other),
        }
    }

    /// The generator.
    pub fn generator_var(&self) -> (r: F)
        requires
            self.materialized(),
        ensures
            r.view() == self.generator(),
    {
        match self {
            FinalizeDomain::Fixed(d) => d.group_gen,
            FinalizeDomain::Selected(sel) => sel.generator_var(),
            FinalizeDomain::SideLoadedSelected(sel) => sel.generator_var(),
            _ => zero(),
        }
    }

    /// The vanishing polynomial at `x`.
    pub fn vanishing_polynomial(&self, x: &F) -> (r: F)
        requires
            self.materialized(),
        ensures
            r.view() == self.vanishing(x.view()),
    {
        match self {
            FinalizeDomain::Fixed(d) => pow_circuit(x, d.size).sub(&one()),
            FinalizeDomain::Selected(sel) => sel.vanishing_polynomial(x),
            FinalizeDomain::SideLoadedSelected(sel) => sel.vanishing_polynomial(x),
            _ => zero(),
        }
    }
}

/// The scalars a verifier derives from its challenges.
pub struct ScalarsEnvVar<F: PrimeField> {
    /// The powers of `alpha`.
    pub alpha_pows: Vec<F>,
    /// `(zeta - w^{-1})(zeta - w^{-2})(zeta - w^{-3})`.
    pub zk_polynomial: F,
    /// `w^{-3}`.
    pub omega_to_minus_zk_rows: F,
    /// `zeta^n - 1`.
    pub zeta_to_n_minus_1: F,
    /// The length of the commitment key, as a power of two.
    pub srs_length_log2: u32,
    pub beta: F,
    pub gamma: F,
    pub zeta: F,
    /// The powers of omega.
    pub omegas: DomainOmegas<F>,
}

/// The residues of the scalars.
pub struct ScalarsView {
    pub alpha_pows: Seq<int>,
    pub zk_polynomial: int,
    pub omega_to_minus_zk_rows: int,
    pub omegas: OmegasView,
    pub zeta_to_n_minus_1: int,
    pub srs_length_log2: nat,
    pub beta: int,
    pub gamma: int,
    pub zeta: int,
}

/// The residues of `w, w^{-1}, w^{-2}, w^{-3}`.
pub open spec fn omegas_of<F: PrimeField>(generator: int) -> OmegasView {
    let inv = finv::<F>(generator);
    OmegasView {
        generator,
        omega_to_minus_1: inv,
        omega_to_zk_plus_1: fmul::<F>(inv, inv),
        omega_to_zk: fmul::<F>(fmul::<F>(inv, inv), inv),
    }
}

/// The scalars of a verifier, from its domain and challenges.
pub open spec fn scalars_env<F: FftField>(
    domain: FinalizeDomain<F>,
    srs_length_log2: nat,
    alpha: int,
    beta: int,
    gamma: int,
    zeta: int,
) -> ScalarsView {
    let omegas = omegas_of::<F>(domain.generator());
    ScalarsView {
        alpha_pows: Seq::new(NUM_ALPHA_POWS as nat, |i: int| fpow::<F>(alpha, i as nat)),
        zk_polynomial: fmul::<F>(
            fmul::<F>(
                fsub::<F>(zeta, omegas.omega_to_minus_1),
                fsub::<F>(zeta, omegas.omega_to_zk_plus_1),
            ),
            fsub::<F>(zeta, omegas.omega_to_zk),
        ),
        omega_to_minus_zk_rows: omegas.omega_to_zk,
        omegas,
        zeta_to_n_minus_1: domain.vanishing(zeta),
        srs_length_log2,
        beta,
        gamma,
        zeta,
    }
}

/// The bits select one candidate.
pub open spec fn selects_one(sel: SelectedDomain, k: int) -> bool {
    &&& sel.which@.len() == sel.log2s@.len()
    &&& 0 <= k < sel.log2s@.len()
    &&& forall|i: int| 0 <= i < sel.which@.len() ==> #[trigger] sel.which@[i] == (i == k)
}

/// A domain selected by one bit is the fixed domain of its size: the generator,
/// the vanishing polynomial and every scalar of a verifier agree.
pub proof fn fixed_and_selected_agree<F: FftField>(
    d: Domain<F>,
    sel: SelectedDomain,
    k: int,
    srs_length_log2: nat,
    alpha: int,
    beta: int,
    gamma: int,
    zeta: int,
)
    requires
        selects_one(sel, k),
        d.size == pow2(sel.log2s@[k] as nat),
        d.group_gen.view() == domain_generator::<F>(sel.log2s@[k] as nat),
    ensures
        FinalizeDomain::<F>::Selected(sel).generator() == d.group_gen.view(),
        FinalizeDomain::<F>::Selected(sel).vanishing(zeta) == fsub::<F>(
            fpow::<F>(zeta, d.size as nat),
            1,
        ),
        scalars_env::<F>(
            FinalizeDomain::Fixed(d),
            srs_length_log2,
            alpha,
            beta,
            gamma,
            zeta,
        ) == scalars_env::<F>(
            FinalizeDomain::Selected(sel),
            srs_length_log2,
            alpha,
            beta,
            gamma,
            zeta,
        ),
{
    F::lemma_canonical(d.group_gen);
    one_hot_mask_selects::<F>(sel.which@, listed_generators::<F>(sel.log2s@), k);
    lemma_results_are_canonical::<F>(zeta, zeta, pow2(sel.log2s@[k] as nat));
    one_hot_mask_selects::<F>(sel.which@, listed_powers::<F>(sel.log2s@, zeta), k);
}

/// A side-loaded domain is the fixed domain of its size, whose generator is the
/// listed one: every scalar of a verifier agrees.
pub proof fn fixed_and_side_loaded_agree<F: FftField>(
    d: Domain<F>,
    sel: SideLoadedDomain<F>,
    srs_length_log2: nat,
    alpha: int,
    beta: int,
    gamma: int,
    zeta: int,
)
    requires
        sel.wf(),
        d.size == pow2(sel.log2_size.view() as nat),
        d.group_gen.view() == side_loaded_generators::<F>(
            (SIDE_LOADED_MAX_DOMAIN_LOG2 + 1) as nat,
        )[sel.log2_size.view()],
        0 <= zeta < F::modulus(),
    ensures
        scalars_env::<F>(
            FinalizeDomain::Fixed(d),
            srs_length_log2,
            alpha,
            beta,
            gamma,
            zeta,
        ) == scalars_env::<F>(
            FinalizeDomain::SideLoadedSelected(sel),
            srs_length_log2,
            alpha,
            beta,
            gamma,
            zeta,
        ),
{
    F::lemma_canonical(d.group_gen);
    one_hot_mask_selects::<F>(
        sel.which@,
        side_loaded_generators::<F>((SIDE_LOADED_MAX_DOMAIN_LOG2 + 1) as nat),
        sel.log2_size.view(),
    );
    prefix_mask_squares::<F>(sel.mask@, zeta, sel.log2_size.view() as nat);
}

impl<F: PrimeField> ScalarsEnvVar<F> {
    /// The residues.
    pub open spec fn view(&self) -> ScalarsView {
        ScalarsView {
            alpha_pows: residues(self.alpha_pows@),
            zk_polynomial: self.zk_polynomial.view(),
            omega_to_minus_zk_rows: self.omega_to_minus_zk_rows.view(),
            omegas: self.omegas.view(),
            zeta_to_n_minus_1: self.zeta_to_n_minus_1.view(),
            srs_length_log2: self.srs_length_log2 as nat,
            beta: self.beta.view(),
            gamma: self.gamma.view(),
            zeta: self.zeta.view(),
        }
    }

    /// `alpha^i`.
    pub fn alpha_pow(&self, i: usize) -> (r: F)
        requires
            i < self.alpha_pows@.len(),
        ensures
            r == self.alpha_pows@[i as int],
    {
        self.alpha_pows[i]
    }

    /// Enough powers of `alpha` for the permutation argument, and a key length
    /// that fits a machine word.
    pub open spec fn wf(self) -> bool {
        &&& self.alpha_pows@.len() == NUM_ALPHA_POWS
        &&& self.srs_length_log2 < 64
        &&& self.omega_to_minus_zk_rows == self.omegas.omega_to_zk
    }
}

/// `w^{-1}, w^{-2}, w^{-3}` of a generator that has an inverse.
fn domain_omegas<F: PrimeField>(generator: F) -> (r: Option<DomainOmegas<F>>)
    ensures
        r is None <==> generator.view() == 0,
        r matches Some(o) ==> o.view() == omegas_of::<F>(generator.view()),
{
    match generator.inverse() {
        None => None,
        Some(omega_to_minus_1) => {
            proof {
                lemma_inverse_is_unique::<F>(generator.view(), omega_to_minus_1.view());
            }
            let omega_to_zk_plus_1 = omega_to_minus_1.mul(&omega_to_minus_1);
            let omega_to_zk = omega_to_zk_plus_1.mul(&omega_to_minus_1);
            Some(DomainOmegas { generator, omega_to_minus_1, omega_to_zk_plus_1, omega_to_zk })
        },
    }
}

/// The scalars of a verifier from its challenges, over a domain whose generator
/// has an inverse; none when it is zero.
pub fn scalars_env_circuit<F: FftField>(
    domain: &FinalizeDomain<F>,
    srs_length_log2: u32,
    alpha: &F,
    beta: F,
    gamma: F,
    zeta: &F,
) -> (r: Option<ScalarsEnvVar<F>>)
    requires
        domain.materialized(),
        srs_length_log2 < 64,
    ensures
        r is None <==> domain.generator() == 0,
        r matches Some(env) ==> env.wf() && env.view() == scalars_env::<F>(
            *domain,
            srs_length_log2 as nat,
            alpha.view(),
            beta.view(),
            gamma.view(),
            zeta.view(),
        ),
{
    let mut alpha_pows: Vec<F> = Vec::new();
    alpha_pows.push(one());
    alpha_pows.push(*alpha);
    proof {
        F::lemma_canonical(*alpha);
        lemma_pow_small::<F>(alpha.view());
    }
    let mut i: usize = 2;
    while i < NUM_ALPHA_POWS
        invariant
            2 <= i <= NUM_ALPHA_POWS,
            alpha_pows@.len() == i,
            forall|k: int|
                0 <= k < i ==> #[trigger] alpha_pows@[k].view() == fpow::<F>(
                    alpha.view(),
                    k as nat,
                ),
        decreases NUM_ALPHA_POWS - i,
    {
        proof {
            F::lemma_canonical(*alpha);
            lemma_pow_step::<F>(alpha.view(), (i - 1) as nat);
        }
        let prev = alpha_pows[i - 1];
        alpha_pows.push(alpha.mul(&prev));
        i = i + 1;
    }
    let generator = domain.generator_var();
    match domain_omegas(generator) {
        None => None,
        Some(omegas) => {
            let f1 = zeta.sub(&omegas.omega_to_minus_1);
            let f2 = zeta.sub(&omegas.omega_to_zk_plus_1);
            let f3 = zeta.sub(&omegas.omega_to_zk);
            let zk_polynomial = f1.mul(&f2).mul(&f3);
            let zeta_to_n_minus_1 = domain.vanishing_polynomial(zeta);
            assert(residues(alpha_pows@) =~= Seq::new(
                NUM_ALPHA_POWS as nat,
                |i: int| fpow::<F>(alpha.view(), i as nat),
            ));
            Some(
                ScalarsEnvVar {
                    alpha_pows,
                    zk_polynomial,
                    omega_to_minus_zk_rows: omegas.omega_to_zk,
                    zeta_to_n_minus_1,
                    srs_length_log2,
                    beta,
                    gamma,
                    zeta: *zeta,
                    omegas,
                },
            )
        },
    }
}

/// The proof evaluations, at `zeta` and at `zeta * omega`.
pub struct EvalsVar<F: PrimeField> {
    pub w: Vec<(F, F)>,
    pub s: Vec<(F, F)>,
    pub z: (F, F),
}

/// The residues of the evaluations; the formulas read the columns at `zeta` alone.
pub struct EvalsView {
    pub w: Seq<int>,
    pub w_omega: Seq<int>,
    pub s: Seq<int>,
    pub s_omega: Seq<int>,
    pub z: int,
    pub z_omega: int,
}

impl<F: PrimeField> EvalsVar<F> {
    /// The residues.
    pub open spec fn view(&self) -> EvalsView {
        EvalsView {
            w: at_zeta(self.w@),
            w_omega: at_zeta_omega(self.w@),
            s: at_zeta(self.s@),
            s_omega: at_zeta_omega(self.s@),
            z: self.z.0.view(),
            z_omega: self.z.1.view(),
        }
    }
}

/// The residues at `zeta`.
pub open spec fn at_zeta<F: PrimeField>(columns: Seq<(F, F)>) -> Seq<int> {
    Seq::new(columns.len(), |i: int| columns[i].0.view())
}

/// The residues at `zeta * omega`.
pub open spec fn at_zeta_omega<F: PrimeField>(columns: Seq<(F, F)>) -> Seq<int> {
    Seq::new(columns.len(), |i: int| columns[i].1.view())
}

/// `e_0 + x e_1 + .. + x^{k-1} e_{k-1}`.
pub open spec fn horner<F: PrimeField>(chunks: Seq<int>, x: int) -> int
    decreases chunks.len(),
{
    if chunks.len() == 0 {
        0
    } else if chunks.len() == 1 {
        chunks[0]
    } else {
        fadd::<F>(chunks[0], fmul::<F>(x, horner::<F>(chunks.drop_first(), x)))
    }
}

/// Combines a polynomial's chunked evaluations into its evaluation, `pt_to_n`
/// being the evaluation point to the power of the chunk size.
pub fn actual_evaluation_circuit<F: PrimeField>(chunks: &[F], pt_to_n: &F) -> (r: F)
    requires
        chunks@.len() > 0,
    ensures
        r.view() == horner::<F>(residues(chunks@), pt_to_n.view()),
{
    let n = chunks.len();
    let mut acc = chunks[n - 1];
    let mut i: usize = n - 1;
    proof {
        assert(residues(chunks@).skip(n - 1).len() == 1);
    }
    while i > 0
        invariant
            0 <= i < n,
            n == chunks@.len(),
            acc.view() == horner::<F>(residues(chunks@).skip(i as int), pt_to_n.view()),
        decreases i,
    {
        i = i - 1;
        proof {
            assert(residues(chunks@).skip(i as int).drop_first() == residues(chunks@).skip(i + 1));
        }
        acc = chunks[i].add(&pt_to_n.mul(&acc));
    }
    assert(residues(chunks@).skip(0) == residues(chunks@));
    acc
}

/// `prod_{i < n} (gamma + beta * s_i + w_i)`.
pub open spec fn grand_product<F: PrimeField>(
    beta: int,
    gamma: int,
    s: Seq<int>,
    w: Seq<int>,
    n: nat,
) -> int
    decreases n,
{
    if n == 0 {
        1
    } else {
        fmul::<F>(
            grand_product::<F>(beta, gamma, s, w, (n - 1) as nat),
            fadd::<F>(fadd::<F>(gamma, fmul::<F>(beta, s[n - 1])), w[n - 1]),
        )
    }
}

/// The permutation scalar:
/// `- z(zeta omega) * beta * alpha^21 * zkp * prod_i (gamma + beta s_i + w_i)`.
pub open spec fn perm_scalar<F: PrimeField>(env: ScalarsView, e: EvalsView) -> int {
    fneg::<F>(
        fmul::<F>(
            fmul::<F>(
                fmul::<F>(
                    fmul::<F>(e.z_omega, env.beta),
                    env.alpha_pows[PERM_ALPHA0 as int],
                ),
                env.zk_polynomial,
            ),
            grand_product::<F>(
                env.beta,
                env.gamma,
                e.s,
                e.w,
                e.s.len(),
            ),
        ),
    )
}

/// Multiplies `init` by `prod_i (gamma + beta * s_i + w_i)`.
fn times_grand_product<F: PrimeField>(
    init: F,
    beta: &F,
    gamma: &F,
    s: &[F],
    w: &[(F, F)],
) -> (r: F)
    requires
        s@.len() <= w@.len(),
    ensures
        r.view() == fmul::<F>(
            init.view(),
            grand_product::<F>(
                beta.view(),
                gamma.view(),
                residues(s@),
                at_zeta(w@),
                s@.len(),
            ),
        ),
{
    let mut acc = init;
    proof {
        F::lemma_canonical(init);
        lemma_mul_units::<F>(init.view());
    }
    let mut i: usize = 0;
    while i < s.len()
        invariant
            i <= s@.len() <= w@.len(),
            acc.view() == fmul::<F>(
                init.view(),
                grand_product::<F>(
                    beta.view(),
                    gamma.view(),
                    residues(s@),
                    at_zeta(w@),
                    i as nat,
                ),
            ),
        decreases s.len() - i,
    {
        let factor = gamma.add(&beta.mul(&s[i])).add(&w[i].0);
        proof {
            lemma_mul_associates::<F>(
                init.view(),
                grand_product::<F>(
                    beta.view(),
                    gamma.view(),
                    residues(s@),
                    at_zeta(w@),
                    i as nat,
                ),
                factor.view(),
            );
        }
        acc = acc.mul(&factor);
        i = i + 1;
    }
    acc
}

/// The evaluations at `zeta` of a list of columns.
fn zeta_column<F: PrimeField>(columns: &[(F, F)]) -> (r: Vec<F>)
    ensures
        r@.len() == columns@.len(),
        residues(r@) == at_zeta(columns@),
{
    let mut out: Vec<F> = Vec::new();
    let mut i: usize = 0;
    while i < columns.len()
        invariant
            i <= columns@.len(),
            out@.len() == i,
            forall|k: int| 0 <= k < i ==> #[trigger] out@[k] == columns@[k].0,
        decreases columns.len() - i,
    {
        out.push(columns[i].0);
        i = i + 1;
    }
    assert(residues(out@) =~= at_zeta(columns@));
    out
}

/// The permutation scalar of a proof.
pub fn perm_scalar_circuit<F: PrimeField>(env: &ScalarsEnvVar<F>, e: &EvalsVar<F>) -> (r: F)
    requires
        env.wf(),
        e.s@.len() <= e.w@.len(),
    ensures
        r.view() == perm_scalar::<F>(env.view(), e.view()),
{
    let a21 = env.alpha_pow(PERM_ALPHA0);
    let init = e.z.1.mul(&env.beta).mul(&a21).mul(&env.zk_polynomial);
    let s = zeta_column(e.s.as_slice());
    let acc = times_grand_product(init, &env.beta, &env.gamma, s.as_slice(), e.w.as_slice());
    neg(&acc)
}

/// The denominator of the boundary terms of `ft(zeta)`.
pub open spec fn ft_denominator<F: PrimeField>(env: ScalarsView) -> int {
    fmul::<F>(
        fsub::<F>(env.zeta, env.omegas.omega_to_zk),
        fsub::<F>(env.zeta, 1),
    )
}

/// The boundary terms of `ft(zeta)`:
/// `(zeta^n - 1) (alpha^22 (zeta - w^{-3}) + alpha^23 (zeta - 1)) (1 - z)`.
pub open spec fn ft_numerator<F: PrimeField>(env: ScalarsView, e: EvalsView) -> int {
    fmul::<F>(
        fadd::<F>(
            fmul::<F>(
                fmul::<F>(
                    env.zeta_to_n_minus_1,
                    env.alpha_pows[PERM_ALPHA0 + 1],
                ),
                fsub::<F>(env.zeta, env.omegas.omega_to_zk),
            ),
            fmul::<F>(
                fmul::<F>(
                    env.zeta_to_n_minus_1,
                    env.alpha_pows[PERM_ALPHA0 + 2],
                ),
                fsub::<F>(env.zeta, 1),
            ),
        ),
        fsub::<F>(1, e.z),
    )
}

/// `ft(zeta)` without the linearization's constant term: the sigma product,
/// minus the public input, minus the shift product, plus the boundary terms.
pub open spec fn ft_eval0_prefix<F: PrimeField>(
    env: ScalarsView,
    shifts: Seq<int>,
    e: EvalsView,
    p_eval0: Seq<int>,
) -> int {
    let a21 = env.alpha_pows[PERM_ALPHA0 as int];
    let zkp = env.zk_polynomial;
    let sigma = fmul::<F>(
        fmul::<F>(
            fmul::<F>(
                fmul::<F>(
                    fadd::<F>(e.w[e.s.len() as int], env.gamma),
                    e.z_omega,
                ),
                a21,
            ),
            zkp,
        ),
        grand_product::<F>(
            env.beta,
            env.gamma,
            e.s,
            e.w,
            e.s.len(),
        ),
    );
    let public = horner::<F>(
        p_eval0,
        fpow::<F>(env.zeta, pow2(env.srs_length_log2)),
    );
    let shift = fmul::<F>(
        fmul::<F>(fmul::<F>(a21, zkp), e.z),
        grand_product::<F>(
            fmul::<F>(env.beta, env.zeta),
            env.gamma,
            shifts,
            e.w,
            shifts.len(),
        ),
    );
    fadd::<F>(
        fsub::<F>(fsub::<F>(sigma, public), shift),
        fdiv::<F>(ft_numerator::<F>(env, e), ft_denominator::<F>(env)),
    )
}

/// `ft(zeta)` without the linearization's constant term; none when `zeta` makes
/// the denominator of the boundary terms zero.
pub fn ft_eval0_prefix_circuit<F: PrimeField>(
    env: &ScalarsEnvVar<F>,
    shifts: &[F],
    e: &EvalsVar<F>,
    p_eval0: &[F],
) -> (r: Option<F>)
    requires
        env.wf(),
        e.s@.len() < e.w@.len(),
        shifts@.len() <= e.w@.len(),
        p_eval0@.len() > 0,
    ensures
        r is None <==> ft_denominator::<F>(env.view()) == 0,
        r matches Some(v) ==> v.view() == ft_eval0_prefix::<F>(
            env.view(),
            residues(shifts@),
            e.view(),
            residues(p_eval0@),
        ),
{
    let zkp = &env.zk_polynomial;
    let zeta = &env.zeta;
    let public = if p_eval0.len() == 1 {
        p_eval0[0]
    } else {
        let zeta1 = pow_circuit(zeta, power_of_two_u64(env.srs_length_log2));
        actual_evaluation_circuit(p_eval0, &zeta1)
    };
    let a21 = env.alpha_pow(PERM_ALPHA0);
    let w_n = e.w[e.s.len()].0;
    let init = w_n.add(&env.gamma).mul(&e.z.1).mul(&a21).mul(zkp);
    let s = zeta_column(e.s.as_slice());
    let sigma = times_grand_product(init, &env.beta, &env.gamma, s.as_slice(), e.w.as_slice());
    let shift_init = a21.mul(zkp).mul(&e.z.0);
    let beta_zeta = env.beta.mul(zeta);
    let shift = times_grand_product(shift_init, &beta_zeta, &env.gamma, shifts, e.w.as_slice());
    let unit: F = one();
    let zeta_minus_omzk = zeta.sub(&env.omega_to_minus_zk_rows);
    let zeta_minus_1 = zeta.sub(&unit);
    let a1 = env.alpha_pow(PERM_ALPHA0 + 1);
    let a2 = env.alpha_pow(PERM_ALPHA0 + 2);
    let term2 = env.zeta_to_n_minus_1.mul(&a2).mul(&zeta_minus_1);
    let term1 = env.zeta_to_n_minus_1.mul(&a1).mul(&zeta_minus_omzk);
    let numerator = term1.add(&term2).mul(&unit.sub(&e.z.0));
    let denominator = zeta_minus_omzk.mul(&zeta_minus_1);
    match div(&numerator, &denominator) {
        None => None,
        Some(frac) => Some(sigma.sub(&public).sub(&shift).add(&frac)),
    }
}

/// `2^log2`.
pub fn power_of_two_u64(log2: u32) -> (r: u64)
    requires
        log2 < 64,
    ensures
        r == pow2(log2 as nat),
{
    let mut r: u64 = 1;
    let mut i: u32 = 0;
    proof {
        vstd::arithmetic::power2::lemma2_to64();
        vstd::arithmetic::power2::lemma2_to64_rest();
    }
    while i < log2
        invariant
            i <= log2 < 64,
            r == pow2(i as nat),
            pow2(63) == 0x8000000000000000,
        decreases log2 - i,
    {
        proof {
            lemma_pow2_unfold((i + 1) as nat);
            if i + 1 < 63 {
                vstd::arithmetic::power2::lemma_pow2_strictly_increases((i + 1) as nat, 63);
            }
        }
        r = r * 2;
        i = i + 1;
    }
    r
}

/// The permutation's part of `ft(zeta)`: with the last permutation column's value
/// `s` put back at its scalar, what is left of the public input, the shifts and
/// the boundary is the whole product over all the columns. So the scalar has the
/// opposite sign of the product's part in `s`, and each part its own sign.
pub proof fn the_permutation_scalar_completes_the_product<F: PrimeField>(
    env: ScalarsView,
    shifts: Seq<int>,
    e: EvalsView,
    p_eval0: Seq<int>,
    s: int,
)
    requires
        e.s.len() < e.w.len(),
    ensures
        ({
            let public = horner::<F>(p_eval0, fpow::<F>(env.zeta, pow2(env.srs_length_log2)));
            let shifted = fmul::<F>(
                fmul::<F>(fmul::<F>(env.alpha_pows[21], env.zk_polynomial), e.z),
                grand_product::<F>(
                    fmul::<F>(env.beta, env.zeta),
                    env.gamma,
                    shifts,
                    e.w,
                    shifts.len(),
                ),
            );
            let boundary = fdiv::<F>(ft_numerator::<F>(env, e), ft_denominator::<F>(env));
            let whole = grand_product::<F>(
                env.beta,
                env.gamma,
                e.s.push(s),
                e.w,
                e.s.len() + 1,
            );
            (ft_eval0_prefix::<F>(env, shifts, e, p_eval0) + public + shifted - boundary
                - perm_scalar::<F>(env, e) * s) % F::modulus() == ((e.z_omega
                * env.alpha_pows[21] * env.zk_polynomial) * whole) % F::modulus()
        }),
{
    let m = F::modulus();
    F::lemma_modulus();
    let zo = e.z_omega;
    let a = env.alpha_pows[21];
    let k = env.zk_polynomial;
    let w = e.w[e.s.len() as int];
    let g = grand_product::<F>(env.beta, env.gamma, e.s, e.w, e.s.len());
    let t = zo * a * k;
    let public = horner::<F>(p_eval0, fpow::<F>(env.zeta, pow2(env.srs_length_log2)));
    let shifted = fmul::<F>(
        fmul::<F>(fmul::<F>(a, k), e.z),
        grand_product::<F>(
            fmul::<F>(env.beta, env.zeta),
            env.gamma,
            shifts,
            e.w,
            shifts.len(),
        ),
    );
    let boundary = fdiv::<F>(ft_numerator::<F>(env, e), ft_denominator::<F>(env));
    let y = w + env.gamma;
    // The product's part without the last column.
    lemma_five_factors::<F>(y, zo, a, k, g);
    lemma_operands_may_be_reduced::<F>(y, zo);
    let sigma = (y * (t * g)) % m;
    let prefix = ft_eval0_prefix::<F>(env, shifts, e, p_eval0);
    assert(prefix == fadd::<F>(fsub::<F>(fsub::<F>(sigma, public), shifted), boundary));
    lemma_operands_may_be_reduced::<F>(y * (t * g), public);
    lemma_operands_may_be_reduced::<F>(y * (t * g) - public, shifted);
    lemma_operands_may_be_reduced::<F>(y * (t * g) - public - shifted, boundary);
    assert(prefix == (y * (t * g) - public - shifted + boundary) % m);
    // The scalar.
    lemma_four_factors_with::<F>(zo, env.beta, a, k, g);
    let perm = perm_scalar::<F>(env, e);
    lemma_operands_may_be_reduced::<F>(0, env.beta * (t * g));
    assert(perm == (-(env.beta * (t * g))) % m);
    lemma_operands_may_be_reduced::<F>(-(env.beta * (t * g)), s);
    // Both together.
    lemma_operands_may_be_reduced::<F>(
        y * (t * g) - public - shifted + boundary,
        public + shifted - boundary,
    );
    lemma_operands_may_be_reduced::<F>(y * (t * g), (-(env.beta * (t * g))) * s);
    let plain = (y * (t * g) - public - shifted + boundary) % m + (public + shifted - boundary);
    lemma_operands_may_be_reduced::<F>(plain, perm * s);
    assert((prefix + public + shifted - boundary - perm * s) % m == (y * (t * g) - (-(env.beta * (t
        * g))) * s) % m);
    // The whole product.
    let last = env.gamma + env.beta * s + w;
    let pushed = e.s.push(s);
    lemma_product_of_a_prefix::<F>(env.beta, env.gamma, e.s, pushed, e.w, e.s.len());
    lemma_operands_may_be_reduced::<F>(env.gamma, env.beta * s);
    lemma_operands_may_be_reduced::<F>(env.gamma + env.beta * s, w);
    lemma_operands_may_be_reduced::<F>(g, last);
    let whole = grand_product::<F>(env.beta, env.gamma, pushed, e.w, e.s.len() + 1);
    assert(whole == (g * last) % m);
    lemma_operands_may_be_reduced::<F>(t, g * last);
    lemma_regroup(y, env.beta, s, t, g, last);
}

proof fn lemma_regroup(y: int, beta: int, s: int, t: int, g: int, last: int)
    requires
        last == y + beta * s,
    ensures
        y * (t * g) - (-(beta * (t * g))) * s == t * (g * last),
{
    let tg = t * g;
    assert(t * (g * last) == tg * last) by (nonlinear_arith)
        requires
            tg == t * g,
    ;
    assert(tg * (y + beta * s) == tg * y + tg * (beta * s)) by (nonlinear_arith);
    assert(tg * y == y * tg) by (nonlinear_arith);
    assert((-(beta * tg)) * s == -(tg * (beta * s))) by (nonlinear_arith);
}

proof fn lemma_five_factors<F: PrimeField>(y: int, zo: int, a: int, k: int, g: int)
    ensures
        fmul::<F>(
            fmul::<F>(fmul::<F>(fmul::<F>(y % F::modulus(), zo), a), k),
            g,
        ) == (y * ((zo * a * k) * g)) % F::modulus(),
{
    lemma_operands_may_be_reduced::<F>(y, zo);
    lemma_operands_may_be_reduced::<F>(y * zo, a);
    lemma_operands_may_be_reduced::<F>(y * zo * a, k);
    lemma_operands_may_be_reduced::<F>(y * zo * a * k, g);
    assert(y * zo * a * k * g == y * ((zo * a * k) * g)) by (nonlinear_arith);
}

proof fn lemma_four_factors_with<F: PrimeField>(zo: int, b: int, a: int, k: int, g: int)
    ensures
        fmul::<F>(
            fmul::<F>(fmul::<F>(fmul::<F>(zo, b), a), k),
            g,
        ) == (b * ((zo * a * k) * g)) % F::modulus(),
{
    lemma_operands_may_be_reduced::<F>(zo * b, a);
    lemma_operands_may_be_reduced::<F>(zo * b * a, k);
    lemma_operands_may_be_reduced::<F>(zo * b * a * k, g);
    assert(zo * b * a * k * g == b * ((zo * a * k) * g)) by (nonlinear_arith);
}

proof fn lemma_product_of_a_prefix<F: PrimeField>(
    beta: int,
    gamma: int,
    s: Seq<int>,
    longer: Seq<int>,
    w: Seq<int>,
    n: nat,
)
    requires
        n <= s.len() <= longer.len(),
        forall|i: int| 0 <= i < s.len() ==> s[i] == longer[i],
    ensures
        grand_product::<F>(beta, gamma, s, w, n) == grand_product::<F>(beta, gamma, longer, w, n),
    decreases n,
{
    if n > 0 {
        lemma_product_of_a_prefix::<F>(beta, gamma, s, longer, w, (n - 1) as nat);
    }
}

/// The boundary's parts in plain integers: the quotient's numerator is
/// `(zeta^n - 1) (1 - z)` times `alpha^22 (zeta - omega^-3) + alpha^23 (zeta - 1)`,
/// its denominator `(zeta - omega^-3) (zeta - 1)`.
pub proof fn the_boundary_in_plain_integers<F: PrimeField>(env: ScalarsView, e: EvalsView)
    ensures
        ft_denominator::<F>(env) == ((env.zeta - env.omegas.omega_to_zk) * (env.zeta - 1))
            % F::modulus(),
        ft_numerator::<F>(env, e) == ((env.zeta_to_n_minus_1 * (env.alpha_pows[22] * (env.zeta
            - env.omegas.omega_to_zk) + env.alpha_pows[23] * (env.zeta - 1))) * (1 - e.z))
            % F::modulus(),
{
    let zn = env.zeta_to_n_minus_1;
    let a = env.alpha_pows[22];
    let b = env.alpha_pows[23];
    let x = env.zeta - env.omegas.omega_to_zk;
    let y = env.zeta - 1;
    lemma_operands_may_be_reduced::<F>(x, y);
    lemma_operands_may_be_reduced::<F>(zn * a, x);
    lemma_operands_may_be_reduced::<F>(zn * b, y);
    lemma_operands_may_be_reduced::<F>(zn * a * x, zn * b * y);
    lemma_operands_may_be_reduced::<F>(zn * a * x + zn * b * y, 1 - e.z);
    assert(zn * a * x + zn * b * y == zn * (a * x + b * y)) by (nonlinear_arith);
}

/// The public input is taken away: raising its evaluation by `d` lowers
/// `ft(zeta)` by `d`.
pub proof fn the_public_input_is_taken_away<F: PrimeField>(
    env: ScalarsView,
    shifts: Seq<int>,
    e: EvalsView,
    p_eval0: Seq<int>,
    d: int,
)
    requires
        p_eval0.len() > 0,
    ensures
        fadd::<F>(
            ft_eval0_prefix::<F>(env, shifts, e, p_eval0.update(0, fadd::<F>(p_eval0[0], d))),
            d,
        ) == ft_eval0_prefix::<F>(env, shifts, e, p_eval0),
{
    let m = F::modulus();
    F::lemma_modulus();
    let x = fpow::<F>(env.zeta, pow2(env.srs_length_log2));
    let raised = p_eval0.update(0, fadd::<F>(p_eval0[0], d));
    let h = horner::<F>(p_eval0, x);
    let h2 = horner::<F>(raised, x);
    assert(h2 % m == (h + d) % m) by {
        assert(raised.drop_first() =~= p_eval0.drop_first());
        vstd::arithmetic::div_mod::lemma_mod_twice(p_eval0[0] + d, m);
        if p_eval0.len() > 1 {
            let r = fmul::<F>(x, horner::<F>(p_eval0.drop_first(), x));
            lemma_operands_may_be_reduced::<F>(p_eval0[0] + d, r);
            lemma_operands_may_be_reduced::<F>(p_eval0[0] + r, d);
            vstd::arithmetic::div_mod::lemma_mod_twice(p_eval0[0] + d + r, m);
        }
    }
    let a21 = env.alpha_pows[21];
    let zkp = env.zk_polynomial;
    let sigma = fmul::<F>(
        fmul::<F>(
            fmul::<F>(
                fmul::<F>(fadd::<F>(e.w[e.s.len() as int], env.gamma), e.z_omega),
                a21,
            ),
            zkp,
        ),
        grand_product::<F>(env.beta, env.gamma, e.s, e.w, e.s.len()),
    );
    let shift = fmul::<F>(
        fmul::<F>(fmul::<F>(a21, zkp), e.z),
        grand_product::<F>(
            fmul::<F>(env.beta, env.zeta),
            env.gamma,
            shifts,
            e.w,
            shifts.len(),
        ),
    );
    let q = fdiv::<F>(ft_numerator::<F>(env, e), ft_denominator::<F>(env));
    lemma_operands_may_be_reduced::<F>(sigma - h, shift);
    lemma_operands_may_be_reduced::<F>(sigma - h - shift, q);
    lemma_operands_may_be_reduced::<F>(sigma, h2);
    lemma_operands_may_be_reduced::<F>(sigma, h + d);
    lemma_operands_may_be_reduced::<F>(sigma - h - d, shift);
    lemma_operands_may_be_reduced::<F>(sigma - h - d - shift, q);
    lemma_operands_may_be_reduced::<F>(sigma - h - d - shift + q, d);
}

/// The powers of omega are those of the inverse: the first, second and third
/// negative power undo one, two and three multiplications by the generator.
pub proof fn omegas_are_negative_powers<F: PrimeField>(generator: int, inv: int)
    requires
        0 <= generator < F::modulus(),
        crate::field::is_inverse(F::modulus(), generator, inv),
    ensures
        omegas_of::<F>(generator).generator == generator,
        fmul::<F>(omegas_of::<F>(generator).omega_to_minus_1, generator) == 1,
        fmul::<F>(omegas_of::<F>(generator).omega_to_zk_plus_1, fpow::<F>(generator, 2)) == 1,
        fmul::<F>(omegas_of::<F>(generator).omega_to_zk, fpow::<F>(generator, 3)) == 1,
{
    let m = F::modulus();
    F::lemma_modulus();
    lemma_inverse_is_unique::<F>(generator, inv);
    let g = generator;
    crate::ring::lemma_mul_commutes::<F>(inv, g);
    assert(fmul::<F>(inv, g) == 1);
    lemma_pow_small::<F>(g);
    lemma_pow_step::<F>(g, 1);
    lemma_pow_step::<F>(g, 2);
    let g2 = fpow::<F>(g, 2);
    let i2 = fmul::<F>(inv, inv);
    lemma_results_are_canonical::<F>(inv, g, 2);
    lemma_results_are_canonical::<F>(g, g, 2);
    lemma_mul_units::<F>(g);
    lemma_mul_units::<F>(inv);
    // inv inv g g = inv g
    lemma_mul_associates::<F>(inv, inv, g2);
    lemma_mul_associates::<F>(inv, g, g);
    assert(fmul::<F>(inv, g2) == g);
    assert(fmul::<F>(i2, g2) == 1);
    // inv inv inv g g g = inv g
    lemma_mul_associates::<F>(i2, inv, fpow::<F>(g, 3));
    lemma_mul_associates::<F>(inv, g, g2);
    crate::ring::lemma_mul_commutes::<F>(g2, g);
    lemma_mul_units::<F>(g2);
    assert(fmul::<F>(inv, fpow::<F>(g, 3)) == g2);
}

/// The scalars that are handed on are those of their own names: the powers of
/// `alpha` in order, the vanishing of the domain at `zeta`, the third negative
/// power of omega, and the polynomial that vanishes on the three last rows.
pub proof fn scalars_keep_their_names<F: FftField>(
    domain: FinalizeDomain<F>,
    srs_length_log2: nat,
    alpha: int,
    beta: int,
    gamma: int,
    zeta: int,
)
    ensures
        ({
            let env = scalars_env::<F>(domain, srs_length_log2, alpha, beta, gamma, zeta);
            let o = omegas_of::<F>(domain.generator());
            &&& env.alpha_pows.len() == 71
            &&& forall|i: int|
                0 <= i < 71 ==> #[trigger] env.alpha_pows[i] == fpow::<F>(alpha, i as nat)
            &&& env.beta == beta
            &&& env.gamma == gamma
            &&& env.zeta == zeta
            &&& env.srs_length_log2 == srs_length_log2
            &&& env.omegas == o
            &&& env.omega_to_minus_zk_rows == o.omega_to_zk
            &&& env.zeta_to_n_minus_1 == domain.vanishing(zeta)
            &&& env.zk_polynomial == ((zeta - o.omega_to_minus_1) * (zeta - o.omega_to_zk_plus_1)
                * (zeta - o.omega_to_zk)) % F::modulus()
        }),
{
    let o = omegas_of::<F>(domain.generator());
    let x = zeta - o.omega_to_minus_1;
    let y = zeta - o.omega_to_zk_plus_1;
    lemma_operands_may_be_reduced::<F>(x, y);
    lemma_operands_may_be_reduced::<F>(x * y, zeta - o.omega_to_zk);
}

/// A column's two evaluations keep their sides: the first is at `zeta`, the
/// second at `zeta` times the generator.
pub proof fn evaluations_keep_their_sides<F: PrimeField>(e: EvalsVar<F>, i: int)
    ensures
        0 <= i < e.w@.len() ==> e.view().w[i] == e.w@[i].0.view() && e.view().w_omega[i]
            == e.w@[i].1.view(),
        0 <= i < e.s@.len() ==> e.view().s[i] == e.s@[i].0.view() && e.view().s_omega[i]
            == e.s@[i].1.view(),
        e.view().w.len() == e.w@.len(),
        e.view().s.len() == e.s@.len(),
        e.view().z == e.z.0.view(),
        e.view().z_omega == e.z.1.view(),
{
}

/// A domain that is selected by its witnessed size is the domain of that size:
/// with the size listed once, the generator and the vanishing polynomial are
/// those of the subgroup of that order.
pub proof fn witnessed_sizes_select_their_domain<F: FftField>(
    log2s: Vec<u32>,
    domain_log2: F,
    k: int,
    x: int,
)
    requires
        0 <= k < log2s@.len(),
        forall|i: int|
            0 <= i < log2s@.len() ==> ((#[trigger] log2s@[i]) == domain_log2.view()) == (i == k),
        0 <= domain_generator::<F>(log2s@[k] as nat) < F::modulus(),
    ensures
        (FinalizeDomain::SelectFrom { log2s, domain_log2 }).generator() == domain_generator::<F>(
            log2s@[k] as nat,
        ),
        (FinalizeDomain::SelectFrom { log2s, domain_log2 }).vanishing(x) == fsub::<F>(
            fpow::<F>(x, pow2(log2s@[k] as nat)),
            1,
        ),
{
    let which = one_hot_of(log2s@, domain_log2.view());
    assert forall|i: int| 0 <= i < which.len() implies which[i] == (i == k) by {
        assert((log2s@[i] == domain_log2.view()) == (i == k));
    }
    one_hot_mask_selects::<F>(which, listed_generators::<F>(log2s@), k);
    lemma_results_are_canonical::<F>(x, 0, pow2(log2s@[k] as nat));
    one_hot_mask_selects::<F>(which, listed_powers::<F>(log2s@, x), k);
}

/// A side-loaded domain is that of its witnessed size, up to two to the sixteen:
/// the trivial one has the generator one, the others that of the subgroup of
/// their order, and the vanishing polynomial squares as often as the size says.
pub proof fn side_loaded_sizes_make_their_domain<F: FftField>(log2_size: F, k: nat, x: int)
    requires
        log2_size.view() == k,
        k <= 16,
        0 <= x < F::modulus(),
        0 < k ==> 0 <= domain_generator::<F>(k) < F::modulus(),
    ensures
        (FinalizeDomain::SideLoadedFrom { log2_size }).exists_domain(),
        (FinalizeDomain::SideLoadedFrom { log2_size }).generator() == if k == 0 {
            1
        } else {
            domain_generator::<F>(k)
        },
        (FinalizeDomain::SideLoadedFrom { log2_size }).vanishing(x) == fsub::<F>(
            fpow::<F>(x, pow2(k)),
            1,
        ),
{
    F::lemma_modulus();
    let n = (SIDE_LOADED_MAX_DOMAIN_LOG2 + 1) as nat;
    let which = Seq::new(n, |j: int| j == log2_size.view());
    one_hot_mask_selects::<F>(which, side_loaded_generators::<F>(n), k as int);
    let mask = Seq::new(SIDE_LOADED_MAX_DOMAIN_LOG2 as nat, |i: int| i < log2_size.view());
    prefix_mask_squares::<F>(mask, x, k);
}

/// An item behind the others counts if and only if its own bit is set.
pub proof fn masked_items_count_by_their_bit<F: PrimeField>(
    which: Seq<bool>,
    xs: Seq<int>,
    bit: bool,
    x: int,
)
    requires
        which.len() == xs.len(),
    ensures
        masked_sum::<F>(which.push(bit), xs.push(x)) == (masked_sum::<F>(which, xs) + if bit {
            x
        } else {
            0
        }) % F::modulus(),
        masked_sum::<F>(Seq::empty(), Seq::empty()) == 0,
{
    assert(which.push(bit).drop_last() =~= which);
    assert(xs.push(x).drop_last() =~= xs);
}

/// No domain is larger than two to the sixteen where the size is witnessed; any
/// other kind of domain is there.
pub proof fn witnessed_sizes_are_bounded<F: FftField>(log2_size: F, domain: FinalizeDomain<F>)
    ensures
        (FinalizeDomain::SideLoadedFrom { log2_size }).exists_domain() <==> log2_size.view() <= 16,
        !(domain is SideLoadedFrom) ==> domain.exists_domain(),
{
}

/// The fixed and the already selected domains are what they hold.
pub proof fn given_domains_are_what_they_hold<F: FftField>(
    d: Domain<F>,
    sel: SideLoadedDomain<F>,
    x: int,
)
    requires
        sel.wf(),
        0 <= x < F::modulus(),
        sel.log2_size.view() > 0 ==> 0 <= domain_generator::<F>(sel.log2_size.view() as nat)
            < F::modulus(),
    ensures
        FinalizeDomain::Fixed(d).generator() == d.group_gen.view(),
        FinalizeDomain::Fixed(d).vanishing(x) == (fpow::<F>(x, d.size as nat) - 1) % F::modulus(),
        FinalizeDomain::SideLoadedSelected(sel).generator() == if sel.log2_size.view() == 0 {
            1
        } else {
            domain_generator::<F>(sel.log2_size.view() as nat)
        },
        FinalizeDomain::SideLoadedSelected(sel).vanishing(x) == (fpow::<F>(
            x,
            pow2(sel.log2_size.view() as nat),
        ) - 1) % F::modulus(),
{
    F::lemma_modulus();
    let k = sel.log2_size.view();
    let n = (SIDE_LOADED_MAX_DOMAIN_LOG2 + 1) as nat;
    one_hot_mask_selects::<F>(sel.which@, side_loaded_generators::<F>(n), k);
    prefix_mask_squares::<F>(sel.mask@, x, k as nat);
}

} // verus!
