//! Challenge extraction from a sponge squeeze.

use vstd::prelude::*;

use crate::field::PrimeField;
use crate::montgomery::{b2, limbs_value};
use crate::sponge::{op_residues, replied, squeeze, SpongeOp};

verus! {

/// The bit length of a scalar challenge.
pub const CHALLENGE_BITS: usize = 128;

/// The decomposition of a squeezed element at 128 bits.
#[derive(Clone, Debug)]
pub struct ChallengeBits<F: PrimeField> {
    /// The lowest 128 bits: the challenge.
    pub lo: F,
    /// The remaining high bits.
    pub hi: F,
    /// The values that a circuit constrains to 128 bits.
    pub range_checked: Vec<F>,
}

/// Splits `x = lo + hi * 2^128`. The high half is range-checked to 128 bits, the
/// low half too when `constrain_low_bits` is set.
pub fn lowest_128_bits<F: PrimeField>(x: &F, constrain_low_bits: bool) -> (r: ChallengeBits<F>)
    ensures
        is_split(*x, r),
        r.range_checked@ == if constrain_low_bits {
            seq![r.hi, r.lo]
        } else {
            seq![r.hi]
        },
{
    let l = x.to_limbs();
    proof {
        F::lemma_modulus();
        F::lemma_canonical(*x);
    }
    let low: [u64; 4] = [l[0], l[1], 0, 0];
    let high: [u64; 4] = [l[2], l[3], 0, 0];
    assert(limbs_value(l) == limbs_value(low) + limbs_value(high) * b2());
    assert(limbs_value(high) < F::modulus());
    let lo = F::from_limbs(low).unwrap();
    let hi = F::from_limbs(high).unwrap();
    let mut range_checked: Vec<F> = Vec::new();
    range_checked.push(hi);
    if constrain_low_bits {
        range_checked.push(lo);
    }
    ChallengeBits { lo, hi, range_checked }
}

/// `x` is the low 128 bits of an answer to a transcript's last squeeze.
pub open spec fn challenged<F: PrimeField, H: Fn(&Vec<SpongeOp<F>>) -> F>(
    sponge: H,
    ops: Seq<Option<int>>,
    x: F,
) -> bool {
    exists|reply: F| #[trigger] replied(sponge, ops, reply) && x.view() == reply.view() % b2()
}

/// `r` splits an element at 128 bits.
pub open spec fn is_split<F: PrimeField>(x: F, r: ChallengeBits<F>) -> bool {
    r.lo.view() == x.view() % b2() && r.hi.view() == x.view() / b2()
}

/// Squeezes a 128-bit challenge: its low half, both halves range-checked.
pub fn squeeze_challenge<F: PrimeField, H: Fn(&Vec<SpongeOp<F>>) -> F>(
    ops: &mut Vec<SpongeOp<F>>,
    sponge: &H,
) -> (r: ChallengeBits<F>)
    requires
        forall|v: &Vec<SpongeOp<F>>| call_requires(*sponge, (v,)),
    ensures
        op_residues(final(ops)@) == op_residues(old(ops)@).push(None),
        exists|reply: F| #[trigger]
            replied(*sponge, op_residues(final(ops)@), reply) && is_split(reply, r),
        r.range_checked@ == seq![r.hi, r.lo],
{
    let reply = squeeze(ops, sponge);
    lowest_128_bits(&reply, true)
}

/// Squeezes a 128-bit scalar challenge: its low half, the high half alone
/// range-checked.
pub fn squeeze_scalar<F: PrimeField, H: Fn(&Vec<SpongeOp<F>>) -> F>(
    ops: &mut Vec<SpongeOp<F>>,
    sponge: &H,
) -> (r: ChallengeBits<F>)
    requires
        forall|v: &Vec<SpongeOp<F>>| call_requires(*sponge, (v,)),
    ensures
        op_residues(final(ops)@) == op_residues(old(ops)@).push(None),
        exists|reply: F| #[trigger]
            replied(*sponge, op_residues(final(ops)@), reply) && is_split(reply, r),
        r.range_checked@ == seq![r.hi],
{
    let reply = squeeze(ops, sponge);
    lowest_128_bits(&reply, false)
}

/// The two halves recompose the element, both fit in 128 bits, and no other
/// pair of 128-bit values does.
pub proof fn halves_recompose<F: PrimeField>(x: F, lo: int, hi: int)
    requires
        0 <= lo < b2(),
        0 <= hi < b2(),
    ensures
        x.view() == (x.view() % b2()) + (x.view() / b2()) * b2(),
        0 <= x.view() % b2() < b2(),
        0 <= x.view() / b2() < b2(),
        x.view() == lo + hi * b2() ==> lo == x.view() % b2() && hi == x.view() / b2(),
{
    F::lemma_canonical(x);
    F::lemma_modulus();
}

/// A split is at two to the 128: the challenge is the remainder, the rest the
/// quotient, and together they are the element.
pub proof fn splits_are_at_128_bits<F: PrimeField>(x: F, r: ChallengeBits<F>)
    requires
        is_split(x, r),
    ensures
        0 <= r.lo.view() < 0x1_0000_0000_0000_0000_0000_0000_0000_0000int,
        x.view() == r.lo.view() + r.hi.view()
            * 0x1_0000_0000_0000_0000_0000_0000_0000_0000int,
{
    F::lemma_canonical(x);
}

/// A challenge is below two to the 128 and agrees with the squeezed element in
/// its lowest bits.
pub proof fn challenges_are_low_bits<F: PrimeField, H: Fn(&Vec<SpongeOp<F>>) -> F>(
    sponge: H,
    ops: Seq<Option<int>>,
    x: F,
)
    requires
        challenged(sponge, ops, x),
    ensures
        0 <= x.view() < 0x1_0000_0000_0000_0000_0000_0000_0000_0000int,
        exists|reply: F| #[trigger]
            replied(sponge, ops, reply) && (reply.view() - x.view())
                % 0x1_0000_0000_0000_0000_0000_0000_0000_0000int == 0,
{
    let reply = choose|reply: F| #[trigger]
        replied(sponge, ops, reply) && x.view() == reply.view() % b2();
    F::lemma_canonical(reply);
}

} // verus!
