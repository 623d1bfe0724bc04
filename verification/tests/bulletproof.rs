use ark_ec::{AffineRepr, CurveGroup, PrimeGroup};
use ark_ff::{Field as _, One as _, PrimeField as _, UniformRand, Zero as _};
use pickles::bulletproof::{
    bullet_reduce_challenges, bullet_reduce_terms, check_bulletproof_equation,
    check_bulletproof_equation_from_q, combine_commitments, ipa_challenges_transcript,
    prepare_bulletproof_q, CommitmentOpt,
};
use pickles::commitments::{ft_comm, reduce_chunks, ShiftedScalar};
use pickles::curve::{Pallas, Point};
use pickles::field::{from_u128, from_u64, Fp, Fq, PrimeField};
use pickles::sponge::SpongeOp;
use rand_chacha::rand_core::{RngCore, SeedableRng};

type Affine = ark_pallas::Affine;
type Scalar = ark_pallas::Fr;

fn fp(x: ark_pallas::Fq) -> Fp {
    Fp::from_limbs(x.into_bigint().0).unwrap()
}

fn fq(x: ark_pallas::Fr) -> Fq {
    Fq::from_limbs(x.into_bigint().0).unwrap()
}

fn point(p: ark_pallas::Affine) -> Point<Fp> {
    Point { x: fp(p.x), y: fp(p.y) }
}

/// A stand-in for the sponge: a fold of the transcript that depends on every
/// operation and on their order.
fn toy_sponge(ops: &Vec<SpongeOp<Fp>>) -> Fp {
    let base: Fp = from_u64(1_000_003);
    let mut state: Fp = from_u64(17);
    for op in ops {
        let step = match op {
            SpongeOp::Absorb(x) => x.add(&from_u64(5)),
            SpongeOp::Squeeze => from_u64(3),
        };
        state = state.mul(&base).add(&step);
        state = state.mul(&state).add(&step);
    }
    state
}

/// The stand-in, driven one call at a time.
struct Mirror {
    ops: Vec<SpongeOp<Fp>>,
}

impl Mirror {
    fn new() -> Self {
        Mirror { ops: Vec::new() }
    }

    fn absorb(&mut self, x: Fp) {
        self.ops.push(SpongeOp::Absorb(x));
    }

    fn squeeze(&mut self) -> Fp {
        self.ops.push(SpongeOp::Squeeze);
        toy_sponge(&self.ops)
    }
}

fn lowest_128(x: &Fp) -> Fp {
    let l = x.to_limbs();
    Fp::from_limbs([l[0], l[1], 0, 0]).unwrap()
}

const OTHER_FIELD_BITS: u64 = 255;

fn rng() -> rand_chacha::ChaCha20Rng {
    rand_chacha::ChaCha20Rng::seed_from_u64(11)
}

fn random_u128(rng: &mut rand_chacha::ChaCha20Rng) -> u128 {
    (u128::from(rng.next_u64()) << 64) | u128::from(rng.next_u64())
}

fn random_point(rng: &mut rand_chacha::ChaCha20Rng) -> Affine {
    (Affine::generator() * Scalar::rand(rng)).into_affine()
}

fn scale_fast_ref(base: Affine, repr: u128) -> Affine {
    let shift = Scalar::from(2u64).pow([OTHER_FIELD_BITS]);
    let k = Scalar::from(2u64) * Scalar::from(repr) + shift + Scalar::one();
    (base * k).into_affine()
}

fn type1(repr: u128) -> ShiftedScalar<Fp> {
    ShiftedScalar::Type1(from_u128(repr))
}

#[test]
fn combine_commitments_matches_reference() {
    let mut rng = rng();
    for n in [1usize, 2, 4] {
        let comms: Vec<Affine> = (0..n).map(|_| random_point(&mut rng)).collect();
        let xi = Scalar::from(random_u128(&mut rng));
        let mut acc = comms[n - 1].into_group();
        for c in comms[..n - 1].iter().rev() {
            acc = *c + acc * xi;
        }
        let lib: Vec<CommitmentOpt<Fp>> =
            comms.iter().map(|c| CommitmentOpt::Just(point(*c))).collect();
        assert_eq!(
            combine_commitments::<Pallas>(&lib, &fq(xi)),
            Some(point(acc.into_affine())),
            "n = {n}"
        );
    }
}

#[test]
fn absent_commitments_do_not_count() {
    let mut rng = rng();
    let (a, b) = (random_point(&mut rng), random_point(&mut rng));
    let xi = Scalar::from(random_u128(&mut rng));
    let with = [
        CommitmentOpt::Just(point(a)),
        CommitmentOpt::Nothing,
        CommitmentOpt::Maybe(false, point(random_point(&mut rng))),
        CommitmentOpt::Maybe(true, point(b)),
    ];
    let without = [CommitmentOpt::Just(point(a)), CommitmentOpt::Just(point(b))];
    assert_eq!(
        combine_commitments::<Pallas>(&with, &fq(xi)),
        combine_commitments::<Pallas>(&without, &fq(xi))
    );
    assert_eq!(combine_commitments::<Pallas>(&[], &fq(xi)), None);
}

#[test]
fn combinations_are_sums_of_powers() {
    let mut rng = rng();
    let kept: Vec<Affine> = (0..4).map(|_| random_point(&mut rng)).collect();
    let xi = Scalar::rand(&mut rng);
    let mut power = Scalar::one();
    let mut sum = ark_pallas::Projective::zero();
    for p in &kept {
        sum += *p * power;
        power *= xi;
    }
    let list = [
        CommitmentOpt::Nothing,
        CommitmentOpt::Just(point(kept[0])),
        CommitmentOpt::Maybe(false, point(random_point(&mut rng))),
        CommitmentOpt::Maybe(true, point(kept[1])),
        CommitmentOpt::Just(point(kept[2])),
        CommitmentOpt::Nothing,
        CommitmentOpt::Just(point(kept[3])),
        CommitmentOpt::Maybe(false, point(random_point(&mut rng))),
    ];
    assert_eq!(
        combine_commitments::<Pallas>(&list, &fq(xi)),
        Some(point(sum.into_affine()))
    );
    let chunks: Vec<Point<Fp>> = kept.iter().map(|p| point(*p)).collect();
    assert_eq!(
        reduce_chunks::<Pallas>(&chunks, &fq(xi)),
        Some(point(sum.into_affine()))
    );
}

#[test]
fn bullet_reduce_matches_reference() {
    let mut rng = rng();
    let rounds = 3;
    let lr: Vec<(Affine, Affine)> =
        (0..rounds).map(|_| (random_point(&mut rng), random_point(&mut rng))).collect();
    let pres: Vec<Scalar> = (0..rounds).map(|_| Scalar::from(random_u128(&mut rng))).collect();
    let mut acc = ark_pallas::Projective::zero();
    for (&(l, r), pre) in lr.iter().zip(&pres) {
        acc += l.into_group() * pre.inverse().unwrap() + r.into_group() * pre;
    }
    let lib_lr: Vec<(Point<Fp>, Point<Fp>)> = lr.iter().map(|(l, r)| (point(*l), point(*r))).collect();
    let lib_pres: Vec<Fq> = pres.iter().map(|p| fq(*p)).collect();
    assert_eq!(
        bullet_reduce_terms::<Pallas>(&lib_lr, &lib_pres),
        Some(point(acc.into_affine()))
    );
}

#[test]
fn bullet_reduce_challenges_match_reference() {
    let mut rng = rng();
    let lr: Vec<(Point<Fp>, Point<Fp>)> = (0..3)
        .map(|_| (point(random_point(&mut rng)), point(random_point(&mut rng))))
        .collect();
    let mut s = Mirror::new();
    let expected: Vec<Fp> = lr
        .iter()
        .map(|(l, r)| {
            s.absorb(l.x);
            s.absorb(l.y);
            s.absorb(r.x);
            s.absorb(r.y);
            lowest_128(&s.squeeze())
        })
        .collect();
    let mut ops = Vec::new();
    let got = bullet_reduce_challenges(&mut ops, &toy_sponge, &lr);
    assert_eq!(got[0], expected[0], "round 0");
    assert_eq!(got[1], expected[1], "round 1");
    assert_eq!(got[2], expected[2], "round 2");
    assert_eq!(ops.len(), 15);
}

#[test]
fn ipa_challenges_transcript_match_reference() {
    let mut rng = rng();
    let lr: Vec<(Point<Fp>, Point<Fp>)> = (0..2)
        .map(|_| (point(random_point(&mut rng)), point(random_point(&mut rng))))
        .collect();
    let cip = random_u128(&mut rng);
    let delta = point(random_point(&mut rng));
    let group_map = |t: Fp| Point { x: t.add(&from_u64(1)), y: t.mul(&t) };

    let mut s = Mirror::new();
    s.absorb(from_u128(cip));
    let u = group_map(s.squeeze());
    let pre: Vec<Fp> = lr
        .iter()
        .map(|(l, r)| {
            s.absorb(l.x);
            s.absorb(l.y);
            s.absorb(r.x);
            s.absorb(r.y);
            lowest_128(&s.squeeze())
        })
        .collect();
    s.absorb(delta.x);
    s.absorb(delta.y);
    let c = lowest_128(&s.squeeze());

    let mut ops = Vec::new();
    let got = ipa_challenges_transcript(&mut ops, &toy_sponge, &group_map, &type1(cip), &lr, &delta);
    assert_eq!(got.u, u, "u = group_map(squeeze)");
    assert_eq!(got.prechallenges[0], pre[0], "prechallenge 0");
    assert_eq!(got.prechallenges[1], pre[1], "prechallenge 1");
    assert_eq!(got.c, c, "c");
}

#[test]
fn check_bulletproof_equation_accepts_and_rejects() {
    let mut rng = rng();
    let combined_polynomial = random_point(&mut rng);
    let lr_prod = random_point(&mut rng);
    let u = random_point(&mut rng);
    let cpc = random_point(&mut rng);
    let h = random_point(&mut rng);
    let [cip, b, z1, z2] = [(); 4].map(|_| random_u128(&mut rng));
    let c = Scalar::from(random_u128(&mut rng));

    let b_u = scale_fast_ref(u, b);
    let g_plus_b_u = (cpc + b_u).into_affine();
    let z1_term = scale_fast_ref(g_plus_b_u, z1);
    let z2_h = scale_fast_ref(h, z2);
    let rhs = (z1_term + z2_h).into_affine();
    let uc = scale_fast_ref(u, cip);
    let q = (combined_polynomial + uc + lr_prod).into_affine();
    let cq = (q * c).into_affine();
    let delta_ok = (rhs.into_group() - cq.into_group()).into_affine();
    let delta_bad = (delta_ok + Affine::generator()).into_affine();

    assert_eq!(
        prepare_bulletproof_q::<Pallas>(
            &point(combined_polynomial),
            &point(lr_prod),
            &point(u),
            &type1(cip),
            OTHER_FIELD_BITS,
        ),
        Some(point(q))
    );
    for (delta, expected) in [(delta_ok, true), (delta_bad, false)] {
        let got = check_bulletproof_equation::<Pallas>(
            &point(combined_polynomial),
            &point(lr_prod),
            &point(u),
            &type1(cip),
            &type1(b),
            &type1(z1),
            &type1(z2),
            &fq(c),
            &point(delta),
            &point(cpc),
            &point(h),
            OTHER_FIELD_BITS,
        );
        assert_eq!(got, Some(expected), "equal_g mismatch (expected {expected})");
        let from_q = check_bulletproof_equation_from_q::<Pallas>(
            &point(q),
            &point(u),
            &type1(b),
            &type1(z1),
            &type1(z2),
            &fq(c),
            &point(delta),
            &point(cpc),
            &point(h),
            OTHER_FIELD_BITS,
        );
        assert_eq!(from_q, Some(expected));
    }
}

fn reduce_chunks_ref(comm: &[Affine], scale: u128) -> Affine {
    let n = comm.len();
    let mut res = comm[n - 1].into_group();
    for c in comm[..n - 1].iter().rev() {
        res = *c + scale_fast_ref(res.into_affine(), scale);
    }
    res.into_affine()
}

#[test]
fn ft_comm_matches_reference() {
    let mut rng = rng();
    let sigma_comm_last: Vec<Affine> = (0..1).map(|_| random_point(&mut rng)).collect();
    let t_comm: Vec<Affine> = (0..7).map(|_| random_point(&mut rng)).collect();
    let perm = random_u128(&mut rng);
    let zeta_to_srs_length = random_u128(&mut rng);
    let zeta_to_domain_size = random_u128(&mut rng);

    let sigma = reduce_chunks_ref(&sigma_comm_last, zeta_to_srs_length);
    let f_comm = scale_fast_ref(sigma, perm);
    let chunked_t = reduce_chunks_ref(&t_comm, zeta_to_srs_length);
    let t_scaled = scale_fast_ref(chunked_t, zeta_to_domain_size);
    let expected = (f_comm + chunked_t - t_scaled).into_affine();

    let lib = |ps: &[Affine]| -> Vec<Point<Fp>> { ps.iter().map(|p| point(*p)).collect() };
    assert_eq!(
        ft_comm::<Pallas>(
            &lib(&sigma_comm_last),
            &lib(&t_comm),
            &type1(perm),
            &type1(zeta_to_srs_length),
            &type1(zeta_to_domain_size),
            OTHER_FIELD_BITS,
        ),
        Some(point(expected))
    );
}

#[test]
fn shifted_scalars_stand_for_their_scalar() {
    let two_255 = Scalar::from(2u64).pow([255u64]);
    let t1: Fq = type1(21).to_scalar(255);
    assert_eq!(t1, fq(Scalar::from(43u64) + two_255));
    let even: Fq = ShiftedScalar::Type2(from_u64::<Fp>(21), false).to_scalar(255);
    assert_eq!(even, fq(Scalar::from(42u64) + two_255));
    let odd: Fq = ShiftedScalar::Type2(from_u64::<Fp>(21), true).to_scalar(255);
    assert_eq!(odd, fq(Scalar::from(43u64) + two_255));
    assert_eq!(
        ShiftedScalar::Type2(from_u64::<Fp>(21), true).absorbed(),
        vec![from_u64::<Fp>(21), from_u64::<Fp>(1)]
    );
}
