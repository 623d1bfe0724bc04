use ark_ec::{AffineRepr, CurveGroup};
use ark_ff::{BigInt, Field as _, One as _, PrimeField as _};
use ark_poly::{EvaluationDomain, Radix2EvaluationDomain};
use pickles::bench::{
    chain, enter, factor, lanes, lazy_chain, lazy_is_zero, lazy_lanes, lazy_self_check,
    msm_repetitions, msm_self_check, msm_size, point_chain, squaring_chain, transform_repetitions,
    transform_self_check, workload, Workload, CHECKED_STEPS, FACTOR,
};
use pickles::curve::{Point, Vesta};
use pickles::domain::FftField;
use pickles::fft::{bit_reverse, fft_in_place, twiddles};
use pickles::field::{from_u64, Fp, Fq, PrimeField};
use pickles::lazy29::{from_u64x4, ge, mont_mul, to_u64x4, P29};

fn y() -> ark_pallas::Fq {
    ark_pallas::Fq::from(FACTOR)
}

fn fp(x: ark_pallas::Fq) -> Fp {
    Fp::from_limbs(x.into_bigint().0).unwrap()
}

fn r261() -> ark_pallas::Fq {
    ark_pallas::Fq::from(2u64).pow([261u64])
}

#[test]
fn modes_name_their_workloads() {
    assert_eq!(workload(0), Workload::Chain);
    assert_eq!(workload(1), Workload::Lanes);
    assert_eq!(workload(6), Workload::LazyChain);
    assert_eq!(workload(7), Workload::LazyLanes);
    assert_eq!(workload(8), Workload::Transform { log2: 16, by_arkworks: true });
    assert_eq!(workload(9), Workload::Transform { log2: 16, by_arkworks: false });
    assert_eq!(workload(11), Workload::ParallelRegion);
    assert_eq!(workload(13), Workload::Transform { log2: 12, by_arkworks: true });
    assert_eq!(workload(14), Workload::Transform { log2: 12, by_arkworks: false });
    assert_eq!(workload(15), Workload::Permutation);
    assert_eq!(workload(16), Workload::MultiScalarSum { affine_buckets: false });
    assert_eq!(workload(17), Workload::MultiScalarSum { affine_buckets: true });
    assert_eq!(workload(1000), Workload::Lanes);
}

#[test]
fn chains_match_arkworks() {
    assert_eq!(factor(), fp(y()));
    let start = ark_pallas::Fq::one() + y();
    assert_eq!(chain(0), fp(start));
    assert_eq!(chain(1000), fp(start * y().pow([1000u64])));
    let four = ark_pallas::Fq::from(4u64) + ark_pallas::Fq::from(10u64) * y();
    assert_eq!(lanes(1003), fp(four * y().pow([250u64])));
}

#[test]
fn lazy_chains_match_arkworks() {
    let start = ark_pallas::Fq::one() + y();
    let x29 = lazy_self_check().unwrap();
    let after = start * y().pow([u64::from(CHECKED_STEPS)]);
    assert_eq!(to_u64x4(&x29), (after * r261()).into_bigint().0);
    let more = lazy_chain(&x29, 100);
    assert_eq!(to_u64x4(&more), (after * y().pow([100u64]) * r261()).into_bigint().0);
    assert!(!lazy_is_zero(&more));
    assert!(lazy_is_zero(&[0; 9]));
    let (a, b, c, d) = lazy_lanes(41);
    let p = y().pow([10u64]) * r261();
    assert_eq!(to_u64x4(&a), (start * p).into_bigint().0);
    assert_eq!(to_u64x4(&b), ((y() + y()) * p).into_bigint().0);
    assert_eq!(to_u64x4(&c), (y() * y() * p).into_bigint().0);
    assert_eq!(to_u64x4(&d), ((y() * y() + y()) * p).into_bigint().0);
}

#[test]
fn limbs_of_29_bits_round_trip() {
    let l = [u64::MAX, 1, 0x1234_5678_9abc_def0, u64::MAX];
    assert_eq!(to_u64x4(&from_u64x4(&l)), l);
    assert_eq!(to_u64x4(&P29), pickles::field::fp_modulus_limbs());
    assert!(ge(&P29, &P29));
    assert!(!ge(&[0; 9], &P29));
    // one represents itself: 2^261 * 2^261 / 2^261
    let one = enter(&from_u64(1));
    assert_eq!(mont_mul(&one, &one), one);
}

#[test]
fn the_squaring_chain_squares_and_adds() {
    let mut x = ark_pallas::Fq::one() + y();
    let got = squaring_chain(5);
    for item in got {
        x = x.square() + y();
        assert_eq!(item, fp(x));
    }
}

#[test]
fn transforms_match_arkworks() {
    let out = transform_self_check(6).unwrap();
    let domain = Radix2EvaluationDomain::<ark_pallas::Fq>::new(64).unwrap();
    let coeffs: Vec<ark_pallas::Fq> = squaring_chain(64)
        .iter()
        .map(|c| ark_pallas::Fq::from_bigint(BigInt(c.to_limbs())).unwrap())
        .collect();
    let expected: Vec<Fp> = domain.fft(&coeffs).into_iter().map(fp).collect();
    assert_eq!(out, expected);
    assert_eq!(transform_repetitions(0), 1);
    assert_eq!(transform_repetitions(9), 9);
}

#[test]
fn a_transform_of_four_is_written_out() {
    // 1 + 2 x + 3 x^2 + 4 x^3 at 1 and at -1
    let mut a: Vec<Fp> = (1..=4).map(from_u64).collect();
    let w = Fp::group_generator(4);
    let tw = twiddles(&w, 4);
    fft_in_place(&mut a, &tw, &w);
    assert_eq!(a[0], from_u64(10));
    assert_eq!(a[2], pickles::field::neg(&from_u64(2)));
    let mut order = vec![0u8, 1, 2, 3, 4, 5, 6, 7];
    bit_reverse(&mut order, 3);
    assert_eq!(order, vec![0, 4, 2, 6, 1, 5, 3, 7]);
    bit_reverse(&mut order, 3);
    assert_eq!(order, vec![0, 1, 2, 3, 4, 5, 6, 7]);
}

#[test]
fn sums_are_sized_and_repeated() {
    assert_eq!(msm_size(0), 1);
    assert_eq!(msm_size(10), 1024);
    assert_eq!(msm_size(18), 1 << 18);
    assert_eq!(msm_size(u32::MAX), 1 << 18);
    assert_eq!(msm_repetitions(1), 1 << 21);
    assert_eq!(msm_repetitions(1 << 18), 8);
    assert_eq!(msm_repetitions(1 << 30), 1);
}

#[test]
fn sums_of_the_point_chain_agree() {
    let g = ark_vesta::Affine::generator();
    let lib = |p: ark_vesta::Affine| Point {
        x: Fq::from_limbs(p.x.into_bigint().0).unwrap(),
        y: Fq::from_limbs(p.y.into_bigint().0).unwrap(),
    };
    let points = point_chain(&lib(g), 70).unwrap();
    // 1, 2 (1 + 2), 2 (6 + 2)
    assert_eq!(points[1], lib((g * ark_vesta::Fr::from(6u64)).into_affine()));
    assert_eq!(points[2], lib((g * ark_vesta::Fr::from(16u64)).into_affine()));
    let scalars = squaring_chain(70);
    assert!(msm_self_check::<Vesta>(&points, &scalars));
    assert!(msm_self_check::<Vesta>(&vec![], &vec![]));
}
