use ark_ec::{AffineRepr, CurveGroup};
use ark_ff::{Field as _, PrimeField as _, UniformRand};
use rand_chacha::rand_core::SeedableRng;
use pickles::curve::{
    add_elements, add_fast, is_on_curve, msm, negate, Curve, LengthMismatch, Pallas, Point, Vesta,
};
use pickles::domain::{floor_log2, power_of_two, radix2_domain, FftField};
use pickles::expr_eval::pow_circuit;
use pickles::field::{div, from_u128, from_u64, neg, Fp, Fq, PrimeField};

fn fp(x: ark_pallas::Fq) -> Fp {
    Fp::from_limbs(x.into_bigint().0).unwrap()
}

fn fq(x: ark_pallas::Fr) -> Fq {
    Fq::from_limbs(x.into_bigint().0).unwrap()
}

fn point(p: ark_pallas::Affine) -> Point<Fp> {
    Point { x: fp(p.x), y: fp(p.y) }
}

fn vesta_point(p: ark_vesta::Affine) -> Point<Fq> {
    Point {
        x: Fq::from_limbs(p.x.into_bigint().0).unwrap(),
        y: Fq::from_limbs(p.y.into_bigint().0).unwrap(),
    }
}

fn rng() -> rand_chacha::ChaCha20Rng {
    rand_chacha::ChaCha20Rng::seed_from_u64(7)
}

#[test]
fn field_operations_match_arkworks() {
    let mut rng = rng();
    for _ in 0..200 {
        let (a, b) = (ark_pallas::Fq::rand(&mut rng), ark_pallas::Fq::rand(&mut rng));
        assert_eq!(fp(a).add(&fp(b)), fp(a + b));
        assert_eq!(fp(a).sub(&fp(b)), fp(a - b));
        assert_eq!(fp(a).mul(&fp(b)), fp(a * b));
        assert_eq!(neg(&fp(a)), fp(-a));
        assert_eq!(fp(a).inverse(), Some(fp(a.inverse().unwrap())));
        assert_eq!(div(&fp(a), &fp(b)), Some(fp(a / b)));
        assert_eq!(pow_circuit(&fp(a), 12345), fp(a.pow([12345u64])));
        let (c, d) = (ark_pallas::Fr::rand(&mut rng), ark_pallas::Fr::rand(&mut rng));
        assert_eq!(fq(c).add(&fq(d)), fq(c + d));
        assert_eq!(fq(c).sub(&fq(d)), fq(c - d));
        assert_eq!(fq(c).mul(&fq(d)), fq(c * d));
        assert_eq!(fq(c).inverse(), Some(fq(c.inverse().unwrap())));
    }
    assert_eq!(from_u64::<Fp>(0).inverse(), None);
    assert_eq!(div(&from_u64::<Fq>(3), &from_u64::<Fq>(0)), None);
    assert_eq!(from_u128::<Fp>(u128::MAX), fp(ark_pallas::Fq::from(u128::MAX)));
}

#[test]
fn two_inverts_to_half_of_the_prime_plus_one() {
    let half: Fp = from_u64::<Fp>(2).inverse().unwrap();
    assert_eq!(
        half.to_limbs(),
        [0xcc96987680000001, 0x11234c7e04a67c8d, 0, 0x2000000000000000]
    );
}

#[test]
fn limbs_at_or_above_the_prime_are_refused() {
    let p = pickles::field::fp_modulus_limbs();
    assert!(Fp::from_limbs(p).is_none());
    assert!(Fp::from_limbs([p[0] - 1, p[1], p[2], p[3]]).is_some());
    assert!(Fq::from_limbs(pickles::field::fq_modulus_limbs()).is_none());
}

#[test]
fn addition_matches_arkworks() {
    let mut rng = rng();
    let p = ark_pallas::Affine::rand(&mut rng);
    let q = ark_pallas::Affine::rand(&mut rng);
    assert_eq!(add_fast(&point(p), &point(q)), Some(point((p + q).into_affine())));
    assert_eq!(add_fast(&point(p), &point(p)), Some(point((p + p).into_affine())));
    assert_eq!(add_fast(&point(p), &negate(&point(p))), None);
    assert_eq!(add_elements(&None, &Some(point(p))), Some(point(p)));
    assert_eq!(add_elements(&Some(point(p)), &None), Some(point(p)));
    assert_eq!(add_elements::<Fp>(&None, &None), None);
    assert!(is_on_curve(&point(p)));
    let off = Point { x: point(p).x, y: point(q).y };
    assert!(!is_on_curve(&off));
}

#[test]
fn multiples_and_sums_match_arkworks() {
    let mut rng = rng();
    let points: Vec<ark_pallas::Affine> = (0..5).map(|_| ark_pallas::Affine::rand(&mut rng)).collect();
    let scalars: Vec<ark_pallas::Fr> = (0..5).map(|_| ark_pallas::Fr::rand(&mut rng)).collect();
    assert_eq!(
        Pallas::scale(&point(points[0]), &fq(scalars[0])),
        Some(point((points[0] * scalars[0]).into_affine()))
    );
    assert_eq!(Pallas::scale(&point(points[0]), &from_u64(0)), None);
    let expected: ark_pallas::Projective = points.iter().zip(&scalars).map(|(p, k)| *p * *k).sum();
    let lib_points: Vec<Option<Point<Fp>>> = points.iter().map(|p| Some(point(*p))).collect();
    let lib_scalars: Vec<Fq> = scalars.iter().map(|k| fq(*k)).collect();
    assert_eq!(
        msm::<Pallas>(&lib_points, &lib_scalars),
        Ok(Some(point(expected.into_affine())))
    );
    assert_eq!(
        msm::<Pallas>(&lib_points, &lib_scalars[..4].to_vec()),
        Err(LengthMismatch { points: 5, scalars: 4 })
    );
    assert_eq!(msm::<Pallas>(&vec![], &vec![]), Ok(None));
    // the identity adds nothing, whatever its scalar
    let mut with_identity = lib_points.clone();
    with_identity.insert(2, None);
    let mut more_scalars = lib_scalars.clone();
    more_scalars.insert(2, from_u64(77));
    assert_eq!(
        msm::<Pallas>(&with_identity, &more_scalars),
        Ok(Some(point(expected.into_affine())))
    );
    assert_eq!(msm::<Pallas>(&vec![None, None], &more_scalars[..2].to_vec()), Ok(None));

    let p = ark_vesta::Affine::rand(&mut rng);
    let k = ark_vesta::Fr::rand(&mut rng);
    let scalar = Fp::from_limbs(k.into_bigint().0).unwrap();
    assert_eq!(
        Vesta::scale(&vesta_point(p), &scalar),
        Some(vesta_point((p * k).into_affine()))
    );
    assert_eq!(
        msm::<Vesta>(&vec![Some(vesta_point(p)), None], &vec![scalar, scalar]),
        Ok(Some(vesta_point((p * k).into_affine())))
    );
}

#[test]
fn the_generator_doubles_to_the_known_point() {
    // twice (-1, 2): the tangent has slope 3 / 4
    let g = point(ark_pallas::Affine::generator());
    let slope = div(&from_u64::<Fp>(3), &from_u64::<Fp>(4)).unwrap();
    let two = add_fast(&g, &g).unwrap();
    assert_eq!(two.x, slope.mul(&slope).add(&from_u64(2)));
    assert_eq!(Pallas::scale(&g, &from_u64(2)), Some(two));
}

#[test]
fn domain_generators_have_the_order_of_their_domain() {
    for log2 in [1u32, 5, 16] {
        let d = radix2_domain::<Fp>(log2);
        assert_eq!(d.size, 1u64 << log2);
        assert_eq!(pow_circuit(&d.group_gen, d.size), from_u64(1));
        assert_eq!(pow_circuit(&d.group_gen, d.size / 2), neg(&from_u64(1)));
        let g = <ark_pallas::Fr as ark_ff::FftField>::get_root_of_unity(1 << log2).unwrap();
        assert_eq!(Fq::group_generator(1 << log2), fq(g));
        // the power of the generator 5 whose exponent is the index of the subgroup
        let mut index = ark_pallas::Fq::MODULUS;
        index.0[0] -= 1;
        let five = ark_pallas::Fq::from(5u64);
        assert_eq!(Fp::group_generator(1 << log2), fp(five.pow(index >> log2)));
    }
    assert_eq!(power_of_two(20), 1 << 20);
    assert_eq!(floor_log2(1), 0);
    assert_eq!(floor_log2(65535), 15);
    assert_eq!(floor_log2(u64::MAX), 63);
}
