use ark_ec::{AffineRepr, CurveGroup};
use ark_ff::PrimeField as _;
use pickles::common::{
    actual_wrap_domain_size, cache_dir, decode_lagrange_basis_jsoo, decode_lagrange_basis_raw,
    decode_srs_jsoo, decode_srs_raw, encode_lagrange_basis_jsoo, encode_lagrange_basis_raw,
    encode_srs_jsoo, encode_srs_raw, export_lagrange_basis_jsoo, export_tick_srs_jsoo,
    export_tick_srs_raw, export_tock_srs_jsoo, export_tock_srs_raw, lagrange_cache_file, lagrange_from_cache_or_compute,
    new_store, point_from_jsoo, point_to_jsoo, seed_lagrange_basis_jsoo, seed_tick_srs_jsoo,
    seed_tick_srs_raw, seed_tock_srs_raw, set_disk_cache_enabled, tick_srs, tick_warm_domains,
    tock_srs, tock_warm_domains, wrap_domain_log2, JsooComm, JsooPoint, PolyComm, Srs,
    TICK_SRS_SIZE, TOCK_SRS_SIZE,
};
use pickles::composition_types::ProofsVerified;
use pickles::curve::Point;
use pickles::field::{Fp, Fq, PrimeField};

/// The multiple `k` of the Vesta generator.
fn vesta(k: u64) -> Option<Point<Fq>> {
    let p = (ark_vesta::Affine::generator() * ark_vesta::Fr::from(k)).into_affine();
    Some(Point {
        x: Fq::from_limbs(p.x.into_bigint().0).unwrap(),
        y: Fq::from_limbs(p.y.into_bigint().0).unwrap(),
    })
}

/// The multiple `k` of the Pallas generator.
fn pallas(k: u64) -> Option<Point<Fp>> {
    let p = (ark_pallas::Affine::generator() * ark_pallas::Fr::from(k)).into_affine();
    Some(Point {
        x: Fp::from_limbs(p.x.into_bigint().0).unwrap(),
        y: Fp::from_limbs(p.y.into_bigint().0).unwrap(),
    })
}

fn tiny() -> (Vec<Option<Point<Fq>>>, Option<Point<Fq>>) {
    ((1..=4).map(vesta).collect(), vesta(77))
}

#[test]
fn wrap_domain_log2_matches_ocaml() {
    assert_eq!(wrap_domain_log2(0), 13);
    assert_eq!(wrap_domain_log2(1), 14);
    assert_eq!(wrap_domain_log2(2), 15);
}

#[test]
fn actual_wrap_domain_size_matches_ocaml() {
    assert_eq!(actual_wrap_domain_size(13), ProofsVerified::N0);
    assert_eq!(actual_wrap_domain_size(14), ProofsVerified::N1);
    assert_eq!(actual_wrap_domain_size(15), ProofsVerified::N2);
}

#[test]
fn wrap_domains_invert_each_other() {
    for width in 0..3usize {
        assert_eq!(actual_wrap_domain_size(wrap_domain_log2(width)).to_usize(), width);
    }
}

#[test]
fn jsoo_cache_payloads_round_trip() {
    let (g, h) = tiny();
    let points = encode_srs_jsoo(&g, &h);
    assert_eq!(points.len(), 5);
    match &points[0] {
        JsooPoint::Point { x, .. } => assert!(x.bytes().all(|b| b.is_ascii_digit())),
        JsooPoint::Infinity(_) => panic!("the blinding point is finite"),
    }
    let (g2, h2) = decode_srs_jsoo::<Fq>(&points).unwrap();
    assert_eq!(g, g2);
    assert_eq!(h, h2);

    let basis: Vec<PolyComm<Fq>> = g.iter().map(|p| PolyComm { chunks: vec![*p] }).collect();
    let comms = encode_lagrange_basis_jsoo(&basis);
    assert_eq!(comms[0].shifted.len(), 1);
    let basis2 = decode_lagrange_basis_jsoo::<Fq>(&comms, 4).unwrap();
    assert_eq!(basis.len(), basis2.len());
    for (a, b) in basis.iter().zip(&basis2) {
        assert_eq!(a.chunks, b.chunks);
    }
    assert!(decode_lagrange_basis_jsoo::<Fq>(&comms, 5).is_none());
}

#[test]
fn jsoo_points_are_decimals_or_the_word_infinity() {
    let p = pallas(1).unwrap();
    match point_to_jsoo(&Some(p)) {
        JsooPoint::Point { x, y } => {
            // the Pallas generator is (-1, 2)
            assert_eq!(
                x,
                "28948022309329048855892746252171976963363056481941560715954676764349967630336"
            );
            assert_eq!(y, "2");
        }
        JsooPoint::Infinity(_) => panic!("the generator is finite"),
    }
    let infinity = point_to_jsoo::<Fp>(&None);
    assert_eq!(point_from_jsoo::<Fp>(&infinity), Some(None));
    let broken = JsooPoint::Point {
        x: "12x".to_string(),
        y: "2".to_string(),
    };
    assert_eq!(point_from_jsoo::<Fp>(&broken), None);
    let not_reduced = JsooPoint::Point {
        x: "28948022309329048855892746252171976963363056481941560715954676764349967630337"
            .to_string(),
        y: "2".to_string(),
    };
    assert_eq!(point_from_jsoo::<Fp>(&not_reduced), None);
}

#[test]
fn raw_payloads_round_trip() {
    let (mut g, h) = tiny();
    g[2] = None;
    let bytes = encode_srs_raw(&g, &h);
    let (g2, h2) = decode_srs_raw::<Fq>(&bytes).unwrap();
    assert_eq!(g, g2);
    assert_eq!(h, h2);
    assert!(decode_srs_raw::<Fq>(&bytes[..bytes.len() - 1]).is_none());
    let mut magic = bytes.clone();
    magic[0] ^= 1;
    assert!(decode_srs_raw::<Fq>(&magic).is_none());

    let basis: Vec<PolyComm<Fq>> = g.iter().map(|p| PolyComm { chunks: vec![*p] }).collect();
    let bytes = encode_lagrange_basis_raw(&basis).unwrap();
    let basis2 = decode_lagrange_basis_raw::<Fq>(&bytes, 4).unwrap();
    for (a, b) in basis.iter().zip(&basis2) {
        assert_eq!(a.chunks, b.chunks);
    }
    assert!(decode_lagrange_basis_raw::<Fq>(&bytes, 3).is_none());
    for i in 0..4 {
        let mut magic = bytes.clone();
        magic[i] ^= 1;
        assert!(decode_lagrange_basis_raw::<Fq>(&magic, 4).is_none());
    }
    let two_chunks = vec![PolyComm {
        chunks: vec![vesta(1), vesta(2)],
    }];
    assert!(encode_lagrange_basis_raw(&two_chunks).is_none());
}

#[test]
fn arkworks_bytes_hold_the_coordinates_and_the_sign() {
    // one point: the magic, the number of points, the blinding point, the point
    let point = pallas(1).unwrap();
    let bytes = encode_srs_raw(&[Some(point)], &None);
    let last = &bytes[bytes.len() - 65..];
    let mut y = [0u8; 32];
    y[0] = 2;
    assert_eq!(&last[32..64], &y);
    assert_eq!(last[64], 0);
    let opposite = Point {
        x: point.x,
        y: pickles::field::neg(&point.y),
    };
    let bytes = encode_srs_raw(&[Some(opposite)], &None);
    assert_eq!(bytes[bytes.len() - 1], 128);
    let bytes = encode_srs_raw::<Fp>(&[None], &None);
    assert_eq!(bytes[bytes.len() - 1], 64);
}

#[test]
fn seeding_refuses_other_sizes_and_keeps_what_is_there() {
    let mut store = new_store();
    let (g, h) = tiny();
    assert!(!seed_tick_srs_jsoo(&mut store, &encode_srs_jsoo(&g, &h)));
    assert!(store.tick.is_none());
    assert!(!seed_tick_srs_raw(&mut store, &encode_srs_raw(&g, &h)));
    assert!(!seed_tock_srs_raw(&mut store, b"junk"));
    assert!(export_tick_srs_jsoo(&store).is_none());
    assert!(export_tick_srs_raw(&store).is_none());
    assert!(export_tock_srs_raw(&store).is_none());

    store.tick = Some(Srs::new(g.clone(), h));
    assert!(!seed_tick_srs_jsoo(&mut store, &[]));
    assert!(!seed_tick_srs_raw(&mut store, b"junk"));
    assert!(!seed_tick_srs_raw(&mut store, &encode_srs_raw(&g, &h)));
    assert_eq!(store.tick.as_ref().unwrap().g, g);
    assert_eq!(export_tick_srs_jsoo(&store).unwrap().len(), 5);
    assert_eq!(
        decode_srs_raw::<Fq>(&export_tick_srs_raw(&store).unwrap()).unwrap().0,
        g
    );
}

#[test]
fn counts_past_the_payload_are_refused() {
    let (g, h) = tiny();
    let mut store = new_store();
    store.tick = Some(Srs::new(g.clone(), h));
    let mut bytes = b"SRS2".to_vec();
    bytes.extend([0xff; 8]);
    bytes.push(0);
    assert!(!seed_tick_srs_raw(&mut store, &bytes));
    assert_eq!(store.tick.as_ref().unwrap().g, g);
    assert_eq!(store.tick.as_ref().unwrap().h, h);
    let broken = [JsooPoint::Infinity("infinity".to_string())];
    assert!(!seed_tick_srs_jsoo(&mut store, &broken));
    assert_eq!(store.tick.as_ref().unwrap().g, g);
    assert!(decode_srs_raw::<Fq>(&bytes).is_none());
}

#[test]
fn pieces_are_one_point_long() {
    let one = encode_lagrange_basis_raw(&[PolyComm { chunks: vec![vesta(1)] }]).unwrap();
    assert!(decode_lagrange_basis_raw::<Fq>(&one, 1).is_some());
    let point = one[12..].to_vec();
    let mut doubled = one.clone();
    doubled.extend(&point);
    assert!(decode_lagrange_basis_raw::<Fq>(&doubled, 1).is_none());
    let mut two = encode_srs_raw(&[vesta(1)], &vesta(2));
    assert!(decode_srs_raw::<Fq>(&two).is_some());
    two.extend(&point);
    two.extend(&point);
    assert!(decode_srs_raw::<Fq>(&two).is_none());
}

#[test]
fn exports_of_full_size_read_back() {
    let g: Vec<Option<Point<Fq>>> = vec![vesta(3); TICK_SRS_SIZE];
    let mut store = new_store();
    assert!(seed_tick_srs_raw(&mut store, &encode_srs_raw(&g, &vesta(5))));
    let bytes = export_tick_srs_raw(&store).unwrap();
    assert_eq!(&bytes[..4], b"SRS2");
    assert_eq!(bytes[4..12], 65536u64.to_le_bytes());
    assert_eq!(bytes.len(), 12 + 65 * 65537);
    assert_eq!(decode_srs_raw::<Fq>(&bytes).unwrap(), (g, vesta(5)));

    store.tock = Some(Srs::new(vec![pallas(7); TOCK_SRS_SIZE], pallas(8)));
    let points = export_tock_srs_jsoo(&store).unwrap();
    assert_eq!(points.len(), 32769);
    assert_eq!(points[0], point_to_jsoo(&pallas(8)));
    let (g, h) = decode_srs_jsoo::<Fp>(&points).unwrap();
    assert_eq!((g.len(), g[0], h), (TOCK_SRS_SIZE, pallas(7), pallas(8)));
    // what is there already stays, and a good payload is accepted all the same
    let other = encode_srs_raw(&vec![pallas(9); TOCK_SRS_SIZE], &pallas(8));
    assert!(seed_tock_srs_raw(&mut store, &other));
    assert_eq!(store.tock.as_ref().unwrap().g[0], pallas(7));
}

#[test]
fn seeding_takes_a_full_payload() {
    let g: Vec<Option<Point<Fp>>> = vec![pallas(3); TOCK_SRS_SIZE];
    let bytes = encode_srs_raw(&g, &pallas(5));
    let mut store = new_store();
    assert!(seed_tock_srs_raw(&mut store, &bytes));
    let srs = store.tock.as_ref().unwrap();
    assert_eq!(srs.g.len(), TOCK_SRS_SIZE);
    assert_eq!(srs.h, pallas(5));
    assert!(srs.lagrange_bases.is_empty());
    assert!(store.tick.is_none());
}

#[test]
fn bases_are_kept_under_their_size_and_only_once() {
    let create_tick = |n: usize| {
        assert_eq!(n, TICK_SRS_SIZE);
        Srs::new(vec![vesta(9)], vesta(10))
    };
    let create_tock = |n: usize| {
        assert_eq!(n, TOCK_SRS_SIZE);
        Srs::new(vec![pallas(9)], pallas(10))
    };
    let basis = |k: u64| -> Vec<JsooComm> {
        encode_lagrange_basis_jsoo(&[
            PolyComm { chunks: vec![vesta(k)] },
            PolyComm { chunks: vec![vesta(k + 1)] },
        ])
    };
    let mut store = new_store();
    assert!(!seed_lagrange_basis_jsoo(&mut store, "bn254", 1, &basis(1), &create_tick, &create_tock));
    assert!(!seed_lagrange_basis_jsoo(&mut store, "vesta", 2, &basis(1), &create_tick, &create_tock));
    assert!(store.tick.is_none());
    assert!(seed_lagrange_basis_jsoo(&mut store, "vesta", 1, &basis(1), &create_tick, &create_tock));
    assert!(seed_lagrange_basis_jsoo(&mut store, "vesta", 1, &basis(5), &create_tick, &create_tock));
    let out = export_lagrange_basis_jsoo(&mut store, "vesta", 1, &create_tick, &create_tock).unwrap();
    assert_eq!(point_from_jsoo::<Fq>(&out[0].shifted[0]), Some(vesta(1)));
    assert!(export_lagrange_basis_jsoo(&mut store, "vesta", 2, &create_tick, &create_tock).is_none());
    assert!(export_lagrange_basis_jsoo(&mut store, "pallas", 1, &create_tick, &create_tock).is_none());
    assert!(export_lagrange_basis_jsoo(&mut store, "other", 1, &create_tick, &create_tock).is_none());
    assert_eq!(tick_srs(&mut store, &create_tick).h, vesta(10));
    assert_eq!(tock_srs(&mut store, &create_tock).h, pallas(10));
}

#[test]
fn cache_directories_follow_the_settings() {
    let mut store = new_store();
    let s = |t: &str| Some(t.to_string());
    let explicit = cache_dir(&store, s("/a"), s("/b"), s("/c")).unwrap();
    assert_eq!(explicit.base, "/a");
    let user = cache_dir(&store, None, s("/b"), s("/c")).unwrap();
    assert_eq!((user.base.as_str(), user.below.len()), ("/b", 1));
    let home = cache_dir(&store, None, None, s("/c")).unwrap();
    assert_eq!(home.base, "/c");
    assert_eq!(home.below, vec![".cache".to_string(), "pickles-rs".to_string()]);
    assert!(cache_dir(&store, None, None, None).is_none());
    set_disk_cache_enabled(&mut store, false);
    assert!(cache_dir(&store, s("/a"), s("/b"), s("/c")).is_none());
    assert_eq!(
        lagrange_cache_file("pallas", 32768, 13),
        "lagrange-pallas-srs32768-d13.v2.bin"
    );
}

#[test]
fn a_good_cache_file_spares_the_computation() {
    let basis: Vec<PolyComm<Fp>> = vec![
        PolyComm { chunks: vec![pallas(2)] },
        PolyComm { chunks: vec![pallas(4)] },
    ];
    let file = encode_lagrange_basis_raw(&basis).unwrap();
    let compute = |n: usize| -> Vec<PolyComm<Fp>> {
        (0..n).map(|i| PolyComm { chunks: vec![pallas(i as u64 + 50)] }).collect()
    };
    let mut srs = Srs::new(vec![], None);
    assert!(lagrange_from_cache_or_compute(&mut srs, 1, Some(&file), &compute).is_none());
    assert_eq!(srs.lagrange_bases[&2][1].chunks, vec![pallas(4)]);

    let mut srs = Srs::new(vec![], None);
    let written = lagrange_from_cache_or_compute(&mut srs, 1, Some(b"junk"), &compute).unwrap();
    assert_eq!(srs.lagrange_bases[&2][0].chunks, vec![pallas(50)]);
    assert_eq!(
        decode_lagrange_basis_raw::<Fp>(&written, 2).unwrap()[1].chunks,
        vec![pallas(51)]
    );
}

#[test]
fn warm_domains_are_the_recursion_domains() {
    assert_eq!(tick_warm_domains(true), vec![14, 15, 16]);
    assert!(tick_warm_domains(false).is_empty());
    assert_eq!(tock_warm_domains(true), vec![13, 15]);
    assert_eq!(tock_warm_domains(false), vec![13]);
}
