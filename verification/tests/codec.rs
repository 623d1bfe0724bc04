use pickles::codec::{
    field_from_decimal, field_to_decimal, push_u64_le, u64_from_le, u64_to_decimal,
};
use pickles::field::{from_u64, neg, Fp, Fq};

const P_MINUS_ONE: &str =
    "28948022309329048855892746252171976963363056481941560715954676764349967630336";

#[test]
fn decimals_round_trip() {
    let top: Fp = neg(&from_u64(1));
    assert_eq!(field_to_decimal(&top), P_MINUS_ONE);
    assert_eq!(field_from_decimal::<Fp>(P_MINUS_ONE), Some(top));
    assert_eq!(field_to_decimal(&from_u64::<Fq>(0)), "0");
    assert_eq!(u64_to_decimal(u64::MAX), "18446744073709551615");
}

#[test]
fn decimals_out_of_range_are_refused() {
    let p = "28948022309329048855892746252171976963363056481941560715954676764349967630337";
    assert_eq!(field_from_decimal::<Fp>(p), None);
    // the same number is below the other prime
    assert!(field_from_decimal::<Fq>(p).is_some());
    assert_eq!(field_from_decimal::<Fp>(""), None);
    assert_eq!(field_from_decimal::<Fp>("-1"), None);
    assert_eq!(field_from_decimal::<Fp>("1 "), None);
    assert_eq!(field_from_decimal::<Fp>(&"9".repeat(200)), None);
    assert_eq!(field_from_decimal::<Fp>("007"), Some(from_u64(7)));
}

#[test]
fn numbers_are_little_endian() {
    let mut out = vec![9u8];
    push_u64_le(&mut out, 0x0102_0304_0506_0708);
    assert_eq!(out, vec![9, 8, 7, 6, 5, 4, 3, 2, 1]);
    assert_eq!(u64_from_le(&out[1..]), 0x0102_0304_0506_0708);
}
