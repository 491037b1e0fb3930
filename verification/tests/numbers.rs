//! Numerals in double precision, held against the doubles of the language.

use codepolicy::bignum::{big, compare_big, scale, shift, shift_ten};
use codepolicy::number::{parse_number, whole};
use codepolicy::text::{decimal, Order};

/// The place of a double in the order of doubles.
fn place(x: f64) -> Option<i64> {
    if x.is_nan() {
        None
    } else {
        let bits = (x.abs()).to_bits() as i64;
        Some(if x.is_sign_negative() { -bits } else { bits })
    }
}

fn agrees(s: &str) {
    let mine = parse_number(s);
    match s.parse::<f64>() {
        Ok(x) => assert_eq!(mine.map(|n| n.place), Some(place(x)), "{s}"),
        Err(_) => assert!(mine.is_none(), "{s}"),
    }
}

#[test]
fn numerals_round_to_the_nearest_double() {
    for s in [
        "0", "-0", "+0.0", "1", "-1", "2.5", "200", "0.1", "0.2", "0.3", "1e0", "1E5", "1e+5", "1e-5",
        "123456789012345678901234567890", "9007199254740992", "9007199254740993", "9007199254740995",
        "1.7976931348623157e308", "1.7976931348623158e308", "1.7976931348623159e308", "1e309", "1e400",
        "4.9e-324", "2.4703282292062327e-324", "2.4703282292062328e-324", "2.5e-324", "1e-400",
        "2.2250738585072014e-308", "2.2250738585072011e-308", "1e-100000", "1e100000",
        "0e99999999999999999999999999999999999999", "1e99999999999999999999999999999999999999",
        "1e-99999999999999999999999999999999999999", "0.000000000000000000000000000000000001",
        "1000000000000000000000000000000000000e-36", "5.", ".5", "00012.500", "3.14159265358979323846264338327950288",
    ] {
        agrees(s);
    }
}

#[test]
fn words_and_bad_numerals_read_as_the_language_reads_them() {
    for s in [
        "inf", "INF", "-Infinity", "+infinity", "nan", "NaN", "-nan", "", "+", "-", ".", "e5", "1e", "1e+",
        "1.2.3", "1 ", " 1", "0x10", "1_000", "--1", "+-1", "1e5.5", "infin", "na", "1f", "٣", "1e--5", "-.5e-2",
    ] {
        agrees(s);
    }
}

#[test]
fn ties_go_to_the_even_double() {
    // Halfway between 1 and the next double, and halfway between that and the one after.
    agrees("1.00000000000000011102230246251565404236316680908203125");
    agrees("1.00000000000000033306690738754696212708950042724609375");
    agrees("1.000000000000000111022302462515654042363166809082031250000000001");
}

#[test]
fn whole_numbers_agree_with_their_numerals() {
    for n in [0u64, 1, 2, 3, 7, 10, 255, 4294967295, 9007199254740991, 9007199254740993, u64::MAX] {
        assert_eq!(whole(n).place, place(n as f64), "{n}");
        assert_eq!(Some(whole(n)), parse_number(&decimal(n as u128)));
    }
    assert_eq!(decimal(u128::MAX), u128::MAX.to_string());
    assert_eq!(decimal(0), "0");
}

#[test]
fn large_numbers_multiply_and_compare() {
    let a = shift(big(3), 100);
    let b = scale(&shift(big(3), 99), 2, 0);
    assert_eq!(compare_big(&a, &b), Order::Equal);
    let c = scale(&b, 1, 1);
    assert_eq!(compare_big(&a, &c), Order::Less);
    assert_eq!(compare_big(&c, &a), Order::Greater);
    // 10^20 = 100000000000000000000 > 2^64
    assert_eq!(compare_big(&shift_ten(big(1), 20), &shift(big(1), 64)), Order::Greater);
    assert_eq!(compare_big(&shift_ten(big(1), 19), &shift(big(1), 64)), Order::Less);
}
