use arb_strategy::decimal::{sum_all, Dec};
use arb_strategy::keyed::StrMap;
use arb_strategy::text::{contains, ends_with, starts_with, strip_prefix, strip_suffix};

#[test]
fn strmap_insert_get_remove() {
    let mut m: StrMap<i32> = StrMap::new();
    assert!(m.is_empty());
    m.insert("a".to_string(), 1);
    m.insert("b".to_string(), 2);
    m.insert("a".to_string(), 3);
    assert_eq!(m.len(), 2);
    assert_eq!(m.get("a"), Some(&3));
    assert_eq!(m.remove("a"), Some(3));
    assert_eq!(m.remove("a"), None);
    assert!(!m.contains_key("a"));
    assert!(m.contains_key("b"));
    m.clear();
    assert!(m.is_empty());
}

#[test]
fn text_tests() {
    assert!(starts_with("KRW-BTC", "KRW-"));
    assert!(!starts_with("KR", "KRW-"));
    assert!(ends_with("BTCUSDT", "USDT"));
    assert_eq!(strip_prefix("KRW-BTC", "KRW-"), Some("BTC".to_string()));
    assert_eq!(strip_suffix("BTCUSDT", "USDT"), Some("BTC".to_string()));
    assert_eq!(strip_suffix("USDT", "USDT"), Some(String::new()));
    assert_eq!(strip_prefix("BTC", "KRW-"), None);
    assert!(contains("abc", ""));
    assert!(contains("time_in_force", "in_f"));
    assert!(!contains("ioc", "iocx"));
}

#[test]
fn decimal_arithmetic() {
    let a = Dec::new(15, 1);
    let b = Dec::new(25, 2);
    assert_eq!(a.add(&b), Dec::new(175, 2));
    assert_eq!(a.sub(&b), Dec::new(125, 2));
    assert_eq!(a.mul(&b), Dec::new(375, 3));
    assert_eq!(a.mul(&b).scale(), 3);
    assert_eq!(Dec::zero().mul(&a).scale(), 0);
    assert!(b.lt(&a));
    assert_eq!(a.min(&b), b);
    assert_eq!(a.max(&b), a);
    // equal values: min keeps the receiver, max as well
    assert_eq!(Dec::new(10, 1).min(&Dec::new(1, 0)).scale(), 1);
    assert_eq!(Dec::new(10, 1).max(&Dec::new(1, 0)).scale(), 1);
    assert_eq!(Dec::new(7, 0).rem(&Dec::new(-2, 0)), Dec::new(1, 0));
    assert_eq!(Dec::new(-7, 0).rem(&Dec::new(2, 0)), Dec::new(-1, 0));
    assert_eq!(sum_all(&vec![a, b, Dec::new(-1, 0)]), Dec::new(75, 2));
}

#[test]
fn decimal_rounding_half_even() {
    assert_eq!(Dec::new(125, 3).round_dp(2), Dec::new(12, 2));
    assert_eq!(Dec::new(135, 3).round_dp(2), Dec::new(14, 2));
    assert_eq!(Dec::new(-135, 3).round_dp(2), Dec::new(-14, 2));
    assert_eq!(Dec::new(1251, 4).round_dp(2), Dec::new(13, 2));
    // fewer digits than asked: unchanged, scale kept
    assert_eq!(Dec::new(5, 1).round_dp(8).scale(), 1);
}

#[test]
fn decimal_inexact_product_is_rounded() {
    // 1/3 to 28 places squared needs rounding
    let third = Dec::from_i128_with_scale(3333333333333333333333333333, 28);
    let p = third.mul(&third);
    assert_eq!(p.scale(), 28);
    assert_eq!(p, Dec::from_i128_with_scale(1111111111111111111111111111, 28));
}
