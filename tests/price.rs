use bigdecimal::BigDecimal;
use std::str::FromStr;
use swap_indexer::price::{calculate_price, decimal_shift};

const Q96: &str = "79228162514264337593543950336";

fn value(text: &str) -> BigDecimal {
    BigDecimal::from_str(text).unwrap()
}

#[test]
fn zero_sqrt_price_gives_zero() {
    assert_eq!(calculate_price(b"0", 12), "0");
    assert_eq!(calculate_price(b"000", -12), "0");
    assert_eq!(calculate_price(b"0", 0), "0");
}

#[test]
fn nonzero_sqrt_price_gives_nonzero() {
    let p = calculate_price(b"1", 0);
    assert_ne!(p, "0");
    assert!(value(&p) > BigDecimal::from(0));
}

#[test]
fn unit_ratio_without_shift_is_one() {
    assert_eq!(value(&calculate_price(Q96.as_bytes(), 0)), BigDecimal::from(1));
}

#[test]
fn positive_shift_divides_the_price() {
    let p = value(&calculate_price(Q96.as_bytes(), 2));
    assert_eq!(p, value("0.01"));
}

#[test]
fn negative_shift_multiplies_the_price() {
    let p = value(&calculate_price(Q96.as_bytes(), -2));
    assert_eq!(p, BigDecimal::from(100));
}

#[test]
fn double_sqrt_price_quarters_the_price() {
    // (2 * 2^96) / 2^96 = 2, squared is 4, inverted is 0.25
    let p = value(&calculate_price(b"158456325028528675187087900672", 0));
    assert_eq!(p, value("0.25"));
}

#[test]
fn usdc_weth_pool_price_is_near_three_thousand() {
    let p = calculate_price(b"1446501726624926402955187851362304", -12);
    let x: f64 = p.parse().unwrap();
    assert!(x > 2000.0 && x < 4000.0);
    assert!((x - 3000.0).abs() < 0.001);
}

#[test]
fn shift_sign_inverts_consistently() {
    let up = value(&calculate_price(b"250000000000000000000000000000", 5));
    let down = value(&calculate_price(b"250000000000000000000000000000", -5));
    let ratio = (&down / &up).round(0);
    assert_eq!(ratio, BigDecimal::from(10_000_000_000u64));
}

#[test]
fn large_shifts_do_not_fault() {
    assert_ne!(calculate_price(Q96.as_bytes(), 300), "0");
    assert_ne!(calculate_price(Q96.as_bytes(), -300), "0");
    assert_ne!(calculate_price(b"1461446703485210103287273052203988822378723970341", i32::MIN), "0");
}

#[test]
fn shift_of_eighteen_and_six_decimals() {
    assert_eq!(decimal_shift(18, 6), 12);
    assert_eq!(decimal_shift(6, 18), -12);
    assert_eq!(decimal_shift(255, 0), 255);
    assert_eq!(decimal_shift(0, 255), -255);
}

#[test]
fn nonzero_price_text_starts_with_a_digit() {
    for shift in [-300, -12, 0, 12, 300] {
        let p = calculate_price(b"1446501726624926402955187851362304", shift);
        assert!(p.as_bytes()[0].is_ascii_digit());
        assert!(value(&p) > BigDecimal::from(0));
    }
}
