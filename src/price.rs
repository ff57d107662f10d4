//! Conversion of a pool's square-root price (a fixed-point number over 2^96)
//! into the decimal price of token0 quoted in token1.
use vstd::prelude::*;
use vstd::arithmetic::power2::{lemma2_to64, lemma_pow2_adds, pow2};
use bigdecimal::BigDecimal;
use bigdecimal::num_bigint::BigInt;

verus! {

/// Bytes that spell a non-negative integer in decimal: ASCII digits, at least one.
pub open spec fn is_digit_text(b: Seq<u8>) -> bool {
    &&& b.len() > 0
    &&& forall|i: int| 0 <= i < b.len() ==> 48 <= #[trigger] b[i] <= 57
}

/// The integer that decimal digit bytes spell.
pub open spec fn digits_value(b: Seq<u8>) -> nat
    decreases b.len(),
{
    if b.len() == 0 {
        0
    } else {
        digits_value(b.drop_last()) * 10 + (b.last() - 48) as nat
    }
}

/// The canonical decimal spelling of `n`: no leading zeros, "0" for zero.
pub open spec fn decimal_digits(n: nat) -> Seq<u8>
    decreases n,
{
    if n < 10 {
        seq![(48 + n) as u8]
    } else {
        decimal_digits(n / 10).push((48 + n % 10) as u8)
    }
}

/// The decimal text that BigDecimal prints for `numerator * 10^(-scale) / denominator`,
/// rounded to BigDecimal's default precision.
pub uninterp spec fn decimal_quotient(numerator: Seq<u8>, scale: int, denominator: Seq<u8>) -> Seq<char>;

/// Squares a decimal integer exactly.
/// Relies on num-bigint's `BigInt::parse_bytes`, multiplication and `to_string`:
/// digits parse in radix 10, the product is exact, and a non-negative value prints
/// as its canonical digits.
#[verifier::external_body]
fn square_digits(s: &[u8]) -> (r: Vec<u8>)
    requires
        is_digit_text(s@),
    ensures
        r@ == decimal_digits(digits_value(s@) * digits_value(s@)),
{
    let v = BigInt::parse_bytes(s, 10).unwrap();
    (&v * &v).to_string().into_bytes()
}

/// Divides `numerator * 10^(-scale)` by `denominator` in arbitrary-precision decimal.
/// Relies on `BigDecimal::new`, `BigDecimal` division and `to_string`: the division
/// panics only on a zero divisor (its scale arithmetic stays far from `i64`'s bounds
/// for a scale in `i32`), and a non-zero quotient never prints as "0". A positive
/// value prints through `pad_integral` with no sign, so its text starts with a digit.
#[verifier::external_body]
fn quotient_text(numerator: &[u8], scale: i32, denominator: &[u8]) -> (r: String)
    requires
        is_digit_text(numerator@),
        is_digit_text(denominator@),
        digits_value(denominator@) > 0,
    ensures
        r@ == decimal_quotient(numerator@, scale as int, denominator@),
        digits_value(numerator@) > 0 ==> r@ != seq!['0'],
        digits_value(numerator@) > 0 ==> (r@.len() > 0 && '0' <= r@[0] <= '9'),
{
    let n = BigInt::parse_bytes(numerator, 10).unwrap();
    let d = BigInt::parse_bytes(denominator, 10).unwrap();
    (BigDecimal::new(n, i64::from(scale)) / BigDecimal::from(d)).to_string()
}

/// The decimal digits of 2^192, the square of the fixed-point denominator 2^96:
/// 6277101735386680763835789423207666416102355444464034512896.
pub open spec fn q192_digits() -> Seq<u8> {
    seq![54, 50, 55, 55, 49, 48, 49, 55, 51, 53, 51, 56, 54, 54, 56, 48, 55, 54, 51, 56, 51, 53, 55, 56, 57, 52, 50, 51, 50, 48, 55, 54, 54, 54, 52, 49, 54, 49, 48, 50, 51, 53, 53, 52, 52, 52, 52, 54, 52, 48, 51, 52, 53, 49, 50, 56, 57, 54]
}

/// The text of the decimal price for square-root price `sqrt_price` (an integer over 2^96)
/// and decimal shift `shift`: zero when the pool price is zero, and otherwise
/// 2^192 * 10^(-shift) / sqrt_price^2, which is 1 / ((sqrt_price / 2^96)^2 * 10^shift).
pub open spec fn price_text(sqrt_price: nat, shift: int) -> Seq<char> {
    if sqrt_price == 0 {
        seq!['0']
    } else {
        decimal_quotient(q192_digits(), shift, decimal_digits(sqrt_price * sqrt_price))
    }
}

proof fn lemma_digits_zero(b: Seq<u8>)
    requires
        forall|i: int| 0 <= i < b.len() ==> 48 <= #[trigger] b[i] <= 57,
    ensures
        digits_value(b) == 0 <==> forall|i: int| 0 <= i < b.len() ==> #[trigger] b[i] == 48,
    decreases b.len(),
{
    if b.len() > 0 {
        let p = b.drop_last();
        assert forall|i: int| 0 <= i < p.len() implies 48 <= #[trigger] p[i] <= 57 by {
            assert(p[i] == b[i]);
        }
        lemma_digits_zero(p);
        if digits_value(b) == 0 {
            assert forall|i: int| 0 <= i < b.len() implies #[trigger] b[i] == 48 by {
                if i < p.len() {
                    assert(p[i] == b[i]);
                }
            }
        }
        if forall|i: int| 0 <= i < b.len() ==> #[trigger] b[i] == 48 {
            assert forall|i: int| 0 <= i < p.len() implies #[trigger] p[i] == 48 by {
                assert(p[i] == b[i]);
            }
            assert(b[b.len() - 1] == 48);
        }
    }
}

/// Whether decimal digit bytes spell zero.
fn digits_are_zero(s: &[u8]) -> (r: bool)
    requires
        is_digit_text(s@),
    ensures
        r == (digits_value(s@) == 0),
{
    let mut i: usize = 0;
    let mut zero = true;
    while i < s.len()
        invariant
            0 <= i <= s@.len(),
            zero == (forall|j: int| 0 <= j < i ==> #[trigger] s@[j] == 48),
        decreases s@.len() - i,
    {
        if s[i] != 48 {
            zero = false;
        }
        i = i + 1;
    }
    proof {
        lemma_digits_zero(s@);
    }
    zero
}

/// Converts a square-root price (decimal digits of an integer over 2^96) and the
/// decimal shift of the pair into the decimal price of token0 quoted in token1.
/// A zero square-root price gives "0"; any other gives a positive price, whose text
/// starts with a digit (never a minus sign). No input makes it fault.
pub fn calculate_price(sqrt_price_x96: &[u8], decimal_diff: i32) -> (r: String)
    requires
        is_digit_text(sqrt_price_x96@),
    ensures
        r@ == price_text(digits_value(sqrt_price_x96@), decimal_diff as int),
        r@ == seq!['0'] <==> digits_value(sqrt_price_x96@) == 0,
        r@.len() > 0 && '0' <= r@[0] <= '9',
{
    if digits_are_zero(sqrt_price_x96) {
        proof {
            reveal_strlit("0");
        }
        return "0".to_owned();
    }
    let q: Vec<u8> = vec![54, 50, 55, 55, 49, 48, 49, 55, 51, 53, 51, 56, 54, 54, 56, 48, 55, 54, 51, 56, 51, 53, 55, 56, 57, 52, 50, 51, 50, 48, 55, 54, 54, 54, 52, 49, 54, 49, 48, 50, 51, 53, 53, 52, 52, 52, 52, 54, 52, 48, 51, 52, 53, 49, 50, 56, 57, 54];
    proof {
        assert(q@ == q192_digits());
        assert forall|i: int| 0 <= i < q@.len() implies 48 <= #[trigger] q@[i] <= 57 by {}
        assert(q@[0] != 48);
        lemma_digits_zero(q@);
    }
    let square = square_digits(sqrt_price_x96);
    proof {
        let v = digits_value(sqrt_price_x96@);
        assert(v * v > 0) by (nonlinear_arith) requires v > 0;
        lemma_canonical_digits(v * v);
    }
    quotient_text(q.as_slice(), decimal_diff, square.as_slice())
}

/// The canonical spelling of `n` is digit text that spells `n`.
pub proof fn lemma_canonical_digits(n: nat)
    ensures
        is_digit_text(decimal_digits(n)),
        digits_value(decimal_digits(n)) == n,
    decreases n,
{
    if n >= 10 {
        lemma_canonical_digits(n / 10);
        let p = decimal_digits(n / 10);
        let b = p.push((48 + n % 10) as u8);
        assert(b.drop_last() == p);
        assert(b.last() == (48 + n % 10) as u8);
        assert(digits_value(b) == digits_value(p) * 10 + (b.last() - 48) as nat);
        assert(n == (n / 10) * 10 + n % 10);
        assert forall|i: int| 0 <= i < b.len() implies 48 <= #[trigger] b[i] <= 57 by {
            if i < p.len() {
                assert(b[i] == p[i]);
            }
        }
    } else {
        let b = seq![(48 + n) as u8];
        assert(b.drop_last() =~= Seq::<u8>::empty());
        assert(digits_value(b) == digits_value(b.drop_last()) * 10 + (b.last() - 48) as nat);
    }
}

/// `10^e`.
pub open spec fn pow10(e: nat) -> nat
    decreases e,
{
    if e == 0 {
        1
    } else {
        10 * pow10((e - 1) as nat)
    }
}

/// The exact value that `decimal_quotient(numerator, scale, denominator)` rounds,
/// `n * 10^(-scale) / d`, as a fraction (numerator, denominator).
pub open spec fn shifted_fraction(n: nat, scale: int, d: nat) -> (nat, nat) {
    if scale >= 0 {
        (n, d * pow10(scale as nat))
    } else {
        (n * pow10((-scale) as nat), d)
    }
}

/// Two fractions with non-zero denominators are equal.
pub open spec fn same_fraction(a: (nat, nat), b: (nat, nat)) -> bool {
    a.0 * b.1 == b.0 * a.1
}

/// The price for shift `+d` is the inverse of the raw ratio `sqrt_price^2 / 2^192`
/// multiplied by `10^d`, and the price for shift `-d` the inverse of that ratio
/// divided by `10^d`.
pub proof fn lemma_shift_sign(sqrt_price: nat, d: nat)
    requires
        sqrt_price > 0,
    ensures
        price_text(sqrt_price, d as int) == decimal_quotient(
            q192_digits(),
            d as int,
            decimal_digits(sqrt_price * sqrt_price),
        ),
        price_text(sqrt_price, -d) == decimal_quotient(
            q192_digits(),
            -d,
            decimal_digits(sqrt_price * sqrt_price),
        ),
        digits_value(q192_digits()) == pow2(192),
        // 1 / ((sqrt_price^2 / 2^192) * 10^d) == 2^192 / (sqrt_price^2 * 10^d)
        same_fraction(
            shifted_fraction(pow2(192), d as int, sqrt_price * sqrt_price),
            (pow2(192), sqrt_price * sqrt_price * pow10(d)),
        ),
        // 1 / ((sqrt_price^2 / 2^192) / 10^d) == 2^192 * 10^d / sqrt_price^2
        same_fraction(
            shifted_fraction(pow2(192), -d, sqrt_price * sqrt_price),
            (pow2(192) * pow10(d), sqrt_price * sqrt_price),
        ),
{
    lemma_q192_value();
    if d == 0 {
        assert(pow10(0) == 1);
        assert(sqrt_price * sqrt_price * 1 == sqrt_price * sqrt_price);
        assert(pow2(192) * 1 == pow2(192));
    }
}

/// The decimal shift of a pair: token0's decimals minus token1's.
pub fn decimal_shift(token0_decimals: u8, token1_decimals: u8) -> (r: i32)
    ensures
        r as int == token0_decimals as int - token1_decimals as int,
{
    token0_decimals as i32 - token1_decimals as i32
}

proof fn lemma_push_digit(b: Seq<u8>, c: u8)
    ensures
        digits_value(b.push(c)) == digits_value(b) * 10 + (c - 48) as nat,
{
    assert(b.push(c).drop_last() =~= b);
}

/// The digits of `q192_digits` spell 2^192.
pub proof fn lemma_q192_value()
    ensures
        digits_value(q192_digits()) == pow2(192),
{
    lemma2_to64();
    lemma_pow2_adds(64, 64);
    lemma_pow2_adds(128, 64);
    let s0 = Seq::<u8>::empty();
    assert(digits_value(s0) == 0);
    let s1 = s0.push(54u8);
    lemma_push_digit(s0, 54u8);
    assert(digits_value(s1) == 6nat);
    let s2 = s1.push(50u8);
    lemma_push_digit(s1, 50u8);
    assert(digits_value(s2) == 62nat);
    let s3 = s2.push(55u8);
    lemma_push_digit(s2, 55u8);
    assert(digits_value(s3) == 627nat);
    let s4 = s3.push(55u8);
    lemma_push_digit(s3, 55u8);
    assert(digits_value(s4) == 6277nat);
    let s5 = s4.push(49u8);
    lemma_push_digit(s4, 49u8);
    assert(digits_value(s5) == 62771nat);
    let s6 = s5.push(48u8);
    lemma_push_digit(s5, 48u8);
    assert(digits_value(s6) == 627710nat);
    let s7 = s6.push(49u8);
    lemma_push_digit(s6, 49u8);
    assert(digits_value(s7) == 6277101nat);
    let s8 = s7.push(55u8);
    lemma_push_digit(s7, 55u8);
    assert(digits_value(s8) == 62771017nat);
    let s9 = s8.push(51u8);
    lemma_push_digit(s8, 51u8);
    assert(digits_value(s9) == 627710173nat);
    let s10 = s9.push(53u8);
    lemma_push_digit(s9, 53u8);
    assert(digits_value(s10) == 6277101735nat);
    let s11 = s10.push(51u8);
    lemma_push_digit(s10, 51u8);
    assert(digits_value(s11) == 62771017353nat);
    let s12 = s11.push(56u8);
    lemma_push_digit(s11, 56u8);
    assert(digits_value(s12) == 627710173538nat);
    let s13 = s12.push(54u8);
    lemma_push_digit(s12, 54u8);
    assert(digits_value(s13) == 6277101735386nat);
    let s14 = s13.push(54u8);
    lemma_push_digit(s13, 54u8);
    assert(digits_value(s14) == 62771017353866nat);
    let s15 = s14.push(56u8);
    lemma_push_digit(s14, 56u8);
    assert(digits_value(s15) == 627710173538668nat);
    let s16 = s15.push(48u8);
    lemma_push_digit(s15, 48u8);
    assert(digits_value(s16) == 6277101735386680nat);
    let s17 = s16.push(55u8);
    lemma_push_digit(s16, 55u8);
    assert(digits_value(s17) == 62771017353866807nat);
    let s18 = s17.push(54u8);
    lemma_push_digit(s17, 54u8);
    assert(digits_value(s18) == 627710173538668076nat);
    let s19 = s18.push(51u8);
    lemma_push_digit(s18, 51u8);
    assert(digits_value(s19) == 6277101735386680763nat);
    let s20 = s19.push(56u8);
    lemma_push_digit(s19, 56u8);
    assert(digits_value(s20) == 62771017353866807638nat);
    let s21 = s20.push(51u8);
    lemma_push_digit(s20, 51u8);
    assert(digits_value(s21) == 627710173538668076383nat);
    let s22 = s21.push(53u8);
    lemma_push_digit(s21, 53u8);
    assert(digits_value(s22) == 6277101735386680763835nat);
    let s23 = s22.push(55u8);
    lemma_push_digit(s22, 55u8);
    assert(digits_value(s23) == 62771017353866807638357nat);
    let s24 = s23.push(56u8);
    lemma_push_digit(s23, 56u8);
    assert(digits_value(s24) == 627710173538668076383578nat);
    let s25 = s24.push(57u8);
    lemma_push_digit(s24, 57u8);
    assert(digits_value(s25) == 6277101735386680763835789nat);
    let s26 = s25.push(52u8);
    lemma_push_digit(s25, 52u8);
    assert(digits_value(s26) == 62771017353866807638357894nat);
    let s27 = s26.push(50u8);
    lemma_push_digit(s26, 50u8);
    assert(digits_value(s27) == 627710173538668076383578942nat);
    let s28 = s27.push(51u8);
    lemma_push_digit(s27, 51u8);
    assert(digits_value(s28) == 6277101735386680763835789423nat);
    let s29 = s28.push(50u8);
    lemma_push_digit(s28, 50u8);
    assert(digits_value(s29) == 62771017353866807638357894232nat);
    let s30 = s29.push(48u8);
    lemma_push_digit(s29, 48u8);
    assert(digits_value(s30) == 627710173538668076383578942320nat);
    let s31 = s30.push(55u8);
    lemma_push_digit(s30, 55u8);
    assert(digits_value(s31) == 6277101735386680763835789423207nat);
    let s32 = s31.push(54u8);
    lemma_push_digit(s31, 54u8);
    assert(digits_value(s32) == 62771017353866807638357894232076nat);
    let s33 = s32.push(54u8);
    lemma_push_digit(s32, 54u8);
    assert(digits_value(s33) == 627710173538668076383578942320766nat);
    let s34 = s33.push(54u8);
    lemma_push_digit(s33, 54u8);
    assert(digits_value(s34) == 6277101735386680763835789423207666nat);
    let s35 = s34.push(52u8);
    lemma_push_digit(s34, 52u8);
    assert(digits_value(s35) == 62771017353866807638357894232076664nat);
    let s36 = s35.push(49u8);
    lemma_push_digit(s35, 49u8);
    assert(digits_value(s36) == 627710173538668076383578942320766641nat);
    let s37 = s36.push(54u8);
    lemma_push_digit(s36, 54u8);
    assert(digits_value(s37) == 6277101735386680763835789423207666416nat);
    let s38 = s37.push(49u8);
    lemma_push_digit(s37, 49u8);
    assert(digits_value(s38) == 62771017353866807638357894232076664161nat);
    let s39 = s38.push(48u8);
    lemma_push_digit(s38, 48u8);
    assert(digits_value(s39) == 627710173538668076383578942320766641610nat);
    let s40 = s39.push(50u8);
    lemma_push_digit(s39, 50u8);
    assert(digits_value(s40) == 6277101735386680763835789423207666416102nat);
    let s41 = s40.push(51u8);
    lemma_push_digit(s40, 51u8);
    assert(digits_value(s41) == 62771017353866807638357894232076664161023nat);
    let s42 = s41.push(53u8);
    lemma_push_digit(s41, 53u8);
    assert(digits_value(s42) == 627710173538668076383578942320766641610235nat);
    let s43 = s42.push(53u8);
    lemma_push_digit(s42, 53u8);
    assert(digits_value(s43) == 6277101735386680763835789423207666416102355nat);
    let s44 = s43.push(52u8);
    lemma_push_digit(s43, 52u8);
    assert(digits_value(s44) == 62771017353866807638357894232076664161023554nat);
    let s45 = s44.push(52u8);
    lemma_push_digit(s44, 52u8);
    assert(digits_value(s45) == 627710173538668076383578942320766641610235544nat);
    let s46 = s45.push(52u8);
    lemma_push_digit(s45, 52u8);
    assert(digits_value(s46) == 6277101735386680763835789423207666416102355444nat);
    let s47 = s46.push(52u8);
    lemma_push_digit(s46, 52u8);
    assert(digits_value(s47) == 62771017353866807638357894232076664161023554444nat);
    let s48 = s47.push(54u8);
    lemma_push_digit(s47, 54u8);
    assert(digits_value(s48) == 627710173538668076383578942320766641610235544446nat);
    let s49 = s48.push(52u8);
    lemma_push_digit(s48, 52u8);
    assert(digits_value(s49) == 6277101735386680763835789423207666416102355444464nat);
    let s50 = s49.push(48u8);
    lemma_push_digit(s49, 48u8);
    assert(digits_value(s50) == 62771017353866807638357894232076664161023554444640nat);
    let s51 = s50.push(51u8);
    lemma_push_digit(s50, 51u8);
    assert(digits_value(s51) == 627710173538668076383578942320766641610235544446403nat);
    let s52 = s51.push(52u8);
    lemma_push_digit(s51, 52u8);
    assert(digits_value(s52) == 6277101735386680763835789423207666416102355444464034nat);
    let s53 = s52.push(53u8);
    lemma_push_digit(s52, 53u8);
    assert(digits_value(s53) == 62771017353866807638357894232076664161023554444640345nat);
    let s54 = s53.push(49u8);
    lemma_push_digit(s53, 49u8);
    assert(digits_value(s54) == 627710173538668076383578942320766641610235544446403451nat);
    let s55 = s54.push(50u8);
    lemma_push_digit(s54, 50u8);
    assert(digits_value(s55) == 6277101735386680763835789423207666416102355444464034512nat);
    let s56 = s55.push(56u8);
    lemma_push_digit(s55, 56u8);
    assert(digits_value(s56) == 62771017353866807638357894232076664161023554444640345128nat);
    let s57 = s56.push(57u8);
    lemma_push_digit(s56, 57u8);
    assert(digits_value(s57) == 627710173538668076383578942320766641610235544446403451289nat);
    let s58 = s57.push(54u8);
    lemma_push_digit(s57, 54u8);
    assert(digits_value(s58) == 6277101735386680763835789423207666416102355444464034512896nat);
    assert(s58 =~= q192_digits());
}

} // verus!
