use universal_trigger::amount::{
    format_ether, format_units_to_decimal, parse_decimal_to_units, FixedPointAmount,
};
use universal_trigger::error::CoreError;
use universal_trigger::word::Uint256;

fn units(text: &str) -> FixedPointAmount {
    FixedPointAmount::from_unit_digits(text).expect("digits")
}

fn parsed_units(text: &str) -> String {
    parse_decimal_to_units(text).expect("valid amount").unit_digits()
}

fn shown(digits: &str) -> String {
    format_units_to_decimal(&units(digits))
}

fn round_trip(text: &str) -> String {
    format_units_to_decimal(&parse_decimal_to_units(text).expect("valid amount"))
}

#[test]
fn parse_whole_number() {
    assert_eq!(parsed_units("1"), "1000000000000000000");
    assert_eq!(parsed_units("42"), "42000000000000000000");
    assert_eq!(parsed_units("0"), "0");
}

#[test]
fn parse_pads_short_fraction() {
    assert_eq!(parsed_units("1.5"), "1500000000000000000");
    assert_eq!(parsed_units("0.1"), "100000000000000000");
    assert_eq!(parsed_units("0.000000000000000001"), "1");
    assert_eq!(parsed_units("15.230001000000000000"), "15230001000000000000");
}

#[test]
fn parse_truncates_nineteenth_digit() {
    assert_eq!(parsed_units("0.1234567890123456789"), "123456789012345678");
}

#[test]
fn parse_never_rounds_up() {
    assert_eq!(parsed_units("0.0000000000000000019"), "1");
    assert_eq!(parsed_units("0.0000000000000000009"), "0");
    assert_eq!(parsed_units("2.9999999999999999999999"), "2999999999999999999");
}

#[test]
fn parse_ignores_digits_after_the_eighteenth() {
    let base = parsed_units("7.123456789012345678");
    assert_eq!(parsed_units("7.1234567890123456780"), base);
    assert_eq!(parsed_units("7.12345678901234567899999"), base);
}

#[test]
fn parse_drops_leading_zeros_of_whole_part() {
    assert_eq!(parsed_units("007"), "7000000000000000000");
    assert_eq!(parsed_units("000.5"), "500000000000000000");
    assert_eq!(parsed_units("0.0"), "0");
}

#[test]
fn parse_has_no_upper_limit() {
    let big = "123456789012345678901234567890123456789012345678901234567890123456789012345678901234567890";
    let amount = parse_decimal_to_units(big).expect("valid amount");
    assert_eq!(amount.unit_digits(), format!("{}000000000000000000", big));
    assert!(amount.to_word().is_none());
}

fn refused(text: &str) -> bool {
    matches!(parse_decimal_to_units(text), Err(CoreError::InvalidAmountFormat))
}

#[test]
fn parse_rejects_empty() {
    assert!(refused(""));
}

#[test]
fn parse_rejects_malformed_separators() {
    assert!(refused("."));
    assert!(refused("1."));
    assert!(refused(".5"));
    assert!(refused("1.2.3"));
    assert!(refused("1..2"));
    assert!(refused("1,5"));
    assert!(refused("1_000"));
}

#[test]
fn parse_rejects_sign() {
    assert!(refused("-1"));
    assert!(refused("-0.5"));
    assert!(refused("+1"));
}

#[test]
fn parse_rejects_exponent() {
    assert!(refused("1e18"));
    assert!(refused("1.5E3"));
}

#[test]
fn parse_rejects_other_characters() {
    assert!(refused("abc"));
    assert!(refused("12a"));
    assert!(refused(" 1"));
    assert!(refused("1 "));
    assert!(refused("1.5 "));
    assert!(refused("0x10"));
    assert!(refused("NaN"));
    assert!(refused("inf"));
    assert!(refused("\u{0661}\u{0662}"));
    assert!(refused("1.\u{00bd}"));
}

#[test]
fn format_zero() {
    assert_eq!(shown("0"), "0");
    assert_eq!(format_units_to_decimal(&FixedPointAmount::zero()), "0");
}

#[test]
fn format_one_unit() {
    assert_eq!(shown("1"), "0.000000000000000001");
}

#[test]
fn format_one_whole() {
    assert_eq!(shown("1000000000000000000"), "1");
}

#[test]
fn format_below_one_keeps_all_digits() {
    assert_eq!(shown("123"), "0.000000000000000123");
    assert_eq!(shown("100"), "0.0000000000000001");
    assert_eq!(shown("500000000000000000"), "0.5");
    assert_eq!(shown("123456789012345678"), "0.123456789012345678");
    assert_eq!(shown("999999999999999999"), "0.999999999999999999");
}

#[test]
fn format_display_cap_example() {
    assert_eq!(shown("1234560000000000000000"), "1234.56");
}

#[test]
fn format_caps_fraction_at_four_digits() {
    assert_eq!(shown("1234567890000000000"), "1.2345");
    assert_eq!(shown("1999999999999999999"), "1.9999");
    assert_eq!(shown("1234500000000000000"), "1.2345");
    assert_eq!(shown("1234000000000000000"), "1.234");
    assert_eq!(shown("1000010000000000000"), "1.0000");
    assert_eq!(shown("1000000000000000001"), "1.0000");
}

#[test]
fn format_whole_numbers() {
    assert_eq!(shown("42000000000000000000"), "42");
    assert_eq!(shown("10000000000000000000"), "10");
    assert_eq!(shown("1500000000000000000"), "1.5");
}

#[test]
fn format_beyond_one_word() {
    let big = "123456789012345678901234567890123456789012345678901234567890123456789012345678901234567890";
    assert_eq!(shown(&format!("{}250000000000000000", big)), format!("{}.25", big));
}

#[test]
fn round_trip_strips_trailing_zeros() {
    assert_eq!(round_trip("1.500000000000000000"), "1.5");
}

#[test]
fn round_trip_reproduces_input() {
    assert_eq!(round_trip("0"), "0");
    assert_eq!(round_trip("42"), "42");
    assert_eq!(round_trip("0.1"), "0.1");
    assert_eq!(round_trip("0.000000000000000001"), "0.000000000000000001");
    assert_eq!(round_trip("0.123456789012345678"), "0.123456789012345678");
    assert_eq!(round_trip("100.25"), "100.25");
    assert_eq!(round_trip("3.1415"), "3.1415");
    assert_eq!(round_trip("7.0"), "7");
    assert_eq!(round_trip("7.10"), "7.1");
}

#[test]
fn round_trip_cut_for_display() {
    assert_eq!(round_trip("1.23456"), "1.2345");
    assert_eq!(round_trip("007"), "7");
}

#[test]
fn unit_digits_parse() {
    assert_eq!(units("000123").unit_digits(), "123");
    assert_eq!(units("0000").unit_digits(), "0");
    assert!(FixedPointAmount::from_unit_digits("").is_none());
    assert!(FixedPointAmount::from_unit_digits("1.5").is_none());
    assert!(FixedPointAmount::from_unit_digits("12x").is_none());
    assert!(FixedPointAmount::from_unit_digits("\u{0663}").is_none());
}

#[test]
fn amount_from_word_and_back() {
    let word = Uint256::from_limbs([0, 1, 0, 0]);
    let amount = FixedPointAmount::from_word(&word);
    assert_eq!(amount.unit_digits(), "18446744073709551616");
    assert_eq!(format_units_to_decimal(&amount), "18.4467");
    let back = amount.to_word().expect("fits");
    assert_eq!(back.limbs, [0, 1, 0, 0]);
}

#[test]
fn amount_to_word_limit() {
    let max = units("115792089237316195423570985008687907853269984665640564039457584007913129639935");
    assert_eq!(max.to_word().expect("fits").limbs, [u64::MAX; 4]);
    let over = units("115792089237316195423570985008687907853269984665640564039457584007913129639936");
    assert!(over.to_word().is_none());
}

#[test]
fn amount_same_as_and_clone() {
    let a = parse_decimal_to_units("1.50").expect("valid amount");
    let b = units("1500000000000000000");
    assert!(a.same_as(&b));
    assert!(a.clone().same_as(&a));
    assert!(!a.same_as(&FixedPointAmount::zero()));
}

#[test]
fn parsed_amount_matches_outside_parser() {
    let ours = parse_decimal_to_units("15.230001").expect("valid amount").to_word().expect("fits");
    let theirs = ethers::utils::parse_ether("15.230001").expect("parses");
    assert_eq!(ours.limbs, theirs.0);
}

#[test]
fn format_ether_of_words() {
    assert_eq!(format_ether(&Uint256::from_u64(0)), "0");
    assert_eq!(format_ether(&Uint256::from_u64(1)), "0.000000000000000001");
    assert_eq!(format_ether(&Uint256::from_u64(1_000_000_000_000_000_000)), "1");
    assert_eq!(format_ether(&Uint256::from_u64(1_234_567_890_000_000_000)), "1.2345");
    assert_eq!(format_ether(&Uint256::from_limbs([0, 1, 0, 0])), "18.4467");
    assert_eq!(
        format_ether(&Uint256::from_limbs([u64::MAX; 4])),
        "115792089237316195423570985008687907853269984665640564039457.5840"
    );
}

#[test]
fn display_never_exceeds_amount() {
    for digits in [
        "0",
        "1",
        "999999999999999999",
        "1000000000000000000",
        "1000010000000000000",
        "1234567890000000000",
        "1999999999999999999",
        "1234560000000000000000",
        "115792089237316195423570985008687907853269984665640564039457584007913129639935",
    ] {
        let amount = units(digits);
        let text = format_units_to_decimal(&amount);
        let back = parse_decimal_to_units(&text).expect("the display is a valid amount");
        let shown = ethers::types::U256::from_dec_str(&back.unit_digits()).expect("fits");
        let held = ethers::types::U256::from_dec_str(digits).expect("fits");
        assert!(shown <= held);
    }
}
