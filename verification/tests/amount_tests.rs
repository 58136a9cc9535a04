use ledger::amount::Amount;

#[test]
fn amount_test_amount_witout_decimal_digits() {
    let amount = Amount::from_text("10").unwrap();
    assert_eq!(amount, Amount::new(10, 0));
}

#[test]
fn amount_test_amount_with_decimal_digits() {
    let amount = Amount::from_text("10.0").unwrap();
    assert_eq!(amount, Amount::new(10, 0));
}

#[test]
fn amount_test_amount_with_decimal_digits_non_zero() {
    let amount = Amount::from_text("999.990").unwrap();
    assert_eq!(amount, Amount::new(999, 99));
}

#[test]
fn amount_test_amount_with_decimal_digits_leading_zero() {
    let amount = Amount::from_text("011.0").unwrap();
    assert_eq!(amount, Amount::new(11, 0));
}

#[test]
fn test_wrong_input() {
    let amount = Amount::from_text("10,0");
    assert!(amount.is_err());
}

#[test]
fn amount_entity_test_amount_witout_decimal_digits() {
    let amount = Amount::from_text("10").unwrap();
    assert_eq!(amount, Amount::new(10, 0));
}

#[test]
fn amount_entity_test_amount_with_decimal_digits() {
    let amount = Amount::from_text("10.0").unwrap();
    assert_eq!(amount, Amount::new(10, 0));
}

#[test]
fn amount_entity_test_amount_with_decimal_digits_non_zero() {
    let amount = Amount::from_text("999.990").unwrap();
    assert_eq!(amount, Amount::new(999, 99));
}

#[test]
fn amount_entity_test_amount_with_decimal_digits_leading_zero() {
    let amount = Amount::from_text("011.0").unwrap();
    assert_eq!(amount, Amount::new(11, 0));
}

#[test]
fn encode_whole_amount() {
    assert_eq!(Amount::new(10, 0).to_text(), "10.0");
}

#[test]
fn encode_fractional_amount() {
    assert_eq!(Amount::new(999, 99).to_text(), "999.99");
}

#[test]
fn encode_small_fraction() {
    assert_eq!(Amount::new(20, 22).to_text(), "20.22");
}

#[test]
fn round_trip_after_decode() {
    let first = Amount::from_text("999.990").unwrap();
    let again = Amount::from_text(first.to_text().as_str()).unwrap();
    assert_eq!(first, again);
}

#[test]
fn round_trip_of_fraction_with_inner_zero() {
    let first = Amount::from_text("3.0105").unwrap();
    assert_eq!(first, Amount::new(3, 105));
    let text = first.to_text();
    assert_eq!(text, "3.105");
    let again = Amount::from_text(text.as_str()).unwrap();
    assert_eq!(first, again);
}

#[test]
fn decode_refuses_empty_text() {
    assert!(Amount::from_text("").is_err());
}

#[test]
fn decode_refuses_empty_integral_part() {
    assert!(Amount::from_text(".5").is_err());
}

#[test]
fn decode_refuses_second_dot() {
    assert!(Amount::from_text("1.2.3").is_err());
}

#[test]
fn decode_accepts_empty_fraction() {
    assert_eq!(Amount::from_text("7.").unwrap(), Amount::new(7, 0));
}

#[test]
fn decode_reports_the_malformed_text() {
    let e = Amount::from_text("10,0").unwrap_err();
    assert_eq!(e.message(), "malformed amount 10,0");
}

#[test]
fn decode_refuses_fraction_above_u32() {
    assert!(Amount::from_text("1.5000000001").is_err());
}

#[test]
fn decode_strips_fraction_zeros_from_both_sides() {
    assert_eq!(Amount::from_text("5.0900").unwrap(), Amount::new(5, 9));
}
