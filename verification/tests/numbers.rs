use raqote_utils::number::{collect_chars, parse_chars, parse_number};

#[test]
fn whole_numbers_are_counted_in_millionths() {
    assert_eq!(parse_number("0"), Some(0));
    assert_eq!(parse_number("12"), Some(12_000_000));
    assert_eq!(parse_number("000012"), Some(12_000_000));
}

#[test]
fn fractions_keep_six_places() {
    assert_eq!(parse_number("57.0273"), Some(57_027_300));
    assert_eq!(parse_number("0.000001"), Some(1));
    assert_eq!(parse_number("453.751"), Some(453_751_000));
}

#[test]
fn places_past_the_sixth_are_cut_off() {
    assert_eq!(parse_number("0.1234567"), Some(123_456));
    assert_eq!(parse_number("0.9999999"), Some(999_999));
    assert_eq!(parse_number("-0.0000009"), Some(0));
    assert_eq!(parse_number("1.00000099999999999999999999999999999"), Some(1_000_000));
}

#[test]
fn a_sign_may_lead() {
    assert_eq!(parse_number("-3.5"), Some(-3_500_000));
    assert_eq!(parse_number("+3.5"), Some(3_500_000));
    assert_eq!(parse_number("-0"), Some(0));
}

#[test]
fn digits_may_be_missing_on_one_side_of_the_point() {
    assert_eq!(parse_number("+.25"), Some(250_000));
    assert_eq!(parse_number(".5"), Some(500_000));
    assert_eq!(parse_number("7."), Some(7_000_000));
    assert_eq!(parse_number("-7."), Some(-7_000_000));
}

#[test]
fn text_without_a_digit_is_no_number() {
    assert_eq!(parse_number(""), None);
    assert_eq!(parse_number("."), None);
    assert_eq!(parse_number("-"), None);
    assert_eq!(parse_number("+"), None);
    assert_eq!(parse_number("-."), None);
}

#[test]
fn stray_characters_make_no_number() {
    assert_eq!(parse_number("1.2.3"), None);
    assert_eq!(parse_number("1..2"), None);
    assert_eq!(parse_number("--1"), None);
    assert_eq!(parse_number("+-1"), None);
    assert_eq!(parse_number("1-"), None);
    assert_eq!(parse_number("1e5"), None);
    assert_eq!(parse_number("12a"), None);
    assert_eq!(parse_number("#1"), None);
    assert_eq!(parse_number(" 1"), None);
    assert_eq!(parse_number("1 "), None);
    assert_eq!(parse_number("\u{663}"), None);
    assert_eq!(parse_number("1.\u{663}"), None);
}

#[test]
fn the_largest_numbers_that_fit() {
    assert_eq!(parse_number("9223372036854.775807"), Some(i64::MAX));
    assert_eq!(parse_number("-9223372036854.775807"), Some(-i64::MAX));
    assert_eq!(parse_number("9223372036854.7758079"), Some(i64::MAX));
    assert_eq!(parse_number("9223372036854"), Some(9_223_372_036_854_000_000));
}

#[test]
fn numbers_that_do_not_fit_are_not_read() {
    assert_eq!(parse_number("9223372036854.775808"), None);
    assert_eq!(parse_number("-9223372036854.775808"), None);
    assert_eq!(parse_number("9223372036855"), None);
    assert_eq!(parse_number("10000000000000000000000000000000000000000"), None);
    assert_eq!(parse_number("-99999999999999999999.5"), None);
}

#[test]
fn leading_zeros_do_not_count_against_the_limit() {
    assert_eq!(parse_number("0000000000000000000000000000000000000001.5"), Some(1_500_000));
}

#[test]
fn characters_are_collected_in_order() {
    assert_eq!(collect_chars("a\u{e9}1"), vec!['a', '\u{e9}', '1']);
    assert_eq!(collect_chars(""), Vec::<char>::new());
}

#[test]
fn characters_parse_like_their_string() {
    assert_eq!(parse_chars(&vec!['-', '1', '.', '5']), Some(-1_500_000));
    assert_eq!(parse_chars(&vec!['1', '.', '.']), None);
    assert_eq!(parse_chars(&Vec::new()), None);
}
