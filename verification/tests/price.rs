use gpu_stock::price::parse_price;

#[test]
fn plain_price_with_separator() {
    assert_eq!(parse_price("$1,234.56"), Some(123456));
}

#[test]
fn plain_price_without_separator() {
    assert_eq!(parse_price("999.99"), Some(99999));
}

#[test]
fn zero_price() {
    assert_eq!(parse_price("0.00"), Some(0));
}

#[test]
fn small_price() {
    assert_eq!(parse_price("0.99"), Some(99));
}

#[test]
fn picks_first_match() {
    assert_eq!(parse_price("was $59.99 now $49.99"), Some(5999));
}

#[test]
fn greedy_integer_part_stops_at_dot() {
    assert_eq!(parse_price("1.234.56"), Some(123));
}

#[test]
fn truncates_to_two_decimals() {
    assert_eq!(parse_price("123.456"), Some(12345));
}

#[test]
fn dash_has_no_price() {
    assert_eq!(parse_price("-"), None);
}

#[test]
fn empty_has_no_price() {
    assert_eq!(parse_price(""), None);
}

#[test]
fn words_have_no_price() {
    assert_eq!(parse_price("Out of Stock"), None);
}

#[test]
fn one_decimal_digit_is_no_match() {
    assert_eq!(parse_price("12.3"), None);
}

#[test]
fn separators_without_leading_digit_are_no_match() {
    assert_eq!(parse_price(",,.12"), None);
}

#[test]
fn decimals_alone_are_no_match() {
    assert_eq!(parse_price(".50"), None);
}

#[test]
fn later_match_found_after_false_start() {
    assert_eq!(parse_price("12a3.45"), Some(345));
}

#[test]
fn odd_separator_grouping_still_reads() {
    assert_eq!(parse_price("1,0,0.00"), Some(10000));
}

#[test]
fn huge_value_overflows_to_nothing() {
    assert_eq!(parse_price("999,999,999,999,999,999,999.99"), None);
}
