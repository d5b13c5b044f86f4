use ledger::amount::{format_amount, parse_amount};

#[test]
fn parses_decimal_amounts() {
    assert_eq!(parse_amount("1.1234"), Some(11234));
    assert_eq!(parse_amount("1.0"), Some(10000));
    assert_eq!(parse_amount("3"), Some(30000));
    assert_eq!(parse_amount("3."), Some(30000));
    assert_eq!(parse_amount("0.05"), Some(500));
    assert_eq!(parse_amount("12.5"), Some(125000));
}

#[test]
fn rejects_malformed_amounts() {
    assert_eq!(parse_amount(""), None);
    assert_eq!(parse_amount(".5"), None);
    assert_eq!(parse_amount("-1.0"), None);
    assert_eq!(parse_amount("1.23456"), None);
    assert_eq!(parse_amount("1.2.3"), None);
    assert_eq!(parse_amount("1a"), None);
    assert_eq!(parse_amount("1.x"), None);
}

#[test]
fn parses_up_to_the_largest_amount() {
    assert_eq!(parse_amount("922337203685477.5807"), Some(i64::MAX));
    assert_eq!(parse_amount("922337203685477.5808"), None);
    assert_eq!(parse_amount("922337203685478"), None);
    assert_eq!(parse_amount("99999999999999999999999"), None);
}

#[test]
fn formats_with_four_places() {
    assert_eq!(format_amount(11234), "1.1234");
    assert_eq!(format_amount(10000), "1.0000");
    assert_eq!(format_amount(0), "0.0000");
    assert_eq!(format_amount(-11234), "-1.1234");
    assert_eq!(format_amount(5), "0.0005");
    assert_eq!(format_amount(1234567890), "123456.7890");
    assert_eq!(format_amount(i64::MIN), "-922337203685477.5808");
}

#[test]
fn format_then_parse_round_trips() {
    for a in [0i64, 1, 9999, 10000, 11234, 987654321, i64::MAX] {
        assert_eq!(parse_amount(&format_amount(a)), Some(a));
    }
}
