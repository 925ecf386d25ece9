use planner::parsers::parse_position;

#[test]
fn parse_position_reads_digits() {
    assert_eq!(parse_position("0"), Ok(0));
    assert_eq!(parse_position("42"), Ok(42));
    assert_eq!(parse_position("007"), Ok(7));
    assert_eq!(parse_position("+7"), Ok(7));
}

#[test]
fn parse_position_rejects_non_numbers() {
    let e = parse_position("x1").unwrap_err();
    assert_eq!(e, "Invalid number: x1");
    assert!(parse_position("").is_err());
    assert!(parse_position("4 2").is_err());
    assert!(parse_position("-3").is_err());
    assert!(parse_position("+").is_err());
    assert!(parse_position("++3").is_err());
}

#[test]
fn parse_position_rejects_overflow() {
    // Far beyond any machine word.
    assert!(parse_position("999999999999999999999999999999").is_err());
}
