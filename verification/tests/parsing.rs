use cryptoparam::{parse_number, ParseNumberError};

#[test]
fn plain_numbers() {
    assert_eq!(parse_number("0"), Ok(0));
    assert_eq!(parse_number("123"), Ok(123));
    assert_eq!(parse_number("+42"), Ok(42));
    assert_eq!(parse_number("7681"), Ok(7681));
    assert_eq!(parse_number("18446744073709551615"), Ok(u64::MAX));
}

#[test]
fn plain_rejections() {
    assert_eq!(parse_number(""), Err(ParseNumberError::InvalidNumber));
    assert_eq!(parse_number("abc"), Err(ParseNumberError::InvalidNumber));
    assert_eq!(parse_number("12x"), Err(ParseNumberError::InvalidNumber));
    assert_eq!(parse_number("+"), Err(ParseNumberError::InvalidNumber));
    assert_eq!(parse_number("-5"), Err(ParseNumberError::InvalidNumber));
    assert_eq!(
        parse_number("18446744073709551616"),
        Err(ParseNumberError::InvalidNumber)
    );
}

#[test]
fn power_notation() {
    assert_eq!(parse_number("2**10"), Ok(1024));
    assert_eq!(parse_number("2**13"), Ok(8192));
    assert_eq!(parse_number("3**4"), Ok(81));
    assert_eq!(parse_number("2^16"), Ok(65536));
    assert_eq!(parse_number("10^3"), Ok(1000));
    assert_eq!(parse_number("2**0"), Ok(1));
    assert_eq!(parse_number("0**0"), Ok(1));
    assert_eq!(parse_number("0**5"), Ok(0));
    assert_eq!(parse_number("2**63"), Ok(1u64 << 63));
    assert_eq!(parse_number("10**19"), Ok(10_000_000_000_000_000_000));
}

#[test]
fn power_rejections() {
    assert_eq!(parse_number("2**x"), Err(ParseNumberError::InvalidPower));
    assert_eq!(parse_number("x**2"), Err(ParseNumberError::InvalidPower));
    assert_eq!(parse_number("2**"), Err(ParseNumberError::InvalidPower));
    assert_eq!(parse_number("**2"), Err(ParseNumberError::InvalidPower));
    assert_eq!(parse_number("2^"), Err(ParseNumberError::InvalidPower));
    assert_eq!(parse_number("2***3"), Err(ParseNumberError::InvalidPower));
    assert_eq!(parse_number("2**64"), Err(ParseNumberError::TooLarge));
    assert_eq!(parse_number("99**99"), Err(ParseNumberError::TooLarge));
}

#[test]
fn repeated_separators_fall_through() {
    // With the separator occurring more than once the text is handed to
    // the plain parse, which rejects it.
    assert_eq!(parse_number("2**3**4"), Err(ParseNumberError::InvalidNumber));
    assert_eq!(parse_number("2^3^4"), Err(ParseNumberError::InvalidNumber));
    assert_eq!(parse_number("1****2"), Err(ParseNumberError::InvalidNumber));
}
