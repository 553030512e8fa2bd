use rust_v7_lib::{parse_offset, OffsetError};

#[test]
fn test_parse_offset() {
    match parse_offset("100") {
        Ok(off) => assert!(off == 0o100),
        Err(_) => assert!(false),
    }

    match parse_offset("100.") {
        Ok(off) => assert!(off == 100),
        Err(_) => assert!(false),
    }

    match parse_offset("100b") {
        Ok(off) => assert!(off == 0o100 * 512),
        Err(_) => assert!(false),
    }

    match parse_offset("100.b") {
        Ok(off) => assert!(off == 100 * 512),
        Err(_) => assert!(false),
    }
}

#[test]
fn offset_with_plus_sign() {
    assert_eq!(parse_offset("+100"), Ok(0o100));
    assert_eq!(parse_offset("+17."), Ok(17));
    assert_eq!(parse_offset("+1b"), Ok(512));
}

#[test]
fn offset_zero() {
    assert_eq!(parse_offset("0"), Ok(0));
    assert_eq!(parse_offset("0.b"), Ok(0));
}

#[test]
fn offset_empty() {
    assert_eq!(parse_offset(""), Err(OffsetError::Empty));
    assert_eq!(parse_offset("b"), Err(OffsetError::Empty));
    assert_eq!(parse_offset("."), Err(OffsetError::Empty));
    assert_eq!(parse_offset(".b"), Err(OffsetError::Empty));
}

#[test]
fn offset_invalid_digit() {
    assert_eq!(parse_offset("8"), Err(OffsetError::InvalidDigit));
    assert_eq!(parse_offset("+"), Err(OffsetError::InvalidDigit));
    assert_eq!(parse_offset("+b"), Err(OffsetError::InvalidDigit));
    assert_eq!(parse_offset("1a."), Err(OffsetError::InvalidDigit));
    assert_eq!(parse_offset("-1"), Err(OffsetError::InvalidDigit));
    assert_eq!(parse_offset("++1"), Err(OffsetError::InvalidDigit));
    assert_eq!(parse_offset("12bb"), Err(OffsetError::InvalidDigit));
}

#[test]
fn offset_largest_and_overflow() {
    assert_eq!(parse_offset("1777777777777777777777"), Ok(u64::MAX));
    assert_eq!(parse_offset("18446744073709551615."), Ok(u64::MAX));
    assert_eq!(parse_offset("2000000000000000000000"), Err(OffsetError::Overflow));
    assert_eq!(parse_offset("18446744073709551616."), Err(OffsetError::Overflow));
    assert_eq!(parse_offset("1777777777777777777777b"), Err(OffsetError::Overflow));
    assert_eq!(parse_offset("36028797018963967.b"), Ok(36028797018963967 * 512));
    assert_eq!(parse_offset("36028797018963968.b"), Err(OffsetError::Overflow));
}
