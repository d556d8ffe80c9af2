use unidis::numbers::{parse_i64, parse_u64, IntErrorKind, ParseIntError};
use unidis::web::{decode_hex_input, parse_base_addr, remove_spaces, HexError};

fn kind(k: IntErrorKind) -> ParseIntError {
    ParseIntError { kind: k }
}

#[test]
fn parse_u64_decimal_and_hex() {
    assert_eq!(parse_u64(b"0", 10), Ok(0));
    assert_eq!(parse_u64(b"1234", 10), Ok(1234));
    assert_eq!(parse_u64(b"+7", 10), Ok(7));
    assert_eq!(parse_u64(b"ff", 16), Ok(255));
    assert_eq!(parse_u64(b"DeadBeef", 16), Ok(0xdead_beef));
    assert_eq!(parse_u64(b"18446744073709551615", 10), Ok(u64::MAX));
}

#[test]
fn parse_u64_refusals() {
    assert_eq!(parse_u64(b"", 10), Err(kind(IntErrorKind::Empty)));
    assert_eq!(parse_u64(b"+", 10), Err(kind(IntErrorKind::InvalidDigit)));
    assert_eq!(parse_u64(b"-1", 10), Err(kind(IntErrorKind::InvalidDigit)));
    assert_eq!(parse_u64(b"12a", 10), Err(kind(IntErrorKind::InvalidDigit)));
    assert_eq!(parse_u64(b"18446744073709551616", 10), Err(kind(IntErrorKind::PosOverflow)));
    assert_eq!(parse_u64(b"g", 16), Err(kind(IntErrorKind::InvalidDigit)));
}

#[test]
fn parse_u64_agrees_with_std() {
    let cases: [&str; 9] = ["0", "42", "+42", "", "-3", "99999999999999999999", "1_0", " 1", "007"];
    for c in cases {
        let std_result = u64::from_str_radix(c, 10).map_err(|_| ());
        assert_eq!(parse_u64(c.as_bytes(), 10).map_err(|_| ()), std_result, "case {:?}", c);
    }
}

#[test]
fn parse_i64_signs_and_limits() {
    assert_eq!(parse_i64(b"-8", 10), Ok(-8));
    assert_eq!(parse_i64(b"+8", 10), Ok(8));
    assert_eq!(parse_i64(b"-9223372036854775808", 10), Ok(i64::MIN));
    assert_eq!(parse_i64(b"9223372036854775807", 10), Ok(i64::MAX));
    assert_eq!(parse_i64(b"9223372036854775808", 10), Err(kind(IntErrorKind::PosOverflow)));
    assert_eq!(parse_i64(b"-9223372036854775809", 10), Err(kind(IntErrorKind::NegOverflow)));
    assert_eq!(parse_i64(b"-", 10), Err(kind(IntErrorKind::InvalidDigit)));
    assert_eq!(parse_i64(b"", 10), Err(kind(IntErrorKind::Empty)));
}

#[test]
fn base_address_prefix_selects_radix() {
    assert_eq!(parse_base_addr("0x10"), Ok(16));
    assert_eq!(parse_base_addr("10"), Ok(10));
    assert_eq!(parse_base_addr("0x"), Err(kind(IntErrorKind::Empty)));
    assert_eq!(parse_base_addr("0X10"), Err(kind(IntErrorKind::InvalidDigit)));
    assert_eq!(parse_base_addr("0xffffffffffffffff"), Ok(u64::MAX));
    assert_eq!(parse_base_addr("0x10000000000000000"), Err(kind(IntErrorKind::PosOverflow)));
    assert_eq!(parse_base_addr(""), Err(kind(IntErrorKind::Empty)));
}

#[test]
fn hex_input_ignores_spaces() {
    assert_eq!(decode_hex_input("89 F0 85 ff"), Ok(vec![0x89, 0xf0, 0x85, 0xff]));
    assert_eq!(decode_hex_input(" 8 9 "), Ok(vec![0x89]));
    assert_eq!(decode_hex_input(""), Ok(vec![]));
    assert_eq!(remove_spaces(b" a b  c "), b"abc".to_vec());
}

#[test]
fn hex_input_refusals() {
    assert_eq!(decode_hex_input("89f"), Err(HexError::OddLength));
    assert_eq!(decode_hex_input("8z f0"), Err(HexError::InvalidHexCharacter { c: 'z', index: 1 }));
    assert_eq!(decode_hex_input("zz1"), Err(HexError::OddLength));
    assert_eq!(decode_hex_input("0g"), Err(HexError::InvalidHexCharacter { c: 'g', index: 1 }));
}

#[test]
fn hex_errors_print_like_the_hex_crate() {
    let e = decode_hex_input("0g").unwrap_err();
    assert_eq!(format!("{:?}", e), "InvalidHexCharacter { c: 'g', index: 1 }");
    assert_eq!(format!("{:?}", HexError::OddLength), "OddLength");
    let p = parse_base_addr("x").unwrap_err();
    assert_eq!(format!("{:?}", p), format!("{:?}", "x".parse::<u64>().unwrap_err()));
}
