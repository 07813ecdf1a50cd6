//! Text form: rendering to 16 lowercase hex characters and parsing back.
use fast_dhash::Dhash;
use fast_dhash::hex::HexParseError;

#[test]
fn render_zero_pads() {
    assert_eq!(Dhash::from_raw(0).to_hex(), "0000000000000000");
    assert_eq!(Dhash::from_raw(0xff).to_hex(), "00000000000000ff");
}

#[test]
fn render_known_value() {
    assert_eq!(Dhash::from_raw(0xf0f0_e8cc_cce8_f0f0).to_hex(), "f0f0e8cccce8f0f0");
    assert_eq!(
        Dhash::from_raw(0xffff_ffff_ffff_ffff).to_hex(),
        "ffffffffffffffff"
    );
}

#[test]
fn parse_known_value() {
    let parsed = Dhash::from_hex("f0f0e8cccce8f0f0").unwrap();
    assert_eq!(parsed.hash, 0xf0f0_e8cc_cce8_f0f0);
}

#[test]
fn parse_render_roundtrip() {
    let values = [
        0u64,
        1,
        0xf0f0_e8cc_cce8_f0f0,
        0x0123_4567_89ab_cdef,
        0xffff_ffff_ffff_ffff,
    ];
    for v in values {
        let fp = Dhash::from_raw(v);
        let back = Dhash::from_hex(&fp.to_hex()).unwrap();
        assert_eq!(back.hash, v);
    }
}

#[test]
fn parse_accepts_uppercase_and_sign() {
    assert_eq!(Dhash::from_hex("FF").unwrap().hash, 255);
    assert_eq!(Dhash::from_hex("+ff").unwrap().hash, 255);
    assert_eq!(Dhash::from_hex("AbCd").unwrap().hash, 0xabcd);
}

#[test]
fn parse_accepts_leading_zeros() {
    assert_eq!(Dhash::from_hex("0000000000000000ff").unwrap().hash, 255);
}

#[test]
fn parse_empty_is_error() {
    assert_eq!(Dhash::from_hex("").unwrap_err(), HexParseError::Empty);
}

#[test]
fn parse_invalid_digit_is_error() {
    assert_eq!(Dhash::from_hex("xyz").unwrap_err(), HexParseError::InvalidDigit);
    assert_eq!(Dhash::from_hex("12g4").unwrap_err(), HexParseError::InvalidDigit);
    assert_eq!(Dhash::from_hex("+").unwrap_err(), HexParseError::InvalidDigit);
    assert_eq!(Dhash::from_hex("-1").unwrap_err(), HexParseError::InvalidDigit);
}

#[test]
fn parse_overflow_is_error() {
    assert_eq!(
        Dhash::from_hex("fffffffffffffffff").unwrap_err(),
        HexParseError::Overflow
    );
    assert_eq!(
        Dhash::from_hex("10000000000000000").unwrap_err(),
        HexParseError::Overflow
    );
}
