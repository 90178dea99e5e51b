use ft8_fields::freetext::{freetext_to_int, int_to_freetext};
use ft8_fields::CodecError;

#[test]
fn test_freetext() {
    let value_list: Vec<(String, u128)> = vec![
        ("A".to_string(), 0b1011),
        ("AA".to_string(), 0b111011001),
        (
            "ABCDEFGHIJKLM".to_string(),
            0b00100100111001000010000000001011111011100010010110011110110001100110111,
        ),
        (
            "STUVWXYZ+-./?".to_string(),
            0b01100001000111111111010100111000010101000110010101001111010100101110101,
        ),
    ];

    for (cs_str, cs_int) in value_list {
        assert_eq!(freetext_to_int(cs_str.clone()), Ok(cs_int));
        assert_eq!(int_to_freetext(cs_int), Ok(cs_str));
    }
}

#[test]
fn freetext_boundary_value() {
    assert_eq!(freetext_to_int("A".to_string()), Ok(11));
    assert_eq!(int_to_freetext(11), Ok("A".to_string()));
}

#[test]
fn freetext_empty_and_blank() {
    assert_eq!(freetext_to_int("".to_string()), Ok(0));
    assert_eq!(freetext_to_int("   ".to_string()), Ok(0));
    assert_eq!(int_to_freetext(0), Ok("".to_string()));
}

#[test]
fn freetext_exact_values() {
    assert_eq!(freetext_to_int("?".to_string()), Ok(41));
    assert_eq!(freetext_to_int("0".to_string()), Ok(1));
    assert_eq!(freetext_to_int("A ".to_string()), Ok(11 * 42));
    assert_eq!(freetext_to_int("  A".to_string()), Ok(11));
}

#[test]
fn freetext_bad_character() {
    assert_eq!(freetext_to_int("a".to_string()), Err(CodecError::InvalidCharacter));
    assert_eq!(freetext_to_int("HI!".to_string()), Err(CodecError::InvalidCharacter));
}

#[test]
fn freetext_overflow() {
    let cap: u128 = 42u128.pow(13);
    assert_eq!(int_to_freetext(cap), Err(CodecError::Overflow));
    assert_eq!(int_to_freetext(u128::MAX), Err(CodecError::Overflow));
    assert_eq!(int_to_freetext(cap - 1), Ok("?????????????".to_string()));
    // 24 symbols of value 41 exceed 128 bits
    assert_eq!(freetext_to_int("?".repeat(24)), Err(CodecError::Overflow));
    assert!(freetext_to_int("?".repeat(23)).is_ok());
}

#[test]
fn freetext_round_trip_trims_blanks() {
    for (text, back) in [
        ("CQ DX", "CQ DX"),
        (" HELLO WORLD ", "HELLO WORLD"),
        ("TNX 73 GL", "TNX 73 GL"),
        ("", ""),
    ] {
        let code = freetext_to_int(text.to_string()).unwrap();
        assert_eq!(int_to_freetext(code), Ok(back.to_string()));
    }
}

#[test]
fn freetext_repeated_cycles_agree() {
    let first = freetext_to_int("ABC/12".to_string());
    for _ in 0..5 {
        assert_eq!(freetext_to_int("ABC/12".to_string()), first);
        assert_eq!(int_to_freetext(first.unwrap()), Ok("ABC/12".to_string()));
    }
}
