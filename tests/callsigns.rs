use ft8_fields::callsigns::{callsign_to_int, int_to_callsign};
use ft8_fields::CodecError;

#[test]
fn test_callsigns() {
    let value_list: Vec<(String, u32)> = vec![
        ("N3ALT".to_string(), 10845108),
        ("KC3ABC".to_string(), 157483171),
        ("W0TZ".to_string(), 12571738),
        ("S2S".to_string(), 11822353),
    ];

    for (cs_str, cs_int) in value_list {
        assert_eq!(int_to_callsign(cs_int), Ok(cs_str.clone()));
        assert_eq!(callsign_to_int(cs_str), Ok(cs_int));
    }
}

#[test]
fn callsign_boundary_value() {
    assert_eq!(callsign_to_int("N3ALT".to_string()), Ok(10845108));
    assert_eq!(int_to_callsign(10845108), Ok("N3ALT".to_string()));
}

#[test]
fn callsign_bad_lengths() {
    assert_eq!(callsign_to_int("AB".to_string()), Err(CodecError::InvalidLength));
    assert_eq!(callsign_to_int("ABCDEFG".to_string()), Err(CodecError::InvalidLength));
    assert_eq!(callsign_to_int("".to_string()), Err(CodecError::InvalidLength));
}

#[test]
fn callsign_bad_characters() {
    // the third padded position must be a digit
    assert_eq!(callsign_to_int("NXALT".to_string()), Err(CodecError::InvalidCharacter));
    assert_eq!(callsign_to_int("n3alt".to_string()), Err(CodecError::InvalidCharacter));
    assert_eq!(callsign_to_int("N3A1".to_string()), Err(CodecError::InvalidCharacter));
}

#[test]
fn callsign_band_edges() {
    assert_eq!(int_to_callsign(6257895), Err(CodecError::TooSmall));
    assert_eq!(int_to_callsign(0), Err(CodecError::TooSmall));
    assert_eq!(int_to_callsign(6257896 + 262177560), Err(CodecError::TooLarge));
    assert_eq!(int_to_callsign(u32::MAX), Err(CodecError::TooLarge));
    // the lowest code is the all-blank padding, which trims to nothing
    assert_eq!(int_to_callsign(6257896), Ok("00".to_string()));
}

#[test]
fn callsign_largest_code() {
    let top = 6257896 + 262177560 - 1;
    assert_eq!(int_to_callsign(top), Ok("ZZ9ZZZ".to_string()));
    assert_eq!(callsign_to_int("ZZ9ZZZ".to_string()), Ok(top));
}

#[test]
fn callsign_round_trips() {
    for cs in ["K1A", "W1AW", "K1ABC", "VK2ABC", "A1 B"] {
        let code = callsign_to_int(cs.to_string()).unwrap();
        assert_eq!(int_to_callsign(code), Ok(cs.to_string()));
    }
}

#[test]
fn callsign_repeated_cycles_agree() {
    let first = callsign_to_int("KC3ABC".to_string());
    for _ in 0..5 {
        assert_eq!(callsign_to_int("KC3ABC".to_string()), first);
        assert_eq!(int_to_callsign(first.unwrap()), Ok("KC3ABC".to_string()));
    }
}
