use ft8_fields::grid::{g15_to_grid, g25_to_grid, grid_to_g15, grid_to_g25};
use ft8_fields::CodecError;

#[test]
fn test_g15_grids() {
    let value_list: Vec<(String, u32)> = vec![
        ("RRR".to_string(), 32402),
        ("RR73".to_string(), 32403),
        ("".to_string(), 32401),
        ("73".to_string(), 32404),
        ("DM79".to_string(), 6679),
        ("+1".to_string(), 32436),
        ("+15".to_string(), 32450),
        ("-1".to_string(), 32434),
        ("-15".to_string(), 32420),
    ];

    for (cs_str, cs_int) in value_list {
        assert_eq!(grid_to_g15(cs_str.clone()), Ok(cs_int));
        assert_eq!(g15_to_grid(cs_int), Ok(cs_str));
    }
}

#[test]
fn test_g25_grids() {
    let value_list: Vec<(String, u32)> = vec![
        ("AB23EF".to_string(), 70949),
        ("AA00AA".to_string(), 0),
        ("RR99XX".to_string(), 18662399),
    ];

    for (cs_str, cs_int) in value_list {
        assert_eq!(grid_to_g25(cs_str.clone()), Ok(cs_int));
        assert_eq!(g25_to_grid(cs_int), Ok(cs_str));
    }
}

#[test]
fn g15_boundary_value() {
    assert_eq!(grid_to_g15("DM79".to_string()), Ok(6679));
    assert_eq!(g15_to_grid(6679), Ok("DM79".to_string()));
}

#[test]
fn g25_boundary_values() {
    assert_eq!(grid_to_g25("AA00AA".to_string()), Ok(0));
    assert_eq!(g25_to_grid(18662399), Ok("RR99XX".to_string()));
}

#[test]
fn g15_grid_extremes() {
    assert_eq!(grid_to_g15("AA00".to_string()), Ok(0));
    assert_eq!(grid_to_g15("RR99".to_string()), Ok(32399));
    assert_eq!(g15_to_grid(0), Ok("AA00".to_string()));
    assert_eq!(g15_to_grid(32399), Ok("RR99".to_string()));
}

#[test]
fn g15_bad_formats() {
    assert_eq!(grid_to_g15("ZZ99".to_string()), Err(CodecError::InvalidGridFormat));
    assert_eq!(grid_to_g15("DM7".to_string()), Err(CodecError::InvalidGridFormat));
    assert_eq!(grid_to_g15("dm79".to_string()), Err(CodecError::InvalidGridFormat));
    assert_eq!(grid_to_g15("DM79\n".to_string()), Err(CodecError::InvalidGridFormat));
    assert_eq!(grid_to_g15("DM79AA".to_string()), Err(CodecError::InvalidGridFormat));
}

#[test]
fn g15_bad_reports() {
    assert_eq!(grid_to_g15("+".to_string()), Err(CodecError::InvalidReport));
    assert_eq!(grid_to_g15("+X".to_string()), Err(CodecError::InvalidReport));
    assert_eq!(grid_to_g15("--5".to_string()), Err(CodecError::InvalidReport));
    assert_eq!(grid_to_g15("+99999999999".to_string()), Err(CodecError::InvalidReport));
}

#[test]
fn g15_report_limits() {
    assert_eq!(grid_to_g15("++5".to_string()), Ok(32440));
    assert_eq!(grid_to_g15("+05".to_string()), Ok(32440));
    assert_eq!(grid_to_g15("-32435".to_string()), Ok(0));
    assert_eq!(grid_to_g15("-32436".to_string()), Err(CodecError::OutOfRange));
    assert_eq!(grid_to_g15("+4294934860".to_string()), Ok(u32::MAX));
    assert_eq!(grid_to_g15("+4294934861".to_string()), Err(CodecError::OutOfRange));
    // the negative reports from -31 down share codes with the tokens
    assert_eq!(grid_to_g15("-31".to_string()), Ok(32404));
    assert_eq!(grid_to_g15("-35".to_string()), Ok(32400));
}

#[test]
fn g15_unused_gap_is_rejected() {
    assert_eq!(g15_to_grid(32400), Err(CodecError::OutOfRange));
}

#[test]
fn g15_decode_reports() {
    assert_eq!(g15_to_grid(32435), Ok("+0".to_string()));
    assert_eq!(g15_to_grid(32405), Ok("-30".to_string()));
    assert_eq!(g15_to_grid(u32::MAX), Ok("+4294934860".to_string()));
}

#[test]
fn g25_bad_formats() {
    assert_eq!(grid_to_g25("AB23EY".to_string()), Err(CodecError::InvalidGridFormat));
    assert_eq!(grid_to_g25("SB23EF".to_string()), Err(CodecError::InvalidGridFormat));
    assert_eq!(grid_to_g25("AB23E".to_string()), Err(CodecError::InvalidGridFormat));
    assert_eq!(g25_to_grid(18662400), Err(CodecError::OutOfRange));
}

#[test]
fn grid_round_trips() {
    for g in ["", "RRR", "RR73", "73", "JO65", "+20", "-7", "AA00"] {
        let code = grid_to_g15(g.to_string()).unwrap();
        assert_eq!(g15_to_grid(code), Ok(g.to_string()));
    }
    for g in ["JO65HA", "FN31PR", "AA00AA"] {
        let code = grid_to_g25(g.to_string()).unwrap();
        assert_eq!(g25_to_grid(code), Ok(g.to_string()));
    }
}

#[test]
fn grid_repeated_cycles_agree() {
    let first = grid_to_g15("FN42".to_string());
    let first6 = grid_to_g25("FN42AB".to_string());
    for _ in 0..5 {
        assert_eq!(grid_to_g15("FN42".to_string()), first);
        assert_eq!(grid_to_g25("FN42AB".to_string()), first6);
        assert_eq!(g15_to_grid(first.unwrap()), Ok("FN42".to_string()));
        assert_eq!(g25_to_grid(first6.unwrap()), Ok("FN42AB".to_string()));
    }
}
