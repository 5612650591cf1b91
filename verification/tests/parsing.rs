use star_catalog::coord::EquatorialCoordinate;
use star_catalog::parse::{parse_coord, parse_coord4, parse_fixed, parse_uint, tokenize};

#[test]
fn rejects_short_input() {
    assert_eq!(parse_coord("12 30"), None);
    assert_eq!(parse_coord(""), None);
    assert_eq!(parse_coord("05 30 00 -23 15"), None);
}

#[test]
fn parses_negative_declination() {
    let c = parse_coord("05 30 00 -23 15 30").expect("six valid tokens");
    assert_eq!(c.right_ascension, 297_000_000_000);
    assert_eq!(c.declination, -83_730_000_000);
}

#[test]
fn parses_positive_declination() {
    let c = parse_coord("05 30 00 +23 15 30").expect("six valid tokens");
    assert_eq!(c.right_ascension, 297_000_000_000);
    assert_eq!(c.declination, 83_730_000_000);
}

#[test]
fn unsigned_declination_token_loses_first_digit() {
    // The first byte of the declination-degree token is always read as the
    // sign, so without an explicit sign the leading digit is consumed: the
    // magnitude comes from the remaining bytes, and the sign is positive.
    let c = parse_coord("05 30 00 23 15 30").expect("parsable");
    assert_eq!(c.declination, 3 * 3_600_000_000i64 + 15 * 60_000_000 + 30_000_000);
}

#[test]
fn rejects_non_numeric_token() {
    assert_eq!(parse_coord("aa 30 00 -23 15 30"), None);
    assert_eq!(parse_coord("05 30 00 -23 15 3a"), None);
    assert_eq!(parse_coord("05 30 00 -2.5 15 30"), None);
}

#[test]
fn parses_fractional_seconds() {
    let c = parse_coord("00 00 30.5 +00 00 00").expect("parsable");
    assert_eq!(c.right_ascension, 30_500 * 15_000);
    assert_eq!(c.declination, 0);
}

#[test]
fn truncates_fraction_beyond_milliseconds() {
    let fine = parse_coord("00 00 0.1234 +00 00 00").expect("parsable");
    let coarse = parse_coord("00 00 0.123 +00 00 00").expect("parsable");
    assert_eq!(fine, coarse);
}

#[test]
fn ignores_extra_tokens_and_whitespace() {
    let spaced = parse_coord("  05  30 00   -23 15 30  trailing junk");
    let plain = parse_coord("05 30 00 -23 15 30");
    assert_eq!(spaced, plain);
    assert!(spaced.is_some());
}

#[test]
fn rejects_out_of_range_components() {
    // Hours and arcminutes must fit their byte-sized components.
    assert_eq!(parse_coord("256 30 00 -23 15 30"), None);
    assert_eq!(parse_coord("05 300 00 -23 15 30"), None);
    assert_eq!(parse_coord("05 30 00 -40000 15 30"), None);
    assert_eq!(parse_coord("05 30 00 -23 333 30"), None);
}

#[test]
fn decimal_degrees_parses_pair() {
    let c = parse_coord4("45.5 -30.25").expect("two decimal tokens");
    assert_eq!(c.right_ascension, 163_800_000_000);
    assert_eq!(c.declination, -108_900_000_000);
}

#[test]
fn decimal_degrees_rejects_single_token() {
    assert_eq!(parse_coord4("45.5"), None);
    assert_eq!(parse_coord4(""), None);
}

#[test]
fn decimal_degrees_rejects_non_numeric() {
    assert_eq!(parse_coord4("45.5 north"), None);
    assert_eq!(parse_coord4("x 30"), None);
}

#[test]
fn decimal_degrees_normalizes() {
    let c = parse_coord4("450 100").expect("parsable");
    assert_eq!(c.right_ascension, 90 * 3_600_000_000i64);
    assert_eq!(c.declination, 90 * 3_600_000_000i64);
}

#[test]
fn parsed_coordinates_are_normalized() {
    let c = parse_coord("05 30 00 -99 00 00").expect("parsable");
    assert_eq!(c.declination, -90 * 3_600_000_000i64);
    assert_eq!(c, EquatorialCoordinate::new(297_000_000_000, -99 * 3_600_000_000i64));
}

#[test]
fn tokenize_splits_on_runs_of_whitespace() {
    let tokens = tokenize(b"  ab   cd \t e ");
    assert_eq!(tokens.len(), 3);
    assert_eq!(tokens[0], b"ab".to_vec());
    assert_eq!(tokens[1], b"cd".to_vec());
    assert_eq!(tokens[2], b"e".to_vec());
    assert_eq!(tokenize(b"   ").len(), 0);
}

#[test]
fn unsigned_parser_handles_leading_zeros_and_caps() {
    assert_eq!(parse_uint(&b"007"[..], 255), Some(7));
    assert_eq!(parse_uint(&b"000000000012"[..], 255), Some(12));
    assert_eq!(parse_uint(&b"256"[..], 255), None);
    assert_eq!(parse_uint(&b""[..], 255), None);
    assert_eq!(parse_uint(&b"12a"[..], 255), None);
    assert_eq!(parse_uint(&b"99999999999999999999999999"[..], 255), None);
}

#[test]
fn fixed_point_parser_scales_and_truncates() {
    assert_eq!(parse_fixed(&b"30"[..], 3, 4_000_000), Some(30_000));
    assert_eq!(parse_fixed(&b"30.5"[..], 3, 4_000_000), Some(30_500));
    assert_eq!(parse_fixed(&b"30."[..], 3, 4_000_000), Some(30_000));
    assert_eq!(parse_fixed(&b"30.1239"[..], 3, 4_000_000), Some(30_123));
    assert_eq!(parse_fixed(&b".5"[..], 3, 4_000_000), None);
    assert_eq!(parse_fixed(&b"1.2.3"[..], 3, 4_000_000), None);
}
