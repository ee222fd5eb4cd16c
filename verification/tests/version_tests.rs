use sdv_mods::ParseError;
use sdv_mods::Version;

#[test]
fn parse_full_version() {
    let v = Version::parse("1.2.3").unwrap();
    assert_eq!(v, Version::new(1, 2, 3, String::new()));
}

#[test]
fn parse_two_segments_defaults_patch() {
    let v = Version::parse("1.2").unwrap();
    assert_eq!(v, Version::new(1, 2, 0, String::new()));
}

#[test]
fn parse_single_segment_defaults_rest() {
    let v = Version::parse("3").unwrap();
    assert_eq!(v, Version::new(3, 0, 0, String::new()));
}

#[test]
fn parse_build_suffix_kept_verbatim() {
    let v = Version::parse("1.2.3-beta").unwrap();
    assert_eq!(v, Version::new(1, 2, 3, "-beta".to_owned()));
    assert_eq!(v.build(), "-beta");
}

#[test]
fn parse_empty_string_fails_empty() {
    assert_eq!(Version::parse(""), Err(ParseError::Empty));
}

#[test]
fn parse_non_numeric_major_fails_numeric() {
    assert_eq!(Version::parse("abc"), Err(ParseError::NumericParse));
}

#[test]
fn parse_non_numeric_minor_fails_numeric() {
    assert_eq!(Version::parse("1.x"), Err(ParseError::NumericParse));
}

#[test]
fn parse_empty_minor_fails_empty() {
    assert_eq!(Version::parse("1."), Err(ParseError::Empty));
}

#[test]
fn parse_empty_third_segment_fails_empty() {
    assert_eq!(Version::parse("1.2."), Err(ParseError::Empty));
}

#[test]
fn parse_non_digit_leading_third_segment_fails_invalid() {
    assert_eq!(Version::parse("1.2.x"), Err(ParseError::InvalidFormat));
}

#[test]
fn parse_major_overflow_fails_numeric() {
    assert_eq!(Version::parse("70000"), Err(ParseError::NumericParse));
}

#[test]
fn parse_patch_overflow_fails_numeric() {
    assert_eq!(Version::parse("1.2.70000x"), Err(ParseError::NumericParse));
}

#[test]
fn parse_ignores_segments_past_the_third() {
    let v = Version::parse("1.2.3.4").unwrap();
    assert_eq!(v, Version::new(1, 2, 3, String::new()));
}

#[test]
fn parse_splits_patch_digits_from_suffix() {
    let v = Version::parse("1.2.34beta").unwrap();
    assert_eq!(v, Version::new(1, 2, 34, "beta".to_owned()));
}

#[test]
fn display_is_canonical() {
    assert_eq!(Version::new(1, 2, 3, String::new()).to_display_string(), "1.2.3");
    assert_eq!(Version::new(0, 0, 0, String::new()).to_display_string(), "0.0.0");
    assert_eq!(Version::new(65535, 10, 200, String::new()).to_display_string(), "65535.10.200");
}

#[test]
fn display_appends_suffix_without_separator() {
    assert_eq!(Version::new(1, 2, 3, "-beta".to_owned()).to_display_string(), "1.2.3-beta");
}

#[test]
fn round_trip_holds_on_canonical_strings() {
    for s in ["1.2.3", "1.2.3-beta", "0.0.0", "10.20.30+build7"] {
        let v = Version::parse(s).unwrap();
        assert_eq!(v.to_display_string(), s);
    }
}

#[test]
fn round_trip_canonicalizes_short_forms() {
    let v = Version::parse("1.2").unwrap();
    assert_eq!(v.to_display_string(), "1.2.0");
    let v = Version::parse("3").unwrap();
    assert_eq!(v.to_display_string(), "3.0.0");
}

#[test]
fn reparsing_a_display_gives_the_same_version() {
    for s in ["1.2", "3", "1.2.3-beta", "1.2.3.4"] {
        let v = Version::parse(s).unwrap();
        let w = Version::parse(&v.to_display_string()).unwrap();
        assert_eq!(w, v);
    }
}

#[test]
fn ordering_is_by_numeric_components_first() {
    assert!(Version::parse("2.0.0").unwrap() > Version::parse("1.0.0").unwrap());
    assert!(Version::parse("1.2.3").unwrap() < Version::parse("1.10.0").unwrap());
    assert!(Version::parse("1.2.3").unwrap() < Version::parse("1.2.10").unwrap());
}

#[test]
fn empty_build_sorts_before_non_empty() {
    assert!(Version::parse("1.0.0").unwrap() < Version::parse("1.0.0-beta").unwrap());
}

#[test]
fn build_suffixes_compare_as_raw_strings() {
    assert!(Version::new(1, 0, 0, "-alpha".to_owned()) < Version::new(1, 0, 0, "-beta".to_owned()));
    assert!(Version::new(1, 0, 0, "-a".to_owned()) < Version::new(1, 0, 0, "-ab".to_owned()));
    assert_eq!(Version::new(1, 0, 0, "-a".to_owned()), Version::new(1, 0, 0, "-a".to_owned()));
}

#[test]
fn component_getters() {
    let v = Version::new(4, 5, 6, "-rc1".to_owned());
    assert_eq!(v.major(), 4);
    assert_eq!(v.minor(), 5);
    assert_eq!(v.patch(), 6);
    assert_eq!(v.build(), "-rc1");
}

#[test]
fn error_messages_name_the_failure() {
    assert_eq!(ParseError::Empty.message(), "segment is empty");
    assert_eq!(ParseError::InvalidFormat.message(), "invalid format");
    assert_eq!(ParseError::NumericParse.message(), "cannot parse segment as a 16-bit number");
}
