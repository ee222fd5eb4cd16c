use sdv_mods::comp_version;
use sdv_mods::is_numeric_version;
use std::cmp::Ordering::Equal;
use std::cmp::Ordering::Greater;
use std::cmp::Ordering::Less;

#[test]
fn test_cmp() {
    assert_eq!(comp_version("1.2.3", "1.2.3"), Equal);
    assert_eq!(comp_version("1.2.3", "1.2"), Greater);
    assert_eq!(comp_version("1.2.0", "1.2"), Equal);
    assert_eq!(comp_version("1", "1.2"), Less);
}

#[test]
fn comp_version_is_numeric_not_textual() {
    assert_eq!(comp_version("10.0", "9"), Greater);
    assert_eq!(comp_version("2", "10"), Less);
}

#[test]
fn comp_version_decides_at_the_first_differing_position() {
    assert_eq!(comp_version("2.0.0", "1.9.9"), Greater);
    assert_eq!(comp_version("1.2.9", "1.3.0"), Less);
    assert_eq!(comp_version("0.0.1", "0.0.2"), Less);
}

#[test]
fn numeric_version_check_accepts_dotted_numbers() {
    assert!(is_numeric_version("1.2.3"));
    assert!(is_numeric_version("1.2"));
    assert!(is_numeric_version("3"));
    assert!(is_numeric_version("4294967295"));
}

#[test]
fn numeric_version_check_rejects_everything_else() {
    assert!(!is_numeric_version(""));
    assert!(!is_numeric_version("abc"));
    assert!(!is_numeric_version("1.x"));
    assert!(!is_numeric_version("1..2"));
    assert!(!is_numeric_version("1.2.3.4"));
    assert!(!is_numeric_version("1.2.3-beta"));
    assert!(!is_numeric_version("4294967296"));
}

#[test]
fn comp_version_defaults_missing_positions_to_zero() {
    assert_eq!(comp_version("1.0.0", "1"), Equal);
    assert_eq!(comp_version("1.2", "1.2.1"), Less);
}
