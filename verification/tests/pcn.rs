use palm_beach_county_appraiser_fl::commands::parse_pcn;
use palm_beach_county_appraiser_fl::error::AppError;
use palm_beach_county_appraiser_fl::pcn::Pcn;

// Synthetic PCNs only.
const BARE: &str = "12345678901234567";
const DASHED: &str = "12-34-56-78-90-123-4567";

#[test]
fn parses_bare_and_dashed_to_the_same_value() {
    assert_eq!(Pcn::parse(BARE).unwrap(), Pcn::parse(DASHED).unwrap());
}

#[test]
fn round_trips_between_forms() {
    let p = Pcn::parse(BARE).unwrap();
    assert_eq!(p.bare(), BARE);
    assert_eq!(p.dashed(), DASHED);
    assert_eq!(Pcn::parse(&p.dashed()).unwrap().bare(), BARE);
}

#[test]
fn display_uses_the_dashed_form() {
    assert_eq!(Pcn::parse(BARE).unwrap().dashed(), DASHED);
}

#[test]
fn tolerates_spaces_dots_and_underscores() {
    assert!(Pcn::parse("12 34 56 78 90 123 4567").is_ok());
    assert!(Pcn::parse("12.34.56.78.90.123.4567").is_ok());
}

#[test]
fn rejects_wrong_length() {
    let err = Pcn::parse("1234").unwrap_err();
    assert_eq!(err.exit_code(), 2, "bad input is a usage error");
    assert!(Pcn::parse(&"9".repeat(18)).is_err());
    assert!(Pcn::parse("").is_err());
}

#[test]
fn rejects_non_numeric_input() {
    assert!(Pcn::parse("100 EXAMPLE ST").is_err());
    assert!(Pcn::parse("SMITH JOHN").is_err());
}

#[test]
fn underscores_are_separators_too() {
    let p = Pcn::parse("12_34_56_78_90_123_4567").unwrap();
    assert_eq!(p.bare(), BARE);
}

#[test]
fn wrong_length_message_counts_the_digits() {
    let err = Pcn::parse("1234").unwrap_err();
    assert_eq!(
        err.message(),
        "a parcel control number has 17 digits, `1234` has 4 — e.g. 12-34-56-78-90-123-4567"
    );
}

#[test]
fn letters_are_named_in_the_message() {
    let err = Pcn::parse("SMITH JOHN").unwrap_err();
    assert_eq!(err.exit_code(), 2);
    assert_eq!(
        err.message(),
        "`SMITH JOHN` is not a parcel control number — expected 17 digits, e.g. 12-34-56-78-90-123-4567 or 12345678901234567"
    );
}

#[test]
fn the_command_helper_parses_like_the_type() {
    assert_eq!(parse_pcn(DASHED).unwrap(), Pcn::parse(BARE).unwrap());
    assert_eq!(parse_pcn("12").unwrap_err().exit_code(), 2);
}

#[test]
fn bare_form_parses_to_itself() {
    let p = Pcn::parse(DASHED).unwrap();
    let q = Pcn::parse(p.bare()).unwrap();
    assert_eq!(p, q);
    assert_eq!(q.dashed(), DASHED);
}

#[test]
fn errors_map_onto_the_documented_exit_codes() {
    assert_eq!(AppError::Usage("u".into()).exit_code(), 2);
    assert_eq!(AppError::NotFound("n".into()).exit_code(), 4);
    assert_eq!(AppError::Upstream("x".into()).exit_code(), 5);
    assert_eq!(AppError::Other("o".into()).exit_code(), 1);
    assert_eq!(AppError::Other("o".into()).message(), "o");
}
