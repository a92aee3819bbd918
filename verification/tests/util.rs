use palm_beach_county_appraiser_fl::util::{iso_from_epoch_ms, normalize_query, sql_escape};

#[test]
fn converts_epoch_ms_to_iso() {
    assert_eq!(iso_from_epoch_ms(946_684_800_000).as_deref(), Some("2000-01-01"));
    assert_eq!(iso_from_epoch_ms(1_592_179_200_000).as_deref(), Some("2020-06-15"));
}

#[test]
fn treats_epoch_zero_as_no_date() {
    assert_eq!(iso_from_epoch_ms(0), None);
}

#[test]
fn handles_pre_epoch_dates() {
    assert_eq!(iso_from_epoch_ms(-86_400_000).as_deref(), Some("1969-12-31"));
}

#[test]
fn escapes_apostrophes_for_sql() {
    assert_eq!(sql_escape("O'BRIEN"), "O''BRIEN");
    assert_eq!(sql_escape("SMITH"), "SMITH");
}

#[test]
fn normalizes_case_and_whitespace() {
    assert_eq!(normalize_query("  100   example st "), "100 EXAMPLE ST");
    assert_eq!(normalize_query("smith j"), "SMITH J");
}

#[test]
fn leap_days_and_year_ends_convert() {
    // 2000-02-29, a leap day of a century year divisible by 400.
    assert_eq!(iso_from_epoch_ms(951_782_400_000).as_deref(), Some("2000-02-29"));
    // 1999-12-31, the last day before it.
    assert_eq!(iso_from_epoch_ms(946_598_400_000).as_deref(), Some("1999-12-31"));
    // 1900-03-01: 1900 is not a leap year.
    assert_eq!(iso_from_epoch_ms(-2_203_891_200_000).as_deref(), Some("1900-03-01"));
}

#[test]
fn a_time_within_the_day_keeps_its_date() {
    // 2020-06-15 23:59:59.999 UTC.
    assert_eq!(iso_from_epoch_ms(1_592_265_599_999).as_deref(), Some("2020-06-15"));
    // 1969-12-31 00:00:00.001 UTC, just after a pre-epoch midnight.
    assert_eq!(iso_from_epoch_ms(-86_399_999).as_deref(), Some("1969-12-31"));
    // One millisecond before the epoch.
    assert_eq!(iso_from_epoch_ms(-1).as_deref(), Some("1969-12-31"));
}

#[test]
fn escaped_text_doubles_every_quote() {
    assert_eq!(sql_escape("''"), "''''");
    assert_eq!(sql_escape(""), "");
    assert_eq!(sql_escape("X' OR '1'='1"), "X'' OR ''1''=''1");
}

#[test]
fn normalizing_blank_input_leaves_nothing() {
    assert_eq!(normalize_query("   \t  "), "");
    assert_eq!(normalize_query(""), "");
}

#[test]
fn normalizing_twice_changes_nothing() {
    let once = normalize_query("  west palm\t  beach ");
    assert_eq!(once, "WEST PALM BEACH");
    assert_eq!(normalize_query(&once), once);
}

#[test]
fn non_ascii_text_is_upper_cased_and_collapsed() {
    assert_eq!(normalize_query("  café\u{a0} crème "), "CAFÉ CRÈME");
    assert_eq!(normalize_query("straße"), "STRASSE");
}
