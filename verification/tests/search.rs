use palm_beach_county_appraiser_fl::commands::search::{build_query, plan_search};
use palm_beach_county_appraiser_fl::config::Config;

#[test]
fn address_search_is_a_prefix_like() {
    let (w, order) = build_query("100 EXAMPLE", false, None);
    assert_eq!(w, "SITE_ADDR_STR LIKE '100 EXAMPLE%'");
    assert_eq!(order, "SITE_ADDR_STR,PARID");
}

#[test]
fn owner_search_covers_both_owner_columns() {
    let (w, order) = build_query("SMITH J", true, None);
    assert_eq!(w, "(OWNER_NAME1 LIKE 'SMITH J%' OR OWNER_NAME2 LIKE 'SMITH J%')");
    assert_eq!(order, "OWNER_NAME1,PARID");
}

#[test]
fn a_bare_pcn_becomes_an_exact_match() {
    let (w, _) = build_query("12-34-56-78-90-123-4567", false, None);
    assert_eq!(w, "PARID='12345678901234567'");
    let (w2, _) = build_query("12345678901234567", false, None);
    assert_eq!(w, w2);
}

#[test]
fn owner_mode_never_reinterprets_the_query_as_a_pcn() {
    let (w, _) = build_query("12345678901234567", true, None);
    assert!(w.starts_with("(OWNER_NAME1 LIKE"));
}

#[test]
fn municipality_narrows_either_mode() {
    let (w, _) = build_query("MAIN ST", false, Some("JUPITER"));
    assert_eq!(w, "SITE_ADDR_STR LIKE 'MAIN ST%' AND MUNICIPALITY='JUPITER'");
    let (w, _) = build_query("DOE", true, Some("JUPITER"));
    assert!(w.ends_with(" AND MUNICIPALITY='JUPITER'"));
}

#[test]
fn an_empty_municipality_adds_no_clause() {
    let (w, _) = build_query("MAIN ST", false, Some(""));
    assert!(!w.contains("MUNICIPALITY"));
}

#[test]
fn apostrophes_are_escaped_not_injected() {
    let (w, _) = build_query("O'BRIEN", true, None);
    assert!(w.contains("O''BRIEN"), "{w}");
    assert!(!w.contains("O'BRIEN%'"), "unescaped quote leaked: {w}");
}

#[test]
fn injection_attempt_stays_inside_the_literal() {
    let (w, _) = build_query("X' OR '1'='1", false, None);
    assert_eq!(w, "SITE_ADDR_STR LIKE 'X'' OR ''1''=''1%'");
}

#[test]
fn a_pcn_match_ignores_the_municipality() {
    let (w, order) = build_query("12345678901234567", false, Some("JUPITER"));
    assert_eq!(w, "PARID='12345678901234567'");
    assert_eq!(order, "PARID");
}

#[test]
fn a_municipality_with_a_quote_is_escaped() {
    let (w, _) = build_query("MAIN ST", false, Some("PALM BEACH'S"));
    assert_eq!(w, "SITE_ADDR_STR LIKE 'MAIN ST%' AND MUNICIPALITY='PALM BEACH''S'");
}

#[test]
fn a_blank_query_is_a_usage_error() {
    let cfg = Config::default();
    let err = plan_search("   ", false, None, None, &cfg).unwrap_err();
    assert_eq!(err.exit_code(), 2);
    assert_eq!(err.message(), "search needs something to match on");
}

#[test]
fn a_search_plan_normalizes_and_falls_back_to_the_saved_settings() {
    let mut cfg = Config::default();
    cfg.municipality = Some("JUPITER".to_string());
    cfg.limit = Some(50);
    let plan = plan_search("  main   st ", false, None, None, &cfg).unwrap();
    assert_eq!(plan.where_clause, "SITE_ADDR_STR LIKE 'MAIN ST%' AND MUNICIPALITY='JUPITER'");
    assert_eq!(plan.order_by, "SITE_ADDR_STR,PARID");
    assert_eq!(plan.limit, 50);
}

#[test]
fn a_search_flag_beats_the_saved_settings() {
    let mut cfg = Config::default();
    cfg.municipality = Some("JUPITER".to_string());
    cfg.limit = Some(50);
    let plan = plan_search("doe", true, Some(" west palm beach"), Some(5), &cfg).unwrap();
    assert_eq!(
        plan.where_clause,
        "(OWNER_NAME1 LIKE 'DOE%' OR OWNER_NAME2 LIKE 'DOE%') AND MUNICIPALITY='WEST PALM BEACH'"
    );
    assert_eq!(plan.order_by, "OWNER_NAME1,PARID");
    assert_eq!(plan.limit, 5);
}

#[test]
fn a_search_without_settings_uses_the_default_limit() {
    let cfg = Config::default();
    let plan = plan_search("12-34-56-78-90-123-4567", false, None, None, &cfg).unwrap();
    assert_eq!(plan.where_clause, "PARID='12345678901234567'");
    assert_eq!(plan.order_by, "PARID");
    assert_eq!(plan.limit, 25);
}
