use palm_beach_county_appraiser_fl::cli::ConfigCmd;
use palm_beach_county_appraiser_fl::commands::config::{config_action, ConfigAction};
use palm_beach_county_appraiser_fl::commands::{resolve_limit, DEFAULT_LIMIT};
use palm_beach_county_appraiser_fl::config;
use palm_beach_county_appraiser_fl::config::{load, unset, Config};

#[test]
fn sets_and_unsets_known_keys() {
    let mut cfg = Config::default();
    config::set(&mut cfg, "municipality", "jupiter").unwrap();
    assert_eq!(cfg.municipality.as_deref(), Some("JUPITER"));
    assert!(unset(&mut cfg, "municipality").unwrap());
    assert!(!unset(&mut cfg, "municipality").unwrap());
}

#[test]
fn normalizes_municipality_to_the_stored_casing() {
    let mut cfg = Config::default();
    config::set(&mut cfg, "municipality", "  west palm   beach ").unwrap();
    assert_eq!(cfg.municipality.as_deref(), Some("WEST PALM BEACH"));
}

#[test]
fn rejects_bad_limits_and_unknown_keys() {
    let mut cfg = Config::default();
    assert_eq!(config::set(&mut cfg, "limit", "abc").unwrap_err().exit_code(), 2);
    assert!(config::set(&mut cfg, "limit", "0").is_err());
    assert!(config::set(&mut cfg, "nope", "x").is_err());
    assert!(unset(&mut cfg, "nope").is_err());
    config::set(&mut cfg, "limit", "25").unwrap();
    assert_eq!(cfg.limit, Some(25));
}

#[test]
fn limit_precedence_is_flag_then_config_then_default() {
    let mut cfg = Config::default();
    assert_eq!(resolve_limit(None, &cfg), DEFAULT_LIMIT);
    cfg.limit = Some(10);
    assert_eq!(resolve_limit(None, &cfg), 10);
    assert_eq!(resolve_limit(Some(5), &cfg), 5);
}

#[test]
fn refusal_messages_say_what_is_wrong() {
    let mut cfg = Config::default();
    assert_eq!(
        config::set(&mut cfg, "limit", "abc").unwrap_err().message(),
        "limit must be a whole number, got `abc`"
    );
    assert_eq!(config::set(&mut cfg, "limit", "0").unwrap_err().message(), "limit must be at least 1");
    assert_eq!(
        config::set(&mut cfg, "nope", "x").unwrap_err().message(),
        "unknown config key `nope` (known: municipality, limit)"
    );
    assert_eq!(unset(&mut cfg, "nope").unwrap_err().exit_code(), 2);
    // A refused change leaves the preferences as they were.
    assert!(cfg.is_empty());
}

#[test]
fn a_limit_beyond_u32_is_not_a_whole_number() {
    let mut cfg = Config::default();
    assert!(config::set(&mut cfg, "limit", "4294967296").is_err());
    config::set(&mut cfg, "limit", "4294967295").unwrap();
    assert_eq!(cfg.limit, Some(4294967295));
    assert!(config::set(&mut cfg, "limit", "-1").is_err());
    // A leading plus sign is accepted, as for any whole number.
    config::set(&mut cfg, "limit", "+5").unwrap();
    assert_eq!(cfg.limit, Some(5));
}

#[test]
fn unset_after_set_restores_the_key() {
    let mut cfg = Config::default();
    config::set(&mut cfg, "limit", "7").unwrap();
    config::set(&mut cfg, "municipality", "jupiter").unwrap();
    assert!(unset(&mut cfg, "limit").unwrap());
    assert_eq!(cfg.limit, None);
    // The other key is untouched.
    assert_eq!(cfg.municipality.as_deref(), Some("JUPITER"));
}

#[test]
fn a_missing_file_loads_as_the_empty_configuration() {
    assert!(load(None).is_empty());
    let mut saved = Config::default();
    saved.limit = Some(3);
    assert_eq!(load(Some(saved)).limit, Some(3));
}

#[test]
fn config_subcommands_report_what_they_did() {
    let mut cfg = Config::default();
    let set_cmd = ConfigCmd::SetKey { key: "limit".to_string(), value: "9".to_string() };
    match config_action(&mut cfg, &set_cmd).unwrap() {
        ConfigAction::Save { notice } => assert_eq!(notice, "set limit"),
        other => panic!("expected a save, got {other:?}"),
    }
    assert_eq!(cfg.limit, Some(9));
    let unset_cmd = ConfigCmd::Unset { key: "limit".to_string() };
    match config_action(&mut cfg, &unset_cmd).unwrap() {
        ConfigAction::Save { notice } => assert_eq!(notice, "unset limit"),
        other => panic!("expected a save, got {other:?}"),
    }
    match config_action(&mut cfg, &unset_cmd).unwrap() {
        ConfigAction::Save { notice } => assert_eq!(notice, "limit was not set"),
        other => panic!("expected a save, got {other:?}"),
    }
    assert!(matches!(config_action(&mut cfg, &ConfigCmd::Path).unwrap(), ConfigAction::ShowPath));
    assert!(matches!(config_action(&mut cfg, &ConfigCmd::Show).unwrap(), ConfigAction::Show));
    let bad = ConfigCmd::SetKey { key: "color".to_string(), value: "red".to_string() };
    assert_eq!(config_action(&mut cfg, &bad).unwrap_err().exit_code(), 2);
}
