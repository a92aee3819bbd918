use palm_beach_county_appraiser_fl::money::Money;

fn amount(s: &str) -> Option<String> {
    Money::parse_usd(s).map(|m| {
        assert_eq!(m.currency, "USD");
        m.amount
    })
}

#[test]
fn provider_amounts_become_two_place_decimals() {
    assert_eq!(amount("425000").as_deref(), Some("425000.00"));
    assert_eq!(amount(" $1,234.5 ").as_deref(), Some("1234.50"));
    assert_eq!(amount("-$10").as_deref(), Some("-10.00"));
    assert_eq!(amount("007.25").as_deref(), Some("7.25"));
    assert_eq!(amount("0").as_deref(), Some("0.00"));
}

#[test]
fn what_is_not_an_amount_is_refused() {
    assert_eq!(amount("abc"), None);
    assert_eq!(amount("1.234"), None);
    assert_eq!(amount("$-10"), None);
    assert_eq!(amount(""), None);
    assert_eq!(amount("."), None);
    assert_eq!(amount("5."), None);
}

#[test]
fn amounts_read_with_a_dollar_sign_and_separators() {
    assert_eq!(Money::usd("425000.00".to_string()).display(), "$425,000.00");
    assert_eq!(Money::usd("-10.50".to_string()).display(), "-$10.50");
    assert_eq!(Money::usd("999.00".to_string()).display(), "$999.00");
    assert_eq!(Money::usd("1000.00".to_string()).display(), "$1,000.00");
}
