use palm_beach_county_appraiser_fl::commands::parcel::parcel_from_rows;
use palm_beach_county_appraiser_fl::json::{Json, Member, Number};
use palm_beach_county_appraiser_fl::model::{Parcel, ParcelList, ParcelSummary};
use palm_beach_county_appraiser_fl::pcn::Pcn;
use serde_json::Value;

fn number(n: &serde_json::Number) -> Number {
    let f = n.as_f64().unwrap_or(0.0);
    Number {
        text: n.to_string(),
        int: n.as_i64(),
        uint: n.as_u64(),
        fixed2: format!("{f:.2}"),
        plain: format!("{f}"),
        positive: f > 0.0,
    }
}

fn to_json(v: &Value) -> Json {
    match v {
        Value::Null => Json::Null,
        Value::Bool(b) => Json::Bool(*b),
        Value::Number(n) => Json::Number(number(n)),
        Value::String(s) => Json::Str(s.clone()),
        Value::Array(a) => Json::Array(a.iter().map(to_json).collect()),
        Value::Object(o) => Json::Object(
            o.iter().map(|(k, v)| Member { key: k.clone(), value: to_json(v) }).collect(),
        ),
    }
}

/// Synthetic attributes shaped like a parcel-layer row. No real parcel data.
fn sample() -> Value {
    serde_json::from_str(
        r#"{
            "PARID": "12345678901234567",
            "OWNER_NAME1": "DOE JANE",
            "OWNER_NAME2": "DOE JOHN",
            "SITE_ADDR_STR": "100 EXAMPLE ST",
            "MUNICIPALITY": "TEST CITY",
            "PADDR1": "PO BOX 1",
            "PADDR2": "  ",
            "PADDR3": "C/O EXAMPLE TRUST",
            "CITYNAME": "TEST CITY",
            "STATE": "FL",
            "ZIP1": "33400",
            "ZIP2": "1234",
            "TOTAL_MARKET": 500000.0,
            "LAND_MARKET": 200000.0,
            "IMPRV_MRKT": 300000.0,
            "ASSESSED_VAL": 350000.5,
            "TOTAL_TAXABLE": 300000.0,
            "EXEMPTION": 50000.0,
            "HMSTD_FLG": "Y",
            "SALE_DATE": 1592179200000,
            "PRICE": "425000",
            "BOOK": "12345",
            "PAGE": "0678",
            "INSTRUMENT": "WD",
            "QUAL_CODE": "QM",
            "PROPERTY_USE": "0100",
            "SUBDIV_NAME": "EXAMPLE SUB",
            "ACRES": 0.25,
            "LEGAL1": "EXAMPLE SUB",
            "LEGAL2": "LT 58",
            "LEGAL3": "",
            "LATLNG": "26.9,-80.1",
            "CONFID_FLG": "N"
        }"#,
    )
    .unwrap()
}

fn parcel(v: &Value) -> Option<Parcel> {
    Parcel::from_attrs(&to_json(v))
}

fn summary(v: &Value) -> Option<ParcelSummary> {
    ParcelSummary::from_attrs(&to_json(v))
}

#[test]
fn builds_a_full_parcel() {
    let p = parcel(&sample()).unwrap();
    assert_eq!(p.schema, "parcel/v1");
    assert_eq!(p.pcn, "12-34-56-78-90-123-4567");
    assert_eq!(p.pcn_bare, "12345678901234567");
    assert_eq!(p.owners, vec!["DOE JANE", "DOE JOHN"]);
    assert_eq!(p.subdivision.as_deref(), Some("EXAMPLE SUB"));
    assert_eq!(p.acres.as_deref(), Some("0.25"));
    assert!(!p.confidential);
}

#[test]
fn money_never_serializes_as_a_float() {
    let p = parcel(&sample()).unwrap();
    let m = p.values.market_total.unwrap();
    assert_eq!(m.amount, "500000.00");
    assert_eq!(m.currency, "USD");
    // A fractional double rounds to two places rather than leaking `.5`.
    assert_eq!(p.values.assessed.unwrap().amount, "350000.50");
}

#[test]
fn price_string_field_parses_as_money() {
    let sale = parcel(&sample()).unwrap().last_sale.unwrap();
    assert_eq!(sale.price.unwrap().amount, "425000.00");
    assert_eq!(sale.date.as_deref(), Some("2020-06-15"));
}

#[test]
fn blank_fields_are_dropped_not_emitted_as_null() {
    let p = parcel(&sample()).unwrap();
    assert_eq!(p.mailing_address.lines, vec!["PO BOX 1"]);
    assert_eq!(p.legal_description.as_deref(), Some("EXAMPLE SUB LT 58"));
}

#[test]
fn combines_zip_plus_four() {
    let p = parcel(&sample()).unwrap();
    assert_eq!(p.mailing_address.zip.as_deref(), Some("33400-1234"));
    assert_eq!(p.mailing_address.one_line(), "PO BOX 1, TEST CITY FL 33400-1234");
}

#[test]
fn does_not_repeat_the_city_line_from_paddr3() {
    let mut attrs = sample();
    attrs["PADDR3"] = Value::from("TEST CITY FL 33400");
    let m = parcel(&attrs).unwrap().mailing_address;
    assert_eq!(m.lines, vec!["PO BOX 1"]);
    assert_eq!(m.one_line(), "PO BOX 1, TEST CITY FL 33400-1234");
}

#[test]
fn falls_back_to_paddr3_when_structured_fields_are_absent() {
    let mut attrs = sample();
    for k in ["CITYNAME", "STATE", "ZIP1", "ZIP2"] {
        attrs[k] = Value::Null;
    }
    attrs["PADDR3"] = Value::from("TEST CITY FL 33400");
    let m = parcel(&attrs).unwrap().mailing_address;
    assert_eq!(m.one_line(), "PO BOX 1, TEST CITY FL 33400");
}

#[test]
fn owner_line_drops_the_counties_et_al_ampersand() {
    let mut attrs = sample();
    attrs["OWNER_NAME1"] = Value::from("DOE JANE &");
    let s = summary(&attrs).unwrap();
    assert_eq!(s.owner.as_deref(), Some("DOE JANE & DOE JOHN"));
    assert_eq!(parcel(&attrs).unwrap().owners, vec!["DOE JANE &", "DOE JOHN"]);
}

#[test]
fn sole_owner_with_a_trailing_ampersand_renders_cleanly() {
    let mut attrs = sample();
    attrs["OWNER_NAME1"] = Value::from("DOE JANE &");
    attrs["OWNER_NAME2"] = Value::Null;
    let s = summary(&attrs).unwrap();
    assert_eq!(s.owner.as_deref(), Some("DOE JANE"));
}

#[test]
fn homestead_flag_maps_to_bool() {
    assert_eq!(parcel(&sample()).unwrap().values.homestead, Some(true));
    let mut attrs = sample();
    attrs["HMSTD_FLG"] = Value::from("N");
    assert_eq!(parcel(&attrs).unwrap().values.homestead, Some(false));
}

#[test]
fn flags_confidential_owners() {
    let mut attrs = sample();
    attrs["CONFID_FLG"] = Value::from("Y");
    let p = parcel(&attrs).unwrap();
    assert!(p.confidential);
    assert!(summary(&attrs).unwrap().confidential);
}

#[test]
fn parcel_without_a_recorded_sale_omits_it() {
    let mut attrs = sample();
    for k in ["SALE_DATE", "PRICE", "BOOK", "PAGE", "INSTRUMENT", "QUAL_CODE"] {
        attrs[k] = Value::Null;
    }
    assert!(parcel(&attrs).unwrap().last_sale.is_none());
}

#[test]
fn requires_a_parcel_id() {
    let mut attrs = sample();
    attrs["PARID"] = Value::Null;
    assert!(summary(&attrs).is_none());
    attrs["PARCEL_NUMBER"] = Value::from("12345678901234567");
    assert!(parcel(&attrs).is_some());
}

#[test]
fn summary_joins_both_owner_names() {
    let s = summary(&sample()).unwrap();
    assert_eq!(s.owner.as_deref(), Some("DOE JANE & DOE JOHN"));
    assert_eq!(s.situs_address.as_deref(), Some("100 EXAMPLE ST"));
}

#[test]
fn list_computes_truncation_from_the_server_total() {
    let list = ParcelList::new(vec![summary(&sample()).unwrap()], 37);
    assert_eq!(list.schema, "parcel-list/v1");
    assert!(list.truncated);
    assert!(!ParcelList::new(vec![summary(&sample()).unwrap()], 1).truncated);
}

#[test]
fn summary_carries_the_search_columns() {
    let s = summary(&sample()).unwrap();
    assert_eq!(s.pcn, "12-34-56-78-90-123-4567");
    assert_eq!(s.municipality.as_deref(), Some("TEST CITY"));
    assert_eq!(s.market_value.unwrap().amount, "500000.00");
    assert_eq!(s.assessed_value.unwrap().amount, "350000.50");
    assert_eq!(s.property_use.as_deref(), Some("0100"));
    let sale = s.last_sale.unwrap();
    assert_eq!(sale.book.as_deref(), Some("12345"));
    assert_eq!(sale.page.as_deref(), Some("0678"));
    assert_eq!(sale.instrument.as_deref(), Some("WD"));
    assert_eq!(sale.qualification_code.as_deref(), Some("QM"));
    assert!(!s.confidential);
}

#[test]
fn a_malformed_parcel_id_is_shown_as_published() {
    let mut attrs = sample();
    attrs["PARID"] = Value::from("  ABC-1 ");
    let p = parcel(&attrs).unwrap();
    assert_eq!(p.pcn, "ABC-1");
    assert_eq!(p.pcn_bare, "ABC-1");
}

#[test]
fn the_remaining_values_and_property_fields_are_read() {
    let p = parcel(&sample()).unwrap();
    assert_eq!(p.values.market_land.unwrap().amount, "200000.00");
    assert_eq!(p.values.market_improvement.unwrap().amount, "300000.00");
    assert_eq!(p.values.taxable.unwrap().amount, "300000.00");
    assert_eq!(p.values.exemption.unwrap().amount, "50000.00");
    assert_eq!(p.situs_address.as_deref(), Some("100 EXAMPLE ST"));
    assert_eq!(p.municipality.as_deref(), Some("TEST CITY"));
    assert_eq!(p.property_use.as_deref(), Some("0100"));
    assert_eq!(p.coordinates.as_deref(), Some("26.9,-80.1"));
    assert_eq!(p.mailing_address.city.as_deref(), Some("TEST CITY"));
    assert_eq!(p.mailing_address.state.as_deref(), Some("FL"));
    assert!(p.building.is_none());
}

#[test]
fn a_zero_acreage_is_left_out() {
    let mut attrs = sample();
    attrs["ACRES"] = serde_json::from_str("0.0").unwrap();
    assert!(parcel(&attrs).unwrap().acres.is_none());
}

#[test]
fn an_empty_mailing_address_is_empty() {
    let mut attrs = sample();
    for k in ["PADDR1", "PADDR2", "PADDR3", "CITYNAME", "STATE", "ZIP1", "ZIP2"] {
        attrs[k] = Value::Null;
    }
    let m = parcel(&attrs).unwrap().mailing_address;
    assert!(m.is_empty());
    assert_eq!(m.one_line(), "");
}

#[test]
fn an_epoch_zero_sale_date_is_no_date() {
    let mut attrs = sample();
    attrs["SALE_DATE"] = Value::from(0);
    let sale = parcel(&attrs).unwrap().last_sale.unwrap();
    assert!(sale.date.is_none());
    assert_eq!(sale.price.unwrap().amount, "425000.00");
}

#[test]
fn a_shown_pcn_feeds_back_into_the_parser() {
    let s = summary(&sample()).unwrap();
    let p = Pcn::parse(&s.pcn).unwrap();
    assert_eq!(p.bare(), "12345678901234567");
    let full = parcel(&sample()).unwrap();
    assert_eq!(
        Pcn::parse(&full.pcn_bare).unwrap(),
        p
    );
}

#[test]
fn the_parcel_command_reads_the_first_row() {
    let pcn = Pcn::parse("12345678901234567").unwrap();
    let p = parcel_from_rows(&pcn, &vec![to_json(&sample())]).unwrap();
    assert_eq!(p.pcn, "12-34-56-78-90-123-4567");

    let err = parcel_from_rows(&pcn, &vec![]).unwrap_err();
    assert_eq!(err.exit_code(), 4);
    assert_eq!(err.message(), "no parcel with control number 12-34-56-78-90-123-4567");

    let mut attrs = sample();
    attrs["PARID"] = Value::Null;
    let err = parcel_from_rows(&pcn, &vec![to_json(&attrs)]).unwrap_err();
    assert_eq!(err.exit_code(), 5);
    assert_eq!(err.message(), "the parcel layer returned a row without a parcel id");
}
