use palm_beach_county_appraiser_fl::client::{
    check_arcgis_error, count_from_body, parcel_where, Paging, MAX_RECORD_COUNT,
};
use palm_beach_county_appraiser_fl::commands::search::{plan_search, search_paging, search_results};
use palm_beach_county_appraiser_fl::config::Config;
use palm_beach_county_appraiser_fl::json::{Json, Member, Number};
use serde_json::Value;

fn number(n: &serde_json::Number) -> Number {
    let f = n.as_f64().unwrap_or(0.0);
    Number {
        text: n.to_string(),
        int: n.as_i64(),
        uint: n.as_u64(),
        fixed2: format!("{f:.2}"),
        plain: format!("{f}"),
        positive: f > 0.0,
    }
}

fn to_json(v: &Value) -> Json {
    match v {
        Value::Null => Json::Null,
        Value::Bool(b) => Json::Bool(*b),
        Value::Number(n) => Json::Number(number(n)),
        Value::String(s) => Json::Str(s.clone()),
        Value::Array(a) => Json::Array(a.iter().map(to_json).collect()),
        Value::Object(o) => Json::Object(
            o.iter().map(|(k, v)| Member { key: k.clone(), value: to_json(v) }).collect(),
        ),
    }
}

fn body(text: &str) -> Json {
    to_json(&serde_json::from_str::<Value>(text).unwrap())
}

#[test]
fn clean_response_is_not_an_error() {
    assert!(check_arcgis_error(&body(r#"{"features": []}"#)).is_ok());
}

#[test]
fn http_200_error_body_becomes_a_usage_error() {
    let b = body(
        r#"{"error": {"code": 400, "message": "Unable to complete operation.",
            "details": ["Unable to perform query."]}}"#,
    );
    let err = check_arcgis_error(&b).unwrap_err();
    assert_eq!(err.exit_code(), 2);
    assert!(err.message().contains("Unable to perform query"));
}

#[test]
fn unknown_error_codes_map_to_upstream() {
    let err = check_arcgis_error(&body(r#"{"error": {"code": 500, "message": "boom"}}"#))
        .unwrap_err();
    assert_eq!(err.exit_code(), 5);
}

#[test]
fn missing_layer_maps_to_not_found() {
    let err = check_arcgis_error(&body(r#"{"error": {"code": 404, "message": "gone"}}"#))
        .unwrap_err();
    assert_eq!(err.exit_code(), 4);
}

#[test]
fn error_without_details_still_reports_the_message() {
    let err = check_arcgis_error(&body(r#"{"error": {"code": 400, "message": "bad where"}}"#))
        .unwrap_err();
    assert!(err.message().contains("bad where"));
}

#[test]
fn error_messages_are_exact() {
    let b = body(
        r#"{"error": {"code": 400, "message": "Unable to complete operation.",
            "details": ["a", 3, "b"]}}"#,
    );
    assert_eq!(
        check_arcgis_error(&b).unwrap_err().message(),
        "ArcGIS rejected the query: Unable to complete operation. (a; b)"
    );
    let b = body(r#"{"error": {"code": -7, "details": []}}"#);
    assert_eq!(
        check_arcgis_error(&b).unwrap_err().message(),
        "ArcGIS error -7: unspecified ArcGIS error"
    );
    let b = body(r#"{"error": {"message": "x"}}"#);
    assert_eq!(check_arcgis_error(&b).unwrap_err().message(), "ArcGIS error 0: x");
    let b = body(r#"{"error": {"code": 404, "message": "gone"}}"#);
    assert_eq!(check_arcgis_error(&b).unwrap_err().message(), "ArcGIS layer not found: gone");
}

#[test]
fn a_count_response_gives_its_total() {
    assert_eq!(count_from_body(&body(r#"{"count": 837}"#)).unwrap(), 837);
    let err = count_from_body(&body(r#"{"features": []}"#)).unwrap_err();
    assert_eq!(err.exit_code(), 5);
    assert_eq!(err.message(), "ArcGIS count response had no `count`");
    let err = count_from_body(&body(r#"{"error": {"code": 400, "message": "bad"}}"#)).unwrap_err();
    assert_eq!(err.exit_code(), 2);
}

#[test]
fn one_parcel_is_selected_by_its_quoted_pcn() {
    assert_eq!(parcel_where("12345678901234567"), "PARID='12345678901234567'");
    assert_eq!(parcel_where("1'2"), "PARID='1''2'");
}

fn page(n: usize, more: bool) -> Json {
    let feats: Vec<String> = (0..n)
        .map(|i| format!(r#"{{"attributes": {{"PARID": "{:017}"}}}}"#, i))
        .collect();
    body(&format!(
        r#"{{"features": [{}], "exceededTransferLimit": {}}}"#,
        feats.join(", "),
        more
    ))
}

#[test]
fn paging_asks_for_what_is_still_wanted() {
    let mut p = Paging::new(7000);
    let q = p.next_request().unwrap();
    assert_eq!((q.offset, q.count), (0, MAX_RECORD_COUNT));
    p.receive(page(5000, true)).unwrap();
    let q = p.next_request().unwrap();
    assert_eq!((q.offset, q.count), (5000, 2000));
    p.receive(page(2000, true)).unwrap();
    assert!(p.next_request().is_none());
    assert_eq!(p.into_rows().len(), 7000);
}

#[test]
fn paging_stops_on_a_short_or_final_page() {
    let mut p = Paging::new(100);
    p.receive(page(40, true)).unwrap();
    assert!(p.next_request().is_none(), "a short page means nothing more");
    assert_eq!(p.into_rows().len(), 40);

    let mut p = Paging::new(100);
    p.receive(page(100, false)).unwrap();
    assert!(p.next_request().is_none());

    let mut p = Paging::new(10);
    p.receive(page(0, true)).unwrap();
    assert!(p.next_request().is_none(), "an empty page ends the query");
}

#[test]
fn paging_never_returns_more_than_the_limit() {
    let mut p = Paging::new(3);
    p.receive(page(5, true)).unwrap();
    let rows = p.into_rows();
    assert_eq!(rows.len(), 3);
}

#[test]
fn an_error_page_fails_the_query_and_keeps_the_rows() {
    let mut p = Paging::new(10);
    let err = p.receive(body(r#"{"error": {"code": 500, "message": "boom"}}"#)).unwrap_err();
    assert_eq!(err.exit_code(), 5);
    assert_eq!(err.message(), "ArcGIS error 500: boom");
    assert_eq!(p.next_request().unwrap().offset, 0);
}

#[test]
fn search_results_skip_rows_without_a_parcel_id() {
    let rows = vec![
        body(r#"{"PARID": "12345678901234567", "OWNER_NAME1": "DOE JANE"}"#),
        body(r#"{"OWNER_NAME1": "NOBODY"}"#),
        body(r#"{"PARID": "76543210987654321", "TOTAL_MARKET": 1.5}"#),
    ];
    let list = search_results(&rows, 3);
    assert_eq!(list.items.len(), 2);
    assert_eq!(list.items[0].pcn, "12-34-56-78-90-123-4567");
    assert_eq!(list.items[1].market_value.as_ref().unwrap().amount, "1.50");
    assert_eq!(list.total, 3);
    assert!(list.truncated);
}

#[test]
fn a_search_with_no_match_fetches_nothing() {
    let plan = plan_search("main st", false, None, Some(7), &Config::default()).unwrap();
    assert!(search_paging(&plan, 0).next_request().is_none());
    let q = search_paging(&plan, 3).next_request().unwrap();
    assert_eq!((q.offset, q.count), (0, 7));
}
