use palm_beach_county_appraiser_fl::commands::keep_first;
use palm_beach_county_appraiser_fl::details::{
    check_detail_status, details_from_model, detail_url, extract_model, iso_date, Details,
};
use palm_beach_county_appraiser_fl::error::AppError;
use palm_beach_county_appraiser_fl::json::{Json, Member, Number};
use palm_beach_county_appraiser_fl::pcn::Pcn;
use serde_json::Value;

fn number(n: &serde_json::Number) -> Number {
    let f = n.as_f64().unwrap_or(0.0);
    Number {
        text: n.to_string(),
        int: n.as_i64(),
        uint: n.as_u64(),
        fixed2: format!("{f:.2}"),
        plain: format!("{f}"),
        positive: f > 0.0,
    }
}

fn to_json(v: &Value) -> Json {
    match v {
        Value::Null => Json::Null,
        Value::Bool(b) => Json::Bool(*b),
        Value::Number(n) => Json::Number(number(n)),
        Value::String(s) => Json::Str(s.clone()),
        Value::Array(a) => Json::Array(a.iter().map(to_json).collect()),
        Value::Object(o) => Json::Object(
            o.iter().map(|(k, v)| Member { key: k.clone(), value: to_json(v) }).collect(),
        ),
    }
}

/// The detail page read end to end: the data block's text, parsed as JSON,
/// then read into [`Details`].
fn parse(html: &str) -> Result<Details, AppError> {
    let text = extract_model(html)?;
    let v: Value = serde_json::from_str(&text)
        .map_err(|e| AppError::Upstream(format!("parsing the detail page's data block: {e}")))?;
    Ok(details_from_model(&to_json(&v)))
}

const MODEL: &str = r#"{
    "propertyDetail": { "Location": "100 EXAMPLE ST {not a brace}" },
    "salesInfo": [
        {"SaleDate": "06/15/2020", "Price": "425000", "Book": "12345",
         "Page": "00678", "SaleType": "WARRANTY DEED", "OwnerName": "DOE JANE"},
        {"SaleDate": "3/9/2011", "Price": "10", "Book": "23456",
         "Page": "00042", "SaleType": "QUIT CLAIM", "OwnerName": ""}
    ],
    "appraisalInfo": [
        {"TaxYear": "2024", "ImprovementValue": "300000",
         "LandValue": "250000", "TotalMarketValue": "550000"},
        {"TaxYear": "2025", "ImprovementValue": "320000",
         "LandValue": "280000", "TotalMarketValue": "600000"}
    ],
    "assessmentInfo": [
        {"TaxYear": "2025", "TaxableValue": "350000",
         "ExemptionAmount": "50000", "AssessedValue": "400000"}
    ],
    "taxInfo": [
        {"TaxYear": "2025", "AdValoremTax": "5800",
         "NonAdValoremTax": "200", "TotalTaxValue": "6000"}
    ],
    "exemptionInfo": [
        {"Description": "HOMESTEAD", "TaxYear": "2026",
         "ApplicantName": "DOE JANE", "SOHBaseYear": "2015"},
        {"Description": "", "TaxYear": "2026"}
    ],
    "structuralDetails": {
        "BuildingNumbers": ["1"],
        "StructuralElements": [
            {"ElementName": "Year Built", "ElementValue": "1990"},
            {"ElementName": "Total Square Footage", "ElementValue": "2800"},
            {"ElementName": "Area Under Air", "ElementValue": "2000"},
            {"ElementName": "Exterior Wall 1", "ElementValue": "CB STUCCO"},
            {"ElementName": "Blank", "ElementValue": ""}
        ]
    }
}"#;

/// A synthetic page shaped like the county's. No real parcel data.
fn page() -> String {
    format!("<html><body><script>\n  var model = {MODEL};\n</script></body></html>")
}

#[test]
fn extracts_the_embedded_model_past_braces_in_strings() {
    let text = extract_model(&page()).unwrap();
    let v: Value = serde_json::from_str(&text).unwrap();
    assert_eq!(v["propertyDetail"]["Location"], "100 EXAMPLE ST {not a brace}");
    assert!(v["salesInfo"].is_array());
}

#[test]
fn reports_a_markup_change_instead_of_panicking() {
    let err = parse("<html><body>no data here</body></html>").unwrap_err();
    assert_eq!(err.exit_code(), 5, "a changed site is an upstream failure");
    assert!(err.message().contains("var model"));
}

#[test]
fn reports_a_truncated_model_block() {
    let err = parse("<script>var model = {\"a\": 1</script>").unwrap_err();
    assert_eq!(err.exit_code(), 5);
}

#[test]
fn parses_full_sale_history_with_iso_dates() {
    let d = parse(&page()).unwrap();
    assert_eq!(d.sales.len(), 2, "every recorded sale, not just the latest");
    assert_eq!(d.sales[0].date.as_deref(), Some("2020-06-15"));
    assert_eq!(d.sales[0].owner.as_deref(), Some("DOE JANE"));
    assert_eq!(d.sales[0].price.as_ref().unwrap().amount, "425000.00");
    assert_eq!(d.sales[1].date.as_deref(), Some("2011-03-09"));
    assert_eq!(d.sales[1].price.as_ref().unwrap().amount, "10.00");
    assert!(d.sales[1].owner.is_none());
}

#[test]
fn merges_parallel_year_tables_newest_first() {
    let d = parse(&page()).unwrap();
    assert_eq!(d.tax_years.len(), 2);
    let latest = &d.tax_years[0];
    assert_eq!(latest.tax_year, "2025");
    assert_eq!(latest.market_total.as_ref().unwrap().amount, "600000.00");
    assert_eq!(latest.assessed.as_ref().unwrap().amount, "400000.00");
    assert_eq!(latest.total_tax.as_ref().unwrap().amount, "6000.00");
    assert_eq!(d.tax_years[1].tax_year, "2024");
    assert!(d.tax_years[1].total_tax.is_none());
}

#[test]
fn reads_building_structure() {
    let b = parse(&page()).unwrap().building.unwrap();
    assert_eq!(b.year_built, Some(1990));
    assert_eq!(b.living_area_sqft, Some(2000));
    assert_eq!(b.total_sqft, Some(2800));
    assert!(b.total_sqft > b.living_area_sqft);
    assert_eq!(b.building_number.as_deref(), Some("1"));
    assert!(b.elements.iter().all(|e| !e.value.is_empty()));
    assert!(b.elements.iter().any(|e| e.name == "Exterior Wall 1"));
}

#[test]
fn skips_exemption_rows_without_a_description() {
    let d = parse(&page()).unwrap();
    assert_eq!(d.exemptions.len(), 1);
    assert_eq!(d.exemptions[0].description, "HOMESTEAD");
    assert_eq!(d.exemptions[0].soh_base_year.as_deref(), Some("2015"));
}

#[test]
fn missing_sections_yield_empty_not_an_error() {
    let d = parse("<script>var model = {};</script>").unwrap();
    assert!(d.sales.is_empty());
    assert!(d.tax_years.is_empty());
    assert!(d.exemptions.is_empty());
    assert!(d.building.is_none());
}

#[test]
fn passes_through_unrecognized_date_formats() {
    assert_eq!(iso_date("2025-01-03"), "2025-01-03");
    assert_eq!(iso_date(""), "");
}

#[test]
fn dates_are_trimmed_and_zero_padded() {
    assert_eq!(iso_date("  1/2/1999 "), "1999-01-02");
    assert_eq!(iso_date("12/31/2024"), "2024-12-31");
    // A two-digit year is not recognized and passes through trimmed.
    assert_eq!(iso_date(" 1/2/99 "), "1/2/99");
    // So is a month of three digits.
    assert_eq!(iso_date("123/1/2024"), "123/1/2024");
}

#[test]
fn a_block_that_is_not_an_object_is_reported() {
    let err = extract_model("<script>var model = [1, 2];</script>").unwrap_err();
    assert_eq!(err.exit_code(), 5);
    assert_eq!(err.message(), "the county detail page's `var model` block is not a JSON object");
}

#[test]
fn the_block_ends_at_its_closing_brace() {
    let text = extract_model(r#"x var model = {"a": {"b": "}\"{"}, "c": 2}; var other = {};"#)
        .unwrap();
    assert_eq!(text, r#"{"a": {"b": "}\"{"}, "c": 2}"#);
}

#[test]
fn the_markup_change_message_is_exact() {
    let err = extract_model("<html></html>").unwrap_err();
    assert_eq!(
        err.message(),
        "the county detail page no longer embeds a `var model` block — the site's markup has changed"
    );
    let err = extract_model("var model = {").unwrap_err();
    assert_eq!(err.message(), "the county detail page's `var model` block is truncated");
}

#[test]
fn a_malformed_block_is_an_upstream_parse_failure() {
    let err = parse("<script>var model = {\"a\": };</script>").unwrap_err();
    assert_eq!(err.exit_code(), 5);
    assert!(err.message().starts_with("parsing the detail page's data block: "));
}

#[test]
fn the_tax_table_carries_every_levy() {
    let d = parse(&page()).unwrap();
    let y = &d.tax_years[0];
    assert_eq!(y.market_land.as_ref().unwrap().amount, "280000.00");
    assert_eq!(y.market_improvement.as_ref().unwrap().amount, "320000.00");
    assert_eq!(y.exemption.as_ref().unwrap().amount, "50000.00");
    assert_eq!(y.taxable.as_ref().unwrap().amount, "350000.00");
    assert_eq!(y.ad_valorem_tax.as_ref().unwrap().amount, "5800.00");
    assert_eq!(y.non_ad_valorem_tax.as_ref().unwrap().amount, "200.00");
    let older = &d.tax_years[1];
    assert_eq!(older.market_total.as_ref().unwrap().amount, "550000.00");
    assert!(older.assessed.is_none());
}

#[test]
fn years_listed_twice_keep_one_row_with_the_last_values() {
    let model = r#"{
        "appraisalInfo": [
            {"TaxYear": "2023", "TotalMarketValue": "100"},
            {"TaxYear": "2025", "TotalMarketValue": "300"},
            {"TaxYear": "2023", "TotalMarketValue": "200"}
        ],
        "taxInfo": [ {"TaxYear": "2024", "TotalTaxValue": "7"}, {"TaxYear": " "} ]
    }"#;
    let d = parse(&format!("var model = {model};")).unwrap();
    let years: Vec<&str> = d.tax_years.iter().map(|y| y.tax_year.as_str()).collect();
    assert_eq!(years, vec!["2025", "2024", "2023"]);
    assert_eq!(d.tax_years[2].market_total.as_ref().unwrap().amount, "200.00");
    assert_eq!(d.tax_years[1].total_tax.as_ref().unwrap().amount, "7.00");
}

#[test]
fn building_numbers_accept_separators_and_any_case() {
    let model = r#"{ "structuralDetails": { "StructuralElements": [
        {"ElementName": "year built", "ElementValue": "2001"},
        {"ElementName": "AREA UNDER AIR", "ElementValue": "1,850"},
        {"ElementName": "Total Square Footage", "ElementValue": "n/a"}
    ] } }"#;
    let b = parse(&format!("var model = {model};")).unwrap().building.unwrap();
    assert_eq!(b.year_built, Some(2001));
    assert_eq!(b.living_area_sqft, Some(1850));
    assert_eq!(b.total_sqft, None);
    assert_eq!(b.building_number, None);
    assert_eq!(b.elements.len(), 3);
}

#[test]
fn an_empty_structure_section_is_no_building() {
    let d = parse(r#"var model = {"structuralDetails": {"StructuralElements": []}};"#).unwrap();
    assert!(d.building.is_none());
}

#[test]
fn a_sale_row_with_nothing_in_it_is_dropped() {
    let model = r#"{ "salesInfo": [ {"SaleDate": " ", "OwnerName": ""}, {"Price": "$1,000"} ] }"#;
    let d = parse(&format!("var model = {model};")).unwrap();
    assert_eq!(d.sales.len(), 1);
    assert_eq!(d.sales[0].price.as_ref().unwrap().amount, "1000.00");
}

#[test]
fn the_detail_page_address_uses_the_bare_pcn() {
    let p = Pcn::parse("12-34-56-78-90-123-4567").unwrap();
    assert_eq!(detail_url(&p), "https://pbcpao.gov/Property/Details?parcelId=12345678901234567");
}

#[test]
fn detail_page_statuses_map_onto_exit_codes() {
    let p = Pcn::parse("12345678901234567").unwrap();
    assert!(check_detail_status(200, &p).is_ok());
    let nf = check_detail_status(404, &p).unwrap_err();
    assert_eq!(nf.exit_code(), 4);
    assert_eq!(nf.message(), "no detail page for parcel 12-34-56-78-90-123-4567");
    let up = check_detail_status(503, &p).unwrap_err();
    assert_eq!(up.exit_code(), 5);
    assert_eq!(
        up.message(),
        "the county property site returned HTTP 503 for parcel 12-34-56-78-90-123-4567"
    );
    assert_eq!(check_detail_status(301, &p).unwrap_err().exit_code(), 5);
}

#[test]
fn a_limit_keeps_the_most_recent_years() {
    let mut years = parse(&page()).unwrap().tax_years;
    keep_first(&mut years, Some(1));
    assert_eq!(years.len(), 1);
    assert_eq!(years[0].tax_year, "2025");
    let mut all = parse(&page()).unwrap().tax_years;
    keep_first(&mut all, Some(10));
    assert_eq!(all.len(), 2);
    keep_first(&mut all, None);
    assert_eq!(all.len(), 2);
}

#[test]
fn a_limit_keeps_the_first_sales() {
    let mut sales = parse(&page()).unwrap().sales;
    keep_first(&mut sales, Some(1));
    assert_eq!(sales.len(), 1);
    assert_eq!(sales[0].date.as_deref(), Some("2020-06-15"));
    keep_first(&mut sales, Some(0));
    assert!(sales.is_empty());
}

#[test]
fn sales_come_newest_first_whatever_the_page_order() {
    let model = r#"{ "salesInfo": [
        {"SaleDate": "03/09/2011", "Price": "10"},
        {"SaleType": "QUIT CLAIM"},
        {"SaleDate": "06/15/2020", "Price": "425000"},
        {"SaleDate": "3/9/2011", "Price": "20"}
    ] }"#;
    let d = parse(&format!("var model = {model};")).unwrap();
    let dates: Vec<Option<&str>> = d.sales.iter().map(|s| s.date.as_deref()).collect();
    assert_eq!(dates, vec![Some("2020-06-15"), Some("2011-03-09"), Some("2011-03-09"), None]);
    // Sales of the same date keep the page's order; an undated sale comes last.
    assert_eq!(d.sales[1].price.as_ref().unwrap().amount, "10.00");
    assert_eq!(d.sales[2].price.as_ref().unwrap().amount, "20.00");
    assert_eq!(d.sales[3].instrument.as_deref(), Some("QUIT CLAIM"));
}

#[test]
fn only_digit_dates_are_converted() {
    assert_eq!(iso_date("ab/cd/efgh"), "ab/cd/efgh");
    assert_eq!(iso_date("/1/2024"), "/1/2024");
    assert_eq!(iso_date("1//2024"), "1//2024");
    assert_eq!(iso_date("1/2/2o24"), "1/2/2o24");
    assert_eq!(iso_date("1/2/2024/5"), "1/2/2024/5");
    assert_eq!(iso_date("06/15/2020"), "2020-06-15");
}

#[test]
fn the_block_is_exactly_the_serialized_object() {
    let v: Value = serde_json::from_str(
        r#"{"a": "}\"{\\", "b": [{"c": "x"}, 1.5, null, true], "d": {"e": "\n"}}"#,
    )
    .unwrap();
    let text = serde_json::to_string(&v).unwrap();
    let html = format!("<p>var x = {{}};</p>var model = {text}; var more = {{\"z\": 1}};");
    assert_eq!(extract_model(&html).unwrap(), text);
}
