use palm_beach_county_appraiser_fl::details::{Building, Element, Exemption, TaxYear};
use palm_beach_county_appraiser_fl::formatter::{
    building_block, building_doc, money_str, or_dash, render_building, render_parcel,
    render_sales, render_search, render_taxes, sale_list, screen_lines, table_lines, tax_history,
    Cell,
};
use palm_beach_county_appraiser_fl::json::{Json, Member, Number};
use palm_beach_county_appraiser_fl::model::{Parcel, ParcelList, ParcelSummary, Sale};
use palm_beach_county_appraiser_fl::money::Money;
use serde_json::Value;

const DASH: &str = "—";

fn number(n: &serde_json::Number) -> Number {
    let f = n.as_f64().unwrap_or(0.0);
    Number {
        text: n.to_string(),
        int: n.as_i64(),
        uint: n.as_u64(),
        fixed2: format!("{f:.2}"),
        plain: format!("{f}"),
        positive: f > 0.0,
    }
}

fn to_json(v: &Value) -> Json {
    match v {
        Value::Null => Json::Null,
        Value::Bool(b) => Json::Bool(*b),
        Value::Number(n) => Json::Number(number(n)),
        Value::String(s) => Json::Str(s.clone()),
        Value::Array(a) => Json::Array(a.iter().map(to_json).collect()),
        Value::Object(o) => Json::Object(
            o.iter().map(|(k, v)| Member { key: k.clone(), value: to_json(v) }).collect(),
        ),
    }
}

fn attrs(text: &str) -> Json {
    to_json(&serde_json::from_str::<Value>(text).unwrap())
}

fn summary() -> ParcelSummary {
    ParcelSummary::from_attrs(&attrs(
        r#"{"PARID": "12345678901234567", "OWNER_NAME1": "DOE JANE",
            "SITE_ADDR_STR": "100 EXAMPLE ST", "MUNICIPALITY": "TEST CITY",
            "TOTAL_MARKET": 500000.0}"#,
    ))
    .unwrap()
}

fn row(cells: &[Cell]) -> Vec<(String, String)> {
    cells.iter().map(|c| (c.column.clone(), c.value.clone())).collect()
}

fn pairs(p: &[(&str, &str)]) -> Vec<(String, String)> {
    p.iter().map(|(a, b)| (a.to_string(), b.to_string())).collect()
}

#[test]
fn search_json_is_the_dto_alone() {
    let list = ParcelList::new(vec![summary()], 37);
    assert_eq!(list.schema, "parcel-list/v1");
    assert_eq!(list.total, 37);
    assert!(list.truncated);
    assert_eq!(list.items[0].pcn, "12-34-56-78-90-123-4567");
    assert_eq!(list.items[0].market_value.as_ref().unwrap().amount, "500000.00");
}

#[test]
fn absent_values_render_as_a_dash_not_empty() {
    assert_eq!(or_dash(None), DASH);
    assert_eq!(or_dash(Some("   ")), DASH);
    assert_eq!(or_dash(Some("x")), "x");
    assert_eq!(money_str(None), DASH);
}

#[test]
fn money_renders_with_a_dollar_sign_and_separators() {
    let m = Money::usd("1234567.50".to_string());
    assert_eq!(money_str(Some(&m)), "$1,234,567.50");
    assert_eq!(money_str(Some(&Money::usd("0.00".to_string()))), "$0.00");
}

#[test]
fn search_text_is_a_table_and_a_truncation_note() {
    let s = render_search(&ParcelList::new(vec![summary()], 37));
    assert!(s.before.is_empty());
    assert_eq!(s.table.len(), 1);
    assert_eq!(
        row(&s.table[0]),
        pairs(&[
            ("pcn", "12-34-56-78-90-123-4567"),
            ("owner", "DOE JANE"),
            ("situs", "100 EXAMPLE ST"),
            ("municipality", "TEST CITY"),
            ("market", "$500,000.00"),
        ])
    );
    assert_eq!(s.after, vec!["", "Showing 1 of 37 matches — raise --limit to see more."]);
    let all = render_search(&ParcelList::new(vec![summary()], 1));
    assert!(all.after.is_empty());
    let none = render_search(&ParcelList::new(vec![], 0));
    assert_eq!(none.before, vec!["No matching parcels."]);
    assert!(none.table.is_empty());
}

fn sale() -> Sale {
    Sale {
        date: Some("2020-06-15".to_string()),
        price: Some(Money::usd("425000.00".to_string())),
        book: Some("12345".to_string()),
        page: Some("00678".to_string()),
        instrument: Some("WARRANTY DEED".to_string()),
        qualification_code: None,
        owner: None,
    }
}

#[test]
fn sales_render_a_row_per_sale() {
    let mut second = sale();
    second.book = None;
    let s = render_sales("12-34-56-78-90-123-4567", &[sale(), second]);
    assert_eq!(s.before, vec!["Sales for parcel 12-34-56-78-90-123-4567", ""]);
    assert_eq!(
        row(&s.table[0]),
        pairs(&[
            ("date", "2020-06-15"),
            ("price", "$425,000.00"),
            ("type", "WARRANTY DEED"),
            ("book_page", "12345/00678"),
            ("owner", DASH),
        ])
    );
    assert_eq!(s.table[1][3].value, DASH);
    let none = render_sales("X", &[]);
    assert_eq!(none.before, vec!["No recorded sales for parcel X."]);
    assert!(none.table.is_empty());
}

#[test]
fn taxes_render_years_then_exemptions() {
    let year = TaxYear {
        tax_year: "2025".to_string(),
        market_total: Some(Money::usd("600000.00".to_string())),
        market_land: None,
        market_improvement: None,
        assessed: None,
        exemption: None,
        taxable: None,
        ad_valorem_tax: None,
        non_ad_valorem_tax: None,
        total_tax: Some(Money::usd("6000.00".to_string())),
    };
    let ex = Exemption {
        description: "HOMESTEAD".to_string(),
        tax_year: Some("2026".to_string()),
        applicant: None,
        soh_base_year: None,
    };
    let s = render_taxes("P", &[year], &[ex]);
    assert_eq!(s.before, vec!["Value and tax history for parcel P", ""]);
    assert_eq!(
        row(&s.table[0]),
        pairs(&[
            ("year", "2025"),
            ("market", "$600,000.00"),
            ("assessed", DASH),
            ("exempt", DASH),
            ("taxable", DASH),
            ("total_tax", "$6,000.00"),
        ])
    );
    assert_eq!(
        s.after,
        vec![
            "".to_string(),
            "Exemptions on file:".to_string(),
            format!("  2026  {:<24} {}", "HOMESTEAD", DASH),
        ]
    );
    let none = render_taxes("P", &[], &[]);
    assert_eq!(none.before, vec!["No tax history for parcel P."]);
    assert!(none.after.is_empty());
}

fn building() -> Building {
    Building {
        year_built: Some(1990),
        living_area_sqft: Some(2000),
        total_sqft: Some(2800),
        building_number: Some("1".to_string()),
        elements: vec![Element { name: "Exterior Wall 1".to_string(), value: "CB STUCCO".to_string() }],
    }
}

#[test]
fn building_text_lists_its_elements_when_asked() {
    let lines = render_building("P", Some(&building()));
    assert_eq!(
        lines,
        vec![
            "Building for parcel P".to_string(),
            "  Building:".to_string(),
            "    Year built:         1990".to_string(),
            "    Living area:        2000 sq ft (heated/cooled)".to_string(),
            "    Total under roof:   2800 sq ft".to_string(),
            "".to_string(),
            "  Structural elements:".to_string(),
            format!("    {:<26} {}", "Exterior Wall 1", "CB STUCCO"),
        ]
    );
    assert_eq!(building_block(&building(), false).len(), 4);
    assert_eq!(
        render_building("P", None),
        vec!["No building on record for parcel P (vacant land?)."]
    );
}

#[test]
fn parcel_text_has_every_section() {
    let a = attrs(
        r#"{"PARID": "12345678901234567", "OWNER_NAME1": "DOE JANE", "OWNER_NAME2": "DOE JOHN",
            "SITE_ADDR_STR": "100 EXAMPLE ST", "MUNICIPALITY": "TEST CITY",
            "PADDR1": "PO BOX 1", "CITYNAME": "TEST CITY", "STATE": "FL", "ZIP1": "33400",
            "TOTAL_MARKET": 500000.0, "HMSTD_FLG": "Y", "CONFID_FLG": "Y",
            "SALE_DATE": 1592179200000, "PRICE": "425000", "BOOK": "12345", "PAGE": "0678",
            "INSTRUMENT": "WD", "PROPERTY_USE": "0100", "ACRES": 0.25}"#,
    );
    let mut p = Parcel::from_attrs(&a).unwrap();
    p.building = Some(building());
    let lines = render_parcel(&p);
    let expected: Vec<&str> = vec![
        "Parcel 12-34-56-78-90-123-4567",
        "  ** owner is statutorily confidential (Fla. Stat. §119.071) **",
        "  Owner:        DOE JANE",
        "                DOE JOHN",
        "  Situs:        100 EXAMPLE ST",
        "  Municipality: TEST CITY",
        "  Mailing:      PO BOX 1, TEST CITY FL 33400",
        "",
        "  Values:",
        "    Market (total):     $500,000.00",
        "      land:             —",
        "      improvement:      —",
        "    Assessed:           —",
        "    Exemptions:         —",
        "    Taxable:            —",
        "    Homestead:          yes",
        "",
        "  Last sale:",
        "    Date:               2020-06-15",
        "    Price:              $425,000.00",
        "    OR book/page:       12345 / 0678",
        "    Instrument:         WD",
        "",
        "  Building:",
        "    Year built:         1990",
        "    Living area:        2000 sq ft (heated/cooled)",
        "    Total under roof:   2800 sq ft",
        "",
        "  Property:",
        "    Use code:           0100",
        "    Acres:              0.25",
    ];
    assert_eq!(lines, expected);
}

#[test]
fn a_parcel_without_owners_shows_a_dash() {
    let p = Parcel::from_attrs(&attrs(r#"{"PARID": "12345678901234567"}"#)).unwrap();
    let lines = render_parcel(&p);
    assert_eq!(lines[1], "  Owner:        —");
    assert_eq!(lines[2], "  Situs:        —");
    assert_eq!(lines[3], "");
}

fn cells(p: &[(&str, &str)]) -> Vec<Cell> {
    p.iter().map(|(c, v)| Cell { column: c.to_string(), value: v.to_string() }).collect()
}

#[test]
fn tables_pad_columns_to_their_widest_cell() {
    let rows = vec![
        cells(&[("pcn", "12-34"), ("owner", "DOE JANE"), ("market", "$1.00")]),
        cells(&[("pcn", "1"), ("owner", "—"), ("market", "$100,000.00")]),
    ];
    assert_eq!(
        table_lines(&rows),
        vec![
            "pcn   | owner    | market",
            "------|----------|------------",
            "12-34 | DOE JANE | $1.00",
            "1     | —        | $100,000.00",
        ]
    );
    assert!(table_lines(&vec![]).is_empty());
}

#[test]
fn a_screen_is_its_lines_then_its_table_then_its_notes() {
    let s = render_search(&ParcelList::new(vec![summary()], 2));
    let lines = screen_lines(&s);
    assert_eq!(lines.len(), 5);
    assert!(lines[0].starts_with("pcn"));
    assert!(lines[2].starts_with("12-34-56-78-90-123-4567 | DOE JANE"));
    assert_eq!(lines[3], "");
    assert_eq!(lines[4], "Showing 1 of 2 matches — raise --limit to see more.");
}

#[test]
fn documents_carry_their_schema_and_pcn() {
    let l = sale_list("P", vec![sale()]);
    assert_eq!(l.schema, "sale-list/v1");
    assert_eq!(l.pcn, "P");
    assert_eq!(l.items.len(), 1);
    let h = tax_history("P", vec![], vec![]);
    assert_eq!(h.schema, "tax-history/v1");
    assert_eq!(h.pcn, "P");
    let d = building_doc("P", Some(building()));
    assert_eq!(d.schema, "building/v1");
    assert_eq!(d.pcn, "P");
    assert_eq!(d.building.unwrap().living_area_sqft, Some(2000));
    assert!(building_doc("P", None).building.is_none());
}
