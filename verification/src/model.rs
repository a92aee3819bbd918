//! Normalized parcel records built from the parcel layer's attribute records.
//!
//! The layer's columns are terse, inconsistently typed (`PRICE` is a string,
//! `SALE_DATE` is epoch milliseconds), and liberally sprinkled with blanks.
//! Everything crossing into the records below is converted: ISO dates, money
//! as two-place string decimals, and blank fields absent rather than empty.

use vstd::prelude::*;

use crate::details::Building;
use crate::json::{Json, Number};
use crate::money::{usd_amount, Money};
use crate::pcn::{
    dashed_form, lemma_bare_parses_to_itself, lemma_dashed_form_of_any_form, pcn_of, Pcn,
};
use crate::text::{
    chars_of, eq_str, join, join_strings, string_of, to_upper, trim, trim_end, trim_end_str,
    trim_str, unicode_upper, views,
};
use crate::util::{iso_from_epoch_ms, iso_of_ms};

verus! {

/// The text of an optional string.
pub open spec fn opt_view(o: Option<String>) -> Option<Seq<char>> {
    match o {
        Some(s) => Some(s@),
        None => None,
    }
}

/// The amount of an optional sum of money.
pub open spec fn opt_amount(o: Option<Money>) -> Option<Seq<char>> {
    match o {
        Some(m) => Some(m.amount@),
        None => None,
    }
}

/// Every sum of money present is in dollars.
pub open spec fn usd_or_none(o: Option<Money>) -> bool {
    match o {
        Some(m) => m.currency@ == "USD"@,
        None => true,
    }
}

/// `t` unless it is empty.
pub open spec fn nonblank(t: Seq<char>) -> Option<Seq<char>> {
    if t.len() == 0 {
        None
    } else {
        Some(t)
    }
}

/// The present values among `opts`, in order.
pub open spec fn present(opts: Seq<Option<Seq<char>>>) -> Seq<Seq<char>>
    decreases opts.len(),
{
    if opts.len() == 0 {
        seq![]
    } else {
        let rest = present(opts.drop_last());
        match opts.last() {
            Some(t) => rest.push(t),
            None => rest,
        }
    }
}

/// A trimmed string field, or nothing when absent or blank. A number field
/// reads as its JSON text.
pub open spec fn text_attr(attrs: Json, key: Seq<char>) -> Option<Seq<char>> {
    match attrs.field(key) {
        Some(Json::Str(s)) => nonblank(trim(s@)),
        Some(Json::Number(n)) => nonblank(n.text@),
        _ => None,
    }
}

/// A money field: a number as a two-place amount, a string parsed as a
/// provider amount.
pub open spec fn money_attr(attrs: Json, key: Seq<char>) -> Option<Seq<char>> {
    match attrs.field(key) {
        Some(Json::Number(n)) => Some(n.fixed2@),
        Some(Json::Str(s)) => usd_amount(s@),
        _ => None,
    }
}

/// An epoch-millisecond date field as an ISO date.
pub open spec fn date_attr(attrs: Json, key: Seq<char>) -> Option<Seq<char>> {
    match attrs.field(key) {
        Some(Json::Number(n)) => match n.int {
            Some(ms) => iso_of_ms(ms as int),
            None => None,
        },
        _ => None,
    }
}

/// A `Y`/`N` flag (in any case); anything else reads as absent.
pub open spec fn flag_attr(attrs: Json, key: Seq<char>) -> Option<bool> {
    match text_attr(attrs, key) {
        Some(t) => if unicode_upper(t) == "Y"@ {
            Some(true)
        } else if unicode_upper(t) == "N"@ {
            Some(false)
        } else {
            None
        },
        None => None,
    }
}

/// A trimmed string field, or `None` when absent or blank. The layer uses
/// empty strings and whitespace interchangeably with nulls.
pub fn text(attrs: &Json, key: &str) -> (r: Option<String>)
    ensures
        opt_view(r) == text_attr(*attrs, key@),
{
    match attrs.get(key) {
        Some(Json::Str(s)) => {
            let t = trim_str(s.as_str());
            if t.as_str().unicode_len() == 0 {
                None
            } else {
                Some(t)
            }
        },
        Some(Json::Number(n)) => {
            if n.text.as_str().unicode_len() == 0 {
                None
            } else {
                Some(n.text.clone())
            }
        },
        _ => None,
    }
}

/// A numeric field as money. Numbers become two-place strings so no float
/// ever reaches the output; `PRICE` is a string in this layer and is parsed
/// like a provider amount.
pub fn money(attrs: &Json, key: &str) -> (r: Option<Money>)
    ensures
        opt_amount(r) == money_attr(*attrs, key@),
        usd_or_none(r),
{
    match attrs.get(key) {
        Some(Json::Number(n)) => Some(Money::usd(n.fixed2.clone())),
        Some(Json::Str(s)) => Money::parse_usd(s.as_str()),
        _ => None,
    }
}

/// An epoch-millisecond date field as ISO `YYYY-MM-DD`.
pub fn date(attrs: &Json, key: &str) -> (r: Option<String>)
    ensures
        opt_view(r) == date_attr(*attrs, key@),
{
    match attrs.get(key) {
        Some(Json::Number(n)) => match n.int {
            Some(ms) => iso_from_epoch_ms(ms),
            None => None,
        },
        _ => None,
    }
}

/// A `Y`/`N` flag as a bool. Anything else is treated as absent.
pub fn yes_no(attrs: &Json, key: &str) -> (r: Option<bool>)
    ensures
        r == flag_attr(*attrs, key@),
{
    match text(attrs, key) {
        Some(t) => {
            let u = to_upper(t.as_str());
            if eq_str(u.as_str(), "Y") {
                Some(true)
            } else if eq_str(u.as_str(), "N") {
                Some(false)
            } else {
                None
            }
        },
        None => None,
    }
}

/// A recorded sale. The parcel layer carries only the most recent one; the
/// county's detail page carries the full history.
#[derive(Debug)]
pub struct Sale {
    pub date: Option<String>,
    pub price: Option<Money>,
    pub book: Option<String>,
    pub page: Option<String>,
    /// Deed type: the terse code (`WD`) from the layer, or the spelled-out
    /// form (`WARRANTY DEED`) from the detail page.
    pub instrument: Option<String>,
    /// Whether the sale is treated as an arm's-length market transaction.
    pub qualification_code: Option<String>,
    /// Buyer of record for this sale (detail page only).
    pub owner: Option<String>,
}

impl Sale {
    /// Every field is blank.
    pub open spec fn blank(self) -> bool {
        &&& self.date is None
        &&& self.price is None
        &&& self.book is None
        &&& self.page is None
        &&& self.instrument is None
        &&& self.qualification_code is None
        &&& self.owner is None
    }

    /// True when every field is blank, i.e. there is no recorded sale.
    pub fn is_empty(&self) -> (r: bool)
        ensures
            r == self.blank(),
    {
        self.date.is_none() && self.price.is_none() && self.book.is_none() && self.page.is_none()
            && self.instrument.is_none() && self.qualification_code.is_none()
            && self.owner.is_none()
    }
}

/// The sale columns of an attribute record are all blank.
pub open spec fn sale_attrs_blank(attrs: Json) -> bool {
    &&& date_attr(attrs, "SALE_DATE"@) is None
    &&& money_attr(attrs, "PRICE"@) is None
    &&& text_attr(attrs, "BOOK"@) is None
    &&& text_attr(attrs, "PAGE"@) is None
    &&& text_attr(attrs, "INSTRUMENT"@) is None
    &&& text_attr(attrs, "QUAL_CODE"@) is None
}

/// `s` is the last sale an attribute record describes.
pub open spec fn sale_from(s: Sale, attrs: Json) -> bool {
    &&& opt_view(s.date) == date_attr(attrs, "SALE_DATE"@)
    &&& opt_amount(s.price) == money_attr(attrs, "PRICE"@)
    &&& usd_or_none(s.price)
    &&& opt_view(s.book) == text_attr(attrs, "BOOK"@)
    &&& opt_view(s.page) == text_attr(attrs, "PAGE"@)
    &&& opt_view(s.instrument) == text_attr(attrs, "INSTRUMENT"@)
    &&& opt_view(s.qualification_code) == text_attr(attrs, "QUAL_CODE"@)
    &&& s.owner is None
}

/// The most recent sale, or nothing when the record has none.
pub fn sale_from_attrs(attrs: &Json) -> (r: Option<Sale>)
    ensures
        r is None <==> sale_attrs_blank(*attrs),
        r matches Some(s) ==> sale_from(s, *attrs),
{
    let sale = Sale {
        date: date(attrs, "SALE_DATE"),
        price: money(attrs, "PRICE"),
        book: text(attrs, "BOOK"),
        page: text(attrs, "PAGE"),
        instrument: text(attrs, "INSTRUMENT"),
        qualification_code: text(attrs, "QUAL_CODE"),
        owner: None,
    };
    if sale.is_empty() {
        None
    } else {
        Some(sale)
    }
}

/// `OWNER_NAME1` and `OWNER_NAME2`, blanks dropped.
pub open spec fn owner_names(attrs: Json) -> Seq<Seq<char>> {
    present(seq![text_attr(attrs, "OWNER_NAME1"@), text_attr(attrs, "OWNER_NAME2"@)])
}

/// `s` without trailing `&` characters.
pub open spec fn strip_trailing_amps(s: Seq<char>) -> Seq<char>
    decreases s.len(),
{
    if s.len() > 0 && s.last() == '&' {
        strip_trailing_amps(s.drop_last())
    } else {
        s
    }
}

/// An owner name without the county's trailing "and others" `&`.
pub open spec fn without_et_al(name: Seq<char>) -> Seq<char> {
    trim_end(strip_trailing_amps(name))
}

/// The names, each without its trailing `&`, empty ones dropped.
pub open spec fn clean_owner_names(names: Seq<Seq<char>>) -> Seq<Seq<char>>
    decreases names.len(),
{
    if names.len() == 0 {
        seq![]
    } else {
        let rest = clean_owner_names(names.drop_last());
        let n = without_et_al(names.last());
        if n.len() == 0 {
            rest
        } else {
            rest.push(n)
        }
    }
}

/// The owners joined for one-line display.
pub open spec fn owner_line_of(attrs: Json) -> Option<Seq<char>> {
    let names = clean_owner_names(owner_names(attrs));
    if names.len() == 0 {
        None
    } else {
        Some(join(names, " & "@))
    }
}

fn owners(attrs: &Json) -> (r: Vec<String>)
    ensures
        views(r@) == owner_names(*attrs),
{
    let mut v: Vec<String> = Vec::new();
    let a = text(attrs, "OWNER_NAME1");
    let b = text(attrs, "OWNER_NAME2");
    let ghost opts = seq![text_attr(*attrs, "OWNER_NAME1"@), text_attr(*attrs, "OWNER_NAME2"@)];
    proof {
        assert(opts.drop_last().drop_last() =~= Seq::<Option<Seq<char>>>::empty());
        assert(opts.drop_last() =~= seq![text_attr(*attrs, "OWNER_NAME1"@)]);
    }
    match a {
        Some(x) => v.push(x),
        None => {},
    }
    proof {
        assert(present(opts.drop_last().drop_last()) =~= Seq::<Seq<char>>::empty());
        assert(views(v@) =~= present(opts.drop_last()));
    }
    match b {
        Some(x) => v.push(x),
        None => {},
    }
    proof {
        assert(views(v@) =~= present(opts));
    }
    v
}

fn strip_amps(s: &str) -> (r: String)
    ensures
        r@ == strip_trailing_amps(s@),
{
    let v = chars_of(s);
    let mut j: usize = v.len();
    proof {
        assert(v@.take(j as int) =~= v@);
    }
    while j > 0 && v[j - 1] == '&'
        invariant
            j <= v@.len(),
            v@ == s@,
            strip_trailing_amps(s@) == strip_trailing_amps(v@.take(j as int)),
        decreases j,
    {
        proof {
            assert(v@.take(j as int).drop_last() =~= v@.take(j - 1));
        }
        j = j - 1;
    }
    let mut out = v;
    out.truncate(j);
    proof {
        assert(v@.take(j as int) =~= out@);
    }
    string_of(&out)
}

/// `OWNER_NAME1` plus `OWNER_NAME2`, joined for one-line display. The county
/// appends a trailing `&` to the first name to mean "and others"; joining
/// those verbatim would render `... & & ...`, so the marker is dropped here.
fn owner_line(attrs: &Json) -> (r: Option<String>)
    ensures
        opt_view(r) == owner_line_of(*attrs),
{
    let names = owners(attrs);
    let mut clean: Vec<String> = Vec::new();
    let mut i: usize = 0;
    while i < names.len()
        invariant
            i <= names@.len(),
            views(names@) == owner_names(*attrs),
            views(clean@) == clean_owner_names(views(names@).take(i as int)),
        decreases names.len() - i,
    {
        let stripped = strip_amps(names[i].as_str());
        let n = trim_end_str(stripped.as_str());
        proof {
            let t = views(names@).take(i + 1);
            assert(t.drop_last() =~= views(names@).take(i as int));
            assert(t.last() == names@[i as int]@);
        }
        if n.as_str().unicode_len() > 0 {
            clean.push(n);
        }
        proof {
            assert(views(clean@) =~= clean_owner_names(views(names@).take(i + 1)));
        }
        i = i + 1;
    }
    proof {
        assert(views(names@).take(names@.len() as int) =~= views(names@));
    }
    if clean.len() == 0 {
        None
    } else {
        Some(join_strings(&clean, " & "))
    }
}

/// Mailing address of record for the owner.
#[derive(Debug)]
pub struct MailingAddress {
    /// Street lines, blanks dropped.
    pub lines: Vec<String>,
    pub city: Option<String>,
    pub state: Option<String>,
    pub zip: Option<String>,
}

/// The single-line rendering of an address: the street lines, then the
/// `CITY STATE ZIP` part, separated by `, `.
pub open spec fn one_line_text(
    lines: Seq<Seq<char>>,
    city: Option<Seq<char>>,
    state: Option<Seq<char>>,
    zip: Option<Seq<char>>,
) -> Seq<char> {
    let tail = present(seq![city, state, zip]);
    let parts = if tail.len() > 0 {
        lines.push(join(tail, " "@))
    } else {
        lines
    };
    join(parts, ", "@)
}

/// A copy of a list of strings.
pub fn copy_strings(v: &Vec<String>) -> (r: Vec<String>)
    ensures
        views(r@) == views(v@),
{
    let mut out: Vec<String> = Vec::new();
    let mut i: usize = 0;
    while i < v.len()
        invariant
            i <= v@.len(),
            views(out@) =~= views(v@).take(i as int),
        decreases v.len() - i,
    {
        let c = v[i].clone();
        proof {
            assert(c@ == v@[i as int]@);
        }
        let ghost before = out@;
        out.push(c);
        proof {
            assert(views(out@) =~= views(before).push(c@));
            assert(views(v@).take(i + 1) =~= views(v@).take(i as int).push(v@[i as int]@));
        }
        i = i + 1;
    }
    proof {
        assert(views(v@).take(v@.len() as int) =~= views(v@));
    }
    out
}

impl MailingAddress {
    /// No line and no city, state or zip.
    pub open spec fn blank(self) -> bool {
        self.lines@.len() == 0 && self.city is None && self.state is None && self.zip is None
    }

    /// The address on one line.
    pub open spec fn line(self) -> Seq<char> {
        one_line_text(
            views(self.lines@),
            opt_view(self.city),
            opt_view(self.state),
            opt_view(self.zip),
        )
    }

    pub fn is_empty(&self) -> (r: bool)
        ensures
            r == self.blank(),
    {
        self.lines.len() == 0 && self.city.is_none() && self.state.is_none() && self.zip.is_none()
    }

    /// Single-line rendering for text output.
    pub fn one_line(&self) -> (r: String)
        ensures
            r@ == self.line(),
    {
        let mut parts = copy_strings(&self.lines);
        let mut tail: Vec<String> = Vec::new();
        let ghost opts = seq![opt_view(self.city), opt_view(self.state), opt_view(self.zip)];
        proof {
            assert(opts.drop_last().drop_last().drop_last() =~= Seq::<Option<Seq<char>>>::empty());
            assert(present(opts.drop_last().drop_last().drop_last()) =~= Seq::<Seq<char>>::empty());
        }
        match &self.city {
            Some(c) => tail.push(c.clone()),
            None => {},
        }
        proof {
            assert(views(tail@) =~= present(opts.drop_last().drop_last()));
        }
        match &self.state {
            Some(c) => tail.push(c.clone()),
            None => {},
        }
        proof {
            assert(views(tail@) =~= present(opts.drop_last()));
        }
        match &self.zip {
            Some(c) => tail.push(c.clone()),
            None => {},
        }
        proof {
            assert(views(tail@) =~= present(opts));
        }
        if tail.len() > 0 {
            let t = join_strings(&tail, " ");
            let ghost before = views(parts@);
            parts.push(t);
            proof {
                assert(views(parts@) =~= before.push(join(views(tail@), " "@)));
            }
        }
        join_strings(&parts, ", ")
    }
}

/// `ZIP1`, extended by the `+4` in `ZIP2` when present.
pub open spec fn zip_of(attrs: Json) -> Option<Seq<char>> {
    match text_attr(attrs, "ZIP1"@) {
        None => None,
        Some(base) => match text_attr(attrs, "ZIP2"@) {
            Some(plus4) => Some(base + "-"@ + plus4),
            None => Some(base),
        },
    }
}

/// The mailing street lines: `PADDR1` and `PADDR2`, blanks dropped. `PADDR3`
/// is the county's pre-formatted `CITY STATE ZIP` line, so it is used only
/// when the structured city, state and zip fields are all absent.
pub open spec fn mailing_lines(attrs: Json) -> Seq<Seq<char>> {
    let street = present(seq![text_attr(attrs, "PADDR1"@), text_attr(attrs, "PADDR2"@)]);
    if text_attr(attrs, "CITYNAME"@) is None && text_attr(attrs, "STATE"@) is None && zip_of(
        attrs,
    ) is None {
        match text_attr(attrs, "PADDR3"@) {
            Some(f) => street.push(f),
            None => street,
        }
    } else {
        street
    }
}

/// `m` is the mailing address an attribute record describes.
pub open spec fn mailing_from(m: MailingAddress, attrs: Json) -> bool {
    &&& views(m.lines@) == mailing_lines(attrs)
    &&& opt_view(m.city) == text_attr(attrs, "CITYNAME"@)
    &&& opt_view(m.state) == text_attr(attrs, "STATE"@)
    &&& opt_view(m.zip) == zip_of(attrs)
}

fn zip(attrs: &Json) -> (r: Option<String>)
    ensures
        opt_view(r) == zip_of(*attrs),
{
    match text(attrs, "ZIP1") {
        None => None,
        Some(base) => match text(attrs, "ZIP2") {
            Some(plus4) => {
                let mut v = chars_of(base.as_str());
                v.push('-');
                let mut p = chars_of(plus4.as_str());
                v.append(&mut p);
                proof {
                    assert(v@ =~= base@ + "-"@ + plus4@) by {
                        reveal_strlit("-");
                    }
                }
                Some(string_of(&v))
            },
            None => Some(base),
        },
    }
}

/// The owner's mailing address.
fn mailing(attrs: &Json) -> (r: MailingAddress)
    ensures
        mailing_from(r, *attrs),
{
    let mut lines: Vec<String> = Vec::new();
    let ghost opts = seq![text_attr(*attrs, "PADDR1"@), text_attr(*attrs, "PADDR2"@)];
    proof {
        assert(opts.drop_last().drop_last() =~= Seq::<Option<Seq<char>>>::empty());
        assert(present(opts.drop_last().drop_last()) =~= Seq::<Seq<char>>::empty());
    }
    match text(attrs, "PADDR1") {
        Some(x) => lines.push(x),
        None => {},
    }
    proof {
        assert(views(lines@) =~= present(opts.drop_last()));
    }
    match text(attrs, "PADDR2") {
        Some(x) => lines.push(x),
        None => {},
    }
    proof {
        assert(views(lines@) =~= present(opts));
    }
    let city = text(attrs, "CITYNAME");
    let state = text(attrs, "STATE");
    let zip = zip(attrs);
    if city.is_none() && state.is_none() && zip.is_none() {
        match text(attrs, "PADDR3") {
            Some(formatted) => {
                let ghost before = views(lines@);
                lines.push(formatted);
                proof {
                    assert(views(lines@) =~= before.push(text_attr(*attrs, "PADDR3"@).unwrap()));
                }
            },
            None => {},
        }
    }
    MailingAddress { lines, city, state, zip }
}

/// The legal description, split across three columns that are often blank.
pub open spec fn legal_of(attrs: Json) -> Option<Seq<char>> {
    let parts = present(
        seq![text_attr(attrs, "LEGAL1"@), text_attr(attrs, "LEGAL2"@), text_attr(attrs, "LEGAL3"@)],
    );
    if parts.len() == 0 {
        None
    } else {
        Some(join(parts, " "@))
    }
}

fn legal(attrs: &Json) -> (r: Option<String>)
    ensures
        opt_view(r) == legal_of(*attrs),
{
    let mut parts: Vec<String> = Vec::new();
    let ghost opts = seq![
        text_attr(*attrs, "LEGAL1"@),
        text_attr(*attrs, "LEGAL2"@),
        text_attr(*attrs, "LEGAL3"@),
    ];
    proof {
        assert(opts.drop_last().drop_last().drop_last() =~= Seq::<Option<Seq<char>>>::empty());
        assert(present(opts.drop_last().drop_last().drop_last()) =~= Seq::<Seq<char>>::empty());
    }
    match text(attrs, "LEGAL1") {
        Some(x) => parts.push(x),
        None => {},
    }
    proof {
        assert(views(parts@) =~= present(opts.drop_last().drop_last()));
    }
    match text(attrs, "LEGAL2") {
        Some(x) => parts.push(x),
        None => {},
    }
    proof {
        assert(views(parts@) =~= present(opts.drop_last()));
    }
    match text(attrs, "LEGAL3") {
        Some(x) => parts.push(x),
        None => {},
    }
    proof {
        assert(views(parts@) =~= present(opts));
    }
    if parts.len() == 0 {
        None
    } else {
        Some(join_strings(&parts, " "))
    }
}

/// The appraiser's valuation of a parcel for the current roll.
#[derive(Debug)]
pub struct Values {
    pub market_total: Option<Money>,
    pub market_land: Option<Money>,
    pub market_improvement: Option<Money>,
    pub assessed: Option<Money>,
    pub taxable: Option<Money>,
    pub exemption: Option<Money>,
    /// `true` when a homestead exemption is on file (`HMSTD_FLG`).
    pub homestead: Option<bool>,
}

/// `v` holds the values an attribute record states.
pub open spec fn values_from(v: Values, attrs: Json) -> bool {
    &&& opt_amount(v.market_total) == money_attr(attrs, "TOTAL_MARKET"@)
    &&& opt_amount(v.market_land) == money_attr(attrs, "LAND_MARKET"@)
    &&& opt_amount(v.market_improvement) == money_attr(attrs, "IMPRV_MRKT"@)
    &&& opt_amount(v.assessed) == money_attr(attrs, "ASSESSED_VAL"@)
    &&& opt_amount(v.taxable) == money_attr(attrs, "TOTAL_TAXABLE"@)
    &&& opt_amount(v.exemption) == money_attr(attrs, "EXEMPTION"@)
    &&& usd_or_none(v.market_total) && usd_or_none(v.market_land) && usd_or_none(
        v.market_improvement,
    ) && usd_or_none(v.assessed) && usd_or_none(v.taxable) && usd_or_none(v.exemption)
    &&& v.homestead == flag_attr(attrs, "HMSTD_FLG"@)
}

/// The PCN as shown: the dashed form when the id is a valid PCN, else as is.
pub open spec fn shown_pcn(parid: Seq<char>) -> Seq<char> {
    match pcn_of(parid) {
        Some(d) => dashed_form(d),
        None => parid,
    }
}

/// The PCN in bare digits when the id is a valid PCN, else as is.
pub open spec fn bare_pcn(parid: Seq<char>) -> Seq<char> {
    match pcn_of(parid) {
        Some(d) => d,
        None => parid,
    }
}

fn show_pcn(parid: &String) -> (r: String)
    ensures
        r@ == shown_pcn(parid@),
{
    match Pcn::parse(parid.as_str()) {
        Ok(p) => p.dashed(),
        Err(_) => parid.clone(),
    }
}

/// `s` describes the last sale the record states (or its absence).
pub open spec fn last_sale_from(s: Option<Sale>, attrs: Json) -> bool {
    &&& (s is None <==> sale_attrs_blank(attrs))
    &&& (s matches Some(x) ==> sale_from(x, attrs))
}

/// One row of a search result: the light projection listed by `search`.
#[derive(Debug)]
pub struct ParcelSummary {
    pub pcn: String,
    pub owner: Option<String>,
    pub situs_address: Option<String>,
    pub municipality: Option<String>,
    pub market_value: Option<Money>,
    pub assessed_value: Option<Money>,
    pub property_use: Option<String>,
    pub last_sale: Option<Sale>,
    /// The owner is statutorily confidential (`CONFID_FLG`).
    pub confidential: bool,
}

/// `s` is the search row an attribute record describes.
pub open spec fn summary_from(s: ParcelSummary, attrs: Json) -> bool {
    &&& text_attr(attrs, "PARID"@) matches Some(parid) && s.pcn@ == shown_pcn(parid)
    &&& opt_view(s.owner) == owner_line_of(attrs)
    &&& opt_view(s.situs_address) == text_attr(attrs, "SITE_ADDR_STR"@)
    &&& opt_view(s.municipality) == text_attr(attrs, "MUNICIPALITY"@)
    &&& opt_amount(s.market_value) == money_attr(attrs, "TOTAL_MARKET"@)
    &&& opt_amount(s.assessed_value) == money_attr(attrs, "ASSESSED_VAL"@)
    &&& usd_or_none(s.market_value) && usd_or_none(s.assessed_value)
    &&& opt_view(s.property_use) == text_attr(attrs, "PROPERTY_USE"@)
    &&& last_sale_from(s.last_sale, attrs)
    &&& s.confidential == (flag_attr(attrs, "CONFID_FLG"@) == Some(true))
}

impl ParcelSummary {
    /// Build a search row from an attribute record; nothing without a `PARID`.
    pub fn from_attrs(attrs: &Json) -> (r: Option<Self>)
        ensures
            r is None <==> text_attr(*attrs, "PARID"@) is None,
            r matches Some(s) ==> summary_from(s, *attrs),
    {
        let parid = match text(attrs, "PARID") {
            Some(p) => p,
            None => return None,
        };
        let confidential = match yes_no(attrs, "CONFID_FLG") {
            Some(b) => b,
            None => false,
        };
        Some(
            ParcelSummary {
                pcn: show_pcn(&parid),
                owner: owner_line(attrs),
                situs_address: text(attrs, "SITE_ADDR_STR"),
                municipality: text(attrs, "MUNICIPALITY"),
                market_value: money(attrs, "TOTAL_MARKET"),
                assessed_value: money(attrs, "ASSESSED_VAL"),
                property_use: text(attrs, "PROPERTY_USE"),
                last_sale: sale_from_attrs(attrs),
                confidential,
            },
        )
    }
}

/// The full record for one parcel (`parcel/v1`).
#[derive(Debug)]
pub struct Parcel {
    pub schema: String,
    /// Dashed display form, `12-34-56-78-90-123-4567`.
    pub pcn: String,
    /// Bare 17-digit form as stored in `PARID`.
    pub pcn_bare: String,
    /// `OWNER_NAME1` and `OWNER_NAME2`, blanks dropped. Surname-first.
    pub owners: Vec<String>,
    pub situs_address: Option<String>,
    pub municipality: Option<String>,
    pub mailing_address: MailingAddress,
    pub values: Values,
    pub last_sale: Option<Sale>,
    pub property_use: Option<String>,
    pub subdivision: Option<String>,
    /// Acreage, as the plain decimal rendering of the county's number.
    pub acres: Option<String>,
    pub legal_description: Option<String>,
    /// `lat,lng` centroid as published by the county.
    pub coordinates: Option<String>,
    pub confidential: bool,
    /// Building details, present only when the detail page was read too.
    pub building: Option<Building>,
}

/// The parcel id of a full record: `PARID`, else `PARCEL_NUMBER`.
pub open spec fn parcel_id(attrs: Json) -> Option<Seq<char>> {
    match text_attr(attrs, "PARID"@) {
        Some(p) => Some(p),
        None => text_attr(attrs, "PARCEL_NUMBER"@),
    }
}

/// A positive `ACRES` number, in its plain decimal rendering.
pub open spec fn acres_of(attrs: Json) -> Option<Seq<char>> {
    match attrs.field("ACRES"@) {
        Some(Json::Number(n)) => if n.positive {
            Some(n.plain@)
        } else {
            None
        },
        _ => None,
    }
}

/// `p` is the full record an attribute record describes.
pub open spec fn parcel_from(p: Parcel, attrs: Json) -> bool {
    &&& p.schema@ == "parcel/v1"@
    &&& parcel_id(attrs) matches Some(id) && p.pcn@ == shown_pcn(id) && p.pcn_bare@ == bare_pcn(id)
    &&& views(p.owners@) == owner_names(attrs)
    &&& opt_view(p.situs_address) == text_attr(attrs, "SITE_ADDR_STR"@)
    &&& opt_view(p.municipality) == text_attr(attrs, "MUNICIPALITY"@)
    &&& mailing_from(p.mailing_address, attrs)
    &&& values_from(p.values, attrs)
    &&& last_sale_from(p.last_sale, attrs)
    &&& opt_view(p.property_use) == text_attr(attrs, "PROPERTY_USE"@)
    &&& opt_view(p.subdivision) == text_attr(attrs, "SUBDIV_NAME"@)
    &&& opt_view(p.acres) == acres_of(attrs)
    &&& opt_view(p.legal_description) == legal_of(attrs)
    &&& opt_view(p.coordinates) == text_attr(attrs, "LATLNG"@)
    &&& p.confidential == (flag_attr(attrs, "CONFID_FLG"@) == Some(true))
    &&& p.building is None
}

fn acres(attrs: &Json) -> (r: Option<String>)
    ensures
        opt_view(r) == acres_of(*attrs),
{
    match attrs.get("ACRES") {
        Some(Json::Number(n)) => if n.positive {
            Some(n.plain.clone())
        } else {
            None
        },
        _ => None,
    }
}

impl Parcel {
    /// Build the full record from an attribute record; nothing without a
    /// parcel id.
    pub fn from_attrs(attrs: &Json) -> (r: Option<Self>)
        ensures
            r is None <==> parcel_id(*attrs) is None,
            r matches Some(p) ==> parcel_from(p, *attrs),
    {
        let parid = match text(attrs, "PARID") {
            Some(p) => p,
            None => match text(attrs, "PARCEL_NUMBER") {
                Some(p) => p,
                None => return None,
            },
        };
        let (pcn, pcn_bare) = match Pcn::parse(parid.as_str()) {
            Ok(p) => (p.dashed(), string_of(&chars_of(p.bare()))),
            Err(_) => (parid.clone(), parid.clone()),
        };
        let confidential = match yes_no(attrs, "CONFID_FLG") {
            Some(b) => b,
            None => false,
        };
        Some(
            Parcel {
                schema: string_of(&chars_of("parcel/v1")),
                pcn,
                pcn_bare,
                owners: owners(attrs),
                situs_address: text(attrs, "SITE_ADDR_STR"),
                municipality: text(attrs, "MUNICIPALITY"),
                mailing_address: mailing(attrs),
                values: Values {
                    market_total: money(attrs, "TOTAL_MARKET"),
                    market_land: money(attrs, "LAND_MARKET"),
                    market_improvement: money(attrs, "IMPRV_MRKT"),
                    assessed: money(attrs, "ASSESSED_VAL"),
                    taxable: money(attrs, "TOTAL_TAXABLE"),
                    exemption: money(attrs, "EXEMPTION"),
                    homestead: yes_no(attrs, "HMSTD_FLG"),
                },
                last_sale: sale_from_attrs(attrs),
                property_use: text(attrs, "PROPERTY_USE"),
                subdivision: text(attrs, "SUBDIV_NAME"),
                acres: acres(attrs),
                legal_description: legal(attrs),
                coordinates: text(attrs, "LATLNG"),
                confidential,
                building: None,
            },
        )
    }
}

/// A schema-tagged list of parcels (`parcel-list/v1`).
#[derive(Debug)]
pub struct ParcelList {
    pub schema: String,
    /// Rows returned, after the limit.
    pub items: Vec<ParcelSummary>,
    /// Total rows matching the query server-side, which may exceed `items`.
    pub total: u64,
    /// `total` exceeds the number of rows returned.
    pub truncated: bool,
}

impl ParcelList {
    pub fn new(items: Vec<ParcelSummary>, total: u64) -> (r: Self)
        ensures
            r.schema@ == "parcel-list/v1"@,
            r.items@ == items@,
            r.total == total,
            r.truncated == (total > items@.len()),
    {
        let truncated = total > items.len() as u64;
        ParcelList { schema: string_of(&chars_of("parcel-list/v1")), items, total, truncated }
    }
}


/// The PCN a record shows for a valid parcel id parses back to that parcel,
/// so a search result can be fed straight into the per-parcel commands;
/// the bare PCN a full record carries parses to it as well.
pub proof fn lemma_shown_pcn_feeds_back(parid: Seq<char>)
    requires
        pcn_of(parid) is Some,
    ensures
        pcn_of(shown_pcn(parid)) == pcn_of(parid),
        pcn_of(bare_pcn(parid)) == pcn_of(parid),
{
    lemma_dashed_form_of_any_form(parid);
    lemma_bare_parses_to_itself(pcn_of(parid)->Some_0);
}


/// What a column of an attribute record reads as text: a string trimmed, a
/// number as its JSON text, nothing when absent, blank or of another kind.
pub open spec fn column_text(attrs: Json, key: Seq<char>) -> Option<Seq<char>> {
    match attrs.field(key) {
        Some(Json::Str(x)) => if trim(x@).len() > 0 {
            Some(trim(x@))
        } else {
            None
        },
        Some(Json::Number(n)) => if n.text@.len() > 0 {
            Some(n.text@)
        } else {
            None
        },
        _ => None,
    }
}

/// What a column of an attribute record reads as an amount: a number to two
/// places, a string as the amount it states.
pub open spec fn column_amount(attrs: Json, key: Seq<char>) -> Option<Seq<char>> {
    match attrs.field(key) {
        Some(Json::Number(n)) => Some(n.fixed2@),
        Some(Json::Str(x)) => usd_amount(x@),
        _ => None,
    }
}

/// A record's values come each from its own column: total market value from
/// `TOTAL_MARKET`, land from `LAND_MARKET`, improvement from `IMPRV_MRKT`,
/// assessed value from `ASSESSED_VAL`, taxable value from `TOTAL_TAXABLE`
/// and exemptions from `EXEMPTION`, all in US dollars.
pub proof fn lemma_values_read_their_columns(v: Values, attrs: Json)
    requires
        values_from(v, attrs),
    ensures
        opt_amount(v.market_total) == column_amount(attrs, "TOTAL_MARKET"@),
        opt_amount(v.market_land) == column_amount(attrs, "LAND_MARKET"@),
        opt_amount(v.market_improvement) == column_amount(attrs, "IMPRV_MRKT"@),
        opt_amount(v.assessed) == column_amount(attrs, "ASSESSED_VAL"@),
        opt_amount(v.taxable) == column_amount(attrs, "TOTAL_TAXABLE"@),
        opt_amount(v.exemption) == column_amount(attrs, "EXEMPTION"@),
        v.assessed matches Some(m) ==> m.currency@ == "USD"@,
        v.taxable matches Some(m) ==> m.currency@ == "USD"@,
{
}

/// The last sale a record states comes each field from its own column:
/// book from `BOOK`, page from `PAGE`, deed type from `INSTRUMENT`,
/// qualification from `QUAL_CODE`, price from `PRICE`.
pub proof fn lemma_layer_sale_reads_its_columns(s: Sale, attrs: Json)
    requires
        sale_from(s, attrs),
    ensures
        opt_view(s.book) == column_text(attrs, "BOOK"@),
        opt_view(s.page) == column_text(attrs, "PAGE"@),
        opt_view(s.instrument) == column_text(attrs, "INSTRUMENT"@),
        opt_view(s.qualification_code) == column_text(attrs, "QUAL_CODE"@),
        opt_amount(s.price) == column_amount(attrs, "PRICE"@),
{
}

/// A search row's fields come each from its own column: situs address from
/// `SITE_ADDR_STR`, municipality from `MUNICIPALITY`, market value from
/// `TOTAL_MARKET`, assessed value from `ASSESSED_VAL`, land use from
/// `PROPERTY_USE`.
pub proof fn lemma_summary_reads_its_columns(s: ParcelSummary, attrs: Json)
    requires
        summary_from(s, attrs),
    ensures
        opt_view(s.situs_address) == column_text(attrs, "SITE_ADDR_STR"@),
        opt_view(s.municipality) == column_text(attrs, "MUNICIPALITY"@),
        opt_amount(s.market_value) == column_amount(attrs, "TOTAL_MARKET"@),
        opt_amount(s.assessed_value) == column_amount(attrs, "ASSESSED_VAL"@),
        opt_view(s.property_use) == column_text(attrs, "PROPERTY_USE"@),
{
}

/// A full record's fields come each from its own column: situs address
/// from `SITE_ADDR_STR`, municipality from `MUNICIPALITY`, land use from
/// `PROPERTY_USE`, subdivision from `SUBDIV_NAME`, coordinates from
/// `LATLNG`, and its values as [`lemma_values_read_their_columns`] says.
pub proof fn lemma_parcel_reads_its_columns(p: Parcel, attrs: Json)
    requires
        parcel_from(p, attrs),
    ensures
        opt_view(p.situs_address) == column_text(attrs, "SITE_ADDR_STR"@),
        opt_view(p.municipality) == column_text(attrs, "MUNICIPALITY"@),
        opt_view(p.property_use) == column_text(attrs, "PROPERTY_USE"@),
        opt_view(p.subdivision) == column_text(attrs, "SUBDIV_NAME"@),
        opt_view(p.coordinates) == column_text(attrs, "LATLNG"@),
        values_from(p.values, attrs),
{
}

} // verus!
