//! The decisions of the client for the Palm Beach County ArcGIS parcel
//! layer: reading its error bodies, its counts and its result pages, and
//! paging through a capped result set.
//!
//! Two behaviours of the server shape this module:
//! * **Errors arrive as HTTP 200.** A bad `where` clause returns
//!   `{"error": {"code": 400, "message": ...}}` with a success status, so the
//!   body must be inspected rather than trusting the status code.
//! * **Results are capped** at `maxRecordCount` (5000) per request. A
//!   truncated response sets `exceededTransferLimit`, and the next page is
//!   fetched with `resultOffset`. [`Paging`] decides those requests.

use vstd::prelude::*;

use crate::error::AppError;
use crate::json::{reversed, take_elements, take_member, take_members, Json};
use crate::text::{chars_of, dec_i64, dec_int, join, join_strings, string_of};
use crate::util::{sql_escape, sql_escaped};

verus! {

/// The ArcGIS services folder holding the appraiser's layers. Also the base
/// the raw passthrough resolves relative paths against.
pub const BASE: &'static str = "https://gis.pbcgov.org/arcgis/rest/services/Parcels";

/// `PARCEL_INFO` layer 4: one row per parcel, countywide.
pub const PARCEL_LAYER: &'static str = "/PARCEL_INFO/FeatureServer/4";

/// Server-side cap on rows per request (`maxRecordCount` on the layer).
pub const MAX_RECORD_COUNT: u32 = 5000;

/// The columns a search needs: a light projection.
pub const SEARCH_FIELDS: &'static str = "PARID,OWNER_NAME1,OWNER_NAME2,SITE_ADDR_STR,MUNICIPALITY,TOTAL_MARKET,ASSESSED_VAL,PROPERTY_USE,SALE_DATE,PRICE,CONFID_FLG";

/// The string elements of an array, in order.
pub open spec fn string_items(items: Seq<Json>) -> Seq<Seq<char>>
    decreases items.len(),
{
    if items.len() == 0 {
        seq![]
    } else {
        let rest = string_items(items.drop_last());
        match items.last() {
            Json::Str(s) => rest.push(s@),
            _ => rest,
        }
    }
}

/// The numeric `code` of an ArcGIS error object, 0 when missing.
pub open spec fn error_code_of(err: Json) -> int {
    match err.field("code"@) {
        Some(Json::Number(n)) => match n.int {
            Some(i) => i as int,
            None => 0,
        },
        _ => 0,
    }
}

/// The error's `message`, or a stand-in when it has none.
pub open spec fn error_message_of(err: Json) -> Seq<char> {
    match err.field("message"@) {
        Some(Json::Str(s)) => s@,
        _ => "unspecified ArcGIS error"@,
    }
}

/// The error's string `details`, joined by `; `, when there are any.
pub open spec fn error_details_of(err: Json) -> Option<Seq<char>> {
    match err.field("details"@) {
        Some(Json::Array(d)) => {
            let j = join(string_items(d@), "; "@);
            if j.len() == 0 {
                None
            } else {
                Some(j)
            }
        },
        _ => None,
    }
}

/// The message with its details in parentheses.
pub open spec fn error_full_text(err: Json) -> Seq<char> {
    match error_details_of(err) {
        Some(d) => error_message_of(err) + " ("@ + d + ")"@,
        None => error_message_of(err),
    }
}

/// The exit code and message an ArcGIS error object maps to: a rejected
/// query is the caller's fault (usage), a missing layer is not-found, and
/// anything else is the provider's (upstream).
pub open spec fn arcgis_error_of(err: Json) -> (i32, Seq<char>) {
    let code = error_code_of(err);
    if code == 400 {
        (2, "ArcGIS rejected the query: "@ + error_full_text(err))
    } else if code == 404 {
        (4, "ArcGIS layer not found: "@ + error_full_text(err))
    } else {
        (5, "ArcGIS error "@ + dec_int(code) + ": "@ + error_full_text(err))
    }
}

fn error_details(err: &Json) -> (r: Option<String>)
    ensures
        r matches Some(d) ==> error_details_of(*err) == Some(d@),
        r is None ==> error_details_of(*err) is None,
{
    match err.get("details") {
        Some(Json::Array(d)) => {
            let mut parts: Vec<String> = Vec::new();
            let mut i: usize = 0;
            while i < d.len()
                invariant
                    i <= d@.len(),
                    crate::text::views(parts@) == string_items(d@.take(i as int)),
                decreases d.len() - i,
            {
                proof {
                    assert(d@.take(i + 1).drop_last() =~= d@.take(i as int));
                    assert(d@.take(i + 1).last() == d@[i as int]);
                }
                match &d[i] {
                    Json::Str(s) => {
                        let ghost before = crate::text::views(parts@);
                        parts.push(s.clone());
                        proof {
                            assert(crate::text::views(parts@) =~= before.push(s@));
                        }
                    },
                    _ => {},
                }
                i = i + 1;
            }
            proof {
                assert(d@.take(d@.len() as int) =~= d@);
            }
            let j = join_strings(&parts, "; ");
            if j.as_str().unicode_len() == 0 {
                None
            } else {
                Some(j)
            }
        },
        _ => None,
    }
}

/// ArcGIS reports query errors with an HTTP **200** and an `error` object,
/// so a successful status alone proves nothing. Maps those onto the
/// exit-code contract.
pub fn check_arcgis_error(body: &Json) -> (r: Result<(), AppError>)
    ensures
        body.field("error"@) is None ==> r is Ok,
        body.field("error"@) matches Some(err) ==> (r matches Err(e) && e.code()
            == arcgis_error_of(err).0 && e.text() == arcgis_error_of(err).1),
{
    let err = match body.get("error") {
        Some(e) => e,
        None => return Ok(()),
    };
    let code: i64 = match err.get("code") {
        Some(Json::Number(n)) => match n.int {
            Some(i) => i,
            None => 0,
        },
        _ => 0,
    };
    let message = match err.get("message") {
        Some(Json::Str(s)) => s.clone(),
        _ => string_of(&chars_of("unspecified ArcGIS error")),
    };
    let mut full = chars_of(message.as_str());
    match error_details(err) {
        Some(d) => {
            let mut open = chars_of(" (");
            full.append(&mut open);
            let mut dv = chars_of(d.as_str());
            full.append(&mut dv);
            let mut close = chars_of(")");
            full.append(&mut close);
        },
        None => {},
    }
    proof {
        assert(full@ =~= error_full_text(*err));
    }
    if code == 400 {
        let mut m = chars_of("ArcGIS rejected the query: ");
        m.append(&mut full);
        Err(AppError::Usage(string_of(&m)))
    } else if code == 404 {
        let mut m = chars_of("ArcGIS layer not found: ");
        m.append(&mut full);
        Err(AppError::NotFound(string_of(&m)))
    } else {
        let mut m = chars_of("ArcGIS error ");
        let mut c = dec_i64(code);
        m.append(&mut c);
        let mut sep = chars_of(": ");
        m.append(&mut sep);
        m.append(&mut full);
        Err(AppError::Upstream(string_of(&m)))
    }
}

/// The total a `returnCountOnly` response reports.
pub open spec fn count_of(body: Json) -> Option<u64> {
    match body.field("count"@) {
        Some(Json::Number(n)) => n.uint,
        _ => None,
    }
}

/// Reads a `returnCountOnly` response: its error, or its `count`.
pub fn count_from_body(body: &Json) -> (r: Result<u64, AppError>)
    ensures
        body.field("error"@) matches Some(err) ==> (r matches Err(e) && e.code()
            == arcgis_error_of(err).0 && e.text() == arcgis_error_of(err).1),
        body.field("error"@) is None && count_of(*body) is Some ==> (r matches Ok(n) && Some(n)
            == count_of(*body)),
        body.field("error"@) is None && count_of(*body) is None ==> (r matches Err(e) && e is Upstream
            && e.text() == "ArcGIS count response had no `count`"@),
{
    check_arcgis_error(body)?;
    match body.get("count") {
        Some(Json::Number(n)) => match n.uint {
            Some(c) => Ok(c),
            None => Err(
                AppError::Upstream(string_of(&chars_of("ArcGIS count response had no `count`"))),
            ),
        },
        _ => Err(AppError::Upstream(string_of(&chars_of("ArcGIS count response had no `count`")))),
    }
}

/// The `attributes` records of a page's features, in order; features
/// without one are skipped.
pub open spec fn feature_attributes(features: Seq<Json>) -> Seq<Json>
    decreases features.len(),
{
    if features.len() == 0 {
        seq![]
    } else {
        let rest = feature_attributes(features.drop_last());
        match features.last().field("attributes"@) {
            Some(a) => rest.push(a),
            None => rest,
        }
    }
}

/// The attribute records a query response carries.
pub open spec fn page_rows(body: Json) -> Seq<Json> {
    match body.field("features"@) {
        Some(f) => feature_attributes(f.elements()),
        None => seq![],
    }
}

/// The response says there is more beyond this page.
pub open spec fn more_pages(body: Json) -> bool {
    match body.field("exceededTransferLimit"@) {
        Some(Json::Bool(b)) => b,
        _ => false,
    }
}

/// The `resultOffset` and `resultRecordCount` of a page request.
#[derive(Debug, Clone, Copy)]
pub struct PageRequest {
    pub offset: u64,
    pub count: u32,
}

/// Paging through up to `limit` rows of a query, at most
/// `MAX_RECORD_COUNT` per request. The caller performs each request that
/// [`Paging::next_request`] asks for and hands the response to
/// [`Paging::receive`].
pub struct Paging {
    /// Rows received so far.
    pub rows: Vec<Json>,
    pub limit: u32,
    /// The server has said there is nothing more.
    pub done: bool,
}

pub open spec fn min_nat(a: int, b: int) -> int {
    if a < b {
        a
    } else {
        b
    }
}

impl Paging {
    /// No further request is due.
    pub open spec fn finished(self) -> bool {
        self.done || self.rows@.len() >= self.limit
    }

    /// The row count the next request asks for.
    pub open spec fn wanted(self) -> int {
        min_nat(self.limit - self.rows@.len(), MAX_RECORD_COUNT as int)
    }

    pub fn new(limit: u32) -> (r: Paging)
        ensures
            r.rows@.len() == 0,
            r.limit == limit,
            !r.done,
    {
        Paging { rows: Vec::new(), limit, done: false }
    }

    /// The next page to fetch: from the rows held so far, as many as are
    /// still wanted up to the server's cap; nothing once finished.
    pub fn next_request(&self) -> (r: Option<PageRequest>)
        ensures
            self.finished() ==> r is None,
            !self.finished() ==> (r matches Some(q) && q.offset == self.rows@.len() && q.count
                == self.wanted()),
    {
        if self.done || self.rows.len() >= self.limit as usize {
            return None;
        }
        let left: u32 = self.limit - self.rows.len() as u32;
        let count = if left < MAX_RECORD_COUNT {
            left
        } else {
            MAX_RECORD_COUNT
        };
        Some(PageRequest { offset: self.rows.len() as u64, count })
    }

    /// Takes in the response to the request [`Paging::next_request`] gave:
    /// an error body fails the query; otherwise its rows are kept, and
    /// paging stops when the server says there is nothing beyond this page
    /// or returned a short page (which means the same thing).
    pub fn receive(&mut self, body: Json) -> (r: Result<(), AppError>)
        requires
            !old(self).finished(),
        ensures
            body.field("error"@) matches Some(err) ==> (r matches Err(e) && e.code()
                == arcgis_error_of(err).0 && e.text() == arcgis_error_of(err).1),
            body.field("error"@) is None ==> r is Ok,
            r is Err ==> final(self).rows@ == old(self).rows@ && final(self).done == old(self).done,
            r is Ok ==> final(self).rows@ == old(self).rows@ + page_rows(body),
            r is Ok ==> final(self).done == (!more_pages(body) || page_rows(body).len() == 0
                || page_rows(body).len() < old(self).wanted()),
            final(self).limit == old(self).limit,
            r is Ok ==> received(*old(self), body, *final(self)),
    {
        check_arcgis_error(&body)?;
        let more = match body.get("exceededTransferLimit") {
            Some(Json::Bool(b)) => *b,
            _ => false,
        };
        let left: u32 = self.limit - self.rows.len() as u32;
        let want: u32 = if left < MAX_RECORD_COUNT {
            left
        } else {
            MAX_RECORD_COUNT
        };
        let ghost b = body;
        let features = match take_members(body) {
            Some(members) => match take_member(members, "features") {
                Some(f) => take_elements(f),
                None => Vec::new(),
            },
            None => Vec::new(),
        };
        let ghost items = features@;
        let total = features.len();
        proof {
            assert(items == match b.field("features"@) {
                Some(f) => f.elements(),
                None => Seq::<Json>::empty(),
            });
        }
        let mut rev = reversed(features);
        let mut page: Vec<Json> = Vec::new();
        let mut k: usize = 0;
        proof {
            assert(items.skip(0) =~= items);
        }
        while rev.len() > 0
            invariant
                k <= items.len(),
                items.len() == total,
                rev@ =~= items.skip(k as int).reverse(),
                page@ == feature_attributes(items.take(k as int)),
            decreases rev@.len(),
        {
            let item = rev.pop().unwrap();
            proof {
                assert(item == items[k as int]);
                assert(rev@ =~= items.skip(k + 1).reverse());
                assert(items.take(k + 1).drop_last() =~= items.take(k as int));
                assert(items.take(k + 1).last() == items[k as int]);
            }
            let ghost it = item;
            match take_members(item) {
                Some(members) => match take_member(members, "attributes") {
                    Some(a) => page.push(a),
                    None => {},
                },
                None => {},
            }
            k = k + 1;
        }
        proof {
            assert(k == items.len());
            assert(items.take(k as int) =~= items);
        }
        let got = page.len();
        self.rows.append(&mut page);
        self.done = !more || got == 0 || got < want as usize;
        Ok(())
    }

    /// The rows received, cut to the limit.
    pub fn into_rows(self) -> (r: Vec<Json>)
        ensures
            r@ == self.rows@.take(min_nat(self.rows@.len() as int, self.limit as int)),
    {
        let mut rows = self.rows;
        let n = rows.len();
        if n > self.limit as usize {
            rows.truncate(self.limit as usize);
        }
        proof {
            assert(self.rows@.take(n as int) =~= self.rows@);
        }
        rows
    }
}

/// What a successful [`Paging::receive`] of `body` makes of `before`: the
/// page's rows are added, and paging is done when the server says there is
/// nothing more or the page came back short.
pub open spec fn received(before: Paging, body: Json, after: Paging) -> bool {
    &&& after.rows@ == before.rows@ + page_rows(body)
    &&& after.done == (!more_pages(body) || page_rows(body).len() == 0 || page_rows(body).len()
        < before.wanted())
    &&& after.limit == before.limit
}

/// A page that leaves paging unfinished was a full page of
/// `MAX_RECORD_COUNT` rows, and the rows are still short of the limit.
pub proof fn lemma_paging_progress(before: Paging, body: Json, after: Paging)
    requires
        !before.finished(),
        received(before, body, after),
    ensures
        !after.finished() ==> after.rows@.len() >= before.rows@.len() + MAX_RECORD_COUNT
            && after.rows@.len() < after.limit,
{
}

/// A run of paging: it starts with no rows, and each page is received
/// while paging is unfinished.
pub open spec fn paging_run(states: Seq<Paging>, bodies: Seq<Json>) -> bool {
    &&& states.len() == bodies.len() + 1
    &&& states[0].rows@.len() == 0
    &&& forall|i: int|
        0 <= i < bodies.len() ==> !(#[trigger] states[i]).finished() && received(
            states[i],
            bodies[i],
            states[i + 1],
        )
}

proof fn lemma_run_rows(states: Seq<Paging>, bodies: Seq<Json>, i: int)
    requires
        paging_run(states, bodies),
        0 <= i < bodies.len(),
    ensures
        states[i].rows@.len() >= MAX_RECORD_COUNT * i,
        states[i].limit == states[0].limit,
    decreases i,
{
    if i > 0 {
        lemma_run_rows(states, bodies, i - 1);
        assert(!states[i - 1].finished());
        assert(!states[i].finished());
        lemma_paging_progress(states[i - 1], bodies[i - 1], states[i]);
    }
}

/// Paging makes at most ⌈limit / MAX_RECORD_COUNT⌉ requests: every request
/// but the last brings a full page without reaching the limit.
pub proof fn lemma_paging_request_bound(states: Seq<Paging>, bodies: Seq<Json>)
    requires
        paging_run(states, bodies),
    ensures
        bodies.len() * MAX_RECORD_COUNT < states[0].limit + MAX_RECORD_COUNT,
{
    if bodies.len() > 0 {
        let k = bodies.len() - 1;
        lemma_run_rows(states, bodies, k);
        assert(!states[k].finished());
    }
}

/// How an ArcGIS error maps onto exit codes: a rejected query (code 400)
/// is the caller's fault, a missing layer (404) is not found, and any other
/// code is the server's failure; the message names the server's own message.
pub proof fn lemma_arcgis_error_codes(err: Json)
    ensures
        ({
            let code: int = match err.field("code"@) {
                Some(Json::Number(n)) => match n.int {
                    Some(i) => i as int,
                    None => 0,
                },
                _ => 0,
            };
            &&& code == 400 ==> arcgis_error_of(err).0 == 2
            &&& code == 404 ==> arcgis_error_of(err).0 == 4
            &&& code != 400 && code != 404 ==> arcgis_error_of(err).0 == 5
        }),
        match err.field("message"@) {
            Some(Json::Str(m)) => error_full_text(err).take(m@.len() as int) == m@,
            _ => true,
        },
{
    match err.field("message"@) {
        Some(Json::Str(m)) => {
            match error_details_of(err) {
                Some(d) => {
                    assert((m@ + " ("@ + d + ")"@).take(m@.len() as int) =~= m@);
                },
                None => {
                    assert(m@.take(m@.len() as int) =~= m@);
                },
            }
        },
        _ => {},
    }
}

/// The `where` clause that selects one parcel by its bare PCN.
pub open spec fn parcel_where_text(pcn: Seq<char>) -> Seq<char> {
    "PARID='"@ + sql_escaped(pcn) + "'"@
}

/// The `where` clause for fetching one parcel by PCN.
pub fn parcel_where(pcn: &str) -> (r: String)
    ensures
        r@ == parcel_where_text(pcn@),
{
    let mut v = chars_of("PARID='");
    let e = sql_escape(pcn);
    let mut ev = chars_of(e.as_str());
    v.append(&mut ev);
    let mut q = chars_of("'");
    v.append(&mut q);
    string_of(&v)
}

} // verus!
