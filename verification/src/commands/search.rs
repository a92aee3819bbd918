//! `search`: find parcels by situs address, owner name, or PCN.

use vstd::prelude::*;

use crate::client::Paging;
use crate::commands::{limit_of, resolve_limit};
use crate::config::Config;
use crate::details::kept;
use crate::error::AppError;
use crate::json::Json;
use crate::model::{opt_view, summary_from, text_attr, ParcelList, ParcelSummary};
use crate::pcn::{pcn_of, Pcn};
use crate::text::{chars_of, string_of, words};
use crate::util::{normalize_query, normalized, sql_escape, sql_escaped};

verus! {

/// The `where` clause and sort order of a search. A query that is a PCN
/// (in address mode) is an exact `PARID` match; otherwise a prefix `LIKE` on
/// the situs address, or on both owner columns in owner mode. A non-empty
/// municipality narrows either `LIKE` search.
pub open spec fn query_of(q: Seq<char>, owner: bool, municipality: Option<Seq<char>>) -> (
    Seq<char>,
    Seq<char>,
) {
    if !owner && pcn_of(q) is Some {
        ("PARID='"@ + sql_escaped(pcn_of(q)->Some_0) + "'"@, "PARID"@)
    } else {
        let e = sql_escaped(q);
        let base = if owner {
            "(OWNER_NAME1 LIKE '"@ + e + "%' OR OWNER_NAME2 LIKE '"@ + e + "%')"@
        } else {
            "SITE_ADDR_STR LIKE '"@ + e + "%'"@
        };
        let order = if owner {
            "OWNER_NAME1,PARID"@
        } else {
            "SITE_ADDR_STR,PARID"@
        };
        match municipality {
            Some(m) => if m.len() > 0 {
                (base + " AND MUNICIPALITY='"@ + sql_escaped(m) + "'"@, order)
            } else {
                (base, order)
            },
            None => (base, order),
        }
    }
}

fn push_str(v: &mut Vec<char>, s: &str)
    ensures
        final(v)@ == old(v)@ + s@,
{
    let mut t = chars_of(s);
    v.append(&mut t);
}

/// Build the `where` clause and sort order for a search on an already
/// normalized query.
pub fn build_query(normalized: &str, owner: bool, municipality: Option<&str>) -> (r: (
    String,
    &'static str,
))
    ensures
        (r.0@, r.1@) == query_of(normalized@, owner, match municipality {
            Some(m) => Some(m@),
            None => None,
        }),
{
    if !owner {
        match Pcn::parse(normalized) {
            Ok(pcn) => {
                let mut v = chars_of("PARID='");
                let e = sql_escape(pcn.bare());
                push_str(&mut v, e.as_str());
                push_str(&mut v, "'");
                return (string_of(&v), "PARID");
            },
            Err(_) => {},
        }
    }
    let escaped = sql_escape(normalized);
    let mut v: Vec<char>;
    let order: &'static str;
    if owner {
        v = chars_of("(OWNER_NAME1 LIKE '");
        push_str(&mut v, escaped.as_str());
        push_str(&mut v, "%' OR OWNER_NAME2 LIKE '");
        push_str(&mut v, escaped.as_str());
        push_str(&mut v, "%')");
        order = "OWNER_NAME1,PARID";
    } else {
        v = chars_of("SITE_ADDR_STR LIKE '");
        push_str(&mut v, escaped.as_str());
        push_str(&mut v, "%'");
        order = "SITE_ADDR_STR,PARID";
    }
    match municipality {
        Some(m) => {
            if m.unicode_len() > 0 {
                push_str(&mut v, " AND MUNICIPALITY='");
                let em = sql_escape(m);
                push_str(&mut v, em.as_str());
                push_str(&mut v, "'");
            }
        },
        None => {},
    }
    (string_of(&v), order)
}

/// A search, ready to run: its clause, sort order, and row limit.
#[derive(Debug)]
pub struct SearchPlan {
    pub where_clause: String,
    pub order_by: String,
    pub limit: u32,
}

/// The municipality a search is narrowed to: the flag's, normalized, else the
/// saved default.
pub open spec fn municipality_of(flag: Option<Seq<char>>, saved: Option<Seq<char>>) -> Option<
    Seq<char>,
> {
    match flag {
        Some(m) => Some(normalized(m)),
        None => saved,
    }
}

/// Plans a search: the query is normalized and must not be empty; the limit
/// and municipality fall back to the saved preferences.
pub fn plan_search(
    query: &str,
    owner: bool,
    municipality: Option<&str>,
    limit: Option<u32>,
    cfg: &Config,
) -> (r: Result<SearchPlan, AppError>)
    ensures
        r is Err <==> words(query@).len() == 0,
        normalized(query@).len() == 0 ==> (r matches Err(e) && e is Usage && e.text()
            == "search needs something to match on"@),
        normalized(query@).len() > 0 ==> (r matches Ok(p) && (p.where_clause@, p.order_by@)
            == query_of(
            normalized(query@),
            owner,
            municipality_of(
                match municipality {
                    Some(m) => Some(m@),
                    None => None,
                },
                opt_view(cfg.municipality),
            ),
        ) && p.limit == limit_of(limit, cfg.limit)),
{
    let q = normalize_query(query);
    if q.as_str().unicode_len() == 0 {
        return Err(AppError::Usage(string_of(&chars_of("search needs something to match on"))));
    }
    let n = resolve_limit(limit, cfg);
    let muni: Option<String> = match municipality {
        Some(m) => Some(normalize_query(m)),
        None => match &cfg.municipality {
            Some(m) => Some(m.clone()),
            None => None,
        },
    };
    let (w, o) = match &muni {
        Some(m) => build_query(q.as_str(), owner, Some(m.as_str())),
        None => build_query(q.as_str(), owner, None),
    };
    Ok(SearchPlan { where_clause: w, order_by: string_of(&chars_of(o)), limit: n })
}

/// The rows of a search result that carry a parcel id.
pub open spec fn rows_with_id(rows: Seq<Json>) -> Seq<Json> {
    kept(rows, |row: Json| text_attr(row, "PARID"@) is Some)
}

/// The result list: one summary per row that has a parcel id, with the
/// server's true match count.
pub fn search_results(rows: &Vec<Json>, total: u64) -> (r: ParcelList)
    ensures
        r.schema@ == "parcel-list/v1"@,
        r.total == total,
        r.items@.len() == rows_with_id(rows@).len(),
        forall|i: int|
            0 <= i < r.items@.len() ==> summary_from(#[trigger] r.items@[i], rows_with_id(rows@)[i]),
        r.truncated == (total > r.items@.len()),
{
    let ghost keep = |row: Json| text_attr(row, "PARID"@) is Some;
    let mut items: Vec<ParcelSummary> = Vec::new();
    let mut i: usize = 0;
    while i < rows.len()
        invariant
            i <= rows@.len(),
            keep == (|row: Json| text_attr(row, "PARID"@) is Some),
            items@.len() == kept(rows@.take(i as int), keep).len(),
            forall|k: int|
                0 <= k < items@.len() ==> summary_from(
                    #[trigger] items@[k],
                    kept(rows@.take(i as int), keep)[k],
                ),
        decreases rows.len() - i,
    {
        proof {
            assert(rows@.take(i + 1).drop_last() =~= rows@.take(i as int));
            assert(rows@.take(i + 1).last() == rows@[i as int]);
        }
        match ParcelSummary::from_attrs(&rows[i]) {
            Some(s) => items.push(s),
            None => {},
        }
        i = i + 1;
    }
    proof {
        assert(rows@.take(rows@.len() as int) =~= rows@);
    }
    ParcelList::new(items, total)
}

/// The paging for a search's rows: up to the plan's limit, and nothing to
/// fetch at all when the server counted no match.
pub fn search_paging(plan: &SearchPlan, total: u64) -> (r: Paging)
    ensures
        r.rows@.len() == 0,
        r.limit == plan.limit,
        r.done == (total == 0),
{
    let mut p = Paging::new(plan.limit);
    p.done = total == 0;
    p
}

} // verus!
