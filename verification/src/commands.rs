//! The decisions behind each command: argument checks, defaults, and what a
//! command does with what it fetched. Fetching and printing happen around
//! these.

use vstd::prelude::*;

use crate::config::Config;
use crate::details::{newer, newest_first, sale_date, str_lt, TaxYear};
use crate::model::Sale;
use crate::error::AppError;
use crate::pcn::{digits_in, has_junk, junk_message, length_message, pcn_of, Pcn};

pub mod config;
pub mod parcel;
pub mod search;

verus! {

/// Fallback for `--limit` when neither the flag nor the config sets one.
pub const DEFAULT_LIMIT: u32 = 25;

/// Parse a PCN argument, mapping a bad value onto the usage exit code.
pub fn parse_pcn(raw: &str) -> (r: Result<Pcn, AppError>)
    ensures
        has_junk(raw@) ==> (r matches Err(AppError::Usage(m)) && m@ == junk_message(raw@)),
        !has_junk(raw@) && digits_in(raw@).len() != 17 ==> (r matches Err(AppError::Usage(m))
            && m@ == length_message(raw@, digits_in(raw@).len())),
        r matches Ok(p) ==> pcn_of(raw@) == Some(p@),
        pcn_of(raw@) is Some ==> r is Ok,
{
    Pcn::parse(raw)
}

/// The effective `--limit`: the flag, then the `limit` config key, then the
/// built-in default.
pub open spec fn limit_of(flag: Option<u32>, cfg_limit: Option<u32>) -> u32 {
    match flag {
        Some(n) => n,
        None => match cfg_limit {
            Some(n) => n,
            None => DEFAULT_LIMIT,
        },
    }
}

/// Resolve `--limit`: the flag, then the `limit` config key, then the
/// built-in default.
pub fn resolve_limit(flag: Option<u32>, cfg: &Config) -> (r: u32)
    ensures
        r == limit_of(flag, cfg.limit),
{
    match flag {
        Some(n) => n,
        None => match cfg.limit {
            Some(n) => n,
            None => DEFAULT_LIMIT,
        },
    }
}

/// Keeps only the first `limit` items when a limit is given: the most recent
/// ones, for lists that come newest first. Without a limit nothing is cut.
pub fn keep_first<T>(items: &mut Vec<T>, limit: Option<u32>)
    ensures
        limit matches Some(n) ==> final(items)@ == old(items)@.take(
            if n as int <= old(items)@.len() {
                n as int
            } else {
                old(items)@.len() as int
            },
        ),
        limit is None ==> final(items)@ == old(items)@,
{
    match limit {
        Some(n) => {
            let ghost before = items@;
            if (n as usize) < items.len() {
                items.truncate(n as usize);
            } else {
                proof {
                    assert(before.take(before.len() as int) =~= before);
                }
            }
        },
        None => {},
    }
}

/// With the tax years newest first, a limit keeps the most recent ones:
/// every year kept is later than every year dropped.
pub proof fn lemma_limit_keeps_newest_years(rows: Seq<TaxYear>, n: int)
    requires
        0 <= n <= rows.len(),
        forall|i: int, j: int|
            0 <= i < j < rows.len() ==> str_lt(rows[j].tax_year@, rows[i].tax_year@),
    ensures
        forall|i: int, j: int|
            0 <= i < n <= j < rows.len() ==> #[trigger] str_lt(
                rows[j].tax_year@,
                rows.take(n)[i].tax_year@,
            ),
{
    assert forall|i: int, j: int| 0 <= i < n <= j < rows.len() implies #[trigger] str_lt(
        rows[j].tax_year@,
        rows.take(n)[i].tax_year@,
    ) by {
        assert(rows.take(n)[i] == rows[i]);
    }
}

/// With the sales newest first, a limit keeps the most recent ones: no sale
/// dropped is newer than a sale kept.
pub proof fn lemma_limit_keeps_newest_sales(sales: Seq<Sale>, n: int)
    requires
        0 <= n <= sales.len(),
        newest_first(sales),
    ensures
        forall|i: int, j: int|
            0 <= i < n <= j < sales.len() ==> !newer(
                sale_date(#[trigger] sales[j]),
                sale_date(#[trigger] sales.take(n)[i]),
            ),
{
    assert forall|i: int, j: int| 0 <= i < n <= j < sales.len() implies !newer(
        sale_date(#[trigger] sales[j]),
        sale_date(#[trigger] sales.take(n)[i]),
    ) by {
        assert(sales.take(n)[i] == sales[i]);
    }
}

} // verus!
