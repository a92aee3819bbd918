//! `parcel`: the full record for one parcel control number.

use vstd::prelude::*;

use crate::error::AppError;
use crate::json::Json;
use crate::model::{parcel_from, parcel_id, Parcel};
use crate::pcn::{dashed_form, Pcn};
use crate::text::{chars_of, string_of};

verus! {

/// The message for a PCN the parcel layer has no row for.
pub open spec fn no_parcel_text(pcn: Seq<char>) -> Seq<char> {
    "no parcel with control number "@ + dashed_form(pcn)
}

/// The full record for `pcn`, from the rows the parcel layer returned for
/// it: no row means no such parcel; a row without a parcel id is the
/// county's failure.
pub fn parcel_from_rows(pcn: &Pcn, rows: &Vec<Json>) -> (r: Result<Parcel, AppError>)
    ensures
        rows@.len() == 0 ==> (r matches Err(e) && e is NotFound && e.text() == no_parcel_text(
            pcn@,
        )),
        rows@.len() > 0 && parcel_id(rows@[0]) is None ==> (r matches Err(e) && e is Upstream
            && e.text() == "the parcel layer returned a row without a parcel id"@),
        rows@.len() > 0 && parcel_id(rows@[0]) is Some ==> (r matches Ok(p) && parcel_from(
            p,
            rows@[0],
        )),
{
    if rows.len() == 0 {
        let mut m = chars_of("no parcel with control number ");
        let d = pcn.dashed();
        let mut dv = chars_of(d.as_str());
        m.append(&mut dv);
        return Err(AppError::NotFound(string_of(&m)));
    }
    match Parcel::from_attrs(&rows[0]) {
        Some(p) => Ok(p),
        None => Err(
            AppError::Upstream(
                string_of(&chars_of("the parcel layer returned a row without a parcel id")),
            ),
        ),
    }
}

} // verus!
