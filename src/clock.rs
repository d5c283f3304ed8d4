use vstd::prelude::*;
use chrono::Datelike;
use crate::user::Date;

verus! {

/// Relies on chrono's `Utc::now` and `DateTime::timestamp`: the current time in whole
/// seconds since the Unix epoch. It changes from call to call, so nothing is stated of it.
#[verifier::external_body]
pub(crate) fn now_seconds() -> (r: i64) {
    chrono::Utc::now().timestamp()
}

/// Relies on chrono's `Utc::now` and `DateTime::date_naive`: today's UTC date, whose
/// month chrono keeps in 1..=12 and whose day in 1..=31.
#[verifier::external_body]
pub(crate) fn today() -> (r: Date)
    ensures
        r.wf(),
{
    let d = chrono::Utc::now().date_naive();
    Date { year: d.year(), month: d.month() as u8, day: d.day() as u8 }
}

/// Relies on uuid's `Uuid::new_v4` and `Uuid::as_u128`: a random identity, of which
/// nothing is stated.
#[verifier::external_body]
pub(crate) fn new_id() -> (r: u128) {
    uuid::Uuid::new_v4().as_u128()
}

} // verus!
