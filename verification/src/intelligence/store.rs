//! What is stored of an evaluation.

use vstd::prelude::*;

use crate::calendar;
use crate::calendar::Date;
use crate::clock::Timestamp;
use crate::domain::Domain;

verus! {

/// The moment at which a day starts.
pub open spec fn midnight_of(day: int) -> Timestamp {
    Timestamp { secs: ((day - calendar::EPOCH) * 86400) as i64, nanos: 0 }
}

pub fn midnight_utc(day: Date) -> (r: Timestamp)
    ensures
        r == midnight_of(day.number as int),
        r.secs == (day.number - calendar::EPOCH) * 86400,
{
    Timestamp { secs: (day.number as i64 - calendar::EPOCH) * 86400, nanos: 0 }
}

/// The midnight of a day is the first second of that day.
pub proof fn law_midnight_starts_the_day(day: int)
    requires
        i32::MIN <= day <= i32::MAX,
    ensures
        calendar::local_day(midnight_of(day).secs as int, 0) == day,
        calendar::local_second(midnight_of(day).secs as int, 0) == 0,
{
}

/// The ledger row for an emitted observation: kind and dimension count only, never the text.
#[derive(Debug)]
pub struct ObservationRow {
    pub user_id: String,
    pub domain: Domain,
    pub agent_id: &'static str,
    pub kind: &'static str,
    pub meta_kind: String,
    pub meta_count: usize,
    pub meta_status: &'static str,
    /// The evaluation date, so that the row lines up with the observation's own date.
    pub ts: Timestamp,
}

pub fn ledger_event(user_id: &str, kind: &str, dimensions: &Vec<String>, as_of: Date) -> (r:
    ObservationRow)
    ensures
        r.user_id@ == user_id@,
        r.domain == Domain::Shared,
        r.agent_id@ == "baseline"@,
        r.kind@ == "observation"@,
        r.meta_kind@ == kind@,
        r.meta_count == dimensions@.len(),
        r.meta_status@ == "new"@,
        r.ts == midnight_of(as_of.number as int),
{
    ObservationRow {
        user_id: user_id.to_string(),
        domain: Domain::Shared,
        agent_id: "baseline",
        kind: "observation",
        meta_kind: kind.to_string(),
        meta_count: dimensions.len(),
        meta_status: "new",
        ts: midnight_utc(as_of),
    }
}

/// The midnights of two days are a day apart for each day between them, on the second.
pub proof fn law_midnights_are_days_apart(a: int, b: int)
    requires
        i32::MIN <= a <= i32::MAX,
        i32::MIN <= b <= i32::MAX,
    ensures
        midnight_of(b).secs - midnight_of(a).secs == (b - a) * 86400,
        midnight_of(a).nanos == 0,
        midnight_of(719163).secs == 0,
{
}

} // verus!
