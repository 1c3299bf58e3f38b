//! Dimension ids. One value per day.

use vstd::prelude::*;

use crate::text::pieces;

verus! {

/// Hours since midnight of the first work-domain event.
pub const WORK_START: &'static str = "work.start";

/// Hours since midnight of the last work-domain event.
pub const WORK_END: &'static str = "work.end";

/// Focused work minutes (`session_focus` minutes, else last − first work event).
pub const WORK_MINUTES: &'static str = "work.minutes";

pub const READING_MINUTES: &'static str = "reading.minutes";

pub const READING_SESSIONS: &'static str = "reading.sessions";

/// `email` + `team_comms` tool calls in the work domain.
pub const COMMS_WORK_VOLUME: &'static str = "comms.work.volume";

/// `family` agent tool calls.
pub const COMMS_FAMILY_VOLUME: &'static str = "comms.family.volume";

pub const TASKS_POSTPONED: &'static str = "tasks.postponed";

pub const EXERCISE_SESSIONS: &'static str = "exercise.sessions";

pub const SLEEP_HOURS: &'static str = "sleep.hours";

pub open spec fn names() -> Seq<Seq<char>> {
    seq![
        WORK_START@,
        WORK_END@,
        WORK_MINUTES@,
        READING_MINUTES@,
        READING_SESSIONS@,
        COMMS_WORK_VOLUME@,
        COMMS_FAMILY_VOLUME@,
        TASKS_POSTPONED@,
        EXERCISE_SESSIONS@,
        SLEEP_HOURS@,
    ]
}

/// Every dimension.
pub fn all() -> (r: Vec<&'static str>)
    ensures
        pieces::slices(r@) == names(),
{
    let r = vec![
        WORK_START,
        WORK_END,
        WORK_MINUTES,
        READING_MINUTES,
        READING_SESSIONS,
        COMMS_WORK_VOLUME,
        COMMS_FAMILY_VOLUME,
        TASKS_POSTPONED,
        EXERCISE_SESSIONS,
        SLEEP_HOURS,
    ];
    assert(pieces::slices(r@) =~= names());
    r
}

/// No two dimensions have the same id.
pub proof fn law_names_are_distinct(i: int, j: int)
    requires
        0 <= i < names().len(),
        0 <= j < names().len(),
        names()[i] == names()[j],
    ensures
        i == j,
{
    reveal_strlit("work.start");
    reveal_strlit("work.end");
    reveal_strlit("work.minutes");
    reveal_strlit("reading.minutes");
    reveal_strlit("reading.sessions");
    reveal_strlit("comms.work.volume");
    reveal_strlit("comms.family.volume");
    reveal_strlit("tasks.postponed");
    reveal_strlit("exercise.sessions");
    reveal_strlit("sleep.hours");
    // Most differ in length, the others in their first letter.
    assert(READING_MINUTES@[0] != TASKS_POSTPONED@[0]);
    assert(COMMS_WORK_VOLUME@[0] != EXERCISE_SESSIONS@[0]);
    let lengths = names().map_values(|n: Seq<char>| n.len());
    assert(lengths =~= seq![10nat, 8, 12, 15, 16, 17, 19, 15, 17, 11]);
    assert(lengths[i] == lengths[j]);
}

} // verus!
