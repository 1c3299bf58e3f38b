//! How an observation is put into words.

use vstd::prelude::*;

use crate::intelligence::baseline;
use crate::intelligence::baseline::DayClass;
use crate::intelligence::baseline::Form;
use crate::intelligence::patterns::dim;
use crate::mother::arbitrate;
use crate::text::number;
use crate::text::pieces;

verus! {

/// The clock of a minute of the day is its label, and goes round after a day.
pub proof fn law_clocks_go_round(total: int)
    requires
        total >= 0,
    ensures
        total < 1440 ==> baseline::clock_of(total) == arbitrate::clock_label(total as nat),
        baseline::clock_of(total + 1440) == baseline::clock_of(total),
{
    assert((total + 1440) / 60 == total / 60 + 24);
    assert((total + 1440) % 60 == total % 60);
    assert((total / 60 + 24) % 24 == (total / 60) % 24);
    if total < 1440 {
        assert((total / 60) % 24 == total / 60);
    }
}

/// Before midnight the hours are counted back in whole hours, and the minutes back from the hour.
pub proof fn law_clocks_before_midnight(back: int)
    requires
        back > 0,
    ensures
        baseline::clock_of(-back) == number::two_digits(
            ((24 - (back / 60) % 24) % 24) as nat,
        ) + ":"@ + number::two_digits(((60 - back % 60) % 60) as nat),
{
    let h = back / 60;
    assert(baseline::truncated(-back, 60) == -h);
    assert((-h) % 24 == (24 - h % 24) % 24);
    assert((-back) % 60 == (60 - back % 60) % 60);
}

/// A week and two weeks have their own words; other whole weeks are counted in weeks, and what is
/// no whole number of weeks in days.
pub proof fn law_periods(k: int, days: int)
    ensures
        baseline::period_of(7) == "week"@,
        baseline::period_of(14) == "two weeks"@,
        k != 1 && k != 2 ==> baseline::period_of(7 * k) == number::integer(k) + " weeks"@,
        days % 7 != 0 ==> baseline::period_of(days) == number::integer(days) + " days"@,
{
    assert((7 * k) % 7 == 0);
    assert((7 * k) / 7 == k);
}

proof fn lemma_names_differ()
    ensures
        forall|p: int, q: int|
            0 <= p < 10 && 0 <= q < 10 && p != q ==> #[trigger] dim::names()[p]
                != #[trigger] dim::names()[q],
        dim::names()[0] == "work.start"@,
        dim::names()[1] == "work.end"@,
        dim::names()[2] == "work.minutes"@,
        dim::names()[3] == "reading.minutes"@,
        dim::names()[4] == "reading.sessions"@,
        dim::names()[5] == "comms.work.volume"@,
        dim::names()[6] == "comms.family.volume"@,
        dim::names()[7] == "tasks.postponed"@,
        dim::names()[8] == "exercise.sessions"@,
        dim::names()[9] == "sleep.hours"@,
{
    let n = dim::names();
    assert forall|p: int, q: int| 0 <= p < 10 && 0 <= q < 10 && p != q implies #[trigger] n[p]
        != #[trigger] n[q] by {
        if n[p] == n[q] {
            dim::law_names_are_distinct(p, q);
        }
    }
}

/// Times of the day are written as clocks, the minutes of work in hours, the minutes of reading
/// without decimals, and every other dimension with one.
pub proof fn law_forms(d: Seq<char>)
    ensures
        baseline::form_of(d) == Form::Clock <==> d == "work.start"@ || d == "work.end"@,
        baseline::form_of(d) == Form::Hours <==> d == "work.minutes"@,
        baseline::form_of(d) == Form::Whole <==> d == "reading.minutes"@,
        baseline::form_of(d) == Form::Tenths <==> d != "work.start"@ && d != "work.end"@ && d
            != "work.minutes"@ && d != "reading.minutes"@,
{
    lemma_names_differ();
    let n = dim::names();
    assert(n[0] != n[2] && n[0] != n[3] && n[1] != n[2] && n[1] != n[3] && n[2] != n[3]);
}

/// What the class of days reads as.
pub open spec fn days_read(c: DayClass) -> Seq<char> {
    if c == DayClass::Weekday {
        "on weekdays; your usual is "@
    } else {
        "at weekends; your usual is "@
    }
}

/// A sentence says what the recent value is, on which days, and what the usual one is, in words of
/// its dimension.
pub proof fn law_sentences(d: Seq<char>, c: DayClass, recent: Seq<char>, usual: Seq<char>)
    ensures
        d == "work.end"@ ==> baseline::sentence(d, c, recent, usual) == "your work day ended around "@ + recent
            + " "@ + days_read(c) + usual,
        d == "work.start"@ ==> baseline::sentence(d, c, recent, usual) == "your work day started around "@ + recent
            + " "@ + days_read(c) + usual,
        d == "work.minutes"@ ==> baseline::sentence(d, c, recent, usual) == "you worked about "@ + recent
            + " hours a day "@ + days_read(c) + usual,
        d == "reading.minutes"@ ==> baseline::sentence(d, c, recent, usual) == "you read about "@ + recent
            + " minutes a day "@ + days_read(c) + usual,
        d == "reading.sessions"@ ==> baseline::sentence(d, c, recent, usual) == "you read "@ + recent
            + " times a day "@ + days_read(c) + usual,
        d == "comms.family.volume"@ ==> baseline::sentence(d, c, recent, usual) == "you exchanged about "@ + recent
            + " family messages a day "@ + days_read(c) + usual,
        d == "comms.work.volume"@ ==> baseline::sentence(d, c, recent, usual) == "you handled about "@ + recent
            + " work messages a day "@ + days_read(c) + usual,
        d == "tasks.postponed"@ ==> baseline::sentence(d, c, recent, usual) == "you postponed about "@ + recent
            + " personal tasks a day "@ + days_read(c) + usual,
        d == "exercise.sessions"@ ==> baseline::sentence(d, c, recent, usual) == "you exercised "@ + recent
            + " times a day "@ + days_read(c) + usual,
        d == "sleep.hours"@ ==> baseline::sentence(d, c, recent, usual) == "you slept about "@ + recent
            + " hours "@ + days_read(c) + usual,
        !dim::names().contains(d) ==> baseline::sentence(d, c, recent, usual) == d + " was "@ + recent
            + " "@ + days_read(c) + usual,
{
    lemma_names_differ();
    reveal_strlit("on weekdays");
    reveal_strlit("at weekends");
    reveal_strlit("; your usual is ");
    reveal_strlit("on weekdays; your usual is ");
    reveal_strlit("at weekends; your usual is ");
    assert("on weekdays"@ + "; your usual is "@ =~= "on weekdays; your usual is "@);
    assert("at weekends"@ + "; your usual is "@ =~= "at weekends; your usual is "@);
    let (a, b) = baseline::frame(d);
    assert(a + recent + b + c.words() + "; your usual is "@ + usual =~= a + recent + b + (c.words()
        + "; your usual is "@) + usual);
    assert(c.words() + "; your usual is "@ =~= days_read(c));
    lemma_frames(d);
}

/// What stands around the recent value of a dimension.
proof fn lemma_frames(d: Seq<char>)
    ensures
        d == "work.end"@ ==> baseline::frame(d) == ("your work day ended around "@, " "@),
        d == "work.start"@ ==> baseline::frame(d) == ("your work day started around "@, " "@),
        d == "work.minutes"@ ==> baseline::frame(d) == ("you worked about "@, " hours a day "@),
        d == "reading.minutes"@ ==> baseline::frame(d) == ("you read about "@, " minutes a day "@),
        d == "reading.sessions"@ ==> baseline::frame(d) == ("you read "@, " times a day "@),
        d == "comms.family.volume"@ ==> baseline::frame(d) == ("you exchanged about "@, " family messages a day "@),
        d == "comms.work.volume"@ ==> baseline::frame(d) == ("you handled about "@, " work messages a day "@),
        d == "tasks.postponed"@ ==> baseline::frame(d) == ("you postponed about "@, " personal tasks a day "@),
        d == "exercise.sessions"@ ==> baseline::frame(d) == ("you exercised "@, " times a day "@),
        d == "sleep.hours"@ ==> baseline::frame(d) == ("you slept about "@, " hours "@),
        !dim::names().contains(d) ==> baseline::frame(d) == (d + " was "@, " "@),
{
    lemma_names_differ();
    let n = dim::names();
    assert(n.contains(n[1]));
    assert(n.contains(n[0]));
    assert(n.contains(n[2]));
    assert(n.contains(n[3]));
    assert(n.contains(n[4]));
    assert(n.contains(n[6]));
    assert(n.contains(n[5]));
    assert(n.contains(n[7]));
    assert(n.contains(n[8]));
    assert(n.contains(n[9]));
    assert(n[0] != n[1]);
    assert(n[0] != n[2]);
    assert(n[0] != n[3]);
    assert(n[0] != n[4]);
    assert(n[0] != n[5]);
    assert(n[0] != n[6]);
    assert(n[0] != n[7]);
    assert(n[0] != n[8]);
    assert(n[0] != n[9]);
    assert(n[1] != n[2]);
    assert(n[1] != n[3]);
    assert(n[1] != n[4]);
    assert(n[1] != n[5]);
    assert(n[1] != n[6]);
    assert(n[1] != n[7]);
    assert(n[1] != n[8]);
    assert(n[1] != n[9]);
    assert(n[2] != n[3]);
    assert(n[2] != n[4]);
    assert(n[2] != n[5]);
    assert(n[2] != n[6]);
    assert(n[2] != n[7]);
    assert(n[2] != n[8]);
    assert(n[2] != n[9]);
    assert(n[3] != n[4]);
    assert(n[3] != n[5]);
    assert(n[3] != n[6]);
    assert(n[3] != n[7]);
    assert(n[3] != n[8]);
    assert(n[3] != n[9]);
    assert(n[4] != n[5]);
    assert(n[4] != n[6]);
    assert(n[4] != n[7]);
    assert(n[4] != n[8]);
    assert(n[4] != n[9]);
    assert(n[5] != n[6]);
    assert(n[5] != n[7]);
    assert(n[5] != n[8]);
    assert(n[5] != n[9]);
    assert(n[6] != n[7]);
    assert(n[6] != n[8]);
    assert(n[6] != n[9]);
    assert(n[7] != n[8]);
    assert(n[7] != n[9]);
    assert(n[8] != n[9]);
}

/// An observation speaks of the period, says its sentences one after another, each but the first
/// with a capital behind a full stop, and ends with a full stop.
pub proof fn law_observations_are_sentences(days: int, ss: Seq<Seq<char>>, x: Seq<char>)
    ensures
        baseline::observation_text_of(days, seq![x]) == "Over the last "@ + baseline::period_of(
            days,
        ) + ", "@ + x + "."@,
        ss.len() > 0 ==> baseline::observation_text_of(days, ss.push(x))
            == baseline::observation_text_of(days, ss) + " "@ + pieces::capital(x) + "."@,
{
    reveal_strlit(".");
    reveal_strlit(". ");
    reveal_strlit(" ");
    assert("."@ + " "@ =~= ". "@);
    if ss.len() > 0 {
        assert(ss.push(x).drop_last() =~= ss);
        let head = "Over the last "@ + baseline::period_of(days) + ", "@;
        let s = baseline::strung(ss);
        assert(head + (s + ". "@ + pieces::capital(x)) + "."@ =~= head + s + "."@ + " "@
            + pieces::capital(x) + "."@);
    }
}

} // verus!
