//! What the daily values promise, on the events they are made of.

use vstd::prelude::*;

use crate::domain::Domain;
use crate::intelligence::patterns;
use crate::intelligence::patterns::dim;
use crate::intelligence::patterns::DailyView;
use crate::intelligence::patterns::EventView;
use crate::intelligence::patterns::QuantityView;
use crate::intelligence::patterns::Sort;
use crate::text::order::KeyView;
use crate::text::scan;

verus! {

/// The event is the user's, on the local day, `offset` seconds east of Greenwich. The days are
/// counted from the first of January of year 1; Unix time starts on day 719163.
pub open spec fn is_on(e: EventView, offset: int, user: Seq<char>, day: int) -> bool {
    e.user_id == user && 719163 + (e.secs + offset) / 86400 == day
}

/// The events of a user's day.
pub open spec fn on(offset: int, user: Seq<char>, day: int) -> spec_fn(EventView) -> bool {
    |e: EventView| is_on(e, offset, user, day)
}

/// Those of one kind.
pub open spec fn of_kind(
    offset: int,
    user: Seq<char>,
    day: int,
    kind: Seq<char>,
) -> spec_fn(EventView) -> bool {
    |e: EventView| is_on(e, offset, user, day) && e.kind == kind
}

/// Those of one kind whose minutes are known.
pub open spec fn with_minutes(
    offset: int,
    user: Seq<char>,
    day: int,
    kind: Seq<char>,
) -> spec_fn(EventView) -> bool {
    |e: EventView|
        is_on(e, offset, user, day) && e.kind == kind && (e.meta_minutes || e.duration_ms is Some)
}

/// The nights whose hours are known.
pub open spec fn nights(offset: int, user: Seq<char>, day: int) -> spec_fn(EventView) -> bool {
    |e: EventView|
        is_on(e, offset, user, day) && e.kind == "sleep"@ && (e.meta_hours || e.duration_ms is Some)
}

/// The calls that write to colleagues: of the email or the team agent, at work.
pub open spec fn work_calls(offset: int, user: Seq<char>, day: int) -> spec_fn(EventView) -> bool {
    |e: EventView|
        is_on(e, offset, user, day) && e.kind == "tool_call"@ && e.domain == Domain::Work && (
        e.agent_id == "email"@ || e.agent_id == "team_comms"@)
}

/// The calls that write to the family.
pub open spec fn family_calls(offset: int, user: Seq<char>, day: int) -> spec_fn(
    EventView,
) -> bool {
    |e: EventView|
        is_on(e, offset, user, day) && e.kind == "tool_call"@ && e.agent_id == "family"@
}

/// The indices, in order, of the events that match.
pub open spec fn are_indices(
    es: Seq<EventView>,
    f: spec_fn(EventView) -> bool,
    p: Seq<int>,
) -> bool {
    &&& forall|i: int| 0 <= i < es.len() ==> (p.contains(i) <==> f(#[trigger] es[i]))
    &&& forall|j: int| 0 <= j < p.len() ==> 0 <= #[trigger] p[j] < es.len()
    &&& forall|i: int, j: int| 0 <= i < j < p.len() ==> #[trigger] p[i] < #[trigger] p[j]
}

proof fn lemma_pick(
    es: Seq<EventView>,
    offset: int,
    key: KeyView,
    t: Sort,
    f: spec_fn(EventView) -> bool,
)
    requires
        forall|e: EventView| #[trigger]
            f(e) <==> patterns::event_key(e, offset) == key && patterns::is_sort(e, t),
    ensures
        patterns::picked(es, offset, key, t).len() == es.filter(f).len(),
        are_indices(es, f, patterns::picked(es, offset, key, t)),
    decreases es.len(),
{
    reveal(Seq::filter);
    let p = patterns::picked(es, offset, key, t);
    if es.len() > 0 {
        let init = es.drop_last();
        lemma_pick(init, offset, key, t, f);
        let q = patterns::picked(init, offset, key, t);
        assert forall|i: int| 0 <= i < es.len() implies (p.contains(i) <==> f(
            #[trigger] es[i],
        )) by {
            if i == es.len() - 1 {
                assert(es[i] == es.last());
                if f(es[i]) {
                    assert(p[q.len() as int] == i);
                }
                if p.contains(i) && !f(es[i]) {
                    assert(q.contains(i));
                    let j = choose|j: int| 0 <= j < q.len() && q[j] == i;
                    assert(q[j] < init.len());
                }
            } else {
                assert(init[i] == es[i]);
                assert(q.contains(i) <==> f(init[i]));
                if q.contains(i) {
                    let j = choose|j: int| 0 <= j < q.len() && q[j] == i;
                    assert(p[j] == i);
                }
                if p.contains(i) {
                    let j = choose|j: int| 0 <= j < p.len() && p[j] == i;
                    assert(j < q.len() && q[j] == i);
                }
            }
        }
    }
}

/// What the value at a place among the dimensions is made of.
spec fn is_made(es: Seq<EventView>, offset: int, key: KeyView, q: QuantityView, p: int) -> bool {
    if p == 0 || p == 1 {
        match patterns::work_edge(es, offset, key, p == 1) {
            Some(s) => q == QuantityView::Clock(s),
            None => false,
        }
    } else if p == 2 {
        let focus = patterns::picked(es, offset, key, Sort::Focus);
        if focus.len() > 0 {
            q == QuantityView::Minutes(focus)
        } else {
            match (
                patterns::work_edge(es, offset, key, false),
                patterns::work_edge(es, offset, key, true),
            ) {
                (Some(a), Some(b)) => q == QuantityView::Between(a, b),
                _ => false,
            }
        }
    } else if p == 3 {
        q == QuantityView::Minutes(patterns::picked(es, offset, key, Sort::TimedReading))
    } else if p == 9 {
        let sleep = patterns::picked(es, offset, key, Sort::Sleep);
        sleep.len() > 0 && q == QuantityView::MostHours(sleep)
    } else {
        let t = if p == 4 {
            Sort::Reading
        } else if p == 5 {
            Sort::WorkComms
        } else if p == 6 {
            Sort::FamilyComms
        } else if p == 7 {
            Sort::Postponed
        } else {
            Sort::Exercise
        };
        q == QuantityView::Count(patterns::picked(es, offset, key, t).len())
    }
}

proof fn lemma_shape(es: Seq<EventView>, offset: int, key: KeyView, v: DailyView) -> (p: int)
    requires
        patterns::day_values(es, offset, key).contains(v),
    ensures
        0 <= p < 10,
        v.dimension == dim::names()[p],
        v.user_id == key.text,
        v.day == key.number,
        v.sample_n == patterns::picked(es, offset, key, Sort::Any).len(),
        is_made(es, offset, key, v.quantity, p),
{
    let w = patterns::work_values(es, offset, key);
    let c = patterns::count_values(es, offset, key);
    let z = patterns::sleep_values(es, offset, key);
    let all = patterns::day_values(es, offset, key);
    let i = choose|i: int| 0 <= i < all.len() && all[i] == v;
    if i < w.len() {
        assert(all[i] == w[i]);
        i
    } else if i < w.len() + c.len() {
        assert(all[i] == c[i - w.len()]);
        i - w.len() + 3
    } else {
        assert(all[i] == z[i - w.len() - c.len()]);
        9
    }
}

proof fn lemma_key_of(es: Seq<EventView>, offset: int, ks: Seq<KeyView>, v: DailyView) -> (m: int)
    requires
        patterns::values_for(es, offset, ks).contains(v),
    ensures
        0 <= m < ks.len(),
        patterns::day_values(es, offset, ks[m]).contains(v),
    decreases ks.len(),
{
    let all = patterns::values_for(es, offset, ks);
    let i = choose|i: int| 0 <= i < all.len() && all[i] == v;
    let a = patterns::values_for(es, offset, ks.drop_last());
    let b = patterns::day_values(es, offset, ks.last());
    if i < a.len() {
        assert(a[i] == v);
        let m = lemma_key_of(es, offset, ks.drop_last(), v);
        assert(ks.drop_last()[m] == ks[m]);
        m
    } else {
        assert(b[i - a.len()] == v);
        ks.len() - 1
    }
}

proof fn lemma_value_of(es: Seq<EventView>, offset: int, ks: Seq<KeyView>, m: int, v: DailyView)
    requires
        0 <= m < ks.len(),
        patterns::day_values(es, offset, ks[m]).contains(v),
    ensures
        patterns::values_for(es, offset, ks).contains(v),
    decreases ks.len(),
{
    let all = patterns::values_for(es, offset, ks);
    let a = patterns::values_for(es, offset, ks.drop_last());
    let b = patterns::day_values(es, offset, ks.last());
    if m == ks.len() - 1 {
        let i = choose|i: int| 0 <= i < b.len() && b[i] == v;
        assert(all[a.len() + i] == v);
    } else {
        assert(ks.drop_last()[m] == ks[m]);
        lemma_value_of(es, offset, ks.drop_last(), m, v);
        let i = choose|i: int| 0 <= i < a.len() && a[i] == v;
        assert(all[i] == v);
    }
}

/// The values that the events give.
pub open spec fn given(es: Seq<EventView>, offset: int) -> Seq<DailyView> {
    patterns::values_for(es, offset, patterns::day_keys(es, offset))
}

/// The place of a dimension among the names.
proof fn lemma_place(v: DailyView, p: int, q: int)
    requires
        0 <= p < 10,
        0 <= q < 10,
        v.dimension == dim::names()[p],
        v.dimension == dim::names()[q],
    ensures
        p == q,
{
    dim::law_names_are_distinct(p, q);
}

proof fn lemma_given(es: Seq<EventView>, offset: int, v: DailyView) -> (p: int)
    requires
        given(es, offset).contains(v),
    ensures
        0 <= p < 10,
        v.dimension == dim::names()[p],
        v.sample_n == patterns::picked(
            es,
            offset,
            (KeyView { text: v.user_id, number: v.day }),
            Sort::Any,
        ).len(),
        is_made(es, offset, (KeyView { text: v.user_id, number: v.day }), v.quantity, p),
{
    let ks = patterns::day_keys(es, offset);
    let m = lemma_key_of(es, offset, ks, v);
    let p = lemma_shape(es, offset, ks[m], v);
    assert(ks[m] == (KeyView { text: v.user_id, number: v.day }));
    p
}

/// A count is the number of the user's events of the day of its kind: of those read, of those
/// written to colleagues and to the family, of those postponed and of those exercised.
pub proof fn law_counts_are_of_their_kinds(es: Seq<EventView>, offset: int, v: DailyView)
    requires
        given(es, offset).contains(v),
    ensures
        v.dimension == "reading.sessions"@ ==> v.quantity == QuantityView::Count(
            es.filter(of_kind(offset, v.user_id, v.day, "reading"@)).len(),
        ),
        v.dimension == "tasks.postponed"@ ==> v.quantity == QuantityView::Count(
            es.filter(of_kind(offset, v.user_id, v.day, "task_postponed"@)).len(),
        ),
        v.dimension == "exercise.sessions"@ ==> v.quantity == QuantityView::Count(
            es.filter(of_kind(offset, v.user_id, v.day, "exercise"@)).len(),
        ),
        v.dimension == "comms.work.volume"@ ==> v.quantity == QuantityView::Count(
            es.filter(work_calls(offset, v.user_id, v.day)).len(),
        ),
        v.dimension == "comms.family.volume"@ ==> v.quantity == QuantityView::Count(
            es.filter(family_calls(offset, v.user_id, v.day)).len(),
        ),
        v.sample_n == es.filter(on(offset, v.user_id, v.day)).len(),
{
    let p = lemma_given(es, offset, v);
    let key = KeyView { text: v.user_id, number: v.day };
    let (u, d) = (v.user_id, v.day);
    lemma_pick(es, offset, key, Sort::Any, on(offset, u, d));
    if v.dimension == "reading.sessions"@ {
        assert(dim::names()[4] == "reading.sessions"@);
        lemma_place(v, p, 4);
        lemma_pick(es, offset, key, Sort::Reading, of_kind(offset, u, d, "reading"@));
    }
    if v.dimension == "comms.work.volume"@ {
        assert(dim::names()[5] == "comms.work.volume"@);
        lemma_place(v, p, 5);
        lemma_pick(es, offset, key, Sort::WorkComms, work_calls(offset, u, d));
    }
    if v.dimension == "comms.family.volume"@ {
        assert(dim::names()[6] == "comms.family.volume"@);
        lemma_place(v, p, 6);
        lemma_pick(es, offset, key, Sort::FamilyComms, family_calls(offset, u, d));
    }
    if v.dimension == "tasks.postponed"@ {
        assert(dim::names()[7] == "tasks.postponed"@);
        lemma_place(v, p, 7);
        lemma_pick(es, offset, key, Sort::Postponed, of_kind(offset, u, d, "task_postponed"@));
    }
    if v.dimension == "exercise.sessions"@ {
        assert(dim::names()[8] == "exercise.sessions"@);
        lemma_place(v, p, 8);
        lemma_pick(es, offset, key, Sort::Exercise, of_kind(offset, u, d, "exercise"@));
    }
}

/// The minutes of reading are those of the reading events whose minutes are known, and the hours of
/// sleep the most of the nights whose hours are known, of which there is at least one.
pub proof fn law_minutes_and_hours_are_of_their_events(
    es: Seq<EventView>,
    offset: int,
    v: DailyView,
)
    requires
        given(es, offset).contains(v),
    ensures
        v.dimension == "reading.minutes"@ ==> match v.quantity {
            QuantityView::Minutes(i) => are_indices(
                es,
                with_minutes(offset, v.user_id, v.day, "reading"@),
                i,
            ),
            _ => false,
        },
        v.dimension == "sleep.hours"@ ==> match v.quantity {
            QuantityView::MostHours(i) => i.len() > 0 && are_indices(
                es,
                nights(offset, v.user_id, v.day),
                i,
            ),
            _ => false,
        },
{
    let p = lemma_given(es, offset, v);
    let key = KeyView { text: v.user_id, number: v.day };
    let (u, d) = (v.user_id, v.day);
    if v.dimension == "reading.minutes"@ {
        assert(dim::names()[3] == "reading.minutes"@);
        lemma_place(v, p, 3);
        lemma_pick(es, offset, key, Sort::TimedReading, with_minutes(offset, u, d, "reading"@));
    }
    if v.dimension == "sleep.hours"@ {
        assert(dim::names()[9] == "sleep.hours"@);
        lemma_place(v, p, 9);
        lemma_pick(es, offset, key, Sort::Sleep, nights(offset, u, d));
    }
}

/// An event of the user's day at work, at second `s` of the local day.
pub open spec fn at_work(e: EventView, offset: int, user: Seq<char>, day: int, s: int) -> bool {
    is_on(e, offset, user, day) && e.domain == Domain::Work && (e.secs + offset) % 86400 == s
}

/// The second of the first event of the user's day at work.
pub open spec fn starts_work(
    es: Seq<EventView>,
    offset: int,
    user: Seq<char>,
    day: int,
    s: int,
) -> bool {
    &&& exists|i: int| 0 <= i < es.len() && at_work(#[trigger] es[i], offset, user, day, s)
    &&& forall|i: int, x: int|
        0 <= i < es.len() && #[trigger] at_work(es[i], offset, user, day, x) ==> s <= x
}

/// The second of the last event of the user's day at work.
pub open spec fn ends_work(
    es: Seq<EventView>,
    offset: int,
    user: Seq<char>,
    day: int,
    s: int,
) -> bool {
    &&& exists|i: int| 0 <= i < es.len() && at_work(#[trigger] es[i], offset, user, day, s)
    &&& forall|i: int, x: int|
        0 <= i < es.len() && #[trigger] at_work(es[i], offset, user, day, x) ==> x <= s
}

proof fn lemma_edges(es: Seq<EventView>, offset: int, key: KeyView, last: bool)
    ensures
        match patterns::work_edge(es, offset, key, last) {
            Some(s) => if last {
                ends_work(es, offset, key.text, key.number, s)
            } else {
                starts_work(es, offset, key.text, key.number, s)
            },
            None => forall|i: int|
                0 <= i < es.len() && is_on(#[trigger] es[i], offset, key.text, key.number)
                    ==> es[i].domain != Domain::Work,
        },
    decreases es.len(),
{
    patterns::law_work_edges(es, offset, key, last);
    let (u, d) = (key.text, key.number);
    assert forall|e: EventView, x: int|
        at_work(e, offset, u, d, x) <==> #[trigger] patterns::works_at(e, offset, key, x) by {}
    match patterns::work_edge(es, offset, key, last) {
        Some(s) => {
            let e = choose|e: EventView| #[trigger]
                es.contains(e) && patterns::works_at(e, offset, key, s);
            let i = choose|i: int| 0 <= i < es.len() && es[i] == e;
            assert(patterns::works_at(es[i], offset, key, s));
            assert(at_work(es[i], offset, u, d, s));
            assert forall|j: int, x: int|
                0 <= j < es.len() && #[trigger] at_work(es[j], offset, u, d, x) implies if last {
                x <= s
            } else {
                s <= x
            } by {
                assert(es.contains(es[j]));
                assert(patterns::works_at(es[j], offset, key, x));
            }
        },
        None => {
            assert forall|i: int|
                0 <= i < es.len() && is_on(#[trigger] es[i], offset, u, d) implies es[i].domain
                != Domain::Work by {
                let x = (es[i].secs + offset) % 86400;
                assert(es.contains(es[i]));
                assert(!patterns::works_at(es[i], offset, key, x));
            }
        },
    }
}

/// Work starts with the first and ends with the last event of the day at work. Its minutes are those
/// of the sessions of focus whose minutes are known; without one, the time from first to last.
pub proof fn law_work_is_from_first_to_last(es: Seq<EventView>, offset: int, v: DailyView)
    requires
        given(es, offset).contains(v),
    ensures
        v.dimension == "work.start"@ ==> match v.quantity {
            QuantityView::Clock(s) => starts_work(es, offset, v.user_id, v.day, s),
            _ => false,
        },
        v.dimension == "work.end"@ ==> match v.quantity {
            QuantityView::Clock(s) => ends_work(es, offset, v.user_id, v.day, s),
            _ => false,
        },
        v.dimension == "work.minutes"@ ==> ({
            let focus = with_minutes(offset, v.user_id, v.day, "session_focus"@);
            if es.filter(focus).len() > 0 {
                match v.quantity {
                    QuantityView::Minutes(i) => are_indices(es, focus, i),
                    _ => false,
                }
            } else {
                match v.quantity {
                    QuantityView::Between(a, b) => starts_work(es, offset, v.user_id, v.day, a)
                        && ends_work(es, offset, v.user_id, v.day, b),
                    _ => false,
                }
            }
        }),
{
    let p = lemma_given(es, offset, v);
    let key = KeyView { text: v.user_id, number: v.day };
    lemma_edges(es, offset, key, false);
    lemma_edges(es, offset, key, true);
    if v.dimension == "work.start"@ {
        assert(dim::names()[0] == "work.start"@);
        lemma_place(v, p, 0);
    }
    if v.dimension == "work.end"@ {
        assert(dim::names()[1] == "work.end"@);
        lemma_place(v, p, 1);
    }
    if v.dimension == "work.minutes"@ {
        assert(dim::names()[2] == "work.minutes"@);
        lemma_place(v, p, 2);
        lemma_pick(
            es,
            offset,
            key,
            Sort::Focus,
            with_minutes(offset, v.user_id, v.day, "session_focus"@),
        );
    }
}

/// There is a value of the dimension for the user and the day.
pub open spec fn has_value(
    es: Seq<EventView>,
    offset: int,
    user: Seq<char>,
    day: int,
    d: Seq<char>,
) -> bool {
    exists|v: DailyView| #[trigger]
        given(es, offset).contains(v) && v.user_id == user && v.day == day && v.dimension == d
}

proof fn lemma_has(es: Seq<EventView>, offset: int, key: KeyView, v: DailyView)
    requires
        patterns::picked(es, offset, key, Sort::Any).len() > 0,
        patterns::day_values(es, offset, key).contains(v),
    ensures
        has_value(es, offset, key.text, key.number, v.dimension),
{
    patterns::lemma_keys_exist(es, offset);
    let ks = patterns::day_keys(es, offset);
    assert(ks.contains(key));
    let m = choose|m: int| 0 <= m < ks.len() && ks[m] == key;
    lemma_value_of(es, offset, ks, m, v);
    let p = lemma_shape(es, offset, key, v);
    assert(given(es, offset).contains(v));
}

/// A day with an event of the user has a value of every dimension that counts, and of the minutes
/// read; it has values of work exactly where an event was at work, and of sleep exactly where the
/// hours of a night are known.
pub proof fn law_which_values_a_day_has(
    es: Seq<EventView>,
    offset: int,
    user: Seq<char>,
    day: int,
)
    requires
        exists|i: int| 0 <= i < es.len() && is_on(#[trigger] es[i], offset, user, day),
    ensures
        has_value(es, offset, user, day, "reading.minutes"@),
        has_value(es, offset, user, day, "reading.sessions"@),
        has_value(es, offset, user, day, "comms.work.volume"@),
        has_value(es, offset, user, day, "comms.family.volume"@),
        has_value(es, offset, user, day, "tasks.postponed"@),
        has_value(es, offset, user, day, "exercise.sessions"@),
        ({
            let worked = exists|i: int|
                0 <= i < es.len() && is_on(#[trigger] es[i], offset, user, day) && es[i].domain
                    == Domain::Work;
            &&& has_value(es, offset, user, day, "work.start"@) <==> worked
            &&& has_value(es, offset, user, day, "work.end"@) <==> worked
            &&& has_value(es, offset, user, day, "work.minutes"@) <==> worked
        }),
        has_value(es, offset, user, day, "sleep.hours"@) <==> es.filter(
            nights(offset, user, day),
        ).len() > 0,
{
    let key = KeyView { text: user, number: day };
    let i = choose|i: int| 0 <= i < es.len() && is_on(#[trigger] es[i], offset, user, day);
    lemma_pick(es, offset, key, Sort::Any, on(offset, user, day));
    let any = patterns::picked(es, offset, key, Sort::Any);
    assert(on(offset, user, day)(es[i]));
    assert(any.contains(i));
    let w = patterns::work_values(es, offset, key);
    let c = patterns::count_values(es, offset, key);
    let z = patterns::sleep_values(es, offset, key);
    let all = patterns::day_values(es, offset, key);
    let n = w.len() as int;
    assert(all[n] == c[0]);
    assert(all[n + 1] == c[1]);
    assert(all[n + 2] == c[2]);
    assert(all[n + 3] == c[3]);
    assert(all[n + 4] == c[4]);
    assert(all[n + 5] == c[5]);
    lemma_has(es, offset, key, c[0]);
    lemma_has(es, offset, key, c[1]);
    lemma_has(es, offset, key, c[2]);
    lemma_has(es, offset, key, c[3]);
    lemma_has(es, offset, key, c[4]);
    lemma_has(es, offset, key, c[5]);
    lemma_edges(es, offset, key, false);
    lemma_edges(es, offset, key, true);
    if w.len() > 0 {
        assert(all[0] == w[0] && all[1] == w[1] && all[2] == w[2]);
        lemma_has(es, offset, key, w[0]);
        lemma_has(es, offset, key, w[1]);
        lemma_has(es, offset, key, w[2]);
    }
    lemma_pick(es, offset, key, Sort::Sleep, nights(offset, user, day));
    if z.len() > 0 {
        assert(all[n + 6] == z[0]);
        lemma_has(es, offset, key, z[0]);
    }
    lemma_no_value(es, offset, key, 0);
    lemma_no_value(es, offset, key, 1);
    lemma_no_value(es, offset, key, 2);
    lemma_no_value(es, offset, key, 9);
    assert(dim::names()[0] == "work.start"@);
    assert(dim::names()[1] == "work.end"@);
    assert(dim::names()[2] == "work.minutes"@);
    assert(dim::names()[9] == "sleep.hours"@);
    lemma_worked(es, offset, key);
}

proof fn lemma_worked(es: Seq<EventView>, offset: int, key: KeyView)
    ensures
        patterns::work_values(es, offset, key).len() > 0 <==> exists|i: int|
            0 <= i < es.len() && is_on(#[trigger] es[i], offset, key.text, key.number)
                && es[i].domain == Domain::Work,
{
    lemma_edges(es, offset, key, false);
    lemma_edges(es, offset, key, true);
    match patterns::work_edge(es, offset, key, false) {
        Some(s) => {
            let i = choose|i: int|
                0 <= i < es.len() && at_work(#[trigger] es[i], offset, key.text, key.number, s);
            assert(is_on(es[i], offset, key.text, key.number));
        },
        None => {},
    }
}

/// A value that a day lacks is none of the values.
proof fn lemma_no_value(es: Seq<EventView>, offset: int, key: KeyView, q: int)
    requires
        0 <= q < 3 || q == 9,
    ensures
        has_value(es, offset, key.text, key.number, dim::names()[q]) ==> if q == 9 {
            patterns::picked(es, offset, key, Sort::Sleep).len() > 0
        } else {
            patterns::work_values(es, offset, key).len() > 0
        },
{
    if has_value(es, offset, key.text, key.number, dim::names()[q]) {
        let v = choose|v: DailyView| #[trigger]
            given(es, offset).contains(v) && v.user_id == key.text && v.day == key.number
                && v.dimension == dim::names()[q];
        let ks = patterns::day_keys(es, offset);
        let m = lemma_key_of(es, offset, ks, v);
        let p = lemma_shape(es, offset, ks[m], v);
        assert(ks[m] == key);
        lemma_place(v, p, q);
        let w = patterns::work_values(es, offset, key);
        if q < 3 && w.len() == 0 {
            lemma_no_work(es, offset, key, v);
        }
    }
}

proof fn lemma_no_work(es: Seq<EventView>, offset: int, key: KeyView, v: DailyView)
    requires
        patterns::work_values(es, offset, key).len() == 0,
        patterns::day_values(es, offset, key).contains(v),
    ensures
        exists|p: int| 3 <= p < 10 && v.dimension == #[trigger] dim::names()[p],
        v.dimension != dim::names()[0],
        v.dimension != dim::names()[1],
        v.dimension != dim::names()[2],
{
    let w = patterns::work_values(es, offset, key);
    let c = patterns::count_values(es, offset, key);
    let z = patterns::sleep_values(es, offset, key);
    let all = patterns::day_values(es, offset, key);
    let i = choose|i: int| 0 <= i < all.len() && all[i] == v;
    let p = if i < c.len() {
        assert(all[i] == c[i]);
        i + 3
    } else {
        assert(all[i] == z[i - c.len()]);
        9
    };
    assert(v.dimension == dim::names()[p]);
    if v.dimension == dim::names()[0] {
        lemma_place(v, p, 0);
    }
    if v.dimension == dim::names()[1] {
        lemma_place(v, p, 1);
    }
    if v.dimension == dim::names()[2] {
        lemma_place(v, p, 2);
    }
}

/// The unit of a dimension is that of its values: clock hours for times of the day, minutes for
/// lengths of time, hours for sleep, and counts for the rest.
pub proof fn law_units_fit_the_values(es: Seq<EventView>, offset: int, v: DailyView)
    requires
        given(es, offset).contains(v),
    ensures
        patterns::unit_of(v.dimension) == match v.quantity {
            QuantityView::Clock(_) => "clock_hours"@,
            QuantityView::Between(_, _) => "minutes"@,
            QuantityView::Minutes(_) => "minutes"@,
            QuantityView::MostHours(_) => "hours"@,
            QuantityView::Count(_) => "count"@,
        },
{
    let p = lemma_given(es, offset, v);
    lemma_units();
}

proof fn lemma_units()
    ensures
        patterns::unit_of(dim::names()[0]) == "clock_hours"@,
        patterns::unit_of(dim::names()[1]) == "clock_hours"@,
        patterns::unit_of(dim::names()[2]) == "minutes"@,
        patterns::unit_of(dim::names()[3]) == "minutes"@,
        forall|p: int| 4 <= p < 9 ==> patterns::unit_of(#[trigger] dim::names()[p]) == "count"@,
        patterns::unit_of(dim::names()[9]) == "hours"@,
{
    let n = dim::names();
    assert forall|p: int, q: int| 0 <= p < 10 && 0 <= q < 10 && p != q implies #[trigger] n[p]
        != #[trigger] n[q] by {
        if n[p] == n[q] {
            dim::law_names_are_distinct(p, q);
        }
    }
    assert(n[0] == dim::WORK_START@ && n[1] == dim::WORK_END@ && n[2] == dim::WORK_MINUTES@);
    assert(n[3] == dim::READING_MINUTES@ && n[9] == dim::SLEEP_HOURS@);
}

/// What is made of work alone is of work, what is made of the family, of one's own tasks, of
/// exercise and of sleep is of home, and reading is of both.
pub proof fn law_worlds_of_the_dimensions(d: Seq<char>)
    ensures
        scan::starts(d, "work."@) || d == "comms.work.volume"@ ==> patterns::world_of(d)
            == Domain::Work,
        d == "comms.family.volume"@ || d == "tasks.postponed"@ || d == "exercise.sessions"@ || d
            == "sleep.hours"@ ==> patterns::world_of(d) == Domain::Home,
        d == "reading.minutes"@ || d == "reading.sessions"@ ==> patterns::world_of(d)
            == Domain::Shared,
        patterns::world_of("work.start"@) == Domain::Work,
        patterns::world_of("work.end"@) == Domain::Work,
        patterns::world_of("work.minutes"@) == Domain::Work,
{
    let n = dim::names();
    assert forall|p: int, q: int| 0 <= p < 10 && 0 <= q < 10 && p != q implies #[trigger] n[p]
        != #[trigger] n[q] by {
        if n[p] == n[q] {
            dim::law_names_are_distinct(p, q);
        }
    }
    assert(n[3] == dim::READING_MINUTES@ && n[4] == dim::READING_SESSIONS@);
    assert(n[5] == dim::COMMS_WORK_VOLUME@ && n[6] == dim::COMMS_FAMILY_VOLUME@);
    assert(n[7] == dim::TASKS_POSTPONED@ && n[8] == dim::EXERCISE_SESSIONS@);
    assert(n[9] == dim::SLEEP_HOURS@);
    reveal_strlit("work.");
    reveal_strlit("work.start");
    reveal_strlit("work.end");
    reveal_strlit("work.minutes");
    reveal_strlit("reading.minutes");
    reveal_strlit("reading.sessions");
    reveal_strlit("comms.family.volume");
    reveal_strlit("tasks.postponed");
    reveal_strlit("exercise.sessions");
    reveal_strlit("sleep.hours");
    assert("work.start"@.subrange(0, 5) =~= "work."@);
    assert("work.end"@.subrange(0, 5) =~= "work."@);
    assert("work.minutes"@.subrange(0, 5) =~= "work."@);
    if scan::starts(d, "work."@) {
        assert(d.subrange(0, 5)[0] == d[0]);
        assert(d[0] == 'w');
    }
}

} // verus!
