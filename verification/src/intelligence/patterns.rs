//! Pattern recognition: the content-free activity ledger, aggregated to one value per user, day
//! and dimension.

pub mod dim;
pub mod laws;

use vstd::prelude::*;

use crate::calendar;
use crate::domain::Domain;
use crate::text::chars;
use crate::text::order;
use crate::text::order::Key;
use crate::text::order::KeyView;
use crate::text::scan;

verus! {

pub open spec fn unit_of(d: Seq<char>) -> Seq<char> {
    if d == dim::WORK_START@ || d == dim::WORK_END@ {
        "clock_hours"@
    } else if d == dim::WORK_MINUTES@ || d == dim::READING_MINUTES@ {
        "minutes"@
    } else if d == dim::SLEEP_HOURS@ {
        "hours"@
    } else {
        "count"@
    }
}

/// Unit of a dimension's value, carried in observation facts.
pub fn unit(dimension: &str) -> (r: &'static str)
    ensures
        r@ == unit_of(dimension@),
{
    if chars::same(dimension, dim::WORK_START) || chars::same(dimension, dim::WORK_END) {
        "clock_hours"
    } else if chars::same(dimension, dim::WORK_MINUTES) || chars::same(
        dimension,
        dim::READING_MINUTES,
    ) {
        "minutes"
    } else if chars::same(dimension, dim::SLEEP_HOURS) {
        "hours"
    } else {
        "count"
    }
}

pub open spec fn world_of(d: Seq<char>) -> Domain {
    if scan::starts(d, "work."@) || d == dim::COMMS_WORK_VOLUME@ {
        Domain::Work
    } else if d == dim::COMMS_FAMILY_VOLUME@ || d == dim::TASKS_POSTPONED@ || d
        == dim::EXERCISE_SESSIONS@ || d == dim::SLEEP_HOURS@ {
        Domain::Home
    } else {
        Domain::Shared
    }
}

/// Life domain a dimension belongs to.
pub fn domain_of(dimension: &str) -> (r: Domain)
    ensures
        r == world_of(dimension@),
{
    if scan::starts_with(&chars::chars_of(dimension), "work.") || chars::same(
        dimension,
        dim::COMMS_WORK_VOLUME,
    ) {
        Domain::Work
    } else if chars::same(dimension, dim::COMMS_FAMILY_VOLUME) || chars::same(
        dimension,
        dim::TASKS_POSTPONED,
    ) || chars::same(dimension, dim::EXERCISE_SESSIONS) || chars::same(
        dimension,
        dim::SLEEP_HOURS,
    ) {
        Domain::Home
    } else {
        Domain::Shared
    }
}

// ---- events ----

/// A ledger event as the aggregation reads it. The fractions in its metadata stay with the
/// caller, who finds them by the event's index.
pub struct ActivityEvent {
    pub user_id: String,
    /// Unix time, in seconds.
    pub secs: i64,
    pub domain: Domain,
    pub agent_id: String,
    pub kind: String,
    /// The metadata holds a number of minutes.
    pub meta_minutes: bool,
    /// The metadata holds a number of hours.
    pub meta_hours: bool,
    pub duration_ms: Option<i32>,
}

#[verifier::ext_equal]
pub struct EventView {
    pub user_id: Seq<char>,
    pub secs: int,
    pub domain: Domain,
    pub agent_id: Seq<char>,
    pub kind: Seq<char>,
    pub meta_minutes: bool,
    pub meta_hours: bool,
    pub duration_ms: Option<i32>,
}

impl View for ActivityEvent {
    type V = EventView;

    open spec fn view(&self) -> EventView {
        EventView {
            user_id: self.user_id@,
            secs: self.secs as int,
            domain: self.domain,
            agent_id: self.agent_id@,
            kind: self.kind@,
            meta_minutes: self.meta_minutes,
            meta_hours: self.meta_hours,
            duration_ms: self.duration_ms,
        }
    }
}

pub open spec fn events_of(v: Seq<ActivityEvent>) -> Seq<EventView> {
    v.map_values(|e: ActivityEvent| e@)
}

/// The minutes of an event are known, from its metadata or from how long it took.
pub open spec fn timed(e: EventView) -> bool {
    e.meta_minutes || e.duration_ms is Some
}

/// What the aggregation counts.
#[derive(Clone, Copy, Debug, PartialEq, Eq, Structural)]
pub enum Sort {
    Any,
    Work,
    Focus,
    Reading,
    TimedReading,
    Postponed,
    Exercise,
    Sleep,
    WorkComms,
    FamilyComms,
}

pub open spec fn is_sort(e: EventView, t: Sort) -> bool {
    match t {
        Sort::Any => true,
        Sort::Work => e.domain == Domain::Work,
        Sort::Focus => e.kind == "session_focus"@ && timed(e),
        Sort::Reading => e.kind == "reading"@,
        Sort::TimedReading => e.kind == "reading"@ && timed(e),
        Sort::Postponed => e.kind == "task_postponed"@,
        Sort::Exercise => e.kind == "exercise"@,
        Sort::Sleep => e.kind == "sleep"@ && (e.meta_hours || e.duration_ms is Some),
        Sort::WorkComms => e.kind == "tool_call"@ && (e.agent_id == "email"@ || e.agent_id
            == "team_comms"@) && e.domain == Domain::Work,
        Sort::FamilyComms => e.kind == "tool_call"@ && e.agent_id == "family"@,
    }
}

fn of_sort(e: &ActivityEvent, t: Sort) -> (r: bool)
    ensures
        r == is_sort(e@, t),
{
    let kind = e.kind.as_str();
    match t {
        Sort::Any => true,
        Sort::Work => e.domain == Domain::Work,
        Sort::Focus => chars::same(kind, "session_focus") && (e.meta_minutes
            || e.duration_ms.is_some()),
        Sort::Reading => chars::same(kind, "reading"),
        Sort::TimedReading => chars::same(kind, "reading") && (e.meta_minutes
            || e.duration_ms.is_some()),
        Sort::Postponed => chars::same(kind, "task_postponed"),
        Sort::Exercise => chars::same(kind, "exercise"),
        Sort::Sleep => chars::same(kind, "sleep") && (e.meta_hours || e.duration_ms.is_some()),
        Sort::WorkComms => chars::same(kind, "tool_call") && (chars::same(
            e.agent_id.as_str(),
            "email",
        ) || chars::same(e.agent_id.as_str(), "team_comms")) && e.domain == Domain::Work,
        Sort::FamilyComms => chars::same(kind, "tool_call") && chars::same(
            e.agent_id.as_str(),
            "family",
        ),
    }
}

/// The user and the local day of an event.
pub open spec fn event_key(e: EventView, offset: int) -> KeyView {
    KeyView { text: e.user_id, number: calendar::local_day(e.secs, offset) }
}

fn key_of_event(e: &ActivityEvent, offset: i32) -> (r: Key)
    ensures
        r@ == event_key(e@, offset as int),
{
    let (day, _) = calendar::local_time(e.secs, offset);
    Key { text: chars::chars_of(e.user_id.as_str()), number: day }
}

/// The indices of the events of a sort, of one user on one day.
pub open spec fn picked(es: Seq<EventView>, offset: int, key: KeyView, t: Sort) -> Seq<int>
    decreases es.len(),
{
    if es.len() == 0 {
        Seq::empty()
    } else {
        let before = picked(es.drop_last(), offset, key, t);
        if event_key(es.last(), offset) == key && is_sort(es.last(), t) {
            before.push(es.len() - 1)
        } else {
            before
        }
    }
}

pub open spec fn indices_of(v: Seq<usize>) -> Seq<int> {
    v.map_values(|i: usize| i as int)
}

fn pick(es: &Vec<ActivityEvent>, offset: i32, key: &Key, t: Sort) -> (r: Vec<usize>)
    ensures
        indices_of(r@) == picked(events_of(es@), offset as int, key@, t),
        r@.len() <= es@.len(),
{
    let ghost all = events_of(es@);
    let mut out: Vec<usize> = Vec::new();
    let mut i: usize = 0;
    assert(all.take(0) =~= Seq::empty());
    assert(indices_of(out@) =~= picked(all.take(0), offset as int, key@, t));
    while i < es.len()
        invariant
            i <= es.len(),
            all == events_of(es@),
            out@.len() <= i,
            indices_of(out@) == picked(all.take(i as int), offset as int, key@, t),
        decreases es.len() - i,
    {
        assert(all.take(i + 1).drop_last() =~= all.take(i as int));
        assert(all.take(i + 1).last() == es@[i as int]@);
        let k = key_of_event(&es[i], offset);
        if order::same_key(&k, key) && of_sort(&es[i], t) {
            let ghost o = out@;
            out.push(i);
            assert(indices_of(out@) =~= indices_of(o).push(i as int));
        }
        i += 1;
    }
    assert(all.take(es.len() as int) =~= all);
    out
}

/// The second of the day of the first work event, or of the last one.
pub open spec fn work_edge(es: Seq<EventView>, offset: int, key: KeyView, last: bool) -> Option<
    int,
>
    decreases es.len(),
{
    if es.len() == 0 {
        None
    } else {
        let edge = work_edge(es.drop_last(), offset, key, last);
        let e = es.last();
        if event_key(e, offset) == key && is_sort(e, Sort::Work) {
            let s = calendar::local_second(e.secs, offset);
            match edge {
                Some(x) => if last == (s > x) {
                    Some(s)
                } else {
                    Some(x)
                },
                None => Some(s),
            }
        } else {
            edge
        }
    }
}

fn find_edge(es: &Vec<ActivityEvent>, offset: i32, key: &Key, last: bool) -> (r: Option<u32>)
    ensures
        match r {
            Some(s) => work_edge(events_of(es@), offset as int, key@, last) == Some(s as int),
            None => work_edge(events_of(es@), offset as int, key@, last) is None,
        },
{
    let ghost all = events_of(es@);
    let mut edge: Option<u32> = None;
    let mut i: usize = 0;
    assert(all.take(0) =~= Seq::empty());
    while i < es.len()
        invariant
            i <= es.len(),
            all == events_of(es@),
            match edge {
                Some(s) => work_edge(all.take(i as int), offset as int, key@, last) == Some(
                    s as int,
                ),
                None => work_edge(all.take(i as int), offset as int, key@, last) is None,
            },
        decreases es.len() - i,
    {
        assert(all.take(i + 1).drop_last() =~= all.take(i as int));
        assert(all.take(i + 1).last() == es@[i as int]@);
        let k = key_of_event(&es[i], offset);
        if order::same_key(&k, key) && of_sort(&es[i], Sort::Work) {
            let (_, s) = calendar::local_time(es[i].secs, offset);
            edge = match edge {
                Some(x) => if last == (s > x) {
                    Some(s)
                } else {
                    Some(x)
                },
                None => Some(s),
            };
        }
        i += 1;
    }
    assert(all.take(es.len() as int) =~= all);
    edge
}

// ---- daily values ----

/// What the value of a day is made of.
#[derive(Debug)]
pub enum Quantity {
    /// A time of the day, in seconds since midnight.
    Clock(u32),
    /// The time between two times of the day.
    Between(u32, u32),
    /// The minutes of these events together.
    Minutes(Vec<usize>),
    Count(usize),
    /// The most hours among these events.
    MostHours(Vec<usize>),
}

#[verifier::ext_equal]
pub enum QuantityView {
    Clock(int),
    Between(int, int),
    Minutes(Seq<int>),
    Count(nat),
    MostHours(Seq<int>),
}

impl View for Quantity {
    type V = QuantityView;

    open spec fn view(&self) -> QuantityView {
        match self {
            Quantity::Clock(s) => QuantityView::Clock(*s as int),
            Quantity::Between(a, b) => QuantityView::Between(*a as int, *b as int),
            Quantity::Minutes(v) => QuantityView::Minutes(indices_of(v@)),
            Quantity::Count(n) => QuantityView::Count(*n as nat),
            Quantity::MostHours(v) => QuantityView::MostHours(indices_of(v@)),
        }
    }
}

/// One daily value.
#[derive(Debug)]
pub struct DailyValue {
    pub user_id: String,
    /// The local day, by its number.
    pub day: i64,
    pub dimension: &'static str,
    pub quantity: Quantity,
    /// Ledger events (of any kind) that contributed to this day.
    pub sample_n: usize,
}

#[verifier::ext_equal]
pub struct DailyView {
    pub user_id: Seq<char>,
    pub day: int,
    pub dimension: Seq<char>,
    pub quantity: QuantityView,
    pub sample_n: nat,
}

impl View for DailyValue {
    type V = DailyView;

    open spec fn view(&self) -> DailyView {
        DailyView {
            user_id: self.user_id@,
            day: self.day as int,
            dimension: self.dimension@,
            quantity: self.quantity@,
            sample_n: self.sample_n as nat,
        }
    }
}

pub open spec fn values_of(v: Seq<DailyValue>) -> Seq<DailyView> {
    v.map_values(|d: DailyValue| d@)
}

/// The value of a dimension for a user on a day.
pub open spec fn daily(
    es: Seq<EventView>,
    offset: int,
    key: KeyView,
    dimension: Seq<char>,
    quantity: QuantityView,
) -> DailyView {
    DailyView {
        user_id: key.text,
        day: key.number,
        dimension,
        quantity,
        sample_n: picked(es, offset, key, Sort::Any).len(),
    }
}

/// The work dimensions of a day: only where there was a work event.
pub open spec fn work_values(es: Seq<EventView>, offset: int, key: KeyView) -> Seq<DailyView> {
    match (work_edge(es, offset, key, false), work_edge(es, offset, key, true)) {
        (Some(first), Some(last)) => {
            let focus = picked(es, offset, key, Sort::Focus);
            seq![
                daily(es, offset, key, dim::WORK_START@, QuantityView::Clock(first)),
                daily(es, offset, key, dim::WORK_END@, QuantityView::Clock(last)),
                daily(
                    es,
                    offset,
                    key,
                    dim::WORK_MINUTES@,
                    if focus.len() > 0 {
                        QuantityView::Minutes(focus)
                    } else {
                        QuantityView::Between(first, last)
                    },
                ),
            ]
        },
        _ => Seq::empty(),
    }
}

/// How often something happened on a day.
pub open spec fn tally(
    es: Seq<EventView>,
    offset: int,
    key: KeyView,
    dimension: Seq<char>,
    t: Sort,
) -> DailyView {
    daily(es, offset, key, dimension, QuantityView::Count(picked(es, offset, key, t).len()))
}

/// The dimensions that every day with an event has, zero where nothing of the kind happened.
pub open spec fn count_values(es: Seq<EventView>, offset: int, key: KeyView) -> Seq<DailyView> {
    seq![
        daily(
            es,
            offset,
            key,
            dim::READING_MINUTES@,
            QuantityView::Minutes(picked(es, offset, key, Sort::TimedReading)),
        ),
        tally(es, offset, key, dim::READING_SESSIONS@, Sort::Reading),
        tally(es, offset, key, dim::COMMS_WORK_VOLUME@, Sort::WorkComms),
        tally(es, offset, key, dim::COMMS_FAMILY_VOLUME@, Sort::FamilyComms),
        tally(es, offset, key, dim::TASKS_POSTPONED@, Sort::Postponed),
        tally(es, offset, key, dim::EXERCISE_SESSIONS@, Sort::Exercise),
    ]
}

pub open spec fn sleep_values(es: Seq<EventView>, offset: int, key: KeyView) -> Seq<DailyView> {
    let sleep = picked(es, offset, key, Sort::Sleep);
    if sleep.len() > 0 {
        seq![daily(es, offset, key, dim::SLEEP_HOURS@, QuantityView::MostHours(sleep))]
    } else {
        Seq::empty()
    }
}

/// The values of a user's day.
pub open spec fn day_values(es: Seq<EventView>, offset: int, key: KeyView) -> Seq<DailyView> {
    work_values(es, offset, key) + count_values(es, offset, key) + sleep_values(es, offset, key)
}

/// The users and days of the events, each once, in ascending order.
pub open spec fn keys_are(es: Seq<EventView>, offset: int, ks: Seq<KeyView>) -> bool {
    &&& order::ascending(ks)
    &&& forall|k: KeyView| #[trigger]
        ks.contains(k) <==> picked(es, offset, k, Sort::Any).len() > 0
}

pub open spec fn day_keys(es: Seq<EventView>, offset: int) -> Seq<KeyView> {
    choose|ks: Seq<KeyView>| keys_are(es, offset, ks)
}

pub open spec fn values_for(es: Seq<EventView>, offset: int, ks: Seq<KeyView>) -> Seq<DailyView>
    decreases ks.len(),
{
    if ks.len() == 0 {
        Seq::empty()
    } else {
        values_for(es, offset, ks.drop_last()) + day_values(es, offset, ks.last())
    }
}

fn collect_keys(es: &Vec<ActivityEvent>, offset: i32) -> (r: Vec<Key>)
    ensures
        keys_are(events_of(es@), offset as int, order::keys_of(r@)),
{
    let ghost all = events_of(es@);
    let mut keys: Vec<Key> = Vec::new();
    let mut i: usize = 0;
    assert(all.take(0) =~= Seq::empty());
    while i < es.len()
        invariant
            i <= es.len(),
            all == events_of(es@),
            keys_are(all.take(i as int), offset as int, order::keys_of(keys@)),
        decreases es.len() - i,
    {
        assert(all.take(i + 1).drop_last() =~= all.take(i as int));
        assert(all.take(i + 1).last() == es@[i as int]@);
        let key = key_of_event(&es[i], offset);
        order::insert_key(&mut keys, key);
        assert forall|k: KeyView| #[trigger]
            order::keys_of(keys@).contains(k) <==> picked(
                all.take(i + 1),
                offset as int,
                k,
                Sort::Any,
            ).len() > 0 by {}
        i += 1;
    }
    assert(all.take(es.len() as int) =~= all);
    keys
}

fn push_value(
    out: &mut Vec<DailyValue>,
    key: &Key,
    sample_n: usize,
    dimension: &'static str,
    quantity: Quantity,
)
    ensures
        values_of(final(out)@) == values_of(old(out)@).push(
            DailyView {
                user_id: key@.text,
                day: key@.number,
                dimension: dimension@,
                quantity: quantity@,
                sample_n: sample_n as nat,
            },
        ),
{
    let ghost o = out@;
    let v = DailyValue {
        user_id: chars::text_of(&key.text),
        day: key.number,
        dimension,
        quantity,
        sample_n,
    };
    out.push(v);
    assert(values_of(out@) =~= values_of(o).push(v@));
}

fn push_count(
    out: &mut Vec<DailyValue>,
    es: &Vec<ActivityEvent>,
    offset: i32,
    key: &Key,
    sample_n: usize,
    dimension: &'static str,
    t: Sort,
)
    requires
        sample_n == picked(events_of(es@), offset as int, key@, Sort::Any).len(),
    ensures
        values_of(final(out)@) == values_of(old(out)@).push(
            tally(events_of(es@), offset as int, key@, dimension@, t),
        ),
{
    let found = pick(es, offset, key, t);
    assert(indices_of(found@).len() == found@.len());
    push_value(out, key, sample_n, dimension, Quantity::Count(found.len()));
}

fn push_day(out: &mut Vec<DailyValue>, es: &Vec<ActivityEvent>, offset: i32, key: &Key)
    ensures
        values_of(final(out)@) == values_of(old(out)@) + day_values(
            events_of(es@),
            offset as int,
            key@,
        ),
{
    let ghost all = events_of(es@);
    let ghost o = offset as int;
    let ghost before = values_of(out@);
    let any = pick(es, offset, key, Sort::Any);
    assert(indices_of(any@).len() == any@.len());
    let n = any.len();
    match (find_edge(es, offset, key, false), find_edge(es, offset, key, true)) {
        (Some(first), Some(last)) => {
            push_value(out, key, n, dim::WORK_START, Quantity::Clock(first));
            push_value(out, key, n, dim::WORK_END, Quantity::Clock(last));
            let focus = pick(es, offset, key, Sort::Focus);
            assert(indices_of(focus@).len() == focus@.len());
            let minutes = if focus.len() > 0 {
                Quantity::Minutes(focus)
            } else {
                Quantity::Between(first, last)
            };
            push_value(out, key, n, dim::WORK_MINUTES, minutes);
        },
        _ => {},
    }
    assert(values_of(out@) =~= before + work_values(all, o, key@));
    let ghost worked = values_of(out@);
    let reading = pick(es, offset, key, Sort::TimedReading);
    push_value(out, key, n, dim::READING_MINUTES, Quantity::Minutes(reading));
    push_count(out, es, offset, key, n, dim::READING_SESSIONS, Sort::Reading);
    push_count(out, es, offset, key, n, dim::COMMS_WORK_VOLUME, Sort::WorkComms);
    push_count(out, es, offset, key, n, dim::COMMS_FAMILY_VOLUME, Sort::FamilyComms);
    push_count(out, es, offset, key, n, dim::TASKS_POSTPONED, Sort::Postponed);
    push_count(out, es, offset, key, n, dim::EXERCISE_SESSIONS, Sort::Exercise);
    assert(values_of(out@) =~= worked + count_values(all, o, key@));
    let ghost counted = values_of(out@);
    let sleep = pick(es, offset, key, Sort::Sleep);
    assert(indices_of(sleep@).len() == sleep@.len());
    if sleep.len() > 0 {
        push_value(out, key, n, dim::SLEEP_HOURS, Quantity::MostHours(sleep));
    }
    assert(values_of(out@) =~= counted + sleep_values(all, o, key@));
    assert(values_of(out@) =~= before + day_values(all, o, key@));
}

/// Aggregate ledger events into daily values, with days and times of the day taken `offset`
/// seconds east of Greenwich. Count dimensions are there for any day that has at least one event,
/// so "no reading today" is a data point and "no data today" is not.
pub fn aggregate_in(events: &Vec<ActivityEvent>, offset: i32) -> (r: Vec<DailyValue>)
    ensures
        values_of(r@) == values_for(
            events_of(events@),
            offset as int,
            day_keys(events_of(events@), offset as int),
        ),
{
    let ghost all = events_of(events@);
    let keys = collect_keys(events, offset);
    let ghost ks = order::keys_of(keys@);
    proof {
        assert(keys_are(all, offset as int, ks));
        lemma_keys_unique(all, offset as int, ks, day_keys(all, offset as int));
    }
    let mut out: Vec<DailyValue> = Vec::new();
    let mut i: usize = 0;
    assert(ks.take(0) =~= Seq::empty());
    assert(values_of(out@) =~= values_for(all, offset as int, ks.take(0)));
    while i < keys.len()
        invariant
            i <= keys.len(),
            ks == order::keys_of(keys@),
            all == events_of(events@),
            values_of(out@) == values_for(all, offset as int, ks.take(i as int)),
        decreases keys.len() - i,
    {
        assert(ks.take(i + 1).drop_last() =~= ks.take(i as int));
        assert(ks.take(i + 1).last() == keys@[i as int]@);
        push_day(&mut out, events, offset, &keys[i]);
        i += 1;
    }
    assert(ks.take(keys.len() as int) =~= ks);
    out
}

/// There is one such list of keys.
pub proof fn lemma_keys_unique(es: Seq<EventView>, offset: int, a: Seq<KeyView>, b: Seq<KeyView>)
    requires
        keys_are(es, offset, a),
        keys_are(es, offset, b),
    ensures
        a == b,
{
    assert forall|x: KeyView| #[trigger] a.contains(x) <==> b.contains(x) by {
        assert(b.contains(x) <==> picked(es, offset, x, Sort::Any).len() > 0);
    }
    order::lemma_ascending_unique(a, b);
}

/// There are such keys: [`day_keys`] are the users and days of the events.
pub proof fn lemma_keys_exist(es: Seq<EventView>, offset: int)
    ensures
        keys_are(es, offset, day_keys(es, offset)),
{
    let ks = lemma_some_keys(es, offset);
    assert(keys_are(es, offset, ks));
}

proof fn lemma_some_keys(es: Seq<EventView>, offset: int) -> (ks: Seq<KeyView>)
    ensures
        keys_are(es, offset, ks),
    decreases es.len(),
{
    if es.len() == 0 {
        Seq::empty()
    } else {
        let before = lemma_some_keys(es.drop_last(), offset);
        let key = event_key(es.last(), offset);
        order::lemma_with_key(before, key);
        let ks = order::with_key(before, key);
        assert forall|k: KeyView| #[trigger]
            ks.contains(k) <==> picked(es, offset, k, Sort::Any).len() > 0 by {
            assert(before.contains(k) <==> picked(es.drop_last(), offset, k, Sort::Any).len() > 0);
        }
        ks
    }
}

/// Aggregate ledger events into daily values, by days of Greenwich.
pub fn aggregate(events: &Vec<ActivityEvent>) -> (r: Vec<DailyValue>)
    ensures
        values_of(r@) == values_for(
            events_of(events@),
            0,
            day_keys(events_of(events@), 0),
        ),
{
    aggregate_in(events, 0)
}

// ---- laws ----

/// An event of the key and sort.
pub open spec fn matching(offset: int, key: KeyView, t: Sort) -> spec_fn(EventView) -> bool {
    |e: EventView| event_key(e, offset) == key && is_sort(e, t)
}

/// A work event of the key at second `s` of the day.
pub open spec fn works_at(e: EventView, offset: int, key: KeyView, s: int) -> bool {
    event_key(e, offset) == key && is_sort(e, Sort::Work) && calendar::local_second(
        e.secs,
        offset,
    ) == s
}

/// `s` is the second of a work event of the day, and no work event is beyond it.
pub open spec fn is_edge(es: Seq<EventView>, offset: int, key: KeyView, last: bool, s: int) -> bool {
    &&& exists|e: EventView| #[trigger] es.contains(e) && works_at(e, offset, key, s)
    &&& forall|e: EventView, x: int|
        es.contains(e) && #[trigger] works_at(e, offset, key, x) ==> if last {
            x <= s
        } else {
            x >= s
        }
}

/// The first and the last work event of a day bound all of them, and are missing only where there
/// is no work event.
pub proof fn law_work_edges(es: Seq<EventView>, offset: int, key: KeyView, last: bool)
    ensures
        match work_edge(es, offset, key, last) {
            Some(s) => is_edge(es, offset, key, last, s),
            None => forall|e: EventView, x: int|
                es.contains(e) ==> !#[trigger] works_at(e, offset, key, x),
        },
    decreases es.len(),
{
    if es.len() > 0 {
        let init = es.drop_last();
        let z = es.last();
        law_work_edges(init, offset, key, last);
        assert(es[es.len() - 1] == z);
        assert(es.contains(z));
        assert forall|e: EventView| #[trigger] es.contains(e) <==> init.contains(e) || e == z by {
            if init.contains(e) {
                let k = choose|k: int| 0 <= k < init.len() && init[k] == e;
                assert(es[k] == e);
            }
            if es.contains(e) && e != z {
                let k = choose|k: int| 0 <= k < es.len() && es[k] == e;
                assert(init[k] == e);
            }
        }
        let sz = calendar::local_second(z.secs, offset);
        if event_key(z, offset) == key && is_sort(z, Sort::Work) {
            assert(works_at(z, offset, key, sz));
        }
        match work_edge(init, offset, key, last) {
            Some(s) => {
                let e = choose|e: EventView| #[trigger]
                    init.contains(e) && works_at(e, offset, key, s);
                assert(es.contains(e));
            },
            None => {},
        }
    }
}

proof fn lemma_values_of_a_key(es: Seq<EventView>, offset: int, ks: Seq<KeyView>, m: int, v: DailyView)
    requires
        0 <= m < ks.len(),
        day_values(es, offset, ks[m]).contains(v),
    ensures
        values_for(es, offset, ks).contains(v),
    decreases ks.len(),
{
    let a = values_for(es, offset, ks.drop_last());
    let b = day_values(es, offset, ks.last());
    if m == ks.len() - 1 {
        let k = choose|k: int| 0 <= k < b.len() && b[k] == v;
        assert((a + b)[a.len() + k] == v);
    } else {
        assert(ks.drop_last()[m] == ks[m]);
        lemma_values_of_a_key(es, offset, ks.drop_last(), m, v);
        let k = choose|k: int| 0 <= k < a.len() && a[k] == v;
        assert((a + b)[k] == v);
    }
}

/// Every count dimension has a value on every day with an event, zero where nothing of the kind
/// happened.
pub proof fn law_days_with_an_event_have_all_counts(
    es: Seq<EventView>,
    offset: int,
    i: int,
    c: int,
)
    requires
        0 <= i < es.len(),
        0 <= c < 6,
    ensures
        values_for(es, offset, day_keys(es, offset)).contains(
            count_values(es, offset, event_key(es[i], offset))[c],
        ),
{
    let key = event_key(es[i], offset);
    lemma_keys_exist(es, offset);
    lemma_event_is_picked(es, offset, i);
    let ks = day_keys(es, offset);
    assert(ks.contains(key));
    let m = choose|m: int| 0 <= m < ks.len() && ks[m] == key;
    let w = work_values(es, offset, key);
    let n = count_values(es, offset, key);
    let all = day_values(es, offset, key);
    assert(all[w.len() + c] == n[c]);
    lemma_values_of_a_key(es, offset, ks, m, n[c]);
}

/// Two values of the same dimension for the same user and day.
pub open spec fn same_slot(x: DailyView, y: DailyView) -> bool {
    x.user_id == y.user_id && x.day == y.day && x.dimension == y.dimension
}

/// A user has one value of a dimension a day: no two values share their user, day and dimension.
pub proof fn law_one_value_a_day(es: Seq<EventView>, offset: int, i: int, j: int)
    requires
        0 <= i < values_for(es, offset, day_keys(es, offset)).len(),
        0 <= j < values_for(es, offset, day_keys(es, offset)).len(),
        same_slot(
            values_for(es, offset, day_keys(es, offset))[i],
            values_for(es, offset, day_keys(es, offset))[j],
        ),
    ensures
        i == j,
{
    lemma_keys_exist(es, offset);
    lemma_one_value_a_key(es, offset, day_keys(es, offset), i, j);
}

/// The values of a key are for its user and day, each of another dimension.
proof fn lemma_day_values(es: Seq<EventView>, offset: int, key: KeyView, i: int)
    requires
        0 <= i < day_values(es, offset, key).len(),
    ensures
        ({
            let v = day_values(es, offset, key)[i];
            let place = i + 3 - work_values(es, offset, key).len();
            &&& v.user_id == key.text
            &&& v.day == key.number
            &&& 0 <= place < dim::names().len()
            &&& v.dimension == dim::names()[place]
        }),
{
    let w = work_values(es, offset, key);
    let c = count_values(es, offset, key);
    let z = sleep_values(es, offset, key);
    let all = day_values(es, offset, key);
    if i < w.len() {
        assert(all[i] == w[i]);
    } else if i < w.len() + c.len() {
        assert(all[i] == c[i - w.len()]);
    } else {
        assert(all[i] == z[i - w.len() - c.len()]);
    }
}

/// A value is for the user and day of one of the keys.
proof fn lemma_value_has_a_key(es: Seq<EventView>, offset: int, ks: Seq<KeyView>, i: int) -> (m:
    int)
    requires
        0 <= i < values_for(es, offset, ks).len(),
    ensures
        0 <= m < ks.len(),
        values_for(es, offset, ks)[i].user_id == ks[m].text,
        values_for(es, offset, ks)[i].day == ks[m].number,
    decreases ks.len(),
{
    let a = values_for(es, offset, ks.drop_last());
    let b = day_values(es, offset, ks.last());
    if i < a.len() {
        assert((a + b)[i] == a[i]);
        let m = lemma_value_has_a_key(es, offset, ks.drop_last(), i);
        assert(ks.drop_last()[m] == ks[m]);
        m
    } else {
        assert((a + b)[i] == b[i - a.len()]);
        lemma_day_values(es, offset, ks.last(), i - a.len());
        ks.len() - 1
    }
}

/// A user and day without an event has no value: every value is for the user and the day of some
/// event.
pub proof fn law_no_value_without_an_event(es: Seq<EventView>, offset: int, i: int)
    requires
        0 <= i < values_for(es, offset, day_keys(es, offset)).len(),
    ensures
        exists|k: int|
            0 <= k < es.len() && {
                let key = event_key(#[trigger] es[k], offset);
                let v = values_for(es, offset, day_keys(es, offset))[i];
                key.text == v.user_id && key.number == v.day
            },
{
    let ks = day_keys(es, offset);
    lemma_keys_exist(es, offset);
    let m = lemma_value_has_a_key(es, offset, ks, i);
    assert(ks.contains(ks[m]));
    let k = lemma_picked_has_an_event(es, offset, ks[m], Sort::Any);
    assert(event_key(es[k], offset) == ks[m]);
}

proof fn lemma_picked_has_an_event(es: Seq<EventView>, offset: int, key: KeyView, t: Sort) -> (k:
    int)
    requires
        picked(es, offset, key, t).len() > 0,
    ensures
        0 <= k < es.len(),
        event_key(es[k], offset) == key,
    decreases es.len(),
{
    if event_key(es.last(), offset) == key && is_sort(es.last(), t) {
        es.len() - 1
    } else {
        let k = lemma_picked_has_an_event(es.drop_last(), offset, key, t);
        assert(es.drop_last()[k] == es[k]);
        k
    }
}

proof fn lemma_one_value_a_key(
    es: Seq<EventView>,
    offset: int,
    ks: Seq<KeyView>,
    i: int,
    j: int,
)
    requires
        order::ascending(ks),
        0 <= i < values_for(es, offset, ks).len(),
        0 <= j < values_for(es, offset, ks).len(),
        same_slot(values_for(es, offset, ks)[i], values_for(es, offset, ks)[j]),
    ensures
        i == j,
    decreases ks.len(),
{
    let init = ks.drop_last();
    let a = values_for(es, offset, init);
    let b = day_values(es, offset, ks.last());
    let n = a.len();
    let all = values_for(es, offset, ks);
    assert forall|x: int| 0 <= x < all.len() implies #[trigger] all[x] == if x < n {
        a[x]
    } else {
        b[x - n]
    } by {}
    if i < n && j < n {
        assert forall|x: int, y: int| 0 <= x < y < init.len() implies order::key_before(
            #[trigger] init[x],
            #[trigger] init[y],
        ) by {
            assert(init[x] == ks[x] && init[y] == ks[y]);
        }
        lemma_one_value_a_key(es, offset, init, i, j);
    } else if i < n || j < n {
        let (x, y) = if i < n {
            (i, j)
        } else {
            (j, i)
        };
        let m = lemma_value_has_a_key(es, offset, init, x);
        lemma_day_values(es, offset, ks.last(), y - n);
        assert(init[m] == ks[m]);
        assert(ks[m] =~= ks[ks.len() - 1]);
        order::lemma_ascending_distinct(ks, m, ks.len() - 1);
    } else {
        lemma_day_values(es, offset, ks.last(), i - n);
        lemma_day_values(es, offset, ks.last(), j - n);
        let shift = 3 - work_values(es, offset, ks.last()).len();
        dim::law_names_are_distinct(i - n + shift, j - n + shift);
    }
}

proof fn lemma_event_is_picked(es: Seq<EventView>, offset: int, i: int)
    requires
        0 <= i < es.len(),
    ensures
        picked(es, offset, event_key(es[i], offset), Sort::Any).len() > 0,
    decreases es.len(),
{
    if i < es.len() - 1 {
        assert(es.drop_last()[i] == es[i]);
        lemma_event_is_picked(es.drop_last(), offset, i);
    }
}

// ---- the order of the events ----

/// `b` holds the events of `a` in another order: the event at `i` was at `p[i]`, and the one that
/// was at `i` is at `q[i]`.
pub open spec fn rearranged(a: Seq<EventView>, b: Seq<EventView>, p: Seq<int>, q: Seq<int>) -> bool {
    &&& a.len() == b.len() == p.len() == q.len()
    &&& forall|i: int| 0 <= i < p.len() ==> 0 <= #[trigger] p[i] < p.len() && q[p[i]] == i
    &&& forall|i: int| 0 <= i < q.len() ==> 0 <= #[trigger] q[i] < q.len() && p[q[i]] == i
    &&& forall|i: int| 0 <= i < b.len() ==> #[trigger] b[i] == a[p[i]]
}

/// The indices `y` name the same events after the rearrangement as `x` did before.
pub open spec fn same_events(p: Seq<int>, x: Seq<int>, y: Seq<int>) -> bool {
    y.map_values(|k: int| p[k]).to_multiset() == x.to_multiset()
}

/// The values are the same: of the same user, day and dimension, and made of the same events.
pub open spec fn same_value(p: Seq<int>, x: DailyView, y: DailyView) -> bool {
    &&& x.user_id == y.user_id && x.day == y.day && x.dimension == y.dimension
    &&& x.sample_n == y.sample_n
    &&& match (x.quantity, y.quantity) {
        (QuantityView::Minutes(i), QuantityView::Minutes(j)) => same_events(p, i, j),
        (QuantityView::MostHours(i), QuantityView::MostHours(j)) => same_events(p, i, j),
        (i, j) => i == j,
    }
}

/// The picked indices are those of the events that match, each once.
proof fn lemma_picked_are_the_matches(es: Seq<EventView>, offset: int, key: KeyView, t: Sort)
    ensures
        picked(es, offset, key, t).no_duplicates(),
        forall|k: int| #[trigger]
            picked(es, offset, key, t).contains(k) <==> 0 <= k < es.len() && matching(
                offset,
                key,
                t,
            )(es[k]),
    decreases es.len(),
{
    let out = picked(es, offset, key, t);
    if es.len() > 0 {
        let init = es.drop_last();
        let n = es.len() - 1;
        let before = picked(init, offset, key, t);
        lemma_picked_are_the_matches(init, offset, key, t);
        assert forall|k: int| #[trigger] out.contains(k) <==> 0 <= k < es.len() && matching(
            offset,
            key,
            t,
        )(es[k]) by {
            assert(before.contains(k) <==> 0 <= k < init.len() && matching(offset, key, t)(init[k]));
            if before.contains(k) {
                let m = choose|m: int| 0 <= m < before.len() && before[m] == k;
                assert(out[m] == k);
            }
            if out.contains(k) && k != n {
                let m = choose|m: int| 0 <= m < out.len() && out[m] == k;
                assert(before[m] == k);
            }
            if k == n && matching(offset, key, t)(es[n]) {
                assert(out[before.len() as int] == n);
            }
        }
        assert forall|i: int, j: int|
            0 <= i < out.len() && 0 <= j < out.len() && i != j implies out[i] != out[j] by {
            if i < before.len() {
                assert(before.contains(before[i]));
            }
            if j < before.len() {
                assert(before.contains(before[j]));
            }
        }
    }
}

proof fn lemma_same_picks(
    a: Seq<EventView>,
    b: Seq<EventView>,
    p: Seq<int>,
    q: Seq<int>,
    offset: int,
    key: KeyView,
    t: Sort,
)
    requires
        rearranged(a, b, p, q),
    ensures
        same_events(p, picked(a, offset, key, t), picked(b, offset, key, t)),
        picked(a, offset, key, t).len() == picked(b, offset, key, t).len(),
{
    let x = picked(a, offset, key, t);
    let y = picked(b, offset, key, t);
    let z = y.map_values(|k: int| p[k]);
    lemma_picked_are_the_matches(a, offset, key, t);
    lemma_picked_are_the_matches(b, offset, key, t);
    assert(z.no_duplicates()) by {
        assert forall|i: int, j: int|
            0 <= i < z.len() && 0 <= j < z.len() && i != j implies z[i] != z[j] by {
            assert(y.contains(y[i]) && y.contains(y[j]));
            assert(q[p[y[i]]] == y[i] && q[p[y[j]]] == y[j]);
        }
    }
    assert forall|k: int| z.contains(k) <==> x.contains(k) by {
        if z.contains(k) {
            let m = choose|m: int| 0 <= m < z.len() && z[m] == k;
            assert(y.contains(y[m]));
            assert(b[y[m]] == a[p[y[m]]]);
        }
        if x.contains(k) {
            let m = q[k];
            assert(b[m] == a[p[m]]);
            assert(y.contains(m));
            let n = choose|n: int| 0 <= n < y.len() && y[n] == m;
            assert(z[n] == k);
        }
    }
    x.lemma_multiset_has_no_duplicates();
    z.lemma_multiset_has_no_duplicates();
    x.to_multiset_ensures();
    z.to_multiset_ensures();
    assert(z.to_multiset() =~= x.to_multiset()) by {
        assert forall|k: int| z.to_multiset().count(k) == x.to_multiset().count(k) by {
            assert(x.contains(k) <==> x.to_multiset().count(k) > 0);
            assert(z.contains(k) <==> z.to_multiset().count(k) > 0);
            assert(z.contains(k) <==> x.contains(k));
        }
    }
    assert(x.len() == x.to_multiset().len());
    assert(z.len() == z.to_multiset().len());
}

proof fn lemma_same_edge(
    a: Seq<EventView>,
    b: Seq<EventView>,
    offset: int,
    key: KeyView,
    last: bool,
)
    requires
        forall|e: EventView| #[trigger] a.contains(e) <==> b.contains(e),
    ensures
        work_edge(a, offset, key, last) == work_edge(b, offset, key, last),
{
    law_work_edges(a, offset, key, last);
    law_work_edges(b, offset, key, last);
    match work_edge(a, offset, key, last) {
        Some(s) => {
            let e = choose|e: EventView| #[trigger]
                a.contains(e) && works_at(e, offset, key, s);
            assert(b.contains(e));
        },
        None => {},
    }
    match work_edge(b, offset, key, last) {
        Some(s) => {
            let e = choose|e: EventView| #[trigger]
                b.contains(e) && works_at(e, offset, key, s);
            assert(a.contains(e));
        },
        None => {},
    }
}

proof fn lemma_same_contents(a: Seq<EventView>, b: Seq<EventView>, p: Seq<int>, q: Seq<int>)
    requires
        rearranged(a, b, p, q),
    ensures
        forall|e: EventView| #[trigger] a.contains(e) <==> b.contains(e),
{
    assert forall|e: EventView| #[trigger] a.contains(e) <==> b.contains(e) by {
        if a.contains(e) {
            let k = choose|k: int| 0 <= k < a.len() && a[k] == e;
            assert(b[q[k]] == a[p[q[k]]]);
        }
        if b.contains(e) {
            let k = choose|k: int| 0 <= k < b.len() && b[k] == e;
            assert(a[p[k]] == e);
        }
    }
}

/// The values of one list are, one by one, those of the other.
pub open spec fn same_values(p: Seq<int>, x: Seq<DailyView>, y: Seq<DailyView>) -> bool {
    &&& x.len() == y.len()
    &&& forall|i: int| 0 <= i < x.len() ==> same_value(p, #[trigger] x[i], y[i])
}

proof fn lemma_same_values_concat(
    p: Seq<int>,
    a: Seq<DailyView>,
    b: Seq<DailyView>,
    x: Seq<DailyView>,
    y: Seq<DailyView>,
)
    requires
        same_values(p, a, b),
        same_values(p, x, y),
    ensures
        same_values(p, a + x, b + y),
{
    assert forall|i: int| 0 <= i < (a + x).len() implies same_value(
        p,
        #[trigger] (a + x)[i],
        (b + y)[i],
    ) by {
        if i < a.len() {
            assert((a + x)[i] == a[i] && (b + y)[i] == b[i]);
        } else {
            assert((a + x)[i] == x[i - a.len()] && (b + y)[i] == y[i - a.len()]);
        }
    }
}

proof fn lemma_same_day(
    a: Seq<EventView>,
    b: Seq<EventView>,
    p: Seq<int>,
    q: Seq<int>,
    offset: int,
    key: KeyView,
)
    requires
        rearranged(a, b, p, q),
    ensures
        same_values(p, day_values(a, offset, key), day_values(b, offset, key)),
{
    lemma_same_contents(a, b, p, q);
    lemma_same_edge(a, b, offset, key, false);
    lemma_same_edge(a, b, offset, key, true);
    lemma_same_picks(a, b, p, q, offset, key, Sort::Any);
    lemma_same_picks(a, b, p, q, offset, key, Sort::Focus);
    lemma_same_picks(a, b, p, q, offset, key, Sort::TimedReading);
    lemma_same_picks(a, b, p, q, offset, key, Sort::Reading);
    lemma_same_picks(a, b, p, q, offset, key, Sort::WorkComms);
    lemma_same_picks(a, b, p, q, offset, key, Sort::FamilyComms);
    lemma_same_picks(a, b, p, q, offset, key, Sort::Postponed);
    lemma_same_picks(a, b, p, q, offset, key, Sort::Exercise);
    lemma_same_picks(a, b, p, q, offset, key, Sort::Sleep);
    let (wa, wb) = (work_values(a, offset, key), work_values(b, offset, key));
    let (ca, cb) = (count_values(a, offset, key), count_values(b, offset, key));
    let (sa, sb) = (sleep_values(a, offset, key), sleep_values(b, offset, key));
    assert(same_values(p, wa, wb));
    assert(same_values(p, ca, cb));
    assert(same_values(p, sa, sb));
    lemma_same_values_concat(p, wa, wb, ca, cb);
    lemma_same_values_concat(p, wa + ca, wb + cb, sa, sb);
}

proof fn lemma_same_values(
    a: Seq<EventView>,
    b: Seq<EventView>,
    p: Seq<int>,
    q: Seq<int>,
    offset: int,
    ks: Seq<KeyView>,
)
    requires
        rearranged(a, b, p, q),
    ensures
        same_values(p, values_for(a, offset, ks), values_for(b, offset, ks)),
    decreases ks.len(),
{
    if ks.len() > 0 {
        lemma_same_values(a, b, p, q, offset, ks.drop_last());
        lemma_same_day(a, b, p, q, offset, ks.last());
        lemma_same_values_concat(
            p,
            values_for(a, offset, ks.drop_last()),
            values_for(b, offset, ks.drop_last()),
            day_values(a, offset, ks.last()),
            day_values(b, offset, ks.last()),
        );
    }
}

/// The order of the events does not matter: the same events in another order give the same daily
/// values, in the same order, each made of the same events.
pub proof fn law_the_order_of_events_does_not_matter(
    a: Seq<EventView>,
    b: Seq<EventView>,
    p: Seq<int>,
    q: Seq<int>,
    offset: int,
)
    requires
        rearranged(a, b, p, q),
    ensures
        same_values(
            p,
            values_for(a, offset, day_keys(a, offset)),
            values_for(b, offset, day_keys(b, offset)),
        ),
{
    lemma_keys_exist(a, offset);
    lemma_keys_exist(b, offset);
    let ks = day_keys(a, offset);
    assert forall|k: KeyView| #[trigger] ks.contains(k) <==> picked(
        b,
        offset,
        k,
        Sort::Any,
    ).len() > 0 by {
        lemma_same_picks(a, b, p, q, offset, k, Sort::Any);
    }
    lemma_keys_unique(b, offset, ks, day_keys(b, offset));
    lemma_same_values(a, b, p, q, offset, ks);
}

} // verus!
