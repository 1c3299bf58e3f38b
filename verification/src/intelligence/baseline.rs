//! Personal baseline: robust statistics per dimension and day class over a rolling window, a
//! warm-up period, drift detection against two recent windows, the "meaningful" rule and a
//! per-dimension cooldown. No clock, no I/O: the evaluation date is an argument.
//!
//! Windows, for `as_of` = today:
//!
//! ```text
//!  |<---------- baseline: 28 days ---------->|<------ recent: 14 days ------>|
//!  |                                         |            |<-- short: 7 -->|
//!  base_start                          base_end                          as_of
//! ```
//!
//! The baseline window ends the day before the recent window starts, so a change in the
//! recent weeks cannot pull its own baseline toward itself. A dimension has drifted when both
//! recent medians (14 d and 7 d) sit beyond the threshold from the baseline median on the same
//! side. Warm-up: no observation until the baseline window holds enough days of data.
//!
//! Values are fractions and stay with the caller. [`plan`] says which values belong to which
//! group and window, the caller computes the medians, and [`conclude`] decides what they mean.

pub mod laws;
pub mod relevance;
pub mod words;

use vstd::prelude::*;

use crate::calendar;
use crate::calendar::Date;
use crate::intelligence::patterns::dim;
use crate::text::chars;
use crate::text::number;
use crate::text::order;
use crate::text::order::Key;
use crate::text::order::KeyView;
use crate::text::pieces;

verus! {

#[derive(Clone, Copy, Debug, PartialEq, Eq, Structural)]
pub enum DayClass {
    Weekday,
    Weekend,
}

impl DayClass {
    /// The class of day `n`.
    pub open spec fn of_day(n: int) -> DayClass {
        if calendar::weekday(n) >= 5 {
            DayClass::Weekend
        } else {
            DayClass::Weekday
        }
    }

    pub fn of(day: Date) -> (r: Self)
        requires
            day.valid(),
        ensures
            r == DayClass::of_day(day.number as int),
    {
        if day.weekday() >= 5 {
            DayClass::Weekend
        } else {
            DayClass::Weekday
        }
    }

    pub open spec fn name(self) -> Seq<char> {
        match self {
            DayClass::Weekday => "weekday"@,
            DayClass::Weekend => "weekend"@,
        }
    }

    pub fn as_str(&self) -> (r: &'static str)
        ensures
            r@ == self.name(),
    {
        match self {
            DayClass::Weekday => "weekday",
            DayClass::Weekend => "weekend",
        }
    }

    pub open spec fn named(s: Seq<char>) -> Option<DayClass> {
        if s == DayClass::Weekday.name() {
            Some(DayClass::Weekday)
        } else if s == DayClass::Weekend.name() {
            Some(DayClass::Weekend)
        } else {
            None
        }
    }

    pub fn parse(s: &str) -> (r: Option<Self>)
        ensures
            r == DayClass::named(s@),
    {
        if chars::same(s, "weekday") {
            Some(DayClass::Weekday)
        } else if chars::same(s, "weekend") {
            Some(DayClass::Weekend)
        } else {
            None
        }
    }

    /// A day class is read back from its name.
    pub proof fn law_parse_reads_as_str_back(self)
        ensures
            DayClass::named(self.name()) == Some(self),
    {
        reveal_strlit("weekday");
        reveal_strlit("weekend");
        assert("weekday"@[4] != "weekend"@[4]);
    }

    pub open spec fn words(self) -> Seq<char> {
        match self {
            DayClass::Weekday => "on weekdays"@,
            DayClass::Weekend => "at weekends"@,
        }
    }

    fn phrase(&self) -> (r: &'static str)
        ensures
            r@ == self.words(),
    {
        match self {
            DayClass::Weekday => "on weekdays",
            DayClass::Weekend => "at weekends",
        }
    }

    /// Weekdays come first.
    pub open spec fn rank(self) -> int {
        match self {
            DayClass::Weekday => 0,
            DayClass::Weekend => 1,
        }
    }

    fn number(&self) -> (r: i64)
        ensures
            r == self.rank(),
    {
        match self {
            DayClass::Weekday => 0,
            DayClass::Weekend => 1,
        }
    }
}

/// The parameters of the learning model that count days, samples and dimensions.
#[derive(Debug)]
pub struct Config {
    pub window_days: i64,
    pub warmup_days: usize,
    pub recent_days: i64,
    pub short_days: i64,
    pub cooldown_days: i64,
    /// "Meaningful" needs at least this many distinct drifting dimensions …
    pub min_dimensions: usize,
    /// … or one dimension beyond threshold on at least this many days of the recent window.
    pub single_dimension_min_days: usize,
    pub min_baseline_samples: usize,
    pub min_recent_samples: usize,
    pub min_short_samples: usize,
    /// Dimensions the user switched off.
    pub disabled: Vec<String>,
}

pub open spec fn is_default(c: Config) -> bool {
    &&& c.window_days == 28
    &&& c.warmup_days == 14
    &&& c.recent_days == 14
    &&& c.short_days == 7
    &&& c.cooldown_days == 7
    &&& c.min_dimensions == 2
    &&& c.single_dimension_min_days == 10
    &&& c.min_baseline_samples == 4
    &&& c.min_recent_samples == 3
    &&& c.min_short_samples == 2
    &&& c.disabled@.len() == 0
}

impl Default for Config {
    fn default() -> (r: Self)
        ensures
            is_default(r),
    {
        Config {
            window_days: 28,
            warmup_days: 14,
            recent_days: 14,
            short_days: 7,
            cooldown_days: 7,
            min_dimensions: 2,
            single_dimension_min_days: 10,
            min_baseline_samples: 4,
            min_recent_samples: 3,
            min_short_samples: 2,
            disabled: Vec::new(),
        }
    }
}

// ---- windows ----

/// The first and last days of the windows, by number.
#[derive(Clone, Copy, Debug, PartialEq, Eq, Structural)]
pub struct Windows {
    pub base_start: i64,
    pub base_end: i64,
    pub recent_start: i64,
    pub short_start: i64,
    pub as_of: i64,
}

/// The windows of an evaluation on day `as_of`.
pub open spec fn windows_of(as_of: int, cfg: Config) -> Windows {
    let recent_start = as_of - (cfg.recent_days - 1);
    let base_end = recent_start - 1;
    Windows {
        base_start: (base_end - (cfg.window_days - 1)) as i64,
        base_end: base_end as i64,
        recent_start: recent_start as i64,
        short_start: (as_of - (cfg.short_days - 1)) as i64,
        as_of: as_of as i64,
    }
}

/// The windows start and end at days that the calendar has.
pub open spec fn windows_fit(as_of: int, cfg: Config) -> bool {
    let recent_start = as_of - (cfg.recent_days - 1);
    &&& calendar::in_calendar(as_of)
    &&& calendar::in_calendar(recent_start)
    &&& calendar::in_calendar(recent_start - 1)
    &&& calendar::in_calendar(recent_start - 1 - (cfg.window_days - 1))
    &&& calendar::in_calendar(as_of - (cfg.short_days - 1))
}

/// The cooldown reaches back to a day that the calendar has. Observations of that day or before no
/// longer suppress a dimension.
pub open spec fn cooldown_fits(as_of: int, cfg: Config) -> bool {
    calendar::in_calendar(as_of) && calendar::in_calendar(as_of - cfg.cooldown_days)
}

proof fn lemma_calendar_is_small(n: int)
    requires
        calendar::in_calendar(n),
    ensures
        -100_000_000 < n < 100_000_000,
{
}

pub fn windows(as_of: Date, cfg: &Config) -> (r: Windows)
    requires
        windows_fit(as_of.number as int, *cfg),
    ensures
        r == windows_of(as_of.number as int, *cfg),
        r.base_end + 1 == r.recent_start,
{
    proof {
        let n = as_of.number as int;
        lemma_calendar_is_small(n);
        lemma_calendar_is_small(n - (cfg.recent_days - 1));
        lemma_calendar_is_small(n - (cfg.recent_days - 1) - 1 - (cfg.window_days - 1));
        lemma_calendar_is_small(n - (cfg.short_days - 1));
    }
    let n: i64 = as_of.number as i64;
    let recent_start: i64 = n - (cfg.recent_days - 1);
    let base_end: i64 = recent_start - 1;
    Windows {
        base_start: base_end - (cfg.window_days - 1),
        base_end,
        recent_start,
        short_start: n - (cfg.short_days - 1),
        as_of: n,
    }
}

/// A window of the evaluation.
#[derive(Clone, Copy, Debug, PartialEq, Eq, Structural)]
pub enum Span {
    Base,
    Recent,
    Short,
}

/// Day `n` is in the window.
pub open spec fn in_span(w: Windows, n: int, s: Span) -> bool {
    let base = w.base_start <= n <= w.base_end;
    let recent = !base && w.recent_start <= n <= w.as_of;
    match s {
        Span::Base => base,
        Span::Recent => recent,
        Span::Short => recent && n >= w.short_start,
    }
}

fn within_span(w: &Windows, n: i64, s: Span) -> (r: bool)
    ensures
        r == in_span(*w, n as int, s),
{
    let base = w.base_start <= n && n <= w.base_end;
    let recent = !base && w.recent_start <= n && n <= w.as_of;
    match s {
        Span::Base => base,
        Span::Recent => recent,
        Span::Short => recent && n >= w.short_start,
    }
}

/// No day is in the baseline window and in a recent one: a change in the recent weeks cannot pull
/// its own baseline toward itself.
pub proof fn law_recent_days_are_not_baseline_days(as_of: int, cfg: Config, n: int)
    requires
        windows_fit(as_of, cfg),
    ensures
        ({
            let w = windows_of(as_of, cfg);
            &&& in_span(w, n, Span::Base) ==> !(w.recent_start <= n) && !in_span(
                w,
                n,
                Span::Recent,
            ) && !in_span(w, n, Span::Short)
            &&& in_span(w, n, Span::Short) ==> in_span(w, n, Span::Recent)
            &&& in_span(w, n, Span::Recent) <==> w.recent_start <= n <= w.as_of
        }),
{
    lemma_calendar_is_small(as_of);
    lemma_calendar_is_small(as_of - (cfg.recent_days - 1));
    lemma_calendar_is_small(as_of - (cfg.recent_days - 1) - 1 - (cfg.window_days - 1));
    lemma_calendar_is_small(as_of - (cfg.short_days - 1));
}

// ---- rows and groups ----

/// A row of daily values, without the value, which the caller finds by the row's index.
#[derive(Debug)]
pub struct DayRow {
    pub user_id: String,
    pub day: Date,
    pub dimension: String,
}

#[verifier::ext_equal]
pub struct RowView {
    pub user_id: Seq<char>,
    pub day: int,
    pub dimension: Seq<char>,
}

impl View for DayRow {
    type V = RowView;

    open spec fn view(&self) -> RowView {
        RowView {
            user_id: self.user_id@,
            day: self.day.number as int,
            dimension: self.dimension@,
        }
    }
}

pub open spec fn rows_of(v: Seq<DayRow>) -> Seq<RowView> {
    v.map_values(|r: DayRow| r@)
}

/// What an evaluation is about: the user, the windows and the dimensions switched off.
#[verifier::ext_equal]
pub struct Scope {
    pub user_id: Seq<char>,
    pub windows: Windows,
    pub disabled: Seq<Seq<char>>,
}

pub open spec fn scope_of(user_id: Seq<char>, as_of: int, cfg: Config) -> Scope {
    Scope {
        user_id,
        windows: windows_of(as_of, cfg),
        disabled: pieces::strings(cfg.disabled@),
    }
}

/// A row that counts: of the user, of a dimension that is on, and of a day in the window.
pub open spec fn counts(s: Scope, r: RowView, span: Span) -> bool {
    r.user_id == s.user_id && !s.disabled.contains(r.dimension) && in_span(s.windows, r.day, span)
}

/// The group of a row: its dimension and the class of its day.
pub open spec fn group_key(r: RowView) -> KeyView {
    KeyView { text: r.dimension, number: DayClass::of_day(r.day).rank() }
}

/// The days of the rows that count for the baseline.
pub open spec fn base_days(s: Scope, rows: Seq<RowView>) -> Seq<int>
    decreases rows.len(),
{
    if rows.len() == 0 {
        Seq::empty()
    } else if counts(s, rows.last(), Span::Base) {
        base_days(s, rows.drop_last()).push(rows.last().day)
    } else {
        base_days(s, rows.drop_last())
    }
}

/// How many distinct days the baseline window holds.
pub open spec fn days_seen(s: Scope, rows: Seq<RowView>) -> nat {
    base_days(s, rows).to_set().len()
}

/// The indices of the rows of a group in a window, in order.
pub open spec fn picked(s: Scope, rows: Seq<RowView>, key: KeyView, span: Span) -> Seq<int>
    decreases rows.len(),
{
    if rows.len() == 0 {
        Seq::empty()
    } else {
        let before = picked(s, rows.drop_last(), key, span);
        if counts(s, rows.last(), span) && group_key(rows.last()) == key {
            before.push(rows.len() - 1)
        } else {
            before
        }
    }
}

/// A dimension on a class of days, with the rows of each window.
#[derive(Debug)]
pub struct Group {
    pub dimension: String,
    pub day_class: DayClass,
    pub base: Vec<usize>,
    pub recent: Vec<usize>,
    pub short: Vec<usize>,
    /// The recent windows hold enough samples to compare.
    pub comparable: bool,
}

pub open spec fn indices_of(v: Seq<usize>) -> Seq<int> {
    v.map_values(|i: usize| i as int)
}

pub open spec fn key_of_group(g: Group) -> KeyView {
    KeyView { text: g.dimension@, number: g.day_class.rank() }
}

pub open spec fn group_keys(v: Seq<Group>) -> Seq<KeyView> {
    v.map_values(|g: Group| key_of_group(g))
}

/// Enough samples, and at least one.
pub open spec fn enough(n: nat, least: usize) -> bool {
    n > 0 && n >= least
}

/// A group holds exactly the rows of its key.
pub open spec fn group_holds(s: Scope, rows: Seq<RowView>, cfg: Config, g: Group) -> bool {
    let k = key_of_group(g);
    &&& indices_of(g.base@) == picked(s, rows, k, Span::Base)
    &&& indices_of(g.recent@) == picked(s, rows, k, Span::Recent)
    &&& indices_of(g.short@) == picked(s, rows, k, Span::Short)
    &&& g.comparable == (enough(g.recent@.len(), cfg.min_recent_samples) && enough(
        g.short@.len(),
        cfg.min_short_samples,
    ))
}

/// The groups are those with enough samples in the baseline window, by dimension and day class.
pub open spec fn groups_are(s: Scope, rows: Seq<RowView>, cfg: Config, gs: Seq<Group>) -> bool {
    &&& order::ascending(group_keys(gs))
    &&& forall|i: int| 0 <= i < gs.len() ==> group_holds(s, rows, cfg, #[trigger] gs[i])
    &&& forall|k: KeyView| #[trigger]
        group_keys(gs).contains(k) <==> enough(
            picked(s, rows, k, Span::Base).len(),
            cfg.min_baseline_samples,
        )
}

fn row_counts(
    user_id: &str,
    disabled: &Vec<String>,
    w: &Windows,
    r: &DayRow,
    span: Span,
    Ghost(s): Ghost<Scope>,
) -> (b: bool)
    requires
        s.user_id == user_id@,
        s.windows == *w,
        s.disabled == pieces::strings(disabled@),
    ensures
        b == counts(s, r@, span),
{
    chars::same(r.user_id.as_str(), user_id) && !pieces::has_string(
        disabled,
        r.dimension.as_str(),
    ) && within_span(w, r.day.number as i64, span)
}

fn key_of_row(r: &DayRow) -> (k: Key)
    requires
        r.day.valid(),
    ensures
        k@ == group_key(r@),
{
    Key { text: chars::chars_of(r.dimension.as_str()), number: DayClass::of(r.day).number() }
}

/// Every row is of a day that the calendar has.
pub open spec fn rows_valid(rows: Seq<DayRow>) -> bool {
    forall|i: int| 0 <= i < rows.len() ==> (#[trigger] rows[i]).day.valid()
}

fn has_day(days: &Vec<i32>, n: i32) -> (r: bool)
    ensures
        r == days@.contains(n),
{
    let mut i: usize = 0;
    while i < days.len()
        invariant
            i <= days.len(),
            forall|j: int| 0 <= j < i ==> days@[j] != n,
        decreases days.len() - i,
    {
        if days[i] == n {
            assert(days@[i as int] == n);
            return true;
        }
        i += 1;
    }
    false
}

fn count_base_days(
    user_id: &str,
    disabled: &Vec<String>,
    w: &Windows,
    rows: &Vec<DayRow>,
    Ghost(s): Ghost<Scope>,
) -> (r: usize)
    requires
        s.user_id == user_id@,
        s.windows == *w,
        s.disabled == pieces::strings(disabled@),
    ensures
        r == days_seen(s, rows_of(rows@)),
{
    let ghost all = rows_of(rows@);
    let mut days: Vec<i32> = Vec::new();
    let mut i: usize = 0;
    assert(all.take(0) =~= Seq::empty());
    assert(base_days(s, all.take(0)).to_set() =~= indices_of_days(days@).to_set());
    while i < rows.len()
        invariant
            i <= rows.len(),
            all == rows_of(rows@),
            s.user_id == user_id@,
            s.windows == *w,
            s.disabled == pieces::strings(disabled@),
            days@.no_duplicates(),
            base_days(s, all.take(i as int)).to_set() == indices_of_days(days@).to_set(),
        decreases rows.len() - i,
    {
        assert(all.take(i + 1).drop_last() =~= all.take(i as int));
        assert(all.take(i + 1).last() == rows@[i as int]@);
        let ghost before = base_days(s, all.take(i as int));
        if row_counts(user_id, disabled, w, &rows[i], Span::Base, Ghost(s)) {
            let n = rows[i].day.number;
            let ghost after = before.push(n as int);
            let ghost o = days@;
            assert(after.to_set() =~= before.to_set().insert(n as int)) by {
                lemma_push_to_set(before, n as int);
            }
            if !has_day(&days, n) {
                days.push(n);
                proof {
                    assert(indices_of_days(days@) =~= indices_of_days(o).push(n as int));
                    lemma_push_to_set(indices_of_days(o), n as int);
                }
            } else {
                proof {
                    let k = choose|k: int| 0 <= k < o.len() && o[k] == n;
                    assert(indices_of_days(o)[k] == n as int);
                    assert(indices_of_days(o).to_set().contains(n as int));
                    assert(indices_of_days(o).to_set().insert(n as int) =~= indices_of_days(
                        o,
                    ).to_set());
                }
            }
        }
        i += 1;
    }
    assert(all.take(rows.len() as int) =~= all);
    proof {
        let d = indices_of_days(days@);
        assert(d.no_duplicates()) by {
            assert forall|a: int, b: int|
                0 <= a < d.len() && 0 <= b < d.len() && a != b implies d[a] != d[b] by {
                assert(days@[a] != days@[b]);
            }
        }
        d.unique_seq_to_set();
    }
    days.len()
}

spec fn indices_of_days(v: Seq<i32>) -> Seq<int> {
    v.map_values(|i: i32| i as int)
}

proof fn lemma_push_to_set(s: Seq<int>, x: int)
    ensures
        s.push(x).to_set() == s.to_set().insert(x),
{
    let t = s.push(x);
    assert forall|y: int| t.to_set().contains(y) <==> s.to_set().insert(x).contains(y) by {
        if s.contains(y) {
            let k = choose|k: int| 0 <= k < s.len() && s[k] == y;
            assert(t[k] == y);
        }
        assert(t[s.len() as int] == x);
        if t.contains(y) && y != x {
            let k = choose|k: int| 0 <= k < t.len() && t[k] == y;
            assert(s[k] == y);
        }
    }
    assert(t.to_set() =~= s.to_set().insert(x));
}

/// The keys of the rows that count for the baseline, in order.
fn base_keys(
    user_id: &str,
    disabled: &Vec<String>,
    w: &Windows,
    rows: &Vec<DayRow>,
    Ghost(s): Ghost<Scope>,
) -> (r: Vec<Key>)
    requires
        s.user_id == user_id@,
        s.windows == *w,
        s.disabled == pieces::strings(disabled@),
        rows_valid(rows@),
    ensures
        order::ascending(order::keys_of(r@)),
        forall|k: KeyView| #[trigger]
            order::keys_of(r@).contains(k) <==> picked(s, rows_of(rows@), k, Span::Base).len() > 0,
{
    let ghost all = rows_of(rows@);
    let mut keys: Vec<Key> = Vec::new();
    let mut i: usize = 0;
    assert(all.take(0) =~= Seq::empty());
    while i < rows.len()
        invariant
            i <= rows.len(),
            all == rows_of(rows@),
            rows_valid(rows@),
            s.user_id == user_id@,
            s.windows == *w,
            s.disabled == pieces::strings(disabled@),
            order::ascending(order::keys_of(keys@)),
            forall|k: KeyView| #[trigger]
                order::keys_of(keys@).contains(k) <==> picked(
                    s,
                    all.take(i as int),
                    k,
                    Span::Base,
                ).len() > 0,
        decreases rows.len() - i,
    {
        assert(all.take(i + 1).drop_last() =~= all.take(i as int));
        assert(all.take(i + 1).last() == rows@[i as int]@);
        if row_counts(user_id, disabled, w, &rows[i], Span::Base, Ghost(s)) {
            let key = key_of_row(&rows[i]);
            order::insert_key(&mut keys, key);
        }
        assert forall|k: KeyView| #[trigger]
            order::keys_of(keys@).contains(k) <==> picked(s, all.take(i + 1), k, Span::Base).len()
                > 0 by {}
        i += 1;
    }
    assert(all.take(rows.len() as int) =~= all);
    keys
}

/// The rows of a key in a window.
fn pick(
    user_id: &str,
    disabled: &Vec<String>,
    w: &Windows,
    rows: &Vec<DayRow>,
    key: &Key,
    span: Span,
    Ghost(s): Ghost<Scope>,
) -> (r: Vec<usize>)
    requires
        s.user_id == user_id@,
        s.windows == *w,
        s.disabled == pieces::strings(disabled@),
        rows_valid(rows@),
    ensures
        indices_of(r@) == picked(s, rows_of(rows@), key@, span),
{
    let ghost all = rows_of(rows@);
    let mut out: Vec<usize> = Vec::new();
    let mut i: usize = 0;
    assert(all.take(0) =~= Seq::empty());
    assert(indices_of(out@) =~= picked(s, all.take(0), key@, span));
    while i < rows.len()
        invariant
            i <= rows.len(),
            all == rows_of(rows@),
            rows_valid(rows@),
            s.user_id == user_id@,
            s.windows == *w,
            s.disabled == pieces::strings(disabled@),
            indices_of(out@) == picked(s, all.take(i as int), key@, span),
        decreases rows.len() - i,
    {
        assert(all.take(i + 1).drop_last() =~= all.take(i as int));
        assert(all.take(i + 1).last() == rows@[i as int]@);
        if row_counts(user_id, disabled, w, &rows[i], span, Ghost(s)) {
            let k = key_of_row(&rows[i]);
            if order::same_key(&k, key) {
                let ghost o = out@;
                out.push(i);
                assert(indices_of(out@) =~= indices_of(o).push(i as int));
            }
        }
        i += 1;
    }
    assert(all.take(rows.len() as int) =~= all);
    out
}

#[derive(Debug)]
pub struct WarmupStatus {
    pub days_seen: usize,
    pub days_needed: usize,
}

/// What an evaluation has to look at.
#[derive(Debug)]
pub enum Plan {
    /// Still learning: nothing is evaluated.
    Warmup(WarmupStatus),
    Groups(Vec<Group>),
}

/// Too few days are seen, or these are the groups.
pub open spec fn plan_is(s: Scope, rows: Seq<RowView>, cfg: Config, p: Plan) -> bool {
    match p {
        Plan::Warmup(st) => days_seen(s, rows) < cfg.warmup_days && st.days_seen == days_seen(
            s,
            rows,
        ) && st.days_needed == cfg.warmup_days,
        Plan::Groups(gs) => days_seen(s, rows) >= cfg.warmup_days && groups_are(s, rows, cfg, gs@),
    }
}

/// Say which rows an evaluation of `user_id` on day `as_of` looks at.
pub fn plan(user_id: &str, rows: &Vec<DayRow>, as_of: Date, cfg: &Config) -> (r: Plan)
    requires
        rows_valid(rows@),
        windows_fit(as_of.number as int, *cfg),
    ensures
        plan_is(scope_of(user_id@, as_of.number as int, *cfg), rows_of(rows@), *cfg, r),
{
    let w = windows(as_of, cfg);
    let ghost s = scope_of(user_id@, as_of.number as int, *cfg);
    let ghost all = rows_of(rows@);
    let seen = count_base_days(user_id, &cfg.disabled, &w, rows, Ghost(s));
    if seen < cfg.warmup_days {
        return Plan::Warmup(WarmupStatus { days_seen: seen, days_needed: cfg.warmup_days });
    }
    let keys = base_keys(user_id, &cfg.disabled, &w, rows, Ghost(s));
    let ghost ks = order::keys_of(keys@);
    let mut groups: Vec<Group> = Vec::new();
    let mut i: usize = 0;
    while i < keys.len()
        invariant
            i <= keys.len(),
            ks == order::keys_of(keys@),
            all == rows_of(rows@),
            rows_valid(rows@),
            s.user_id == user_id@,
            s.windows == w,
            s.disabled == pieces::strings(cfg.disabled@),
            order::ascending(ks),
            forall|k: KeyView| #[trigger]
                ks.contains(k) <==> picked(s, all, k, Span::Base).len() > 0,
            order::ascending(group_keys(groups@)),
            forall|j: int|
                0 <= j < groups@.len() ==> group_holds(s, all, *cfg, #[trigger] groups@[j]),
            forall|k: KeyView| #[trigger]
                group_keys(groups@).contains(k) <==> ks.take(i as int).contains(k) && enough(
                    picked(s, all, k, Span::Base).len(),
                    cfg.min_baseline_samples,
                ),
        decreases keys.len() - i,
    {
        let key = &keys[i];
        assert(ks[i as int] == key@);
        assert(ks.contains(key@));
        let base = pick(user_id, &cfg.disabled, &w, rows, key, Span::Base, Ghost(s));
        assert(indices_of(base@).len() == base@.len());
        let ghost before = groups@;
        if base.len() >= cfg.min_baseline_samples {
            let recent = pick(user_id, &cfg.disabled, &w, rows, key, Span::Recent, Ghost(s));
            let short = pick(user_id, &cfg.disabled, &w, rows, key, Span::Short, Ghost(s));
            let comparable = recent.len() > 0 && recent.len() >= cfg.min_recent_samples
                && short.len() > 0 && short.len() >= cfg.min_short_samples;
            proof {
                lemma_key_is_a_class(s, all, key@, Span::Base);
            }
            let day_class = if key.number == 0 {
                DayClass::Weekday
            } else {
                DayClass::Weekend
            };
            let g = Group {
                dimension: chars::text_of(&key.text),
                day_class,
                base,
                recent,
                short,
                comparable,
            };
            assert(key_of_group(g) == key@);
            groups.push(g);
            assert(group_keys(groups@) =~= group_keys(before).push(key@));
            assert(group_holds(s, all, *cfg, g));
            assert forall|a: int, b: int|
                0 <= a < b < group_keys(groups@).len() implies order::key_before(
                #[trigger] group_keys(groups@)[a],
                #[trigger] group_keys(groups@)[b],
            ) by {
                if b < before.len() {
                    assert(group_keys(groups@)[a] == group_keys(before)[a]);
                    assert(group_keys(groups@)[b] == group_keys(before)[b]);
                } else {
                    let x = group_keys(before)[a];
                    assert(group_keys(groups@)[a] == x);
                    assert(group_keys(before).contains(x));
                    let m = choose|m: int| 0 <= m < i && ks.take(i as int)[m] == x;
                    assert(ks[m] == x);
                    assert(order::key_before(ks[m], ks[i as int]));
                }
            }
            assert forall|j: int| 0 <= j < groups@.len() implies group_holds(
                s,
                all,
                *cfg,
                #[trigger] groups@[j],
            ) by {
                if j < before.len() {
                    assert(groups@[j] == before[j]);
                }
            }
        }
        proof {
            assert(ks.take(i + 1) =~= ks.take(i as int).push(key@));
            assert forall|k: KeyView| #[trigger]
                group_keys(groups@).contains(k) <==> ks.take(i + 1).contains(k) && enough(
                    picked(s, all, k, Span::Base).len(),
                    cfg.min_baseline_samples,
                ) by {
                lemma_push_contains(ks.take(i as int), key@, k);
                if groups@.len() > before.len() {
                    lemma_push_contains(group_keys(before), key@, k);
                }
                assert(group_keys(before).contains(k) <==> ks.take(i as int).contains(k)
                    && enough(picked(s, all, k, Span::Base).len(), cfg.min_baseline_samples));
            }
        }
        i += 1;
    }
    proof {
        assert(ks.take(keys.len() as int) =~= ks);
        assert forall|k: KeyView| #[trigger]
            group_keys(groups@).contains(k) <==> enough(
                picked(s, all, k, Span::Base).len(),
                cfg.min_baseline_samples,
            ) by {
            assert(ks.contains(k) <==> picked(s, all, k, Span::Base).len() > 0);
        }
    }
    Plan::Groups(groups)
}

proof fn lemma_push_contains<T>(s: Seq<T>, x: T, y: T)
    ensures
        s.push(x).contains(y) <==> s.contains(y) || x == y,
{
    let t = s.push(x);
    if s.contains(y) {
        let k = choose|k: int| 0 <= k < s.len() && s[k] == y;
        assert(t[k] == y);
    }
    assert(t[s.len() as int] == x);
    if t.contains(y) && x != y {
        let k = choose|k: int| 0 <= k < t.len() && t[k] == y;
        assert(s[k] == y);
    }
}

/// A key under which a row is found is that of a day class.
proof fn lemma_key_is_a_class(s: Scope, rows: Seq<RowView>, key: KeyView, span: Span)
    requires
        picked(s, rows, key, span).len() > 0,
    ensures
        key.number == 0 || key.number == 1,
    decreases rows.len(),
{
    if rows.len() > 0 {
        if !(counts(s, rows.last(), span) && group_key(rows.last()) == key) {
            lemma_key_is_a_class(s, rows.drop_last(), key, span);
        }
    }
}

// ---- drift ----

/// What the medians of a comparable group say, as the caller computes them.
#[derive(Clone, Copy, Debug, PartialEq, Eq, Structural)]
pub struct Reading {
    /// The recent median is farther from the baseline median than the threshold.
    pub recent_beyond: bool,
    /// So is the short median.
    pub short_beyond: bool,
    /// Both are on the same side of the baseline median.
    pub same_side: bool,
    /// Days of the recent window whose value is beyond the threshold.
    pub days_beyond: usize,
}

/// The positions of the middle values among `n` sorted ones: one position twice where `n` is odd,
/// the two around the middle where it is even.
pub open spec fn middle_of(n: nat) -> Option<(nat, nat)> {
    if n == 0 {
        None
    } else if n % 2 == 1 {
        Some((n / 2, n / 2))
    } else {
        Some(((n / 2 - 1) as nat, n / 2))
    }
}

/// Where the median of `n` sorted values stands: the mean of the values at the two positions.
pub fn middle(n: usize) -> (r: Option<(usize, usize)>)
    ensures
        match r {
            Some((a, b)) => middle_of(n as nat) == Some((a as nat, b as nat)) && a <= b < n,
            None => middle_of(n as nat) is None,
        },
{
    if n == 0 {
        None
    } else if n % 2 == 1 {
        Some((n / 2, n / 2))
    } else {
        Some((n / 2 - 1, n / 2))
    }
}

/// A group has drifted.
pub open spec fn is_drift(g: Group, r: Reading) -> bool {
    g.comparable && r.recent_beyond && r.short_beyond && r.same_side
}

/// The first `n` groups that have drifted.
pub open spec fn drift_list(gs: Seq<Group>, rs: Seq<Reading>, n: int) -> Seq<int>
    decreases n,
{
    if n <= 0 {
        Seq::empty()
    } else if is_drift(gs[n - 1], rs[n - 1]) {
        drift_list(gs, rs, n - 1).push(n - 1)
    } else {
        drift_list(gs, rs, n - 1)
    }
}

/// What the cooldown needs to know about earlier observations.
#[derive(Debug)]
pub struct ExistingObservation {
    pub dimensions: Vec<String>,
    pub created_on: Date,
}

/// An observation made after day `since` speaks of the dimension.
pub open spec fn cooled(existing: Seq<ExistingObservation>, since: int, d: Seq<char>) -> bool {
    exists|i: int|
        0 <= i < existing.len() && (#[trigger] existing[i]).created_on.number > since
            && pieces::strings(existing[i].dimensions@).contains(d)
}

fn is_cooled(existing: &Vec<ExistingObservation>, since: i64, d: &str) -> (r: bool)
    ensures
        r == cooled(existing@, since as int, d@),
{
    let mut i: usize = 0;
    while i < existing.len()
        invariant
            i <= existing.len(),
            forall|j: int|
                0 <= j < i ==> !((#[trigger] existing@[j]).created_on.number > since
                    && pieces::strings(existing@[j].dimensions@).contains(d@)),
        decreases existing.len() - i,
    {
        if existing[i].created_on.number as i64 > since && pieces::has_string(
            &existing[i].dimensions,
            d,
        ) {
            return true;
        }
        i += 1;
    }
    false
}

/// Those of the groups in `list` that are cooled down, or those that are not.
pub open spec fn by_cooldown(
    gs: Seq<Group>,
    list: Seq<int>,
    existing: Seq<ExistingObservation>,
    since: int,
    down: bool,
) -> Seq<int>
    decreases list.len(),
{
    if list.len() == 0 {
        list
    } else {
        let before = by_cooldown(gs, list.drop_last(), existing, since, down);
        if cooled(existing, since, gs[list.last()].dimension@) == down {
            before.push(list.last())
        } else {
            before
        }
    }
}

/// The dimensions of the groups in `list`.
pub open spec fn dims_of(gs: Seq<Group>, list: Seq<int>) -> Seq<Seq<char>> {
    list.map_values(|i: int| gs[i].dimension@)
}

/// Every index names a group.
pub open spec fn fit(list: Seq<int>, n: int) -> bool {
    forall|i: int| 0 <= i < list.len() ==> 0 <= #[trigger] list[i] < n
}

/// `out` holds the texts of `list`, each once, in ascending order.
pub open spec fn sorted_from(out: Seq<Seq<char>>, list: Seq<Seq<char>>) -> bool {
    &&& forall|i: int, j: int|
        0 <= i < j < out.len() ==> order::before(#[trigger] out[i], #[trigger] out[j])
    &&& forall|x: Seq<char>| #[trigger] out.contains(x) <==> list.contains(x)
}

/// Enough dimensions drift, or one does on enough days.
pub open spec fn meaningful(
    gs: Seq<Group>,
    rs: Seq<Reading>,
    active: Seq<int>,
    min_dimensions: usize,
    min_days: usize,
) -> bool {
    ||| dims_of(gs, active).to_set().len() >= min_dimensions
    ||| exists|i: int|
        0 <= i < active.len() && rs[#[trigger] active[i]].days_beyond >= min_days
}

/// The groups of `list` on one class of days.
pub open spec fn of_class(gs: Seq<Group>, list: Seq<int>, c: DayClass) -> Seq<int>
    decreases list.len(),
{
    if list.len() == 0 {
        list
    } else if gs[list.last()].day_class == c {
        of_class(gs, list.drop_last(), c).push(list.last())
    } else {
        of_class(gs, list.drop_last(), c)
    }
}

/// Weekdays first, then weekends.
pub open spec fn weekdays_first(gs: Seq<Group>, list: Seq<int>) -> Seq<int> {
    of_class(gs, list, DayClass::Weekday) + of_class(gs, list, DayClass::Weekend)
}

/// The first group of each dimension.
pub open spec fn first_by_dimension(gs: Seq<Group>, list: Seq<int>) -> Seq<int>
    decreases list.len(),
{
    if list.len() == 0 {
        list
    } else {
        let before = first_by_dimension(gs, list.drop_last());
        if dims_of(gs, before).contains(gs[list.last()].dimension@) {
            before
        } else {
            before.push(list.last())
        }
    }
}

/// The groups an observation speaks of: one per dimension, weekdays first, at most three.
pub open spec fn spoken_of(gs: Seq<Group>, active: Seq<int>) -> Seq<int> {
    pieces::at_most(first_by_dimension(gs, weekdays_first(gs, active)), 3)
}

/// What an evaluation found, by the indices of the groups.
#[derive(Debug)]
pub struct Conclusion {
    /// Every group beyond its threshold, before the cooldown.
    pub drifts: Vec<usize>,
    /// Those that the cooldown does not suppress.
    pub active: Vec<usize>,
    /// The dimensions that it does suppress.
    pub cooled_down: Vec<String>,
    pub observation: Option<Spoken>,
}

/// What an observation speaks of.
#[derive(Debug)]
pub struct Spoken {
    pub groups: Vec<usize>,
    pub dimensions: Vec<String>,
}

pub open spec fn conclusion_is(
    gs: Seq<Group>,
    rs: Seq<Reading>,
    existing: Seq<ExistingObservation>,
    since: int,
    cfg: Config,
    c: Conclusion,
) -> bool {
    let drifts = drift_list(gs, rs, gs.len() as int);
    let active = by_cooldown(gs, drifts, existing, since, false);
    let suppressed = by_cooldown(gs, drifts, existing, since, true);
    &&& indices_of(c.drifts@) == drifts
    &&& indices_of(c.active@) == active
    &&& sorted_from(pieces::strings(c.cooled_down@), dims_of(gs, suppressed))
    &&& match c.observation {
        Some(o) => {
            &&& meaningful(gs, rs, active, cfg.min_dimensions, cfg.single_dimension_min_days)
            &&& indices_of(o.groups@) == spoken_of(gs, active)
            &&& sorted_from(pieces::strings(o.dimensions@), dims_of(gs, spoken_of(gs, active)))
        },
        None => !meaningful(gs, rs, active, cfg.min_dimensions, cfg.single_dimension_min_days),
    }
}

proof fn lemma_drifts_fit(gs: Seq<Group>, rs: Seq<Reading>, n: int)
    requires
        0 <= n <= gs.len(),
    ensures
        fit(drift_list(gs, rs, n), n),
    decreases n,
{
    if n > 0 {
        lemma_drifts_fit(gs, rs, n - 1);
        assert forall|i: int| 0 <= i < drift_list(gs, rs, n).len() implies 0
            <= #[trigger] drift_list(gs, rs, n)[i] < n by {
            if i < drift_list(gs, rs, n - 1).len() {
                assert(drift_list(gs, rs, n)[i] == drift_list(gs, rs, n - 1)[i]);
            }
        }
    }
}

proof fn lemma_cooldown_fits(
    gs: Seq<Group>,
    list: Seq<int>,
    existing: Seq<ExistingObservation>,
    since: int,
    down: bool,
    n: int,
)
    requires
        fit(list, n),
    ensures
        fit(by_cooldown(gs, list, existing, since, down), n),
    decreases list.len(),
{
    if list.len() > 0 {
        lemma_prefix_fits(list, n);
        lemma_cooldown_fits(gs, list.drop_last(), existing, since, down, n);
        lemma_push_fits(
            by_cooldown(gs, list.drop_last(), existing, since, down),
            list.last(),
            n,
        );
    }
}

proof fn lemma_prefix_fits(list: Seq<int>, n: int)
    requires
        fit(list, n),
        list.len() > 0,
    ensures
        fit(list.drop_last(), n),
        0 <= list.last() < n,
{
    assert forall|i: int| 0 <= i < list.drop_last().len() implies 0
        <= #[trigger] list.drop_last()[i] < n by {
        assert(list.drop_last()[i] == list[i]);
    }
}

pub proof fn lemma_push_fits(list: Seq<int>, x: int, n: int)
    requires
        fit(list, n),
        0 <= x < n,
    ensures
        fit(list.push(x), n),
{
    assert forall|i: int| 0 <= i < list.push(x).len() implies 0 <= #[trigger] list.push(x)[i]
        < n by {
        if i < list.len() {
            assert(list.push(x)[i] == list[i]);
        }
    }
}

proof fn lemma_class_fits(gs: Seq<Group>, list: Seq<int>, c: DayClass, n: int)
    requires
        fit(list, n),
    ensures
        fit(of_class(gs, list, c), n),
    decreases list.len(),
{
    if list.len() > 0 {
        lemma_prefix_fits(list, n);
        lemma_class_fits(gs, list.drop_last(), c, n);
        lemma_push_fits(of_class(gs, list.drop_last(), c), list.last(), n);
    }
}

fn find_drifts(groups: &Vec<Group>, readings: &Vec<Reading>) -> (r: Vec<usize>)
    requires
        groups@.len() == readings@.len(),
    ensures
        indices_of(r@) == drift_list(groups@, readings@, groups@.len() as int),
{
    let mut out: Vec<usize> = Vec::new();
    let mut i: usize = 0;
    assert(indices_of(out@) =~= drift_list(groups@, readings@, 0));
    while i < groups.len()
        invariant
            i <= groups.len(),
            groups@.len() == readings@.len(),
            indices_of(out@) == drift_list(groups@, readings@, i as int),
        decreases groups.len() - i,
    {
        let r = &readings[i];
        if groups[i].comparable && r.recent_beyond && r.short_beyond && r.same_side {
            let ghost o = out@;
            out.push(i);
            assert(indices_of(out@) =~= indices_of(o).push(i as int));
        }
        i += 1;
    }
    out
}

fn split_by_cooldown(
    groups: &Vec<Group>,
    list: &Vec<usize>,
    existing: &Vec<ExistingObservation>,
    since: i64,
    down: bool,
) -> (r: Vec<usize>)
    requires
        fit(indices_of(list@), groups@.len() as int),
    ensures
        indices_of(r@) == by_cooldown(
            groups@,
            indices_of(list@),
            existing@,
            since as int,
            down,
        ),
{
    let ghost all = indices_of(list@);
    let mut out: Vec<usize> = Vec::new();
    let mut i: usize = 0;
    assert(all.take(0) =~= Seq::empty());
    assert(indices_of(out@) =~= by_cooldown(groups@, all.take(0), existing@, since as int, down));
    while i < list.len()
        invariant
            i <= list.len(),
            all == indices_of(list@),
            fit(all, groups@.len() as int),
            indices_of(out@) == by_cooldown(
                groups@,
                all.take(i as int),
                existing@,
                since as int,
                down,
            ),
        decreases list.len() - i,
    {
        assert(all.take(i + 1).drop_last() =~= all.take(i as int));
        assert(all[i as int] == list@[i as int]);
        let g = list[i];
        if is_cooled(existing, since, groups[g].dimension.as_str()) == down {
            let ghost o = out@;
            out.push(g);
            assert(indices_of(out@) =~= indices_of(o).push(g as int));
        }
        i += 1;
    }
    assert(all.take(list.len() as int) =~= all);
    out
}

/// The dimensions of the groups in `list`, each once, in ascending order.
fn distinct_dimensions(groups: &Vec<Group>, list: &Vec<usize>) -> (r: Vec<String>)
    requires
        fit(indices_of(list@), groups@.len() as int),
    ensures
        sorted_from(pieces::strings(r@), dims_of(groups@, indices_of(list@))),
        r@.len() == dims_of(groups@, indices_of(list@)).to_set().len(),
{
    let ghost all = indices_of(list@);
    let ghost dims = dims_of(groups@, all);
    let mut keys: Vec<Key> = Vec::new();
    let mut i: usize = 0;
    while i < list.len()
        invariant
            i <= list.len(),
            all == indices_of(list@),
            dims == dims_of(groups@, all),
            fit(all, groups@.len() as int),
            order::ascending(order::keys_of(keys@)),
            forall|k: KeyView| #[trigger]
                order::keys_of(keys@).contains(k) <==> k.number == 0 && dims.take(
                    i as int,
                ).contains(k.text),
        decreases list.len() - i,
    {
        assert(all[i as int] == list@[i as int]);
        let key = Key { text: chars::chars_of(groups[list[i]].dimension.as_str()), number: 0 };
        let ghost x = key@;
        assert(x.text == dims[i as int]);
        let ghost before = order::keys_of(keys@);
        order::insert_key(&mut keys, key);
        assert forall|k: KeyView| #[trigger]
            order::keys_of(keys@).contains(k) <==> k.number == 0 && dims.take(i + 1).contains(
                k.text,
            ) by {
            assert(dims.take(i + 1) =~= dims.take(i as int).push(dims[i as int]));
            lemma_push_contains(dims.take(i as int), dims[i as int], k.text);
            assert(before.contains(k) <==> k.number == 0 && dims.take(i as int).contains(k.text));
            if k.number == 0 && k.text == x.text {
                assert(k == x);
            }
        }
        i += 1;
    }
    assert(dims.take(list.len() as int) =~= dims);
    let ghost ks = order::keys_of(keys@);
    let mut out: Vec<String> = Vec::new();
    let mut j: usize = 0;
    while j < keys.len()
        invariant
            j <= keys.len(),
            ks == order::keys_of(keys@),
            pieces::strings(out@) == ks.take(j as int).map_values(|k: KeyView| k.text),
        decreases keys.len() - j,
    {
        let t = chars::text_of(&keys[j].text);
        assert(ks[j as int].text == t@);
        let ghost o = out@;
        out.push(t);
        assert(pieces::strings(out@) =~= pieces::strings(o).push(t@));
        assert(ks.take(j + 1).map_values(|k: KeyView| k.text) =~= ks.take(j as int).map_values(
            |k: KeyView| k.text,
        ).push(t@));
        j += 1;
    }
    proof {
        assert(ks.take(keys.len() as int) =~= ks);
        let ts = pieces::strings(out@);
        assert(ts.len() == ks.len());
        assert forall|a: int| 0 <= a < ts.len() implies ks[a] == (KeyView {
            text: #[trigger] ts[a],
            number: 0,
        }) by {
            assert(ks.contains(ks[a]));
        }
        assert forall|a: int, b: int| 0 <= a < b < ts.len() implies order::before(
            #[trigger] ts[a],
            #[trigger] ts[b],
        ) by {
            assert(order::key_before(ks[a], ks[b]));
        }
        assert forall|x: Seq<char>| #[trigger] ts.contains(x) <==> dims.contains(x) by {
            let k = KeyView { text: x, number: 0 };
            assert(ks.contains(k) <==> dims.contains(x));
            if ts.contains(x) {
                let a = choose|a: int| 0 <= a < ts.len() && ts[a] == x;
                assert(ks[a] == k);
            }
            if ks.contains(k) {
                let a = choose|a: int| 0 <= a < ks.len() && ks[a] == k;
                assert(ts[a] == x);
            }
        }
        lemma_sorted_len(ts, dims);
    }
    out
}

proof fn lemma_sorted_len(out: Seq<Seq<char>>, list: Seq<Seq<char>>)
    requires
        sorted_from(out, list),
    ensures
        out.len() == list.to_set().len(),
{
    assert(out.no_duplicates()) by {
        assert forall|i: int, j: int|
            0 <= i < out.len() && 0 <= j < out.len() && i != j implies out[i] != out[j] by {
            order::lemma_irreflexive(out[i]);
            if i < j {
                assert(order::before(out[i], out[j]));
            } else {
                assert(order::before(out[j], out[i]));
            }
        }
    }
    out.unique_seq_to_set();
    assert(out.to_set() =~= list.to_set()) by {
        assert forall|x: Seq<char>| out.to_set().contains(x) <==> list.to_set().contains(x) by {
            assert(out.contains(x) <==> list.contains(x));
        }
    }
}

fn enough_days(readings: &Vec<Reading>, list: &Vec<usize>, least: usize) -> (r: bool)
    requires
        fit(indices_of(list@), readings@.len() as int),
    ensures
        r == exists|i: int|
            0 <= i < indices_of(list@).len() && readings@[#[trigger] indices_of(list@)[i]].days_beyond
                >= least,
{
    let ghost all = indices_of(list@);
    let mut i: usize = 0;
    while i < list.len()
        invariant
            i <= list.len(),
            all == indices_of(list@),
            fit(all, readings@.len() as int),
            forall|j: int| 0 <= j < i ==> readings@[#[trigger] all[j]].days_beyond < least,
        decreases list.len() - i,
    {
        assert(all[i as int] == list@[i as int]);
        if readings[list[i]].days_beyond >= least {
            return true;
        }
        i += 1;
    }
    false
}

fn push_class(groups: &Vec<Group>, list: &Vec<usize>, c: DayClass, out: &mut Vec<usize>)
    requires
        fit(indices_of(list@), groups@.len() as int),
    ensures
        indices_of(final(out)@) == indices_of(old(out)@) + of_class(
            groups@,
            indices_of(list@),
            c,
        ),
{
    let ghost all = indices_of(list@);
    let ghost before = indices_of(out@);
    let mut i: usize = 0;
    assert(all.take(0) =~= Seq::empty());
    assert(before + of_class(groups@, all.take(0), c) =~= before);
    while i < list.len()
        invariant
            i <= list.len(),
            all == indices_of(list@),
            fit(all, groups@.len() as int),
            indices_of(out@) == before + of_class(groups@, all.take(i as int), c),
        decreases list.len() - i,
    {
        assert(all.take(i + 1).drop_last() =~= all.take(i as int));
        assert(all[i as int] == list@[i as int]);
        let g = list[i];
        if groups[g].day_class == c {
            let ghost o = out@;
            out.push(g);
            assert(indices_of(out@) =~= indices_of(o).push(g as int));
        }
        assert(indices_of(out@) =~= before + of_class(groups@, all.take(i + 1), c));
        i += 1;
    }
    assert(all.take(list.len() as int) =~= all);
}

fn has_dimension(groups: &Vec<Group>, list: &Vec<usize>, d: &str) -> (r: bool)
    requires
        fit(indices_of(list@), groups@.len() as int),
    ensures
        r == dims_of(groups@, indices_of(list@)).contains(d@),
{
    let ghost dims = dims_of(groups@, indices_of(list@));
    let mut i: usize = 0;
    while i < list.len()
        invariant
            i <= list.len(),
            fit(indices_of(list@), groups@.len() as int),
            dims == dims_of(groups@, indices_of(list@)),
            forall|j: int| 0 <= j < i ==> dims[j] != d@,
        decreases list.len() - i,
    {
        assert(indices_of(list@)[i as int] == list@[i as int]);
        assert(dims[i as int] == groups@[list@[i as int] as int].dimension@);
        if chars::same(groups[list[i]].dimension.as_str(), d) {
            return true;
        }
        i += 1;
    }
    false
}

pub proof fn lemma_concat_fits(a: Seq<int>, b: Seq<int>, n: int)
    requires
        fit(a, n),
        fit(b, n),
    ensures
        fit(a + b, n),
{
    assert forall|i: int| 0 <= i < (a + b).len() implies 0 <= #[trigger] (a + b)[i] < n by {
        if i < a.len() {
            assert((a + b)[i] == a[i]);
        } else {
            assert((a + b)[i] == b[i - a.len()]);
        }
    }
}

/// The groups an observation speaks of.
fn choose_spoken(groups: &Vec<Group>, active: &Vec<usize>) -> (r: Vec<usize>)
    requires
        fit(indices_of(active@), groups@.len() as int),
    ensures
        indices_of(r@) == spoken_of(groups@, indices_of(active@)),
        fit(indices_of(r@), groups@.len() as int),
{
    let ghost n = groups@.len() as int;
    let mut ordered: Vec<usize> = Vec::new();
    assert(indices_of(ordered@) =~= Seq::empty());
    push_class(groups, active, DayClass::Weekday, &mut ordered);
    push_class(groups, active, DayClass::Weekend, &mut ordered);
    let ghost all = indices_of(ordered@);
    proof {
        assert(all =~= weekdays_first(groups@, indices_of(active@)));
        lemma_class_fits(groups@, indices_of(active@), DayClass::Weekday, n);
        lemma_class_fits(groups@, indices_of(active@), DayClass::Weekend, n);
        lemma_concat_fits(
            of_class(groups@, indices_of(active@), DayClass::Weekday),
            of_class(groups@, indices_of(active@), DayClass::Weekend),
            n,
        );
    }
    let mut out: Vec<usize> = Vec::new();
    let mut i: usize = 0;
    assert(all.take(0) =~= Seq::empty());
    assert(indices_of(out@) =~= first_by_dimension(groups@, all.take(0)));
    while i < ordered.len()
        invariant
            i <= ordered.len(),
            n == groups@.len(),
            all == indices_of(ordered@),
            fit(all, n),
            fit(indices_of(out@), n),
            indices_of(out@) == first_by_dimension(groups@, all.take(i as int)),
        decreases ordered.len() - i,
    {
        assert(all.take(i + 1).drop_last() =~= all.take(i as int));
        assert(all[i as int] == ordered@[i as int]);
        let g = ordered[i];
        if !has_dimension(groups, &out, groups[g].dimension.as_str()) {
            let ghost o = out@;
            out.push(g);
            assert(indices_of(out@) =~= indices_of(o).push(g as int));
            proof {
                lemma_push_fits(indices_of(o), g as int, n);
            }
        }
        i += 1;
    }
    assert(all.take(ordered.len() as int) =~= all);
    if out.len() > 3 {
        let ghost o = out@;
        out.truncate(3);
        assert(indices_of(out@) =~= indices_of(o).take(3));
        assert forall|k: int| 0 <= k < indices_of(out@).len() implies 0
            <= #[trigger] indices_of(out@)[k] < n by {
            assert(indices_of(out@)[k] == indices_of(o)[k]);
        }
    }
    out
}

/// What is concluded on day `as_of`: the cooldown reaches back from it.
pub open spec fn concluded(
    gs: Seq<Group>,
    rs: Seq<Reading>,
    existing: Seq<ExistingObservation>,
    as_of: int,
    cfg: Config,
    c: Conclusion,
) -> bool {
    conclusion_is(gs, rs, existing, as_of - cfg.cooldown_days, cfg, c)
}

/// Decide what the readings of the groups mean: which dimensions have drifted, which of them the
/// cooldown suppresses, and whether what is left is worth one observation.
pub fn conclude(
    groups: &Vec<Group>,
    readings: &Vec<Reading>,
    existing: &Vec<ExistingObservation>,
    as_of: Date,
    cfg: &Config,
) -> (r: Conclusion)
    requires
        groups@.len() == readings@.len(),
        cooldown_fits(as_of.number as int, *cfg),
    ensures
        concluded(groups@, readings@, existing@, as_of.number as int, *cfg, r),
{
    proof {
        lemma_calendar_is_small(as_of.number as int);
        lemma_calendar_is_small(as_of.number - cfg.cooldown_days);
    }
    let since: i64 = as_of.number as i64 - cfg.cooldown_days;
    let ghost n = groups@.len() as int;
    let drifts = find_drifts(groups, readings);
    proof {
        lemma_drifts_fit(groups@, readings@, n);
        lemma_cooldown_fits(groups@, indices_of(drifts@), existing@, since as int, false, n);
        lemma_cooldown_fits(groups@, indices_of(drifts@), existing@, since as int, true, n);
    }
    let active = split_by_cooldown(groups, &drifts, existing, since, false);
    let suppressed = split_by_cooldown(groups, &drifts, existing, since, true);
    let cooled_down = distinct_dimensions(groups, &suppressed);
    let dimensions = distinct_dimensions(groups, &active);
    let worth = dimensions.len() >= cfg.min_dimensions || enough_days(
        readings,
        &active,
        cfg.single_dimension_min_days,
    );
    let observation = if worth {
        let spoken = choose_spoken(groups, &active);
        let dims = distinct_dimensions(groups, &spoken);
        Some(Spoken { groups: spoken, dimensions: dims })
    } else {
        None
    };
    Conclusion { drifts, active, cooled_down, observation }
}

// ---- laws ----

/// The indices of `list` ascend.
pub open spec fn ascends(list: Seq<int>) -> bool {
    forall|i: int, j: int| 0 <= i < j < list.len() ==> #[trigger] list[i] < #[trigger] list[j]
}

proof fn lemma_drifts_ascend(gs: Seq<Group>, rs: Seq<Reading>, n: int)
    requires
        0 <= n <= gs.len(),
    ensures
        ascends(drift_list(gs, rs, n)),
    decreases n,
{
    if n > 0 {
        lemma_drifts_ascend(gs, rs, n - 1);
        lemma_drifts_fit(gs, rs, n - 1);
        let a = drift_list(gs, rs, n - 1);
        let b = drift_list(gs, rs, n);
        assert forall|i: int, j: int| 0 <= i < j < b.len() implies #[trigger] b[i]
            < #[trigger] b[j] by {
            assert(b[i] == a[i]);
            if j < a.len() {
                assert(b[j] == a[j]);
            }
        }
    }
}

proof fn lemma_cooldown_ascends(
    gs: Seq<Group>,
    list: Seq<int>,
    existing: Seq<ExistingObservation>,
    since: int,
    down: bool,
)
    requires
        ascends(list),
    ensures
        ascends(by_cooldown(gs, list, existing, since, down)),
        forall|i: int|
            0 <= i < by_cooldown(gs, list, existing, since, down).len() ==> list.contains(
                #[trigger] by_cooldown(gs, list, existing, since, down)[i],
            ) && cooled(
                existing,
                since,
                gs[by_cooldown(gs, list, existing, since, down)[i]].dimension@,
            ) == down,
    decreases list.len(),
{
    if list.len() > 0 {
        let init = list.drop_last();
        assert(ascends(init)) by {
            assert forall|i: int, j: int| 0 <= i < j < init.len() implies #[trigger] init[i]
                < #[trigger] init[j] by {
                assert(init[i] == list[i] && init[j] == list[j]);
            }
        }
        lemma_cooldown_ascends(gs, init, existing, since, down);
        let a = by_cooldown(gs, init, existing, since, down);
        let b = by_cooldown(gs, list, existing, since, down);
        assert(list[list.len() - 1] == list.last());
        assert forall|i: int| 0 <= i < b.len() implies list.contains(#[trigger] b[i]) && cooled(
            existing,
            since,
            gs[b[i]].dimension@,
        ) == down by {
            if i < a.len() {
                assert(b[i] == a[i]);
                let k = choose|k: int| 0 <= k < init.len() && init[k] == a[i];
                assert(list[k] == b[i]);
            }
        }
        assert forall|i: int, j: int| 0 <= i < j < b.len() implies #[trigger] b[i]
            < #[trigger] b[j] by {
            assert(b[i] == a[i]);
            if j < a.len() {
                assert(b[j] == a[j]);
            } else {
                assert(init.contains(a[i]));
                let k = choose|k: int| 0 <= k < init.len() && init[k] == a[i];
                assert(list[k] < list[list.len() - 1]);
            }
        }
    }
}

/// The drifts, and those among them that are active or suppressed, come in the order of the groups,
/// each once.
pub proof fn law_drifts_come_in_order(
    gs: Seq<Group>,
    rs: Seq<Reading>,
    existing: Seq<ExistingObservation>,
    since: int,
)
    ensures
        ascends(drift_list(gs, rs, gs.len() as int)),
        forall|down: bool|
            ascends(
                #[trigger] by_cooldown(
                    gs,
                    drift_list(gs, rs, gs.len() as int),
                    existing,
                    since,
                    down,
                ),
            ),
{
    let drifts = drift_list(gs, rs, gs.len() as int);
    lemma_drifts_ascend(gs, rs, gs.len() as int);
    assert forall|down: bool| ascends(
        #[trigger] by_cooldown(gs, drifts, existing, since, down),
    ) by {
        lemma_cooldown_ascends(gs, drifts, existing, since, down);
    }
}

/// A group is active exactly where it has drifted and is not cooled down, and suppressed exactly
/// where it has drifted and is.
pub proof fn law_active_groups_have_drifted(
    gs: Seq<Group>,
    rs: Seq<Reading>,
    existing: Seq<ExistingObservation>,
    since: int,
    g: int,
)
    ensures
        ({
            let drifts = drift_list(gs, rs, gs.len() as int);
            let drifted = 0 <= g < gs.len() && is_drift(gs[g], rs[g]);
            let down = cooled(existing, since, gs[g].dimension@);
            &&& drifts.contains(g) <==> drifted
            &&& by_cooldown(gs, drifts, existing, since, false).contains(g) <==> drifted && !down
            &&& by_cooldown(gs, drifts, existing, since, true).contains(g) <==> drifted && down
        }),
{
    let n = gs.len() as int;
    lemma_drifts_are(gs, rs, n, g);
    lemma_cooldown_splits(gs, drift_list(gs, rs, n), existing, since, false, g);
    lemma_cooldown_splits(gs, drift_list(gs, rs, n), existing, since, true, g);
}

proof fn lemma_drifts_are(gs: Seq<Group>, rs: Seq<Reading>, n: int, g: int)
    ensures
        drift_list(gs, rs, n).contains(g) <==> 0 <= g < n && is_drift(gs[g], rs[g]),
    decreases n,
{
    if n > 0 {
        lemma_drifts_are(gs, rs, n - 1, g);
        lemma_push_contains(drift_list(gs, rs, n - 1), n - 1, g);
    }
}

proof fn lemma_cooldown_splits(
    gs: Seq<Group>,
    list: Seq<int>,
    existing: Seq<ExistingObservation>,
    since: int,
    down: bool,
    g: int,
)
    ensures
        by_cooldown(gs, list, existing, since, down).contains(g) <==> list.contains(g) && cooled(
            existing,
            since,
            gs[g].dimension@,
        ) == down,
    decreases list.len(),
{
    if list.len() > 0 {
        let init = list.drop_last();
        lemma_cooldown_splits(gs, init, existing, since, down, g);
        lemma_push_contains(by_cooldown(gs, init, existing, since, down), list.last(), g);
        lemma_push_contains(init, list.last(), g);
        assert(list =~= init.push(list.last()));
    }
}

/// While every drifting dimension is cooled down, nothing is left to speak of, and there is no
/// observation where one needs a dimension.
pub proof fn law_cooldown_suppresses(
    gs: Seq<Group>,
    rs: Seq<Reading>,
    existing: Seq<ExistingObservation>,
    since: int,
    cfg: Config,
    c: Conclusion,
)
    requires
        conclusion_is(gs, rs, existing, since, cfg, c),
        forall|g: int|
            0 <= g < gs.len() && is_drift(#[trigger] gs[g], rs[g]) ==> cooled(
                existing,
                since,
                gs[g].dimension@,
            ),
    ensures
        c.active@.len() == 0,
        cfg.min_dimensions > 0 ==> c.observation is None,
{
    let n = gs.len() as int;
    let drifts = drift_list(gs, rs, n);
    let active = by_cooldown(gs, drifts, existing, since, false);
    if active.len() > 0 {
        law_active_groups_have_drifted(gs, rs, existing, since, active[0]);
        assert(active.contains(active[0]));
        assert(is_drift(gs[active[0]], rs[active[0]]));
    }
    assert(dims_of(gs, active) =~= Seq::empty());
    assert(dims_of(gs, active).to_set() =~= Set::empty());
    assert(indices_of(c.active@).len() == c.active@.len());
}

/// An observation speaks of at most three groups, of three distinct dimensions.
pub proof fn law_an_observation_speaks_once_of_a_dimension(gs: Seq<Group>, active: Seq<int>)
    ensures
        spoken_of(gs, active).len() <= 3,
        forall|i: int, j: int|
            0 <= i < j < spoken_of(gs, active).len() ==> gs[#[trigger] spoken_of(
                gs,
                active,
            )[i]].dimension@ != gs[#[trigger] spoken_of(gs, active)[j]].dimension@,
{
    let list = first_by_dimension(gs, weekdays_first(gs, active));
    lemma_first_by_dimension(gs, weekdays_first(gs, active));
    let r = spoken_of(gs, active);
    assert forall|i: int, j: int| 0 <= i < j < r.len() implies gs[#[trigger] r[i]].dimension@
        != gs[#[trigger] r[j]].dimension@ by {
        assert(r[i] == list[i] && r[j] == list[j]);
    }
}

proof fn lemma_first_by_dimension(gs: Seq<Group>, list: Seq<int>)
    ensures
        forall|i: int, j: int|
            0 <= i < j < first_by_dimension(gs, list).len()
                ==> gs[#[trigger] first_by_dimension(gs, list)[i]].dimension@
                != gs[#[trigger] first_by_dimension(gs, list)[j]].dimension@,
    decreases list.len(),
{
    if list.len() > 0 {
        let init = list.drop_last();
        lemma_first_by_dimension(gs, init);
        let a = first_by_dimension(gs, init);
        let b = first_by_dimension(gs, list);
        assert forall|i: int, j: int| 0 <= i < j < b.len() implies gs[#[trigger] b[i]].dimension@
            != gs[#[trigger] b[j]].dimension@ by {
            assert(b[i] == a[i]);
            if j < a.len() {
                assert(b[j] == a[j]);
            } else {
                assert(dims_of(gs, a)[i] == gs[a[i]].dimension@);
            }
        }
    }
}

proof fn lemma_class_ascends(gs: Seq<Group>, list: Seq<int>, c: DayClass)
    requires
        ascends(list),
    ensures
        ascends(of_class(gs, list, c)),
        forall|i: int|
            0 <= i < of_class(gs, list, c).len() ==> list.contains(
                #[trigger] of_class(gs, list, c)[i],
            ) && gs[of_class(gs, list, c)[i]].day_class == c,
    decreases list.len(),
{
    if list.len() > 0 {
        let init = list.drop_last();
        assert(ascends(init)) by {
            assert forall|i: int, j: int| 0 <= i < j < init.len() implies #[trigger] init[i]
                < #[trigger] init[j] by {
                assert(init[i] == list[i] && init[j] == list[j]);
            }
        }
        lemma_class_ascends(gs, init, c);
        let a = of_class(gs, init, c);
        let b = of_class(gs, list, c);
        assert(list[list.len() - 1] == list.last());
        assert forall|i: int| 0 <= i < b.len() implies list.contains(#[trigger] b[i])
            && gs[b[i]].day_class == c by {
            if i < a.len() {
                assert(b[i] == a[i]);
                let k = choose|k: int| 0 <= k < init.len() && init[k] == a[i];
                assert(list[k] == b[i]);
            }
        }
        assert forall|i: int, j: int| 0 <= i < j < b.len() implies #[trigger] b[i]
            < #[trigger] b[j] by {
            assert(b[i] == a[i]);
            if j < a.len() {
                assert(b[j] == a[j]);
            } else {
                assert(init.contains(a[i]));
                let k = choose|k: int| 0 <= k < init.len() && init[k] == a[i];
                assert(list[k] < list[list.len() - 1]);
            }
        }
    }
}

/// Group `a` comes before group `b` in an observation: by the class of days, then by dimension.
pub open spec fn comes_before(gs: Seq<Group>, a: int, b: int) -> bool {
    gs[a].day_class.rank() < gs[b].day_class.rank() || (gs[a].day_class == gs[b].day_class
        && order::before(gs[a].dimension@, gs[b].dimension@))
}

proof fn lemma_weekdays_first(gs: Seq<Group>, active: Seq<int>, i: int, j: int)
    requires
        order::ascending(group_keys(gs)),
        ascends(active),
        fit(active, gs.len() as int),
        0 <= i < j < weekdays_first(gs, active).len(),
    ensures
        comes_before(gs, weekdays_first(gs, active)[i], weekdays_first(gs, active)[j]),
{
    let n = gs.len() as int;
    let x = of_class(gs, active, DayClass::Weekday);
    let y = of_class(gs, active, DayClass::Weekend);
    lemma_class_ascends(gs, active, DayClass::Weekday);
    lemma_class_ascends(gs, active, DayClass::Weekend);
    lemma_class_fits(gs, active, DayClass::Weekday, n);
    lemma_class_fits(gs, active, DayClass::Weekend, n);
    let all = weekdays_first(gs, active);
    if i < x.len() {
        assert(all[i] == x[i]);
    } else {
        assert(all[i] == y[i - x.len()]);
    }
    if j < x.len() {
        assert(all[j] == x[j]);
    } else {
        assert(all[j] == y[j - x.len()]);
    }
    let a = all[i];
    let b = all[j];
    if gs[a].day_class == gs[b].day_class {
        assert(a < b);
        assert(order::key_before(group_keys(gs)[a], group_keys(gs)[b]));
    }
}

proof fn lemma_first_by_dimension_keeps_order(gs: Seq<Group>, list: Seq<int>)
    requires
        forall|i: int, j: int|
            0 <= i < j < list.len() ==> comes_before(gs, #[trigger] list[i], #[trigger] list[j]),
    ensures
        forall|i: int, j: int|
            0 <= i < j < first_by_dimension(gs, list).len() ==> comes_before(
                gs,
                #[trigger] first_by_dimension(gs, list)[i],
                #[trigger] first_by_dimension(gs, list)[j],
            ),
        forall|i: int|
            0 <= i < first_by_dimension(gs, list).len() ==> list.contains(
                #[trigger] first_by_dimension(gs, list)[i],
            ),
    decreases list.len(),
{
    if list.len() > 0 {
        let init = list.drop_last();
        let x = list.last();
        assert(list[list.len() - 1] == x);
        assert forall|i: int| 0 <= i < init.len() implies #[trigger] init[i] == list[i] by {}
        lemma_first_by_dimension_keeps_order(gs, init);
        let a = first_by_dimension(gs, init);
        let b = first_by_dimension(gs, list);
        assert forall|i: int| 0 <= i < a.len() implies list.contains(#[trigger] a[i])
            && comes_before(gs, a[i], x) by {
            let k = choose|k: int| 0 <= k < init.len() && init[k] == a[i];
            assert(list[k] == a[i]);
            assert(comes_before(gs, list[k], list[list.len() - 1]));
        }
        assert forall|i: int| 0 <= i < b.len() implies list.contains(#[trigger] b[i]) by {
            if i < a.len() {
                assert(b[i] == a[i]);
            }
        }
        assert forall|i: int, j: int| 0 <= i < j < b.len() implies comes_before(
            gs,
            #[trigger] b[i],
            #[trigger] b[j],
        ) by {
            assert(b[i] == a[i]);
            if j < a.len() {
                assert(b[j] == a[j]);
            }
        }
    }
}

/// An observation speaks of weekdays first, then of weekends, and by dimension within each; of
/// three groups at most.
pub proof fn law_weekdays_come_first(
    gs: Seq<Group>,
    rs: Seq<Reading>,
    existing: Seq<ExistingObservation>,
    since: int,
)
    requires
        order::ascending(group_keys(gs)),
    ensures
        ({
            let drifts = drift_list(gs, rs, gs.len() as int);
            let spoken = spoken_of(gs, by_cooldown(gs, drifts, existing, since, false));
            &&& spoken.len() <= 3
            &&& forall|i: int, j: int|
                0 <= i < j < spoken.len() ==> comes_before(
                    gs,
                    #[trigger] spoken[i],
                    #[trigger] spoken[j],
                )
        }),
{
    let n = gs.len() as int;
    let drifts = drift_list(gs, rs, n);
    let active = by_cooldown(gs, drifts, existing, since, false);
    lemma_drifts_fit(gs, rs, n);
    lemma_cooldown_fits(gs, drifts, existing, since, false, n);
    law_drifts_come_in_order(gs, rs, existing, since);
    let list = weekdays_first(gs, active);
    assert forall|i: int, j: int| 0 <= i < j < list.len() implies comes_before(
        gs,
        #[trigger] list[i],
        #[trigger] list[j],
    ) by {
        lemma_weekdays_first(gs, active, i, j);
    }
    lemma_first_by_dimension_keeps_order(gs, list);
    let first = first_by_dimension(gs, list);
    let spoken = spoken_of(gs, active);
    assert forall|i: int| 0 <= i < spoken.len() implies #[trigger] spoken[i] == first[i] by {}
}

// ---- words ----

/// Truncating division, as integers divide.
pub open spec fn truncated(n: int, d: int) -> int {
    if n >= 0 {
        n / d
    } else {
        -((-n) / d)
    }
}

/// `HH:MM` of a number of minutes since midnight, around the clock.
pub open spec fn clock_of(total: int) -> Seq<char> {
    number::two_digits((truncated(total, 60) % 24) as nat) + ":"@ + number::two_digits(
        (total % 60) as nat,
    )
}

fn wrapped(n: i128, d: i128) -> (r: u64)
    requires
        0 < d < 1000,
        -100_000_000_000_000_000_000 < n < 100_000_000_000_000_000_000,
    ensures
        r == (n as int) % (d as int),
{
    if n >= 0 {
        (n % d) as u64
    } else {
        let m: i128 = (-n) % d;
        proof {
            vstd::arithmetic::div_mod::lemma_fundamental_div_mod(-(n as int), d as int);
            let q = (-(n as int)) / (d as int);
            if m == 0 {
                assert(n == d * (-q)) by (nonlinear_arith)
                    requires
                        -(n as int) == d * q + m,
                        m == 0,
                ;
                vstd::arithmetic::div_mod::lemma_fundamental_div_mod_converse(
                    n as int,
                    d as int,
                    -q,
                    0,
                );
            } else {
                assert(n == d * (-q - 1) + (d - m)) by (nonlinear_arith)
                    requires
                        -(n as int) == d * q + m,
                ;
                vstd::arithmetic::div_mod::lemma_fundamental_div_mod_converse(
                    n as int,
                    d as int,
                    -q - 1,
                    d - m,
                );
            }
        }
        if m == 0 {
            0
        } else {
            (d - m) as u64
        }
    }
}

/// Minutes since midnight → `HH:MM`.
pub fn clock(total: i64) -> (r: String)
    ensures
        r@ == clock_of(total as int),
{
    let n: i128 = total as i128;
    let hours: i128 = if n >= 0 {
        n / 60
    } else {
        -((-n) / 60)
    };
    let mut s = chars::text_of(&number::padded(wrapped(hours, 24)));
    s.append(":");
    let m = chars::text_of(&number::padded(wrapped(n, 60)));
    s.append(m.as_str());
    s
}

pub open spec fn period_of(days: int) -> Seq<char> {
    if days == 7 {
        "week"@
    } else if days == 14 {
        "two weeks"@
    } else if days % 7 == 0 {
        number::integer(days / 7) + " weeks"@
    } else {
        number::integer(days) + " days"@
    }
}

/// A number of days in words.
pub fn period_phrase(days: i64) -> (r: String)
    ensures
        r@ == period_of(days as int),
{
    if days == 7 {
        "week".to_string()
    } else if days == 14 {
        "two weeks".to_string()
    } else {
        let rest = wrapped(days as i128, 7);
        if rest == 0 {
            let q: i64 = if days >= 0 {
                days / 7
            } else {
                (-((-(days as i128)) / 7)) as i64
            };
            proof {
                vstd::arithmetic::div_mod::lemma_fundamental_div_mod(days as int, 7);
                if days < 0 {
                    vstd::arithmetic::div_mod::lemma_fundamental_div_mod(-(days as int), 7);
                }
            }
            assert(q == (days as int) / 7);
            let mut s = number::integer_text(q);
            s.append(" weeks");
            s
        } else {
            let mut s = number::integer_text(days);
            s.append(" days");
            s
        }
    }
}

/// How the values of a dimension are written.
#[derive(Clone, Copy, Debug, PartialEq, Eq, Structural)]
pub enum Form {
    /// `HH:MM` of hours since midnight.
    Clock,
    /// Minutes as hours, with one decimal.
    Hours,
    /// Without decimals.
    Whole,
    /// With one decimal.
    Tenths,
}

pub open spec fn form_of(d: Seq<char>) -> Form {
    if d == dim::WORK_END@ || d == dim::WORK_START@ {
        Form::Clock
    } else if d == dim::WORK_MINUTES@ {
        Form::Hours
    } else if d == dim::READING_MINUTES@ {
        Form::Whole
    } else {
        Form::Tenths
    }
}

pub fn form(dimension: &str) -> (r: Form)
    ensures
        r == form_of(dimension@),
{
    if chars::same(dimension, dim::WORK_END) || chars::same(dimension, dim::WORK_START) {
        Form::Clock
    } else if chars::same(dimension, dim::WORK_MINUTES) {
        Form::Hours
    } else if chars::same(dimension, dim::READING_MINUTES) {
        Form::Whole
    } else {
        Form::Tenths
    }
}

/// What stands before and behind the recent value.
pub open spec fn frame(d: Seq<char>) -> (Seq<char>, Seq<char>) {
    if d == dim::WORK_END@ {
        ("your work day ended around "@, " "@)
    } else if d == dim::WORK_START@ {
        ("your work day started around "@, " "@)
    } else if d == dim::WORK_MINUTES@ {
        ("you worked about "@, " hours a day "@)
    } else if d == dim::READING_MINUTES@ {
        ("you read about "@, " minutes a day "@)
    } else if d == dim::READING_SESSIONS@ {
        ("you read "@, " times a day "@)
    } else if d == dim::COMMS_FAMILY_VOLUME@ {
        ("you exchanged about "@, " family messages a day "@)
    } else if d == dim::COMMS_WORK_VOLUME@ {
        ("you handled about "@, " work messages a day "@)
    } else if d == dim::TASKS_POSTPONED@ {
        ("you postponed about "@, " personal tasks a day "@)
    } else if d == dim::EXERCISE_SESSIONS@ {
        ("you exercised "@, " times a day "@)
    } else if d == dim::SLEEP_HOURS@ {
        ("you slept about "@, " hours "@)
    } else {
        (d + " was "@, " "@)
    }
}

/// The number, the class of days, the baseline. No verdict.
pub open spec fn sentence(d: Seq<char>, c: DayClass, recent: Seq<char>, usual: Seq<char>) -> Seq<
    char,
> {
    frame(d).0 + recent + frame(d).1 + c.words() + "; your usual is "@ + usual
}

fn frame_of(d: &str) -> (r: (String, &'static str))
    ensures
        (r.0@, r.1@) == frame(d@),
{
    if chars::same(d, dim::WORK_END) {
        ("your work day ended around ".to_string(), " ")
    } else if chars::same(d, dim::WORK_START) {
        ("your work day started around ".to_string(), " ")
    } else if chars::same(d, dim::WORK_MINUTES) {
        ("you worked about ".to_string(), " hours a day ")
    } else if chars::same(d, dim::READING_MINUTES) {
        ("you read about ".to_string(), " minutes a day ")
    } else if chars::same(d, dim::READING_SESSIONS) {
        ("you read ".to_string(), " times a day ")
    } else if chars::same(d, dim::COMMS_FAMILY_VOLUME) {
        ("you exchanged about ".to_string(), " family messages a day ")
    } else if chars::same(d, dim::COMMS_WORK_VOLUME) {
        ("you handled about ".to_string(), " work messages a day ")
    } else if chars::same(d, dim::TASKS_POSTPONED) {
        ("you postponed about ".to_string(), " personal tasks a day ")
    } else if chars::same(d, dim::EXERCISE_SESSIONS) {
        ("you exercised ".to_string(), " times a day ")
    } else if chars::same(d, dim::SLEEP_HOURS) {
        ("you slept about ".to_string(), " hours ")
    } else {
        let mut s = d.to_string();
        s.append(" was ");
        (s, " ")
    }
}

/// Neutral statement of one drifted dimension, from its values written in its [`form`].
pub fn phrase(dimension: &str, day_class: DayClass, recent: &str, usual: &str) -> (r: String)
    ensures
        r@ == sentence(dimension@, day_class, recent@, usual@),
{
    let (mut s, unit) = frame_of(dimension);
    s.append(recent);
    s.append(unit);
    s.append(day_class.phrase());
    s.append("; your usual is ");
    s.append(usual);
    s
}

/// The sentences, each but the first with a capital.
pub open spec fn strung(sentences: Seq<Seq<char>>) -> Seq<char>
    decreases sentences.len(),
{
    if sentences.len() == 0 {
        Seq::empty()
    } else if sentences.len() == 1 {
        sentences[0]
    } else {
        strung(sentences.drop_last()) + ". "@ + pieces::capital(sentences.last())
    }
}

/// The text of an observation over the last `days` days.
pub open spec fn observation_text_of(days: int, sentences: Seq<Seq<char>>) -> Seq<char> {
    "Over the last "@ + period_of(days) + ", "@ + strung(sentences) + "."@
}

/// One observation of all that is spoken of, in neutral language.
pub fn observation_text(days: i64, sentences: &Vec<String>) -> (r: String)
    ensures
        r@ == observation_text_of(days as int, pieces::strings(sentences@)),
{
    let ghost all = pieces::strings(sentences@);
    let mut s = "Over the last ".to_string();
    let period = period_phrase(days);
    s.append(period.as_str());
    s.append(", ");
    let ghost head = s@;
    let mut i: usize = 0;
    assert(all.take(0) =~= Seq::empty());
    assert(head + strung(all.take(0)) =~= head);
    while i < sentences.len()
        invariant
            i <= sentences.len(),
            all == pieces::strings(sentences@),
            s@ == head + strung(all.take(i as int)),
        decreases sentences.len() - i,
    {
        assert(all.take(i + 1).drop_last() =~= all.take(i as int));
        assert(all.take(i + 1).last() == sentences@[i as int]@);
        let ghost before = s@;
        if i == 0 {
            s.append(sentences[i].as_str());
            assert(s@ =~= head + strung(all.take(1)));
        } else {
            s.append(". ");
            let c = chars::text_of(&pieces::capitalized(&chars::chars_of(sentences[i].as_str())));
            s.append(c.as_str());
            assert(s@ =~= head + strung(all.take(i + 1)));
        }
        i += 1;
    }
    assert(all.take(sentences.len() as int) =~= all);
    s.append(".");
    s
}

/// The offer that goes with an observation.
pub fn offer() -> (r: &'static str)
    ensures
        r@ == "Would you like me to help you review what's changed?"@,
{
    "Would you like me to help you review what's changed?"
}

} // verus!