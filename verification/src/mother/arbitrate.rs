//! Arbitration: after synthesis and before anything reaches the user, duplicate proposals
//! collapse into one, and a work commitment that overlaps a home commitment or the user's
//! protected time becomes one neutral question.

pub mod laws;

use vstd::prelude::*;

use crate::domain::Domain;
use crate::domain::Mode;
use crate::memory::item;
use crate::memory::item::ItemView;
use crate::memory::item::Kind;
use crate::memory::item::MemoryItem;
use crate::mother::synth;
use crate::mother::synth::ActionView;
use crate::mother::synth::SuggestedAction;
use crate::mother::synth::Synthesis;
use crate::text::chars;
use crate::text::chars::Class;
use crate::text::number;
use crate::text::pieces;
use crate::text::scan;

verus! {

/// Minutes of the day.
#[derive(Clone, Copy, Debug, PartialEq, Eq, Structural)]
pub struct Window {
    pub start: u32,
    pub end: u32,
}

/// `HH:MM` of a minute of the day.
pub open spec fn clock_label(m: nat) -> Seq<char> {
    number::two_digits(m / 60) + ":"@ + number::two_digits(m % 60)
}

pub open spec fn window_label(w: Window) -> Seq<char> {
    clock_label(w.start as nat) + "–"@ + clock_label(w.end as nat)
}

/// Two windows share a minute.
pub open spec fn overlap(a: Window, b: Window) -> bool {
    a.start < b.end && b.start < a.end
}

fn clock_text(m: u32) -> (r: String)
    ensures
        r@ == clock_label(m as nat),
{
    let h = number::padded((m / 60) as u64);
    let mut s = chars::text_of(&h);
    s.append(":");
    let t = chars::text_of(&number::padded((m % 60) as u64));
    s.append(t.as_str());
    s
}

impl Window {
    pub fn overlaps(&self, other: &Window) -> (r: bool)
        ensures
            r == overlap(*self, *other),
    {
        self.start < other.end && other.start < self.end
    }

    pub fn label(&self) -> (r: String)
        ensures
            r@ == window_label(*self),
    {
        let mut s = clock_text(self.start);
        s.append("–");
        let e = clock_text(self.end);
        s.append(e.as_str());
        s
    }
}

// ---- reading a time ----

/// The text of a clock without its meridiem, and the meridiem: `Some(true)` for pm.
pub open spec fn meridiem(t: Seq<char>) -> (Seq<char>, Option<bool>) {
    match scan::before(t, "pm"@) {
        Some(b) => (scan::trimmed(b), Some(true)),
        None => match scan::before(t, "am"@) {
            Some(b) => (scan::trimmed(b), Some(false)),
            None => (t, None),
        },
    }
}

/// The hour and the minute that a clock text spells.
pub open spec fn hour_minute(body: Seq<char>) -> Option<(u32, u32)> {
    match scan::cut_by(body, Class::Two(':', '.')) {
        Some((h, m)) => match (number::number(h), number::number(m)) {
            (Some(h), Some(m)) => Some((h, m)),
            _ => None,
        },
        None => match number::number(body) {
            Some(h) => Some((h, 0)),
            None => None,
        },
    }
}

/// The hour of the day that an hour with a meridiem means.
pub open spec fn hour_of_day(h: u32, pm: Option<bool>) -> int {
    match pm {
        Some(true) => if h < 12 {
            h + 12
        } else {
            h as int
        },
        Some(false) => if h == 12 {
            0
        } else {
            h as int
        },
        None => h as int,
    }
}

/// The minute of the day that a trimmed lower-case clock text names.
pub open spec fn minute_of(t: Seq<char>) -> Option<u32> {
    let (body, pm) = meridiem(t);
    match hour_minute(body) {
        Some((h, m)) => if h > 23 || m > 59 {
            None
        } else {
            Some((hour_of_day(h, pm) * 60 + m) as u32)
        },
        None => None,
    }
}

fn read_hour_minute(body: &Vec<char>) -> (r: Option<(u32, u32)>)
    ensures
        r == hour_minute(body@),
{
    match scan::split_once_by(body, Class::Two(':', '.')) {
        Some((h, m)) => match (number::parse_u32(&h), number::parse_u32(&m)) {
            (Some(h), Some(m)) => Some((h, m)),
            _ => None,
        },
        None => match number::parse_u32(body) {
            Some(h) => Some((h, 0)),
            None => None,
        },
    }
}

/// The minute of the day that a trimmed lower-case clock text names.
pub fn parse_clock_lower(t: &Vec<char>) -> (r: Option<u32>)
    ensures
        r == minute_of(t@),
        r matches Some(m) ==> m < 1440,
{
    let (body, pm) = match scan::strip_suffix(t, "pm") {
        Some(b) => (scan::trim(&b), Some(true)),
        None => match scan::strip_suffix(t, "am") {
            Some(b) => (scan::trim(&b), Some(false)),
            None => (scan::sub_text(t, 0, t.len()), None),
        },
    };
    assert(t@.subrange(0, t@.len() as int) =~= t@);
    let (h, m) = match read_hour_minute(&body) {
        Some(x) => x,
        None => return None,
    };
    if h > 23 || m > 59 {
        return None;
    }
    let hour: u32 = match pm {
        Some(true) => if h < 12 {
            h + 12
        } else {
            h
        },
        Some(false) => if h == 12 {
            0
        } else {
            h
        },
        None => h,
    };
    Some(hour * 60 + m)
}

/// The minute of the day that a clock text names, whatever its case and outer spaces.
pub open spec fn clock_of(tok: Seq<char>) -> Option<u32> {
    minute_of(chars::lowercase(scan::trimmed(tok)))
}

fn parse_clock(tok: &Vec<char>) -> (r: Option<u32>)
    ensures
        r == clock_of(tok@),
        r matches Some(m) ==> m < 1440,
{
    let t = chars::text_of(&scan::trim(tok));
    parse_clock_lower(&chars::lowered(t.as_str()))
}

/// The window that one word names as a range.
pub open spec fn range_of(tok: Seq<char>) -> Option<Window> {
    match scan::cut(tok, "-"@) {
        Some((a, b)) => match (clock_of(a), clock_of(b)) {
            (Some(s), Some(e)) => if e > s {
                Some(Window { start: s, end: e })
            } else {
                None
            },
            _ => None,
        },
        None => None,
    }
}

/// The first range among the words.
pub open spec fn first_range(tokens: Seq<Seq<char>>) -> Option<Window>
    decreases tokens.len(),
{
    if tokens.len() == 0 {
        None
    } else {
        match range_of(tokens[0]) {
            Some(w) => Some(w),
            None => first_range(tokens.skip(1)),
        }
    }
}

/// A word that opens a window without an end.
pub open spec fn opens(tok: Seq<char>) -> bool {
    scan::starts(tok, "after"@) || scan::starts(tok, "from"@)
}

/// A word that looks like a clock.
pub open spec fn clocklike(t: Seq<char>) -> bool {
    scan::within(t, ":"@) || scan::ends(t, "pm"@) || scan::ends(t, "am"@)
}

/// The window that two neighbouring words name: `at` and a clock give ninety minutes, `after` or
/// `from` and a clock the rest of the day.
pub open spec fn point_of(tok: Seq<char>, next: Seq<char>) -> Option<Window> {
    let t = scan::drop_end(next, Class::Two(',', '.'));
    if (tok == "at"@ || opens(tok)) && clocklike(t) {
        match clock_of(t) {
            Some(s) => Some(
                Window {
                    start: s,
                    end: if opens(tok) || s + 90 > 1439 {
                        1439
                    } else {
                        (s + 90) as u32
                    },
                },
            ),
            None => None,
        }
    } else {
        None
    }
}

/// The first point of time among the words.
pub open spec fn first_point(tokens: Seq<Seq<char>>) -> Option<Window>
    decreases tokens.len(),
{
    if tokens.len() < 2 {
        None
    } else {
        match point_of(tokens[0], tokens[1]) {
            Some(w) => Some(w),
            None => first_point(tokens.skip(1)),
        }
    }
}

/// The lower-case text with the ways to write a range made one.
pub open spec fn with_hyphens(l: Seq<char>) -> Seq<char> {
    pieces::replaced(
        pieces::replaced(pieces::replaced(l, "–"@, "-"@), " to "@, "-"@),
        " until "@,
        "-"@,
    )
}

/// The window that a lower-case text names: its first range, or else its first point of time.
pub open spec fn window_of(l: Seq<char>) -> Option<Window> {
    let tokens = pieces::words(with_hyphens(l));
    match first_range(tokens) {
        Some(w) => Some(w),
        None => first_point(tokens),
    }
}

fn read_range(tok: &Vec<char>) -> (r: Option<Window>)
    ensures
        r == range_of(tok@),
        r matches Some(w) ==> w.start < w.end < 1440,
{
    match scan::split_once(tok, "-") {
        Some((a, b)) => match (parse_clock(&a), parse_clock(&b)) {
            (Some(s), Some(e)) => if e > s {
                Some(Window { start: s, end: e })
            } else {
                None
            },
            _ => None,
        },
        None => None,
    }
}

fn read_point(tok: &Vec<char>, next: &Vec<char>) -> (r: Option<Window>)
    ensures
        r == point_of(tok@, next@),
        r matches Some(w) ==> w.start <= w.end < 1440,
{
    let after = scan::starts_with(tok, "after") || scan::starts_with(tok, "from");
    let clock = scan::without_end(next, Class::Two(',', '.'));
    if (chars::spells(tok, "at") || after) && (scan::contains(&clock, ":") || scan::ends_with(
        &clock,
        "pm",
    ) || scan::ends_with(&clock, "am")) {
        match parse_clock(&clock) {
            Some(s) => Some(
                Window {
                    start: s,
                    end: if after || s + 90 > 1439 {
                        1439
                    } else {
                        s + 90
                    },
                },
            ),
            None => None,
        }
    } else {
        None
    }
}

/// The window that a lower-case text names.
pub fn parse_window_lower(l: &Vec<char>) -> (r: Option<Window>)
    ensures
        r == window_of(l@),
        r matches Some(w) ==> w.start <= w.end < 1440,
{
    proof {
        reveal_strlit("–");
        reveal_strlit(" to ");
        reveal_strlit(" until ");
    }
    let a = pieces::replace(l, "–", "-");
    let b = pieces::replace(&a, " to ", "-");
    let c = pieces::replace(&b, " until ", "-");
    let tokens = pieces::split_words(&c);
    let ghost ts = pieces::texts(tokens@);
    let mut i: usize = 0;
    assert(ts.skip(0) =~= ts);
    while i < tokens.len()
        invariant
            i <= tokens.len(),
            ts == pieces::texts(tokens@),
            first_range(ts) == first_range(ts.skip(i as int)),
            window_of(l@) == (match first_range(ts) {
                Some(w) => Some(w),
                None => first_point(ts),
            }),
        decreases tokens.len() - i,
    {
        assert(ts.skip(i as int)[0] == tokens@[i as int]@);
        assert(ts.skip(i as int).skip(1) =~= ts.skip(i + 1));
        match read_range(&tokens[i]) {
            Some(w) => {
                return Some(w);
            },
            None => {},
        }
        i += 1;
    }
    assert(first_range(ts) is None);
    let mut k: usize = 0;
    while k < tokens.len() && tokens.len() - k >= 2
        invariant
            k <= tokens.len(),
            ts == pieces::texts(tokens@),
            first_point(ts) == first_point(ts.skip(k as int)),
            window_of(l@) == first_point(ts),
        decreases tokens.len() - k,
    {
        assert(ts.skip(k as int)[0] == tokens@[k as int]@);
        assert(ts.skip(k as int)[1] == tokens@[k + 1]@);
        assert(ts.skip(k as int).skip(1) =~= ts.skip(k + 1));
        match read_point(&tokens[k], &tokens[k + 1]) {
            Some(w) => {
                return Some(w);
            },
            None => {},
        }
        k += 1;
    }
    None
}

/// `17:30-19:00`, `17:30–19:00`, `6pm to 8pm`, `at 18:30` (default 90 minutes), `after 18:00`.
pub fn parse_window(text: &str) -> (r: Option<Window>)
    ensures
        r == window_of(chars::lowercase(text@)),
        r matches Some(w) ==> w.start <= w.end < 1440,
{
    parse_window_lower(&chars::lowered(text))
}

pub open spec fn day_words() -> Seq<Seq<char>> {
    seq![
        "monday"@,
        "tuesday"@,
        "wednesday"@,
        "thursday"@,
        "friday"@,
        "saturday"@,
        "sunday"@,
        "tomorrow"@,
        "today"@,
        "tonight"@,
    ]
}

/// The first of `days` that stands in the text; tonight is today.
pub open spec fn first_day(l: Seq<char>, days: Seq<Seq<char>>) -> Option<Seq<char>>
    decreases days.len(),
{
    if days.len() == 0 {
        None
    } else if scan::within(l, days[0]) {
        Some(
            if days[0] == "tonight"@ {
                "today"@
            } else {
                days[0]
            },
        )
    } else {
        first_day(l, days.skip(1))
    }
}

pub open spec fn day_of(l: Seq<char>) -> Option<Seq<char>> {
    first_day(l, day_words())
}

/// The day word of a lower-case text.
pub fn parse_day_lower(l: &Vec<char>) -> (r: Option<String>)
    ensures
        pieces::text_in(r) == day_of(l@),
{
    let days: Vec<&str> = vec![
        "monday", "tuesday", "wednesday", "thursday", "friday", "saturday", "sunday", "tomorrow",
        "today", "tonight",
    ];
    let ghost ds = pieces::slices(days@);
    assert(ds =~= day_words());
    let mut i: usize = 0;
    assert(ds.skip(0) =~= ds);
    while i < days.len()
        invariant
            i <= days.len(),
            ds == pieces::slices(days@),
            day_of(l@) == first_day(l@, ds.skip(i as int)),
        decreases days.len() - i,
    {
        assert(ds.skip(i as int)[0] == days@[i as int]@);
        assert(ds.skip(i as int).skip(1) =~= ds.skip(i + 1));
        if scan::contains(l, days[i]) {
            return Some(
                if chars::same(days[i], "tonight") {
                    "today".to_string()
                } else {
                    days[i].to_string()
                },
            );
        }
        i += 1;
    }
    None
}

/// A day word the user used, normalized (`thursday`, `tomorrow`, `today`); `None` = unspecified.
pub fn parse_day(text: &str) -> (r: Option<String>)
    ensures
        pieces::text_in(r) == day_of(chars::lowercase(text@)),
{
    parse_day_lower(&chars::lowered(text))
}

// ---- commitments ----

#[derive(Debug)]
pub struct Commitment {
    pub domain: Domain,
    pub label: String,
    pub day: Option<String>,
    pub window: Window,
}

#[derive(Debug)]
pub struct Conflict {
    pub work: Commitment,
    pub home: Commitment,
}

#[verifier::ext_equal]
pub struct CommitmentView {
    pub domain: Domain,
    pub label: Seq<char>,
    pub day: Option<Seq<char>>,
    pub window: Window,
}

#[verifier::ext_equal]
pub struct ConflictView {
    pub work: CommitmentView,
    pub home: CommitmentView,
}

impl View for Commitment {
    type V = CommitmentView;

    open spec fn view(&self) -> CommitmentView {
        CommitmentView {
            domain: self.domain,
            label: self.label@,
            day: pieces::text_in(self.day),
            window: self.window,
        }
    }
}

impl View for Conflict {
    type V = ConflictView;

    open spec fn view(&self) -> ConflictView {
        ConflictView { work: self.work@, home: self.home@ }
    }
}

pub open spec fn commitments_of(v: Seq<Commitment>) -> Seq<CommitmentView> {
    v.map_values(|c: Commitment| c@)
}

pub open spec fn conflicts_of(v: Seq<Conflict>) -> Seq<ConflictView> {
    v.map_values(|c: Conflict| c@)
}

impl Commitment {
    /// A copy of the commitment.
    pub fn copy(&self) -> (r: Commitment)
        ensures
            r@ == self@,
    {
        Commitment {
            domain: self.domain,
            label: self.label.clone(),
            day: match &self.day {
                Some(d) => Some(d.clone()),
                None => None,
            },
            window: self.window,
        }
    }
}

/// The first five words.
pub open spec fn short_of(text: Seq<char>) -> Seq<char> {
    pieces::joined(pieces::at_most(pieces::words(text), 5), " "@)
}

fn short(text: &str) -> (r: String)
    ensures
        r@ == short_of(text@),
{
    let mut words = pieces::split_words(&chars::chars_of(text));
    let ghost all = pieces::texts(words@);
    if words.len() > 5 {
        words.truncate(5);
        assert(pieces::texts(words@) =~= all.take(5));
    }
    chars::text_of(&pieces::join(&words, " "))
}

/// The commitment that a memory item states, where it states one with a window.
pub open spec fn commitment_of(i: ItemView) -> Option<CommitmentView> {
    if i.kind == Kind::Recommended || scan::starts(i.key, "preference."@) {
        None
    } else {
        match i.text {
            Some(text) => match window_of(chars::lowercase(text)) {
                Some(window) => Some(
                    CommitmentView {
                        domain: i.domain,
                        label: short_of(text),
                        day: day_of(chars::lowercase(text)),
                        window,
                    },
                ),
                None => None,
            },
            None => None,
        }
    }
}

/// The commitments that the items state, in order.
pub open spec fn stated(items: Seq<ItemView>) -> Seq<CommitmentView>
    decreases items.len(),
{
    if items.len() == 0 {
        Seq::empty()
    } else {
        match commitment_of(items.last()) {
            Some(c) => stated(items.drop_last()).push(c),
            None => stated(items.drop_last()),
        }
    }
}

fn read_commitment(i: &MemoryItem) -> (r: Option<Commitment>)
    ensures
        match r {
            Some(c) => commitment_of(i@) == Some(c@),
            None => commitment_of(i@) is None,
        },
{
    if i.kind == Kind::Recommended || scan::starts_with(
        &chars::chars_of(i.key.as_str()),
        "preference.",
    ) {
        return None;
    }
    match &i.text {
        Some(text) => match parse_window(text.as_str()) {
            Some(window) => Some(
                Commitment {
                    domain: i.domain,
                    label: short(text.as_str()),
                    day: parse_day(text.as_str()),
                    window,
                },
            ),
            None => None,
        },
        None => None,
    }
}

/// Commitments the user stated in memory (known or assumed) that carry a time window.
pub fn commitments(items: &Vec<MemoryItem>) -> (r: Vec<Commitment>)
    ensures
        commitments_of(r@) == stated(item::items_of(items@)),
{
    let ghost all = item::items_of(items@);
    let mut out: Vec<Commitment> = Vec::new();
    let mut i: usize = 0;
    assert(all.take(0) =~= Seq::empty());
    assert(commitments_of(out@) =~= stated(all.take(0)));
    while i < items.len()
        invariant
            i <= items.len(),
            all == item::items_of(items@),
            commitments_of(out@) == stated(all.take(i as int)),
        decreases items.len() - i,
    {
        assert(all.take(i + 1).drop_last() =~= all.take(i as int));
        assert(all.take(i + 1).last() == items@[i as int]@);
        match read_commitment(&items[i]) {
            Some(c) => {
                let ghost o = out@;
                out.push(c);
                assert(commitments_of(out@) =~= commitments_of(o).push(c@));
            },
            None => {},
        }
        i += 1;
    }
    assert(all.take(items.len() as int) =~= all);
    out
}

/// Two commitments can fall on the same day.
pub open spec fn same_day(a: CommitmentView, b: CommitmentView) -> bool {
    match (a.day, b.day) {
        (Some(x), Some(y)) => x == y,
        _ => true,
    }
}

/// A work commitment and a home commitment clash.
pub open spec fn clash(w: CommitmentView, h: CommitmentView) -> bool {
    &&& w.domain == Domain::Work
    &&& h.domain == Domain::Home
    &&& same_day(w, h)
    &&& overlap(w.window, h.window)
}

/// The clashes of one commitment with `others`.
pub open spec fn clashes_with(w: CommitmentView, others: Seq<CommitmentView>) -> Seq<ConflictView>
    decreases others.len(),
{
    if others.len() == 0 {
        Seq::empty()
    } else if clash(w, others.last()) {
        clashes_with(w, others.drop_last()).push(ConflictView { work: w, home: others.last() })
    } else {
        clashes_with(w, others.drop_last())
    }
}

/// The clashes of the commitments `ws` with `items`, in order.
pub open spec fn clashes(ws: Seq<CommitmentView>, items: Seq<CommitmentView>) -> Seq<ConflictView>
    decreases ws.len(),
{
    if ws.len() == 0 {
        Seq::empty()
    } else {
        clashes(ws.drop_last(), items) + clashes_with(ws.last(), items)
    }
}

fn days_agree(a: &Option<String>, b: &Option<String>) -> (r: bool)
    ensures
        r == (match (pieces::text_in(*a), pieces::text_in(*b)) {
            (Some(x), Some(y)) => x == y,
            _ => true,
        }),
{
    match (a, b) {
        (Some(x), Some(y)) => chars::same(x.as_str(), y.as_str()),
        _ => true,
    }
}

/// Work and home pairs on the same (or an unspecified) day whose windows overlap.
pub fn find_conflicts(items: &Vec<Commitment>) -> (r: Vec<Conflict>)
    ensures
        conflicts_of(r@) == clashes(commitments_of(items@), commitments_of(items@)),
{
    let ghost all = commitments_of(items@);
    let mut out: Vec<Conflict> = Vec::new();
    let mut i: usize = 0;
    assert(all.take(0) =~= Seq::empty());
    assert(conflicts_of(out@) =~= clashes(all.take(0), all));
    while i < items.len()
        invariant
            i <= items.len(),
            all == commitments_of(items@),
            conflicts_of(out@) == clashes(all.take(i as int), all),
        decreases items.len() - i,
    {
        let w = &items[i];
        let ghost base = clashes(all.take(i as int), all);
        assert(all.take(i + 1).drop_last() =~= all.take(i as int));
        assert(all.take(i + 1).last() == w@);
        let mut k: usize = 0;
        assert(base + clashes_with(w@, all.take(0)) =~= base);
        while k < items.len()
            invariant
                k <= items.len(),
                all == commitments_of(items@),
                conflicts_of(out@) == base + clashes_with(w@, all.take(k as int)),
            decreases items.len() - k,
        {
            let h = &items[k];
            assert(all.take(k + 1).drop_last() =~= all.take(k as int));
            assert(all.take(k + 1).last() == h@);
            if w.domain == Domain::Work && h.domain == Domain::Home && days_agree(&w.day, &h.day)
                && w.window.overlaps(&h.window) {
                let c = Conflict { work: w.copy(), home: h.copy() };
                let ghost o = out@;
                out.push(c);
                assert(conflicts_of(out@) =~= conflicts_of(o).push(c@));
            }
            k += 1;
            assert(conflicts_of(out@) =~= base + clashes_with(w@, all.take(k as int)));
        }
        assert(all.take(items.len() as int) =~= all);
        i += 1;
    }
    assert(all.take(items.len() as int) =~= all);
    out
}

/// The window that the first item with one states.
pub open spec fn first_window(items: Seq<ItemView>) -> Option<Window>
    decreases items.len(),
{
    if items.len() == 0 {
        None
    } else {
        let w = match items[0].text {
            Some(text) => window_of(chars::lowercase(text)),
            None => None,
        };
        match w {
            Some(w) => Some(w),
            None => first_window(items.skip(1)),
        }
    }
}

/// The user's protected time, from the items kept under it, if one parses to a window.
pub fn protected_time(items: &Vec<MemoryItem>) -> (r: Option<Window>)
    ensures
        r == first_window(item::items_of(items@)),
{
    let ghost all = item::items_of(items@);
    let mut i: usize = 0;
    assert(all.skip(0) =~= all);
    while i < items.len()
        invariant
            i <= items.len(),
            all == item::items_of(items@),
            first_window(all) == first_window(all.skip(i as int)),
        decreases items.len() - i,
    {
        assert(all.skip(i as int)[0] == items@[i as int]@);
        assert(all.skip(i as int).skip(1) =~= all.skip(i + 1));
        match &items[i].text {
            Some(text) => match parse_window(text.as_str()) {
                Some(w) => {
                    return Some(w);
                },
                None => {},
            },
            None => {},
        }
        i += 1;
    }
    None
}

// ---- review ----

#[derive(Debug)]
pub struct Arbitration {
    pub question: Option<String>,
    pub conflicts: usize,
    pub protected_violations: usize,
    pub duplicates_dropped: usize,
}

/// The text of a proposal as duplicates are found by: lower case, words one space apart.
pub open spec fn normal(s: Seq<char>) -> Seq<char> {
    pieces::joined(pieces::words(chars::lowercase(s)), " "@)
}

fn norm(s: &str) -> (r: Vec<char>)
    ensures
        r@ == normal(s@),
{
    pieces::join(&pieces::split_words(&chars::lowered(s)), " ")
}

/// What makes two proposals duplicates of each other.
pub open spec fn proposal_key(a: ActionView) -> (Seq<char>, Seq<char>) {
    (a.agent, normal(a.text))
}

/// The first proposal of each key, in order.
pub open spec fn deduped(actions: Seq<ActionView>) -> Seq<ActionView>
    decreases actions.len(),
{
    if actions.len() == 0 {
        actions
    } else {
        let d = deduped(actions.drop_last());
        if exists|i: int|
            0 <= i < d.len() && proposal_key(#[trigger] d[i]) == proposal_key(actions.last()) {
            d
        } else {
            d.push(actions.last())
        }
    }
}

fn drop_duplicates(actions: Vec<SuggestedAction>) -> (r: Vec<SuggestedAction>)
    ensures
        synth::actions_of(r@) == deduped(synth::actions_of(actions@)),
        r@.len() <= actions@.len(),
{
    let ghost all = synth::actions_of(actions@);
    let mut keys: Vec<Vec<char>> = Vec::new();
    let mut out: Vec<SuggestedAction> = Vec::new();
    assert(all.take(0) =~= Seq::empty());
    assert(synth::actions_of(out@) =~= deduped(all.take(0)));
    let n = actions.len();
    let mut rest = actions;
    let mut i: usize = 0;
    let ghost whole = rest@;
    while i < n
        invariant
            i <= n,
            n == whole.len(),
            all == synth::actions_of(whole),
            rest@ == whole.skip(i as int),
            out@.len() <= i,
            synth::actions_of(out@) == deduped(all.take(i as int)),
            keys@.len() == out@.len(),
            forall|j: int|
                0 <= j < out@.len() ==> (#[trigger] keys@[j])@ == normal(out@[j]@.text),
        decreases n - i,
    {
        let a = rest.remove(0);
        assert(a == whole[i as int]);
        assert(rest@ =~= whole.skip(i + 1));
        let key = norm(a.text.as_str());
        let ghost d = deduped(all.take(i as int));
        assert(all.take(i + 1).drop_last() =~= all.take(i as int));
        assert(all.take(i + 1).last() == a@);
        let mut seen: bool = false;
        let mut k: usize = 0;
        while k < out.len()
            invariant
                k <= out.len(),
                d == synth::actions_of(out@),
                key@ == normal(a@.text),
                keys@.len() == out@.len(),
                forall|j: int|
                    0 <= j < out@.len() ==> (#[trigger] keys@[j])@ == normal(out@[j]@.text),
                seen == exists|j: int|
                    0 <= j < k && proposal_key(#[trigger] d[j]) == proposal_key(a@),
            decreases out.len() - k,
        {
            assert(d[k as int] == out@[k as int]@);
            let hit = chars::same(out[k].agent.as_str(), a.agent.as_str()) && chars::same_chars(
                &keys[k],
                &key,
            );
            assert(keys@[k as int]@ == normal(d[k as int].text));
            assert(hit == (proposal_key(d[k as int]) == proposal_key(a@)));
            if hit {
                seen = true;
            }
            k += 1;
        }
        if !seen {
            let ghost o = out@;
            let ghost ks = keys@;
            out.push(a);
            keys.push(key);
            assert(synth::actions_of(out@) =~= synth::actions_of(o).push(a@));
            assert forall|j: int| 0 <= j < out@.len() implies (#[trigger] keys@[j])@ == normal(
                out@[j]@.text,
            ) by {
                if j < o.len() {
                    assert(keys@[j] == ks[j] && out@[j] == o[j]);
                }
            }
        }
        i += 1;
    }
    assert(all.take(n as int) =~= all);
    out
}

/// The work commitments that overlap a protected window, in order.
pub open spec fn intrusions(items: Seq<CommitmentView>, p: Window) -> Seq<CommitmentView>
    decreases items.len(),
{
    if items.len() == 0 {
        Seq::empty()
    } else if items.last().domain == Domain::Work && overlap(items.last().window, p) {
        intrusions(items.drop_last(), p).push(items.last())
    } else {
        intrusions(items.drop_last(), p)
    }
}

fn find_intrusions(items: &Vec<Commitment>, p: Window) -> (r: Vec<Commitment>)
    ensures
        commitments_of(r@) == intrusions(commitments_of(items@), p),
{
    let ghost all = commitments_of(items@);
    let mut out: Vec<Commitment> = Vec::new();
    let mut i: usize = 0;
    assert(all.take(0) =~= Seq::empty());
    assert(commitments_of(out@) =~= intrusions(all.take(0), p));
    while i < items.len()
        invariant
            i <= items.len(),
            all == commitments_of(items@),
            commitments_of(out@) == intrusions(all.take(i as int), p),
        decreases items.len() - i,
    {
        assert(all.take(i + 1).drop_last() =~= all.take(i as int));
        assert(all.take(i + 1).last() == items@[i as int]@);
        if items[i].domain == Domain::Work && items[i].window.overlaps(&p) {
            let c = items[i].copy();
            let ghost o = out@;
            out.push(c);
            assert(commitments_of(out@) =~= commitments_of(o).push(c@));
        }
        i += 1;
    }
    assert(all.take(items.len() as int) =~= all);
    out
}

/// How many more overlaps there are.
pub open spec fn more_text(n: nat) -> Seq<char> {
    if n > 1 {
        " (and "@ + number::decimal((n - 1) as nat) + " more overlap"@ + (if n > 2 {
            "s"@
        } else {
            ""@
        }) + ")"@
    } else {
        Seq::empty()
    }
}

/// The question about a clash, of `n` in all.
pub open spec fn clash_question(c: ConflictView, n: nat) -> Seq<char> {
    "You have a family commitment"@ + (match c.home.day {
        Some(d) => " "@ + d,
        None => Seq::empty(),
    }) + " at "@ + clock_label(c.home.window.start as nat)
        + ", but your current work schedule extends into that period ("@ + c.work.label + " "@
        + window_label(c.work.window) + ")"@ + more_text(n)
        + ". Would you like me to help reorganize your tasks?"@
}

/// The question about a commitment inside protected time.
pub open spec fn intrusion_question(v: CommitmentView, p: Window) -> Seq<char> {
    v.label + " ("@ + window_label(v.window) + ") falls inside the time you protect ("@
        + window_label(p) + "). Would you like me to help move it?"@
}

/// The one question, where there is something to ask.
pub open spec fn question_of(
    items: Seq<CommitmentView>,
    protected: Option<Window>,
) -> Option<Seq<char>> {
    let cs = clashes(items, items);
    if cs.len() > 0 {
        Some(clash_question(cs[0], cs.len()))
    } else {
        match protected {
            Some(p) => if intrusions(items, p).len() > 0 {
                Some(intrusion_question(intrusions(items, p)[0], p))
            } else {
                None
            },
            None => None,
        }
    }
}

pub open spec fn reorganize_action() -> ActionView {
    ActionView {
        text: "Reorganize my tasks around the commitment"@,
        card: "Arbitration"@,
        agent: "productivity"@,
        domain: Domain::Work,
        mode: Mode::Suggest,
    }
}

fn clash_text(c: &Conflict, n: usize) -> (r: String)
    requires
        n > 0,
    ensures
        r@ == clash_question(c@, n as nat),
{
    let mut s = "You have a family commitment".to_string();
    match &c.home.day {
        Some(d) => {
            s.append(" ");
            s.append(d.as_str());
        },
        None => {},
    }
    s.append(" at ");
    let at = clock_text(c.home.window.start);
    s.append(at.as_str());
    s.append(", but your current work schedule extends into that period (");
    s.append(c.work.label.as_str());
    s.append(" ");
    let label = c.work.window.label();
    s.append(label.as_str());
    s.append(")");
    if n > 1 {
        s.append(" (and ");
        let d = chars::text_of(&number::digits((n - 1) as u64));
        s.append(d.as_str());
        s.append(" more overlap");
        s.append(
            if n > 2 {
                "s"
            } else {
                ""
            },
        );
        s.append(")");
    }
    s.append(". Would you like me to help reorganize your tasks?");
    assert(s@ =~= clash_question(c@, n as nat));
    s
}

fn intrusion_text(v: &Commitment, p: &Window) -> (r: String)
    ensures
        r@ == intrusion_question(v@, *p),
{
    let mut s = v.label.clone();
    s.append(" (");
    let a = v.window.label();
    s.append(a.as_str());
    s.append(") falls inside the time you protect (");
    let b = p.label();
    s.append(b.as_str());
    s.append("). Would you like me to help move it?");
    s
}

/// The intrusions into protected time, where there is protected time.
pub open spec fn violations(items: Seq<CommitmentView>, protected: Option<Window>) -> Seq<
    CommitmentView,
> {
    match protected {
        Some(p) => intrusions(items, p),
        None => Seq::empty(),
    }
}

/// The answer with the question before it, where there is one.
pub open spec fn told(question: Option<Seq<char>>, html: Seq<char>) -> Seq<char> {
    match question {
        Some(q) => q + " "@ + html,
        None => html,
    }
}

/// The proposals with the offer to reorganize before them, where a question is asked.
pub open spec fn proposed(question: Option<Seq<char>>, kept: Seq<ActionView>) -> Seq<ActionView> {
    match question {
        Some(_) => seq![reorganize_action()] + kept,
        None => kept,
    }
}

/// Review a synthesis in place against the commitments and the protected time that the user
/// stated: drop duplicate proposals, add at most one question.
pub fn review_with(
    synthesis: &mut Synthesis,
    items: &Vec<Commitment>,
    protected: Option<Window>,
) -> (r: Arbitration)
    ensures
        ({
            let view = commitments_of(items@);
            let kept = deduped(synth::actions_of(old(synthesis).actions@));
            let q = question_of(view, protected);
            &&& pieces::text_in(r.question) == q
            &&& r.conflicts == clashes(view, view).len()
            &&& r.protected_violations == violations(view, protected).len()
            &&& r.duplicates_dropped == old(synthesis).actions@.len() - kept.len()
            &&& final(synthesis).source == old(synthesis).source
            &&& final(synthesis).html@ == told(q, old(synthesis).html@)
            &&& synth::actions_of(final(synthesis).actions@) == proposed(q, kept)
        }),
{
    let ghost view = commitments_of(items@);
    let ghost kept = deduped(synth::actions_of(synthesis.actions@));
    let before = synthesis.actions.len();
    let mut actions: Vec<SuggestedAction> = Vec::new();
    std::mem::swap(&mut actions, &mut synthesis.actions);
    let mut actions = drop_duplicates(actions);
    assert(synth::actions_of(actions@) == kept);
    let dropped = before - actions.len();
    let conflicts = find_conflicts(items);
    assert(conflicts_of(conflicts@).len() == conflicts@.len());
    let found: Vec<Commitment> = match protected {
        Some(p) => find_intrusions(items, p),
        None => Vec::new(),
    };
    assert(commitments_of(found@) =~= violations(view, protected));
    let question: Option<String> = if conflicts.len() > 0 {
        assert(conflicts_of(conflicts@)[0] == conflicts@[0]@);
        Some(clash_text(&conflicts[0], conflicts.len()))
    } else {
        match &protected {
            Some(p) => if found.len() > 0 {
                assert(commitments_of(found@)[0] == found@[0]@);
                Some(intrusion_text(&found[0], p))
            } else {
                None
            },
            None => None,
        }
    };
    match &question {
        Some(q) => {
            let mut html = q.clone();
            html.append(" ");
            html.append(synthesis.html.as_str());
            synthesis.html = html;
            let a = SuggestedAction {
                text: "Reorganize my tasks around the commitment".to_string(),
                card: "Arbitration".to_string(),
                agent: "productivity".to_string(),
                domain: Domain::Work,
                mode: Mode::Suggest,
            };
            assert(a@ == reorganize_action());
            let ghost o = actions@;
            actions.insert(0, a);
            assert(synth::actions_of(actions@) =~= seq![reorganize_action()] + synth::actions_of(o));
        },
        None => {},
    }
    synthesis.actions = actions;
    Arbitration {
        question,
        conflicts: conflicts.len(),
        protected_violations: found.len(),
        duplicates_dropped: dropped,
    }
}

/// Review a synthesis in place. `items` is what memory holds for the user, `protected` what it
/// holds under the protected time.
pub fn review(
    synthesis: &mut Synthesis,
    items: &Vec<MemoryItem>,
    protected: &Vec<MemoryItem>,
) -> (r: Arbitration)
    ensures
        ({
            let view = stated(item::items_of(items@));
            let window = first_window(item::items_of(protected@));
            let kept = deduped(synth::actions_of(old(synthesis).actions@));
            let q = question_of(view, window);
            &&& pieces::text_in(r.question) == q
            &&& r.conflicts == clashes(view, view).len()
            &&& r.protected_violations == violations(view, window).len()
            &&& r.duplicates_dropped == old(synthesis).actions@.len() - kept.len()
            &&& final(synthesis).source == old(synthesis).source
            &&& final(synthesis).html@ == told(q, old(synthesis).html@)
            &&& synth::actions_of(final(synthesis).actions@) == proposed(q, kept)
        }),
{
    let found = commitments(items);
    let window = protected_time(protected);
    review_with(synthesis, &found, window)
}

// ---- laws ----

/// Overlap does not depend on the order of the two windows.
pub proof fn law_overlap_is_symmetric(a: Window, b: Window)
    ensures
        overlap(a, b) == overlap(b, a),
{
}

proof fn lemma_clashes_with(w: CommitmentView, others: Seq<CommitmentView>, c: ConflictView)
    ensures
        clashes_with(w, others).contains(c) <==> c.work == w && others.contains(c.home) && clash(
            w,
            c.home,
        ),
    decreases others.len(),
{
    if others.len() > 0 {
        let init = others.drop_last();
        let h = others.last();
        lemma_clashes_with(w, init, c);
        let before = clashes_with(w, init);
        assert(others =~= init.push(h));
        if others.contains(c.home) && c.home != h {
            let i = choose|i: int| 0 <= i < others.len() && others[i] == c.home;
            assert(init[i] == c.home);
        }
        if init.contains(c.home) {
            let i = choose|i: int| 0 <= i < init.len() && init[i] == c.home;
            assert(others[i] == c.home);
        }
        assert(others[others.len() - 1] == h);
        if clash(w, h) {
            let x = ConflictView { work: w, home: h };
            let after = before.push(x);
            if before.contains(c) {
                let i = choose|i: int| 0 <= i < before.len() && before[i] == c;
                assert(after[i] == c);
            }
            assert(after[after.len() - 1] == x);
            if after.contains(c) && c != x {
                let i = choose|i: int| 0 <= i < after.len() && after[i] == c;
                assert(before[i] == c);
            }
            if c.work == w && c.home == h {
                assert(c == x);
            }
        }
    }
}

proof fn lemma_clashes(ws: Seq<CommitmentView>, items: Seq<CommitmentView>, c: ConflictView)
    ensures
        clashes(ws, items).contains(c) <==> ws.contains(c.work) && items.contains(c.home) && clash(
            c.work,
            c.home,
        ),
    decreases ws.len(),
{
    if ws.len() > 0 {
        let init = ws.drop_last();
        let w = ws.last();
        lemma_clashes(init, items, c);
        lemma_clashes_with(w, items, c);
        let a = clashes(init, items);
        let b = clashes_with(w, items);
        if a.contains(c) {
            let i = choose|i: int| 0 <= i < a.len() && a[i] == c;
            assert((a + b)[i] == c);
        }
        if b.contains(c) {
            let i = choose|i: int| 0 <= i < b.len() && b[i] == c;
            assert((a + b)[a.len() + i] == c);
        }
        if (a + b).contains(c) {
            let i = choose|i: int| 0 <= i < (a + b).len() && (a + b)[i] == c;
            if i < a.len() {
                assert(a[i] == c);
            } else {
                assert(b[i - a.len()] == c);
            }
        }
        if init.contains(c.work) {
            let i = choose|i: int| 0 <= i < init.len() && init[i] == c.work;
            assert(ws[i] == c.work);
        }
        assert(ws[ws.len() - 1] == w);
        if ws.contains(c.work) && c.work != w {
            let i = choose|i: int| 0 <= i < ws.len() && ws[i] == c.work;
            assert(init[i] == c.work);
        }
    }
}

/// The conflicts that `find_conflicts` gives are exactly the pairs of a work commitment and a
/// home commitment that clash.
pub proof fn law_conflicts_are_the_clashes(items: Seq<CommitmentView>, c: ConflictView)
    ensures
        clashes(items, items).contains(c) <==> items.contains(c.work) && items.contains(c.home)
            && clash(c.work, c.home),
{
    lemma_clashes(items, items, c);
}

/// Commitments on different days never conflict.
pub proof fn law_different_days_never_conflict(items: Seq<CommitmentView>, c: ConflictView)
    requires
        c.work.day is Some,
        c.home.day is Some,
        c.work.day != c.home.day,
    ensures
        !clashes(items, items).contains(c),
{
    lemma_clashes(items, items, c);
}

/// After the duplicates are dropped no two proposals share an agent and a text, each proposal
/// that stays was there, and each that was there stays under its agent and text.
pub proof fn law_no_duplicates_stay(actions: Seq<ActionView>)
    ensures
        forall|i: int, j: int|
            0 <= i < j < deduped(actions).len() ==> proposal_key(#[trigger] deduped(actions)[i])
                != proposal_key(#[trigger] deduped(actions)[j]),
        forall|i: int|
            0 <= i < deduped(actions).len() ==> actions.contains(#[trigger] deduped(actions)[i]),
        forall|k: int|
            0 <= k < actions.len() ==> exists|i: int|
                0 <= i < deduped(actions).len() && proposal_key(#[trigger] deduped(actions)[i])
                    == proposal_key(#[trigger] actions[k]),
    decreases actions.len(),
{
    if actions.len() > 0 {
        let init = actions.drop_last();
        let a = actions.last();
        law_no_duplicates_stay(init);
        let d = deduped(init);
        let r = deduped(actions);
        assert forall|i: int| 0 <= i < r.len() implies actions.contains(#[trigger] r[i]) by {
            if i < d.len() {
                assert(r[i] == d[i]);
                assert(init.contains(d[i]));
                let k = choose|k: int| 0 <= k < init.len() && init[k] == d[i];
                assert(actions[k] == r[i]);
            } else {
                assert(actions[actions.len() - 1] == r[i]);
            }
        }
        assert forall|k: int| 0 <= k < actions.len() implies exists|i: int|
            0 <= i < r.len() && proposal_key(#[trigger] r[i]) == proposal_key(
                #[trigger] actions[k],
            ) by {
            if k < init.len() {
                assert(init[k] == actions[k]);
                let i = choose|i: int|
                    0 <= i < d.len() && proposal_key(#[trigger] d[i]) == proposal_key(init[k]);
                assert(r[i] == d[i]);
            } else if r.len() > d.len() {
                assert(r[d.len() as int] == a);
            }
        }
    }
}

/// The user is asked exactly where a work commitment clashes with one at home or falls inside the
/// protected time.
pub proof fn law_a_question_is_asked_where_something_clashes(
    items: Seq<CommitmentView>,
    protected: Option<Window>,
)
    ensures
        question_of(items, protected) is Some <==> clashes(items, items).len() > 0 || violations(
            items,
            protected,
        ).len() > 0,
{
}

/// Dropping duplicates twice is dropping them once.
pub proof fn law_dropping_duplicates_is_idempotent(actions: Seq<ActionView>)
    ensures
        deduped(deduped(actions)) == deduped(actions),
{
    law_no_duplicates_stay(actions);
    lemma_distinct_stay(deduped(actions));
}

proof fn lemma_distinct_stay(d: Seq<ActionView>)
    requires
        forall|i: int, j: int|
            0 <= i < j < d.len() ==> proposal_key(#[trigger] d[i]) != proposal_key(#[trigger] d[j]),
    ensures
        deduped(d) == d,
    decreases d.len(),
{
    if d.len() > 0 {
        let init = d.drop_last();
        assert forall|i: int, j: int| 0 <= i < j < init.len() implies proposal_key(
            #[trigger] init[i],
        ) != proposal_key(#[trigger] init[j]) by {
            assert(init[i] == d[i] && init[j] == d[j]);
        }
        lemma_distinct_stay(init);
        assert(d[d.len() - 1] == d.last());
        assert(forall|i: int| 0 <= i < init.len() ==> #[trigger] init[i] == d[i]);
        assert(d =~= init.push(d.last()));
    }
}

} // verus!
