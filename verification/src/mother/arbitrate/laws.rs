//! What arbitration promises, on minutes, days, agents and words.

use vstd::prelude::*;

use crate::domain::Domain;
use crate::domain::Mode;
use crate::memory::item::ItemView;
use crate::memory::item::Kind;
use crate::mother::arbitrate;
use crate::mother::arbitrate::CommitmentView;
use crate::mother::arbitrate::ConflictView;
use crate::mother::arbitrate::Window;
use crate::mother::synth::ActionView;
use crate::text::chars;
use crate::text::chars::Class;
use crate::text::laws;
use crate::text::number;
use crate::text::pieces;
use crate::text::scan;

verus! {

/// The minute lies in the window, which ends before its end.
pub open spec fn has_minute(w: Window, m: int) -> bool {
    w.start <= m < w.end
}

/// Two windows overlap exactly where some minute lies in both, and a window overlaps itself.
pub proof fn law_overlap_is_a_shared_minute(a: Window, b: Window)
    requires
        a.start < a.end,
        b.start < b.end,
    ensures
        arbitrate::overlap(a, b) <==> exists|m: int| #[trigger]
            has_minute(a, m) && has_minute(b, m),
        arbitrate::overlap(a, a),
{
    let m = if a.start < b.start {
        b.start as int
    } else {
        a.start as int
    };
    if arbitrate::overlap(a, b) {
        assert(has_minute(a, m) && has_minute(b, m));
    }
}

/// Two windows do not overlap exactly where one of them ends by the start of the other.
pub proof fn law_windows_apart_do_not_overlap(a: Window, b: Window)
    ensures
        !arbitrate::overlap(a, b) <==> a.end <= b.start || b.end <= a.start,
{
}

/// Moving both windows by the same time keeps their overlap.
pub proof fn law_overlap_moves_along(a: Window, b: Window, c: Window, d: Window, by: int)
    requires
        c.start == a.start + by,
        c.end == a.end + by,
        d.start == b.start + by,
        d.end == b.end + by,
    ensures
        arbitrate::overlap(a, b) == arbitrate::overlap(c, d),
{
}

// ---- clocks ----

proof fn lemma_cut_at_colon(hs: Seq<char>, ms: Seq<char>, c: char)
    requires
        number::all_digits(hs),
        c == ':' || c == '.',
    ensures
        scan::cut_by(hs + seq![c] + ms, Class::Two(':', '.')) == Some((hs, ms)),
{
    let s = hs + seq![c] + ms;
    let k = Class::Two(':', '.');
    let n = hs.len() as int;
    assert(s[n] == c);
    assert forall|j: int| 0 <= j < n implies !k.has(#[trigger] s[j]) by {
        assert(s[j] == hs[j]);
        assert(chars::digit(hs[j]));
    }
    assert(scan::first_of(s, n, k));
    let i = choose|i: int| scan::first_of(s, i, k);
    assert(scan::first_of(s, i, k));
    if i < n {
        assert(!k.has(s[i]));
    }
    if n < i {
        assert(!k.has(s[n]));
    }
    assert(s.take(i) =~= hs);
    assert(s.skip(i + 1) =~= ms);
}

proof fn lemma_digits_end(s: Seq<char>, p: Seq<char>)
    requires
        s.len() > 0,
        chars::digit(s.last()),
        p == "am"@ || p == "pm"@,
    ensures
        scan::before(s, p) is None,
{
    reveal_strlit("am");
    reveal_strlit("pm");
    if scan::ends(s, p) {
        let i = s.len() - p.len();
        assert(s.subrange(i, i + p.len())[1] == s.last());
        assert(p[1] == 'm');
    }
}

/// Digits spell their number, with or without a plus sign before them.
proof fn lemma_number_of_digits(s: Seq<char>)
    requires
        s.len() > 0,
        number::all_digits(s),
    ensures
        number::number(s) == if number::value(s) <= u32::MAX {
            Some(number::value(s) as u32)
        } else {
            None::<u32>
        },
{
    assert(chars::digit(s[0]));
    assert(number::unsigned(s) == s);
}

/// Hours and minutes in digits, with a colon or a full stop between them, name the minute of the
/// day where there is such an hour and such a minute, and none otherwise.
pub proof fn law_a_clock_is_its_hours_and_minutes(hs: Seq<char>, ms: Seq<char>, c: char)
    requires
        hs.len() > 0,
        ms.len() > 0,
        number::all_digits(hs),
        number::all_digits(ms),
        c == ':' || c == '.',
    ensures
        arbitrate::minute_of(hs + seq![c] + ms) == if number::value(hs) < 24 && number::value(ms)
            < 60 {
            Some((number::value(hs) * 60 + number::value(ms)) as u32)
        } else {
            None::<u32>
        },
{
    let t = hs + seq![c] + ms;
    assert(t.last() == ms.last());
    assert(chars::digit(ms[ms.len() - 1]));
    lemma_digits_end(t, "am"@);
    lemma_digits_end(t, "pm"@);
    lemma_cut_at_colon(hs, ms, c);
    lemma_number_of_digits(hs);
    lemma_number_of_digits(ms);
}

/// An hour in digits alone names that hour.
pub proof fn law_an_hour_alone_is_a_clock(hs: Seq<char>)
    requires
        hs.len() > 0,
        number::all_digits(hs),
    ensures
        arbitrate::minute_of(hs) == if number::value(hs) < 24 {
            Some((number::value(hs) * 60) as u32)
        } else {
            None::<u32>
        },
{
    assert(chars::digit(hs[hs.len() - 1]));
    lemma_digits_end(hs, "am"@);
    lemma_digits_end(hs, "pm"@);
    lemma_number_of_digits(hs);
    assert forall|i: int| !scan::first_of(hs, i, Class::Two(':', '.')) by {
        if 0 <= i < hs.len() {
            assert(chars::digit(hs[i]));
        }
    }
}

proof fn lemma_two_digits(n: nat)
    requires
        n < 100,
    ensures
        number::two_digits(n).len() == 2,
        number::all_digits(number::two_digits(n)),
        number::value(number::two_digits(n)) == n,
{
    number::law_decimal_reads_back(n);
    let s = number::two_digits(n);
    if n < 10 {
        assert(s.drop_last() =~= seq!['0']);
        assert(seq!['0'].drop_last() =~= Seq::<char>::empty());
        reveal_with_fuel(number::value, 3);
    } else {
        reveal_with_fuel(number::decimal, 2);
        assert(number::decimal(n / 10).len() == 1);
    }
}

/// The label of a minute of the day is `HH:MM`, and reads back as that minute.
pub proof fn law_a_clock_label_reads_back(m: nat)
    requires
        m < 1440,
    ensures
        arbitrate::clock_label(m).len() == 5,
        arbitrate::clock_label(m)[2] == ':',
        arbitrate::minute_of(arbitrate::clock_label(m)) == Some(m as u32),
{
    reveal_strlit(":");
    lemma_two_digits(m / 60);
    lemma_two_digits(m % 60);
    let hs = number::two_digits(m / 60);
    let ms = number::two_digits(m % 60);
    assert(":"@ =~= seq![':']);
    assert(arbitrate::clock_label(m) =~= hs + seq![':'] + ms);
    law_a_clock_is_its_hours_and_minutes(hs, ms, ':');
    assert(m / 60 * 60 + m % 60 == m);
}

/// The label of a window is that of its start, a dash, and that of its end: two windows of one day
/// with the same label are the same.
pub proof fn law_window_labels_tell_windows_apart(a: Window, b: Window)
    requires
        a.start < 1440,
        a.end < 1440,
        b.start < 1440,
        b.end < 1440,
    ensures
        arbitrate::window_label(a).take(5) == arbitrate::clock_label(a.start as nat),
        arbitrate::window_label(a)[5] == '–',
        arbitrate::window_label(a).skip(6) == arbitrate::clock_label(a.end as nat),
        arbitrate::window_label(a) == arbitrate::window_label(b) ==> a == b,
{
    reveal_strlit("–");
    law_a_clock_label_reads_back(a.start as nat);
    law_a_clock_label_reads_back(a.end as nat);
    law_a_clock_label_reads_back(b.start as nat);
    law_a_clock_label_reads_back(b.end as nat);
    assert(arbitrate::window_label(a).take(5) =~= arbitrate::clock_label(a.start as nat));
    assert(arbitrate::window_label(a).skip(6) =~= arbitrate::clock_label(a.end as nat));
    assert(arbitrate::window_label(b).take(5) =~= arbitrate::clock_label(b.start as nat));
    assert(arbitrate::window_label(b).skip(6) =~= arbitrate::clock_label(b.end as nat));
}

proof fn lemma_no_white_ends(t: Seq<char>)
    requires
        t.len() > 0,
        !chars::white(t[0]),
        !chars::white(t.last()),
    ensures
        scan::trimmed(t) == t,
{
    assert(scan::drop_start(t, Class::White) == t);
    assert(scan::drop_end(t, Class::White) == t);
}

proof fn lemma_strips(t: Seq<char>, p: Seq<char>)
    ensures
        scan::before(t + p, p) == Some(t),
{
    let s = t + p;
    assert(s.subrange(s.len() - p.len(), s.len() as int) =~= p);
    assert(s.take(s.len() - p.len()) =~= t);
}

/// A text that `number` reads neither starts nor ends with white space.
proof fn lemma_numbers_are_tight(s: Seq<char>)
    requires
        number::number(s) is Some,
    ensures
        s.len() > 0,
        !chars::white(s[0]),
        chars::digit(s.last()),
{
    let d = number::unsigned(s);
    assert(d[d.len() - 1] == s.last());
    assert(chars::digit(d[d.len() - 1]));
    if s[0] != '+' {
        assert(chars::digit(d[0]));
    }
}

/// A clock without a meridiem starts and ends without white space, and ends with a digit.
proof fn lemma_clocks_are_tight(t: Seq<char>)
    requires
        arbitrate::hour_minute(t) is Some,
    ensures
        t.len() > 0,
        !chars::white(t[0]),
        chars::digit(t.last()),
{
    let k = Class::Two(':', '.');
    if exists|i: int| scan::first_of(t, i, k) {
        let i = choose|i: int| scan::first_of(t, i, k);
        let h = t.take(i);
        let m = t.skip(i + 1);
        assert(scan::cut_by(t, k) == Some((h, m)));
        lemma_numbers_are_tight(h);
        lemma_numbers_are_tight(m);
        assert(t[0] == h[0]);
        assert(t.last() == m.last());
    } else {
        lemma_numbers_are_tight(t);
    }
}

/// A clock that ends with a digit, with `pm` behind it, is the same clock of the second half of
/// the day; with `am` behind it, the same clock, and past twelve that of the first hour.
pub proof fn law_meridiems(t: Seq<char>, m: u32)
    requires
        arbitrate::minute_of(t) == Some(m),
        t.len() > 0,
        chars::digit(t.last()),
    ensures
        m < 1440,
        arbitrate::minute_of(t + "pm"@) == Some(
            if m < 720 {
                (m + 720) as u32
            } else {
                m
            },
        ),
        arbitrate::minute_of(t + "am"@) == Some(
            if 720 <= m < 780 {
                (m - 720) as u32
            } else {
                m
            },
        ),
{
    reveal_strlit("am");
    reveal_strlit("pm");
    lemma_digits_end(t, "am"@);
    lemma_digits_end(t, "pm"@);
    assert(arbitrate::meridiem(t) == (t, None::<bool>));
    lemma_clocks_are_tight(t);
    lemma_no_white_ends(t);
    lemma_strips(t, "pm"@);
    lemma_strips(t, "am"@);
    let s = t + "am"@;
    if scan::ends(s, "pm"@) {
        assert(s.subrange(s.len() - 2, s.len() as int)[0] == 'a');
    }
    let (h, x) = arbitrate::hour_minute(t)->0;
    assert(m == h * 60 + x);
}

// ---- windows ----

/// A word with a hyphen between two clocks is the window from the first to the second, where the
/// second is later; where it is not, or one is no clock, the word is no range.
pub proof fn law_ranges(a: Seq<char>, b: Seq<char>)
    requires
        scan::free_of(a, '-'),
    ensures
        ({
            let r = arbitrate::range_of(a + "-"@ + b);
            match (arbitrate::clock_of(a), arbitrate::clock_of(b)) {
                (Some(s), Some(e)) if s < e => r == Some(Window { start: s, end: e }),
                _ => r is None,
            }
        }),
{
    lemma_cut_hyphen(a, b);
}

proof fn lemma_cut_hyphen(a: Seq<char>, b: Seq<char>)
    requires
        scan::free_of(a, '-'),
    ensures
        scan::cut(a + "-"@ + b, "-"@) == Some((a, b)),
{
    reveal_strlit("-");
    let s = a + "-"@ + b;
    let n = a.len() as int;
    assert(s.subrange(n, n + 1) =~= "-"@);
    assert forall|j: int| j < n implies !scan::at(s, j, "-"@) by {
        if 0 <= j {
            assert(s.subrange(j, j + 1)[0] == a[j]);
        }
    }
    assert(scan::first_at(s, n, "-"@));
    let i = choose|i: int| scan::first_at(s, i, "-"@);
    scan::lemma_first_at_unique(s, i, n, "-"@);
    assert(s.take(n) =~= a);
    assert(s.skip(n + 1) =~= b);
}

/// `at` and a clock give ninety minutes, at most up to the last minute of the day; `after` and
/// `from` and a clock give the rest of the day. The clock needs a colon or a meridiem, and may have
/// a comma or a full stop behind it.
pub proof fn law_points(word: Seq<char>, clock: Seq<char>, s: u32)
    requires
        clock.len() > 0,
        clock.last() != ',',
        clock.last() != '.',
        scan::within(clock, ":"@) || scan::ends(clock, "am"@) || scan::ends(clock, "pm"@),
        arbitrate::clock_of(clock) == Some(s),
        s < 1440,
    ensures
        arbitrate::point_of("at"@, clock) == Some(
            Window {
                start: s,
                end: if s <= 1349 {
                    (s + 90) as u32
                } else {
                    1439
                },
            },
        ),
        arbitrate::point_of("after"@, clock) == Some(Window { start: s, end: 1439 }),
        arbitrate::point_of("from"@, clock) == Some(Window { start: s, end: 1439 }),
        arbitrate::point_of(word, clock.push(',')) == arbitrate::point_of(word, clock),
        arbitrate::point_of(word, clock.push('.')) == arbitrate::point_of(word, clock),
        word != "at"@ && !scan::starts(word, "after"@) && !scan::starts(word, "from"@)
            ==> arbitrate::point_of(word, clock) is None,
{
    let k = Class::Two(',', '.');
    reveal_strlit("at");
    reveal_strlit("after");
    reveal_strlit("from");
    assert(scan::drop_end(clock, k) == clock);
    assert(clock.push(',').drop_last() =~= clock);
    assert(clock.push('.').drop_last() =~= clock);
    assert(scan::drop_end(clock.push(','), k) == clock);
    assert(scan::drop_end(clock.push('.'), k) == clock);
    assert("after"@.subrange(0, 5) =~= "after"@);
    assert("from"@.subrange(0, 4) =~= "from"@);
    assert("at"@.len() == 2);
}

proof fn lemma_first_range(ts: Seq<Seq<char>>, i: int)
    requires
        0 <= i <= ts.len(),
        forall|j: int| 0 <= j < i ==> arbitrate::range_of(#[trigger] ts[j]) is None,
    ensures
        arbitrate::first_range(ts) == arbitrate::first_range(ts.skip(i)),
    decreases i,
{
    if i == 0 {
        assert(ts.skip(0) =~= ts);
    } else {
        lemma_first_range(ts, i - 1);
        assert(ts.skip(i - 1)[0] == ts[i - 1]);
        assert(ts.skip(i - 1).skip(1) =~= ts.skip(i));
    }
}

proof fn lemma_first_point(ts: Seq<Seq<char>>, i: int)
    requires
        0 <= i < ts.len(),
        forall|j: int, k: int|
            0 <= j < i && k == j + 1 ==> arbitrate::point_of(
                #[trigger] ts[j],
                #[trigger] ts[k],
            ) is None,
    ensures
        arbitrate::first_point(ts) == arbitrate::first_point(ts.skip(i)),
    decreases i,
{
    if i == 0 {
        assert(ts.skip(0) =~= ts);
    } else {
        lemma_first_point(ts, i - 1);
        assert(ts.skip(i - 1)[0] == ts[i - 1]);
        assert(ts.skip(i - 1)[1] == ts[i]);
        assert(ts.skip(i - 1).skip(1) =~= ts.skip(i));
    }
}

/// The first word of a text that is a range gives its window, whatever stands before it.
pub proof fn law_the_first_range_counts(l: Seq<char>, i: int)
    requires
        0 <= i < pieces::words(arbitrate::with_hyphens(l)).len(),
        forall|j: int|
            0 <= j < i ==> arbitrate::range_of(
                #[trigger] pieces::words(arbitrate::with_hyphens(l))[j],
            ) is None,
        arbitrate::range_of(pieces::words(arbitrate::with_hyphens(l))[i]) is Some,
    ensures
        arbitrate::window_of(l) == arbitrate::range_of(
            pieces::words(arbitrate::with_hyphens(l))[i],
        ),
{
    let ts = pieces::words(arbitrate::with_hyphens(l));
    lemma_first_range(ts, i);
    assert(ts.skip(i)[0] == ts[i]);
}

/// Where no word of a text is a range, the first two neighbours that name a point of time give its
/// window, and where there are none it has no window.
pub proof fn law_points_count_without_a_range(l: Seq<char>, i: int)
    requires
        0 <= i < pieces::words(arbitrate::with_hyphens(l)).len(),
        forall|j: int|
            0 <= j < pieces::words(arbitrate::with_hyphens(l)).len() ==> arbitrate::range_of(
                #[trigger] pieces::words(arbitrate::with_hyphens(l))[j],
            ) is None,
        forall|j: int, k: int|
            0 <= j < i && k == j + 1 ==> arbitrate::point_of(
                #[trigger] pieces::words(arbitrate::with_hyphens(l))[j],
                #[trigger] pieces::words(arbitrate::with_hyphens(l))[k],
            ) is None,
    ensures
        ({
            let ts = pieces::words(arbitrate::with_hyphens(l));
            if i + 1 < ts.len() {
                arbitrate::point_of(ts[i], ts[i + 1]) is Some ==> arbitrate::window_of(l)
                    == arbitrate::point_of(ts[i], ts[i + 1])
            } else {
                arbitrate::window_of(l) is None
            }
        }),
{
    let ts = pieces::words(arbitrate::with_hyphens(l));
    lemma_first_range(ts, ts.len() as int);
    lemma_first_point(ts, i);
    assert(ts.skip(i)[0] == ts[i]);
    if i + 1 < ts.len() {
        assert(ts.skip(i)[1] == ts[i + 1]);
    }
}

/// A range between two words can be written with a hyphen, a dash, `to` or `until`.
pub proof fn law_ways_to_write_a_range(a: Seq<char>, b: Seq<char>)
    requires
        scan::free_of(a, ' '),
        scan::free_of(b, ' '),
        scan::free_of(a, '–'),
        scan::free_of(b, '–'),
    ensures
        arbitrate::with_hyphens(a + "-"@ + b) == a + "-"@ + b,
        arbitrate::with_hyphens(a + "–"@ + b) == a + "-"@ + b,
        arbitrate::with_hyphens(a + " to "@ + b) == a + "-"@ + b,
        arbitrate::with_hyphens(a + " until "@ + b) == a + "-"@ + b,
{
    reveal_strlit("-");
    reveal_strlit("–");
    reveal_strlit(" to ");
    reveal_strlit(" until ");
    let r = a + "-"@ + b;
    laws::law_nothing_is_replaced(r, "–"@, "-"@);
    laws::law_nothing_is_replaced(r, " to "@, "-"@);
    laws::law_nothing_is_replaced(r, " until "@, "-"@);
    laws::law_occurrences_are_replaced(a, "–"@, b, "-"@);
    laws::law_nothing_is_replaced(b, "–"@, "-"@);
    laws::law_nothing_is_replaced(a + " to "@ + b, "–"@, "-"@);
    laws::law_occurrences_are_replaced(a, " to "@, b, "-"@);
    laws::law_nothing_is_replaced(b, " to "@, "-"@);
    let u = a + " until "@ + b;
    laws::law_nothing_is_replaced(u, "–"@, "-"@);
    lemma_no_to(a, b);
    laws::law_occurrences_are_replaced(a, " until "@, b, "-"@);
    laws::law_nothing_is_replaced(b, " until "@, "-"@);
}

proof fn lemma_no_to(a: Seq<char>, b: Seq<char>)
    requires
        scan::free_of(a, ' '),
        scan::free_of(b, ' '),
    ensures
        pieces::replaced(a + " until "@ + b, " to "@, "-"@) == a + " until "@ + b,
    decreases a.len(),
{
    reveal_strlit(" to ");
    reveal_strlit(" until ");
    let s = a + " until "@ + b;
    if scan::starts(s, " to "@) {
        assert(s.subrange(0, 4)[0] == s[0]);
        assert(s.subrange(0, 4)[1] == s[1]);
    }
    if a.len() == 0 {
        let t = s.skip(1);
        // What follows the first space holds one space, before `b`.
        reveal_strlit("until");
        lemma_one_space("until"@, b);
        assert(t =~= "until"@ + " "@ + b) by {
            reveal_strlit(" ");
        }
        assert(seq![s[0]] + t =~= s);
    } else {
        let t = a.skip(1);
        assert forall|i: int| 0 <= i < t.len() implies #[trigger] t[i] != ' ' by {
            assert(t[i] == a[i + 1]);
        }
        lemma_no_to(t, b);
        assert(s.skip(1) =~= t + " until "@ + b);
        assert(seq![s[0]] + s.skip(1) =~= s);
    }
}

proof fn lemma_one_space(a: Seq<char>, b: Seq<char>)
    requires
        scan::free_of(a, ' '),
        scan::free_of(b, ' '),
    ensures
        pieces::replaced(a + " "@ + b, " to "@, "-"@) == a + " "@ + b,
    decreases a.len(),
{
    reveal_strlit(" to ");
    reveal_strlit(" ");
    let s = a + " "@ + b;
    if a.len() == 0 {
        if scan::starts(s, " to "@) {
            assert(s.subrange(0, 4)[3] == s[3]);
            assert(s[3] == b[2]);
        }
        assert(s.skip(1) =~= b);
        laws::law_nothing_is_replaced(b, " to "@, "-"@);
        assert(seq![s[0]] + b =~= s);
    } else {
        if scan::starts(s, " to "@) {
            assert(s.subrange(0, 4)[0] == s[0]);
        }
        let t = a.skip(1);
        assert forall|i: int| 0 <= i < t.len() implies #[trigger] t[i] != ' ' by {
            assert(t[i] == a[i + 1]);
        }
        lemma_one_space(t, b);
        assert(s.skip(1) =~= t + " "@ + b);
        assert(seq![s[0]] + s.skip(1) =~= s);
    }
}

// ---- days and commitments ----

/// The day of a text is the first of the seven weekdays, tomorrow, today and tonight, in this
/// order, that it names, and tonight is today; a text that names none has no day.
pub proof fn law_the_day_of_a_text(l: Seq<char>)
    ensures
        scan::within(l, "monday"@) ==> arbitrate::day_of(l) == Some("monday"@),
        scan::within(l, "tuesday"@) && !scan::within(l, "monday"@) ==> arbitrate::day_of(l) == Some("tuesday"@),
        scan::within(l, "wednesday"@) && !scan::within(l, "monday"@) && !scan::within(l, "tuesday"@) ==> arbitrate::day_of(l) == Some("wednesday"@),
        scan::within(l, "thursday"@) && !scan::within(l, "monday"@) && !scan::within(l, "tuesday"@) && !scan::within(l, "wednesday"@) ==> arbitrate::day_of(l) == Some("thursday"@),
        scan::within(l, "friday"@) && !scan::within(l, "monday"@) && !scan::within(l, "tuesday"@) && !scan::within(l, "wednesday"@) && !scan::within(l, "thursday"@) ==> arbitrate::day_of(l) == Some("friday"@),
        scan::within(l, "saturday"@) && !scan::within(l, "monday"@) && !scan::within(l, "tuesday"@) && !scan::within(l, "wednesday"@) && !scan::within(l, "thursday"@) && !scan::within(l, "friday"@) ==> arbitrate::day_of(l) == Some("saturday"@),
        scan::within(l, "sunday"@) && !scan::within(l, "monday"@) && !scan::within(l, "tuesday"@) && !scan::within(l, "wednesday"@) && !scan::within(l, "thursday"@) && !scan::within(l, "friday"@) && !scan::within(l, "saturday"@) ==> arbitrate::day_of(l) == Some("sunday"@),
        scan::within(l, "tomorrow"@) && !scan::within(l, "monday"@) && !scan::within(l, "tuesday"@) && !scan::within(l, "wednesday"@) && !scan::within(l, "thursday"@) && !scan::within(l, "friday"@) && !scan::within(l, "saturday"@) && !scan::within(l, "sunday"@) ==> arbitrate::day_of(l) == Some("tomorrow"@),
        scan::within(l, "today"@) && !scan::within(l, "monday"@) && !scan::within(l, "tuesday"@) && !scan::within(l, "wednesday"@) && !scan::within(l, "thursday"@) && !scan::within(l, "friday"@) && !scan::within(l, "saturday"@) && !scan::within(l, "sunday"@) && !scan::within(l, "tomorrow"@) ==> arbitrate::day_of(l) == Some("today"@),
        scan::within(l, "tonight"@) && !scan::within(l, "monday"@) && !scan::within(l, "tuesday"@) && !scan::within(l, "wednesday"@) && !scan::within(l, "thursday"@) && !scan::within(l, "friday"@) && !scan::within(l, "saturday"@) && !scan::within(l, "sunday"@) && !scan::within(l, "tomorrow"@) && !scan::within(l, "today"@) ==> arbitrate::day_of(l) == Some("today"@),
        !scan::within(l, "monday"@) && !scan::within(l, "tuesday"@) && !scan::within(l, "wednesday"@) && !scan::within(l, "thursday"@) && !scan::within(l, "friday"@) && !scan::within(l, "saturday"@) && !scan::within(l, "sunday"@) && !scan::within(l, "tomorrow"@) && !scan::within(l, "today"@) && !scan::within(l, "tonight"@) ==> arbitrate::day_of(l) is None,
{
    let ds = arbitrate::day_words();
    assert(ds.skip(0) =~= ds);
    assert(ds.skip(0)[0] == "monday"@);
    assert(ds.skip(0).skip(1) =~= ds.skip(1));
    reveal_strlit("monday");
    assert(ds.skip(1)[0] == "tuesday"@);
    assert(ds.skip(1).skip(1) =~= ds.skip(2));
    reveal_strlit("tuesday");
    assert(ds.skip(2)[0] == "wednesday"@);
    assert(ds.skip(2).skip(1) =~= ds.skip(3));
    reveal_strlit("wednesday");
    assert(ds.skip(3)[0] == "thursday"@);
    assert(ds.skip(3).skip(1) =~= ds.skip(4));
    reveal_strlit("thursday");
    assert(ds.skip(4)[0] == "friday"@);
    assert(ds.skip(4).skip(1) =~= ds.skip(5));
    reveal_strlit("friday");
    assert(ds.skip(5)[0] == "saturday"@);
    assert(ds.skip(5).skip(1) =~= ds.skip(6));
    reveal_strlit("saturday");
    assert(ds.skip(6)[0] == "sunday"@);
    assert(ds.skip(6).skip(1) =~= ds.skip(7));
    reveal_strlit("sunday");
    assert(ds.skip(7)[0] == "tomorrow"@);
    assert(ds.skip(7).skip(1) =~= ds.skip(8));
    reveal_strlit("tomorrow");
    assert(ds.skip(8)[0] == "today"@);
    assert(ds.skip(8).skip(1) =~= ds.skip(9));
    reveal_strlit("today");
    assert(ds.skip(9)[0] == "tonight"@);
    assert(ds.skip(9).skip(1) =~= ds.skip(10));
    reveal_strlit("tonight");
    assert("tuesday"@[1] == 'u' && "tonight"@[1] == 'o');
    reveal_with_fuel(arbitrate::first_day, 11);
}

/// A label is the first five words of a text, one space apart, or all of them.
pub proof fn law_a_label_is_five_words(text: Seq<char>)
    ensures
        pieces::words(arbitrate::short_of(text)).len() == if pieces::words(text).len() < 5 {
            pieces::words(text).len() as int
        } else {
            5
        },
        forall|i: int|
            0 <= i < pieces::words(arbitrate::short_of(text)).len() ==> (
            #[trigger] pieces::words(arbitrate::short_of(text))[i]) == pieces::words(text)[i],
{
    pieces::lemma_words_are_words(text);
    let all = pieces::words(text);
    let few = pieces::at_most(all, 5);
    assert forall|i: int| 0 <= i < few.len() implies pieces::word_like(#[trigger] few[i]) by {
        assert(few[i] == all[i]);
    }
    pieces::lemma_words_of_joined(few);
}

/// An item states a commitment exactly where it is known or assumed, is no preference, and its text
/// names a window: one in the world of the item, on the day and in the window that the text names.
pub proof fn law_which_items_are_commitments(i: ItemView)
    ensures
        ({
            let c = arbitrate::commitment_of(i);
            let l = chars::lowercase(i.text->0);
            &&& c is Some <==> i.kind != Kind::Recommended && !scan::starts(i.key, "preference."@)
                && i.text is Some && arbitrate::window_of(l) is Some
            &&& c is Some ==> c->0.domain == i.domain && Some(c->0.window)
                == arbitrate::window_of(l) && c->0.day == arbitrate::day_of(l) && c->0.label
                == arbitrate::short_of(i.text->0)
        }),
{
}

proof fn lemma_stated(items: Seq<ItemView>, c: CommitmentView)
    ensures
        arbitrate::stated(items).contains(c) <==> exists|k: int|
            0 <= k < items.len() && arbitrate::commitment_of(#[trigger] items[k]) == Some(c),
    decreases items.len(),
{
    if items.len() > 0 {
        let init = items.drop_last();
        lemma_stated(init, c);
        let s = arbitrate::stated(init);
        assert(forall|k: int| 0 <= k < init.len() ==> init[k] == items[k]);
        assert(items[items.len() - 1] == items.last());
        match arbitrate::commitment_of(items.last()) {
            Some(x) => {
                assert(s.push(x)[s.len() as int] == x);
                if s.contains(c) {
                    let k = choose|k: int| 0 <= k < s.len() && s[k] == c;
                    assert(s.push(x)[k] == c);
                }
            },
            None => {},
        }
    }
}

/// The commitments that are found are exactly those that some item states.
pub proof fn law_no_commitment_is_lost(items: Seq<ItemView>, c: CommitmentView)
    ensures
        arbitrate::stated(items).contains(c) <==> exists|k: int|
            0 <= k < items.len() && arbitrate::commitment_of(#[trigger] items[k]) == Some(c),
{
    lemma_stated(items, c);
}

/// The days of two commitments do not rule each other out: they are the same, or one is open.
pub open spec fn days_meet(a: Option<Seq<char>>, b: Option<Seq<char>>) -> bool {
    a is None || b is None || a == b
}

/// The conflicts are exactly the pairs of a commitment at work and one at home that can fall on the
/// same day and of which neither ends by the start of the other.
pub proof fn law_conflicts_share_a_day_and_a_time(items: Seq<CommitmentView>, c: ConflictView)
    ensures
        arbitrate::clashes(items, items).contains(c) <==> {
            &&& items.contains(c.work)
            &&& items.contains(c.home)
            &&& c.work.domain == Domain::Work
            &&& c.home.domain == Domain::Home
            &&& days_meet(c.work.day, c.home.day)
            &&& c.work.window.start < c.home.window.end
            &&& c.home.window.start < c.work.window.end
        },
{
    arbitrate::law_conflicts_are_the_clashes(items, c);
}

/// Without a commitment at work, or without one at home, nothing conflicts.
pub proof fn law_one_world_alone_never_conflicts(items: Seq<CommitmentView>, d: Domain)
    requires
        d != Domain::Shared,
        forall|i: int| 0 <= i < items.len() ==> (#[trigger] items[i]).domain != d,
    ensures
        arbitrate::clashes(items, items).len() == 0,
{
    let cs = arbitrate::clashes(items, items);
    if cs.len() > 0 {
        assert(cs.contains(cs[0]));
        arbitrate::law_conflicts_are_the_clashes(items, cs[0]);
        let w = choose|k: int| 0 <= k < items.len() && items[k] == cs[0].work;
        let h = choose|k: int| 0 <= k < items.len() && items[k] == cs[0].home;
        assert(items[w].domain == Domain::Work);
        assert(items[h].domain == Domain::Home);
    }
}

proof fn lemma_clashes_with_once(w: CommitmentView, others: Seq<CommitmentView>)
    requires
        others.no_duplicates(),
    ensures
        arbitrate::clashes_with(w, others).no_duplicates(),
        forall|k: int|
            0 <= k < arbitrate::clashes_with(w, others).len() ==> (
            #[trigger] arbitrate::clashes_with(w, others)[k]).work == w && others.contains(
                arbitrate::clashes_with(w, others)[k].home,
            ),
    decreases others.len(),
{
    if others.len() > 0 {
        let init = others.drop_last();
        lemma_clashes_with_once(w, init);
        let r = arbitrate::clashes_with(w, init);
        assert forall|k: int| 0 <= k < r.len() implies others.contains((#[trigger] r[k]).home)
            && r[k].home != others.last() by {
            let j = choose|j: int| 0 <= j < init.len() && init[j] == r[k].home;
            assert(others[j] == r[k].home);
            assert(others[others.len() - 1] == others.last());
        }
        assert(others.contains(others.last())) by {
            assert(others[others.len() - 1] == others.last());
        }
    }
}

proof fn lemma_clashes_once(ws: Seq<CommitmentView>, items: Seq<CommitmentView>)
    requires
        ws.no_duplicates(),
        items.no_duplicates(),
    ensures
        arbitrate::clashes(ws, items).no_duplicates(),
        forall|k: int|
            0 <= k < arbitrate::clashes(ws, items).len() ==> ws.contains(
                (#[trigger] arbitrate::clashes(ws, items)[k]).work,
            ),
    decreases ws.len(),
{
    if ws.len() > 0 {
        let init = ws.drop_last();
        lemma_clashes_once(init, items);
        lemma_clashes_with_once(ws.last(), items);
        let a = arbitrate::clashes(init, items);
        let b = arbitrate::clashes_with(ws.last(), items);
        assert(ws.contains(ws.last())) by {
            assert(ws[ws.len() - 1] == ws.last());
        }
        assert forall|k: int| 0 <= k < a.len() implies ws.contains((#[trigger] a[k]).work)
            && a[k].work != ws.last() by {
            let j = choose|j: int| 0 <= j < init.len() && init[j] == a[k].work;
            assert(ws[j] == a[k].work);
            assert(ws[ws.len() - 1] == ws.last());
        }
        let s = a + b;
        assert forall|i: int, j: int|
            0 <= i < s.len() && 0 <= j < s.len() && i != j implies s[i] != s[j] by {
            if i < a.len() && j >= a.len() {
                assert(a[i].work != b[j - a.len()].work);
            } else if i >= a.len() && j < a.len() {
                assert(a[j].work != b[i - a.len()].work);
            } else if i < a.len() {
                assert(a[i] != a[j]);
            } else {
                assert(b[i - a.len()] != b[j - a.len()]);
            }
        }
    }
}

/// Among distinct commitments no conflict is counted twice.
pub proof fn law_no_conflict_is_counted_twice(items: Seq<CommitmentView>)
    requires
        items.no_duplicates(),
    ensures
        arbitrate::clashes(items, items).no_duplicates(),
{
    lemma_clashes_once(items, items);
}

/// What intrudes into a protected window is exactly the work that neither ends by its start nor
/// starts by its end, each time it is stated.
pub proof fn law_only_work_intrudes(items: Seq<CommitmentView>, p: Window)
    ensures
        arbitrate::intrusions(items, p) == items.filter(
            |c: CommitmentView|
                c.domain == Domain::Work && c.window.start < p.end && p.start < c.window.end,
        ),
    decreases items.len(),
{
    reveal(Seq::filter);
    if items.len() > 0 {
        law_only_work_intrudes(items.drop_last(), p);
    }
}

/// The protected time is the window of the first item that states one.
pub proof fn law_the_first_protected_window_counts(items: Seq<ItemView>, i: int)
    requires
        0 <= i <= items.len(),
        forall|j: int|
            0 <= j < i ==> (#[trigger] items[j]).text is None || arbitrate::window_of(
                chars::lowercase(items[j].text->0),
            ) is None,
    ensures
        i == items.len() ==> arbitrate::first_window(items) is None,
        i < items.len() && items[i].text is Some && arbitrate::window_of(
            chars::lowercase(items[i].text->0),
        ) is Some ==> arbitrate::first_window(items) == arbitrate::window_of(
            chars::lowercase(items[i].text->0),
        ),
    decreases i,
{
    if i > 0 {
        let rest = items.skip(1);
        assert forall|j: int| 0 <= j < i - 1 implies (#[trigger] rest[j]).text is None
            || arbitrate::window_of(chars::lowercase(rest[j].text->0)) is None by {
            assert(rest[j] == items[j + 1]);
        }
        assert(items[0].text is None || arbitrate::window_of(
            chars::lowercase(items[0].text->0),
        ) is None);
        law_the_first_protected_window_counts(rest, i - 1);
    }
}

// ---- proposals ----

/// Two proposals say the same: of the same agent, in the same words, whatever their case and the
/// space between them.
pub open spec fn says_the_same(a: ActionView, b: ActionView) -> bool {
    a.agent == b.agent && pieces::words(chars::lowercase(a.text)) == pieces::words(
        chars::lowercase(b.text),
    )
}

proof fn lemma_keys_are_words(a: ActionView, b: ActionView)
    ensures
        says_the_same(a, b) <==> arbitrate::proposal_key(a) == arbitrate::proposal_key(b),
{
    pieces::lemma_words_are_words(chars::lowercase(a.text));
    pieces::lemma_words_are_words(chars::lowercase(b.text));
    pieces::lemma_words_of_joined(pieces::words(chars::lowercase(a.text)));
    pieces::lemma_words_of_joined(pieces::words(chars::lowercase(b.text)));
}

/// A proposal is dropped exactly where one before it says the same.
pub proof fn law_a_proposal_is_dropped_where_one_before_says_the_same(
    before: Seq<ActionView>,
    a: ActionView,
)
    ensures
        ({
            let kept = arbitrate::deduped(before);
            if exists|i: int| 0 <= i < before.len() && says_the_same(#[trigger] before[i], a) {
                arbitrate::deduped(before.push(a)) == kept
            } else {
                arbitrate::deduped(before.push(a)) == kept.push(a)
            }
        }),
        arbitrate::deduped(Seq::<ActionView>::empty()).len() == 0,
{
    let kept = arbitrate::deduped(before);
    assert(before.push(a).drop_last() =~= before);
    arbitrate::law_no_duplicates_stay(before);
    if exists|i: int| 0 <= i < before.len() && says_the_same(#[trigger] before[i], a) {
        let i = choose|i: int| 0 <= i < before.len() && says_the_same(#[trigger] before[i], a);
        lemma_keys_are_words(before[i], a);
        let k = choose|k: int|
            0 <= k < kept.len() && arbitrate::proposal_key(#[trigger] kept[k])
                == arbitrate::proposal_key(before[i]);
        assert(arbitrate::proposal_key(kept[k]) == arbitrate::proposal_key(a));
    } else {
        assert forall|k: int| 0 <= k < kept.len() implies arbitrate::proposal_key(
            #[trigger] kept[k],
        ) != arbitrate::proposal_key(a) by {
            assert(before.contains(kept[k]));
            let i = choose|i: int| 0 <= i < before.len() && before[i] == kept[k];
            lemma_keys_are_words(before[i], a);
        }
    }
}

// ---- the question ----

/// Conflicts come before intrusions: where there is one, the question names the home commitment's
/// day and start, the work that runs into it, and how many more there are.
pub proof fn law_the_question_names_the_first_conflict(
    items: Seq<CommitmentView>,
    protected: Option<Window>,
)
    requires
        arbitrate::clashes(items, items).len() > 0,
    ensures
        ({
            let n = arbitrate::clashes(items, items).len();
            let c = arbitrate::clashes(items, items)[0];
            let day = if c.home.day is Some {
                " "@ + c.home.day->0
            } else {
                ""@
            };
            let more = if n == 1 {
                ""@
            } else if n == 2 {
                " (and "@ + number::decimal(1) + " more overlap)"@
            } else {
                " (and "@ + number::decimal((n - 1) as nat) + " more overlaps)"@
            };
            arbitrate::question_of(items, protected) == Some(
                "You have a family commitment"@ + day + " at "@ + arbitrate::clock_label(
                    c.home.window.start as nat,
                ) + ", but your current work schedule extends into that period ("@ + c.work.label
                    + " "@ + arbitrate::window_label(c.work.window) + ")"@ + more
                    + ". Would you like me to help reorganize your tasks?"@,
            )
        }),
{
    reveal_strlit("");
    reveal_strlit("s");
    reveal_strlit(")");
    reveal_strlit(" more overlap");
    reveal_strlit(" more overlap)");
    reveal_strlit(" more overlaps)");
    let n = arbitrate::clashes(items, items).len();
    let c = arbitrate::clashes(items, items)[0];
    assert(""@ =~= Seq::<char>::empty());
    let d = number::decimal((n - 1) as nat);
    assert(" more overlap"@ + ""@ + ")"@ =~= " more overlap)"@);
    assert(" more overlap"@ + "s"@ + ")"@ =~= " more overlaps)"@);
    assert(" (and "@ + d + " more overlap"@ + ""@ + ")"@ =~= " (and "@ + d + " more overlap)"@);
    assert(" (and "@ + d + " more overlap"@ + "s"@ + ")"@ =~= " (and "@ + d
        + " more overlaps)"@);
}

/// Where nothing conflicts, the question is about the first work in the protected time; without
/// such work, or without a protected time, there is none.
pub proof fn law_the_question_names_the_first_intrusion(
    items: Seq<CommitmentView>,
    protected: Option<Window>,
)
    requires
        arbitrate::clashes(items, items).len() == 0,
    ensures
        protected is None ==> arbitrate::question_of(items, protected) is None,
        protected is Some ==> ({
            let p = protected->0;
            let inside = items.filter(
                |c: CommitmentView|
                    c.domain == Domain::Work && c.window.start < p.end && p.start < c.window.end,
            );
            if inside.len() == 0 {
                arbitrate::question_of(items, protected) is None
            } else {
                arbitrate::question_of(items, protected) == Some(
                    inside[0].label + " ("@ + arbitrate::window_label(inside[0].window)
                        + ") falls inside the time you protect ("@ + arbitrate::window_label(p)
                        + "). Would you like me to help move it?"@,
                )
            }
        }),
{
    if protected is Some {
        law_only_work_intrudes(items, protected->0);
    }
}

/// A question is put before the answer and brings one more proposal, to reorganize, before those
/// that stay; without one, the answer and the proposals stay as they are.
pub proof fn law_a_question_comes_first(
    q: Option<Seq<char>>,
    html: Seq<char>,
    kept: Seq<ActionView>,
)
    ensures
        q is None ==> arbitrate::told(q, html) == html && arbitrate::proposed(q, kept) == kept,
        q is Some ==> {
            &&& arbitrate::told(q, html).len() == q->0.len() + 1 + html.len()
            &&& arbitrate::told(q, html).take(q->0.len() as int) == q->0
            &&& arbitrate::told(q, html)[q->0.len() as int] == ' '
            &&& arbitrate::told(q, html).skip((q->0.len() + 1) as int) == html
            &&& arbitrate::proposed(q, kept).len() == kept.len() + 1
            &&& arbitrate::proposed(q, kept).skip(1) == kept
            &&& arbitrate::proposed(q, kept)[0].mode == Mode::Suggest
            &&& arbitrate::proposed(q, kept)[0].domain == Domain::Work
            &&& arbitrate::proposed(q, kept)[0].agent == "productivity"@
            &&& arbitrate::proposed(q, kept)[0].card == "Arbitration"@
            &&& arbitrate::proposed(q, kept)[0].text
                == "Reorganize my tasks around the commitment"@
        },
{
    reveal_strlit(" ");
    if q is Some {
        let s = arbitrate::told(q, html);
        assert(s.take(q->0.len() as int) =~= q->0);
        assert(s.skip((q->0.len() + 1) as int) =~= html);
        assert(arbitrate::proposed(q, kept).skip(1) =~= kept);
    }
}

} // verus!
