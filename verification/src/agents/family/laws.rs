//! What the dates of the family promise: how they are written, whose they are, and when they come.

use vstd::prelude::*;

use crate::agents::family;
use crate::agents::family::ContactView;
use crate::agents::family::DateView;
use crate::calendar;
use crate::text::chars;
use crate::text::chars::Class;
use crate::text::laws;
use crate::text::number;
use crate::text::pieces;
use crate::text::scan;

verus! {

// ---- months and days ----

/// A word names the month whose first three letters it starts with, and no other word does.
pub proof fn law_months_by_three_letters(w: Seq<char>)
    ensures
        family::month_of(w) == Some(1u32) <==> scan::starts(w, "jan"@),
        family::month_of(w) == Some(2u32) <==> scan::starts(w, "feb"@),
        family::month_of(w) == Some(3u32) <==> scan::starts(w, "mar"@),
        family::month_of(w) == Some(4u32) <==> scan::starts(w, "apr"@),
        family::month_of(w) == Some(5u32) <==> scan::starts(w, "may"@),
        family::month_of(w) == Some(6u32) <==> scan::starts(w, "jun"@),
        family::month_of(w) == Some(7u32) <==> scan::starts(w, "jul"@),
        family::month_of(w) == Some(8u32) <==> scan::starts(w, "aug"@),
        family::month_of(w) == Some(9u32) <==> scan::starts(w, "sep"@),
        family::month_of(w) == Some(10u32) <==> scan::starts(w, "oct"@),
        family::month_of(w) == Some(11u32) <==> scan::starts(w, "nov"@),
        family::month_of(w) == Some(12u32) <==> scan::starts(w, "dec"@),
        family::month_of(w) matches Some(m) ==> 1 <= m <= 12,
{
    reveal_strlit("jan");
    reveal_strlit("feb");
    reveal_strlit("mar");
    reveal_strlit("apr");
    reveal_strlit("may");
    reveal_strlit("jun");
    reveal_strlit("jul");
    reveal_strlit("aug");
    reveal_strlit("sep");
    reveal_strlit("oct");
    reveal_strlit("nov");
    reveal_strlit("dec");
    let t = w.subrange(0, 3);
    let names = family::month_names();
    assert forall|i: int, j: int|
        0 <= i < 12 && 0 <= j < 12 && i != j implies #[trigger] names[i] != #[trigger] names[j] by {
        assert(names[i][0] != names[j][0] || names[i][1] != names[j][1] || names[i][2]
            != names[j][2]);
    }
    assert(forall|i: int| 0 <= i < 12 ==> (#[trigger] names[i]).len() == 3);
    lemma_month(w, 1);
    assert forall|m: int| 1 <= m <= 12 implies (family::month_of(w) == Some(m as u32)
        <==> scan::starts(w, #[trigger] names[m - 1])) by {
        if scan::starts(w, names[m - 1]) {
            assert(family::month_of(w) is Some);
            let k = family::month_of(w)->0;
            assert(scan::starts(w, names[k - 1]));
            assert(names[k - 1] == names[m - 1]);
        }
    }
    assert(names[1 - 1] == "jan"@ && names[2 - 1] == "feb"@ && names[3 - 1] == "mar"@);
    assert(names[4 - 1] == "apr"@ && names[5 - 1] == "may"@ && names[6 - 1] == "jun"@);
    assert(names[7 - 1] == "jul"@ && names[8 - 1] == "aug"@ && names[9 - 1] == "sep"@);
    assert(names[10 - 1] == "oct"@ && names[11 - 1] == "nov"@ && names[12 - 1] == "dec"@);
}

proof fn lemma_month(w: Seq<char>, m: int)
    requires
        1 <= m <= 13,
    ensures
        match family::month_from(w, m) {
            Some(k) => m <= k <= 12 && scan::starts(w, family::month_names()[k - 1]),
            None => forall|k: int|
                m <= k <= 12 ==> !scan::starts(w, #[trigger] family::month_names()[k - 1]),
        },
    decreases 13 - m,
{
    if m <= 12 {
        lemma_month(w, m + 1);
    }
}

proof fn lemma_ending(ds: Seq<char>, end: Seq<char>)
    requires
        ds.len() > 0,
        !chars::alphabetic(ds.last()),
        forall|i: int| 0 <= i < end.len() ==> chars::alphabetic(#[trigger] end[i]),
    ensures
        scan::drop_end(ds + end, Class::Alphabetic) == ds,
    decreases end.len(),
{
    if end.len() == 0 {
        assert(ds + end =~= ds);
    } else {
        let s = ds + end;
        assert(s.last() == end[end.len() - 1]);
        assert(s.drop_last() =~= ds + end.drop_last());
        lemma_ending(ds, end.drop_last());
    }
}

proof fn lemma_digits_spell(s: Seq<char>)
    requires
        s.len() > 0,
        number::all_digits(s),
        number::value(s) <= u32::MAX,
    ensures
        number::number(s) == Some(number::value(s) as u32),
{
    assert(chars::digit(s[0]));
    assert(number::unsigned(s) == s);
}

/// A word of digits is the day that they spell, whatever letters end it, where there is such a day
/// in a month.
pub proof fn law_days_with_endings(ds: Seq<char>, end: Seq<char>)
    requires
        ds.len() > 0,
        number::all_digits(ds),
        number::value(ds) <= u32::MAX,
        !chars::alphabetic(ds.last()),
        forall|i: int| 0 <= i < end.len() ==> chars::alphabetic(#[trigger] end[i]),
    ensures
        family::day_of(ds + end) == if 1 <= number::value(ds) <= 31 {
            Some(number::value(ds) as u32)
        } else {
            None::<u32>
        },
{
    lemma_ending(ds, end);
    lemma_digits_spell(ds);
}

/// A month takes the day behind it, or else the one before it; without either it gives no date.
pub proof fn law_the_day_behind_a_month_comes_first(ts: Seq<Seq<char>>, i: int)
    requires
        0 <= i < ts.len(),
    ensures
        ({
            let r = family::named_at(ts, i);
            let m = family::month_of(ts[i]);
            let behind = i + 1 < ts.len() && family::day_of(ts[i + 1]) is Some;
            let before = i > 0 && family::day_of(ts[i - 1]) is Some;
            &&& r is Some <==> m is Some && (behind || before)
            &&& m is Some && behind ==> r == Some((m->0, family::day_of(ts[i + 1])->0))
            &&& m is Some && !behind && before ==> r == Some(
                (m->0, family::day_of(ts[i - 1])->0),
            )
        }),
{
}

proof fn lemma_named_from(ts: Seq<Seq<char>>, i: int)
    requires
        0 <= i <= ts.len(),
        forall|j: int| 0 <= j < i ==> family::named_at(ts, j) is None,
    ensures
        family::named_from(ts, 0) == family::named_from(ts, i),
    decreases i,
{
    if i > 0 {
        lemma_named_from(ts, i - 1);
        assert(family::named_at(ts, i - 1) is None);
    }
}

/// Without a date in figures, the first month with a day beside it gives the date of a text.
pub proof fn law_the_first_named_date_counts(l: Seq<char>, i: int)
    requires
        family::first_figures(pieces::words(l)) is None,
        0 <= i <= pieces::tokens(l, Class::NotAlphanumeric).len(),
        forall|j: int|
            0 <= j < i ==> family::named_at(pieces::tokens(l, Class::NotAlphanumeric), j) is None,
    ensures
        ({
            let ts = pieces::tokens(l, Class::NotAlphanumeric);
            &&& i == ts.len() ==> family::date_in(l) is None
            &&& i < ts.len() && family::named_at(ts, i) is Some ==> family::date_in(l)
                == family::named_at(ts, i)
        }),
{
    lemma_named_from(pieces::tokens(l, Class::NotAlphanumeric), i);
}

/// The first word that is a date in figures gives the date of a text, whatever months it names.
pub proof fn law_figures_come_before_names(l: Seq<char>, i: int)
    requires
        0 <= i < pieces::words(l).len(),
        forall|j: int|
            0 <= j < i ==> family::figures_in(#[trigger] pieces::words(l)[j]) is None,
        family::figures_in(pieces::words(l)[i]) is Some,
    ensures
        family::date_in(l) == family::figures_in(pieces::words(l)[i]),
{
    lemma_first_figures(pieces::words(l), i);
}

proof fn lemma_first_figures(ws: Seq<Seq<char>>, i: int)
    requires
        0 <= i < ws.len(),
        forall|j: int| 0 <= j < i ==> family::figures_in(#[trigger] ws[j]) is None,
        family::figures_in(ws[i]) is Some,
    ensures
        family::first_figures(ws) == family::figures_in(ws[i]),
    decreases i,
{
    if i > 0 {
        let rest = ws.skip(1);
        assert(forall|j: int| 0 <= j < rest.len() ==> rest[j] == ws[j + 1]);
        assert forall|j: int| 0 <= j < i - 1 implies family::figures_in(
            #[trigger] rest[j],
        ) is None by {
            assert(rest[j] == ws[j + 1]);
        }
        assert(family::figures_in(ws[0]) is None);
        lemma_first_figures(rest, i - 1);
    }
}

// ---- figures ----

proof fn lemma_digits_hold_no_sign(s: Seq<char>)
    requires
        number::all_digits(s),
    ensures
        forall|i: int| 0 <= i < s.len() ==> !Class::Three('-', '/', '.').has(#[trigger] s[i]),
{
    assert forall|i: int| 0 <= i < s.len() implies !Class::Three('-', '/', '.').has(
        #[trigger] s[i],
    ) by {
        assert(chars::digit(s[i]));
    }
}

proof fn lemma_numbers_of_two(a: Seq<char>, b: Seq<char>)
    requires
        number::number(a) is Some,
        number::number(b) is Some,
    ensures
        family::numbers(seq![a, b]) == seq![number::number(a)->0, number::number(b)->0],
{
    assert(seq![a, b].drop_last() =~= seq![a]);
    assert(seq![a].drop_last() =~= Seq::<Seq<char>>::empty());
    assert(family::numbers(Seq::<Seq<char>>::empty()) =~= Seq::<u32>::empty());
    assert(family::numbers(seq![a]) =~= seq![number::number(a)->0]);
    assert(seq![a, b].last() == b);
    assert(family::numbers(seq![a, b]) =~= seq![number::number(a)->0, number::number(b)->0]);
}

proof fn lemma_holds(a: Seq<char>, c: char, b: Seq<char>, p: Seq<char>)
    requires
        p == seq![c],
    ensures
        scan::within(a + seq![c] + b, p),
{
    let s = a + seq![c] + b;
    let n = a.len() as int;
    assert(s.subrange(n, n + 1) =~= p);
    assert(scan::at(s, n, p));
}

proof fn lemma_holds_not(a: Seq<char>, c: char, b: Seq<char>, p: Seq<char>, q: char)
    requires
        p == seq![q],
        q != c,
        number::all_digits(a),
        number::all_digits(b),
        !chars::digit(q),
    ensures
        !scan::within(a + seq![c] + b, p),
{
    let s = a + seq![c] + b;
    assert forall|i: int| !scan::at(s, i, p) by {
        if scan::at(s, i, p) {
            assert(s.subrange(i, i + 1)[0] == s[i]);
            if i < a.len() {
                assert(chars::digit(a[i]));
            } else if i > a.len() {
                assert(chars::digit(b[i - a.len() - 1]));
            }
        }
    }
}

/// Two numbers with a hyphen between them are a month and a day, with a slash between them a day
/// and a month, and with a full stop no date; they give one where there is such a month, and such a
/// day in one.
pub proof fn law_two_figures(a: Seq<char>, b: Seq<char>)
    requires
        a.len() > 0,
        b.len() > 0,
        number::all_digits(a),
        number::all_digits(b),
        number::value(a) <= u32::MAX,
        number::value(b) <= u32::MAX,
    ensures
        ({
            let x = number::value(a);
            let y = number::value(b);
            &&& family::figures_in(a + "-"@ + b) == if 1 <= x <= 12 && 1 <= y <= 31 {
                Some((x as u32, y as u32))
            } else {
                None::<(u32, u32)>
            }
            &&& family::figures_in(a + "/"@ + b) == if 1 <= y <= 12 && 1 <= x <= 31 {
                Some((y as u32, x as u32))
            } else {
                None::<(u32, u32)>
            }
            &&& family::figures_in(a + "."@ + b) is None
        }),
{
    reveal_strlit("-");
    reveal_strlit("/");
    reveal_strlit(".");
    let k = Class::Three('-', '/', '.');
    assert("-"@ =~= seq!['-']);
    assert("/"@ =~= seq!['/']);
    assert("."@ =~= seq!['.']);
    lemma_digits_hold_no_sign(a);
    lemma_digits_hold_no_sign(b);
    laws::law_separators_start_fields(a, '-', a, k);
    laws::law_separators_start_fields(a, '-', b, k);
    laws::law_separators_start_fields(a, '/', b, k);
    laws::law_separators_start_fields(a, '.', b, k);
    assert(seq![a].push(b) =~= seq![a, b]);
    lemma_digits_spell(a);
    lemma_digits_spell(b);
    lemma_numbers_of_two(a, b);
    lemma_holds(a, '-', b, "-"@);
    lemma_holds(a, '/', b, "/"@);
    lemma_holds_not(a, '-', b, "/"@, '/');
    lemma_holds_not(a, '/', b, "-"@, '-');
    lemma_holds_not(a, '.', b, "-"@, '-');
    lemma_holds_not(a, '.', b, "/"@, '/');
}

/// Three numbers are a year, a month and a day, where the first is no day of a month and there is
/// such a month and such a day; otherwise they are no date.
pub proof fn law_three_figures(a: Seq<char>, b: Seq<char>, c: Seq<char>, sep: char)
    requires
        sep == '-' || sep == '/' || sep == '.',
        a.len() > 0,
        b.len() > 0,
        c.len() > 0,
        number::all_digits(a),
        number::all_digits(b),
        number::all_digits(c),
        number::value(a) <= u32::MAX,
        number::value(b) <= u32::MAX,
        number::value(c) <= u32::MAX,
    ensures
        family::figures_in(a + seq![sep] + b + seq![sep] + c) == if number::value(a) > 31 && 1
            <= number::value(b) <= 12 && 1 <= number::value(c) <= 31 {
            Some((number::value(b) as u32, number::value(c) as u32))
        } else {
            None::<(u32, u32)>
        },
{
    let k = Class::Three('-', '/', '.');
    lemma_digits_hold_no_sign(a);
    lemma_digits_hold_no_sign(b);
    lemma_digits_hold_no_sign(c);
    laws::law_separators_start_fields(a, sep, a, k);
    laws::law_separators_start_fields(a, sep, b, k);
    laws::law_separators_start_fields(a + seq![sep] + b, sep, c, k);
    assert(seq![a].push(b) =~= seq![a, b]);
    assert(seq![a, b].push(c) =~= seq![a, b, c]);
    lemma_digits_spell(a);
    lemma_digits_spell(b);
    lemma_digits_spell(c);
    lemma_numbers_of_two(a, b);
    assert(seq![a, b, c].drop_last() =~= seq![a, b]);
    assert(seq![a, b, c].last() == c);
    assert(family::numbers(seq![a, b, c]) =~= seq![
        number::value(a) as u32,
        number::value(b) as u32,
        number::value(c) as u32,
    ]);
}

// ---- whose date ----

/// A date is an anniversary where the text says so, else a birthday where it says so, else an event.
pub proof fn law_labels(l: Seq<char>)
    ensures
        scan::within(l, "anniversary"@) ==> family::label_in(l) == "anniversary"@,
        !scan::within(l, "anniversary"@) && scan::within(l, "birthday"@) ==> family::label_in(l)
            == "birthday"@,
        !scan::within(l, "anniversary"@) && !scan::within(l, "birthday"@) ==> family::label_in(l)
            == "event"@,
{
}

/// The date is of whoever stands before the apostrophe, without the word that asks to remember it:
/// the last of one to three words, with a capital; where there are none or more, of someone.
pub proof fn law_whose_date(a: Seq<char>, mark: char, rest: Seq<char>)
    requires
        mark == '\'' || mark == '’',
        forall|i: int| 0 <= i < a.len() ==> a[i] != '\'' && #[trigger] a[i] != '’',
    ensures
        ({
            let o = scan::trimmed(scan::drop_prefixes(scan::trimmed(a), "remember"@));
            let ws = pieces::words(o);
            let who = family::person_in(a + seq![mark] + rest);
            &&& 1 <= ws.len() <= 3 ==> who == pieces::capital(ws.last())
            &&& o.len() == 0 || ws.len() > 3 ==> who == pieces::capital("Someone"@)
        }),
{
    let k = Class::Two('\'', '’');
    let t = a + seq![mark] + rest;
    assert forall|i: int| 0 <= i < a.len() implies !k.has(#[trigger] a[i]) by {
        assert(a[i] != '\'' && a[i] != '’');
    }
    laws::law_separators_start_fields(a, mark, a, k);
    assert((a + seq![mark]).drop_last() =~= a);
    assert((a + seq![mark]).last() == mark);
    lemma_first_field(a + seq![mark], rest, k);
    let o = scan::trimmed(scan::drop_prefixes(scan::trimmed(a), "remember"@));
    assert(family::owner_of(t) == o);
    reveal_strlit("Someone");
    if o.len() == 0 {
        lemma_no_words(o);
    }
    lemma_one_word("Someone"@);
}

proof fn lemma_no_words(s: Seq<char>)
    requires
        s.len() == 0,
    ensures
        pieces::words(s).len() == 0,
{
    let none = Seq::<Seq<char>>::empty();
    pieces::lemma_words_of_joined(none);
    assert(pieces::joined(none, " "@) =~= s);
}

proof fn lemma_one_word(s: Seq<char>)
    requires
        s == "Someone"@,
    ensures
        pieces::words(s) == seq![s],
{
    reveal_strlit("Someone");
    assert forall|i: int| 0 <= i < s.len() implies !chars::white(#[trigger] s[i]) by {
        assert(i == 0 || i == 1 || i == 2 || i == 3 || i == 4 || i == 5 || i == 6);
    }
    let ws = seq![s];
    assert(pieces::word_like(s));
    assert(pieces::all_words(ws));
    pieces::lemma_words_of_joined(ws);
    assert(pieces::joined(ws, " "@) == s);
}

/// What follows does not change the first field.
proof fn lemma_first_field(a: Seq<char>, b: Seq<char>, k: Class)
    requires
        pieces::fields(a, k).len() > 1,
    ensures
        pieces::fields(a + b, k).len() >= pieces::fields(a, k).len(),
        pieces::fields(a + b, k)[0] == pieces::fields(a, k)[0],
    decreases b.len(),
{
    if b.len() == 0 {
        assert(a + b =~= a);
    } else {
        lemma_first_field(a, b.drop_last(), k);
        assert((a + b).drop_last() =~= a + b.drop_last());
    }
}

// ---- contacts ----

/// A line holds a contact exactly where it is not empty, does not start like the header, in any
/// case, and has a name before the first comma.
pub proof fn law_which_lines_are_contacts(line: Seq<char>)
    ensures
        ({
            let cols = pieces::fields(line, Class::One(','));
            let c = family::contact_in(line);
            &&& c is Some <==> line.len() > 0 && !scan::starts(chars::lowercase(line), "name"@)
                && scan::trimmed(cols[0]).len() > 0
            &&& c is Some ==> {
                &&& c->0.name == scan::trimmed(cols[0])
                &&& cols.len() == 1 ==> c->0.relation.len() == 0 && c->0.birthday is None
                &&& cols.len() > 1 ==> c->0.relation == scan::trimmed(cols[1])
                &&& cols.len() == 2 ==> c->0.birthday is None
                &&& cols.len() > 2 ==> c->0.birthday == family::date_in(
                    chars::lowercase(scan::trimmed(cols[2])),
                )
            }
        }),
{
    pieces::lemma_fields_not_empty(line, Class::One(','));
}

/// Every line that holds a contact gives it, in order, and no other line gives one.
pub proof fn law_contacts_line_by_line(lines: Seq<Seq<char>>, line: Seq<char>)
    ensures
        family::contacts_in(lines.push(line)) == match family::contact_in(scan::trimmed(line)) {
            Some(c) => family::contacts_in(lines).push(c),
            None => family::contacts_in(lines),
        },
        family::contacts_in(Seq::<Seq<char>>::empty()).len() == 0,
{
    assert(lines.push(line).drop_last() =~= lines);
}

// ---- what is ahead ----

/// The next such month and day is `k` days ahead.
pub open spec fn comes_in(today: int, m: u32, d: u32, k: int) -> bool {
    calendar::is_next(today, m as int, d as int, k)
}

proof fn lemma_next(today: int, m: u32, d: u32, k: int)
    ensures
        calendar::next_occurrence(today, m as int, d as int) == Some(k) <==> comes_in(
            today,
            m,
            d,
            k,
        ),
{
    calendar::lemma_next_occurrence(today, m as int, d as int);
    if calendar::next_occurrence(today, m as int, d as int) == Some(k) {
        assert(exists|x: int| calendar::is_next(today, m as int, d as int, x));
    }
}

/// A remembered text is told of exactly where it gives a month and day that comes within the
/// horizon, the last day of which counts: with whose date it is, what it is, and how far ahead.
pub proof fn law_a_remembered_date_within_the_horizon(
    text: Seq<char>,
    today: int,
    horizon: int,
    m: u32,
    d: u32,
    k: int,
)
    requires
        family::date_in(chars::lowercase(text)) == Some((m, d)),
        comes_in(today, m, d, k),
    ensures
        k <= horizon ==> family::remembered(text, today, horizon) == Some(
            DateView {
                name: family::person_in(text),
                label: family::label_in(chars::lowercase(text)),
                month: m,
                day: d,
                days_until: k,
                source: "memory"@,
            },
        ),
        k > horizon ==> family::remembered(text, today, horizon) is None,
{
    lemma_next(today, m, d, k);
}

/// A text without a date is not told of.
pub proof fn law_no_date_is_not_told(text: Seq<char>, today: int, horizon: int)
    requires
        family::date_in(chars::lowercase(text)) is None,
    ensures
        family::remembered(text, today, horizon) is None,
{
}

/// The list names the person on the month and day.
pub open spec fn names_on(list: Seq<DateView>, name: Seq<char>, m: u32, d: u32) -> bool {
    exists|i: int|
        0 <= i < list.len() && (#[trigger] list[i]).name == name && list[i].month == m
            && list[i].day == d
}

/// A contact's birthday is added behind what is there, exactly where it comes within the horizon
/// and the person is not yet named on that month and day.
pub proof fn law_a_contact_is_added_once(
    list: Seq<DateView>,
    c: ContactView,
    today: int,
    horizon: int,
    m: u32,
    d: u32,
    k: int,
)
    requires
        c.birthday == Some((m, d)),
        comes_in(today, m, d, k),
    ensures
        k <= horizon && !names_on(list, c.name, m, d) ==> family::with_contact(
            list,
            c,
            today,
            horizon,
        ) == list.push(
            DateView {
                name: c.name,
                label: "birthday"@,
                month: m,
                day: d,
                days_until: k,
                source: "contacts_csv"@,
            },
        ),
        k > horizon || names_on(list, c.name, m, d) ==> family::with_contact(
            list,
            c,
            today,
            horizon,
        ) == list,
{
    lemma_next(today, m, d, k);
    assert(names_on(list, c.name, m, d) == family::has_date(list, c.name, m, d));
}

/// Every contact whose birthday comes within the horizon is named on it.
pub proof fn law_no_birthday_is_missed(
    texts: Seq<Seq<char>>,
    cs: Seq<ContactView>,
    today: int,
    horizon: int,
    i: int,
    m: u32,
    d: u32,
    k: int,
)
    requires
        0 <= i < cs.len(),
        cs[i].birthday == Some((m, d)),
        comes_in(today, m, d, k),
        k <= horizon,
    ensures
        names_on(family::upcoming(texts, cs, today, horizon), cs[i].name, m, d),
{
    lemma_next(today, m, d, k);
    family::law_every_date_ahead_is_listed(texts, cs, today, horizon);
    assert(family::lists_contact(
        family::upcoming(texts, cs, today, horizon),
        cs[i],
        today,
        horizon,
    ));
}

/// The facts come from memory where a text was remembered, and from the contacts where there is
/// one, memory first.
pub proof fn law_where_the_facts_come_from(texts: nat, contacts: nat)
    ensures
        texts == 0 && contacts == 0 ==> family::sources_of(texts, contacts).len() == 0,
        texts > 0 && contacts == 0 ==> family::sources_of(texts, contacts) == seq!["memory"@],
        texts == 0 && contacts > 0 ==> family::sources_of(texts, contacts) == seq![
            "contacts_csv"@,
        ],
        texts > 0 && contacts > 0 ==> family::sources_of(texts, contacts) == seq![
            "memory"@,
            "contacts_csv"@,
        ],
{
    assert(family::sources_of(1, 0) =~= seq!["memory"@]);
    assert(seq!["memory"@] + seq!["contacts_csv"@] =~= seq!["memory"@, "contacts_csv"@]);
    assert(Seq::<Seq<char>>::empty() + seq!["contacts_csv"@] =~= seq!["contacts_csv"@]);
    assert(seq!["memory"@] + Seq::<Seq<char>>::empty() =~= seq!["memory"@]);
}

/// The report has a clause for each date, with what it is, whose, and how far ahead, and says so
/// where there is none.
pub proof fn law_the_report(ds: Seq<DateView>, d: DateView)
    ensures
        family::report_of(Seq::empty()) == "No family dates in the next 30 days on file."@,
        ds.len() == 0 ==> family::report_of(ds.push(d)) == d.label + " — "@ + d.name + " in "@
            + number::integer(d.days_until) + " days"@,
        ds.len() > 0 ==> family::report_of(ds.push(d)) == family::report_of(ds) + "; "@ + (d.label
            + " — "@ + d.name + " in "@ + number::integer(d.days_until) + " days"@),
{
    let f = |x: DateView| family::date_line(x);
    let all = ds.push(d).map_values(f);
    assert(all.drop_last() =~= ds.map_values(f));
    assert(all.last() == family::date_line(d));
}

/// A birthday up to thirty days ahead is named, the thirtieth included, and nothing farther ahead
/// is.
pub proof fn law_thirty_days_ahead(
    texts: Seq<Seq<char>>,
    cs: Seq<ContactView>,
    today: int,
    i: int,
    m: u32,
    d: u32,
    k: int,
)
    requires
        0 <= i < cs.len(),
        cs[i].birthday == Some((m, d)),
        comes_in(today, m, d, k),
    ensures
        k <= 30 ==> names_on(family::month_ahead(texts, cs, today), cs[i].name, m, d),
        forall|j: int|
            0 <= j < family::month_ahead(texts, cs, today).len() ==> 0 <= (
            #[trigger] family::month_ahead(texts, cs, today)[j]).days_until <= 30,
{
    if k <= 30 {
        law_no_birthday_is_missed(texts, cs, today, 30, i, m, d, k);
    }
    family::law_upcoming_is_soonest_first(texts, cs, today, 30);
    assert forall|j: int| 0 <= j < family::month_ahead(texts, cs, today).len() implies 0 <= (
    #[trigger] family::month_ahead(texts, cs, today)[j]).days_until <= 30 by {
        assert(family::month_ahead(texts, cs, today)[j] == family::upcoming(
            texts,
            cs,
            today,
            30,
        )[j]);
    }
}

} // verus!
