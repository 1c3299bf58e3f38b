//! Family: important dates from memory and contacts. Cards show names and day counts only.

pub mod laws;

use vstd::prelude::*;

use crate::calendar;
use crate::calendar::Date;
use crate::ranking;
use crate::ranking::Ranked;
use crate::text::chars;
use crate::text::chars::Class;
use crate::text::number;
use crate::text::pieces;
use crate::text::scan;

verus! {

#[derive(Debug)]
pub struct ImportantDate {
    pub name: String,
    /// birthday | anniversary | event
    pub label: String,
    pub month: u32,
    pub day: u32,
    pub days_until: i64,
    pub source: &'static str,
}

#[verifier::ext_equal]
pub struct DateView {
    pub name: Seq<char>,
    pub label: Seq<char>,
    pub month: u32,
    pub day: u32,
    pub days_until: int,
    pub source: Seq<char>,
}

impl View for ImportantDate {
    type V = DateView;

    open spec fn view(&self) -> DateView {
        DateView {
            name: self.name@,
            label: self.label@,
            month: self.month,
            day: self.day,
            days_until: self.days_until as int,
            source: self.source@,
        }
    }
}

pub open spec fn dates_of(v: Seq<ImportantDate>) -> Seq<DateView> {
    v.map_values(|d: ImportantDate| d@)
}

#[derive(Debug)]
pub struct Contact {
    pub name: String,
    pub relation: String,
    pub birthday: Option<(u32, u32)>,
}

#[verifier::ext_equal]
pub struct ContactView {
    pub name: Seq<char>,
    pub relation: Seq<char>,
    pub birthday: Option<(u32, u32)>,
}

impl View for Contact {
    type V = ContactView;

    open spec fn view(&self) -> ContactView {
        ContactView { name: self.name@, relation: self.relation@, birthday: self.birthday }
    }
}

pub open spec fn contacts_of(v: Seq<Contact>) -> Seq<ContactView> {
    v.map_values(|c: Contact| c@)
}

#[derive(Debug)]
pub struct FamilyFacts {
    pub upcoming: Vec<ImportantDate>,
    pub contacts: usize,
    pub family_calendar_id: Option<String>,
    pub sources: Vec<&'static str>,
}

/// Days until the next occurrence of `month/day` from `today`; `None` where the calendar has none.
pub fn days_until(today: Date, month: u32, day: u32) -> (r: Option<i64>)
    requires
        today.valid(),
    ensures
        match r {
            Some(k) => calendar::is_next(
                today.number as int,
                month as int,
                day as int,
                k as int,
            ),
            None => calendar::never_again(today.number as int, month as int, day as int),
        },
        match r {
            Some(k) => calendar::next_occurrence(
                today.number as int,
                month as int,
                day as int,
            ) == Some(k as int),
            None => calendar::next_occurrence(
                today.number as int,
                month as int,
                day as int,
            ) is None,
        },
{
    let ghost n = today.number as int;
    let ghost m = month as int;
    let ghost d = day as int;
    let year = today.year();
    proof {
        calendar::lemma_next_occurrence(n, m, d);
    }
    // A leap day comes within eight years, every other day within one.
    let mut i: i32 = 0;
    while i < 9
        invariant
            0 <= i <= 9,
            n == today.number,
            m == month,
            d == day,
            calendar::FIRST_YEAR <= year <= calendar::LAST_YEAR,
            calendar::year_has(year as int, n),
            forall|z: int| year <= z < year + i ==> !#[trigger] calendar::ahead_in(n, z, m, d),
            forall|k: int| #[trigger]
                calendar::is_next(n, m, d, k) ==> calendar::next_occurrence(n, m, d) == Some(k),
        decreases 9 - i,
    {
        match Date::from_ymd(year + i, month, day) {
            Some(date) => {
                if date.number >= today.number {
                    proof {
                        calendar::lemma_first_year_ahead(n, year as int, year + i, m, d);
                    }
                    return Some(date.number as i64 - today.number as i64);
                }
            },
            None => {},
        }
        i += 1;
    }
    proof {
        calendar::lemma_nine_years_are_enough(n, year as int, m, d);
    }
    None
}

// ---- dates in text ----

pub open spec fn month_names() -> Seq<Seq<char>> {
    seq![
        "jan"@,
        "feb"@,
        "mar"@,
        "apr"@,
        "may"@,
        "jun"@,
        "jul"@,
        "aug"@,
        "sep"@,
        "oct"@,
        "nov"@,
        "dec"@,
    ]
}

/// The number of the first month, from `m` on, that a word starts with the name of.
pub open spec fn month_from(tok: Seq<char>, m: int) -> Option<u32>
    decreases 13 - m,
{
    if m < 1 || m > 12 {
        None
    } else if scan::starts(tok, month_names()[m - 1]) {
        Some(m as u32)
    } else {
        month_from(tok, m + 1)
    }
}

/// The month whose name a word starts with.
pub open spec fn month_of(tok: Seq<char>) -> Option<u32> {
    month_from(tok, 1)
}

fn read_month(tok: &Vec<char>) -> (r: Option<u32>)
    ensures
        r == month_of(tok@),
        r matches Some(m) ==> 1 <= m <= 12,
{
    let names: Vec<&str> = vec![
        "jan", "feb", "mar", "apr", "may", "jun", "jul", "aug", "sep", "oct", "nov", "dec",
    ];
    assert(pieces::slices(names@) =~= month_names());
    let mut m: u32 = 1;
    while m <= 12
        invariant
            1 <= m <= 13,
            names@.len() == 12,
            pieces::slices(names@) == month_names(),
            month_of(tok@) == month_from(tok@, m as int),
        decreases 13 - m,
    {
        assert(pieces::slices(names@)[m - 1] == names@[m - 1]@);
        if scan::starts_with(tok, names[(m - 1) as usize]) {
            return Some(m);
        }
        m += 1;
    }
    None
}

pub open spec fn day_like(d: u32) -> bool {
    1 <= d <= 31
}

pub open spec fn month_like(m: u32) -> bool {
    1 <= m <= 12
}

/// The day of the month that a word spells, with or without an ending such as `th`.
pub open spec fn day_of(tok: Seq<char>) -> Option<u32> {
    match number::number(scan::drop_end(tok, Class::Alphabetic)) {
        Some(d) => if day_like(d) {
            Some(d)
        } else {
            None
        },
        None => None,
    }
}

fn read_day(tok: &Vec<char>) -> (r: Option<u32>)
    ensures
        r == day_of(tok@),
{
    match number::parse_u32(&scan::without_end(tok, Class::Alphabetic)) {
        Some(d) => if 1 <= d && d <= 31 {
            Some(d)
        } else {
            None
        },
        None => None,
    }
}

/// The month at word `i` with the day behind or else before it.
pub open spec fn named_at(tokens: Seq<Seq<char>>, i: int) -> Option<(u32, u32)> {
    match month_of(tokens[i]) {
        Some(m) => if i + 1 < tokens.len() && day_of(tokens[i + 1]) is Some {
            Some((m, day_of(tokens[i + 1])->0))
        } else if i > 0 && day_of(tokens[i - 1]) is Some {
            Some((m, day_of(tokens[i - 1])->0))
        } else {
            None
        },
        None => None,
    }
}

/// The first named date from word `i` on.
pub open spec fn named_from(tokens: Seq<Seq<char>>, i: int) -> Option<(u32, u32)>
    decreases tokens.len() - i,
{
    if i < 0 || i >= tokens.len() {
        None
    } else {
        match named_at(tokens, i) {
            Some(x) => Some(x),
            None => named_from(tokens, i + 1),
        }
    }
}

fn read_named(tokens: &Vec<Vec<char>>) -> (r: Option<(u32, u32)>)
    ensures
        r == named_from(pieces::texts(tokens@), 0),
{
    let ghost ts = pieces::texts(tokens@);
    let mut i: usize = 0;
    while i < tokens.len()
        invariant
            i <= tokens.len(),
            ts == pieces::texts(tokens@),
            named_from(ts, 0) == named_from(ts, i as int),
        decreases tokens.len() - i,
    {
        assert(ts[i as int] == tokens@[i as int]@);
        match read_month(&tokens[i]) {
            Some(m) => {
                if tokens.len() - i > 1 {
                    assert(ts[i + 1] == tokens@[i + 1]@);
                    match read_day(&tokens[i + 1]) {
                        Some(d) => {
                            return Some((m, d));
                        },
                        None => {},
                    }
                }
                if i > 0 {
                    assert(ts[i - 1] == tokens@[i - 1]@);
                    match read_day(&tokens[i - 1]) {
                        Some(d) => {
                            return Some((m, d));
                        },
                        None => {},
                    }
                }
            },
            None => {},
        }
        i += 1;
    }
    None
}

/// The numbers among the texts.
pub open spec fn numbers(parts: Seq<Seq<char>>) -> Seq<u32>
    decreases parts.len(),
{
    if parts.len() == 0 {
        Seq::empty()
    } else {
        match number::number(parts.last()) {
            Some(n) => numbers(parts.drop_last()).push(n),
            None => numbers(parts.drop_last()),
        }
    }
}

/// The date that a word writes in figures: `YYYY-MM-DD`, `MM-DD` or `DD/MM`.
pub open spec fn figures_in(part: Seq<char>) -> Option<(u32, u32)> {
    let n = numbers(pieces::fields(part, Class::Three('-', '/', '.')));
    if n.len() == 3 && n[0] > 31 && month_like(n[1]) && day_like(n[2]) {
        Some((n[1], n[2]))
    } else if n.len() == 2 && scan::within(part, "-"@) && month_like(n[0]) && day_like(n[1]) {
        Some((n[0], n[1]))
    } else if n.len() == 2 && scan::within(part, "/"@) && month_like(n[1]) && day_like(n[0]) {
        Some((n[1], n[0]))
    } else {
        None
    }
}

/// The first date in figures among the words.
pub open spec fn first_figures(words: Seq<Seq<char>>) -> Option<(u32, u32)>
    decreases words.len(),
{
    if words.len() == 0 {
        None
    } else {
        match figures_in(words[0]) {
            Some(x) => Some(x),
            None => first_figures(words.skip(1)),
        }
    }
}

fn read_numbers(parts: &Vec<Vec<char>>) -> (r: Vec<u32>)
    ensures
        r@ == numbers(pieces::texts(parts@)),
{
    let ghost ts = pieces::texts(parts@);
    let mut out: Vec<u32> = Vec::new();
    let mut i: usize = 0;
    assert(ts.take(0) =~= Seq::empty());
    while i < parts.len()
        invariant
            i <= parts.len(),
            ts == pieces::texts(parts@),
            out@ == numbers(ts.take(i as int)),
        decreases parts.len() - i,
    {
        assert(ts.take(i + 1).drop_last() =~= ts.take(i as int));
        assert(ts.take(i + 1).last() == parts@[i as int]@);
        match number::parse_u32(&parts[i]) {
            Some(n) => {
                out.push(n);
            },
            None => {},
        }
        i += 1;
    }
    assert(ts.take(parts.len() as int) =~= ts);
    out
}

fn read_figures(part: &Vec<char>) -> (r: Option<(u32, u32)>)
    ensures
        r == figures_in(part@),
{
    let n = read_numbers(&pieces::split(part, Class::Three('-', '/', '.')));
    if n.len() == 3 && n[0] > 31 && 1 <= n[1] && n[1] <= 12 && 1 <= n[2] && n[2] <= 31 {
        Some((n[1], n[2]))
    } else if n.len() == 2 && scan::contains(part, "-") && 1 <= n[0] && n[0] <= 12 && 1 <= n[1]
        && n[1] <= 31 {
        Some((n[0], n[1]))
    } else if n.len() == 2 && scan::contains(part, "/") && 1 <= n[1] && n[1] <= 12 && 1 <= n[0]
        && n[0] <= 31 {
        Some((n[1], n[0]))
    } else {
        None
    }
}

fn regex_lite_iso(l: &Vec<char>) -> (r: Option<(u32, u32)>)
    ensures
        r == first_figures(pieces::words(l@)),
{
    let words = pieces::split_words(l);
    let ghost ts = pieces::texts(words@);
    let mut i: usize = 0;
    assert(ts.skip(0) =~= ts);
    while i < words.len()
        invariant
            i <= words.len(),
            ts == pieces::texts(words@),
            ts == pieces::words(l@),
            first_figures(ts) == first_figures(ts.skip(i as int)),
        decreases words.len() - i,
    {
        assert(ts.skip(i as int)[0] == words@[i as int]@);
        assert(ts.skip(i as int).skip(1) =~= ts.skip(i + 1));
        match read_figures(&words[i]) {
            Some(x) => {
                return Some(x);
            },
            None => {},
        }
        i += 1;
    }
    None
}

/// The month and day in a lower-case text: the first date in figures, or else the first month
/// with a day beside it.
pub open spec fn date_in(l: Seq<char>) -> Option<(u32, u32)> {
    match first_figures(pieces::words(l)) {
        Some(x) => Some(x),
        None => named_from(pieces::tokens(l, Class::NotAlphanumeric), 0),
    }
}

/// Find a month and day in a lower-case text.
pub fn parse_month_day_lower(l: &Vec<char>) -> (r: Option<(u32, u32)>)
    ensures
        r == date_in(l@),
{
    match regex_lite_iso(l) {
        Some(x) => Some(x),
        None => read_named(&pieces::split_tokens(l, Class::NotAlphanumeric)),
    }
}

/// Find a month/day in free text: `20 Oct`, `Oct 20`, `October 20th`, `2026-10-20`, `10-20`,
/// `20/10`.
pub fn parse_month_day(text: &str) -> (r: Option<(u32, u32)>)
    ensures
        r == date_in(chars::lowercase(text@)),
{
    parse_month_day_lower(&chars::lowered(text))
}

proof fn lemma_named_in_range(tokens: Seq<Seq<char>>, i: int)
    ensures
        named_from(tokens, i) matches Some((m, d)) ==> month_like(m) && day_like(d),
    decreases tokens.len() - i,
{
    if 0 <= i < tokens.len() {
        lemma_month_in_range(tokens[i], 1);
        lemma_named_in_range(tokens, i + 1);
    }
}

proof fn lemma_month_in_range(tok: Seq<char>, m: int)
    ensures
        month_from(tok, m) matches Some(x) ==> month_like(x),
    decreases 13 - m,
{
    if 1 <= m <= 12 {
        lemma_month_in_range(tok, m + 1);
    }
}

proof fn lemma_figures_in_range(words: Seq<Seq<char>>)
    ensures
        first_figures(words) matches Some((m, d)) ==> month_like(m) && day_like(d),
    decreases words.len(),
{
    if words.len() > 0 {
        lemma_figures_in_range(words.skip(1));
    }
}

/// A month that is found is one of twelve, a day one of thirty-one.
pub proof fn law_dates_are_in_range(l: Seq<char>)
    ensures
        date_in(l) matches Some((m, d)) ==> month_like(m) && day_like(d),
{
    lemma_figures_in_range(pieces::words(l));
    lemma_named_in_range(pieces::tokens(l, Class::NotAlphanumeric), 0);
}

// ---- people ----

/// What a lower-case text says the date is.
pub open spec fn label_in(l: Seq<char>) -> Seq<char> {
    if scan::within(l, "anniversary"@) {
        "anniversary"@
    } else if scan::within(l, "birthday"@) {
        "birthday"@
    } else {
        "event"@
    }
}

pub fn label_of_lower(l: &Vec<char>) -> (r: &'static str)
    ensures
        r@ == label_in(l@),
{
    if scan::contains(l, "anniversary") {
        "anniversary"
    } else if scan::contains(l, "birthday") {
        "birthday"
    } else {
        "event"
    }
}

/// What stands before the first apostrophe, without the word that asks to remember it.
pub open spec fn owner_of(text: Seq<char>) -> Seq<char> {
    scan::trimmed(
        scan::drop_prefixes(
            scan::trimmed(pieces::fields(text, Class::Two('\'', '’'))[0]),
            "remember"@,
        ),
    )
}

/// The person whose date a text gives: the last word of the owner, with a capital, where the owner
/// is one to three words.
pub open spec fn person_in(text: Seq<char>) -> Seq<char> {
    let o = owner_of(text);
    let name = if o.len() > 0 && pieces::words(o).len() <= 3 {
        o
    } else {
        "Someone"@
    };
    let ws = pieces::words(name);
    pieces::capital(
        if ws.len() > 0 {
            ws.last()
        } else {
            "Someone"@
        },
    )
}

pub fn read_person(text: &str) -> (r: String)
    ensures
        r@ == person_in(text@),
{
    let v = chars::chars_of(text);
    let fields = pieces::split(&v, Class::Two('\'', '’'));
    proof {
        pieces::lemma_fields_not_empty(v@, Class::Two('\'', '’'));
    }
    assert(pieces::texts(fields@)[0] == fields@[0]@);
    let o = scan::trim(&scan::without_prefixes(&scan::trim(&fields[0]), "remember"));
    let count = pieces::split_words(&o);
    assert(pieces::texts(count@).len() == count@.len());
    let name = if o.len() > 0 && count.len() <= 3 {
        o
    } else {
        chars::chars_of("Someone")
    };
    let ws = pieces::split_words(&name);
    assert(pieces::texts(ws@).len() == ws@.len());
    if ws.len() > 0 {
        let last = ws.len() - 1;
        assert(pieces::texts(ws@)[last as int] == ws@[last as int]@);
        chars::text_of(&pieces::capitalized(&ws[last]))
    } else {
        chars::text_of(&pieces::capitalized(&chars::chars_of("Someone")))
    }
}

/// `Sara's birthday is 20 Oct` → ("Sara", "birthday").
pub fn parse_person_and_label(text: &str) -> (r: (String, String))
    ensures
        r.0@ == person_in(text@),
        r.1@ == label_in(chars::lowercase(text@)),
{
    let label = label_of_lower(&chars::lowered(text));
    (read_person(text), label.to_string())
}

// ---- contacts ----

/// A line of contacts that holds one: not empty, and not the header.
pub open spec fn contact_line(line: Seq<char>) -> bool {
    line.len() > 0 && !scan::starts(chars::lowercase(line), "name"@)
}

pub open spec fn column(line: Seq<char>, i: int) -> Option<Seq<char>> {
    let f = pieces::fields(line, Class::One(','));
    if i < f.len() {
        Some(scan::trimmed(f[i]))
    } else {
        None
    }
}

/// The contact of a trimmed line: name, relation and birthday, between commas.
pub open spec fn contact_in(line: Seq<char>) -> Option<ContactView> {
    let name = column(line, 0)->0;
    if !contact_line(line) || name.len() == 0 {
        None
    } else {
        Some(
            ContactView {
                name,
                relation: match column(line, 1) {
                    Some(r) => r,
                    None => Seq::empty(),
                },
                birthday: match column(line, 2) {
                    Some(b) => date_in(chars::lowercase(b)),
                    None => None,
                },
            },
        )
    }
}

pub open spec fn contacts_in(lines: Seq<Seq<char>>) -> Seq<ContactView>
    decreases lines.len(),
{
    if lines.len() == 0 {
        Seq::empty()
    } else {
        let before = contacts_in(lines.drop_last());
        match contact_in(scan::trimmed(lines.last())) {
            Some(c) => before.push(c),
            None => before,
        }
    }
}

fn read_contact(line: &Vec<char>) -> (r: Option<Contact>)
    ensures
        match r {
            Some(c) => contact_in(line@) == Some(c@),
            None => contact_in(line@) is None,
        },
{
    if line.len() == 0 {
        return None;
    }
    let whole = chars::text_of(line);
    if scan::starts_with(&chars::lowered(whole.as_str()), "name") {
        return None;
    }
    let cols = pieces::split(line, Class::One(','));
    proof {
        pieces::lemma_fields_not_empty(line@, Class::One(','));
    }
    assert(pieces::texts(cols@).len() == cols@.len());
    assert(pieces::texts(cols@)[0] == cols@[0]@);
    let name = scan::trim(&cols[0]);
    if name.len() == 0 {
        return None;
    }
    let relation = if cols.len() > 1 {
        assert(pieces::texts(cols@)[1] == cols@[1]@);
        chars::text_of(&scan::trim(&cols[1]))
    } else {
        String::new()
    };
    let birthday = if cols.len() > 2 {
        assert(pieces::texts(cols@)[2] == cols@[2]@);
        let b = chars::text_of(&scan::trim(&cols[2]));
        parse_month_day(b.as_str())
    } else {
        None
    };
    let c = Contact { name: chars::text_of(&name), relation, birthday };
    assert(c@.relation =~= match column(line@, 1) {
        Some(r) => r,
        None => Seq::empty(),
    });
    Some(c)
}

pub fn parse_contacts_csv(text: &str) -> (r: Vec<Contact>)
    ensures
        contacts_of(r@) == contacts_in(pieces::lines_of(text@)),
{
    let lines = pieces::split_lines(&chars::chars_of(text));
    let ghost all = pieces::texts(lines@);
    let mut out: Vec<Contact> = Vec::new();
    let mut i: usize = 0;
    assert(all.take(0) =~= Seq::empty());
    assert(contacts_of(out@) =~= contacts_in(all.take(0)));
    while i < lines.len()
        invariant
            i <= lines.len(),
            all == pieces::texts(lines@),
            contacts_of(out@) == contacts_in(all.take(i as int)),
        decreases lines.len() - i,
    {
        assert(all.take(i + 1).drop_last() =~= all.take(i as int));
        assert(all.take(i + 1).last() == lines@[i as int]@);
        match read_contact(&scan::trim(&lines[i])) {
            Some(c) => {
                let ghost o = out@;
                out.push(c);
                assert(contacts_of(out@) =~= contacts_of(o).push(c@));
            },
            None => {},
        }
        i += 1;
    }
    assert(all.take(lines.len() as int) =~= all);
    out
}

// ---- facts ----

/// The date that a remembered text gives, where it comes up within the horizon.
pub open spec fn remembered(text: Seq<char>, today: int, horizon: int) -> Option<DateView> {
    match date_in(chars::lowercase(text)) {
        Some((m, d)) => match calendar::next_occurrence(today, m as int, d as int) {
            Some(days) => if days <= horizon {
                Some(
                    DateView {
                        name: person_in(text),
                        label: label_in(chars::lowercase(text)),
                        month: m,
                        day: d,
                        days_until: days,
                        source: "memory"@,
                    },
                )
            } else {
                None
            },
            None => None,
        },
        None => None,
    }
}

pub open spec fn all_remembered(texts: Seq<Seq<char>>, today: int, horizon: int) -> Seq<DateView>
    decreases texts.len(),
{
    if texts.len() == 0 {
        Seq::empty()
    } else {
        let before = all_remembered(texts.drop_last(), today, horizon);
        match remembered(texts.last(), today, horizon) {
            Some(d) => before.push(d),
            None => before,
        }
    }
}

/// The list has this person's date.
pub open spec fn has_date(list: Seq<DateView>, name: Seq<char>, m: u32, d: u32) -> bool {
    exists|i: int|
        0 <= i < list.len() && (#[trigger] list[i]).name == name && list[i].month == m
            && list[i].day == d
}

/// `list` with a contact's birthday, where it comes up within the horizon and is not there.
pub open spec fn with_contact(
    list: Seq<DateView>,
    c: ContactView,
    today: int,
    horizon: int,
) -> Seq<DateView> {
    match c.birthday {
        Some((m, d)) => match calendar::next_occurrence(today, m as int, d as int) {
            Some(days) => if days <= horizon && !has_date(list, c.name, m, d) {
                list.push(
                    DateView {
                        name: c.name,
                        label: "birthday"@,
                        month: m,
                        day: d,
                        days_until: days,
                        source: "contacts_csv"@,
                    },
                )
            } else {
                list
            },
            None => list,
        },
        None => list,
    }
}

pub open spec fn with_contacts(
    list: Seq<DateView>,
    cs: Seq<ContactView>,
    today: int,
    horizon: int,
) -> Seq<DateView>
    decreases cs.len(),
{
    if cs.len() == 0 {
        list
    } else {
        with_contact(with_contacts(list, cs.drop_last(), today, horizon), cs.last(), today, horizon)
    }
}

/// The dates within the horizon, soonest first.
pub open spec fn upcoming(
    texts: Seq<Seq<char>>,
    cs: Seq<ContactView>,
    today: int,
    horizon: int,
) -> Seq<DateView> {
    ranking::sorted_by(
        with_contacts(all_remembered(texts, today, horizon), cs, today, horizon),
        |d: DateView| d.days_until,
    )
}

/// Where the facts come from.
pub open spec fn sources_of(texts: nat, contacts: nat) -> Seq<Seq<char>> {
    (if texts > 0 {
        seq!["memory"@]
    } else {
        Seq::empty()
    }) + (if contacts > 0 {
        seq!["contacts_csv"@]
    } else {
        Seq::empty()
    })
}

fn read_remembered(text: &str, today: Date, horizon: i64) -> (r: Option<ImportantDate>)
    requires
        today.valid(),
    ensures
        match r {
            Some(d) => remembered(text@, today.number as int, horizon as int) == Some(d@),
            None => remembered(text@, today.number as int, horizon as int) is None,
        },
{
    match parse_month_day(text) {
        Some((month, day)) => match days_until(today, month, day) {
            Some(days) => if days <= horizon {
                let (name, label) = parse_person_and_label(text);
                Some(
                    ImportantDate { name, label, month, day, days_until: days, source: "memory" },
                )
            } else {
                None
            },
            None => None,
        },
        None => None,
    }
}

fn lists_date(list: &Vec<ImportantDate>, name: &str, m: u32, d: u32) -> (r: bool)
    ensures
        r == has_date(dates_of(list@), name@, m, d),
{
    let ghost all = dates_of(list@);
    let mut i: usize = 0;
    while i < list.len()
        invariant
            i <= list.len(),
            all == dates_of(list@),
            forall|j: int|
                0 <= j < i ==> !((#[trigger] all[j]).name == name@ && all[j].month == m
                    && all[j].day == d),
        decreases list.len() - i,
    {
        assert(all[i as int] == list@[i as int]@);
        if chars::same(list[i].name.as_str(), name) && list[i].month == m && list[i].day == d {
            return true;
        }
        i += 1;
    }
    false
}

fn add_contact(list: &mut Vec<ImportantDate>, c: &Contact, today: Date, horizon: i64)
    requires
        today.valid(),
    ensures
        dates_of(final(list)@) == with_contact(
            dates_of(old(list)@),
            c@,
            today.number as int,
            horizon as int,
        ),
{
    match c.birthday {
        Some((month, day)) => match days_until(today, month, day) {
            Some(days) => if days <= horizon && !lists_date(list, c.name.as_str(), month, day) {
                let ghost o = list@;
                let x = ImportantDate {
                    name: c.name.clone(),
                    label: "birthday".to_string(),
                    month,
                    day,
                    days_until: days,
                    source: "contacts_csv",
                };
                list.push(x);
                assert(dates_of(list@) =~= dates_of(o).push(x@));
            },
            None => {},
        },
        None => {},
    }
}

fn soonest_first(list: Vec<ImportantDate>) -> (r: Vec<ImportantDate>)
    ensures
        dates_of(r@) == ranking::sorted_by(dates_of(list@), |d: DateView| d.days_until),
{
    let mut ranks: Vec<i128> = Vec::new();
    let mut i: usize = 0;
    while i < list.len()
        invariant
            i <= list.len(),
            ranks@.len() == i,
            forall|k: int| 0 <= k < i ==> #[trigger] ranks@[k] == list@[k].days_until,
        decreases list.len() - i,
    {
        ranks.push(list[i].days_until as i128);
        i += 1;
    }
    let ghost s = ranking::zipped(list@, ranks@);
    let ghost all = list@;
    let r = ranking::sort_items(list, &ranks);
    proof {
        let f = |x: Ranked<ImportantDate>| x.item@;
        let kept = |d: DateView| d.days_until;
        ranking::lemma_sorted_map(s, ranking::rank_of(), f, kept);
        assert(s.map_values(f) =~= dates_of(all));
        assert(dates_of(r@) =~= ranking::sorted_by(s, ranking::rank_of()).map_values(f));
    }
    r
}

/// The important dates of the next `horizon_days` days, soonest first: those that the remembered
/// `texts` give, then the birthdays of the contacts that are not among them.
pub fn facts_with(
    texts: &Vec<String>,
    today: Date,
    horizon_days: i64,
    contacts: &Vec<Contact>,
    family_calendar_id: Option<String>,
) -> (r: FamilyFacts)
    requires
        today.valid(),
    ensures
        dates_of(r.upcoming@) == upcoming(
            pieces::strings(texts@),
            contacts_of(contacts@),
            today.number as int,
            horizon_days as int,
        ),
        r.contacts == contacts@.len(),
        r.family_calendar_id == family_calendar_id,
        pieces::slices(r.sources@) == sources_of(texts@.len(), contacts@.len()),
{
    let ghost t = today.number as int;
    let ghost h = horizon_days as int;
    let ghost all = pieces::strings(texts@);
    let ghost cs = contacts_of(contacts@);
    let mut sources: Vec<&'static str> = Vec::new();
    if texts.len() > 0 {
        sources.push("memory");
    }
    let mut list: Vec<ImportantDate> = Vec::new();
    let mut i: usize = 0;
    assert(all.take(0) =~= Seq::empty());
    assert(dates_of(list@) =~= all_remembered(all.take(0), t, h));
    while i < texts.len()
        invariant
            i <= texts.len(),
            today.valid(),
            t == today.number,
            h == horizon_days,
            all == pieces::strings(texts@),
            dates_of(list@) == all_remembered(all.take(i as int), t, h),
        decreases texts.len() - i,
    {
        assert(all.take(i + 1).drop_last() =~= all.take(i as int));
        assert(all.take(i + 1).last() == texts@[i as int]@);
        match read_remembered(texts[i].as_str(), today, horizon_days) {
            Some(d) => {
                let ghost o = list@;
                list.push(d);
                assert(dates_of(list@) =~= dates_of(o).push(d@));
            },
            None => {},
        }
        i += 1;
    }
    assert(all.take(texts.len() as int) =~= all);
    let ghost base = dates_of(list@);
    if contacts.len() > 0 {
        sources.push("contacts_csv");
    }
    let mut k: usize = 0;
    assert(cs.take(0) =~= Seq::empty());
    while k < contacts.len()
        invariant
            k <= contacts.len(),
            today.valid(),
            t == today.number,
            h == horizon_days,
            cs == contacts_of(contacts@),
            dates_of(list@) == with_contacts(base, cs.take(k as int), t, h),
        decreases contacts.len() - k,
    {
        assert(cs.take(k + 1).drop_last() =~= cs.take(k as int));
        assert(cs.take(k + 1).last() == contacts@[k as int]@);
        add_contact(&mut list, &contacts[k], today, horizon_days);
        k += 1;
    }
    assert(cs.take(contacts.len() as int) =~= cs);
    assert(pieces::slices(sources@) =~= sources_of(texts@.len(), contacts@.len()));
    FamilyFacts {
        upcoming: soonest_first(list),
        contacts: contacts.len(),
        family_calendar_id,
        sources,
    }
}

/// The dates of the next thirty days, soonest first.
pub open spec fn month_ahead(texts: Seq<Seq<char>>, cs: Seq<ContactView>, today: int) -> Seq<
    DateView,
> {
    upcoming(texts, cs, today, 30)
}

/// The important dates of the next thirty days, soonest first.
pub fn facts(
    texts: &Vec<String>,
    today: Date,
    contacts: &Vec<Contact>,
    family_calendar_id: Option<String>,
) -> (r: FamilyFacts)
    requires
        today.valid(),
    ensures
        dates_of(r.upcoming@) == month_ahead(
            pieces::strings(texts@),
            contacts_of(contacts@),
            today.number as int,
        ),
        r.contacts == contacts@.len(),
        r.family_calendar_id == family_calendar_id,
        pieces::slices(r.sources@) == sources_of(texts@.len(), contacts@.len()),
{
    facts_with(texts, today, 30, contacts, family_calendar_id)
}

// ---- what the agent says ----

/// `birthday — Sara in 19 days`.
pub open spec fn date_line(d: DateView) -> Seq<char> {
    d.label + " — "@ + d.name + " in "@ + number::integer(d.days_until) + " days"@
}

pub open spec fn report_of(dates: Seq<DateView>) -> Seq<char> {
    if dates.len() == 0 {
        "No family dates in the next 30 days on file."@
    } else {
        pieces::joined(dates.map_values(|d: DateView| date_line(d)), "; "@)
    }
}

/// What the family agent says of the dates ahead.
pub fn report(dates: &Vec<ImportantDate>) -> (r: String)
    ensures
        r@ == report_of(dates_of(dates@)),
{
    if dates.len() == 0 {
        return "No family dates in the next 30 days on file.".to_string();
    }
    let ghost want = dates_of(dates@).map_values(|d: DateView| date_line(d));
    let mut lines: Vec<String> = Vec::new();
    let mut i: usize = 0;
    while i < dates.len()
        invariant
            i <= dates.len(),
            want == dates_of(dates@).map_values(|d: DateView| date_line(d)),
            pieces::strings(lines@) == want.take(i as int),
        decreases dates.len() - i,
    {
        let d = &dates[i];
        let mut l = d.label.clone();
        l.append(" — ");
        l.append(d.name.as_str());
        l.append(" in ");
        let n = number::integer_text(d.days_until);
        l.append(n.as_str());
        l.append(" days");
        assert(want[i as int] == date_line(d@));
        let ghost o = lines@;
        lines.push(l);
        assert(pieces::strings(lines@) =~= pieces::strings(o).push(l@));
        assert(want.take(i + 1) =~= want.take(i as int).push(l@));
        i += 1;
    }
    assert(want.take(dates.len() as int) =~= want);
    pieces::join_strings(&lines, "; ")
}

// ---- laws ----

/// The dates come soonest first, all within the horizon and none in the past.
pub proof fn law_upcoming_is_soonest_first(
    texts: Seq<Seq<char>>,
    cs: Seq<ContactView>,
    today: int,
    horizon: int,
)
    ensures
        forall|i: int, j: int|
            0 <= i < j < upcoming(texts, cs, today, horizon).len() ==> (#[trigger] upcoming(
                texts,
                cs,
                today,
                horizon,
            )[i]).days_until <= (#[trigger] upcoming(texts, cs, today, horizon)[j]).days_until,
        forall|i: int|
            0 <= i < upcoming(texts, cs, today, horizon).len() ==> 0 <= (#[trigger] upcoming(
                texts,
                cs,
                today,
                horizon,
            )[i]).days_until <= horizon,
{
    let key = |d: DateView| d.days_until;
    let list = with_contacts(all_remembered(texts, today, horizon), cs, today, horizon);
    let r = upcoming(texts, cs, today, horizon);
    ranking::law_sorted(list, key);
    lemma_remembered_within(texts, today, horizon);
    lemma_contacts_within(all_remembered(texts, today, horizon), cs, today, horizon);
    assert forall|i: int, j: int| 0 <= i < j < r.len() implies (#[trigger] r[i]).days_until <= (
    #[trigger] r[j]).days_until by {
        assert(key(r[i]) <= key(r[j]));
    }
    assert forall|i: int| 0 <= i < r.len() implies 0 <= (#[trigger] r[i]).days_until
        <= horizon by {
        r.to_multiset_ensures();
        list.to_multiset_ensures();
        assert(r.contains(r[i]) <==> r.to_multiset().count(r[i]) > 0);
        assert(list.contains(r[i]) <==> list.to_multiset().count(r[i]) > 0);
        let k = choose|k: int| 0 <= k < list.len() && list[k] == r[i];
        assert(0 <= list[k].days_until <= horizon);
    }
}

proof fn lemma_remembered_within(texts: Seq<Seq<char>>, today: int, horizon: int)
    ensures
        forall|i: int|
            0 <= i < all_remembered(texts, today, horizon).len() ==> 0 <= (
            #[trigger] all_remembered(texts, today, horizon)[i]).days_until <= horizon,
    decreases texts.len(),
{
    if texts.len() > 0 {
        lemma_remembered_within(texts.drop_last(), today, horizon);
        let a = all_remembered(texts.drop_last(), today, horizon);
        let b = all_remembered(texts, today, horizon);
        assert forall|i: int| 0 <= i < b.len() implies 0 <= (#[trigger] b[i]).days_until
            <= horizon by {
            if i < a.len() {
                assert(b[i] == a[i]);
            } else {
                let (m, d) = date_in(chars::lowercase(texts.last()))->0;
                calendar::law_next_occurrence_is_the_next(today, m as int, d as int);
            }
        }
    }
}

proof fn lemma_contacts_within(
    list: Seq<DateView>,
    cs: Seq<ContactView>,
    today: int,
    horizon: int,
)
    requires
        forall|i: int| 0 <= i < list.len() ==> 0 <= (#[trigger] list[i]).days_until <= horizon,
    ensures
        forall|i: int|
            0 <= i < with_contacts(list, cs, today, horizon).len() ==> 0 <= (
            #[trigger] with_contacts(list, cs, today, horizon)[i]).days_until <= horizon,
    decreases cs.len(),
{
    if cs.len() > 0 {
        lemma_contacts_within(list, cs.drop_last(), today, horizon);
        let a = with_contacts(list, cs.drop_last(), today, horizon);
        let b = with_contacts(list, cs, today, horizon);
        assert forall|i: int| 0 <= i < b.len() implies 0 <= (#[trigger] b[i]).days_until
            <= horizon by {
            if i < a.len() {
                assert(b[i] == a[i]);
            } else {
                let (m, d) = cs.last().birthday->0;
                calendar::law_next_occurrence_is_the_next(today, m as int, d as int);
            }
        }
    }
}

/// Two entries for the same date of the same person, of which a contact gave one.
pub open spec fn repeats(a: DateView, b: DateView) -> bool {
    &&& a.source == "contacts_csv"@ || b.source == "contacts_csv"@
    &&& a.name == b.name
    &&& a.month == b.month
    &&& a.day == b.day
}

/// The list has the birthday of the contact, where it comes up within the horizon.
pub open spec fn lists_contact(
    list: Seq<DateView>,
    c: ContactView,
    today: int,
    horizon: int,
) -> bool {
    match c.birthday {
        Some((m, d)) => match calendar::next_occurrence(today, m as int, d as int) {
            Some(days) => days <= horizon ==> has_date(list, c.name, m, d),
            None => true,
        },
        None => true,
    }
}

/// Every birthday of a contact within the horizon is listed, and every remembered date.
pub proof fn law_every_date_ahead_is_listed(
    texts: Seq<Seq<char>>,
    cs: Seq<ContactView>,
    today: int,
    horizon: int,
)
    ensures
        forall|i: int|
            0 <= i < cs.len() ==> lists_contact(
                upcoming(texts, cs, today, horizon),
                #[trigger] cs[i],
                today,
                horizon,
            ),
        forall|i: int|
            0 <= i < texts.len() ==> (remembered(#[trigger] texts[i], today, horizon) matches Some(
                x,
            ) ==> upcoming(texts, cs, today, horizon).contains(x)),
{
    let key = |d: DateView| d.days_until;
    let known = all_remembered(texts, today, horizon);
    let list = with_contacts(known, cs, today, horizon);
    let r = upcoming(texts, cs, today, horizon);
    ranking::law_sorted(list, key);
    r.to_multiset_ensures();
    list.to_multiset_ensures();
    lemma_remembered_listed(texts, today, horizon);
    lemma_contacts_listed(known, cs, today, horizon);
    assert forall|x: DateView| list.contains(x) implies #[trigger] r.contains(x) by {
        assert(r.contains(x) <==> r.to_multiset().count(x) > 0);
        assert(list.contains(x) <==> list.to_multiset().count(x) > 0);
    }
    assert forall|i: int| 0 <= i < cs.len() implies lists_contact(
        r,
        #[trigger] cs[i],
        today,
        horizon,
    ) by {
        match cs[i].birthday {
            Some((m, d)) => {
                if has_date(list, cs[i].name, m, d) {
                    let k = choose|k: int|
                        0 <= k < list.len() && (#[trigger] list[k]).name == cs[i].name
                            && list[k].month == m && list[k].day == d;
                    assert(r.contains(list[k]));
                    let l = choose|l: int| 0 <= l < r.len() && r[l] == list[k];
                    assert(r[l].name == cs[i].name);
                }
            },
            None => {},
        }
    }
}

/// No date that a contact gave is listed twice, neither from two contacts nor beside the same date
/// of the same person from memory.
pub proof fn law_no_contact_date_repeats(
    texts: Seq<Seq<char>>,
    cs: Seq<ContactView>,
    today: int,
    horizon: int,
)
    ensures
        forall|i: int, j: int|
            0 <= i < upcoming(texts, cs, today, horizon).len() && 0 <= j < upcoming(
                texts,
                cs,
                today,
                horizon,
            ).len() && i != j ==> !repeats(
                #[trigger] upcoming(texts, cs, today, horizon)[i],
                #[trigger] upcoming(texts, cs, today, horizon)[j],
            ),
{
    let known = all_remembered(texts, today, horizon);
    let related = |a: DateView, b: DateView| repeats(a, b);
    lemma_remembered_source(texts, today, horizon);
    assert(ranking::apart(known, related)) by {
        reveal_strlit("memory");
        reveal_strlit("contacts_csv");
        assert("memory"@.len() != "contacts_csv"@.len());
    }
    lemma_contacts_apart(known, cs, today, horizon);
    let list = with_contacts(known, cs, today, horizon);
    ranking::lemma_sorted_apart(list, |d: DateView| d.days_until, related);
    let r = upcoming(texts, cs, today, horizon);
    assert forall|i: int, j: int| 0 <= i < r.len() && 0 <= j < r.len() && i != j implies !repeats(
        #[trigger] r[i],
        #[trigger] r[j],
    ) by {
        assert(!related(r[i], r[j]));
    }
}

proof fn lemma_remembered_listed(texts: Seq<Seq<char>>, today: int, horizon: int)
    ensures
        forall|i: int|
            0 <= i < texts.len() ==> (remembered(#[trigger] texts[i], today, horizon) matches Some(
                x,
            ) ==> all_remembered(texts, today, horizon).contains(x)),
    decreases texts.len(),
{
    if texts.len() > 0 {
        let init = texts.drop_last();
        lemma_remembered_listed(init, today, horizon);
        let a = all_remembered(init, today, horizon);
        let b = all_remembered(texts, today, horizon);
        assert forall|i: int| 0 <= i < texts.len() implies (remembered(
            #[trigger] texts[i],
            today,
            horizon,
        ) matches Some(x) ==> b.contains(x)) by {
            match remembered(texts[i], today, horizon) {
                Some(x) => if i < init.len() {
                    assert(init[i] == texts[i]);
                    let k = choose|k: int| 0 <= k < a.len() && a[k] == x;
                    assert(b[k] == x);
                } else {
                    assert(b[a.len() as int] == x);
                },
                None => {},
            }
        }
    }
}

proof fn lemma_remembered_source(texts: Seq<Seq<char>>, today: int, horizon: int)
    ensures
        forall|i: int|
            0 <= i < all_remembered(texts, today, horizon).len() ==> (#[trigger] all_remembered(
                texts,
                today,
                horizon,
            )[i]).source == "memory"@,
    decreases texts.len(),
{
    if texts.len() > 0 {
        lemma_remembered_source(texts.drop_last(), today, horizon);
        let a = all_remembered(texts.drop_last(), today, horizon);
        let b = all_remembered(texts, today, horizon);
        assert forall|i: int| 0 <= i < b.len() implies (#[trigger] b[i]).source == "memory"@ by {
            if i < a.len() {
                assert(b[i] == a[i]);
            }
        }
    }
}

proof fn lemma_contacts_listed(
    list: Seq<DateView>,
    cs: Seq<ContactView>,
    today: int,
    horizon: int,
)
    ensures
        forall|i: int|
            0 <= i < cs.len() ==> lists_contact(
                with_contacts(list, cs, today, horizon),
                #[trigger] cs[i],
                today,
                horizon,
            ),
        forall|x: DateView| #[trigger]
            list.contains(x) ==> with_contacts(list, cs, today, horizon).contains(x),
    decreases cs.len(),
{
    if cs.len() > 0 {
        let init = cs.drop_last();
        lemma_contacts_listed(list, init, today, horizon);
        let a = with_contacts(list, init, today, horizon);
        let b = with_contacts(list, cs, today, horizon);
        assert forall|k: int| 0 <= k < a.len() implies #[trigger] b[k] == a[k] by {}
        assert forall|x: DateView| #[trigger] list.contains(x) implies b.contains(x) by {
            let k = choose|k: int| 0 <= k < a.len() && a[k] == x;
            assert(b[k] == x);
        }
        assert forall|i: int| 0 <= i < cs.len() implies lists_contact(
            b,
            #[trigger] cs[i],
            today,
            horizon,
        ) by {
            match cs[i].birthday {
                Some((m, d)) => {
                    if i < init.len() {
                        assert(init[i] == cs[i]);
                    }
                    if has_date(a, cs[i].name, m, d) {
                        let k = choose|k: int|
                            0 <= k < a.len() && (#[trigger] a[k]).name == cs[i].name
                                && a[k].month == m && a[k].day == d;
                        assert(b[k].name == cs[i].name);
                    } else if b.len() > a.len() {
                        assert(b[a.len() as int] == b.last());
                    }
                },
                None => {},
            }
        }
    }
}

proof fn lemma_contacts_apart(
    list: Seq<DateView>,
    cs: Seq<ContactView>,
    today: int,
    horizon: int,
)
    requires
        ranking::apart(list, |a: DateView, b: DateView| repeats(a, b)),
    ensures
        ranking::apart(
            with_contacts(list, cs, today, horizon),
            |a: DateView, b: DateView| repeats(a, b),
        ),
    decreases cs.len(),
{
    let related = |a: DateView, b: DateView| repeats(a, b);
    if cs.len() > 0 {
        lemma_contacts_apart(list, cs.drop_last(), today, horizon);
        let a = with_contacts(list, cs.drop_last(), today, horizon);
        let b = with_contacts(list, cs, today, horizon);
        assert forall|i: int, j: int|
            0 <= i < b.len() && 0 <= j < b.len() && i != j implies !related(
            #[trigger] b[i],
            #[trigger] b[j],
        ) by {
            if i < a.len() {
                assert(b[i] == a[i]);
            }
            if j < a.len() {
                assert(b[j] == a[j]);
            }
            if i < a.len() && j < a.len() {
                assert(!related(a[i], a[j]));
            }
        }
    }
}

} // verus!
