//! What memory statements promise: what is asked, what is kept, and what is said.

use vstd::prelude::*;

use crate::agents::family;
use crate::domain::Domain;
use crate::memory::chat;
use crate::memory::chat::ExplainedView;
use crate::memory::chat::MemoryReply;
use crate::memory::chat::RequestView;
use crate::memory::item::ItemView;
use crate::memory::item::Kind;
use crate::memory::item::ReasonView;
use crate::memory::item::Sensitivity;
use crate::text::chars;
use crate::text::chars::Class;
use crate::text::laws;
use crate::text::number;
use crate::text::pieces;
use crate::text::scan;

verus! {

// ---- statements ----

/// The statement gives a name.
pub open spec fn gives_a_name(l: Seq<char>) -> bool {
    ||| scan::starts(l, "my name is "@)
    ||| scan::starts(l, "call me "@)
}

/// The statement gives a place.
pub open spec fn gives_a_place(l: Seq<char>) -> bool {
    ||| scan::starts(l, "i live in "@)
    ||| scan::starts(l, "my home is in "@)
    ||| scan::starts(l, "my home city is "@)
    ||| scan::starts(l, "my city is "@)
    ||| scan::starts(l, "i'm based in "@)
    ||| scan::starts(l, "i am based in "@)
}

/// The statement gives a task.
pub open spec fn gives_a_task(l: Seq<char>) -> bool {
    ||| scan::starts(l, "to "@)
    ||| scan::starts(l, "i need to "@)
    ||| scan::starts(l, "i have to "@)
}

/// The statement bounds the hours of meetings.
pub open spec fn bounds_meetings(l: Seq<char>) -> bool {
    ||| scan::within(l, "no meetings before"@)
    ||| scan::within(l, "never take meetings before"@)
    ||| scan::within(l, "don't take meetings before"@)
}

/// The statement protects a time.
pub open spec fn protects_time(l: Seq<char>) -> bool {
    scan::within(l, "protect"@) && (scan::within(l, "evening"@) || scan::within(l, "weekend"@))
}

/// The statement gives a date.
pub open spec fn gives_a_date(l: Seq<char>) -> bool {
    ||| scan::within(l, "birthday"@)
    ||| scan::within(l, "anniversary"@)
}

/// The statement of a task speaks of work.
pub open spec fn speaks_of_work(l: Seq<char>) -> bool {
    ||| scan::within(l, "work"@)
    ||| scan::within(l, "meeting"@)
    ||| scan::within(l, "boss"@)
    ||| scan::within(l, "client"@)
    ||| scan::within(l, "project"@)
    ||| scan::within(l, "deck"@)
    ||| scan::within(l, "report"@)
    ||| scan::within(l, "colleague"@)
}

/// A note speaks of work.
pub open spec fn note_of_work(l: Seq<char>) -> bool {
    ||| scan::within(l, "work"@)
    ||| scan::within(l, "meeting"@)
    ||| scan::within(l, "boss"@)
    ||| scan::within(l, "client"@)
    ||| scan::within(l, "project"@)
}

/// A note speaks of home.
pub open spec fn note_of_home(l: Seq<char>) -> bool {
    ||| scan::within(l, "family"@)
    ||| scan::within(l, "home"@)
    ||| scan::within(l, "kids"@)
    ||| scan::within(l, "partner"@)
    ||| scan::within(l, "wife"@)
    ||| scan::within(l, "husband"@)
}

/// A note speaks of health.
pub open spec fn note_of_health(l: Seq<char>) -> bool {
    ||| scan::within(l, "health"@)
    ||| scan::within(l, "medication"@)
    ||| scan::within(l, "doctor"@)
    ||| scan::within(l, "sleep"@)
}

/// A note speaks of money.
pub open spec fn note_of_money(l: Seq<char>) -> bool {
    ||| scan::within(l, "salary"@)
    ||| scan::within(l, "bank"@)
    ||| scan::within(l, "mortgage"@)
    ||| scan::within(l, "budget"@)
}

proof fn lemma_task_work(l: Seq<char>)
    ensures
        chat::any_in(l, chat::work_words()) <==> speaks_of_work(l),
{
    let s = chat::work_words();
    assert(s[0] == "work"@);
    assert(s[1] == "meeting"@);
    assert(s[2] == "boss"@);
    assert(s[3] == "client"@);
    assert(s[4] == "project"@);
    assert(s[5] == "deck"@);
    assert(s[6] == "report"@);
    assert(s[7] == "colleague"@);
    assert(s.len() == 8);
}

proof fn lemma_note_work(l: Seq<char>)
    ensures
        chat::any_in(l, seq!["work"@, "meeting"@, "boss"@, "client"@, "project"@]) <==> note_of_work(l),
{
    let s = seq!["work"@, "meeting"@, "boss"@, "client"@, "project"@];
    assert(s[0] == "work"@);
    assert(s[1] == "meeting"@);
    assert(s[2] == "boss"@);
    assert(s[3] == "client"@);
    assert(s[4] == "project"@);
    assert(s.len() == 5);
}

proof fn lemma_note_home(l: Seq<char>)
    ensures
        chat::any_in(l, seq!["family"@, "home"@, "kids"@, "partner"@, "wife"@, "husband"@]) <==> note_of_home(l),
{
    let s = seq!["family"@, "home"@, "kids"@, "partner"@, "wife"@, "husband"@];
    assert(s[0] == "family"@);
    assert(s[1] == "home"@);
    assert(s[2] == "kids"@);
    assert(s[3] == "partner"@);
    assert(s[4] == "wife"@);
    assert(s[5] == "husband"@);
    assert(s.len() == 6);
}

proof fn lemma_note_health(l: Seq<char>)
    ensures
        chat::any_in(l, seq!["health"@, "medication"@, "doctor"@, "sleep"@]) <==> note_of_health(l),
{
    let s = seq!["health"@, "medication"@, "doctor"@, "sleep"@];
    assert(s[0] == "health"@);
    assert(s[1] == "medication"@);
    assert(s[2] == "doctor"@);
    assert(s[3] == "sleep"@);
    assert(s.len() == 4);
}

proof fn lemma_note_money(l: Seq<char>)
    ensures
        chat::any_in(l, seq!["salary"@, "bank"@, "mortgage"@, "budget"@]) <==> note_of_money(l),
{
    let s = seq!["salary"@, "bank"@, "mortgage"@, "budget"@];
    assert(s[0] == "salary"@);
    assert(s[1] == "bank"@);
    assert(s[2] == "mortgage"@);
    assert(s[3] == "budget"@);
    assert(s.len() == 4);
}

/// What stands behind the first of the prefixes that a text has.
proof fn lemma_after(l: Seq<char>, ps: Seq<Seq<char>>, i: int)
    requires
        0 <= i < ps.len(),
        scan::starts(l, ps[i]),
        forall|j: int| 0 <= j < i ==> !scan::starts(l, #[trigger] ps[j]),
    ensures
        chat::after_any(l, ps) == Some(l.skip(ps[i].len() as int)),
    decreases i,
{
    if i > 0 {
        let rest = ps.skip(1);
        assert(forall|j: int| 0 <= j < rest.len() ==> rest[j] == ps[j + 1]);
        assert forall|j: int| 0 <= j < i - 1 implies !scan::starts(l, #[trigger] rest[j]) by {
            assert(rest[j] == ps[j + 1]);
        }
        assert(!scan::starts(l, ps[0]));
        lemma_after(l, rest, i - 1);
    }
}

proof fn lemma_none_after(l: Seq<char>, ps: Seq<Seq<char>>)
    ensures
        chat::after_any(l, ps) is None <==> forall|j: int|
            0 <= j < ps.len() ==> !scan::starts(l, #[trigger] ps[j]),
    decreases ps.len(),
{
    if ps.len() > 0 {
        let rest = ps.skip(1);
        lemma_none_after(l, rest);
        assert(forall|j: int| 0 <= j < rest.len() ==> rest[j] == ps[j + 1]);
        if chat::after_any(l, ps) is None {
            assert forall|j: int| 0 <= j < ps.len() implies !scan::starts(l, #[trigger] ps[j]) by {
                if j > 0 {
                    assert(rest[j - 1] == ps[j]);
                }
            }
        }
        if forall|j: int| 0 <= j < ps.len() ==> !scan::starts(l, #[trigger] ps[j]) {
            assert(!scan::starts(l, ps[0]));
            assert forall|j: int| 0 <= j < rest.len() implies !scan::starts(
                l,
                #[trigger] rest[j],
            ) by {
                assert(!scan::starts(l, ps[j + 1]));
            }
        }
    }
}

proof fn lemma_prefixes(l: Seq<char>)
    ensures
        chat::after_any(l, chat::name_prefixes()) is Some <==> gives_a_name(l),
        chat::after_any(l, chat::place_prefixes()) is Some <==> gives_a_place(l),
        chat::after_any(l, chat::task_prefixes()) is Some <==> gives_a_task(l),
{
    lemma_none_after(l, chat::name_prefixes());
    lemma_none_after(l, chat::place_prefixes());
    lemma_none_after(l, chat::task_prefixes());
    let name = chat::name_prefixes();
    assert(name.len() == 2);
    assert(name[0] == "my name is "@);
    assert(name[1] == "call me "@);
    let place = chat::place_prefixes();
    assert(place.len() == 6);
    assert(place[0] == "i live in "@);
    assert(place[1] == "my home is in "@);
    assert(place[2] == "my home city is "@);
    assert(place[3] == "my city is "@);
    assert(place[4] == "i'm based in "@);
    assert(place[5] == "i am based in "@);
    let task = chat::task_prefixes();
    assert(task.len() == 3);
    assert(task[0] == "to "@);
    assert(task[1] == "i need to "@);
    assert(task[2] == "i have to "@);
}

/// A statement with one of two prefixes of a name is kept as the name behind it, each word with a
/// capital.
pub proof fn law_names_are_kept(clean: Seq<char>, l: Seq<char>, p: Seq<char>)
    requires
        p == "my name is "@ || p == "call me "@,
        scan::starts(l, p),
    ensures
        chat::structured(clean, l).key == "profile.name"@,
        chat::structured(clean, l).value == chat::titled(l.skip(p.len() as int)),
        chat::structured(clean, l).category == "profile"@,
        chat::structured(clean, l).domain == Domain::Shared,
        chat::structured(clean, l).sensitivity == Sensitivity::Normal,
{
    reveal_strlit("my name is ");
    reveal_strlit("call me ");
    let ps = chat::name_prefixes();
    assert(ps[0] == "my name is "@ && ps[1] == "call me "@);
    if p == ps[0] {
        lemma_after(l, ps, 0);
    } else {
        assert(l.subrange(0, 8)[0] == l[0]);
        if scan::starts(l, ps[0]) {
            assert(l.subrange(0, 11)[0] == l[0]);
        }
        lemma_after(l, ps, 1);
    }
}

/// A statement that gives no name and starts with the first fitting prefix of a place is kept as the
/// place behind it.
pub proof fn law_places_are_kept(clean: Seq<char>, l: Seq<char>, i: int)
    requires
        !gives_a_name(l),
        ({
            let ps = seq![
                "i live in "@,
                "my home is in "@,
                "my home city is "@,
                "my city is "@,
                "i'm based in "@,
                "i am based in "@,
            ];
            &&& 0 <= i < ps.len()
            &&& scan::starts(l, ps[i])
            &&& forall|j: int| 0 <= j < i ==> !scan::starts(l, #[trigger] ps[j])
        }),
    ensures
        chat::structured(clean, l).key == "profile.home_location"@,
        chat::structured(clean, l).value == chat::titled(
            l.skip(chat::place_prefixes()[i].len() as int),
        ),
        chat::structured(clean, l).category == "profile"@,
        chat::structured(clean, l).domain == Domain::Shared,
        chat::structured(clean, l).sensitivity == Sensitivity::Normal,
{
    lemma_prefixes(l);
    lemma_after(l, chat::place_prefixes(), i);
}

/// The time zone of a statement is what stands behind it.
pub proof fn law_time_zones_are_kept(clean: Seq<char>, l: Seq<char>)
    requires
        !gives_a_name(l),
        !gives_a_place(l),
        scan::starts(l, "my timezone is "@),
    ensures
        chat::structured(clean, l).key == "profile.timezone"@,
        chat::structured(clean, l).value == scan::trimmed(
            l.skip("my timezone is "@.len() as int),
        ),
        chat::structured(clean, l).category == "profile"@,
        chat::structured(clean, l).domain == Domain::Shared,
{
    lemma_prefixes(l);
}

/// The statement is about the user: a name, a place or a time zone.
pub open spec fn about_the_user(l: Seq<char>) -> bool {
    gives_a_name(l) || gives_a_place(l) || scan::starts(l, "my timezone is "@)
}

/// A bound on meetings is a preference of work, protected time one of home; meetings come first.
pub proof fn law_preferences_are_kept(clean: Seq<char>, l: Seq<char>)
    requires
        !about_the_user(l),
    ensures
        ({
            let s = chat::structured(clean, l);
            &&& bounds_meetings(l) ==> s.key == "preference.meetings.earliest_start"@ && s.value
                == chat::hour_in(l) && s.category == "preference"@ && s.domain == Domain::Work
                && s.sensitivity == Sensitivity::Normal
            &&& !bounds_meetings(l) && protects_time(l) ==> s.key == "preference.protected_time"@
                && s.value == clean && s.category == "preference"@ && s.domain == Domain::Home
                && s.sensitivity == Sensitivity::Normal
        }),
{
    lemma_prefixes(l);
}

/// The hour of a bound on meetings is what stands behind the first `before`, up to the next one,
/// without `am` and without the space around it.
pub proof fn law_the_hour_of_a_bound(l: Seq<char>, a: Seq<char>, h: Seq<char>)
    requires
        scan::cut(l, "before"@) == Some((a, " "@ + (h + "am"@))),
        !scan::within(" "@ + (h + "am"@), "before"@),
        h.len() > 0,
        !chars::white(h[0]),
        chars::digit(h.last()),
    ensures
        chat::hour_in(l) == h,
{
    reveal_strlit("am");
    let x = h + "am"@;
    assert(x[0] == h[0]);
    assert(x.last() == 'm');
    lemma_trims(x);
    assert(x.subrange(x.len() - 2, x.len() as int) =~= "am"@);
    assert(x.take(x.len() - 2) =~= h);
    if scan::ends(h, "am"@) {
        assert(h.subrange(h.len() - 2, h.len() as int)[1] == h.last());
    }
    assert(scan::drop_suffixes(h, "am"@) == h);
    assert(scan::drop_suffixes(x, "am"@) == h);
    assert(scan::drop_start(h, Class::White) == h);
    assert(scan::drop_end(h, Class::White) == h);
}

/// A birthday or an anniversary is a date of home, under what it is and whose.
pub proof fn law_dates_are_kept(clean: Seq<char>, l: Seq<char>)
    requires
        !about_the_user(l),
        !bounds_meetings(l),
        !protects_time(l),
        gives_a_date(l),
    ensures
        ({
            let s = chat::structured(clean, l);
            let what = if scan::within(l, "anniversary"@) {
                "date.anniversary."@
            } else {
                "date.birthday."@
            };
            &&& s.key == what + chat::slug_of(family::person_in(clean))
            &&& s.value == clean
            &&& s.category == "date"@
            &&& s.domain == Domain::Home
            &&& s.sensitivity == Sensitivity::Normal
        }),
{
    lemma_prefixes(l);
    reveal_strlit("date.");
    reveal_strlit(".");
    reveal_strlit("anniversary");
    reveal_strlit("birthday");
    reveal_strlit("date.anniversary.");
    reveal_strlit("date.birthday.");
    assert("date."@ + "anniversary"@ + "."@ =~= "date.anniversary."@);
    assert("date."@ + "birthday"@ + "."@ =~= "date.birthday."@);
}

/// A task is of work where it speaks of it, and else of home, and is kept in its own case: the end
/// of the statement that is as long as the task.
pub proof fn law_tasks_are_kept(clean: Seq<char>, l: Seq<char>, i: int, text: Seq<char>)
    requires
        !about_the_user(l),
        !bounds_meetings(l),
        !protects_time(l),
        !gives_a_date(l),
        ({
            let ps = seq!["to "@, "i need to "@, "i have to "@];
            &&& 0 <= i < 3
            &&& scan::starts(l, ps[i])
            &&& forall|j: int| 0 <= j < i ==> !scan::starts(l, #[trigger] ps[j])
            &&& chars::byte_suffix(
                clean,
                chars::byte_len(l.skip(ps[i].len() as int)) as int,
            ) == Some(text)
        }),
    ensures
        ({
            let s = chat::structured(clean, l);
            &&& s.domain == if speaks_of_work(l) {
                Domain::Work
            } else {
                Domain::Home
            }
            &&& s.category == "task"@
            &&& s.value == scan::trimmed(text)
            &&& s.key == "task."@ + chat::slug_of(scan::trimmed(text))
            &&& s.sensitivity == Sensitivity::Normal
            &&& chat::structurable(clean, l)
        }),
{
    lemma_prefixes(l);
    lemma_after(l, chat::task_prefixes(), i);
    lemma_task_work(l);
}

/// Everything else is a note under context, of the world and as private as its words say: work
/// before home, health before money.
pub proof fn law_notes_are_kept(clean: Seq<char>, l: Seq<char>)
    requires
        !about_the_user(l),
        !bounds_meetings(l),
        !protects_time(l),
        !gives_a_date(l),
        !gives_a_task(l),
    ensures
        ({
            let s = chat::structured(clean, l);
            &&& s.category == "context"@
            &&& s.key == "context."@ + chat::slug_of(clean)
            &&& s.value == clean
            &&& s.domain == Domain::Work <==> note_of_work(l)
            &&& s.domain == Domain::Home <==> !note_of_work(l) && note_of_home(l)
            &&& s.domain == Domain::Shared <==> !note_of_work(l) && !note_of_home(l)
            &&& s.sensitivity == Sensitivity::Health <==> note_of_health(l)
            &&& s.sensitivity == Sensitivity::Financial <==> !note_of_health(l) && note_of_money(l)
            &&& s.sensitivity == Sensitivity::Normal <==> !note_of_health(l) && !note_of_money(l)
        }),
{
    lemma_prefixes(l);
    lemma_note_work(l);
    lemma_note_home(l);
    lemma_note_health(l);
    lemma_note_money(l);
}

proof fn lemma_dots(t: Seq<char>, n: nat)
    requires
        t.len() == 0 || t.last() != '.',
    ensures
        scan::drop_end(t + Seq::new(n, |i: int| '.'), Class::One('.')) == t,
    decreases n,
{
    let dots = Seq::new(n, |i: int| '.');
    let s = t + dots;
    if n == 0 {
        assert(s =~= t);
    } else {
        lemma_dots(t, (n - 1) as nat);
        assert(s.last() == '.');
        assert(s.drop_last() =~= t + Seq::new((n - 1) as nat, |i: int| '.'));
    }
}

/// A clean statement has no full stops at its end and no other character less.
pub proof fn law_clean_statements(t: Seq<char>, n: nat)
    requires
        t.len() > 0,
        !chars::white(t[0]),
        !chars::white(t.last()),
        t.last() != '.',
    ensures
        chat::clean_of(t + Seq::new(n, |i: int| '.')) == t,
{
    let s = t + Seq::new(n, |i: int| '.');
    assert(s[0] == t[0]);
    assert(s.last() == t.last() || s.last() == '.');
    assert(scan::drop_start(s, Class::White) == s);
    assert(scan::drop_end(s, Class::White) == s);
    lemma_dots(t, n);
}

// ---- slugs ----

proof fn lemma_slug_word(a: Seq<char>, b: Seq<char>)
    requires
        forall|i: int| 0 <= i < b.len() ==> chars::alphanumeric(#[trigger] b[i]),
        chars::byte_len(chat::slug_build(a) + b) < 48,
    ensures
        chat::slug_build(a + b) == chat::slug_build(a) + b,
    decreases b.len(),
{
    if b.len() == 0 {
        assert(a + b =~= a);
        assert(chat::slug_build(a) + b =~= chat::slug_build(a));
    } else {
        let init = b.drop_last();
        let s = chat::slug_build(a) + b;
        assert(s.drop_last() =~= chat::slug_build(a) + init);
        assert(b.last() == b[b.len() - 1]);
        lemma_slug_word(a, init);
        assert((a + b).drop_last() =~= a + init);
        assert((a + b).last() == b.last());
        assert((chat::slug_build(a) + init).push(b.last()) =~= s);
    }
}

/// The slug of two words has one underscore in place of what stands between them, as long as it
/// takes under 48 bytes.
pub proof fn law_slugs_of_words(a: Seq<char>, c: char, b: Seq<char>)
    requires
        a.len() > 0,
        b.len() > 0,
        forall|i: int| 0 <= i < a.len() ==> chars::alphanumeric(#[trigger] a[i]),
        forall|i: int| 0 <= i < b.len() ==> chars::alphanumeric(#[trigger] b[i]),
        !chars::alphanumeric(c),
        a[a.len() - 1] != '_',
        chars::byte_len(a.push('_') + b) < 48,
    ensures
        chat::slug_build(a) == a,
        chat::slug_build(a.push(c)) == a.push('_'),
        chat::slug_build(a.push(c).push(c)) == a.push('_'),
        chat::slug_build(a.push(c) + b) == a.push('_') + b,
{
    let none = Seq::<char>::empty();
    laws::law_bytes(a, seq!['_'] + b, ' ');
    assert(a + (seq!['_'] + b) =~= a.push('_') + b);
    laws::law_bytes(a.push('_'), b, ' ');
    assert(none + a =~= a);
    assert(chat::slug_build(none) =~= none);
    lemma_slug_word(none, a);
    assert(a.push(c).drop_last() =~= a);
    assert(a.push(c).push(c).drop_last() =~= a.push(c));
    lemma_slug_word(a.push(c), b);
}

// ---- requests ----

/// What follows as many bytes of a text as its first part takes is its second part.
proof fn lemma_past(a: Seq<char>, b: Seq<char>)
    ensures
        chat::past_bytes(a + b, chars::byte_len(a) as int) == Some(b),
{
    laws::law_bytes(a, b, ' ');
    laws::law_ends_by_bytes(a, b);
}

proof fn lemma_rest_after(t: Seq<char>, l: Seq<char>, ps: Seq<Seq<char>>, i: int, r: Seq<char>)
    requires
        0 <= i < ps.len(),
        scan::starts(l, ps[i]),
        chat::past_bytes(t, chars::byte_len(ps[i]) as int) == Some(r),
        forall|j: int| 0 <= j < i ==> !scan::starts(l, #[trigger] ps[j]),
    ensures
        chat::rest_after(t, l, ps) == Some(r),
    decreases i,
{
    if i > 0 {
        let rest = ps.skip(1);
        assert(forall|j: int| 0 <= j < rest.len() ==> rest[j] == ps[j + 1]);
        assert forall|j: int| 0 <= j < i - 1 implies !scan::starts(l, #[trigger] rest[j]) by {
            assert(rest[j] == ps[j + 1]);
        }
        assert(!scan::starts(l, ps[0]));
        lemma_rest_after(t, l, rest, i - 1, r);
    }
}

proof fn lemma_no_rest(t: Seq<char>, l: Seq<char>, ps: Seq<Seq<char>>)
    requires
        forall|j: int| 0 <= j < ps.len() ==> !scan::starts(l, #[trigger] ps[j]),
    ensures
        chat::rest_after(t, l, ps) is None,
        chat::first_prefix(l, ps) is None,
    decreases ps.len(),
{
    if ps.len() > 0 {
        let rest = ps.skip(1);
        assert forall|j: int| 0 <= j < rest.len() implies !scan::starts(l, #[trigger] rest[j]) by {
            assert(!scan::starts(l, ps[j + 1]));
        }
        assert(!scan::starts(l, ps[0]));
        lemma_no_rest(t, l, rest);
    }
}

proof fn lemma_first_prefix(l: Seq<char>, ps: Seq<Seq<char>>, i: int)
    requires
        0 <= i < ps.len(),
        scan::starts(l, ps[i]),
        forall|j: int| 0 <= j < i ==> !scan::starts(l, #[trigger] ps[j]),
    ensures
        chat::first_prefix(l, ps) == Some(ps[i]),
    decreases i,
{
    if i > 0 {
        let rest = ps.skip(1);
        assert forall|j: int| 0 <= j < i - 1 implies !scan::starts(l, #[trigger] rest[j]) by {
            assert(rest[j] == ps[j + 1]);
        }
        assert(!scan::starts(l, ps[0]));
        assert(rest[i - 1] == ps[i]);
        lemma_first_prefix(l, rest, i - 1);
    }
}

/// The text asks to remember.
pub open spec fn asks_to_remember(l: Seq<char>) -> bool {
    ||| scan::starts(l, "remind me to "@)
    ||| scan::starts(l, "remember that "@)
    ||| scan::starts(l, "remember: "@)
    ||| scan::starts(l, "remember "@)
    ||| scan::starts(l, "please remember that "@)
    ||| scan::starts(l, "please remember "@)
}

/// The text asks to forget.
pub open spec fn asks_to_forget(l: Seq<char>) -> bool {
    ||| scan::starts(l, "forget that "@)
    ||| scan::starts(l, "forget about "@)
    ||| scan::starts(l, "forget "@)
}

/// A text that asks to remember is kept as the statement of what follows, in its own case, and a
/// reminder as a task; with nothing behind it, it is asked what to remember.
pub proof fn law_what_is_remembered(l: Seq<char>, a: Seq<char>, b: Seq<char>, i: int)
    requires
        ({
            let ps = seq![
                "remind me to "@,
                "remember that "@,
                "remember: "@,
                "remember "@,
                "please remember that "@,
                "please remember "@,
            ];
            &&& 0 <= i < 6
            &&& scan::starts(l, ps[i])
            &&& forall|j: int| 0 <= j < i ==> !scan::starts(l, #[trigger] ps[j])
            &&& chars::byte_len(a) == chars::byte_len(ps[i])
        }),
    ensures
        ({
            let rest = scan::trimmed(b);
            let r = chat::request_of(a + b, l);
            &&& rest.len() == 0 ==> r == Some(RequestView::Ask("What should I remember?"@))
            &&& rest.len() > 0 && i > 0 ==> r == Some(
                RequestView::Remember { statement: chat::statement_of(rest), note: rest },
            )
            &&& rest.len() > 0 && i == 0 ==> r == Some(
                RequestView::Remember { statement: chat::statement_of("to "@ + rest), note: rest },
            )
        }),
{
    lemma_past(a, b);
    let ps = chat::remember_prefixes();
    assert(ps[0] == "remind me to "@);
    lemma_rest_after(a + b, l, ps, i, b);
    if i > 0 {
        assert(!scan::starts(l, ps[0]));
    }
}

/// A text that asks to forget, and not to remember, names what to forget in its own case, without
/// the full stops behind it; with nothing behind it, it is asked what to forget.
pub proof fn law_what_is_forgotten(l: Seq<char>, a: Seq<char>, b: Seq<char>, i: int)
    requires
        !asks_to_remember(l),
        ({
            let ps = seq!["forget that "@, "forget about "@, "forget "@];
            &&& 0 <= i < 3
            &&& scan::starts(l, ps[i])
            &&& forall|j: int| 0 <= j < i ==> !scan::starts(l, #[trigger] ps[j])
            &&& chars::byte_len(a) == chars::byte_len(ps[i])
        }),
    ensures
        ({
            let phrase = chat::clean_of(b);
            let r = chat::request_of(a + b, l);
            &&& phrase.len() == 0 ==> r == Some(RequestView::Ask("What should I forget?"@))
            &&& phrase.len() > 0 ==> r == Some(RequestView::Forget { phrase })
        }),
{
    lemma_past(a, b);
    lemma_not_remember(a + b, l);
    lemma_first_prefix(l, chat::forget_prefixes(), i);
}

proof fn lemma_not_remember(t: Seq<char>, l: Seq<char>)
    requires
        !asks_to_remember(l),
    ensures
        chat::remember_rest(t, l) is None,
{
    let ps = chat::remember_prefixes();
    assert forall|j: int| 0 <= j < ps.len() implies !scan::starts(l, #[trigger] ps[j]) by {
        assert(ps[0] == "remind me to "@);
        assert(ps[1] == "remember that "@);
        assert(ps[2] == "remember: "@);
        assert(ps[3] == "remember "@);
        assert(ps[4] == "please remember that "@);
        assert(ps[5] == "please remember "@);
    }
    lemma_no_rest(t, l, ps);
}

proof fn lemma_not_forget(t: Seq<char>, l: Seq<char>)
    requires
        !asks_to_forget(l),
    ensures
        chat::first_prefix(l, chat::forget_prefixes()) is None,
{
    let ps = chat::forget_prefixes();
    assert forall|j: int| 0 <= j < ps.len() implies !scan::starts(l, #[trigger] ps[j]) by {
        assert(ps[0] == "forget that "@);
        assert(ps[1] == "forget about "@);
        assert(ps[2] == "forget "@);
    }
    lemma_no_rest(t, l, ps);
}

/// A text that asks neither to remember nor to forget is a question why, a question what is known,
/// or no memory statement.
pub proof fn law_what_else_is_asked(t: Seq<char>, l: Seq<char>)
    requires
        !asks_to_remember(l),
        !asks_to_forget(l),
    ensures
        ({
            let why = scan::starts(l, "why do you think"@) || scan::starts(
                l,
                "why do you assume"@,
            );
            let what = scan::starts(l, "what do you know about me"@) || scan::starts(
                l,
                "what do you remember"@,
            ) || l == "what do you know"@;
            let r = chat::request_of(t, l);
            &&& why ==> r == Some(RequestView::Explain { topic: chat::topic_in(l) })
            &&& !why && what ==> r == Some(RequestView::List)
            &&& !why && !what ==> r is None
            &&& chat::readable(t, l)
        }),
{
    lemma_not_remember(t, l);
    lemma_not_forget(t, l);
}

proof fn lemma_drops(p: Seq<char>, b: Seq<char>)
    requires
        p.len() > 0,
        !scan::starts(b, p),
    ensures
        scan::drop_prefixes(p + b, p) == b,
{
    let s = p + b;
    assert(s.subrange(0, p.len() as int) =~= p);
    assert(s.skip(p.len() as int) =~= b);
    assert(scan::drop_prefixes(b, p) == b);
}

proof fn lemma_no_start(b: Seq<char>, p: Seq<char>)
    requires
        p.len() > 0,
        b.len() > 0 ==> b[0] != p[0],
    ensures
        !scan::starts(b, p),
        scan::drop_prefixes(b, p) == b,
{
    if scan::starts(b, p) {
        assert(b.subrange(0, p.len() as int)[0] == b[0]);
    }
}

proof fn lemma_trims(b: Seq<char>)
    requires
        b.len() > 0,
        !chars::white(b[0]),
        !chars::white(b.last()),
    ensures
        scan::trimmed(" "@ + b) == b,
        scan::trimmed(b) == b,
{
    reveal_strlit(" ");
    let s = " "@ + b;
    assert(s.skip(1) =~= b);
    assert(chars::white(s[0]));
    assert(scan::drop_start(b, Class::White) == b);
    assert(scan::drop_start(s, Class::White) == b);
    assert(scan::drop_end(b, Class::White) == b);
}

/// A question why is about what follows, with or without `that` before it, and without the question
/// mark.
pub proof fn law_the_topic_of_a_question(x: Seq<char>)
    requires
        x.len() > 0,
        !chars::white(x[0]),
        x[0] != 't',
        x.last() != '?',
    ensures
        chat::topic_in("why do you think"@ + (" "@ + (x + "?"@))) == x,
        chat::topic_in("why do you assume"@ + (" "@ + (x + "?"@))) == x,
        chat::topic_in("why do you think"@ + (" "@ + ("that"@ + (" "@ + (x + "?"@))))) == x,
        chat::topic_in("why do you assume"@ + (" "@ + ("that"@ + (" "@ + (x + "?"@))))) == x,
{
    reveal_strlit("why do you think");
    reveal_strlit("why do you assume");
    reveal_strlit("that");
    reveal_strlit(" ");
    reveal_strlit("?");
    let q = x + "?"@;
    let sq = " "@ + q;
    let that = "that"@ + sq;
    let st = " "@ + that;
    assert(q.last() == '?' && q[0] == x[0]);
    assert(q.drop_last() =~= x);
    assert(that[0] == 't' && that.last() == '?');
    lemma_no_start(sq, "why do you think"@);
    lemma_no_start(sq, "why do you assume"@);
    lemma_no_start(st, "why do you think"@);
    lemma_no_start(st, "why do you assume"@);
    lemma_drops("why do you think"@, sq);
    lemma_drops("why do you think"@, st);
    lemma_drops("why do you assume"@, sq);
    lemma_drops("why do you assume"@, st);
    lemma_not_think(sq);
    lemma_not_think(st);
    lemma_trims(q);
    lemma_trims(that);
    lemma_no_start(sq, "that"@);
    lemma_no_start(q, "that"@);
    lemma_drops("that"@, sq);
    assert(scan::drop_end(x, Class::One('?')) == x);
    assert(scan::drop_end(q, Class::One('?')) == x);
}

/// A question with `assume` does not start like one with `think`.
proof fn lemma_not_think(b: Seq<char>)
    ensures
        scan::drop_prefixes("why do you assume"@ + b, "why do you think"@) == "why do you assume"@
            + b,
{
    reveal_strlit("why do you think");
    reveal_strlit("why do you assume");
    let s = "why do you assume"@ + b;
    if scan::starts(s, "why do you think"@) {
        assert(s.subrange(0, 16)[11] == s[11]);
    }
}

// ---- replies ----

/// What is said of an item: its key and value, and why it is assumed.
pub open spec fn said_of(i: ItemView) -> ExplainedView {
    ExplainedView {
        key: i.key,
        value: i.rendered,
        why: i.provenance.map_values(|p: ReasonView| chat::reason_line(p)),
    }
}

/// What is assumed about a topic is explained, and nothing else: an assumption whose key or value
/// holds the topic, in lower case, and every assumption where there is no topic.
pub proof fn law_assumptions_are_explained(items: Seq<ItemView>, i: ItemView, topic: Seq<char>)
    ensures
        ({
            let about = i.kind == Kind::Assumed && (topic.len() == 0 || scan::within(
                chars::lowercase(i.key),
                topic,
            ) || scan::within(chars::lowercase(i.rendered), topic));
            let before = chat::explanations(items, topic);
            let after = chat::explanations(items.push(i), topic);
            &&& about ==> after == before.push(said_of(i))
            &&& !about ==> after == before
            &&& chat::explanations(Seq::<ItemView>::empty(), topic).len() == 0
        }),
{
    assert(items.push(i).drop_last() =~= items);
}

/// A reason reads as its kind, then who gave it, then what was noted, as far as they are there.
pub proof fn law_reasons(kind: Seq<char>, agent: Seq<char>, note: Seq<char>)
    requires
        scan::free_of(kind, '_'),
    ensures
        chat::reason_line(ReasonView { kind, agent: None, note: None }) == kind,
        chat::reason_line(ReasonView { kind, agent: Some(agent), note: None }) == kind + " by "@
            + agent,
        chat::reason_line(ReasonView { kind, agent: None, note: Some(note) }) == kind + " — "@
            + note,
        chat::reason_line(ReasonView { kind, agent: Some(agent), note: Some(note) }) == kind
            + " by "@ + agent + " — "@ + note,
{
    reveal_strlit("_");
    laws::law_nothing_is_replaced(kind, "_"@, " "@);
    let none = Seq::<char>::empty();
    assert(kind + none + none =~= kind);
    assert(kind + (" by "@ + agent) + none =~= kind + " by "@ + agent);
    assert(kind + none + (" — "@ + note) =~= kind + " — "@ + note);
    assert(kind + (" by "@ + agent) + (" — "@ + note) =~= kind + " by "@ + agent + " — "@
        + note);
}

/// A text without `&`, `<` and `>` stands in a page as it is; each of them is spelled out.
pub proof fn law_what_is_escaped(s: Seq<char>)
    requires
        scan::free_of(s, '&'),
        scan::free_of(s, '<'),
        scan::free_of(s, '>'),
    ensures
        chat::escaped(s) == s,
        chat::escaped("&"@) == "&amp;"@,
        chat::escaped("<"@) == "&lt;"@,
        chat::escaped(">"@) == "&gt;"@,
{
    reveal_strlit("&");
    reveal_strlit("<");
    reveal_strlit(">");
    reveal_strlit("&amp;");
    reveal_strlit("&lt;");
    reveal_strlit("&gt;");
    laws::law_nothing_is_replaced(s, "&"@, "&amp;"@);
    laws::law_nothing_is_replaced(s, "<"@, "&lt;"@);
    laws::law_nothing_is_replaced(s, ">"@, "&gt;"@);
    lemma_all_replaced("&"@, "&amp;"@);
    laws::law_nothing_is_replaced("&amp;"@, "<"@, "&lt;"@);
    laws::law_nothing_is_replaced("&amp;"@, ">"@, "&gt;"@);
    laws::law_nothing_is_replaced("<"@, "&"@, "&amp;"@);
    lemma_all_replaced("<"@, "&lt;"@);
    laws::law_nothing_is_replaced("&lt;"@, ">"@, "&gt;"@);
    laws::law_nothing_is_replaced(">"@, "&"@, "&amp;"@);
    laws::law_nothing_is_replaced(">"@, "<"@, "&lt;"@);
    lemma_all_replaced(">"@, "&gt;"@);
}

proof fn lemma_all_replaced(p: Seq<char>, q: Seq<char>)
    requires
        p.len() > 0,
    ensures
        pieces::replaced(p, p, q) == q,
{
    assert(p.subrange(0, p.len() as int) =~= p);
    let rest = p.skip(p.len() as int);
    assert(pieces::replaced(rest, p, q) == rest);
    assert(q + rest =~= q);
}

/// What was forgotten is counted, in the singular and the plural, and it is said where nothing was.
pub proof fn law_what_is_said_of_forgetting(n: usize)
    ensures
        ({
            let said = chat::html_of(MemoryReply::Forgot(n));
            &&& n == 0 ==> said == "I couldn't find anything matching that to forget."@
            &&& n == 1 ==> said == "Forgotten — <b>"@ + number::decimal(1)
                + "</b> item removed from what I know."@
            &&& n > 1 ==> said == "Forgotten — <b>"@ + number::decimal(n as nat)
                + "</b> items removed from what I know."@
        }),
{
    reveal_strlit("</b> item");
    reveal_strlit("");
    reveal_strlit("s");
    reveal_strlit(" removed from what I know.");
    reveal_strlit("</b> item removed from what I know.");
    reveal_strlit("</b> items removed from what I know.");
    let d = "Forgotten — <b>"@ + number::decimal(n as nat);
    assert(d + "</b> item"@ + ""@ + " removed from what I know."@ =~= d
        + "</b> item removed from what I know."@);
    assert(d + "</b> item"@ + "s"@ + " removed from what I know."@ =~= d
        + "</b> items removed from what I know."@);
}

/// What is remembered is said with its value before its key, and with the way back.
pub proof fn law_what_is_said_of_remembering(r: MemoryReply, key: Seq<char>, value: Seq<char>)
    requires
        r matches MemoryReply::Remembered { key: k, value: v } && k@ == key && v@ == value,
    ensures
        chat::html_of(r) == "Got it — I'll remember <b>"@ + chat::escaped(value) + "</b> ("@
            + chat::escaped(key) + "). You can edit or forget it any time."@,
{
}

/// A reply that explains or lists says so where there is nothing, and else has each entry once.
pub proof fn law_what_is_said_of_nothing(r: MemoryReply)
    ensures
        r matches MemoryReply::Explained(v) ==> (v@.len() == 0 ==> chat::html_of(r)
            == "I'm not assuming anything about that — I only hold things you told me or confirmed."@)
            && (v@.len() == 1 ==> chat::html_of(r) == "Here is what I think and why: "@
            + chat::explained_line(chat::explained_of(v@[0]))),
        r matches MemoryReply::Listed(v) ==> (v@.len() == 0 ==> chat::html_of(r)
            == "I don't hold anything about you yet. Tell me things with \"remember …\" and I'll keep them as known facts you control."@)
            && (v@.len() == 1 ==> chat::html_of(r) == "What I hold about you: "@ + chat::escaped(
            v@[0]@,
        )),
{
}

/// What is assumed is told with its key in bold, its value, and every reason.
pub proof fn law_what_is_said_of_an_assumption(x: ExplainedView)
    ensures
        chat::explained_line(x) == "<b>"@ + chat::escaped(x.key) + "</b> = "@ + chat::escaped(
            x.value,
        ) + " — because: "@ + chat::escaped(pieces::joined(x.why, "; "@)),
{
}

} // verus!
