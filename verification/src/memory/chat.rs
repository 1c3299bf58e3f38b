//! Memory statements in chat: "remember …", "forget …", "why do you think …", "what do you know
//! about me". Deterministic; read before intake so that these never get delegated.

pub mod laws;

use vstd::prelude::*;

use crate::agents::family;
use crate::domain::Domain;
use crate::memory::item;
use crate::memory::item::ItemView;
use crate::memory::item::Kind;
use crate::memory::item::MemoryItem;
use crate::memory::item::Reason;
use crate::memory::item::ReasonView;
use crate::memory::item::Sensitivity;
use crate::text::chars;
use crate::text::chars::Class;
use crate::text::number;
use crate::text::pieces;
use crate::text::scan;

verus! {

// ---- keys ----

/// The characters of `s`, each in lower case.
pub open spec fn lowered_each(s: Seq<char>) -> Seq<char>
    decreases s.len(),
{
    if s.len() == 0 {
        Seq::empty()
    } else {
        lowered_each(s.drop_last()) + chars::lower_of(s.last())
    }
}

/// A slug with the next character: letters and digits stay, everything else becomes one
/// underscore between them.
pub open spec fn slug_step(out: Seq<char>, c: char) -> Seq<char> {
    if chars::alphanumeric(c) {
        out.push(c)
    } else if out.len() > 0 && out.last() != '_' {
        out.push('_')
    } else {
        out
    }
}

/// The slug of lower-case characters, up to the step that brings it to 48 bytes.
pub open spec fn slug_build(t: Seq<char>) -> Seq<char>
    decreases t.len(),
{
    if t.len() == 0 {
        Seq::empty()
    } else {
        let out = slug_build(t.drop_last());
        if chars::byte_len(out) >= 48 {
            out
        } else {
            slug_step(out, t.last())
        }
    }
}

pub open spec fn slug_of(s: Seq<char>) -> Seq<char> {
    scan::drop_end(
        scan::drop_start(slug_build(lowered_each(s)), Class::One('_')),
        Class::One('_'),
    )
}

fn lower_each(v: &Vec<char>) -> (r: Vec<char>)
    ensures
        r@ == lowered_each(v@),
{
    let mut out: Vec<char> = Vec::new();
    let mut i: usize = 0;
    assert(v@.take(0) =~= Seq::empty());
    while i < v.len()
        invariant
            i <= v.len(),
            out@ == lowered_each(v@.take(i as int)),
        decreases v.len() - i,
    {
        assert(v@.take(i + 1).drop_last() =~= v@.take(i as int));
        out = scan::concat(&out, &chars::lower_char(v[i]));
        i += 1;
    }
    assert(v@.take(v.len() as int) =~= v@);
    out
}

proof fn lemma_slug_stops(t: Seq<char>, n: int)
    requires
        0 <= n <= t.len(),
        chars::byte_len(slug_build(t.take(n))) >= 48,
    ensures
        slug_build(t) == slug_build(t.take(n)),
    decreases t.len() - n,
{
    if n == t.len() {
        assert(t.take(n) =~= t);
    } else {
        assert(t.take(n + 1).drop_last() =~= t.take(n));
        lemma_slug_stops(t, n + 1);
    }
}

/// The slug of lower-case characters.
pub fn slug_lower(t: &Vec<char>) -> (r: Vec<char>)
    ensures
        r@ == scan::drop_end(
            scan::drop_start(slug_build(t@), Class::One('_')),
            Class::One('_'),
        ),
{
    let mut out: Vec<char> = Vec::new();
    let mut i: usize = 0;
    assert(t@.take(0) =~= Seq::empty());
    while i < t.len() && chars::bytes_of(&out) < 48
        invariant
            i <= t.len(),
            out@ == slug_build(t@.take(i as int)),
        decreases t.len() - i,
    {
        assert(t@.take(i + 1).drop_last() =~= t@.take(i as int));
        let c = t[i];
        let n = out.len();
        if chars::is_alphanumeric(c) {
            out.push(c);
        } else if n > 0 && out[n - 1] != '_' {
            out.push('_');
        }
        i += 1;
    }
    proof {
        if i < t.len() {
            lemma_slug_stops(t@, i as int);
        } else {
            assert(t@.take(i as int) =~= t@);
        }
    }
    scan::without_end(&scan::without_start(&out, Class::One('_')), Class::One('_'))
}

fn slug(v: &Vec<char>) -> (r: Vec<char>)
    ensures
        r@ == slug_of(v@),
{
    slug_lower(&lower_each(v))
}

/// Each word with a capital, one space apart.
pub open spec fn titled(s: Seq<char>) -> Seq<char> {
    pieces::joined(
        pieces::words(s).map_values(|w: Seq<char>| pieces::capital(w)),
        " "@,
    )
}

fn title(v: &Vec<char>) -> (r: Vec<char>)
    ensures
        r@ == titled(v@),
{
    let words = pieces::split_words(v);
    let ghost want = pieces::words(v@).map_values(|w: Seq<char>| pieces::capital(w));
    let mut out: Vec<Vec<char>> = Vec::new();
    let mut i: usize = 0;
    while i < words.len()
        invariant
            i <= words.len(),
            pieces::texts(words@) == pieces::words(v@),
            want == pieces::words(v@).map_values(|w: Seq<char>| pieces::capital(w)),
            pieces::texts(out@) == want.take(i as int),
        decreases words.len() - i,
    {
        assert(pieces::texts(words@)[i as int] == words@[i as int]@);
        let c = pieces::capitalized(&words[i]);
        assert(want[i as int] == c@);
        let ghost o = out@;
        out.push(c);
        assert(pieces::texts(out@) =~= pieces::texts(o).push(c@));
        assert(want.take(i + 1) =~= want.take(i as int).push(c@));
        i += 1;
    }
    assert(pieces::texts(words@).len() == words@.len());
    assert(want.take(words.len() as int) =~= want);
    pieces::join(&out, " ")
}

// ---- statements ----

/// What a statement is kept as.
#[derive(Debug)]
pub struct Statement {
    pub domain: Domain,
    pub category: &'static str,
    pub key: String,
    pub value: String,
    pub sensitivity: Sensitivity,
}

#[verifier::ext_equal]
pub struct StatementView {
    pub domain: Domain,
    pub category: Seq<char>,
    pub key: Seq<char>,
    pub value: Seq<char>,
    pub sensitivity: Sensitivity,
}

impl View for Statement {
    type V = StatementView;

    open spec fn view(&self) -> StatementView {
        StatementView {
            domain: self.domain,
            category: self.category@,
            key: self.key@,
            value: self.value@,
            sensitivity: self.sensitivity,
        }
    }
}

/// A text without outer spaces and trailing full stops.
pub open spec fn clean_of(text: Seq<char>) -> Seq<char> {
    scan::drop_end(scan::trimmed(text), Class::One('.'))
}

/// The shapes of statement that get a structured key; what is left is a note under context.
#[verifier::ext_equal]
pub enum ShapeView {
    Name(Seq<char>),
    Place(Seq<char>),
    Timezone(Seq<char>),
    Meetings,
    Protected,
    Date,
    Task(Seq<char>),
    Note,
}

enum Shape {
    Name(Vec<char>),
    Place(Vec<char>),
    Timezone(Vec<char>),
    Meetings,
    Protected,
    Date,
    Task(Vec<char>),
    Note,
}

spec fn shape_view(s: Shape) -> ShapeView {
    match s {
        Shape::Name(v) => ShapeView::Name(v@),
        Shape::Place(v) => ShapeView::Place(v@),
        Shape::Timezone(v) => ShapeView::Timezone(v@),
        Shape::Meetings => ShapeView::Meetings,
        Shape::Protected => ShapeView::Protected,
        Shape::Date => ShapeView::Date,
        Shape::Task(v) => ShapeView::Task(v@),
        Shape::Note => ShapeView::Note,
    }
}

/// What follows the first of the prefixes that a text has.
pub open spec fn after_any(l: Seq<char>, prefixes: Seq<Seq<char>>) -> Option<Seq<char>>
    decreases prefixes.len(),
{
    if prefixes.len() == 0 {
        None
    } else {
        match scan::after(l, prefixes[0]) {
            Some(r) => Some(r),
            None => after_any(l, prefixes.skip(1)),
        }
    }
}

pub open spec fn name_prefixes() -> Seq<Seq<char>> {
    seq!["my name is "@, "call me "@]
}

pub open spec fn place_prefixes() -> Seq<Seq<char>> {
    seq![
        "i live in "@,
        "my home is in "@,
        "my home city is "@,
        "my city is "@,
        "i'm based in "@,
        "i am based in "@,
    ]
}

pub open spec fn task_prefixes() -> Seq<Seq<char>> {
    seq!["to "@, "i need to "@, "i have to "@]
}

/// The shape of a lower-case statement.
pub open spec fn shape_of(l: Seq<char>) -> ShapeView {
    if after_any(l, name_prefixes()) is Some {
        ShapeView::Name(after_any(l, name_prefixes())->0)
    } else if after_any(l, place_prefixes()) is Some {
        ShapeView::Place(after_any(l, place_prefixes())->0)
    } else if scan::after(l, "my timezone is "@) is Some {
        ShapeView::Timezone(scan::after(l, "my timezone is "@)->0)
    } else if scan::within(l, "no meetings before"@) || scan::within(
        l,
        "never take meetings before"@,
    ) || scan::within(l, "don't take meetings before"@) {
        ShapeView::Meetings
    } else if scan::within(l, "protect"@) && (scan::within(l, "evening"@) || scan::within(
        l,
        "weekend"@,
    )) {
        ShapeView::Protected
    } else if scan::within(l, "birthday"@) || scan::within(l, "anniversary"@) {
        ShapeView::Date
    } else if after_any(l, task_prefixes()) is Some {
        ShapeView::Task(after_any(l, task_prefixes())->0)
    } else {
        ShapeView::Note
    }
}

fn strip_any(l: &Vec<char>, prefixes: &Vec<&str>) -> (r: Option<Vec<char>>)
    ensures
        match r {
            Some(v) => after_any(l@, pieces::slices(prefixes@)) == Some(v@),
            None => after_any(l@, pieces::slices(prefixes@)) is None,
        },
{
    let ghost ps = pieces::slices(prefixes@);
    let mut i: usize = 0;
    assert(ps.skip(0) =~= ps);
    while i < prefixes.len()
        invariant
            i <= prefixes.len(),
            ps == pieces::slices(prefixes@),
            after_any(l@, ps) == after_any(l@, ps.skip(i as int)),
        decreases prefixes.len() - i,
    {
        assert(ps.skip(i as int)[0] == prefixes@[i as int]@);
        assert(ps.skip(i as int).skip(1) =~= ps.skip(i + 1));
        match scan::strip_prefix(l, prefixes[i]) {
            Some(v) => {
                return Some(v);
            },
            None => {},
        }
        i += 1;
    }
    None
}

fn read_shape(l: &Vec<char>) -> (r: Shape)
    ensures
        shape_view(r) == shape_of(l@),
{
    let names: Vec<&str> = vec!["my name is ", "call me "];
    assert(pieces::slices(names@) =~= name_prefixes());
    match strip_any(l, &names) {
        Some(v) => {
            return Shape::Name(v);
        },
        None => {},
    }
    let places: Vec<&str> = vec![
        "i live in ", "my home is in ", "my home city is ", "my city is ", "i'm based in ",
        "i am based in ",
    ];
    assert(pieces::slices(places@) =~= place_prefixes());
    match strip_any(l, &places) {
        Some(v) => {
            return Shape::Place(v);
        },
        None => {},
    }
    match scan::strip_prefix(l, "my timezone is ") {
        Some(v) => {
            return Shape::Timezone(v);
        },
        None => {},
    }
    if scan::contains(l, "no meetings before") || scan::contains(l, "never take meetings before")
        || scan::contains(l, "don't take meetings before") {
        return Shape::Meetings;
    }
    if scan::contains(l, "protect") && (scan::contains(l, "evening") || scan::contains(
        l,
        "weekend",
    )) {
        return Shape::Protected;
    }
    if scan::contains(l, "birthday") || scan::contains(l, "anniversary") {
        return Shape::Date;
    }
    let tasks: Vec<&str> = vec!["to ", "i need to ", "i have to "];
    assert(pieces::slices(tasks@) =~= task_prefixes());
    match strip_any(l, &tasks) {
        Some(v) => Shape::Task(v),
        None => Shape::Note,
    }
}

/// What stands between the first `p` and the next, or the end.
pub open spec fn second_field(l: Seq<char>, p: Seq<char>) -> Seq<char> {
    match scan::cut(l, p) {
        Some((_, rest)) => match scan::cut(rest, p) {
            Some((mid, _)) => mid,
            None => rest,
        },
        None => Seq::empty(),
    }
}

fn read_second_field(l: &Vec<char>, p: &str) -> (r: Vec<char>)
    ensures
        r@ == second_field(l@, p@),
{
    match scan::split_once(l, p) {
        Some((_, rest)) => match scan::split_once(&rest, p) {
            Some((mid, _)) => mid,
            None => rest,
        },
        None => {
            let v: Vec<char> = Vec::new();
            assert(v@ =~= Seq::empty());
            v
        },
    }
}

/// The hour that a statement on meetings names.
pub open spec fn hour_in(l: Seq<char>) -> Seq<char> {
    scan::trimmed(
        scan::drop_suffixes(scan::trimmed(second_field(l, "before"@)), "am"@),
    )
}

pub open spec fn any_in(l: Seq<char>, words: Seq<Seq<char>>) -> bool {
    exists|i: int| 0 <= i < words.len() && scan::within(l, #[trigger] words[i])
}

fn has_any(l: &Vec<char>, words: &Vec<&str>) -> (r: bool)
    ensures
        r == any_in(l@, pieces::slices(words@)),
{
    let ghost ws = pieces::slices(words@);
    let mut i: usize = 0;
    while i < words.len()
        invariant
            i <= words.len(),
            ws == pieces::slices(words@),
            forall|j: int| 0 <= j < i ==> !scan::within(l@, #[trigger] ws[j]),
        decreases words.len() - i,
    {
        assert(ws[i as int] == words@[i as int]@);
        if scan::contains(l, words[i]) {
            return true;
        }
        i += 1;
    }
    false
}

pub open spec fn work_words() -> Seq<Seq<char>> {
    seq![
        "work"@,
        "meeting"@,
        "boss"@,
        "client"@,
        "project"@,
        "deck"@,
        "report"@,
        "colleague"@,
    ]
}

fn has_work_words(l: &Vec<char>) -> (r: bool)
    ensures
        r == any_in(l@, work_words()),
{
    let words: Vec<&str> = vec![
        "work", "meeting", "boss", "client", "project", "deck", "report", "colleague",
    ];
    assert(pieces::slices(words@) =~= work_words());
    has_any(l, &words)
}

pub open spec fn note_sensitivity(l: Seq<char>) -> Sensitivity {
    if any_in(l, seq!["health"@, "medication"@, "doctor"@, "sleep"@]) {
        Sensitivity::Health
    } else if any_in(l, seq!["salary"@, "bank"@, "mortgage"@, "budget"@]) {
        Sensitivity::Financial
    } else {
        Sensitivity::Normal
    }
}

pub open spec fn note_domain(l: Seq<char>) -> Domain {
    if any_in(l, seq!["work"@, "meeting"@, "boss"@, "client"@, "project"@]) {
        Domain::Work
    } else if any_in(
        l,
        seq!["family"@, "home"@, "kids"@, "partner"@, "wife"@, "husband"@],
    ) {
        Domain::Home
    } else {
        Domain::Shared
    }
}

fn read_sensitivity(l: &Vec<char>) -> (r: Sensitivity)
    ensures
        r == note_sensitivity(l@),
{
    let health: Vec<&str> = vec!["health", "medication", "doctor", "sleep"];
    assert(pieces::slices(health@) =~= seq!["health"@, "medication"@, "doctor"@, "sleep"@]);
    let money: Vec<&str> = vec!["salary", "bank", "mortgage", "budget"];
    assert(pieces::slices(money@) =~= seq!["salary"@, "bank"@, "mortgage"@, "budget"@]);
    if has_any(l, &health) {
        Sensitivity::Health
    } else if has_any(l, &money) {
        Sensitivity::Financial
    } else {
        Sensitivity::Normal
    }
}

fn read_domain(l: &Vec<char>) -> (r: Domain)
    ensures
        r == note_domain(l@),
{
    let work: Vec<&str> = vec!["work", "meeting", "boss", "client", "project"];
    assert(pieces::slices(work@) =~= seq!["work"@, "meeting"@, "boss"@, "client"@, "project"@]);
    let home: Vec<&str> = vec!["family", "home", "kids", "partner", "wife", "husband"];
    assert(pieces::slices(home@) =~= seq![
        "family"@,
        "home"@,
        "kids"@,
        "partner"@,
        "wife"@,
        "husband"@,
    ]);
    if has_any(l, &work) {
        Domain::Work
    } else if has_any(l, &home) {
        Domain::Home
    } else {
        Domain::Shared
    }
}

/// The text of a task, in the case it was stated in: as much of the end of the statement as the
/// task takes of its lower-case form.
pub open spec fn task_text(clean: Seq<char>, task: Seq<char>) -> Option<Seq<char>> {
    match chars::byte_suffix(clean, chars::byte_len(task) as int) {
        Some(s) => Some(scan::trimmed(s)),
        None => None,
    }
}

/// The task of a statement, where it states one, can be told in its own case.
pub open spec fn structurable(clean: Seq<char>, l: Seq<char>) -> bool {
    match shape_of(l) {
        ShapeView::Task(task) => task_text(clean, task) is Some,
        _ => true,
    }
}

pub open spec fn kept(
    domain: Domain,
    category: Seq<char>,
    key: Seq<char>,
    value: Seq<char>,
) -> StatementView {
    StatementView { domain, category, key, value, sensitivity: Sensitivity::Normal }
}

/// What a clean statement with lower-case form `l` is kept as.
pub open spec fn structured(clean: Seq<char>, l: Seq<char>) -> StatementView {
    match shape_of(l) {
        ShapeView::Name(rest) => kept(Domain::Shared, "profile"@, "profile.name"@, titled(rest)),
        ShapeView::Place(rest) => kept(
            Domain::Shared,
            "profile"@,
            "profile.home_location"@,
            titled(rest),
        ),
        ShapeView::Timezone(rest) => kept(
            Domain::Shared,
            "profile"@,
            "profile.timezone"@,
            scan::trimmed(rest),
        ),
        ShapeView::Meetings => kept(
            Domain::Work,
            "preference"@,
            "preference.meetings.earliest_start"@,
            hour_in(l),
        ),
        ShapeView::Protected => kept(
            Domain::Home,
            "preference"@,
            "preference.protected_time"@,
            clean,
        ),
        ShapeView::Date => kept(
            Domain::Home,
            "date"@,
            "date."@ + family::label_in(l) + "."@ + slug_of(family::person_in(clean)),
            clean,
        ),
        ShapeView::Task(task) => {
            let text = task_text(clean, task)->0;
            kept(
                if any_in(l, work_words()) {
                    Domain::Work
                } else {
                    Domain::Home
                },
                "task"@,
                "task."@ + slug_of(text),
                text,
            )
        },
        ShapeView::Note => StatementView {
            domain: note_domain(l),
            category: "context"@,
            key: "context."@ + slug_of(clean),
            value: clean,
            sensitivity: note_sensitivity(l),
        },
    }
}

fn keep(domain: Domain, category: &'static str, key: &str, value: &Vec<char>) -> (r: Statement)
    ensures
        r@ == kept(domain, category@, key@, value@),
{
    Statement {
        domain,
        category,
        key: key.to_string(),
        value: chars::text_of(value),
        sensitivity: Sensitivity::Normal,
    }
}

fn keyed(head: &str, v: &Vec<char>) -> (r: String)
    ensures
        r@ == head@ + slug_of(v@),
{
    let mut s = head.to_string();
    let t = chars::text_of(&slug(v));
    s.append(t.as_str());
    s
}

/// Structure a clean statement, given its lower-case form.
pub fn structure(clean: &Vec<char>, l: &Vec<char>) -> (r: Statement)
    requires
        structurable(clean@, l@),
    ensures
        r@ == structured(clean@, l@),
{
    match read_shape(l) {
        Shape::Name(rest) => keep(Domain::Shared, "profile", "profile.name", &title(&rest)),
        Shape::Place(rest) => keep(
            Domain::Shared,
            "profile",
            "profile.home_location",
            &title(&rest),
        ),
        Shape::Timezone(rest) => keep(
            Domain::Shared,
            "profile",
            "profile.timezone",
            &scan::trim(&rest),
        ),
        Shape::Meetings => {
            let hour = scan::trim(
                &scan::without_suffixes(&scan::trim(&read_second_field(l, "before")), "am"),
            );
            keep(Domain::Work, "preference", "preference.meetings.earliest_start", &hour)
        },
        Shape::Protected => keep(Domain::Home, "preference", "preference.protected_time", clean),
        Shape::Date => {
            let text = chars::text_of(clean);
            let person = family::read_person(text.as_str());
            let mut head = "date.".to_string();
            head.append(family::label_of_lower(l));
            head.append(".");
            let key = keyed(head.as_str(), &chars::chars_of(person.as_str()));
            keep(Domain::Home, "date", key.as_str(), clean)
        },
        Shape::Task(task) => {
            let domain = if has_work_words(l) {
                Domain::Work
            } else {
                Domain::Home
            };
            let suffix = chars::suffix_of_bytes(clean, chars::bytes_of(&task)).unwrap();
            let text = scan::trim(&suffix);
            let key = keyed("task.", &text);
            keep(domain, "task", key.as_str(), &text)
        },
        Shape::Note => {
            let key = keyed("context.", clean);
            Statement {
                domain: read_domain(l),
                category: "context",
                key,
                value: chars::text_of(clean),
                sensitivity: read_sensitivity(l),
            }
        },
    }
}

fn clean(text: &str) -> (r: Vec<char>)
    ensures
        r@ == clean_of(text@),
{
    scan::without_end(&scan::trim(&chars::chars_of(text)), Class::One('.'))
}

fn lower_of_chars(v: &Vec<char>) -> (r: Vec<char>)
    ensures
        r@ == chars::lowercase(v@),
{
    let t = chars::text_of(v);
    chars::lowered(t.as_str())
}

/// A statement can be structured.
pub open spec fn statement_fits(text: Seq<char>) -> bool {
    structurable(clean_of(text), chars::lowercase(clean_of(text)))
}

/// What a statement is kept as.
pub open spec fn statement_of(text: Seq<char>) -> StatementView {
    structured(clean_of(text), chars::lowercase(clean_of(text)))
}

/// Turn a free-text statement into what is kept of it.
pub fn structure_statement(text: &str) -> (r: Statement)
    requires
        statement_fits(text@),
    ensures
        r@ == statement_of(text@),
{
    let c = clean(text);
    let l = lower_of_chars(&c);
    structure(&c, &l)
}

/// Whether a clean statement with lower-case form `l` can be structured.
pub fn is_structurable(clean: &Vec<char>, l: &Vec<char>) -> (r: bool)
    ensures
        r == structurable(clean@, l@),
{
    match read_shape(l) {
        Shape::Task(task) => chars::suffix_of_bytes(clean, chars::bytes_of(&task)).is_some(),
        _ => true,
    }
}

/// Turn a free-text statement into what is kept of it; `None` where its task cannot be told in
/// its own case.
pub fn try_structure_statement(text: &str) -> (r: Option<Statement>)
    ensures
        match r {
            Some(s) => statement_fits(text@) && s@ == statement_of(text@),
            None => !statement_fits(text@),
        },
{
    let c = clean(text);
    let l = lower_of_chars(&c);
    if is_structurable(&c, &l) {
        Some(structure_statement(text))
    } else {
        None
    }
}

// ---- requests ----

/// What follows the first `n` bytes of a text, where a character starts there (`str::get`).
pub open spec fn past_bytes(t: Seq<char>, n: int) -> Option<Seq<char>> {
    if n <= chars::byte_len(t) {
        chars::byte_suffix(t, chars::byte_len(t) - n)
    } else {
        None
    }
}

fn skip_bytes(t: &Vec<char>, n: u128) -> (r: Option<Vec<char>>)
    ensures
        match r {
            Some(v) => past_bytes(t@, n as int) == Some(v@),
            None => past_bytes(t@, n as int) is None,
        },
{
    let all = chars::bytes_of(t);
    if n <= all {
        chars::suffix_of_bytes(t, all - n)
    } else {
        None
    }
}

/// What the user asks of memory.
#[derive(Debug)]
pub enum Request {
    /// Say so; nothing is kept or forgotten.
    Ask(&'static str),
    /// Keep a statement, with the words it was made in.
    Remember { statement: Statement, note: String },
    Forget { phrase: String },
    /// Say why things about a topic are assumed; every topic where it is empty.
    Explain { topic: String },
    List,
}

#[verifier::ext_equal]
pub enum RequestView {
    Ask(Seq<char>),
    Remember { statement: StatementView, note: Seq<char> },
    Forget { phrase: Seq<char> },
    Explain { topic: Seq<char> },
    List,
}

impl View for Request {
    type V = RequestView;

    open spec fn view(&self) -> RequestView {
        match self {
            Request::Ask(m) => RequestView::Ask(m@),
            Request::Remember { statement, note } => RequestView::Remember {
                statement: statement@,
                note: note@,
            },
            Request::Forget { phrase } => RequestView::Forget { phrase: phrase@ },
            Request::Explain { topic } => RequestView::Explain { topic: topic@ },
            Request::List => RequestView::List,
        }
    }
}

pub open spec fn remember_prefixes() -> Seq<Seq<char>> {
    seq![
        "remind me to "@,
        "remember that "@,
        "remember: "@,
        "remember "@,
        "please remember that "@,
        "please remember "@,
    ]
}

pub open spec fn forget_prefixes() -> Seq<Seq<char>> {
    seq!["forget that "@, "forget about "@, "forget "@]
}

/// What follows the first of the prefixes that the lower-case form has and that can be taken off
/// the text itself.
pub open spec fn rest_after(t: Seq<char>, l: Seq<char>, prefixes: Seq<Seq<char>>) -> Option<
    Seq<char>,
>
    decreases prefixes.len(),
{
    if prefixes.len() == 0 {
        None
    } else {
        let p = prefixes[0];
        if scan::starts(l, p) && past_bytes(t, chars::byte_len(p) as int) is Some {
            past_bytes(t, chars::byte_len(p) as int)
        } else {
            rest_after(t, l, prefixes.skip(1))
        }
    }
}

/// The first of the prefixes that the lower-case form has.
pub open spec fn first_prefix(l: Seq<char>, prefixes: Seq<Seq<char>>) -> Option<Seq<char>>
    decreases prefixes.len(),
{
    if prefixes.len() == 0 {
        None
    } else if scan::starts(l, prefixes[0]) {
        Some(prefixes[0])
    } else {
        first_prefix(l, prefixes.skip(1))
    }
}

/// What is to be remembered, where a text asks for it.
pub open spec fn remember_rest(t: Seq<char>, l: Seq<char>) -> Option<Seq<char>> {
    match rest_after(t, l, remember_prefixes()) {
        Some(r) => Some(scan::trimmed(r)),
        None => None,
    }
}

/// The statement to keep: a reminder is a task.
pub open spec fn statement_in(l: Seq<char>, rest: Seq<char>) -> Seq<char> {
    if scan::starts(l, "remind me to "@) {
        "to "@ + rest
    } else {
        rest
    }
}

/// What is to be forgotten: the words behind the first prefix.
pub open spec fn forget_phrase(t: Seq<char>, l: Seq<char>) -> Option<Seq<char>> {
    match first_prefix(l, forget_prefixes()) {
        Some(p) => match past_bytes(t, chars::byte_len(p) as int) {
            Some(r) => Some(clean_of(r)),
            None => None,
        },
        None => None,
    }
}

/// The topic of a lower-case question why.
pub open spec fn topic_in(l: Seq<char>) -> Seq<char> {
    scan::drop_end(
        scan::trimmed(
            scan::drop_prefixes(
                scan::trimmed(
                    scan::drop_prefixes(
                        scan::drop_prefixes(l, "why do you think"@),
                        "why do you assume"@,
                    ),
                ),
                "that"@,
            ),
        ),
        Class::One('?'),
    )
}

/// A lower-case text asks why.
pub open spec fn asks_why(l: Seq<char>) -> bool {
    scan::starts(l, "why do you think"@) || scan::starts(l, "why do you assume"@)
}

/// A lower-case text asks what is known.
pub open spec fn asks_list(l: Seq<char>) -> bool {
    scan::starts(l, "what do you know about me"@) || scan::starts(l, "what do you remember"@) || l
        == "what do you know"@
}

/// The words that a request takes out of a trimmed text can be told in their own case.
pub open spec fn readable(t: Seq<char>, l: Seq<char>) -> bool {
    match remember_rest(t, l) {
        Some(rest) => rest.len() > 0 ==> statement_fits(statement_in(l, rest)),
        None => first_prefix(l, forget_prefixes()) is Some ==> forget_phrase(t, l) is Some,
    }
}

/// The request of a trimmed text with lower-case form `l`; `None` where it is not one.
pub open spec fn request_of(t: Seq<char>, l: Seq<char>) -> Option<RequestView> {
    match remember_rest(t, l) {
        Some(rest) => if rest.len() == 0 {
            Some(RequestView::Ask("What should I remember?"@))
        } else {
            Some(
                RequestView::Remember {
                    statement: statement_of(statement_in(l, rest)),
                    note: rest,
                },
            )
        },
        None => if first_prefix(l, forget_prefixes()) is Some {
            let phrase = forget_phrase(t, l)->0;
            if phrase.len() == 0 {
                Some(RequestView::Ask("What should I forget?"@))
            } else {
                Some(RequestView::Forget { phrase })
            }
        } else if asks_why(l) {
            Some(RequestView::Explain { topic: topic_in(l) })
        } else if asks_list(l) {
            Some(RequestView::List)
        } else {
            None
        },
    }
}

fn read_rest(t: &Vec<char>, l: &Vec<char>) -> (r: Option<Vec<char>>)
    ensures
        match r {
            Some(v) => remember_rest(t@, l@) == Some(v@),
            None => remember_rest(t@, l@) is None,
        },
{
    let prefixes: Vec<&str> = vec![
        "remind me to ", "remember that ", "remember: ", "remember ", "please remember that ",
        "please remember ",
    ];
    let ghost ps = pieces::slices(prefixes@);
    assert(ps =~= remember_prefixes());
    let mut i: usize = 0;
    assert(ps.skip(0) =~= ps);
    while i < prefixes.len()
        invariant
            i <= prefixes.len(),
            ps == pieces::slices(prefixes@),
            ps == remember_prefixes(),
            rest_after(t@, l@, ps) == rest_after(t@, l@, ps.skip(i as int)),
        decreases prefixes.len() - i,
    {
        assert(ps.skip(i as int)[0] == prefixes@[i as int]@);
        assert(ps.skip(i as int).skip(1) =~= ps.skip(i + 1));
        let p = prefixes[i];
        if scan::starts_with(l, p) {
            match skip_bytes(t, chars::bytes_of(&chars::chars_of(p))) {
                Some(v) => {
                    return Some(scan::trim(&v));
                },
                None => {},
            }
        }
        i += 1;
    }
    None
}

fn find_prefix(l: &Vec<char>) -> (r: Option<&'static str>)
    ensures
        match r {
            Some(p) => first_prefix(l@, forget_prefixes()) == Some(p@),
            None => first_prefix(l@, forget_prefixes()) is None,
        },
{
    reveal_with_fuel(first_prefix, 4);
    let ghost ps = forget_prefixes();
    assert(ps.skip(1) =~= seq!["forget about "@, "forget "@]);
    assert(ps.skip(1).skip(1) =~= seq!["forget "@]);
    assert(ps.skip(1).skip(1).skip(1) =~= Seq::empty());
    if scan::starts_with(l, "forget that ") {
        Some("forget that ")
    } else if scan::starts_with(l, "forget about ") {
        Some("forget about ")
    } else if scan::starts_with(l, "forget ") {
        Some("forget ")
    } else {
        None
    }
}

fn read_statement(l: &Vec<char>, rest: &Vec<char>) -> (r: String)
    ensures
        r@ == statement_in(l@, rest@),
{
    let t = chars::text_of(rest);
    if scan::starts_with(l, "remind me to ") {
        let mut s = "to ".to_string();
        s.append(t.as_str());
        s
    } else {
        t
    }
}

fn read_topic(l: &Vec<char>) -> (r: String)
    ensures
        r@ == topic_in(l@),
{
    let a = scan::without_prefixes(l, "why do you think");
    let b = scan::trim(&scan::without_prefixes(&a, "why do you assume"));
    let c = scan::trim(&scan::without_prefixes(&b, "that"));
    chars::text_of(&scan::without_end(&c, Class::One('?')))
}

/// Read the request of a trimmed text, given its lower-case form.
pub fn read_request(t: &Vec<char>, l: &Vec<char>) -> (r: Option<Request>)
    requires
        readable(t@, l@),
    ensures
        match r {
            Some(q) => request_of(t@, l@) == Some(q@),
            None => request_of(t@, l@) is None,
        },
{
    match read_rest(t, l) {
        Some(rest) => {
            if rest.len() == 0 {
                return Some(Request::Ask("What should I remember?"));
            }
            let text = read_statement(l, &rest);
            let statement = structure_statement(text.as_str());
            return Some(Request::Remember { statement, note: chars::text_of(&rest) });
        },
        None => {},
    }
    match find_prefix(l) {
        Some(p) => {
            let rest = skip_bytes(t, chars::bytes_of(&chars::chars_of(p))).unwrap();
            let phrase = scan::without_end(&scan::trim(&rest), Class::One('.'));
            return if phrase.len() == 0 {
                Some(Request::Ask("What should I forget?"))
            } else {
                Some(Request::Forget { phrase: chars::text_of(&phrase) })
            };
        },
        None => {},
    }
    if scan::starts_with(l, "why do you think") || scan::starts_with(l, "why do you assume") {
        return Some(Request::Explain { topic: read_topic(l) });
    }
    if scan::starts_with(l, "what do you know about me") || scan::starts_with(
        l,
        "what do you remember",
    ) || chars::spells(l, "what do you know") {
        return Some(Request::List);
    }
    None
}

fn is_readable(t: &Vec<char>, l: &Vec<char>) -> (r: bool)
    ensures
        r == readable(t@, l@),
{
    match read_rest(t, l) {
        Some(rest) => {
            if rest.len() == 0 {
                return true;
            }
            let text = read_statement(l, &rest);
            let c = clean(text.as_str());
            let low = lower_of_chars(&c);
            is_structurable(&c, &low)
        },
        None => match find_prefix(l) {
            Some(p) => skip_bytes(t, chars::bytes_of(&chars::chars_of(p))).is_some(),
            None => true,
        },
    }
}

/// What a text asks of memory; `None` where it is not a memory statement.
pub fn try_handle(text: &str) -> (r: Option<Request>)
    requires
        readable(scan::trimmed(text@), chars::lowercase(scan::trimmed(text@))),
    ensures
        ({
            let t = scan::trimmed(text@);
            match r {
                Some(q) => request_of(t, chars::lowercase(t)) == Some(q@),
                None => request_of(t, chars::lowercase(t)) is None,
            }
        }),
{
    let t = scan::trim(&chars::chars_of(text));
    let l = lower_of_chars(&t);
    read_request(&t, &l)
}

/// What a text asks of memory, `Some(None)` where it is not a memory statement; `None` where the
/// words it speaks of cannot be told in their own case.
pub fn try_handle_any(text: &str) -> (r: Option<Option<Request>>)
    ensures
        ({
            let t = scan::trimmed(text@);
            let l = chars::lowercase(t);
            match r {
                Some(Some(q)) => readable(t, l) && request_of(t, l) == Some(q@),
                Some(None) => readable(t, l) && request_of(t, l) is None,
                None => !readable(t, l),
            }
        }),
{
    let t = scan::trim(&chars::chars_of(text));
    let l = lower_of_chars(&t);
    if is_readable(&t, &l) {
        Some(try_handle(text))
    } else {
        None
    }
}

// ---- replies ----

/// What a memory statement resolved to; the caller renders it.
#[derive(Debug)]
pub enum MemoryReply {
    Remembered { key: String, value: String },
    Forgot(usize),
    Explained(Vec<(String, String, Vec<String>)>),
    Listed(Vec<String>),
    Nothing(&'static str),
}

/// A text as it stands in a page: the characters that open tags and entities are escaped.
pub open spec fn escaped(s: Seq<char>) -> Seq<char> {
    pieces::replaced(
        pieces::replaced(pieces::replaced(s, "&"@, "&amp;"@), "<"@, "&lt;"@),
        ">"@,
        "&gt;"@,
    )
}

fn esc(s: &str) -> (r: String)
    ensures
        r@ == escaped(s@),
{
    proof {
        reveal_strlit("&");
        reveal_strlit("<");
        reveal_strlit(">");
    }
    let a = pieces::replace(&chars::chars_of(s), "&", "&amp;");
    let b = pieces::replace(&a, "<", "&lt;");
    chars::text_of(&pieces::replace(&b, ">", "&gt;"))
}

/// What is assumed and why.
#[verifier::ext_equal]
pub struct ExplainedView {
    pub key: Seq<char>,
    pub value: Seq<char>,
    pub why: Seq<Seq<char>>,
}

pub open spec fn explained_of(x: (String, String, Vec<String>)) -> ExplainedView {
    ExplainedView { key: x.0@, value: x.1@, why: pieces::strings(x.2@) }
}

pub open spec fn explanations_of(v: Seq<(String, String, Vec<String>)>) -> Seq<ExplainedView> {
    v.map_values(|x: (String, String, Vec<String>)| explained_of(x))
}

pub open spec fn explained_line(x: ExplainedView) -> Seq<char> {
    "<b>"@ + escaped(x.key) + "</b> = "@ + escaped(x.value) + " — because: "@ + escaped(
        pieces::joined(x.why, "; "@),
    )
}

pub open spec fn html_of(r: MemoryReply) -> Seq<char> {
    match r {
        MemoryReply::Remembered { key, value } => "Got it — I'll remember <b>"@ + escaped(value@)
            + "</b> ("@ + escaped(key@) + "). You can edit or forget it any time."@,
        MemoryReply::Forgot(n) => if n == 0 {
            "I couldn't find anything matching that to forget."@
        } else {
            "Forgotten — <b>"@ + number::decimal(n as nat) + "</b> item"@ + (if n == 1 {
                ""@
            } else {
                "s"@
            }) + " removed from what I know."@
        },
        MemoryReply::Explained(items) => if items@.len() == 0 {
            "I'm not assuming anything about that — I only hold things you told me or confirmed."@
        } else {
            "Here is what I think and why: "@ + pieces::joined(
                explanations_of(items@).map_values(|x: ExplainedView| explained_line(x)),
                " · "@,
            )
        },
        MemoryReply::Listed(lines) => if lines@.len() == 0 {
            "I don't hold anything about you yet. Tell me things with \"remember …\" and I'll keep them as known facts you control."@
        } else {
            "What I hold about you: "@ + pieces::joined(
                pieces::strings(lines@).map_values(|l: Seq<char>| escaped(l)),
                " · "@,
            )
        },
        MemoryReply::Nothing(m) => m@,
    }
}

fn line_of(x: &(String, String, Vec<String>)) -> (r: String)
    ensures
        r@ == explained_line(explained_of(*x)),
{
    let mut s = "<b>".to_string();
    let key = esc(x.0.as_str());
    s.append(key.as_str());
    s.append("</b> = ");
    let value = esc(x.1.as_str());
    s.append(value.as_str());
    s.append(" — because: ");
    let why = pieces::join_strings(&x.2, "; ");
    let why = esc(why.as_str());
    s.append(why.as_str());
    s
}

impl MemoryReply {
    pub fn html(&self) -> (r: String)
        ensures
            r@ == html_of(*self),
    {
        match self {
            MemoryReply::Remembered { key, value } => {
                let mut s = "Got it — I'll remember <b>".to_string();
                let v = esc(value.as_str());
                s.append(v.as_str());
                s.append("</b> (");
                let k = esc(key.as_str());
                s.append(k.as_str());
                s.append("). You can edit or forget it any time.");
                s
            },
            MemoryReply::Forgot(n) => {
                if *n == 0 {
                    return "I couldn't find anything matching that to forget.".to_string();
                }
                let mut s = "Forgotten — <b>".to_string();
                let d = chars::text_of(&number::digits(*n as u64));
                s.append(d.as_str());
                s.append("</b> item");
                s.append(
                    if *n == 1 {
                        ""
                    } else {
                        "s"
                    },
                );
                s.append(" removed from what I know.");
                s
            },
            MemoryReply::Explained(items) => {
                if items.len() == 0 {
                    return "I'm not assuming anything about that — I only hold things you told me or confirmed.".to_string();
                }
                let ghost want = explanations_of(items@).map_values(
                    |x: ExplainedView| explained_line(x),
                );
                let mut lines: Vec<String> = Vec::new();
                let mut i: usize = 0;
                while i < items.len()
                    invariant
                        i <= items.len(),
                        want == explanations_of(items@).map_values(
                            |x: ExplainedView| explained_line(x),
                        ),
                        pieces::strings(lines@) == want.take(i as int),
                    decreases items.len() - i,
                {
                    let l = line_of(&items[i]);
                    assert(want[i as int] == l@);
                    let ghost o = lines@;
                    lines.push(l);
                    assert(pieces::strings(lines@) =~= pieces::strings(o).push(l@));
                    assert(want.take(i + 1) =~= want.take(i as int).push(l@));
                    i += 1;
                }
                assert(want.take(items.len() as int) =~= want);
                let mut s = "Here is what I think and why: ".to_string();
                let all = pieces::join_strings(&lines, " · ");
                s.append(all.as_str());
                s
            },
            MemoryReply::Listed(lines) => {
                if lines.len() == 0 {
                    return "I don't hold anything about you yet. Tell me things with \"remember …\" and I'll keep them as known facts you control.".to_string();
                }
                let ghost want = pieces::strings(lines@).map_values(|l: Seq<char>| escaped(l));
                let mut out: Vec<String> = Vec::new();
                let mut i: usize = 0;
                while i < lines.len()
                    invariant
                        i <= lines.len(),
                        want == pieces::strings(lines@).map_values(|l: Seq<char>| escaped(l)),
                        pieces::strings(out@) == want.take(i as int),
                    decreases lines.len() - i,
                {
                    let l = esc(lines[i].as_str());
                    assert(want[i as int] == l@);
                    let ghost o = out@;
                    out.push(l);
                    assert(pieces::strings(out@) =~= pieces::strings(o).push(l@));
                    assert(want.take(i + 1) =~= want.take(i as int).push(l@));
                    i += 1;
                }
                assert(want.take(lines.len() as int) =~= want);
                let mut s = "What I hold about you: ".to_string();
                let all = pieces::join_strings(&out, " · ");
                s.append(all.as_str());
                s
            },
            MemoryReply::Nothing(m) => (*m).to_string(),
        }
    }
}

/// How a reason reads: its kind, who gave it and what was noted.
pub open spec fn reason_line(p: ReasonView) -> Seq<char> {
    pieces::replaced(p.kind, "_"@, " "@) + (match p.agent {
        Some(a) => " by "@ + a,
        None => Seq::empty(),
    }) + (match p.note {
        Some(n) => " — "@ + n,
        None => Seq::empty(),
    })
}

/// An assumption about the topic: the lower-case topic is in its key or its value.
pub open spec fn explains(i: ItemView, topic: Seq<char>) -> bool {
    i.kind == Kind::Assumed && (topic.len() == 0 || scan::within(
        chars::lowercase(i.key),
        topic,
    ) || scan::within(chars::lowercase(i.rendered), topic))
}

pub open spec fn explanation_of(i: ItemView) -> ExplainedView {
    ExplainedView {
        key: i.key,
        value: i.rendered,
        why: i.provenance.map_values(|p: ReasonView| reason_line(p)),
    }
}

pub open spec fn explanations(items: Seq<ItemView>, topic: Seq<char>) -> Seq<ExplainedView>
    decreases items.len(),
{
    if items.len() == 0 {
        Seq::empty()
    } else {
        let before = explanations(items.drop_last(), topic);
        if explains(items.last(), topic) {
            before.push(explanation_of(items.last()))
        } else {
            before
        }
    }
}

fn reason_text(p: &Reason) -> (r: String)
    ensures
        r@ == reason_line(p@),
{
    proof {
        reveal_strlit("_");
    }
    let mut s = chars::text_of(&pieces::replace(&chars::chars_of(p.kind.as_str()), "_", " "));
    match &p.agent {
        Some(a) => {
            s.append(" by ");
            s.append(a.as_str());
        },
        None => {},
    }
    match &p.note {
        Some(n) => {
            s.append(" — ");
            s.append(n.as_str());
        },
        None => {},
    }
    assert(s@ =~= reason_line(p@));
    s
}

fn why(i: &MemoryItem) -> (r: Vec<String>)
    ensures
        pieces::strings(r@) == i@.provenance.map_values(|p: ReasonView| reason_line(p)),
{
    let ghost want = i@.provenance.map_values(|p: ReasonView| reason_line(p));
    let mut out: Vec<String> = Vec::new();
    let mut k: usize = 0;
    while k < i.provenance.len()
        invariant
            k <= i.provenance@.len(),
            want == i@.provenance.map_values(|p: ReasonView| reason_line(p)),
            pieces::strings(out@) == want.take(k as int),
        decreases i.provenance@.len() - k,
    {
        let t = reason_text(&i.provenance[k]);
        assert(i@.provenance[k as int] == i.provenance@[k as int]@);
        assert(want[k as int] == t@);
        let ghost o = out@;
        out.push(t);
        assert(pieces::strings(out@) =~= pieces::strings(o).push(t@));
        assert(want.take(k + 1) =~= want.take(k as int).push(t@));
        k += 1;
    }
    assert(want.take(i.provenance@.len() as int) =~= want);
    out
}

fn is_about(i: &MemoryItem, topic: &str) -> (r: bool)
    ensures
        r == explains(i@, topic@),
{
    proof {
        reveal_strlit("");
        if topic@.len() == 0 {
            assert(topic@ =~= ""@);
        }
    }
    i.kind == Kind::Assumed && (chars::same(topic, "") || scan::contains(
        &chars::lowered(i.key.as_str()),
        topic,
    ) || scan::contains(&chars::lowered(i.rendered.as_str()), topic))
}

/// Why things about a topic are assumed.
pub fn explain(items: &Vec<MemoryItem>, topic: &str) -> (r: MemoryReply)
    ensures
        r matches MemoryReply::Explained(v) && explanations_of(v@) == explanations(
            item::items_of(items@),
            topic@,
        ),
{
    let ghost all = item::items_of(items@);
    let mut out: Vec<(String, String, Vec<String>)> = Vec::new();
    let mut i: usize = 0;
    assert(all.take(0) =~= Seq::empty());
    assert(explanations_of(out@) =~= explanations(all.take(0), topic@));
    while i < items.len()
        invariant
            i <= items.len(),
            all == item::items_of(items@),
            explanations_of(out@) == explanations(all.take(i as int), topic@),
        decreases items.len() - i,
    {
        assert(all.take(i + 1).drop_last() =~= all.take(i as int));
        assert(all.take(i + 1).last() == items@[i as int]@);
        let m = &items[i];
        if is_about(m, topic) {
            let x = (m.key.clone(), m.rendered.clone(), why(m));
            let ghost o = out@;
            out.push(x);
            assert(explained_of(x) == explanation_of(m@));
            assert(explanations_of(out@) =~= explanations_of(o).push(explained_of(x)));
        }
        i += 1;
    }
    assert(all.take(items.len() as int) =~= all);
    MemoryReply::Explained(out)
}

/// Everything that is held, one line each.
pub fn list(items: &Vec<MemoryItem>) -> (r: MemoryReply)
    ensures
        r matches MemoryReply::Listed(v) && pieces::strings(v@) == item::items_of(
            items@,
        ).map_values(|i: ItemView| i.note),
{
    let ghost want = item::items_of(items@).map_values(|i: ItemView| i.note);
    let mut out: Vec<String> = Vec::new();
    let mut i: usize = 0;
    while i < items.len()
        invariant
            i <= items.len(),
            want == item::items_of(items@).map_values(|i: ItemView| i.note),
            pieces::strings(out@) == want.take(i as int),
        decreases items.len() - i,
    {
        let n = items[i].note.clone();
        assert(want[i as int] == n@);
        let ghost o = out@;
        out.push(n);
        assert(pieces::strings(out@) =~= pieces::strings(o).push(n@));
        assert(want.take(i + 1) =~= want.take(i as int).push(n@));
        i += 1;
    }
    assert(want.take(items.len() as int) =~= want);
    MemoryReply::Listed(out)
}

// ---- laws ----

proof fn lemma_replaced_free(s: Seq<char>, p: char, q: Seq<char>, c: char)
    requires
        scan::free_of(q, c),
        c == p || scan::free_of(s, c),
    ensures
        scan::free_of(pieces::replaced(s, seq![p], q), c),
    decreases s.len(),
{
    let one = seq![p];
    if s.len() > 0 {
        assert(one.len() == 1);
        let rest = s.skip(1);
        if c != p {
            assert forall|i: int| 0 <= i < rest.len() implies #[trigger] rest[i] != c by {
                assert(rest[i] == s[i + 1]);
            }
        }
        lemma_replaced_free(rest, p, q, c);
        let tail = pieces::replaced(rest, one, q);
        let whole = pieces::replaced(s, one, q);
        assert(s.subrange(0, 1) =~= seq![s[0]]);
        if scan::starts(s, one) {
            assert(whole == q + tail);
        } else {
            assert(whole == seq![s[0]] + tail);
            assert(s[0] != p) by {
                if s[0] == p {
                    assert(s.subrange(0, 0 + one.len() as int) =~= one);
                }
            }
        }
        assert forall|i: int| 0 <= i < whole.len() implies #[trigger] whole[i] != c by {
            if scan::starts(s, one) {
                if i < q.len() {
                    assert(whole[i] == q[i]);
                } else {
                    assert(whole[i] == tail[i - q.len()]);
                }
            } else if i > 0 {
                assert(whole[i] == tail[i - 1]);
            }
        }
    }
}

/// What is escaped opens and closes no tag.
pub proof fn law_escaped_text_has_no_tags(s: Seq<char>)
    ensures
        scan::free_of(escaped(s), '<'),
        scan::free_of(escaped(s), '>'),
{
    reveal_strlit("&");
    reveal_strlit("<");
    reveal_strlit(">");
    reveal_strlit("&amp;");
    reveal_strlit("&lt;");
    reveal_strlit("&gt;");
    assert("&"@ =~= seq!['&']);
    assert("<"@ =~= seq!['<']);
    assert(">"@ =~= seq!['>']);
    let a = pieces::replaced(s, "&"@, "&amp;"@);
    let b = pieces::replaced(a, "<"@, "&lt;"@);
    lemma_replaced_free(a, '<', "&lt;"@, '<');
    lemma_replaced_free(b, '>', "&gt;"@, '<');
    lemma_replaced_free(b, '>', "&gt;"@, '>');
}

/// Letters and digits, with single underscores between them; an underscore is neither.
pub open spec fn slug_like(s: Seq<char>) -> bool {
    &&& forall|i: int|
        0 <= i < s.len() ==> chars::alphanumeric(#[trigger] s[i]) || s[i] == '_'
    &&& !chars::alphanumeric('_') ==> forall|i: int, j: int|
        0 <= i && j == i + 1 && j < s.len() ==> !(#[trigger] s[i] == '_' && #[trigger] s[j] == '_')
}

proof fn lemma_slug_build(t: Seq<char>)
    ensures
        slug_like(slug_build(t)),
        chars::byte_len(slug_build(t)) < 52,
    decreases t.len(),
{
    if t.len() > 0 {
        let a = slug_build(t.drop_last());
        let b = slug_build(t);
        lemma_slug_build(t.drop_last());
        if b != a {
            assert(b.drop_last() =~= a);
            assert forall|i: int| 0 <= i < b.len() implies chars::alphanumeric(#[trigger] b[i])
                || b[i] == '_' by {
                if i < a.len() {
                    assert(b[i] == a[i]);
                }
            }
            assert forall|i: int, j: int|
                !chars::alphanumeric('_') && 0 <= i && j == i + 1 && j < b.len() implies !(
            #[trigger] b[i] == '_' && #[trigger] b[j] == '_') by {
                assert(b[i] == a[i]);
                if j < a.len() {
                    assert(b[j] == a[j]);
                }
            }
        }
    }
}

proof fn lemma_drop_start_slug(s: Seq<char>)
    requires
        slug_like(s),
    ensures
        slug_like(scan::drop_start(s, Class::One('_'))),
        chars::byte_len(scan::drop_start(s, Class::One('_'))) <= chars::byte_len(s),
        scan::drop_start(s, Class::One('_')).len() > 0 ==> scan::drop_start(
            s,
            Class::One('_'),
        )[0] != '_',
    decreases s.len(),
{
    if s.len() > 0 && s[0] == '_' {
        let rest = s.skip(1);
        assert forall|i: int| 0 <= i < rest.len() implies chars::alphanumeric(#[trigger] rest[i])
            || rest[i] == '_' by {
            assert(rest[i] == s[i + 1]);
        }
        assert forall|i: int, j: int|
                !chars::alphanumeric('_') && 0 <= i && j == i + 1 && j < rest.len() implies !(
        #[trigger] rest[i] == '_' && #[trigger] rest[j] == '_') by {
            assert(rest[i] == s[i + 1] && rest[j] == s[j + 1]);
        }
        lemma_drop_start_slug(rest);
        lemma_bytes_of_tail(s);
    }
}

proof fn lemma_bytes_of_tail(s: Seq<char>)
    requires
        s.len() > 0,
    ensures
        chars::byte_len(s) == chars::width(s[0]) + chars::byte_len(s.skip(1)),
    decreases s.len(),
{
    if s.len() == 1 {
        assert(s.drop_last() =~= Seq::empty());
        assert(s.skip(1) =~= Seq::empty());
    } else {
        lemma_bytes_of_tail(s.drop_last());
        assert(s.drop_last().skip(1) =~= s.skip(1).drop_last());
    }
}

proof fn lemma_drop_end_slug(s: Seq<char>)
    requires
        slug_like(s),
        s.len() > 0 ==> s[0] != '_',
    ensures
        slug_like(scan::drop_end(s, Class::One('_'))),
        chars::byte_len(scan::drop_end(s, Class::One('_'))) <= chars::byte_len(s),
        scan::drop_end(s, Class::One('_')).len() > 0 ==> scan::drop_end(s, Class::One('_'))[0]
            != '_' && scan::drop_end(s, Class::One('_')).last() != '_',
    decreases s.len(),
{
    if s.len() > 0 && s.last() == '_' {
        let init = s.drop_last();
        assert forall|i: int| 0 <= i < init.len() implies chars::alphanumeric(#[trigger] init[i])
            || init[i] == '_' by {
            assert(init[i] == s[i]);
        }
        assert forall|i: int, j: int|
                !chars::alphanumeric('_') && 0 <= i && j == i + 1 && j < init.len() implies !(
        #[trigger] init[i] == '_' && #[trigger] init[j] == '_') by {
            assert(init[i] == s[i] && init[j] == s[j]);
        }
        if init.len() > 0 {
            assert(init[0] == s[0]);
        }
        lemma_drop_end_slug(init);
    }
}

/// A slug is made of letters and digits with single underscores between them, neither starts nor
/// ends with one, and takes less than 52 bytes.
pub proof fn law_slugs(s: Seq<char>)
    ensures
        slug_like(slug_of(s)),
        slug_of(s).len() > 0 ==> slug_of(s)[0] != '_' && slug_of(s).last() != '_',
        chars::byte_len(slug_of(s)) < 52,
{
    let t = slug_build(lowered_each(s));
    lemma_slug_build(lowered_each(s));
    lemma_drop_start_slug(t);
    lemma_drop_end_slug(scan::drop_start(t, Class::One('_')));
}

} // verus!