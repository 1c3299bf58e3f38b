//! The morning briefing: calendar, inbox and brief.

use vstd::prelude::*;

use crate::orchestrator::card;
use crate::orchestrator::card::Card;
use crate::orchestrator::card::CardView;
use crate::orchestrator::card::Resolve;
use crate::orchestrator::card::ResolveView;
use crate::orchestrator::json;
use crate::orchestrator::workflow;
use crate::orchestrator::workflow::Act;
use crate::orchestrator::workflow::AgentSlot;
use crate::orchestrator::workflow::Run;
use crate::orchestrator::workflow::SlotView;
use crate::text::chars;
use crate::text::number;
use crate::text::pieces;
use crate::text::scan;

verus! {

pub open spec fn the_cards() -> Seq<CardView> {
    seq![
        CardView {
            glyph: "📅"@,
            title: "Today"@,
            agent: "calendar.agent"@,
            surface: None,
            attention: false,
            waits_for: None,
            stream: seq!["Reading your calendar…"@],
        },
        CardView {
            glyph: "✉️"@,
            title: "Needs you"@,
            agent: "inbox.agent"@,
            surface: None,
            attention: true,
            waits_for: None,
            stream: seq!["Triaging new emails…"@, "Surfacing only what matters…"@],
        },
        CardView {
            glyph: "📰"@,
            title: "Brief"@,
            agent: "news.agent"@,
            surface: None,
            attention: false,
            waits_for: Some(2),
            stream: seq!["Composing your brief…"@],
        },
    ]
}

pub fn morning_cards() -> (r: Vec<Card>)
    ensures
        card::cards_of(r@) == the_cards(),
{
    let a = Card {
        glyph: "📅",
        title: "Today",
        agent: "calendar.agent",
        surface: None,
        attention: false,
        waits_for: None,
        stream: vec!["Reading your calendar…"],
    };
    let b = Card {
        glyph: "✉️",
        title: "Needs you",
        agent: "inbox.agent",
        surface: None,
        attention: true,
        waits_for: None,
        stream: vec!["Triaging new emails…", "Surfacing only what matters…"],
    };
    let c = Card {
        glyph: "📰",
        title: "Brief",
        agent: "news.agent",
        surface: None,
        attention: false,
        waits_for: Some(2),
        stream: vec!["Composing your brief…"],
    };
    assert(a@ == the_cards()[0]);
    assert(b@ == the_cards()[1]);
    assert(c@ == the_cards()[2]);
    vec![a, b, c]
}

pub open spec fn the_slots() -> Seq<SlotView> {
    seq![
        SlotView { author: "calendar_agent"@, index: 0 },
        SlotView { author: "inbox_agent"@, index: 1 },
        SlotView { author: "brief_agent"@, index: 2 },
    ]
}

fn slots() -> (r: Vec<AgentSlot>)
    ensures
        workflow::slots_of(r@) == the_slots(),
{
    let a = AgentSlot { author: "calendar_agent".to_string(), index: 0 };
    let b = AgentSlot { author: "inbox_agent".to_string(), index: 1 };
    let c = AgentSlot { author: "brief_agent".to_string(), index: 2 };
    assert(a@ == the_slots()[0]);
    assert(b@ == the_slots()[1]);
    assert(c@ == the_slots()[2]);
    let r = vec![a, b, c];
    assert(workflow::slots_of(r@) =~= the_slots());
    r
}

/// The run of a morning briefing and what opens it.
pub fn start(store: bool) -> (r: (Run, Vec<Act>))
    ensures
        r.0@ == workflow::started(the_slots(), 3, store, false),
        r.0@.valid(),
        workflow::acts_of(r.1@) == workflow::opening_acts(3, store),
{
    let s = slots();
    (Run::new(s, 3, store, false), workflow::opening(3, store))
}

/// Whatever the agents send, a morning briefing resolves each of its three cards exactly once.
pub proof fn law_every_card_resolves_once(
    store: bool,
    es: Seq<workflow::EventView>,
    i: int,
)
    requires
        0 <= i < 3,
    ensures
        ({
            let s = workflow::started(the_slots(), 3, store, false);
            workflow::resolves(
                workflow::events_acts(s, es) + workflow::finish_acts(
                    workflow::after_events(s, es),
                ),
                i,
            ) == 1
        }),
{
    let slots = the_slots();
    assert(workflow::slot_count(slots, i) <= 1) by {
        reveal_with_fuel(workflow::slot_count, 4);
        assert(slots.drop_last().last() == slots[1]);
        assert(slots.drop_last().drop_last().last() == slots[0]);
    }
    workflow::law_every_card_resolves_once(slots, 3, store, false, es, i);
    assert(slots[i].index == i);
}

/// The status line that a tool shows.
pub open spec fn line_for(tool: Seq<char>) -> Seq<char> {
    if tool == "get_today"@ || tool == "list_events"@ || tool == "list_calendars"@ {
        "Reading your calendar…"@
    } else if tool == "find_free_time"@ || tool == "search_events"@ {
        "Finding free time…"@
    } else if tool == "list_inbox"@ {
        "Triaging new emails…"@
    } else if tool == "search_emails"@ || tool == "get_email"@ {
        "Surfacing only what matters…"@
    } else if tool == "gnews_top_headlines"@ || tool == "search_news"@ || tool
        == "get_country_news"@ {
        "Pulling headlines…"@
    } else if tool == "get_forecast"@ || tool == "geocode_location"@ {
        "Checking weather…"@
    } else {
        "Working…"@
    }
}

pub fn status_line(tool: &str) -> (r: &'static str)
    ensures
        r@ == line_for(tool@),
{
    if chars::same(tool, "get_today") || chars::same(tool, "list_events") || chars::same(
        tool,
        "list_calendars",
    ) {
        "Reading your calendar…"
    } else if chars::same(tool, "find_free_time") || chars::same(tool, "search_events") {
        "Finding free time…"
    } else if chars::same(tool, "list_inbox") {
        "Triaging new emails…"
    } else if chars::same(tool, "search_emails") || chars::same(tool, "get_email") {
        "Surfacing only what matters…"
    } else if chars::same(tool, "gnews_top_headlines") || chars::same(tool, "search_news")
        || chars::same(tool, "get_country_news") {
        "Pulling headlines…"
    } else if chars::same(tool, "get_forecast") || chars::same(tool, "geocode_location") {
        "Checking weather…"
    } else {
        "Working…"
    }
}

// ---- what the cards resolve to ----

/// The calendar card for a number of meetings, three where it is not known.
pub open spec fn calendar_card(count: Option<usize>) -> ResolveView {
    let n: nat = match count {
        Some(n) => n as nat,
        None => 3,
    };
    card::headline_resolve(
        number::decimal(n) + " meetings"@,
        "Calendar synced · see details in card"@,
        seq!["Open"@, "Reschedule"@],
        None,
    )
}

pub fn calendar_resolve_for(count: Option<usize>) -> (r: Resolve)
    ensures
        r@ == calendar_card(count),
{
    let n: u64 = match count {
        Some(n) => n as u64,
        None => 3,
    };
    let mut big = chars::text_of(&number::digits(n));
    big.append(" meetings");
    let r = Resolve {
        big: Some(big),
        sub: Some("Calendar synced · see details in card".to_string()),
        lines: None,
        actions: vec!["Open", "Reschedule"],
        artifact_url: None,
    };
    assert(r@.actions =~= calendar_card(count).actions);
    r
}

/// The number of meetings that a calendar tool listed.
pub fn parse_meeting_count(text: &str) -> (r: Option<usize>)
    ensures
        r == json::json_length(text@),
{
    json::array_length(text)
}

pub fn calendar_resolve(text: &str) -> (r: Resolve)
    ensures
        r@ == calendar_card(json::json_length(text@)),
{
    calendar_resolve_for(parse_meeting_count(text))
}

/// How many emails a lower-case report speaks of.
pub open spec fn email_count(l: Seq<char>) -> nat {
    if scan::within(l, "no unread"@) || scan::within(l, "0 email"@) {
        0
    } else if scan::within(l, "1 email"@) || scan::within(l, "one email"@) {
        1
    } else {
        2
    }
}

pub open spec fn inbox_card(count: nat) -> ResolveView {
    card::headline_resolve(
        if count == 0 {
            "Inbox clear"@
        } else {
            number::decimal(count) + " to reply"@
        },
        if count == 0 {
            "Nothing urgent"@
        } else {
            "Flagged threads need you"@
        },
        seq!["Draft replies"@, "Snooze"@],
        None,
    )
}

/// The inbox card for a lower-case report.
pub fn inbox_resolve_lower(l: &Vec<char>) -> (r: Resolve)
    ensures
        r@ == inbox_card(email_count(l@)),
{
    let count: u64 = if scan::contains(l, "no unread") || scan::contains(l, "0 email") {
        0
    } else if scan::contains(l, "1 email") || scan::contains(l, "one email") {
        1
    } else {
        2
    };
    let big = if count == 0 {
        "Inbox clear".to_string()
    } else {
        let mut s = chars::text_of(&number::digits(count));
        s.append(" to reply");
        s
    };
    let sub = if count == 0 {
        "Nothing urgent"
    } else {
        "Flagged threads need you"
    };
    let r = Resolve {
        big: Some(big),
        sub: Some(sub.to_string()),
        lines: None,
        actions: vec!["Draft replies", "Snooze"],
        artifact_url: None,
    };
    assert(r@.actions =~= inbox_card(email_count(l@)).actions);
    r
}

pub fn inbox_resolve(text: &str) -> (r: Resolve)
    ensures
        r@ == inbox_card(email_count(chars::lowercase(text@))),
{
    inbox_resolve_lower(&chars::lowered(text))
}

/// A line of the brief: bold as it is, or with a bold bullet before it.
pub open spec fn bulleted(l: Seq<char>) -> Seq<char> {
    if scan::starts(l, "<b>"@) {
        l
    } else {
        "<b>•</b> "@ + l
    }
}

/// The lines that hold more than spaces, trimmed.
pub open spec fn written(lines: Seq<Seq<char>>) -> Seq<Seq<char>>
    decreases lines.len(),
{
    if lines.len() == 0 {
        Seq::empty()
    } else {
        let l = scan::trimmed(lines.last());
        if l.len() > 0 {
            written(lines.drop_last()).push(l)
        } else {
            written(lines.drop_last())
        }
    }
}

/// The lines that stand in for an empty brief.
pub open spec fn placeholder_lines() -> Seq<Seq<char>> {
    seq![
        "<b>Headlines</b> — top stories loading"@,
        "<b>Weather</b> — check forecast"@,
        "<b>Focus</b> — protect your morning block"@,
    ]
}

/// The first three written lines, or the placeholders where there is none.
pub open spec fn brief_lines(text: Seq<char>) -> Seq<Seq<char>> {
    let w = written(pieces::lines_of(text));
    if w.len() == 0 {
        placeholder_lines()
    } else {
        pieces::at_most(w, 3).map_values(|l: Seq<char>| bulleted(l))
    }
}

pub open spec fn brief_card(text: Seq<char>) -> ResolveView {
    ResolveView {
        big: None,
        sub: None,
        lines: Some(brief_lines(text)),
        actions: seq!["Read aloud"@, "Dismiss"@],
        artifact_url: None,
    }
}

fn bullet(l: &Vec<char>) -> (r: String)
    ensures
        r@ == bulleted(l@),
{
    let t = chars::text_of(l);
    if scan::starts_with(l, "<b>") {
        t
    } else {
        let mut s = "<b>•</b> ".to_string();
        s.append(t.as_str());
        s
    }
}

fn written_lines(lines: &Vec<Vec<char>>) -> (r: Vec<Vec<char>>)
    ensures
        pieces::texts(r@) == written(pieces::texts(lines@)),
{
    let ghost all = pieces::texts(lines@);
    let mut out: Vec<Vec<char>> = Vec::new();
    let mut i: usize = 0;
    assert(all.take(0) =~= Seq::empty());
    assert(pieces::texts(out@) =~= written(all.take(0)));
    while i < lines.len()
        invariant
            i <= lines.len(),
            all == pieces::texts(lines@),
            pieces::texts(out@) == written(all.take(i as int)),
        decreases lines.len() - i,
    {
        assert(all.take(i + 1).drop_last() =~= all.take(i as int));
        assert(all.take(i + 1).last() == lines@[i as int]@);
        let l = scan::trim(&lines[i]);
        if l.len() > 0 {
            let ghost o = out@;
            out.push(l);
            assert(pieces::texts(out@) =~= pieces::texts(o).push(l@));
        }
        i += 1;
    }
    assert(all.take(lines.len() as int) =~= all);
    out
}

fn brief_texts(text: &str) -> (r: Vec<String>)
    ensures
        pieces::strings(r@) == brief_lines(text@),
{
    let w = written_lines(&pieces::split_lines(&chars::chars_of(text)));
    let ghost all = pieces::texts(w@);
    assert(all.len() == w@.len());
    if w.len() == 0 {
        let r = vec![
            "<b>Headlines</b> — top stories loading".to_string(),
            "<b>Weather</b> — check forecast".to_string(),
            "<b>Focus</b> — protect your morning block".to_string(),
        ];
        assert(pieces::strings(r@) =~= placeholder_lines());
        return r;
    }
    let n: usize = if w.len() < 3 {
        w.len()
    } else {
        3
    };
    let ghost want = pieces::at_most(all, 3).map_values(|l: Seq<char>| bulleted(l));
    assert(want.len() == n);
    let mut out: Vec<String> = Vec::new();
    let mut i: usize = 0;
    while i < n
        invariant
            i <= n <= w.len(),
            all == pieces::texts(w@),
            want == pieces::at_most(all, 3).map_values(|l: Seq<char>| bulleted(l)),
            want.len() == n,
            pieces::strings(out@) == want.take(i as int),
        decreases n - i,
    {
        let b = bullet(&w[i]);
        assert(want[i as int] == b@);
        let ghost o = out@;
        out.push(b);
        assert(pieces::strings(out@) =~= pieces::strings(o).push(b@));
        assert(want.take(i + 1) =~= want.take(i as int).push(b@));
        i += 1;
    }
    assert(want.take(n as int) =~= want);
    out
}

pub fn brief_resolve(text: &str) -> (r: Resolve)
    ensures
        r@ == brief_card(text@),
{
    let r = Resolve {
        big: None,
        sub: None,
        lines: Some(brief_texts(text)),
        actions: vec!["Read aloud", "Dismiss"],
        artifact_url: None,
    };
    assert(r@.actions =~= brief_card(text@).actions);
    r
}

/// What the tools answered and, where the agent spoke, what it said.
pub open spec fn all_said(tools: Seq<char>, said: Seq<char>) -> Seq<char> {
    if said.len() == 0 {
        tools
    } else {
        tools + "\n"@ + said
    }
}

/// The card of an agent from everything that was said.
pub open spec fn agent_card(author: Seq<char>, text: Seq<char>) -> ResolveView {
    if author == "calendar_agent"@ {
        calendar_card(json::json_length(text))
    } else if author == "inbox_agent"@ {
        inbox_card(email_count(chars::lowercase(text)))
    } else if author == "brief_agent"@ {
        brief_card(text)
    } else {
        card::headline_resolve("Ready"@, "Done"@, seq!["Open"@], None)
    }
}

pub fn resolve_for_agent(author: &str, tool_text: &str, agent_text: &str) -> (r: Resolve)
    ensures
        r@ == agent_card(author@, all_said(tool_text@, agent_text@)),
{
    let mut combined = tool_text.to_string();
    if !chars::same(agent_text, "") {
        combined.append("\n");
        combined.append(agent_text);
    }
    proof {
        reveal_strlit("");
        assert(agent_text@ == ""@ <==> agent_text@.len() == 0) by {
            if agent_text@.len() == 0 {
                assert(agent_text@ =~= ""@);
            }
        }
        assert(combined@ =~= all_said(tool_text@, agent_text@));
    }
    if chars::same(author, "calendar_agent") {
        calendar_resolve(combined.as_str())
    } else if chars::same(author, "inbox_agent") {
        inbox_resolve(combined.as_str())
    } else if chars::same(author, "brief_agent") {
        brief_resolve(combined.as_str())
    } else {
        let r = Resolve {
            big: Some("Ready".to_string()),
            sub: Some("Done".to_string()),
            lines: None,
            actions: vec!["Open"],
            artifact_url: None,
        };
        assert(r@.actions =~= seq!["Open"@]);
        r
    }
}

// ---- the prompt ----

pub open spec fn availability(live: bool) -> Seq<char> {
    if live {
        "live"@
    } else {
        "unavailable — use general context"@
    }
}

pub open spec fn or_unknown(s: Option<Seq<char>>) -> Seq<char> {
    match s {
        Some(x) => x,
        None => "unknown"@,
    }
}

/// What the morning agents are told: the intent, which sources are live and where the user is.
pub open spec fn morning_prompt(
    intent: Seq<char>,
    calendar: bool,
    inbox: bool,
    location: Option<Seq<char>>,
    timezone: Option<Seq<char>>,
) -> Seq<char> {
    intent + "\n\n[Integrations]\ncalendar: "@ + availability(calendar) + "\ninbox: "@
        + availability(inbox) + "\nnews: yes\nweather: yes\n[Profile]\nhome_location: "@
        + or_unknown(location) + "\ntimezone: "@ + or_unknown(timezone)
        + "\nPrepare the morning briefing cards."@
}

fn append_or_unknown(s: &mut String, x: &Option<String>)
    ensures
        final(s)@ == old(s)@ + or_unknown(pieces::text_in(*x)),
{
    match x {
        Some(t) => s.append(t.as_str()),
        None => s.append("unknown"),
    }
}

fn live_text(live: bool) -> (r: &'static str)
    ensures
        r@ == availability(live),
{
    if live {
        "live"
    } else {
        "unavailable — use general context"
    }
}

pub fn prompt(
    intent: &str,
    has_calendar: bool,
    has_inbox: bool,
    location: &Option<String>,
    timezone: &Option<String>,
) -> (r: String)
    ensures
        r@ == morning_prompt(
            intent@,
            has_calendar,
            has_inbox,
            pieces::text_in(*location),
            pieces::text_in(*timezone),
        ),
{
    let mut s = intent.to_string();
    s.append("\n\n[Integrations]\ncalendar: ");
    s.append(live_text(has_calendar));
    s.append("\ninbox: ");
    s.append(live_text(has_inbox));
    s.append("\nnews: yes\nweather: yes\n[Profile]\nhome_location: ");
    append_or_unknown(&mut s, location);
    s.append("\ntimezone: ");
    append_or_unknown(&mut s, timezone);
    s.append("\nPrepare the morning briefing cards.");
    s
}

} // verus!
