//! Intake: the first hop. An utterance becomes a structured [`IntakeResult`]: which domains it
//! touches, which agents act and through which scenario, whether it is a question or an action,
//! how urgent it is, or which question to ask back.
//!
//! Deterministic rules come first, then what the router said, then the keyword fallback.

pub mod laws;

use vstd::prelude::*;

use crate::domain::Domain;
use crate::mother::keywords;
use crate::text::chars;
use crate::text::chars::Class;
use crate::text::pieces;
use crate::text::scan;

verus! {

#[derive(Clone, Copy, Debug, PartialEq, Eq, Structural)]
pub enum Kind {
    Question,
    Action,
}

#[derive(Clone, Copy, Debug, PartialEq, Eq, Structural)]
pub enum Urgency {
    Low,
    Normal,
    High,
}

/// One unit of delegated work.
#[derive(Clone, Debug)]
pub struct Target {
    pub world: Domain,
    pub agent: String,
    pub task: String,
    pub scenario: String,
}

/// What a [`Target`] says.
#[verifier::ext_equal]
pub struct TargetView {
    pub world: Domain,
    pub agent: Seq<char>,
    pub task: Seq<char>,
    pub scenario: Seq<char>,
}

impl View for Target {
    type V = TargetView;

    open spec fn view(&self) -> TargetView {
        TargetView {
            world: self.world,
            agent: self.agent@,
            task: self.task@,
            scenario: self.scenario@,
        }
    }
}

impl Target {
    /// A copy of the target.
    pub fn copy(&self) -> (r: Target)
        ensures
            r@ == self@,
    {
        Target {
            world: self.world,
            agent: self.agent.clone(),
            task: self.task.clone(),
            scenario: self.scenario.clone(),
        }
    }
}

pub open spec fn targets_of(v: Seq<Target>) -> Seq<TargetView> {
    v.map_values(|t: Target| t@)
}

#[derive(Clone, Debug)]
pub struct IntakeResult {
    pub domains: Vec<Domain>,
    pub targets: Vec<Target>,
    pub kind: Kind,
    pub urgency: Urgency,
    /// When set, the Mother asks this instead of delegating.
    pub clarify: Option<String>,
    /// `rule` | `llm` | `keyword`
    pub source: &'static str,
}

/// What an [`IntakeResult`] says.
#[verifier::ext_equal]
pub struct IntakeView {
    pub domains: Seq<Domain>,
    pub targets: Seq<TargetView>,
    pub kind: Kind,
    pub urgency: Urgency,
    pub clarify: Option<Seq<char>>,
    pub source: Seq<char>,
}

impl View for IntakeResult {
    type V = IntakeView;

    open spec fn view(&self) -> IntakeView {
        IntakeView {
            domains: self.domains@,
            targets: targets_of(self.targets@),
            kind: self.kind,
            urgency: self.urgency,
            clarify: match self.clarify {
                Some(s) => Some(s@),
                None => None,
            },
            source: self.source@,
        }
    }
}

/// What the router answered.
pub enum Routed {
    Scenario(String),
    Clarify(String),
}

/// The message that asks which flow is meant.
pub const CLARIFY_MESSAGE: &'static str =
    "I'm not sure which flow you want. Try <b>Start my day</b>, <b>Build me a pitch deck</b>, or <b>Plan a trip to Lisbon</b>.";

pub open spec fn clarifying(message: Seq<char>) -> IntakeView {
    IntakeView {
        domains: Seq::empty(),
        targets: Seq::empty(),
        kind: Kind::Question,
        urgency: Urgency::Normal,
        clarify: Some(message),
        source: "rule"@,
    }
}

/// The agent that a scenario stands in for.
pub open spec fn agent_of(s: Seq<char>) -> Seq<char> {
    if s == "morning"@ {
        "briefing"@
    } else if s == "deck"@ {
        "work_automation"@
    } else if s == "people"@ {
        "team_comms"@
    } else if s == "week"@ {
        "briefing"@
    } else if s == "live"@ {
        "entertainment"@
    } else if s == "lisbon"@ {
        "travel"@
    } else if s == "proactive"@ {
        "research_knowledge"@
    } else if s == "home"@ {
        "home"@
    } else {
        "mother"@
    }
}

/// The task that a scenario's agent is given.
pub open spec fn task_of(s: Seq<char>) -> Seq<char> {
    if s == "morning"@ {
        "today's calendar, inbox and brief"@
    } else if s == "deck"@ {
        "build the numbers, narrative and slides"@
    } else if s == "people"@ {
        "who is waiting on you and what to prep"@
    } else if s == "week"@ {
        "money, health and focus for the week"@
    } else if s == "live"@ {
        "headlines, markets and what is live now"@
    } else if s == "lisbon"@ {
        "flights, stay and itinerary"@
    } else if s == "proactive"@ {
        "what the background agents found"@
    } else if s == "home"@ {
        "family and personal life"@
    } else {
        "handle the request"@
    }
}

/// Which agent a scenario stands in for, and the task phrasing.
pub fn scenario_agent(scenario: &str) -> (r: (&'static str, &'static str))
    ensures
        r.0@ == agent_of(scenario@),
        r.1@ == task_of(scenario@),
{
    if chars::same(scenario, "morning") {
        ("briefing", "today's calendar, inbox and brief")
    } else if chars::same(scenario, "deck") {
        ("work_automation", "build the numbers, narrative and slides")
    } else if chars::same(scenario, "people") {
        ("team_comms", "who is waiting on you and what to prep")
    } else if chars::same(scenario, "week") {
        ("briefing", "money, health and focus for the week")
    } else if chars::same(scenario, "live") {
        ("entertainment", "headlines, markets and what is live now")
    } else if chars::same(scenario, "lisbon") {
        ("travel", "flights, stay and itinerary")
    } else if chars::same(scenario, "proactive") {
        ("research_knowledge", "what the background agents found")
    } else if chars::same(scenario, "home") {
        ("home", "family and personal life")
    } else {
        ("mother", "handle the request")
    }
}

/// One of the phrases stands in the text.
pub open spec fn any_within(l: Seq<char>, needles: Seq<Seq<char>>) -> bool {
    exists|i: int| 0 <= i < needles.len() && scan::within(l, #[trigger] needles[i])
}

pub fn has_any(l: &Vec<char>, needles: &Vec<&str>) -> (r: bool)
    ensures
        r == any_within(l@, pieces::slices(needles@)),
{
    let mut i: usize = 0;
    while i < needles.len()
        invariant
            i <= needles.len(),
            forall|j: int|
                0 <= j < i ==> !scan::within(l@, #[trigger] pieces::slices(needles@)[j]),
        decreases needles.len() - i,
    {
        assert(pieces::slices(needles@)[i as int] == needles@[i as int]@);
        if scan::contains(l, needles[i]) {
            return true;
        }
        i += 1;
    }
    false
}

/// Phrases that make an utterance an action.
pub open spec fn action_phrases() -> Seq<Seq<char>> {
    seq![
        "help me"@,
        "reorganize"@,
        "reorganise"@,
        "reschedule"@,
        "move "@,
        "send"@,
        "draft"@,
        "book"@,
        "reply"@,
        "combine"@,
        "build me"@,
        "make me"@,
        "create"@,
        "schedule"@,
        "cancel"@,
        "remind me to"@,
        "set a reminder"@,
        "plan a"@,
        "plan me"@,
        "prepare"@,
        "apply"@,
        "handle it"@,
        "do it"@,
    ]
}

pub open spec fn urgent_phrases() -> Seq<Seq<char>> {
    seq![
        "urgent"@,
        "asap"@,
        "overwhelmed"@,
        "right now"@,
        "emergency"@,
        "immediately"@,
    ]
}

pub open spec fn relaxed_phrases() -> Seq<Seq<char>> {
    seq!["whenever"@, "no rush"@, "sometime"@, "eventually"@]
}

pub open spec fn kind_of(l: Seq<char>) -> Kind {
    if any_within(l, action_phrases()) {
        Kind::Action
    } else {
        Kind::Question
    }
}

pub open spec fn urgency_of(l: Seq<char>) -> Urgency {
    if any_within(l, urgent_phrases()) {
        Urgency::High
    } else if any_within(l, relaxed_phrases()) {
        Urgency::Low
    } else {
        Urgency::Normal
    }
}

/// Question or action, of a lower-case text.
pub fn kind_of_lower(l: &Vec<char>) -> (r: Kind)
    ensures
        r == kind_of(l@),
{
    let action: Vec<&str> =
        vec![
        "help me", "reorganize", "reorganise", "reschedule", "move ", "send", "draft", "book",
        "reply", "combine", "build me", "make me", "create", "schedule", "cancel", "remind me to",
        "set a reminder", "plan a", "plan me", "prepare", "apply", "handle it", "do it",
    ];
    assert(pieces::slices(action@) =~= action_phrases());
    if has_any(l, &action) {
        Kind::Action
    } else {
        Kind::Question
    }
}

/// Urgency of a lower-case text.
pub fn urgency_of_lower(l: &Vec<char>) -> (r: Urgency)
    ensures
        r == urgency_of(l@),
{
    let high: Vec<&str> =
        vec!["urgent", "asap", "overwhelmed", "right now", "emergency", "immediately"];
    let low: Vec<&str> = vec!["whenever", "no rush", "sometime", "eventually"];
    assert(pieces::slices(high@) =~= urgent_phrases());
    assert(pieces::slices(low@) =~= relaxed_phrases());
    if has_any(l, &high) {
        Urgency::High
    } else if has_any(l, &low) {
        Urgency::Low
    } else {
        Urgency::Normal
    }
}

pub fn detect_kind(text: &str) -> (r: Kind)
    ensures
        r == kind_of(chars::lowercase(text@)),
{
    kind_of_lower(&chars::lowered(text))
}

pub fn detect_urgency(text: &str) -> (r: Urgency)
    ensures
        r == urgency_of(chars::lowercase(text@)),
{
    urgency_of_lower(&chars::lowered(text))
}

/// The cross-cutting rules, in the order in which they are tried.
#[derive(Clone, Copy, Debug, PartialEq, Eq, Structural)]
pub enum Rule {
    Briefing,
    Prepare,
    Overwhelmed,
    WorkStatus,
    Family,
    PersonalTasks,
    Reading,
    Travel,
    Money,
    Health,
}

/// The phrases that fire a rule.
pub open spec fn phrases_of(rule: Rule) -> Seq<Seq<char>> {
    match rule {
        Rule::Briefing => seq![
            "what do i need to know"@,
            "start my day"@,
            "good morning"@,
            "morning briefing"@,
            "my briefing"@,
            "brief me"@,
        ],
        Rule::Prepare => seq![
            "prepare me for"@,
            "prep me for"@,
            "my afternoon"@,
            "afternoon meeting"@,
            "next meeting"@,
        ],
        Rule::Overwhelmed => seq![
            "overwhelmed"@,
            "reorganize my day"@,
            "reorganise my day"@,
            "reorganize today"@,
            "lighter day"@,
            "too much today"@,
            "help me reorganize"@,
        ],
        Rule::WorkStatus => seq![
            "happening with work"@,
            "how is work"@,
            "how's work"@,
            "work status"@,
            "what's up at work"@,
            "whats up at work"@,
            "at work today"@,
        ],
        Rule::Family => seq![
            "family commitment"@,
            "family event"@,
            "family plans"@,
            "remind me about family"@,
            "what's happening at home"@,
            "whats happening at home"@,
            "home commitments"@,
        ],
        Rule::PersonalTasks => seq![
            "my personal tasks"@,
            "my errands"@,
            "personal to-do"@,
            "personal todo"@,
            "what do i need to do at home"@,
            "household tasks"@,
        ],
        Rule::Reading => seq![
            "been reading"@,
            "what have i read"@,
            "my reading"@,
            "what am i learning"@,
            "reading lately"@,
        ],
        Rule::Travel => seq![
            "trip"@,
            "travel"@,
            "flight"@,
            "hotel"@,
            "itinerary"@,
            "vacation"@,
            "holiday"@,
            "lisbon"@,
        ],
        Rule::Money => seq![
            "spending"@,
            "my budget"@,
            "my money"@,
            "how much did i spend"@,
            "subscriptions"@,
        ],
        Rule::Health => seq!["my sleep"@, "my health"@, "exercise"@, "workout"@, "wellness"@],
    }
}

fn phrases(rule: Rule) -> (r: Vec<&'static str>)
    ensures
        pieces::slices(r@) == phrases_of(rule),
{
    let r: Vec<&'static str> = match rule {
        Rule::Briefing => vec![
            "what do i need to know", "start my day", "good morning", "morning briefing",
            "my briefing", "brief me",
        ],
        Rule::Prepare => vec![
            "prepare me for", "prep me for", "my afternoon", "afternoon meeting", "next meeting",
        ],
        Rule::Overwhelmed => vec![
            "overwhelmed", "reorganize my day", "reorganise my day", "reorganize today",
            "lighter day", "too much today", "help me reorganize",
        ],
        Rule::WorkStatus => vec![
            "happening with work", "how is work", "how's work", "work status",
            "what's up at work", "whats up at work", "at work today",
        ],
        Rule::Family => vec![
            "family commitment", "family event", "family plans", "remind me about family",
            "what's happening at home", "whats happening at home", "home commitments",
        ],
        Rule::PersonalTasks => vec![
            "my personal tasks", "my errands", "personal to-do", "personal todo",
            "what do i need to do at home", "household tasks",
        ],
        Rule::Reading => vec![
            "been reading", "what have i read", "my reading", "what am i learning",
            "reading lately",
        ],
        Rule::Travel => vec![
            "trip", "travel", "flight", "hotel", "itinerary", "vacation", "holiday", "lisbon",
        ],
        Rule::Money => vec![
            "spending", "my budget", "my money", "how much did i spend", "subscriptions",
        ],
        Rule::Health => vec!["my sleep", "my health", "exercise", "workout", "wellness"],
    };
    assert(pieces::slices(r@) =~= phrases_of(rule));
    r
}

pub open spec fn fires(l: Seq<char>, rule: Rule) -> bool {
    any_within(l, phrases_of(rule))
}

/// The first rule that fires on a lower-case text.
pub open spec fn rule_of(l: Seq<char>) -> Option<Rule> {
    if fires(l, Rule::Briefing) {
        Some(Rule::Briefing)
    } else if fires(l, Rule::Prepare) {
        Some(Rule::Prepare)
    } else if fires(l, Rule::Overwhelmed) {
        Some(Rule::Overwhelmed)
    } else if fires(l, Rule::WorkStatus) {
        Some(Rule::WorkStatus)
    } else if fires(l, Rule::Family) {
        Some(Rule::Family)
    } else if fires(l, Rule::PersonalTasks) {
        Some(Rule::PersonalTasks)
    } else if fires(l, Rule::Reading) {
        Some(Rule::Reading)
    } else if fires(l, Rule::Travel) {
        Some(Rule::Travel)
    } else if fires(l, Rule::Money) {
        Some(Rule::Money)
    } else if fires(l, Rule::Health) {
        Some(Rule::Health)
    } else {
        None
    }
}

fn pick_rule(l: &Vec<char>) -> (r: Option<Rule>)
    ensures
        r == rule_of(l@),
{
    if has_any(l, &phrases(Rule::Briefing)) {
        Some(Rule::Briefing)
    } else if has_any(l, &phrases(Rule::Prepare)) {
        Some(Rule::Prepare)
    } else if has_any(l, &phrases(Rule::Overwhelmed)) {
        Some(Rule::Overwhelmed)
    } else if has_any(l, &phrases(Rule::WorkStatus)) {
        Some(Rule::WorkStatus)
    } else if has_any(l, &phrases(Rule::Family)) {
        Some(Rule::Family)
    } else if has_any(l, &phrases(Rule::PersonalTasks)) {
        Some(Rule::PersonalTasks)
    } else if has_any(l, &phrases(Rule::Reading)) {
        Some(Rule::Reading)
    } else if has_any(l, &phrases(Rule::Travel)) {
        Some(Rule::Travel)
    } else if has_any(l, &phrases(Rule::Money)) {
        Some(Rule::Money)
    } else if has_any(l, &phrases(Rule::Health)) {
        Some(Rule::Health)
    } else {
        None
    }
}

pub open spec fn target(
    world: Domain,
    agent: Seq<char>,
    task: Seq<char>,
    scenario: Seq<char>,
) -> TargetView {
    TargetView { world, agent, task, scenario }
}

fn t(world: Domain, agent: &str, task: &str, scenario: &str) -> (r: Target)
    ensures
        r@ == target(world, agent@, task@, scenario@),
{
    Target {
        world,
        agent: agent.to_string(),
        task: task.to_string(),
        scenario: scenario.to_string(),
    }
}

pub open spec fn rule_domains(rule: Rule) -> Seq<Domain> {
    match rule {
        Rule::Briefing | Rule::Overwhelmed => seq![Domain::Work, Domain::Home],
        Rule::Prepare | Rule::WorkStatus => seq![Domain::Work],
        Rule::Reading => seq![Domain::Shared],
        _ => seq![Domain::Home],
    }
}

pub open spec fn rule_targets(rule: Rule) -> Seq<TargetView> {
    match rule {
        Rule::Briefing => seq![
            target(Domain::Shared, "briefing"@, "today across work and home"@, "morning"@),
        ],
        Rule::Prepare => seq![
            target(
                Domain::Work,
                "productivity"@,
                "calendar and priorities for the rest of the day"@,
                "morning"@,
            ),
            target(Domain::Work, "team_comms"@, "who is waiting and 1:1 prep"@, "people"@),
        ],
        Rule::Overwhelmed => seq![
            target(
                Domain::Work,
                "productivity"@,
                "propose what to defer or move today"@,
                "morning"@,
            ),
            target(
                Domain::Home,
                "personal_productivity"@,
                "propose which personal tasks to move"@,
                "home"@,
            ),
        ],
        Rule::WorkStatus => seq![
            target(Domain::Work, "productivity"@, "calendar, inbox and brief"@, "morning"@),
            target(Domain::Work, "team_comms"@, "team threads and follow-ups"@, "people"@),
        ],
        Rule::Family => seq![
            target(Domain::Home, "family"@, "family commitments and important dates"@, "home"@),
        ],
        Rule::PersonalTasks => seq![
            target(
                Domain::Home,
                "personal_productivity"@,
                "personal tasks and errands"@,
                "home"@,
            ),
        ],
        Rule::Reading => seq![
            target(
                Domain::Shared,
                "reading_knowledge"@,
                "recent reading, topics and trend"@,
                "proactive"@,
            ),
        ],
        Rule::Travel => seq![
            target(Domain::Home, "travel"@, "flights, stay and itinerary"@, "lisbon"@),
        ],
        Rule::Money => seq![target(Domain::Home, "finance"@, "spending and budget"@, "week"@)],
        Rule::Health => seq![
            target(Domain::Home, "health_wellness"@, "sleep, exercise and habits"@, "week"@),
        ],
    }
}

/// Whether a rule's result keeps the kind that was detected.
pub open spec fn rule_kind(rule: Rule, detected: Kind) -> Kind {
    match rule {
        Rule::Overwhelmed => Kind::Action,
        Rule::PersonalTasks | Rule::Travel | Rule::Money | Rule::Health => detected,
        _ => Kind::Question,
    }
}

pub open spec fn rule_result(rule: Rule, kind: Kind, urgency: Urgency) -> IntakeView {
    IntakeView {
        domains: rule_domains(rule),
        targets: rule_targets(rule),
        kind: rule_kind(rule, kind),
        urgency: if rule == Rule::Overwhelmed {
            Urgency::High
        } else {
            urgency
        },
        clarify: None,
        source: "rule"@,
    }
}

fn domains_for(rule: Rule) -> (r: Vec<Domain>)
    ensures
        r@ == rule_domains(rule),
{
    match rule {
        Rule::Briefing | Rule::Overwhelmed => vec![Domain::Work, Domain::Home],
        Rule::Prepare | Rule::WorkStatus => vec![Domain::Work],
        Rule::Reading => vec![Domain::Shared],
        _ => vec![Domain::Home],
    }
}

fn targets_for(rule: Rule) -> (r: Vec<Target>)
    ensures
        targets_of(r@) == rule_targets(rule),
{
    let r: Vec<Target> = match rule {
        Rule::Briefing => vec![
            t(Domain::Shared, "briefing", "today across work and home", "morning"),
        ],
        Rule::Prepare => vec![
            t(
                Domain::Work,
                "productivity",
                "calendar and priorities for the rest of the day",
                "morning",
            ),
            t(Domain::Work, "team_comms", "who is waiting and 1:1 prep", "people"),
        ],
        Rule::Overwhelmed => vec![
            t(Domain::Work, "productivity", "propose what to defer or move today", "morning"),
            t(
                Domain::Home,
                "personal_productivity",
                "propose which personal tasks to move",
                "home",
            ),
        ],
        Rule::WorkStatus => vec![
            t(Domain::Work, "productivity", "calendar, inbox and brief", "morning"),
            t(Domain::Work, "team_comms", "team threads and follow-ups", "people"),
        ],
        Rule::Family => vec![
            t(Domain::Home, "family", "family commitments and important dates", "home"),
        ],
        Rule::PersonalTasks => vec![
            t(Domain::Home, "personal_productivity", "personal tasks and errands", "home"),
        ],
        Rule::Reading => vec![
            t(
                Domain::Shared,
                "reading_knowledge",
                "recent reading, topics and trend",
                "proactive",
            ),
        ],
        Rule::Travel => vec![
            t(Domain::Home, "travel", "flights, stay and itinerary", "lisbon"),
        ],
        Rule::Money => vec![t(Domain::Home, "finance", "spending and budget", "week")],
        Rule::Health => vec![
            t(Domain::Home, "health_wellness", "sleep, exercise and habits", "week"),
        ],
    };
    assert(targets_of(r@) =~= rule_targets(rule));
    r
}

fn apply_rule(rule: Rule, kind: Kind, urgency: Urgency) -> (r: IntakeResult)
    ensures
        r@ == rule_result(rule, kind, urgency),
{
    IntakeResult {
        domains: domains_for(rule),
        targets: targets_for(rule),
        kind: match rule {
            Rule::Overwhelmed => Kind::Action,
            Rule::PersonalTasks | Rule::Travel | Rule::Money | Rule::Health => kind,
            _ => Kind::Question,
        },
        urgency: if rule == Rule::Overwhelmed {
            Urgency::High
        } else {
            urgency
        },
        clarify: None,
        source: "rule",
    }
}

/// Texts that say too little to act on.
pub open spec fn greetings() -> Seq<Seq<char>> {
    seq!["hi"@, "hello"@, "hey"@, "hmm"@, "help"@, "test"@, "ok"@, "yes"@, "no"@]
}

/// A trimmed lower-case text that is only noise: under three bytes, without a letter, or a bare
/// greeting.
pub open spec fn noise(l: Seq<char>) -> bool {
    ||| chars::byte_len(l) < 3
    ||| !exists|i: int| 0 <= i < l.len() && Class::Alphabetic.has(#[trigger] l[i])
    ||| greetings().contains(l)
}

/// What the rules make of a text: `l` is the trimmed text in lower case, `kind` and `urgency`
/// were detected in the whole text.
pub open spec fn by_rules(l: Seq<char>, kind: Kind, urgency: Urgency) -> Option<IntakeView> {
    if noise(l) {
        Some(clarifying(CLARIFY_MESSAGE@))
    } else {
        match rule_of(l) {
            Some(rule) => Some(rule_result(rule, kind, urgency)),
            None => None,
        }
    }
}

fn is_greeting(l: &Vec<char>) -> (r: bool)
    ensures
        r == greetings().contains(l@),
{
    let g: Vec<&str> = vec!["hi", "hello", "hey", "hmm", "help", "test", "ok", "yes", "no"];
    assert(pieces::slices(g@) =~= greetings());
    let mut i: usize = 0;
    while i < g.len()
        invariant
            i <= g.len(),
            pieces::slices(g@) == greetings(),
            forall|j: int| 0 <= j < i ==> greetings()[j] != l@,
        decreases g.len() - i,
    {
        assert(greetings()[i as int] == g@[i as int]@);
        if chars::spells(l, g[i]) {
            assert(greetings()[i as int] == l@);
            return true;
        }
        i += 1;
    }
    false
}

fn is_noise(l: &Vec<char>) -> (r: bool)
    ensures
        r == noise(l@),
{
    chars::bytes_of(l) < 3 || !scan::any_of(l, Class::Alphabetic) || is_greeting(l)
}

/// The rules on a trimmed lower-case text, given the kind and the urgency of the whole text.
pub fn classify_lower(l: &Vec<char>, kind: Kind, urgency: Urgency) -> (r: Option<IntakeResult>)
    ensures
        match r {
            Some(x) => by_rules(l@, kind, urgency) == Some(x@),
            None => by_rules(l@, kind, urgency) is None,
        },
{
    if is_noise(l) {
        return Some(IntakeResult::clarify(CLARIFY_MESSAGE));
    }
    match pick_rule(l) {
        Some(rule) => Some(apply_rule(rule, kind, urgency)),
        None => None,
    }
}

/// What the rules make of an utterance.
pub open spec fn ruled(text: Seq<char>) -> Option<IntakeView> {
    by_rules(
        chars::lowercase(scan::trimmed(text)),
        kind_of(chars::lowercase(text)),
        urgency_of(chars::lowercase(text)),
    )
}

/// Deterministic cross-cutting rules. `None` when no rule applies.
pub fn classify_rules(text: &str) -> (r: Option<IntakeResult>)
    ensures
        match r {
            Some(x) => ruled(text@) == Some(x@),
            None => ruled(text@) is None,
        },
{
    let trimmed = chars::text_of(&scan::trim(&chars::chars_of(text)));
    let l = chars::lowered(trimmed.as_str());
    classify_lower(&l, detect_kind(text), detect_urgency(text))
}

/// The single-target result for a scenario, on a text of the given kind and urgency.
pub open spec fn scenario_result(
    scenario: Seq<char>,
    kind: Kind,
    urgency: Urgency,
    source: Seq<char>,
) -> IntakeView {
    let world = Domain::of_scenario(scenario);
    IntakeView {
        domains: if world == Domain::Shared {
            seq![Domain::Work, Domain::Home]
        } else {
            seq![world]
        },
        targets: seq![target(world, agent_of(scenario), task_of(scenario), scenario)],
        kind,
        urgency,
        clarify: None,
        source,
    }
}

pub open spec fn of_scenario(scenario: Seq<char>, text: Seq<char>, source: Seq<char>) -> IntakeView {
    scenario_result(
        scenario,
        kind_of(chars::lowercase(text)),
        urgency_of(chars::lowercase(text)),
        source,
    )
}

/// The first of each text, in order.
pub open spec fn distinct(s: Seq<Seq<char>>) -> Seq<Seq<char>>
    decreases s.len(),
{
    if s.len() == 0 {
        s
    } else {
        let d = distinct(s.drop_last());
        if d.contains(s.last()) {
            d
        } else {
            d.push(s.last())
        }
    }
}

pub open spec fn scenarios_of(ts: Seq<TargetView>) -> Seq<Seq<char>> {
    ts.map_values(|x: TargetView| x.scenario)
}

/// More than one target acts.
pub open spec fn several(v: IntakeView) -> bool {
    v.targets.len() > 1
}

/// The scenario of the first target.
pub open spec fn primary(v: IntakeView) -> Option<Seq<char>> {
    if v.targets.len() > 0 {
        Some(v.targets[0].scenario)
    } else {
        None
    }
}

impl IntakeResult {
    pub fn clarify(message: &str) -> (r: Self)
        ensures
            r@ == clarifying(message@),
    {
        let r = IntakeResult {
            domains: Vec::new(),
            targets: Vec::new(),
            kind: Kind::Question,
            urgency: Urgency::Normal,
            clarify: Some(message.to_string()),
            source: "rule",
        };
        assert(r@.targets =~= Seq::empty());
        r
    }

    /// Single-target result for a scenario key.
    pub fn from_scenario(scenario: &str, text: &str, source: &'static str) -> (r: Self)
        ensures
            r@ == of_scenario(scenario@, text@, source@),
    {
        IntakeResult::from_scenario_as(scenario, detect_kind(text), detect_urgency(text), source)
    }

    /// Single-target result for a scenario key, on a text of known kind and urgency.
    pub fn from_scenario_as(
        scenario: &str,
        kind: Kind,
        urgency: Urgency,
        source: &'static str,
    ) -> (r: Self)
        ensures
            r@ == scenario_result(scenario@, kind, urgency, source@),
    {
        let world = Domain::for_scenario(scenario);
        let (agent, task) = scenario_agent(scenario);
        let r = IntakeResult {
            domains: if world == Domain::Shared {
                vec![Domain::Work, Domain::Home]
            } else {
                vec![world]
            },
            targets: vec![t(world, agent, task, scenario)],
            kind,
            urgency,
            clarify: None,
            source,
        };
        assert(r@.targets =~= seq![
            target(world, agent_of(scenario@), task_of(scenario@), scenario@),
        ]);
        r
    }

    pub fn is_multi_target(&self) -> (r: bool)
        ensures
            r == several(self@),
    {
        self.targets.len() > 1
    }

    pub fn primary_scenario(&self) -> (r: Option<&str>)
        ensures
            match r {
                Some(s) => primary(self@) == Some(s@),
                None => primary(self@) is None,
            },
    {
        if self.targets.len() > 0 {
            Some(self.targets[0].scenario.as_str())
        } else {
            None
        }
    }

    /// The scenarios of the targets, each once, in order.
    pub fn scenarios(&self) -> (r: Vec<String>)
        ensures
            pieces::strings(r@) == distinct(scenarios_of(self@.targets)),
    {
        let mut out: Vec<String> = Vec::new();
        let mut i: usize = 0;
        let ghost all = scenarios_of(self@.targets);
        while i < self.targets.len()
            invariant
                i <= self.targets.len(),
                all == scenarios_of(self@.targets),
                pieces::strings(out@) == distinct(all.take(i as int)),
            decreases self.targets.len() - i,
        {
            let s = &self.targets[i].scenario;
            assert(all[i as int] == s@);
            assert(all.take(i + 1).drop_last() =~= all.take(i as int));
            if !pieces::has_string(&out, s.as_str()) {
                let c = s.clone();
                let ghost o = out@;
                out.push(c);
                assert(pieces::strings(out@) =~= pieces::strings(o).push(s@));
            }
            i += 1;
        }
        assert(all.take(all.len() as int) =~= all);
        out
    }
}

/// What an utterance is classified as, given what the router said of it.
pub open spec fn classified(text: Seq<char>, routed: Option<Routed>) -> IntakeView {
    match ruled(text) {
        Some(v) => v,
        None => match routed {
            Some(Routed::Scenario(key)) => of_scenario(key@, text, "llm"@),
            Some(Routed::Clarify(message)) => clarifying(message@),
            None => of_scenario(
                keywords::keyword_scenario(chars::lowercase(text)),
                text,
                "keyword"@,
            ),
        },
    }
}

/// Full classification: rules, then the router's answer where there is one, then the keyword
/// fallback. The answer is looked at only where no rule applies.
pub fn classify(text: &str, routed: Option<Routed>) -> (r: IntakeResult)
    ensures
        r@ == classified(text@, routed),
{
    match classify_rules(text) {
        Some(r) => r,
        None => match routed {
            Some(Routed::Scenario(key)) => IntakeResult::from_scenario(key.as_str(), text, "llm"),
            Some(Routed::Clarify(message)) => IntakeResult::clarify(message.as_str()),
            None => IntakeResult::from_scenario(keywords::pick_scenario(text), text, "keyword"),
        },
    }
}

/// Classification without a router.
pub fn classify_offline(text: &str) -> (r: IntakeResult)
    ensures
        r@ == classified(text@, None),
{
    classify(text, None)
}

/// Every utterance is either answered with a question or delegated to at least one target, and
/// never both.
pub proof fn law_asks_or_delegates(text: Seq<char>, routed: Option<Routed>)
    ensures
        classified(text, routed).clarify is Some <==> classified(text, routed).targets.len() == 0,
        classified(text, routed).clarify is Some <==> classified(text, routed).domains.len() == 0,
{
}

/// A rule's answer does not depend on what the router says.
pub proof fn law_rules_come_first(text: Seq<char>, a: Option<Routed>, b: Option<Routed>)
    requires
        ruled(text) is Some,
    ensures
        classified(text, a) == classified(text, b),
        classified(text, a).source == "rule"@,
{
}

/// A scenario key is a valid target: it gives exactly one target, which runs that scenario.
pub proof fn law_a_scenario_is_a_target(scenario: Seq<char>, text: Seq<char>, source: Seq<char>)
    ensures
        of_scenario(scenario, text, source).targets.len() == 1,
        of_scenario(scenario, text, source).targets[0].scenario == scenario,
        of_scenario(scenario, text, source).clarify is None,
{
}

/// The scenarios that a target can run through.
pub open spec fn known_scenarios() -> Seq<Seq<char>> {
    seq![
        "morning"@,
        "deck"@,
        "people"@,
        "week"@,
        "live"@,
        "lisbon"@,
        "proactive"@,
        "home"@,
    ]
}

/// Every target runs through a known scenario, unless the router names another.
pub proof fn law_targets_run_known_scenarios(text: Seq<char>, routed: Option<Routed>, i: int)
    requires
        0 <= i < classified(text, routed).targets.len(),
    ensures
        known_scenarios().contains(classified(text, routed).targets[i].scenario) || (ruled(
            text,
        ) is None && (routed matches Some(Routed::Scenario(key)) && classified(
            text,
            routed,
        ).targets[i].scenario == key@)),
{
    let all = known_scenarios();
    assert(all[0] == "morning"@ && all[1] == "deck"@ && all[2] == "people"@ && all[3] == "week"@);
    assert(all[4] == "live"@ && all[5] == "lisbon"@ && all[6] == "proactive"@ && all[7] == "home"@);
}

/// The scenarios of a result are listed once each, and none is left out.
pub proof fn law_distinct(s: Seq<Seq<char>>)
    ensures
        distinct(s).no_duplicates(),
        forall|x: Seq<char>| distinct(s).contains(x) <==> s.contains(x),
    decreases s.len(),
{
    if s.len() > 0 {
        let p = s.drop_last();
        law_distinct(p);
        let d = distinct(s);
        assert forall|x: Seq<char>| d.contains(x) <==> s.contains(x) by {
            if s.contains(x) {
                let i = choose|i: int| 0 <= i < s.len() && s[i] == x;
                if i < p.len() {
                    assert(p[i] == x);
                    assert(p.contains(x));
                    assert(distinct(p).contains(x));
                    let j = choose|j: int| 0 <= j < distinct(p).len() && distinct(p)[j] == x;
                    assert(d[j] == x);
                } else if !distinct(p).contains(x) {
                    assert(d.last() == x);
                }
            }
            if d.contains(x) {
                let j = choose|j: int| 0 <= j < d.len() && d[j] == x;
                if j < distinct(p).len() {
                    assert(distinct(p)[j] == x);
                    assert(p.contains(x));
                    let i = choose|i: int| 0 <= i < p.len() && p[i] == x;
                    assert(s[i] == x);
                } else {
                    assert(s.last() == x);
                }
            }
        }
    }
}

} // verus!
