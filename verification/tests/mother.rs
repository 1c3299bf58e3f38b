use spatial_os::domain::{Domain, Mode};
use spatial_os::memory::item::{Kind as MemoryKind, MemoryItem};
use spatial_os::mother::arbitrate::{
    commitments, find_conflicts, parse_clock_lower, parse_day, parse_window, protected_time,
    review, review_with, Commitment, Window,
};
use spatial_os::mother::bus;
use spatial_os::mother::bus::{Address, AgentBus, AgentMessage, BusError, Payload};
use spatial_os::mother::intake::{
    classify, classify_offline, classify_rules, detect_kind, detect_urgency, scenario_agent,
    IntakeResult, Kind, Routed, Target, Urgency,
};
use spatial_os::mother::summary::{domain_summary, CardRecord};
use spatial_os::mother::synth::{
    collect_prompt, compose, compose_template, facts_block, strip_tags, synthesis_prompt,
    CardOutcome, Resolution, SuggestedAction, Synthesis, TargetResult,
};

#[test]
fn intake_six_reference_prompts() {
    let r = classify_offline("What do I need to know today?");
    assert_eq!(r.domains, vec![Domain::Work, Domain::Home]);
    assert_eq!(r.primary_scenario(), Some("morning"));

    let r = classify_offline("Prepare me for my afternoon.");
    assert!(r.is_multi_target());
    assert!(r.targets.iter().all(|t| t.world == Domain::Work));

    let r = classify_offline("What's happening with work?");
    assert_eq!(r.domains, vec![Domain::Work]);
    assert_eq!(r.scenarios(), vec!["morning", "people"]);

    let r = classify_offline("Remind me about family commitments.");
    assert_eq!(r.domains, vec![Domain::Home]);
    assert_eq!(r.targets[0].agent, "family");

    let r = classify_offline("I'm overwhelmed. Help me reorganize today.");
    assert_eq!(r.kind, Kind::Action);
    assert_eq!(r.urgency, Urgency::High);
    assert!(r.is_multi_target());

    let r = classify_offline("What have I been reading lately?");
    assert_eq!(r.targets[0].agent, "reading_knowledge");
}

#[test]
fn intake_keeps_phase1_scenarios_and_clarifies_noise() {
    assert_eq!(classify_offline("Build me a pitch deck").primary_scenario(), Some("deck"));
    assert_eq!(classify_offline("Plan a weekend trip to Lisbon").primary_scenario(), Some("lisbon"));
    assert_eq!(classify_offline("Build me a pitch deck").kind, Kind::Action);
    assert!(classify_offline("hmm").clarify.is_some());
    assert!(classify_offline("??").clarify.is_some());
}

#[test]
fn the_router_decides_where_no_rule_does() {
    let text = "Qwertz uiop asdf";
    let r = classify(text, Some(Routed::Scenario("people".to_string())));
    assert_eq!(r.primary_scenario(), Some("people"));
    let r = classify(text, Some(Routed::Clarify("Which one?".to_string())));
    assert_eq!(r.clarify.as_deref(), Some("Which one?"));
    assert!(r.targets.is_empty());
    // A rule comes before the router.
    let r = classify("Remind me about family commitments.", Some(Routed::Scenario("deck".to_string())));
    assert_eq!(r.targets[0].agent, "family");
    assert!(classify_rules("Remind me about family commitments.").is_some());
}

#[test]
fn intake_helpers() {
    assert_eq!(detect_kind("What is up?"), Kind::Question);
    assert_eq!(detect_kind("BUILD ME one"), Kind::Action);
    assert_eq!(detect_urgency("no rush"), Urgency::Low);
    assert_eq!(detect_urgency("how are things"), Urgency::Normal);
    assert_eq!(scenario_agent("deck").0, "work_automation");
    let c = IntakeResult::clarify("What do you mean?");
    assert_eq!(c.clarify.as_deref(), Some("What do you mean?"));
    assert_eq!(c.primary_scenario(), None);
    let s = IntakeResult::from_scenario("deck", "make a deck", "keyword");
    assert_eq!(s.scenarios(), vec!["deck"]);
    assert_eq!(s.domains, vec![Domain::Work]);
    assert_eq!(s.source, "keyword");
}

#[test]
fn every_target_runs_a_known_scenario() {
    let known = ["morning", "deck", "people", "week", "live", "lisbon", "proactive", "home"];
    for text in ["What is live", "my team", "this week", "anything you found", "brief me", "my budget", "my errands", "xyz"] {
        let r = classify_offline(text);
        assert!(!r.targets.is_empty() && r.targets.iter().all(|t| known.contains(&t.scenario.as_str())), "{text}");
    }
    for key in known {
        let r = IntakeResult::from_scenario(key, "text", "keyword");
        assert_eq!((r.targets.len(), r.primary_scenario()), (1, Some(key)));
        assert_ne!(r.targets[0].agent, "mother");
    }
}

fn texts(v: &[&str]) -> Option<Vec<Option<String>>> {
    Some(v.iter().map(|s| Some(s.to_string())).collect())
}

fn card(title: &str, agent: &str, domain: Domain, resolve: Resolution) -> CardOutcome {
    CardOutcome { title: title.to_string(), agent: agent.to_string(), domain, resolve: Some(resolve) }
}

fn res(world: Domain, scenario: &str, cards: Vec<CardOutcome>) -> TargetResult {
    TargetResult {
        target: Target {
            world,
            agent: "x".to_string(),
            task: "t".to_string(),
            scenario: scenario.to_string(),
        },
        cards,
        timed_out: false,
    }
}

fn headline(big: &str, sub: &str, actions: &[&str]) -> Resolution {
    Resolution {
        big: Some(big.to_string()),
        sub: Some(sub.to_string()),
        lines: None,
        actions: texts(actions),
    }
}

#[test]
fn synth_template_groups_by_world_and_tags_modes() {
    let results = vec![
        res(
            Domain::Work,
            "morning",
            vec![
                card("Today", "calendar.agent", Domain::Work, headline("3 meetings", "first 9:30", &["Open"])),
                card("Needs you", "inbox.agent", Domain::Work, headline("2 to reply", "", &["Draft replies"])),
            ],
        ),
        res(
            Domain::Home,
            "people",
            vec![card(
                "Connections",
                "crm.agent",
                Domain::Home,
                Resolution {
                    big: None,
                    sub: None,
                    lines: texts(&["<b>Birthday:</b> Mara, Friday"]),
                    actions: texts(&["Send notes"]),
                },
            )],
        ),
    ];
    let s = compose_template(
        "What do I need to know today?",
        &results,
        &vec!["You prefer no meetings before 10 (you told me)".to_string()],
        &|agent: &str| if agent == "inbox.agent" { Mode::Suggest } else { Mode::Observe },
    );
    assert!(s.html.starts_with("Work: <b>Today</b> 3 meetings"), "{}", s.html);
    assert!(s.html.contains("Home: <b>Connections</b> Birthday: Mara, Friday"), "{}", s.html);
    assert!(s.html.contains("(you told me)"));
    assert_eq!(s.actions.len(), 3);
    let draft = s.actions.iter().find(|a| a.card == "Needs you").unwrap();
    assert_eq!(draft.mode, Mode::Suggest);
    assert_eq!(s.actions[0].mode, Mode::Observe);
    assert_eq!(s.source, "template");
}

#[test]
fn every_card_is_told_and_proposed_once() {
    let results = vec![
        res(
            Domain::Shared,
            "a",
            vec![
                card("S1", "s", Domain::Shared, headline("1", "", &["Open"])),
                card("H1", "h", Domain::Home, headline("<b>2</b>", "<i", &["Send"])),
                card("W1", "w", Domain::Work, headline("3", "", &[])),
            ],
        ),
        res(Domain::Work, "b", vec![card("W2", "w", Domain::Work, headline("4", "", &["Save"]))]),
    ];
    let s = compose_template("hi", &results, &vec![], &|_: &str| Mode::Observe);
    assert_eq!(s.html, "Work: <b>W1</b> 3 · <b>W2</b> 4. Home: <b>H1</b> 2 —. Today: <b>S1</b> 1.");
    let texts: Vec<&str> = s.actions.iter().map(|a| a.text.as_str()).collect();
    assert_eq!(texts, vec!["Save — W2", "Send — H1", "Open — S1"]);
    let block = facts_block("hi", &results, &vec!["note".to_string()]);
    assert!(!block.contains('<') && !block.contains('>'));
}

#[test]
fn synth_facts_block_is_structured_and_tagless() {
    let results = vec![res(
        Domain::Work,
        "deck",
        vec![card("Auto-Excel", "auto-excel", Domain::Work, headline("+38% QoQ", "<i>4 sheets</i>", &["Save"]))],
    )];
    let block = facts_block("Build me a pitch deck", &results, &vec![]);
    assert!(block.contains("[Work · x · via deck]"));
    assert!(block.contains("- Auto-Excel: +38% QoQ — 4 sheets"));
    assert!(!block.contains("<i>"));
    let prompt = synthesis_prompt("Build me a pitch deck", &results, &vec![]);
    assert!(prompt.contains(&block));
    assert!(prompt.ends_with("\n\nWrite the HTML now."));
}

#[test]
fn tags_are_stripped_once_and_for_all() {
    assert_eq!(strip_tags("<b>Birthday:</b>  Mara,\n Friday"), "Birthday: Mara, Friday");
    assert_eq!(strip_tags("Birthday: Mara, Friday"), "Birthday: Mara, Friday");
    assert_eq!(strip_tags("a > b"), "a b");
    assert_eq!(strip_tags("open < end"), "open");
}

#[test]
fn a_template_without_cards_says_so() {
    let s = compose_template("the <i>weather</i>", &vec![], &vec![], &|_: &str| Mode::Observe);
    assert_eq!(s.html, "I looked into <b>the weather</b> but nothing came back yet.");
    assert!(s.actions.is_empty());
}

#[test]
fn generated_text_replaces_the_template_but_not_its_actions() {
    let template = || Synthesis {
        html: "template".to_string(),
        actions: vec![action("a", "Do it")],
        source: "template",
    };
    let s = compose(template(), Some("<b>hi</b>".to_string()));
    assert_eq!((s.html.as_str(), s.source, s.actions.len()), ("<b>hi</b>", "llm", 1));
    let s = compose(template(), None);
    assert_eq!((s.html.as_str(), s.source, s.actions.len()), ("template", "template", 1));
    let said = |v: &[&str]| collect_prompt(&v.iter().map(|s| s.to_string()).collect());
    assert_eq!(said(&["draft", " final \n", ""]).as_deref(), Some("final"));
    assert_eq!(said(&["", ""]), None);
    assert_eq!(said(&["text", "  "]), None);
}

fn window(start: u32, end: u32) -> Window {
    Window { start, end }
}

fn commitment(domain: Domain, label: &str, day: Option<&str>, w: Window) -> Commitment {
    Commitment { domain, label: label.to_string(), day: day.map(str::to_string), window: w }
}

#[test]
fn arbitration_parses_windows_and_finds_overlaps() {
    assert_eq!(parse_window("client review Thursday 17:30-19:00"), Some(Window { start: 1050, end: 1140 }));
    assert_eq!(parse_window("family dinner Thursday at 18:30"), Some(Window { start: 1110, end: 1200 }));
    assert_eq!(parse_window("protect evenings after 18:00"), Some(Window { start: 1080, end: 1439 }));
    assert_eq!(parse_window("6pm to 8pm gym"), Some(Window { start: 1080, end: 1200 }));
    assert_eq!(parse_window("no time here"), None);
    assert_eq!(parse_day("dinner Thursday"), Some("thursday".to_string()));
    let items = vec![
        commitment(Domain::Work, "client review", Some("thursday"), window(1050, 1140)),
        commitment(Domain::Home, "family dinner", Some("thursday"), window(1110, 1200)),
        commitment(Domain::Home, "yoga", Some("friday"), window(1110, 1200)),
    ];
    let c = find_conflicts(&items);
    assert_eq!(c.len(), 1, "different days never conflict");
    assert_eq!(c[0].home.label, "family dinner");
}

#[test]
fn clocks_and_windows_at_the_edges() {
    let clock = |s: &str| parse_clock_lower(&s.chars().collect());
    assert_eq!(clock("12am"), Some(0));
    assert_eq!(clock("12pm"), Some(720));
    assert_eq!(clock("7.45 pm"), Some(1185));
    assert_eq!(clock("23:59"), Some(1439));
    assert_eq!(clock("24:00"), None);
    assert_eq!(clock("9:60"), None);
    assert_eq!(clock("noon"), None);
    assert_eq!(clock("+9"), Some(540));
    assert_eq!(parse_window("17:30–19:00"), Some(window(1050, 1140)));
    assert_eq!(parse_window("9AM until 10AM"), Some(window(540, 600)));
    assert_eq!(parse_window("19:00-17:30"), None, "a window ends after it starts");
    assert_eq!(parse_window("at 23:30"), Some(window(1410, 1439)));
    assert_eq!(parse_window("gym at 7pm, then dinner"), Some(window(1140, 1230)));
    assert_eq!(parse_window("at 7"), None, "a bare number is no clock");
    assert_eq!(parse_day("see you tonight"), Some("today".to_string()));
    assert_eq!(parse_day("someday"), None);
    assert_eq!(window(65, 600).label(), "01:05–10:00");
    assert!(!window(60, 120).overlaps(&window(120, 180)));
    assert!(window(60, 121).overlaps(&window(120, 180)) && window(120, 180).overlaps(&window(60, 121)));
}

fn action(agent: &str, text: &str) -> SuggestedAction {
    SuggestedAction {
        text: text.to_string(),
        card: "c".to_string(),
        agent: agent.to_string(),
        domain: Domain::Work,
        mode: Mode::Suggest,
    }
}

fn synthesis(actions: Vec<SuggestedAction>) -> Synthesis {
    Synthesis { html: "All set.".to_string(), actions, source: "template" }
}

fn memory(domain: Domain, kind: MemoryKind, key: &str, text: Option<&str>) -> MemoryItem {
    MemoryItem {
        domain,
        kind,
        key: key.to_string(),
        text: text.map(str::to_string),
        rendered: String::new(),
        provenance: vec![],
        note: String::new(),
    }
}

#[test]
fn a_clash_becomes_one_neutral_question() {
    let items = vec![
        memory(Domain::Work, MemoryKind::Known, "context.a", Some("client review with the whole team Thursday 17:30-19:00")),
        memory(Domain::Home, MemoryKind::Assumed, "context.b", Some("family dinner Thursday at 18:30")),
        memory(Domain::Home, MemoryKind::Recommended, "context.c", Some("yoga Thursday at 18:00")),
        memory(Domain::Home, MemoryKind::Known, "preference.protected_time", Some("protect evenings after 18:00")),
        memory(Domain::Work, MemoryKind::Known, "context.d", None),
    ];
    let found = commitments(&items);
    assert_eq!(found.len(), 2);
    assert_eq!(found[0].label, "client review with the whole");
    let mut s = synthesis(vec![action("a", "Draft  Replies"), action("b", "draft replies"), action("a", "draft replies")]);
    let r = review(&mut s, &items, &vec![]);
    assert_eq!((r.conflicts, r.protected_violations, r.duplicates_dropped), (1, 0, 1));
    let q = "You have a family commitment thursday at 18:30, but your current work schedule extends into that period (client review with the whole 17:30–19:00). Would you like me to help reorganize your tasks?";
    assert_eq!(r.question.as_deref(), Some(q));
    assert_eq!(s.html, format!("{q} All set."));
    assert_eq!(s.actions.len(), 3);
    assert_eq!(s.actions[0].text, "Reorganize my tasks around the commitment");
    assert_eq!(s.actions[1].text, "Draft  Replies");
}

#[test]
fn protected_time_is_asked_about_where_nothing_clashes() {
    let protected = vec![
        memory(Domain::Home, MemoryKind::Known, "preference.protected_time", Some("evenings are mine")),
        memory(Domain::Home, MemoryKind::Known, "preference.protected_time", Some("protect evenings after 18:00")),
    ];
    assert_eq!(protected_time(&protected), Some(window(1080, 1439)));
    let items = vec![memory(Domain::Work, MemoryKind::Known, "context.a", Some("release call 17:30-19:00"))];
    let mut s = synthesis(vec![]);
    let r = review(&mut s, &items, &protected);
    assert_eq!((r.conflicts, r.protected_violations), (0, 1));
    assert_eq!(
        r.question.as_deref(),
        Some("release call 17:30-19:00 (17:30–19:00) falls inside the time you protect (18:00–23:59). Would you like me to help move it?")
    );
    let mut s = synthesis(vec![action("a", "x")]);
    let r = review_with(&mut s, &vec![], None);
    assert_eq!(r.question, None);
    assert_eq!((s.html.as_str(), s.actions.len()), ("All set.", 1));
}

#[test]
fn more_overlaps_are_counted_in_the_question() {
    let mut items = vec![commitment(Domain::Home, "dinner", None, window(1080, 1200))];
    for label in ["a", "b", "c"] {
        items.push(commitment(Domain::Work, label, None, window(1100, 1110)));
    }
    let mut s = synthesis(vec![]);
    let r = review_with(&mut s, &items, None);
    assert_eq!(r.conflicts, 3);
    assert!(r.question.unwrap().contains("(a 18:20–18:30) (and 2 more overlaps)."));
    items.pop();
    let mut s = synthesis(vec![]);
    assert!(review_with(&mut s, &items, None).question.unwrap().contains("(and 1 more overlap)."));
}

fn json(text: &str) -> Payload {
    Payload::Json(text.to_string())
}

#[test]
fn bus_caps_request_depth_and_keeps_traces() {
    let mut bus = AgentBus::new();
    let t = AgentBus::new_trace_id();
    bus.publish(AgentMessage::new(&t, Address::mother(), Address::new("work_mother", Domain::Work), bus::Kind::Request, json("{\"task\":\"x\"}"))).unwrap();
    bus.publish(AgentMessage::new(&t, Address::new("work_mother", Domain::Work), Address::new("email", Domain::Work), bus::Kind::Request, json("{}")).depth(2)).unwrap();
    let too_deep = AgentMessage::new(&t, Address::new("email", Domain::Work), Address::new("x", Domain::Work), bus::Kind::Request, json("{}")).depth(3);
    assert!(matches!(bus.publish(too_deep), Err(BusError::DepthExceeded(3))));
    bus.publish(AgentMessage::new(&t, Address::new("work_mother", Domain::Work), Address::mother(), bus::Kind::Result, json("{\"facts\":[]}"))).unwrap();
    assert_eq!(bus.trace(&t).len(), 3);
    assert_eq!(bus.trace(&t)[0].domain, Domain::Shared, "mother ↔ world messages are shared");
    assert_eq!(bus.trace(&t)[1].domain, Domain::Work);
}

#[test]
fn the_bus_keeps_the_most_recent_messages() {
    let mut bus = AgentBus::default();
    assert!(bus.is_empty());
    for i in 0..2_005 {
        let trace = if i < 10 { "old" } else { "new" };
        let m = AgentMessage::new(trace, Address::mother(), Address::mother(), bus::Kind::Observation, json("{}"));
        bus.publish(m.depth(9)).unwrap();
    }
    assert_eq!(bus.len(), 2_000);
    assert_eq!(bus.trace("old").len(), 5);
    assert_eq!(bus.trace("new").len(), 1_995);
    assert_eq!(BusError::DepthExceeded(3).message(), "request depth 3 exceeds the cap of 2");
}

#[test]
fn trace_ids_and_permissions() {
    let a = AgentBus::new_trace_id();
    let b = AgentBus::new_trace_id();
    assert_ne!(a, b);
    assert_eq!(a.len(), 36);
    assert_eq!(a.chars().filter(|c| *c == '-').count(), 4);
    assert!(a.starts_with(|c: char| c.is_ascii_hexdigit()));
    assert_eq!(a.as_bytes()[14], b'4');
    assert!(matches!(a.as_bytes()[19], b'8' | b'9' | b'a' | b'b'));
    let m = AgentMessage::new(&a, Address::mother(), Address::new("email", Domain::Work), bus::Kind::Request, json("{}"));
    assert!(m.ts.secs > 1_600_000_000);
    assert!(m.permission_ctx.is_none());
    let m = m.permission("suggest", &vec!["send", "read"]);
    let p = m.permission_ctx.unwrap();
    assert_eq!(p.mode, "suggest");
    assert_eq!(p.effects_used, vec!["send", "read"]);
}

#[test]
fn a_session_is_counted_by_domain() {
    let cards = vec![
        CardRecord { domain: Domain::Work, removed: false },
        CardRecord { domain: Domain::Work, removed: true },
        CardRecord { domain: Domain::Shared, removed: false },
    ];
    let s = domain_summary(&cards, &vec![Domain::Home, Domain::Home]);
    let counts: Vec<(&str, usize, usize)> = s.iter().map(|c| (c.domain.as_str(), c.cards, c.agents_active)).collect();
    assert_eq!(counts, vec![("work", 1, 0), ("home", 0, 2), ("shared", 1, 0)]);
}

#[test]
fn domains_and_modes_have_names() {
    for d in [Domain::Work, Domain::Home, Domain::Shared] {
        assert_eq!(Domain::parse(d.as_str()), Some(d));
    }
    assert_eq!(Domain::parse("Work"), None);
    assert_eq!(Domain::default(), Domain::Shared);
    assert_eq!(Mode::Automate.as_str(), "automate");
    assert_eq!(Domain::for_card("deck", None), Domain::Work);
    assert_eq!(Domain::for_card("deck", Some("home")), Domain::Home);
    assert_eq!(Domain::for_card("deck", Some("mars")), Domain::Work);
}
