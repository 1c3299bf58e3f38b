use spatial_os::domain::{Domain, Mode};
use spatial_os::mother::bus;
use spatial_os::mother::bus::{AgentBus, Payload};
use spatial_os::mother::intake::{classify_offline, Target};
use spatial_os::routes::events::{record, ui_kinds, Refusal, UiEvent, UiEventsBody};
use spatial_os::routes::worlds::{glyph, prompt, rosters, title, WorldAgent};
use spatial_os::voice::{VoiceConfig, VoiceState};
use spatial_os::worlds::{
    card, count_events, has_mother, is_world_native, needs_fold, one_card_events, requests,
    result_message, Collected, WorldEvent, WorldResult, TARGET_TIMEOUT_SECS,
};

const WORK_AGENTS: [&str; 8] = [
    "productivity", "email", "team_comms", "project", "research_knowledge", "work_automation",
    "career", "professional_social",
];
const HOME_AGENTS: [&str; 8] = [
    "family", "personal_productivity", "health_wellness", "finance", "entertainment", "social_fun",
    "travel", "personal_social",
];

fn registry(ids: &[&'static str]) -> Vec<WorldAgent> {
    ids.iter()
        .map(|id| WorldAgent { id, mission: "m", stub: *id == "career", scenario: "s", phase1_agents: vec!["calendar.agent"] })
        .collect()
}

#[test]
fn rosters_cover_both_registries_with_titles_glyphs_and_prompts() {
    let r = rosters(&registry(&WORK_AGENTS), &registry(&HOME_AGENTS), &|_: &str| Mode::Suggest);
    assert_eq!(r.work.len(), WORK_AGENTS.len());
    assert_eq!(r.home.len(), HOME_AGENTS.len());
    assert!(r.work.iter().all(|a| a.world == Domain::Work));
    assert!(r.home.iter().all(|a| a.world == Domain::Home));
    for a in r.work.iter().chain(r.home.iter()) {
        assert_ne!(a.glyph, "✦", "no glyph for {}", a.id);
        assert!(!a.title.is_empty() && !a.title.contains('_'), "{}", a.title);
        assert_ne!(a.prompt, "What's happening?", "no prompt for {}", a.id);
        assert!(["observe", "suggest", "automate"].contains(&a.mode));
    }
    assert_eq!(title("research_knowledge"), "Research & Knowledge");
    assert_eq!(title("personal_productivity"), "Personal Productivity");
    let work_ids: Vec<&str> = r.work.iter().map(|a| a.id).collect();
    let home_ids: Vec<&str> = r.home.iter().map(|a| a.id).collect();
    assert!(work_ids.iter().all(|id| !home_ids.contains(id)), "the two rosters must not overlap");
}

#[test]
fn an_agent_shows_the_mode_of_the_one_that_does_the_work() {
    let mut work = registry(&["email", "career"]);
    work[1].phase1_agents = vec![];
    work[0].phase1_agents = vec!["inbox.agent", "calendar.agent"];
    let r = rosters(&work, &vec![], &|a: &str| if a == "inbox.agent" { Mode::Automate } else { Mode::Suggest });
    assert_eq!(r.work[0].mode, "automate");
    assert_eq!(r.work[1].mode, "observe");
    assert!(r.work[1].stub);
    assert_eq!(glyph("nobody"), "✦");
    assert_eq!(prompt("nobody"), "What's happening?");
    assert_eq!(title("ßa_b"), "SSa B");
    assert_eq!(title("__"), "  ");
}

fn ui(kind: &str, count: Option<u32>, domain: Option<Domain>, duration_ms: Option<i32>) -> UiEvent {
    UiEvent { kind: kind.to_string(), count, domain, duration_ms }
}

#[test]
fn only_known_ui_signals_are_recorded() {
    let body = UiEventsBody {
        events: vec![
            ui("ui_focus", None, None, None),
            ui("ui_typing", Some(3), None, None),
            ui("ui_card_open", Some(4), Some(Domain::Home), Some(90)),
        ],
    };
    let rows = record(Some("u"), &body).unwrap();
    assert_eq!(rows.len(), 2);
    assert_eq!((rows[0].kind.as_str(), rows[0].count, rows[0].domain, rows[0].duration_ms), ("ui_focus", 1, Domain::Shared, None));
    assert_eq!((rows[1].kind.as_str(), rows[1].count, rows[1].domain, rows[1].duration_ms), ("ui_card_open", 4, Domain::Home, Some(90)));
    assert!(rows.iter().all(|r| r.user_id == "u" && r.agent_id == "ui"));
    assert_eq!(ui_kinds().len(), 6);
}

#[test]
fn ui_signals_are_refused_without_a_session_or_in_bulk() {
    let many = |n: usize| UiEventsBody { events: (0..n).map(|_| ui("ui_lens", None, None, None)).collect() };
    assert_eq!(record(None, &many(201)).unwrap_err(), Refusal::NoSession);
    assert_eq!(record(Some("u"), &many(201)).unwrap_err(), Refusal::TooMany);
    assert_eq!(record(Some("u"), &many(200)).unwrap().len(), 200);
    assert_eq!((Refusal::NoSession.status(), Refusal::NoSession.message()), (404, "session not found"));
    assert_eq!((Refusal::TooMany.status(), Refusal::TooMany.message()), (400, "too many events"));
}

fn target(world: Domain, agent: &str, scenario: &str) -> Target {
    Target { world, agent: agent.to_string(), task: "t".to_string(), scenario: scenario.to_string() }
}

fn collected(types: &[&str], timed_out: bool) -> Collected {
    Collected { types: types.iter().map(|t| Some(t.to_string())).chain([None]).collect(), timed_out }
}

#[test]
fn the_outcomes_of_a_world_are_folded() {
    let targets = vec![
        target(Domain::Work, "email", "morning"),
        target(Domain::Home, "family", "home"),
        target(Domain::Work, "project", "people"),
        target(Domain::Work, "career", "stub"),
    ];
    let got = vec![
        collected(&["card_spawn", "card_spawn", "card_resolve", "done"], false),
        collected(&["card_spawn"], false),
        collected(&[], true),
    ];
    let r = WorldResult::from_targets(Domain::Work, &targets, &got);
    let shown: Vec<(&str, &str, usize, usize, bool)> =
        r.agents.iter().map(|a| (a.agent.as_str(), a.scenario.as_str(), a.cards, a.resolved, a.timed_out)).collect();
    assert_eq!(shown, vec![("email", "morning", 2, 1, false), ("project", "people", 0, 0, true)]);
    assert!(r.facts.is_empty() && r.stubs.is_empty());
    assert_eq!(WorldResult::from_targets(Domain::Home, &targets, &got).agents.len(), 1);
    assert_eq!(WorldResult::new(Domain::Home).world, Domain::Home);
    assert_eq!(count_events(&got[0].types, "done"), 1);
}

#[test]
fn the_requests_of_a_fan_out_fit_on_the_bus() {
    let targets = vec![target(Domain::Work, "email", "morning"), target(Domain::Shared, "news", "live")];
    let ms = requests("trace", &targets);
    let shown: Vec<(&str, &str, u8)> = ms.iter().map(|m| (m.from.agent.as_str(), m.to.agent.as_str(), m.depth)).collect();
    assert_eq!(shown, vec![("mother", "work_mother", 1), ("work_mother", "email", 2), ("mother", "news", 1)]);
    assert!(ms[0].permission_ctx.as_ref().is_some_and(|p| p.mode == "suggest"));
    assert!(matches!(&ms[0].payload, Payload::Task { agent: Some(a), .. } if a == "email"));
    assert!(matches!(&ms[1].payload, Payload::Task { agent: None, scenario, .. } if scenario == "morning"));
    assert!(ms.iter().all(|m| m.ts.secs > 1_600_000_000));
    let mut b = AgentBus::new();
    for m in ms {
        assert!(b.publish(m).is_ok());
    }
    let back = result_message("trace", Domain::Home, "{}");
    assert_eq!((back.from.agent.as_str(), back.kind, back.domain), ("home_mother", bus::Kind::Result, Domain::Shared));
    assert!(b.publish(back).is_ok());
    assert_eq!(b.trace("trace").len(), 4);
}

#[test]
fn worlds_with_a_mother_fold_their_targets() {
    assert!(has_mother(Domain::Work, true, false));
    assert!(!has_mother(Domain::Home, true, false));
    assert!(!has_mother(Domain::Shared, true, true));
    let targets = vec![target(Domain::Work, "email", "morning")];
    assert!(needs_fold(&targets, Domain::Work, true));
    assert!(!needs_fold(&targets, Domain::Work, false));
    assert!(!needs_fold(&targets, Domain::Home, true));
    assert!(is_world_native("stub") && is_world_native("home") && is_world_native("work"));
    assert!(!is_world_native("morning"));
    assert_eq!(TARGET_TIMEOUT_SECS, 90);
}

#[test]
fn a_world_native_card_comes_resolved() {
    let c = card("Dates", "family", "🏠", Domain::Home);
    assert_eq!((c.glyph.as_str(), c.title.as_str(), c.agent.as_str()), ("🏠", "Dates", "family"));
    assert_eq!(c.stream, vec!["Checking…"]);
    let events = one_card_events(c, 7, Domain::Home);
    assert_eq!(events.iter().map(|e| e.kind()).collect::<Vec<_>>(), vec!["scenario", "card_spawn", "card_resolve"]);
    assert!(matches!(events[0], WorldEvent::Scenario { key: "home", text: "", total_cards: 1 }));
    assert!(matches!(events[2], WorldEvent::CardResolve { index: 0, resolve: 7 }));
}

#[test]
fn voice_needs_a_key() {
    let mut config = VoiceConfig {
        google_api_key: None,
        gemini_live_model: "live".to_string(),
        voice_name: "Suzy".to_string(),
        camera_enabled: true,
    };
    let off = VoiceState::boot(&config);
    assert!(!off.enabled && !off.camera && off.model.is_none());
    assert_eq!(off.voice_name, "Suzy");
    config.google_api_key = Some("k".to_string());
    let on = VoiceState::boot(&config);
    assert!(on.enabled && on.camera);
    let model = on.model.unwrap();
    assert_eq!((model.api_key.as_str(), model.name.as_str()), ("k", "live"));
}

#[test]
fn a_tile_types_what_is_routed_to_its_agent() {
    for id in ["family", "finance", "travel", "work_automation"] {
        assert_eq!(classify_offline(prompt(id)).targets[0].agent, id);
    }
}
