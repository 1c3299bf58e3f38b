use spatial_os::clock::Timestamp;
use spatial_os::orchestrator::artifacts::{
    artifact_label, artifact_label_for, collect_session_artifacts, extension, find_newest_artifact,
    parse_saved_path, saved_artifact, saved_path_from, Found, SessionArtifacts,
};
use spatial_os::orchestrator::combine;
use spatial_os::orchestrator::combine::{
    deck_conduct_steps, missing_message, parse_slide_count, slide_count_from, sources,
    tour_scenario, CombineAct, CombineRun,
};
use spatial_os::orchestrator::deck;
use spatial_os::orchestrator::deck::{deck_cards, DeckAct, DeckRun};
use spatial_os::orchestrator::morning;
use spatial_os::orchestrator::morning::{
    brief_resolve, calendar_resolve, inbox_resolve, morning_cards, parse_meeting_count,
    resolve_for_agent,
};
use spatial_os::orchestrator::workflow::{
    announced, text_from_response, Act, AgentEvent, AgentSlot, Part, ToolResponse,
    WorkflowStreamConfig,
};

fn answer(output: &str) -> ToolResponse {
    ToolResponse { output: Some(output.to_string()), path: None, file_path: None, text: None }
}

fn silent() -> ToolResponse {
    ToolResponse { output: None, path: None, file_path: None, text: None }
}

fn call(name: &str) -> Part {
    Part::Call { name: name.to_string() }
}

fn response(name: &str, response: ToolResponse) -> Part {
    Part::Response { name: name.to_string(), response }
}

fn said(text: &str) -> Part {
    Part::Text { text: text.to_string() }
}

fn event(author: &str, parts: Vec<Part>, is_final: bool) -> AgentEvent {
    AgentEvent { author: author.to_string(), parts, is_final }
}

fn show(acts: &[Act]) -> Vec<String> {
    acts.iter()
        .map(|a| match a {
            Act::StoreScenario => "store scenario".to_string(),
            Act::SendScenario { total } => format!("scenario {total}"),
            Act::StoreCard { index } => format!("store {index}"),
            Act::SendCard { index } => format!("card {index}"),
            Act::Status { index, tool } => format!("status {index} {tool}"),
            Act::Resolve { index, author, tools, said, store, record } => {
                format!("resolve {index} {author} {tools:?} {said:?} {store} {record}")
            }
            Act::Announce => "announce".to_string(),
            Act::StoreArtifacts => "store artifacts".to_string(),
            Act::Wait { millis } => format!("wait {millis}"),
            Act::Suggest => "suggest".to_string(),
            Act::SendDone => "done".to_string(),
        })
        .collect()
}

fn config() -> WorkflowStreamConfig {
    WorkflowStreamConfig {
        scenario_key: "week".to_string(),
        cards: 2,
        slots: vec![
            AgentSlot { author: "a".to_string(), index: 0 },
            AgentSlot { author: "b".to_string(), index: 1 },
        ],
        integrations_note: "calendar: live".to_string(),
    }
}

#[test]
fn a_workflow_resolves_every_card_once() {
    assert_eq!(config().prompt("hi"), "hi\n\n[Integrations]\ncalendar: live\nPrepare the scenario cards.");
    let (mut run, opening) = config().start(true);
    assert_eq!(show(&opening), vec!["store scenario", "scenario 2", "store 0", "card 0", "store 1", "card 1"]);
    let acts = run.on_event(&event("b", vec![call("list"), response("list", answer("x")), Part::Other], false));
    assert_eq!(show(&acts), vec!["status 1 list"]);
    let acts = run.on_event(&event("b", vec![said("y")], true));
    assert_eq!(show(&acts), vec!["resolve 1 b \"x\\n\" \"y\\n\" true true"]);
    assert!(run.on_event(&event("b", vec![said("z")], true)).is_empty());
    assert!(run.on_event(&event("stranger", vec![call("list")], true)).is_empty());
    assert_eq!(
        show(&run.finish()),
        vec!["resolve 0 a \"\" \"\" true false", "announce", "wait 400", "suggest", "done"]
    );
    let (run, opening) = config().start(false);
    assert_eq!(show(&opening), vec!["scenario 2", "card 0", "card 1"]);
    assert_eq!(
        show(&run.finish()),
        vec!["resolve 0 a \"\" \"\" false false", "resolve 1 b \"\" \"\" false false", "announce", "wait 400", "done"]
    );
}

#[test]
fn a_card_that_two_slots_name_resolves_by_its_event_or_for_each() {
    let shared = || WorkflowStreamConfig {
        slots: ["a", "b"].iter().map(|s| AgentSlot { author: s.to_string(), index: 1 }).collect(),
        ..config()
    };
    let resolved = |acts: Vec<Act>| show(&acts).iter().filter(|a| a.starts_with("resolve 1")).count();
    let (mut run, _) = shared().start(false);
    assert_eq!(resolved(run.on_event(&event("b", vec![], true))), 1);
    assert_eq!(resolved(run.finish()), 0);
    assert_eq!(resolved(shared().start(false).0.finish()), 2);
}

#[test]
fn a_tool_answers_with_its_output_or_its_text() {
    assert_eq!(text_from_response(&answer("o")), "o");
    let mut r = silent();
    assert_eq!(text_from_response(&r), "");
    r.text = Some("t".to_string());
    r.path = Some("p".to_string());
    assert_eq!(text_from_response(&r), "t");
}

#[test]
fn the_morning_has_three_cards() {
    let cards = morning_cards();
    let agents: Vec<&str> = cards.iter().map(|c| c.agent).collect();
    assert_eq!(agents, vec!["calendar.agent", "inbox.agent", "news.agent"]);
    assert!(cards[1].attention && !cards[0].attention);
    assert_eq!(cards[2].waits_for, Some(2));
    let (mut run, opening) = morning::start(false);
    assert_eq!(show(&opening), vec!["scenario 3", "card 0", "card 1", "card 2"]);
    let acts = run.on_event(&event("brief_agent", vec![said("x")], true));
    assert_eq!(show(&acts), vec!["resolve 2 brief_agent \"\" \"x\\n\" false false"]);
    assert_eq!(
        show(&run.finish()),
        vec!["resolve 0 calendar_agent \"\" \"\" false false", "resolve 1 inbox_agent \"\" \"\" false false", "wait 400", "done"]
    );
    assert_eq!(morning::status_line("search_events"), "Finding free time…");
    assert_eq!(morning::status_line("anything"), "Working…");
}

#[test]
fn morning_cards_resolve_from_what_was_said() {
    assert_eq!(parse_meeting_count("[1, 2]"), Some(2));
    assert_eq!(parse_meeting_count("{\"a\": 1}"), None);
    assert_eq!(parse_meeting_count("two meetings"), None);
    assert_eq!(calendar_resolve("[]").big.as_deref(), Some("0 meetings"));
    assert_eq!(calendar_resolve("?").big.as_deref(), Some("3 meetings"));
    assert_eq!(inbox_resolve("No Unread mail").big.as_deref(), Some("Inbox clear"));
    assert_eq!(inbox_resolve("No Unread mail").sub.as_deref(), Some("Nothing urgent"));
    assert_eq!(inbox_resolve("ONE EMAIL").big.as_deref(), Some("1 to reply"));
    assert_eq!(inbox_resolve("many").big.as_deref(), Some("2 to reply"));
    assert_eq!(inbox_resolve("10 emails").big.as_deref(), Some("Inbox clear"), "0 email is in it");
    let b = brief_resolve(" one \n\n<b>two</b>\nthree\nfour");
    assert_eq!(b.lines.unwrap(), vec!["<b>•</b> one", "<b>two</b>", "<b>•</b> three"]);
    assert_eq!(brief_resolve(" \n").lines.unwrap()[0], "<b>Headlines</b> — top stories loading");
    let r = resolve_for_agent("calendar_agent", "[1]", "");
    assert_eq!((r.big.as_deref(), r.actions), (Some("1 meetings"), vec!["Open", "Reschedule"]));
    assert_eq!(resolve_for_agent("calendar_agent", "[1]", "x").big.as_deref(), Some("3 meetings"));
    assert_eq!(resolve_for_agent("stranger", "", "").big.as_deref(), Some("Ready"));
    assert_eq!(
        morning::prompt("hi", true, false, &Some("Nairobi".to_string()), &None),
        "hi\n\n[Integrations]\ncalendar: live\ninbox: unavailable — use general context\nnews: yes\nweather: yes\n\
         [Profile]\nhome_location: Nairobi\ntimezone: unknown\nPrepare the morning briefing cards."
    );
}

fn found(path: &str, extension: Option<&str>, modified: Option<i128>) -> Found {
    Found { path: path.to_string(), extension: extension.map(str::to_string), modified }
}

#[test]
fn the_newest_artifact_is_found() {
    let files = vec![
        found("old.pptx", Some("pptx"), Some(1)),
        found("new.pptx", Some("pptx"), Some(3)),
        found("same.pptx", Some("pptx"), Some(3)),
        found("unknown.pptx", Some("pptx"), None),
        found("a.docx", Some("docx"), Some(-5)),
        found("none", None, Some(9)),
    ];
    assert_eq!(find_newest_artifact(&files, "pptx").as_deref(), Some("new.pptx"));
    assert_eq!(find_newest_artifact(&files, "xlsx"), None);
    let saved = |o: Option<&str>| saved_artifact(&o.map(str::to_string), &files, "pptx");
    assert_eq!(saved(None).as_deref(), Some("new.pptx"));
    assert_eq!(saved(Some("done")).as_deref(), Some("new.pptx"));
    assert_eq!(saved(Some("{\"path\": \"x\"}")).as_deref(), Some("x"));
    let a = collect_session_artifacts(&files);
    assert_eq!((a.xlsx, a.docx.as_deref(), a.pptx.as_deref(), a.combined_pptx), (None, Some("a.docx"), Some("new.pptx"), None));
}

fn label(big: &str, sub: &str) -> (String, String) {
    (big.to_string(), sub.to_string())
}

#[test]
fn artifacts_are_labeled_by_their_extension() {
    assert_eq!(artifact_label("/tmp/u/model.xlsx"), label("+38% QoQ", "Revenue model · model.xlsx"));
    assert_eq!(artifact_label("/tmp/u/story.docx"), label("1,240 words", "Exec summary · story.docx"));
    assert_eq!(artifact_label("deck.pptx"), label("10 slides", "Pitch deck · deck.pptx"));
    assert_eq!(artifact_label("/tmp/u.pptx/notes"), label("Ready", "notes"));
    assert_eq!(artifact_label("/tmp/.."), label("Ready", "artifact"));
    assert_eq!(artifact_label_for(&None, &Some("xlsx".to_string())), label("+38% QoQ", "Revenue model · artifact"));
    for name in ["a.b.c", ".hidden", ".hidden.x", "a.", "plain", "a..b", "x"] {
        let std = std::path::Path::new(name).extension().map(|e| e.to_str().unwrap().to_string());
        assert_eq!(extension(name), std, "{name}");
    }
}

#[test]
fn a_saved_path_is_named_or_absolute() {
    let path = |o: &str| parse_saved_path(&answer(o));
    assert_eq!(path("{\"path\": \"x.pptx\"}").as_deref(), Some("x.pptx"));
    assert_eq!(path("{\"file_path\": \"y\", \"output_path\": \"z\"}").as_deref(), Some("y"));
    assert_eq!(path("{\"output_path\": \"z\"}").as_deref(), Some("z"));
    assert_eq!(path("{\"path\": 1, \"file_path\": \"y\"}"), None, "the first member decides");
    assert_eq!(path("[\"path\"]"), None);
    assert_eq!(path("saved"), None);
    assert_eq!(saved_path_from("/a", None, true).as_deref(), Some("/a"));
    assert_eq!(path("/a").is_some(), std::path::Path::new("/a").is_absolute());
    let mut r = silent();
    assert_eq!(parse_saved_path(&r), None);
    r.file_path = Some("{\"path\": \"f\"}".to_string());
    assert_eq!(parse_saved_path(&r).as_deref(), Some("f"));
    r.path = Some("nowhere".to_string());
    assert_eq!(parse_saved_path(&r), None);
}

#[test]
fn a_deck_counts_its_slides_and_saves_its_cards() {
    let cards = deck_cards();
    assert_eq!(cards[2].title, "Auto-Slides");
    assert_eq!(cards[2].surface, Some("slides"));
    let mut run = DeckRun::new();
    let mut seen = vec![];
    for (author, tool) in [("excel_agent", "add_slide"), ("slides_agent", "add_slide"), ("x", "add_slide"), ("slides_agent", "add_slide")] {
        for act in run.on_part(author, &call(tool)) {
            match act {
                DeckAct::Status { index, line } => seen.push(format!("{index} {line}")),
                DeckAct::Surface { index, slide, total } => seen.push(format!("{index} {slide}/{total}")),
                DeckAct::Save { .. } => seen.push("save".to_string()),
            }
        }
    }
    assert_eq!(seen, vec!["0 Adding slide…", "2 Adding slide…", "2 1/10", "2 Adding slide…", "2 2/10"]);
    match run.on_part("docs_agent", &response("save_document", answer("/a.docx"))).as_slice() {
        [DeckAct::Save { index: 1, output: Some(o), extension: "docx" }] => assert_eq!(o, "/a.docx"),
        _ => panic!("no save"),
    }
    assert!(run.on_part("docs_agent", &response("insert_paragraph", answer("x"))).is_empty());
    let r = run.saved(1, label("big", "sub"), Some("url".to_string()));
    assert_eq!((r.big.as_deref(), r.sub.as_deref(), r.artifact_url.as_deref()), (Some("big"), Some("sub"), Some("url")));
    assert_eq!(r.actions, vec!["Save", "Open"]);
    let files = vec![
        found("/d/a.xlsx", Some("xlsx"), Some(1)),
        found("/d/a.docx", Some("docx"), Some(2)),
        found("/d/b.xlsx", Some("xlsx"), Some(3)),
        found("/d/c.xlsx", Some("xlsx"), None),
    ];
    let left = |p: &str| (0, p.to_string());
    assert_eq!(run.close(&files), vec![left("/d/b.xlsx")], "the document is resolved, the slides are not there");
    assert!(run.close(&vec![]).is_empty());
    assert_eq!(run.saved(2, label("b", "s"), None).actions, vec!["Save deck", "Present"]);
    assert_eq!(run.close(&vec![found("/d/a.pptx", Some("pptx"), Some(1))]), vec![]);
    assert_eq!(
        DeckRun::new().close(&vec![found("/p", Some("pptx"), Some(1)), found("/x", Some("xlsx"), Some(1)), found("/t", Some("txt"), Some(1))]),
        vec![left("/x"), (2, "/p".to_string())],
        "in the order of the cards"
    );
    assert_eq!(show(&deck::opening(true)).len(), 8);
    assert_eq!(show(&deck::closing(true)), vec!["store artifacts", "wait 400", "suggest", "done"]);
    assert_eq!(show(&deck::closing(false)), vec!["wait 400", "done"]);
    assert_eq!(
        deck::prompt("hi", "/d", &vec!["/d/a".to_string(), "/d/b".to_string()]),
        "hi\n\n[Save files to: /d/]\n[Sibling artifacts]\n- /d/a\n- /d/b\nBuild the pitch deck artifacts for this session."
    );
    assert!(deck::prompt("hi", "/d", &vec![]).contains("(none yet — excel and docs agents run first)"));
}

fn three(x: Option<&str>, d: Option<&str>, p: Option<&str>) -> SessionArtifacts {
    let text = |s: Option<&str>| s.map(str::to_string);
    SessionArtifacts { xlsx: text(x), docx: text(d), pptx: text(p), combined_pptx: None }
}

#[test]
fn a_combination_needs_three_artifacts() {
    let recorded = Some(three(Some("rx"), None, None));
    let s = sources(&recorded, &three(Some("fx"), Some("fd"), Some("fp"))).unwrap();
    assert_eq!((s.xlsx.as_str(), s.docx.as_str(), s.pptx.as_str()), ("rx", "fd", "fp"));
    assert!(sources(&None, &three(Some("fx"), None, Some("fp"))).is_none());
    assert_eq!(missing_message(), "Missing deck artifacts — run a deck intent first");
    assert_eq!(
        combine::prompt("hi", "/d", &s),
        "hi\n\n[Save files to: /d/]\n[Artifacts]\npptx: fp\n[Sibling sources]\nxlsx: rx\ndocx: fd\n\
         Merge excel numbers and docs narrative into the slides deck."
    );
    let steps = deck_conduct_steps();
    assert_eq!(steps.iter().map(|s| s.op).collect::<Vec<_>>(), vec!["fuse", "wait", "fuse", "wait"]);
    assert_eq!(steps[3].delay_ms, Some(400));
    assert_eq!(tour_scenario(&None), "deck");
    assert_eq!(tour_scenario(&Some("week".to_string())), "week");
}

#[test]
fn slides_are_counted_from_what_the_tool_says() {
    let count = |o: &str| parse_slide_count(&answer(o));
    assert_eq!(count("{\"slide_count\": 12}"), Some(12));
    assert_eq!(count("{\"slides\": 7}"), Some(7));
    assert_eq!(count("{\"slide_count\": 4294967297}"), Some(1), "the count wraps");
    assert_eq!(count("{\"slide_count\": -1, \"slides\": 7}"), None);
    assert_eq!(count("deck with 99 or 9 slides"), Some(9));
    assert_eq!(count("none"), None);
    assert_eq!(parse_slide_count(&silent()), None);
    assert_eq!(slide_count_from(Some(None), Some(Some(3)), "5"), Some(5));
}

#[test]
fn a_combination_reports_the_deck() {
    let mut run = CombineRun::new();
    assert_eq!(run.sub(), "10 slides · numbers + story combined");
    assert!(run.on_part("combine_agent", &response("describe_presentation", answer("8"))).is_none());
    assert!(run.on_part("combine_agent", &response("describe_presentation", answer("?"))).is_none());
    assert!(run.on_part("other", &response("save_presentation", answer("/x"))).is_none());
    assert_eq!(run.on_part("combine_agent", &response("save_presentation", answer("/x"))), Some(Some("/x".to_string())));
    assert_eq!(run.slides(), 8);
    run.saved(None, Some("newest".to_string()));
    run.settle(Some("later".to_string()));
    assert_eq!(run.path.as_deref(), Some("newest"));
    let r = run.pinned(None);
    assert_eq!((r.big.as_deref(), r.sub.as_deref()), (Some("Deck ready"), Some("8 slides · numbers + story combined")));
    let a = run.updated(three(None, None, Some("p"))).unwrap();
    assert_eq!((a.pptx.as_deref(), a.combined_pptx.as_deref()), (Some("p"), Some("newest")));
    assert!(CombineRun::new().updated(three(None, None, None)).is_none());
    let acts = run.finish(Some("u".to_string()), three(None, None, Some("p")));
    assert_eq!(
        combined(&acts),
        vec![
            "finish Deck ready / 8 slides · numbers + story combined / Some(\"u\") / 8",
            "pin 2 🖼️ Auto-Slides auto-slides Some(\"slides\") Some(\"Deck ready\") [\"Save deck\", \"Present\"] Some(\"u\")",
            "artifacts Some(\"newest\")",
            "wait 300",
            "tour",
            "done",
        ]
    );
    assert_eq!(combined(&CombineRun::new().finish(None, three(None, None, None)))[2..], ["wait 300", "tour", "done"]);
}

fn combined(acts: &[CombineAct]) -> Vec<String> {
    acts.iter()
        .map(|a| match a {
            CombineAct::SendConduct { steps } => format!("conduct {}", steps.len()),
            CombineAct::SendError { message } => format!("error {message}"),
            CombineAct::RunAgent { prompt } => format!("run {prompt}"),
            CombineAct::SendFinish { big, sub, artifact_url, slide_count } => {
                format!("finish {big} / {sub} / {artifact_url:?} / {slide_count}")
            }
            CombineAct::PinCard { index, card: c, resolve: r } => {
                format!("pin {index} {} {} {} {:?} {:?} {:?} {:?}", c.glyph, c.title, c.agent, c.surface, r.big, r.actions, r.artifact_url)
            }
            CombineAct::StoreArtifacts { artifacts } => format!("artifacts {:?}", artifacts.combined_pptx),
            CombineAct::Wait { millis } => format!("wait {millis}"),
            CombineAct::Tour => "tour".to_string(),
            CombineAct::SendDone => "done".to_string(),
        })
        .collect()
}

#[test]
fn a_combination_without_sources_runs_nothing() {
    let acts = combine::start("hi", "/d", &None, &three(Some("fx"), None, Some("fp")));
    assert_eq!(combined(&acts), vec!["conduct 4", "error Missing deck artifacts — run a deck intent first", "done"]);
    let acts = combine::start("hi", "/d", &Some(three(None, Some("rd"), None)), &three(Some("fx"), None, Some("fp")));
    assert_eq!(
        combined(&acts),
        vec![
            "conduct 4",
            "run hi\n\n[Save files to: /d/]\n[Artifacts]\npptx: fp\n[Sibling sources]\nxlsx: fx\ndocx: rd\n\
             Merge excel numbers and docs narrative into the slides deck.",
        ]
    );
}

#[test]
fn approvals_queued_since_the_start_are_announced() {
    let at = |secs, nanos| Timestamp { secs, nanos };
    let created = vec![at(9, 999_999_999), at(10, 5), at(10, 4), at(11, 0), at(9, 0), at(10, 5)];
    assert_eq!(announced(&created, at(10, 5)), vec![1, 3, 5]);
    assert_eq!(announced(&created, at(12, 0)), Vec::<usize>::new());
    assert_eq!(announced(&created, at(-1, 0)).len(), 6);
    assert!(announced(&vec![], at(0, 0)).is_empty());
}
