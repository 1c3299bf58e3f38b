//! Combining the deck: the numbers and the story are merged into the slides.

use vstd::prelude::*;

use crate::orchestrator::artifacts;
use crate::orchestrator::artifacts::ArtifactsView;
use crate::orchestrator::artifacts::SessionArtifacts;
use crate::orchestrator::card;
use crate::orchestrator::card::Card;
use crate::orchestrator::card::CardView;
use crate::orchestrator::card::Resolve;
use crate::orchestrator::card::ResolveView;
use crate::orchestrator::json;
use crate::orchestrator::workflow::Part;
use crate::orchestrator::workflow::PartView;
use crate::orchestrator::workflow::ResponseView;
use crate::orchestrator::workflow::ToolResponse;
use crate::text::chars;
use crate::text::number;
use crate::text::pieces;

verus! {

/// One step of how the client moves its cards.
pub struct ConductStep {
    pub op: &'static str,
    pub source: Option<&'static str>,
    pub target: Option<&'static str>,
    pub delay_ms: Option<u32>,
}

#[verifier::ext_equal]
pub struct StepView {
    pub op: Seq<char>,
    pub source: Option<Seq<char>>,
    pub target: Option<Seq<char>>,
    pub delay_ms: Option<u32>,
}

pub open spec fn slice_in(s: Option<&'static str>) -> Option<Seq<char>> {
    match s {
        Some(x) => Some(x@),
        None => None,
    }
}

impl View for ConductStep {
    type V = StepView;

    open spec fn view(&self) -> StepView {
        StepView {
            op: self.op@,
            source: slice_in(self.source),
            target: slice_in(self.target),
            delay_ms: self.delay_ms,
        }
    }
}

pub open spec fn fuse(source: Seq<char>, target: Seq<char>) -> StepView {
    StepView { op: "fuse"@, source: Some(source), target: Some(target), delay_ms: None }
}

pub open spec fn wait(ms: u32) -> StepView {
    StepView { op: "wait"@, source: None, target: None, delay_ms: Some(ms) }
}

fn fuse_step(source: &'static str, target: &'static str) -> (r: ConductStep)
    ensures
        r@ == fuse(source@, target@),
{
    ConductStep { op: "fuse", source: Some(source), target: Some(target), delay_ms: None }
}

fn wait_step(ms: u32) -> (r: ConductStep)
    ensures
        r@ == wait(ms),
{
    ConductStep { op: "wait", source: None, target: None, delay_ms: Some(ms) }
}

pub open spec fn conduct() -> Seq<StepView> {
    seq![
        fuse("Auto-Excel"@, "Auto-Slides"@),
        wait(500),
        fuse("Auto-Docs"@, "Auto-Slides"@),
        wait(400),
    ]
}

pub open spec fn steps_of(v: Seq<ConductStep>) -> Seq<StepView> {
    v.map_values(|s: ConductStep| s@)
}

/// The workbook and the document are fused into the slides, one after the other.
pub fn deck_conduct_steps() -> (r: Vec<ConductStep>)
    ensures
        steps_of(r@) == conduct(),
{
    let r = vec![
        fuse_step("Auto-Excel", "Auto-Slides"),
        wait_step(500),
        fuse_step("Auto-Docs", "Auto-Slides"),
        wait_step(400),
    ];
    assert(steps_of(r@) =~= conduct());
    r
}

/// What the driver of a combination does next.
pub enum CombineAct {
    /// Tell the client how to move its cards.
    SendConduct { steps: Vec<ConductStep> },
    SendError { message: &'static str },
    /// Let the agent that combines work on the prompt.
    RunAgent { prompt: String },
    /// Tell the client that the deck is combined.
    SendFinish { big: &'static str, sub: String, artifact_url: Option<String>, slide_count: u32 },
    /// Keep a card with the session, resolved and pinned.
    PinCard { index: usize, card: Card, resolve: Resolve },
    /// Keep the artifacts with the session.
    StoreArtifacts { artifacts: SessionArtifacts },
    Wait { millis: u64 },
    /// Go on with the tour.
    Tour,
    SendDone,
}

#[verifier::ext_equal]
pub enum CombineActView {
    SendConduct { steps: Seq<StepView> },
    SendError { message: Seq<char> },
    RunAgent { prompt: Seq<char> },
    SendFinish {
        big: Seq<char>,
        sub: Seq<char>,
        artifact_url: Option<Seq<char>>,
        slide_count: u32,
    },
    PinCard { index: int, card: CardView, resolve: ResolveView },
    StoreArtifacts { artifacts: ArtifactsView },
    Wait { millis: int },
    Tour,
    SendDone,
}

impl View for CombineAct {
    type V = CombineActView;

    open spec fn view(&self) -> CombineActView {
        match self {
            CombineAct::SendConduct { steps } => CombineActView::SendConduct {
                steps: steps_of(steps@),
            },
            CombineAct::SendError { message } => CombineActView::SendError { message: message@ },
            CombineAct::RunAgent { prompt } => CombineActView::RunAgent { prompt: prompt@ },
            CombineAct::SendFinish { big, sub, artifact_url, slide_count } =>
                CombineActView::SendFinish {
                big: big@,
                sub: sub@,
                artifact_url: pieces::text_in(*artifact_url),
                slide_count: *slide_count,
            },
            CombineAct::PinCard { index, card, resolve } => CombineActView::PinCard {
                index: *index as int,
                card: card@,
                resolve: resolve@,
            },
            CombineAct::StoreArtifacts { artifacts } => CombineActView::StoreArtifacts {
                artifacts: artifacts@,
            },
            CombineAct::Wait { millis } => CombineActView::Wait { millis: *millis as int },
            CombineAct::Tour => CombineActView::Tour,
            CombineAct::SendDone => CombineActView::SendDone,
        }
    }
}

pub open spec fn acts_of(v: Seq<CombineAct>) -> Seq<CombineActView> {
    v.map_values(|a: CombineAct| a@)
}

// ---- what is combined ----

/// The recorded path, or else the one found.
pub open spec fn either(recorded: Option<Seq<char>>, found: Option<Seq<char>>) -> Option<
    Seq<char>,
> {
    match recorded {
        Some(p) => Some(p),
        None => found,
    }
}

/// The workbook, the document and the slides to combine.
pub struct Sources {
    pub xlsx: String,
    pub docx: String,
    pub pptx: String,
}

/// The sources, where all three are there: as the session recorded them, or as they were found.
pub open spec fn sources_of(recorded: Option<ArtifactsView>, found: ArtifactsView) -> Option<
    (Seq<char>, Seq<char>, Seq<char>),
> {
    let known = match recorded {
        Some(r) => r,
        None => found,
    };
    match (
        either(known.xlsx, found.xlsx),
        either(known.docx, found.docx),
        either(known.pptx, found.pptx),
    ) {
        (Some(x), Some(d), Some(p)) => Some((x, d, p)),
        _ => None,
    }
}

pub open spec fn recorded_in(a: Option<SessionArtifacts>) -> Option<ArtifactsView> {
    match a {
        Some(x) => Some(x@),
        None => None,
    }
}

fn pick(recorded: &Option<String>, found: &Option<String>) -> (r: Option<String>)
    ensures
        pieces::text_in(r) == either(pieces::text_in(*recorded), pieces::text_in(*found)),
{
    match recorded {
        Some(p) => Some(p.clone()),
        None => pieces::copy_text(found),
    }
}

/// What to combine. `recorded` is what the session knows, `found` the newest files of its
/// directory; `None` means that the deck has to be built first.
pub fn sources(recorded: &Option<SessionArtifacts>, found: &SessionArtifacts) -> (r: Option<
    Sources,
>)
    ensures
        match r {
            Some(s) => sources_of(recorded_in(*recorded), found@) == Some(
                (s.xlsx@, s.docx@, s.pptx@),
            ),
            None => sources_of(recorded_in(*recorded), found@) is None,
        },
{
    let known = match recorded {
        Some(a) => a,
        None => found,
    };
    let xlsx = pick(&known.xlsx, &found.xlsx);
    let docx = pick(&known.docx, &found.docx);
    let pptx = pick(&known.pptx, &found.pptx);
    match (xlsx, docx, pptx) {
        (Some(xlsx), Some(docx), Some(pptx)) => Some(Sources { xlsx, docx, pptx }),
        _ => None,
    }
}

/// What the user is told where a source is missing.
pub fn missing_message() -> (r: &'static str)
    ensures
        r@ == "Missing deck artifacts — run a deck intent first"@,
{
    "Missing deck artifacts — run a deck intent first"
}

pub open spec fn combine_prompt(
    intent: Seq<char>,
    dir: Seq<char>,
    xlsx: Seq<char>,
    docx: Seq<char>,
    pptx: Seq<char>,
) -> Seq<char> {
    intent + "\n\n[Save files to: "@ + dir + "/]\n[Artifacts]\npptx: "@ + pptx
        + "\n[Sibling sources]\nxlsx: "@ + xlsx + "\ndocx: "@ + docx
        + "\nMerge excel numbers and docs narrative into the slides deck."@
}

/// What the agent that combines is told.
pub fn prompt(intent: &str, dir: &str, sources: &Sources) -> (r: String)
    ensures
        r@ == combine_prompt(intent@, dir@, sources.xlsx@, sources.docx@, sources.pptx@),
{
    let mut s = intent.to_string();
    s.append("\n\n[Save files to: ");
    s.append(dir);
    s.append("/]\n[Artifacts]\npptx: ");
    s.append(sources.pptx.as_str());
    s.append("\n[Sibling sources]\nxlsx: ");
    s.append(sources.xlsx.as_str());
    s.append("\ndocx: ");
    s.append(sources.docx.as_str());
    s.append("\nMerge excel numbers and docs narrative into the slides deck.");
    s
}

/// What opens a combination: the client moves its cards, and the agent runs where all three sources
/// are there. Where one is missing the client is told so, and that is all.
pub open spec fn start_acts(
    intent: Seq<char>,
    dir: Seq<char>,
    recorded: Option<ArtifactsView>,
    found: ArtifactsView,
) -> Seq<CombineActView> {
    match sources_of(recorded, found) {
        Some((xlsx, docx, pptx)) => seq![
            CombineActView::SendConduct { steps: conduct() },
            CombineActView::RunAgent { prompt: combine_prompt(intent, dir, xlsx, docx, pptx) },
        ],
        None => seq![
            CombineActView::SendConduct { steps: conduct() },
            CombineActView::SendError {
                message: "Missing deck artifacts — run a deck intent first"@,
            },
            CombineActView::SendDone,
        ],
    }
}

/// Opens a combination on what the session recorded and on the newest files of its directory.
pub fn start(
    intent: &str,
    dir: &str,
    recorded: &Option<SessionArtifacts>,
    found: &SessionArtifacts,
) -> (r: Vec<CombineAct>)
    ensures
        acts_of(r@) == start_acts(intent@, dir@, recorded_in(*recorded), found@),
{
    let ghost want = start_acts(intent@, dir@, recorded_in(*recorded), found@);
    let opened = CombineAct::SendConduct { steps: deck_conduct_steps() };
    assert(opened@ == want[0]);
    match sources(recorded, found) {
        Some(s) => {
            let r = vec![opened, CombineAct::RunAgent { prompt: prompt(intent, dir, &s) }];
            assert(acts_of(r@) =~= want);
            r
        },
        None => {
            let r = vec![
                opened,
                CombineAct::SendError { message: missing_message() },
                CombineAct::SendDone,
            ];
            assert(acts_of(r@) =~= want);
            r
        },
    }
}

/// The act lets the agent work or changes what the session keeps.
pub open spec fn changes(act: CombineActView) -> bool {
    act is RunAgent || act is PinCard || act is StoreArtifacts
}

/// Where a source is missing, the client is told to build the deck first, nothing runs and nothing
/// that the session keeps changes; where none is missing, the agent runs.
pub proof fn law_missing_sources_change_nothing(
    intent: Seq<char>,
    dir: Seq<char>,
    recorded: Option<ArtifactsView>,
    found: ArtifactsView,
)
    ensures
        ({
            let acts = start_acts(intent, dir, recorded, found);
            let told = CombineActView::SendError {
                message: "Missing deck artifacts — run a deck intent first"@,
            };
            &&& sources_of(recorded, found) is None <==> acts.contains(told)
            &&& sources_of(recorded, found) is None <==> acts.contains(CombineActView::SendDone)
            &&& sources_of(recorded, found) is None <==> forall|k: int|
                0 <= k < acts.len() ==> !changes(#[trigger] acts[k])
        }),
{
    let acts = start_acts(intent, dir, recorded, found);
    if sources_of(recorded, found) is None {
        assert(acts[1] is SendError);
        assert(acts[2] is SendDone);
    } else {
        assert(changes(acts[1]));
    }
}

// ---- how many slides ----

/// A word that can be a number of slides.
pub open spec fn slide_word(w: Seq<char>) -> Option<u32> {
    match number::number(w) {
        Some(n) => if 1 <= n <= 50 {
            Some(n)
        } else {
            None
        },
        None => None,
    }
}

/// The first word that can be a number of slides.
pub open spec fn first_slide_word(words: Seq<Seq<char>>) -> Option<u32>
    decreases words.len(),
{
    if words.len() == 0 {
        None
    } else {
        match slide_word(words[0]) {
            Some(n) => Some(n),
            None => first_slide_word(words.skip(1)),
        }
    }
}

/// The number of slides in an answer: what the JSON members `slide_count`, or else `slides`, say
/// where that is an unsigned number, or the first word that can be one.
pub open spec fn slides_said(
    slide_count: Option<Option<u64>>,
    slides: Option<Option<u64>>,
    output: Seq<char>,
) -> Option<u32> {
    let member = match slide_count {
        Some(m) => m,
        None => match slides {
            Some(m) => m,
            None => None,
        },
    };
    match member {
        Some(n) => Some(n as u32),
        None => first_slide_word(pieces::words(output)),
    }
}

pub open spec fn output_text(r: ResponseView) -> Seq<char> {
    match r.output {
        Some(o) => o,
        None => Seq::empty(),
    }
}

fn word_count(words: &Vec<Vec<char>>) -> (r: Option<u32>)
    ensures
        r == first_slide_word(pieces::texts(words@)),
{
    let ghost all = pieces::texts(words@);
    let mut i: usize = 0;
    assert(all.skip(0) =~= all);
    while i < words.len()
        invariant
            i <= words.len(),
            all == pieces::texts(words@),
            first_slide_word(all) == first_slide_word(all.skip(i as int)),
        decreases words.len() - i,
    {
        assert(all.skip(i as int)[0] == words@[i as int]@);
        assert(all.skip(i as int).skip(1) =~= all.skip(i + 1));
        match number::parse_u32(&words[i]) {
            Some(n) => if 1 <= n && n <= 50 {
                return Some(n);
            },
            None => {},
        }
        i += 1;
    }
    None
}

/// The number of slides from what the JSON members say.
pub fn slide_count_from(
    slide_count: Option<Option<u64>>,
    slides: Option<Option<u64>>,
    output: &str,
) -> (r: Option<u32>)
    ensures
        r == slides_said(slide_count, slides, output@),
{
    let member = match slide_count {
        Some(m) => m,
        None => match slides {
            Some(m) => m,
            None => None,
        },
    };
    match member {
        Some(n) => Some(#[verifier::truncate] (n as u32)),
        None => word_count(&pieces::split_words(&chars::chars_of(output))),
    }
}

/// The number of slides that a tool's answer speaks of.
pub fn parse_slide_count(response: &ToolResponse) -> (r: Option<u32>)
    ensures
        ({
            let o = output_text(response@);
            r == slides_said(
                json::json_unsigned(o, "slide_count"@),
                json::json_unsigned(o, "slides"@),
                o,
            )
        }),
{
    let output = match &response.output {
        Some(o) => o.clone(),
        None => String::new(),
    };
    assert(output@ =~= output_text(response@));
    slide_count_from(
        json::member_unsigned(output.as_str(), "slide_count"),
        json::member_unsigned(output.as_str(), "slides"),
        output.as_str(),
    )
}

// ---- the run ----

/// The state of a running combination.
pub struct CombineRun {
    pub slide_count: Option<u32>,
    /// Where the combined slides were saved.
    pub path: Option<String>,
}

/// A part of an event that answers for `tool`.
pub open spec fn answers(author: Seq<char>, p: PartView, tool: Seq<char>) -> bool {
    author == "combine_agent"@ && (p matches PartView::Response { name, .. } && name == tool)
}

pub open spec fn response_in(p: PartView) -> ResponseView {
    p->response
}

/// The number of slides after an answer that speaks of `said`.
pub open spec fn latest(said: Option<u32>, before: Option<u32>) -> Option<u32> {
    match said {
        Some(n) => Some(n),
        None => before,
    }
}

/// The number of slides after a part of an event: what the description of the slides says.
pub open spec fn counted(before: Option<u32>, author: Seq<char>, p: PartView) -> Option<u32> {
    if answers(author, p, "describe_presentation"@) {
        let o = output_text(response_in(p));
        latest(
            slides_said(
                json::json_unsigned(o, "slide_count"@),
                json::json_unsigned(o, "slides"@),
                o,
            ),
            before,
        )
    } else {
        before
    }
}

/// What a part of an event says of where the slides were saved, where it reports that they were.
pub open spec fn reported(author: Seq<char>, p: PartView) -> Option<Option<Seq<char>>> {
    if answers(author, p, "save_presentation"@) {
        Some(artifacts::saved_text(response_in(p)))
    } else {
        None
    }
}

/// The artifacts with the combined slides, where they were saved.
pub open spec fn with_combined(path: Option<Seq<char>>, found: ArtifactsView) -> Option<
    ArtifactsView,
> {
    match path {
        Some(p) => Some(ArtifactsView { combined_pptx: Some(p), ..found }),
        None => None,
    }
}

impl CombineRun {
    pub fn new() -> (r: Self)
        ensures
            r.slide_count is None,
            r.path is None,
    {
        CombineRun { slide_count: None, path: None }
    }

    /// Take one part of an event in. Where it reports the saved slides, what it says of the place
    /// comes back.
    pub fn on_part(&mut self, author: &str, part: &Part) -> (r: Option<Option<String>>)
        ensures
            final(self).slide_count == counted(old(self).slide_count, author@, part@),
            final(self).path == old(self).path,
            artifacts::member_in(r) == reported(author@, part@),
    {
        if !chars::same(author, "combine_agent") {
            return None;
        }
        match part {
            Part::Response { name, response } => {
                if chars::same(name.as_str(), "describe_presentation") {
                    match parse_slide_count(response) {
                        Some(n) => {
                            self.slide_count = Some(n);
                        },
                        None => {},
                    }
                }
                if chars::same(name.as_str(), "save_presentation") {
                    Some(artifacts::saved_output(response))
                } else {
                    None
                }
            },
            _ => None,
        }
    }

    /// The slides were saved: where the tool said, or else at the newest file found.
    pub fn saved(&mut self, said: Option<String>, newest: Option<String>)
        ensures
            final(self).slide_count == old(self).slide_count,
            pieces::text_in(final(self).path) == either(
                pieces::text_in(said),
                pieces::text_in(newest),
            ),
    {
        self.path = match said {
            Some(p) => Some(p),
            None => newest,
        };
    }

    /// The agent is done; where it never saved, the newest file found stands in.
    pub fn settle(&mut self, newest: Option<String>)
        ensures
            final(self).slide_count == old(self).slide_count,
            pieces::text_in(final(self).path) == either(
                pieces::text_in(old(self).path),
                pieces::text_in(newest),
            ),
    {
        if self.path.is_none() {
            self.path = newest;
        }
    }

    /// How many slides the finished deck is said to have.
    pub fn slides(&self) -> (r: u32)
        ensures
            r == slides_or_ten(self.slide_count),
    {
        match self.slide_count {
            Some(n) => n,
            None => 10,
        }
    }

    /// The line under the headline of the finished deck.
    pub fn sub(&self) -> (r: String)
        ensures
            r@ == combined_sub(slides_or_ten(self.slide_count)),
    {
        let mut s = chars::text_of(&number::digits(self.slides() as u64));
        s.append(" slides · numbers + story combined");
        s
    }

    /// What the slides card is pinned with.
    pub fn pinned(&self, url: Option<String>) -> (r: Resolve)
        ensures
            r@ == combined_card(slides_or_ten(self.slide_count), pieces::text_in(url)),
    {
        let r = Resolve {
            big: Some("Deck ready".to_string()),
            sub: Some(self.sub()),
            lines: None,
            actions: vec!["Save deck", "Present"],
            artifact_url: url,
        };
        assert(r@.actions =~= seq!["Save deck"@, "Present"@]);
        r
    }

    /// The artifacts of the session once the deck is combined: the newest files, and the combined
    /// slides; `None` where nothing was combined.
    pub fn updated(&self, found: SessionArtifacts) -> (r: Option<SessionArtifacts>)
        ensures
            recorded_in(r) == with_combined(pieces::text_in(self.path), found@),
    {
        match &self.path {
            Some(p) => {
                let mut a = found;
                a.combined_pptx = Some(p.clone());
                Some(a)
            },
            None => None,
        }
    }

    /// The run is over: the slides can be had at `url`, and `found` are the newest files.
    pub fn finish(&self, url: Option<String>, found: SessionArtifacts) -> (r: Vec<CombineAct>)
        ensures
            acts_of(r@) == finish_acts(
                slides_or_ten(self.slide_count),
                pieces::text_in(self.path),
                pieces::text_in(url),
                found@,
            ),
    {
        let ghost want = finish_acts(
            slides_or_ten(self.slide_count),
            pieces::text_in(self.path),
            pieces::text_in(url),
            found@,
        );
        let card = Card {
            glyph: "🖼️",
            title: "Auto-Slides",
            agent: "auto-slides",
            surface: Some("slides"),
            attention: false,
            waits_for: None,
            stream: Vec::new(),
        };
        assert(card@ =~= slides_card());
        let mut r = vec![
            CombineAct::SendFinish {
                big: "Deck ready",
                sub: self.sub(),
                artifact_url: pieces::copy_text(&url),
                slide_count: self.slides(),
            },
            CombineAct::PinCard { index: 2, card, resolve: self.pinned(url) },
        ];
        match self.updated(found) {
            Some(artifacts) => r.push(CombineAct::StoreArtifacts { artifacts }),
            None => {},
        }
        r.push(CombineAct::Wait { millis: 300 });
        r.push(CombineAct::Tour);
        r.push(CombineAct::SendDone);
        assert(acts_of(r@) =~= want);
        r
    }
}

pub open spec fn slides_or_ten(n: Option<u32>) -> u32 {
    match n {
        Some(n) => n,
        None => 10,
    }
}

pub open spec fn combined_sub(n: u32) -> Seq<char> {
    number::decimal(n as nat) + " slides · numbers + story combined"@
}

pub open spec fn combined_card(n: u32, url: Option<Seq<char>>) -> ResolveView {
    card::headline_resolve(
        "Deck ready"@,
        combined_sub(n),
        seq!["Save deck"@, "Present"@],
        url,
    )
}

/// The card of the combined slides.
pub open spec fn slides_card() -> CardView {
    CardView {
        glyph: "🖼️"@,
        title: "Auto-Slides"@,
        agent: "auto-slides"@,
        surface: Some("slides"@),
        attention: false,
        waits_for: None,
        stream: Seq::empty(),
    }
}

/// What closes a combination that saved at `path`: the client is told, the slides card is pinned,
/// the session keeps the artifacts where slides were saved, and the tour goes on.
pub open spec fn finish_acts(
    n: u32,
    path: Option<Seq<char>>,
    url: Option<Seq<char>>,
    found: ArtifactsView,
) -> Seq<CombineActView> {
    seq![
        CombineActView::SendFinish {
            big: "Deck ready"@,
            sub: combined_sub(n),
            artifact_url: url,
            slide_count: n,
        },
        CombineActView::PinCard { index: 2, card: slides_card(), resolve: combined_card(n, url) },
    ] + (match path {
        Some(p) => seq![
            CombineActView::StoreArtifacts {
                artifacts: ArtifactsView { combined_pptx: Some(p), ..found },
            },
        ],
        None => Seq::empty(),
    }) + seq![
        CombineActView::Wait { millis: 300 },
        CombineActView::Tour,
        CombineActView::SendDone,
    ]
}

/// The scenario that the tour goes on from.
pub fn tour_scenario(scenario: &Option<String>) -> (r: String)
    ensures
        r@ == (match *scenario {
            Some(s) => s@,
            None => "deck"@,
        }),
{
    match scenario {
        Some(s) => s.clone(),
        None => "deck".to_string(),
    }
}

} // verus!
