//! The pitch deck: a workbook, a document, and the slides made of both.

use vstd::prelude::*;

use crate::orchestrator::artifacts;
use crate::orchestrator::artifacts::Found;
use crate::orchestrator::artifacts::FoundView;
use crate::orchestrator::card;
use crate::orchestrator::card::Card;
use crate::orchestrator::card::CardView;
use crate::orchestrator::card::Resolve;
use crate::orchestrator::card::ResolveView;
use crate::orchestrator::workflow;
use crate::orchestrator::workflow::Act;
use crate::orchestrator::workflow::ActView;
use crate::orchestrator::workflow::Part;
use crate::orchestrator::workflow::PartView;
use crate::text::chars;
use crate::text::pieces;

verus! {

pub open spec fn the_cards() -> Seq<CardView> {
    seq![
        CardView {
            glyph: "📊"@,
            title: "Auto-Excel"@,
            agent: "auto-excel"@,
            surface: Some("excel"@),
            attention: false,
            waits_for: None,
            stream: seq!["Pulling Q3 numbers…"@, "Building the revenue chart…"@],
        },
        CardView {
            glyph: "📝"@,
            title: "Auto-Docs"@,
            agent: "auto-docs"@,
            surface: Some("docs"@),
            attention: false,
            waits_for: None,
            stream: seq!["Drafting the narrative…"@, "Tightening the story…"@],
        },
        CardView {
            glyph: "🖼️"@,
            title: "Auto-Slides"@,
            agent: "auto-slides"@,
            surface: Some("slides"@),
            attention: false,
            waits_for: Some(2),
            stream: seq!["Waiting for numbers & story…"@],
        },
    ]
}

pub fn deck_cards() -> (r: Vec<Card>)
    ensures
        card::cards_of(r@) == the_cards(),
{
    let a = Card {
        glyph: "📊",
        title: "Auto-Excel",
        agent: "auto-excel",
        surface: Some("excel"),
        attention: false,
        waits_for: None,
        stream: vec!["Pulling Q3 numbers…", "Building the revenue chart…"],
    };
    let b = Card {
        glyph: "📝",
        title: "Auto-Docs",
        agent: "auto-docs",
        surface: Some("docs"),
        attention: false,
        waits_for: None,
        stream: vec!["Drafting the narrative…", "Tightening the story…"],
    };
    let c = Card {
        glyph: "🖼️",
        title: "Auto-Slides",
        agent: "auto-slides",
        surface: Some("slides"),
        attention: false,
        waits_for: Some(2),
        stream: vec!["Waiting for numbers & story…"],
    };
    assert(a@ == the_cards()[0]);
    assert(b@ == the_cards()[1]);
    assert(c@ == the_cards()[2]);
    vec![a, b, c]
}

/// The card that an agent of the deck fills.
pub open spec fn index_of(author: Seq<char>) -> Option<usize> {
    if author == "excel_agent"@ {
        Some(0)
    } else if author == "docs_agent"@ {
        Some(1)
    } else if author == "slides_agent"@ {
        Some(2)
    } else {
        None
    }
}

pub fn card_index(author: &str) -> (r: Option<usize>)
    ensures
        r == index_of(author@),
{
    if chars::same(author, "excel_agent") {
        Some(0)
    } else if chars::same(author, "docs_agent") {
        Some(1)
    } else if chars::same(author, "slides_agent") {
        Some(2)
    } else {
        None
    }
}

/// The status line that a tool shows.
pub open spec fn line_for(tool: Seq<char>) -> Seq<char> {
    if tool == "create_workbook"@ || tool == "open_workbook"@ {
        "Pulling Q3 numbers…"@
    } else if tool == "write_cells"@ || tool == "write_column"@ || tool == "write_row"@ || tool
        == "add_chart"@ {
        "Building the revenue chart…"@
    } else if tool == "save_workbook"@ {
        "Revenue model ready…"@
    } else if tool == "create_document"@ {
        "Drafting the narrative…"@
    } else if tool == "insert_paragraph"@ {
        "Tightening the story…"@
    } else if tool == "save_document"@ {
        "Story ready…"@
    } else if tool == "create_presentation"@ {
        "Composing slides…"@
    } else if tool == "add_slide"@ {
        "Adding slide…"@
    } else if tool == "save_presentation"@ {
        "Deck ready…"@
    } else {
        "Working…"@
    }
}

pub fn status_line(tool: &str) -> (r: &'static str)
    ensures
        r@ == line_for(tool@),
{
    if chars::same(tool, "create_workbook") || chars::same(tool, "open_workbook") {
        "Pulling Q3 numbers…"
    } else if chars::same(tool, "write_cells") || chars::same(tool, "write_column") || chars::same(
        tool,
        "write_row",
    ) || chars::same(tool, "add_chart") {
        "Building the revenue chart…"
    } else if chars::same(tool, "save_workbook") {
        "Revenue model ready…"
    } else if chars::same(tool, "create_document") {
        "Drafting the narrative…"
    } else if chars::same(tool, "insert_paragraph") {
        "Tightening the story…"
    } else if chars::same(tool, "save_document") {
        "Story ready…"
    } else if chars::same(tool, "create_presentation") {
        "Composing slides…"
    } else if chars::same(tool, "add_slide") {
        "Adding slide…"
    } else if chars::same(tool, "save_presentation") {
        "Deck ready…"
    } else {
        "Working…"
    }
}

/// The extension of what a tool saves, where it saves.
pub open spec fn saved_extension(tool: Seq<char>) -> Option<Seq<char>> {
    if tool == "save_workbook"@ {
        Some("xlsx"@)
    } else if tool == "save_document"@ {
        Some("docx"@)
    } else if tool == "save_presentation"@ {
        Some("pptx"@)
    } else {
        None
    }
}

fn extension_of(tool: &str) -> (r: Option<&'static str>)
    ensures
        match r {
            Some(e) => saved_extension(tool@) == Some(e@),
            None => saved_extension(tool@) is None,
        },
{
    if chars::same(tool, "save_workbook") {
        Some("xlsx")
    } else if chars::same(tool, "save_document") {
        Some("docx")
    } else if chars::same(tool, "save_presentation") {
        Some("pptx")
    } else {
        None
    }
}

/// What a part of an event asks the driver for.
pub enum DeckAct {
    Status { index: usize, line: &'static str },
    /// Show how far the slides are.
    Surface { index: usize, slide: u32, total: u32 },
    /// A file was saved: `output` says where, and the newest file with `extension` stands in
    /// where it does not.
    Save { index: usize, output: Option<String>, extension: &'static str },
}

#[verifier::ext_equal]
pub enum DeckActView {
    Status { index: int, line: Seq<char> },
    Surface { index: int, slide: u32, total: u32 },
    Save { index: int, output: Option<Seq<char>>, extension: Seq<char> },
}

impl View for DeckAct {
    type V = DeckActView;

    open spec fn view(&self) -> DeckActView {
        match self {
            DeckAct::Status { index, line } => DeckActView::Status {
                index: *index as int,
                line: line@,
            },
            DeckAct::Surface { index, slide, total } => DeckActView::Surface {
                index: *index as int,
                slide: *slide,
                total: *total,
            },
            DeckAct::Save { index, output, extension } => DeckActView::Save {
                index: *index as int,
                output: pieces::text_in(*output),
                extension: extension@,
            },
        }
    }
}

pub open spec fn acts_of(v: Seq<DeckAct>) -> Seq<DeckActView> {
    v.map_values(|a: DeckAct| a@)
}

/// The state of a running deck.
pub struct DeckRun {
    /// The cards of which a file was saved.
    pub resolved: [bool; 3],
    pub slides: u32,
}

/// The slides agent adds a slide.
pub open spec fn adds_slide(author: Seq<char>, p: PartView) -> bool {
    index_of(author) == Some(2usize) && p == (PartView::Call { name: "add_slide"@ })
}

/// What a part of an event of `author` asks for, when `slides` slides were added before.
pub open spec fn part_acts(slides: u32, author: Seq<char>, p: PartView) -> Seq<DeckActView> {
    match index_of(author) {
        Some(i) => match p {
            PartView::Call { name } => {
                let shown = seq![DeckActView::Status { index: i as int, line: line_for(name) }];
                if adds_slide(author, p) {
                    shown.push(
                        DeckActView::Surface {
                            index: i as int,
                            slide: (slides + 1) as u32,
                            total: 10,
                        },
                    )
                } else {
                    shown
                }
            },
            PartView::Response { name, response } => match saved_extension(name) {
                Some(e) => seq![
                    DeckActView::Save {
                        index: i as int,
                        output: artifacts::saved_text(response),
                        extension: e,
                    },
                ],
                None => Seq::empty(),
            },
            _ => Seq::empty(),
        },
        None => Seq::empty(),
    }
}

/// The actions of a card: the slides can be presented.
pub open spec fn actions_of(index: int) -> Seq<Seq<char>> {
    if index == 2 {
        seq!["Save deck"@, "Present"@]
    } else {
        seq!["Save"@, "Open"@]
    }
}

/// What card `index` resolves to with this label and link.
pub open spec fn saved_card(
    index: int,
    big: Seq<char>,
    sub: Seq<char>,
    url: Option<Seq<char>>,
) -> ResolveView {
    card::headline_resolve(big, sub, actions_of(index), url)
}

/// The extension of the file behind a card.
pub open spec fn card_extension(index: int) -> Seq<char> {
    if index == 0 {
        "xlsx"@
    } else if index == 1 {
        "docx"@
    } else {
        "pptx"@
    }
}

/// The cards below `n` of which no file was saved but for which one is found, each with the newest
/// of its files.
pub open spec fn left_cards(resolved: Seq<bool>, files: Seq<FoundView>, n: int) -> Seq<
    (usize, Seq<char>),
>
    decreases n,
{
    if n <= 0 {
        Seq::empty()
    } else {
        let before = left_cards(resolved, files, n - 1);
        match artifacts::newest_path(files, card_extension(n - 1)) {
            Some(path) => if resolved[n - 1] {
                before
            } else {
                before.push(((n - 1) as usize, path))
            },
            None => before,
        }
    }
}

pub open spec fn pairs_of(v: Seq<(usize, String)>) -> Seq<(usize, Seq<char>)> {
    v.map_values(|p: (usize, String)| (p.0, p.1@))
}

/// Which cards are resolved once a file was saved for each of `saves`, in this order.
pub open spec fn resolved_by(saves: Seq<usize>) -> Seq<bool>
    decreases saves.len(),
{
    if saves.len() == 0 {
        seq![false, false, false]
    } else {
        resolved_by(saves.drop_last()).update(saves.last() as int, true)
    }
}

impl DeckRun {
    pub fn new() -> (r: Self)
        ensures
            r.slides == 0,
            r.resolved@ == resolved_by(Seq::empty()),
    {
        let r = DeckRun { resolved: [false, false, false], slides: 0 };
        assert(r.resolved@ =~= resolved_by(Seq::empty()));
        r
    }

    /// Take one part of an event in and say what it asks for.
    pub fn on_part(&mut self, author: &str, part: &Part) -> (r: Vec<DeckAct>)
        requires
            adds_slide(author@, part@) ==> old(self).slides < u32::MAX,
        ensures
            acts_of(r@) == part_acts(old(self).slides, author@, part@),
            final(self).resolved == old(self).resolved,
            final(self).slides == (if adds_slide(author@, part@) {
                old(self).slides + 1
            } else {
                old(self).slides as int
            }),
    {
        let mut out: Vec<DeckAct> = Vec::new();
        assert(acts_of(out@) =~= Seq::empty());
        let ghost slides = self.slides;
        let index = match card_index(author) {
            Some(i) => i,
            None => return out,
        };
        match part {
            Part::Call { name } => {
                let line = status_line(name.as_str());
                out.push(DeckAct::Status { index, line });
                assert(acts_of(out@) =~= seq![
                    DeckActView::Status { index: index as int, line: line_for(name@) },
                ]);
                if index == 2 && chars::same(name.as_str(), "add_slide") {
                    assert(part@ == (PartView::Call { name: "add_slide"@ }));
                    self.slides = self.slides + 1;
                    let ghost o = out@;
                    let a = DeckAct::Surface { index, slide: self.slides, total: 10 };
                    out.push(a);
                    assert(acts_of(out@) =~= acts_of(o).push(a@));
                }
            },
            Part::Response { name, response } => match extension_of(name.as_str()) {
                Some(extension) => {
                    let a = DeckAct::Save {
                        index,
                        output: artifacts::saved_output(response),
                        extension,
                    };
                    out.push(a);
                    assert(acts_of(out@) =~= seq![a@]);
                },
                None => {},
            },
            _ => {},
        }
        out
    }

    /// A card resolves to a saved file with this label and link.
    pub fn saved(&mut self, index: usize, label: (String, String), url: Option<String>) -> (r:
        Resolve)
        requires
            index < 3,
        ensures
            final(self).resolved@ == old(self).resolved@.update(index as int, true),
            final(self).slides == old(self).slides,
            r@ == saved_card(index as int, label.0@, label.1@, pieces::text_in(url)),
    {
        self.resolved[index] = true;
        let (big, sub) = label;
        let actions = if index == 2 {
            vec!["Save deck", "Present"]
        } else {
            vec!["Save", "Open"]
        };
        assert(pieces::slices(actions@) =~= actions_of(index as int));
        Resolve { big: Some(big), sub: Some(sub), lines: None, actions, artifact_url: url }
    }

    /// The stream is over: the cards that no saved file resolved, each with the newest of its
    /// files, as far as there is one.
    pub fn close(&self, files: &Vec<Found>) -> (r: Vec<(usize, String)>)
        ensures
            pairs_of(r@) == left_cards(self.resolved@, artifacts::files_of(files@), 3),
    {
        let ghost all = artifacts::files_of(files@);
        let mut out: Vec<(usize, String)> = Vec::new();
        let mut i: usize = 0;
        assert(pairs_of(out@) =~= left_cards(self.resolved@, all, 0));
        while i < 3
            invariant
                i <= 3,
                all == artifacts::files_of(files@),
                pairs_of(out@) == left_cards(self.resolved@, all, i as int),
            decreases 3 - i,
        {
            let ext = if i == 0 {
                "xlsx"
            } else if i == 1 {
                "docx"
            } else {
                "pptx"
            };
            if !self.resolved[i] {
                match artifacts::find_newest_artifact(files, ext) {
                    Some(path) => {
                        let ghost o = out@;
                        let ghost shown = path@;
                        out.push((i, path));
                        assert(pairs_of(out@) =~= pairs_of(o).push((i, shown)));
                    },
                    None => {},
                }
            }
            i += 1;
        }
        out
    }
}

/// The slides that `acts` show.
pub open spec fn surfaces(acts: Seq<DeckActView>) -> Seq<u32>
    decreases acts.len(),
{
    if acts.len() == 0 {
        Seq::empty()
    } else {
        match acts.last() {
            DeckActView::Surface { slide, .. } => surfaces(acts.drop_last()).push(slide),
            _ => surfaces(acts.drop_last()),
        }
    }
}

/// How many slides the parts add, each with its author.
pub open spec fn slides_in(ps: Seq<(Seq<char>, PartView)>) -> nat
    decreases ps.len(),
{
    if ps.len() == 0 {
        0
    } else {
        slides_in(ps.drop_last()) + (if adds_slide(ps.last().0, ps.last().1) {
            1nat
        } else {
            0
        })
    }
}

/// What the parts ask for, in order.
pub open spec fn parts_acts(ps: Seq<(Seq<char>, PartView)>) -> Seq<DeckActView>
    decreases ps.len(),
{
    if ps.len() == 0 {
        Seq::empty()
    } else {
        let init = ps.drop_last();
        parts_acts(init) + part_acts(slides_in(init) as u32, ps.last().0, ps.last().1)
    }
}

proof fn lemma_surfaces_concat(a: Seq<DeckActView>, b: Seq<DeckActView>)
    ensures
        surfaces(a + b) == surfaces(a) + surfaces(b),
    decreases b.len(),
{
    if b.len() == 0 {
        assert(a + b =~= a);
        assert(surfaces(a) + surfaces(b) =~= surfaces(a));
    } else {
        lemma_surfaces_concat(a, b.drop_last());
        assert((a + b).drop_last() =~= a + b.drop_last());
        assert(surfaces(a + b) =~= surfaces(a) + surfaces(b));
    }
}

/// The client is shown the slides as one, two, three and so on, one for each that is added.
pub proof fn law_slides_are_counted(ps: Seq<(Seq<char>, PartView)>)
    requires
        slides_in(ps) <= u32::MAX,
    ensures
        surfaces(parts_acts(ps)) == Seq::new(slides_in(ps), |i: int| (i + 1) as u32),
    decreases ps.len(),
{
    if ps.len() > 0 {
        let init = ps.drop_last();
        let (author, p) = ps.last();
        law_slides_are_counted(init);
        let k = slides_in(init) as u32;
        let acts = part_acts(k, author, p);
        lemma_surfaces_concat(parts_acts(init), acts);
        reveal_with_fuel(surfaces, 3);
        if adds_slide(author, p) {
            let shown = DeckActView::Status { index: 2, line: line_for("add_slide"@) };
            let next = DeckActView::Surface { index: 2, slide: (k + 1) as u32, total: 10 };
            assert(acts =~= seq![shown, next]);
            assert(acts.drop_last() =~= seq![shown]);
            assert(acts.drop_last().drop_last() =~= Seq::empty());
            assert(surfaces(acts) =~= seq![(k + 1) as u32]);
        } else {
            assert(acts.len() <= 1);
            if acts.len() == 1 {
                assert(acts.drop_last() =~= Seq::empty());
            }
            assert(surfaces(acts) =~= Seq::empty());
        }
        assert(surfaces(parts_acts(ps)) =~= Seq::new(slides_in(ps), |i: int| (i + 1) as u32));
    } else {
        assert(surfaces(parts_acts(ps)) =~= Seq::new(slides_in(ps), |i: int| (i + 1) as u32));
    }
}

/// What is left to resolve at the end is a card without a saved file, with the newest of its
/// files, and no card twice.
pub proof fn law_left_cards(resolved: Seq<bool>, files: Seq<FoundView>, n: int)
    requires
        0 <= n <= 3,
    ensures
        forall|i: usize, path: Seq<char>| #[trigger]
            left_cards(resolved, files, n).contains((i, path)) <==> i < n && !resolved[i as int]
                && artifacts::newest_path(files, card_extension(i as int)) == Some(path),
        forall|k: int, l: int|
            0 <= k < l < left_cards(resolved, files, n).len() ==> (
            #[trigger] left_cards(resolved, files, n)[k]).0 < (#[trigger] left_cards(
                resolved,
                files,
                n,
            )[l]).0,
    decreases n,
{
    if n > 0 {
        law_left_cards(resolved, files, n - 1);
        let before = left_cards(resolved, files, n - 1);
        let after = left_cards(resolved, files, n);
        assert forall|k: int| 0 <= k < before.len() implies (#[trigger] before[k]).0 < n - 1 by {
            assert(before.contains((before[k].0, before[k].1)));
        }
        assert forall|i: usize, path: Seq<char>|
            #[trigger] after.contains((i, path)) <==> i < n && !resolved[i as int]
                && artifacts::newest_path(files, card_extension(i as int)) == Some(path) by {
            let x = (i, path);
            assert(before.contains(x) <==> i < n - 1 && !resolved[i as int]
                && artifacts::newest_path(files, card_extension(i as int)) == Some(path));
            if before.contains(x) {
                let k = choose|k: int| 0 <= k < before.len() && before[k] == x;
                assert(after[k] == x);
            }
            if after.contains(x) {
                let k = choose|k: int| 0 <= k < after.len() && after[k] == x;
                if k < before.len() {
                    assert(before[k] == x);
                }
            }
            if i == n - 1 && after.len() > before.len() {
                assert(after[before.len() as int] == after.last());
            }
        }
    }
}

/// Over a whole run a card is resolved, when a file of it is saved or at the end, exactly when a
/// file of it was saved or one with its extension is found at the end.
pub proof fn law_every_card_with_a_file_is_resolved(
    saves: Seq<usize>,
    files: Seq<FoundView>,
    i: usize,
)
    requires
        i < 3,
        forall|k: int| 0 <= k < saves.len() ==> #[trigger] saves[k] < 3,
    ensures
        saves.contains(i) || (exists|path: Seq<char>| #[trigger]
            left_cards(resolved_by(saves), files, 3).contains((i, path))) <==> saves.contains(i)
            || (exists|k: int|
            0 <= k < files.len() && artifacts::eligible(
                #[trigger] files[k],
                card_extension(i as int),
            )),
{
    let ext = card_extension(i as int);
    lemma_resolved_by(saves);
    law_left_cards(resolved_by(saves), files, 3);
    artifacts::law_newest_is_newest(files, ext);
    if !saves.contains(i) {
        match artifacts::newest_of(files, ext) {
            Some(f) => {
                assert(left_cards(resolved_by(saves), files, 3).contains((i, f.path)));
                let k = choose|k: int| 0 <= k < files.len() && files[k] == f;
                assert(artifacts::eligible(files[k], ext));
            },
            None => {},
        }
    }
}

proof fn lemma_resolved_by(saves: Seq<usize>)
    requires
        forall|k: int| 0 <= k < saves.len() ==> #[trigger] saves[k] < 3,
    ensures
        resolved_by(saves).len() == 3,
        forall|i: usize| i < 3 ==> (#[trigger] resolved_by(saves)[i as int] <==> saves.contains(i)),
    decreases saves.len(),
{
    if saves.len() > 0 {
        let init = saves.drop_last();
        lemma_resolved_by(init);
        assert forall|i: usize| i < 3 implies (#[trigger] resolved_by(saves)[i as int]
            <==> saves.contains(i)) by {
            assert(resolved_by(init)[i as int] <==> init.contains(i));
            if init.contains(i) {
                let k = choose|k: int| 0 <= k < init.len() && init[k] == i;
                assert(saves[k] == i);
            }
            if saves.contains(i) && i != saves.last() {
                let k = choose|k: int| 0 <= k < saves.len() && saves[k] == i;
                assert(init[k] == i);
            }
            if i == saves.last() {
                assert(saves[saves.len() - 1] == i);
            }
        }
    }
}

// ---- opening, prompt and closing ----

/// What opens the deck stream.
pub fn opening(store: bool) -> (r: Vec<Act>)
    ensures
        workflow::acts_of(r@) == workflow::opening_acts(3, store),
{
    workflow::opening(3, store)
}

/// What closes the deck stream once the open cards are looked after.
pub open spec fn deck_closing(store: bool) -> Seq<ActView> {
    (if store {
        seq![ActView::StoreArtifacts]
    } else {
        Seq::empty()
    }) + workflow::closing_acts(store, false)
}

pub fn closing(store: bool) -> (r: Vec<Act>)
    ensures
        workflow::acts_of(r@) == deck_closing(store),
{
    let mut out: Vec<Act> = Vec::new();
    if store {
        out.push(Act::StoreArtifacts);
    }
    assert(workflow::acts_of(out@) =~= if store {
        seq![ActView::StoreArtifacts]
    } else {
        Seq::empty()
    });
    workflow::closing(&mut out, store, false);
    out
}

/// The files beside the deck, one a line.
pub open spec fn sibling_text(paths: Seq<Seq<char>>) -> Seq<char> {
    if paths.len() == 0 {
        "(none yet — excel and docs agents run first)"@
    } else {
        pieces::joined(paths.map_values(|p: Seq<char>| "- "@ + p), "\n"@)
    }
}

pub fn list_sibling_artifacts(paths: &Vec<String>) -> (r: String)
    ensures
        r@ == sibling_text(pieces::strings(paths@)),
{
    if paths.len() == 0 {
        return "(none yet — excel and docs agents run first)".to_string();
    }
    let ghost want = pieces::strings(paths@).map_values(|p: Seq<char>| "- "@ + p);
    let mut lines: Vec<String> = Vec::new();
    let mut i: usize = 0;
    while i < paths.len()
        invariant
            i <= paths.len(),
            want == pieces::strings(paths@).map_values(|p: Seq<char>| "- "@ + p),
            pieces::strings(lines@) == want.take(i as int),
        decreases paths.len() - i,
    {
        let mut l = "- ".to_string();
        l.append(paths[i].as_str());
        assert(l@ == want[i as int]);
        let ghost o = lines@;
        lines.push(l);
        assert(pieces::strings(lines@) =~= pieces::strings(o).push(l@));
        assert(want.take(i + 1) =~= want.take(i as int).push(l@));
        i += 1;
    }
    assert(want.take(paths.len() as int) =~= want);
    pieces::join_strings(&lines, "\n")
}

pub open spec fn deck_prompt(intent: Seq<char>, dir: Seq<char>, siblings: Seq<char>) -> Seq<char> {
    intent + "\n\n[Save files to: "@ + dir + "/]\n[Sibling artifacts]\n"@ + siblings
        + "\nBuild the pitch deck artifacts for this session."@
}

/// What the deck agents are told.
pub fn prompt(intent: &str, dir: &str, siblings: &Vec<String>) -> (r: String)
    ensures
        r@ == deck_prompt(intent@, dir@, sibling_text(pieces::strings(siblings@))),
{
    let mut s = intent.to_string();
    s.append("\n\n[Save files to: ");
    s.append(dir);
    s.append("/]\n[Sibling artifacts]\n");
    let l = list_sibling_artifacts(siblings);
    s.append(l.as_str());
    s.append("\nBuild the pitch deck artifacts for this session.");
    s
}

} // verus!
