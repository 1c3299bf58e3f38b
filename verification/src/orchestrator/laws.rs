//! What the streams promise: of files, cards, tools and agents.

use vstd::prelude::*;

use crate::orchestrator::artifacts;
use crate::orchestrator::artifacts::ArtifactsView;
use crate::orchestrator::artifacts::FoundView;
use crate::orchestrator::combine;
use crate::orchestrator::combine::CombineActView;
use crate::orchestrator::deck;
use crate::orchestrator::deck::DeckActView;
use crate::orchestrator::json;
use crate::orchestrator::morning;
use crate::orchestrator::workflow;
use crate::orchestrator::workflow::ActView;
use crate::orchestrator::workflow::EventView;
use crate::orchestrator::workflow::PartView;
use crate::orchestrator::workflow::ResponseView;
use crate::orchestrator::workflow::RunView;
use crate::orchestrator::workflow::SlotView;
use crate::text::chars;
use crate::text::number;
use crate::text::pieces;
use crate::text::scan;

verus! {

// ---- files ----

/// The file has the extension and a known time.
pub open spec fn is_dated(f: FoundView, ext: Seq<char>) -> bool {
    f.extension == Some(ext) && f.modified is Some
}

proof fn lemma_newest(files: Seq<FoundView>, ext: Seq<char>)
    ensures
        match artifacts::newest_of(files, ext) {
            Some(f) => exists|i: int|
                0 <= i < files.len() && #[trigger] files[i] == f && is_dated(files[i], ext) && (
                forall|j: int|
                    0 <= j < files.len() && is_dated(#[trigger] files[j], ext)
                        ==> files[j].modified->0 <= files[i].modified->0) && (forall|j: int|
                    0 <= j < i && is_dated(#[trigger] files[j], ext) ==> files[j].modified->0
                        < files[i].modified->0),
            None => forall|j: int| 0 <= j < files.len() ==> !is_dated(#[trigger] files[j], ext),
        },
    decreases files.len(),
{
    if files.len() > 0 {
        let init = files.drop_last();
        lemma_newest(init, ext);
        let n = files.len() - 1;
        assert(forall|j: int| 0 <= j < n ==> init[j] == files[j]);
        assert(files[n] == files.last());
        match artifacts::newest_of(init, ext) {
            Some(b) => {
                let i = choose|i: int|
                    0 <= i < init.len() && #[trigger] init[i] == b && is_dated(init[i], ext) && (
                    forall|j: int|
                        0 <= j < init.len() && is_dated(#[trigger] init[j], ext)
                            ==> init[j].modified->0 <= init[i].modified->0) && (forall|j: int|
                        0 <= j < i && is_dated(#[trigger] init[j], ext) ==> init[j].modified->0
                            < init[i].modified->0);
                assert(files[i] == b);
                assert forall|j: int| 0 <= j < n && is_dated(#[trigger] files[j], ext) implies
                    files[j].modified->0 <= b.modified->0 by {
                    assert(init[j] == files[j]);
                }
                assert forall|j: int| 0 <= j < i && is_dated(#[trigger] files[j], ext) implies
                    files[j].modified->0 < b.modified->0 by {
                    assert(init[j] == files[j]);
                }
            },
            None => {
                assert forall|j: int| 0 <= j < n implies !is_dated(#[trigger] files[j], ext) by {
                    assert(init[j] == files[j]);
                }
            },
        }
    }
}

/// The newest file with an extension is the one written last among those whose time is known, and
/// of several that are as new the first; there is none only where no such file is.
pub proof fn law_the_newest_file(files: Seq<FoundView>, ext: Seq<char>, i: int)
    requires
        0 <= i < files.len(),
        is_dated(files[i], ext),
        forall|j: int|
            0 <= j < files.len() && is_dated(#[trigger] files[j], ext) ==> files[j].modified->0
                <= files[i].modified->0,
        forall|j: int|
            0 <= j < i && is_dated(#[trigger] files[j], ext) ==> files[j].modified->0
                < files[i].modified->0,
    ensures
        artifacts::newest_path(files, ext) == Some(files[i].path),
{
    lemma_newest(files, ext);
    match artifacts::newest_of(files, ext) {
        Some(f) => {
            let k = choose|k: int|
                0 <= k < files.len() && #[trigger] files[k] == f && is_dated(files[k], ext) && (
                forall|j: int|
                    0 <= j < files.len() && is_dated(#[trigger] files[j], ext)
                        ==> files[j].modified->0 <= files[k].modified->0) && (forall|j: int|
                    0 <= j < k && is_dated(#[trigger] files[j], ext) ==> files[j].modified->0
                        < files[k].modified->0);
            if k < i {
                assert(files[k].modified->0 < files[i].modified->0);
            }
            if i < k {
                assert(files[i].modified->0 < files[k].modified->0);
            }
        },
        None => {},
    }
}

/// Without a file of the extension whose time is known there is no newest one.
pub proof fn law_no_newest_file(files: Seq<FoundView>, ext: Seq<char>)
    requires
        forall|j: int| 0 <= j < files.len() ==> !is_dated(#[trigger] files[j], ext),
    ensures
        artifacts::newest_path(files, ext) is None,
{
    lemma_newest(files, ext);
}

/// The artifacts of a session are the newest workbook, document and slides, each by its own
/// extension, and nothing combined.
pub proof fn law_artifacts_by_extension(files: Seq<FoundView>)
    ensures
        artifacts::newest_artifacts(files).xlsx == artifacts::newest_path(files, "xlsx"@),
        artifacts::newest_artifacts(files).docx == artifacts::newest_path(files, "docx"@),
        artifacts::newest_artifacts(files).pptx == artifacts::newest_path(files, "pptx"@),
        artifacts::newest_artifacts(files).combined_pptx is None,
{
}

/// The extension of a file name is what follows its last dot, where something stands before that; a
/// name without a dot, or with one at its start alone, has none.
pub proof fn law_extensions(base: Seq<char>, ext: Seq<char>)
    requires
        scan::free_of(ext, '.'),
    ensures
        base.len() > 0 ==> artifacts::extension_in(base + "."@ + ext) == Some(ext),
        artifacts::extension_in(ext) is None,
        artifacts::extension_in("."@ + ext) is None,
    decreases ext.len(),
{
    reveal_strlit(".");
    let s = base + "."@ + ext;
    let d = "."@ + ext;
    if ext.len() == 0 {
        assert(s.last() == '.');
        assert(ext =~= Seq::<char>::empty());
        assert(d =~= "."@);
    } else {
        let init = ext.drop_last();
        assert(forall|i: int| 0 <= i < init.len() ==> init[i] == ext[i]);
        law_extensions(base, init);
        assert(ext.last() == ext[ext.len() - 1]);
        assert(s.drop_last() =~= base + "."@ + init);
        assert(s.last() == ext.last());
        assert(d.drop_last() =~= "."@ + init);
        assert(d.last() == ext.last());
        assert(init.push(ext.last()) =~= ext);
    }
}

/// The name of a file is what follows its last slash.
pub proof fn law_names_follow_the_last_slash(dir: Seq<char>, name: Seq<char>)
    requires
        scan::free_of(name, '/'),
    ensures
        artifacts::last_piece(dir + "/"@ + name) == name,
        artifacts::last_piece(name) == name,
    decreases name.len(),
{
    reveal_strlit("/");
    let s = dir + "/"@ + name;
    if name.len() == 0 {
        assert(s.last() == '/');
        assert(name =~= Seq::<char>::empty());
        assert(artifacts::last_piece(name) =~= name);
    } else {
        let init = name.drop_last();
        assert(forall|i: int| 0 <= i < init.len() ==> init[i] == name[i]);
        law_names_follow_the_last_slash(dir, init);
        assert(name.last() == name[name.len() - 1]);
        assert(s.drop_last() =~= dir + "/"@ + init);
        assert(s.last() == name.last());
        assert(init.push(name.last()) =~= name);
    }
}

/// The label of a file goes by its extension: a workbook, a document and slides have their own, with
/// the name of the file, and every other file is ready.
pub proof fn law_labels_by_extension(name: Option<Seq<char>>, ext: Option<Seq<char>>)
    ensures
        ({
            let n = if name is Some {
                name->0
            } else {
                "artifact"@
            };
            let r = artifacts::label_of(name, ext);
            &&& ext == Some("xlsx"@) ==> r == ("+38% QoQ"@, "Revenue model · "@ + n)
            &&& ext == Some("docx"@) ==> r == ("1,240 words"@, "Exec summary · "@ + n)
            &&& ext == Some("pptx"@) ==> r == ("10 slides"@, "Pitch deck · "@ + n)
            &&& ext != Some("xlsx"@) && ext != Some("docx"@) && ext != Some("pptx"@) ==> r == (
                "Ready"@,
                n,
            )
        }),
{
    reveal_strlit("xlsx");
    reveal_strlit("docx");
    reveal_strlit("pptx");
    assert("xlsx"@[0] != "docx"@[0] && "xlsx"@[0] != "pptx"@[0] && "docx"@[0] != "pptx"@[0]);
}

/// Where a file was saved is said by the tool's output, or else by its path, or else by its file
/// path.
pub proof fn law_where_a_tool_says_it_saved(r: ResponseView)
    ensures
        r.output is Some ==> artifacts::saved_text(r) == r.output,
        r.output is None && r.path is Some ==> artifacts::saved_text(r) == r.path,
        r.output is None && r.path is None ==> artifacts::saved_text(r) == r.file_path,
{
}

/// The first member that is there counts, though it is no text.
pub proof fn law_the_first_member_counts(
    a: Option<Option<Seq<char>>>,
    b: Option<Option<Seq<char>>>,
    c: Option<Option<Seq<char>>>,
)
    ensures
        a is Some ==> artifacts::first_member(a, b, c) == a->0,
        a is None && b is Some ==> artifacts::first_member(a, b, c) == b->0,
        a is None && b is None && c is Some ==> artifacts::first_member(a, b, c) == c->0,
        a is None && b is None && c is None ==> artifacts::first_member(a, b, c) is None,
{
}

/// A saved text says where the file is by the path that it names, or by itself where it is an
/// absolute path; otherwise it does not say.
pub proof fn law_where_a_text_says_it_saved(
    s: Seq<char>,
    named: Option<Seq<char>>,
    absolute: bool,
)
    ensures
        named is Some ==> artifacts::path_in(s, named, absolute) == named,
        named is None && absolute ==> artifacts::path_in(s, named, absolute) == Some(s),
        named is None && !absolute ==> artifacts::path_in(s, named, absolute) is None,
{
}

// ---- the deck ----

/// Each agent of the deck fills its own card, and the file that its last tool saves is of the kind
/// that the card shows: the workbook first, then the document, then the slides.
pub proof fn law_agents_cards_and_files(author: Seq<char>)
    ensures
        author == "excel_agent"@ <==> deck::index_of(author) == Some(0usize),
        author == "docs_agent"@ <==> deck::index_of(author) == Some(1usize),
        author == "slides_agent"@ <==> deck::index_of(author) == Some(2usize),
        deck::index_of(author) matches Some(i) ==> i < 3,
        deck::saved_extension("save_workbook"@) == Some(deck::card_extension(0)),
        deck::saved_extension("save_document"@) == Some(deck::card_extension(1)),
        deck::saved_extension("save_presentation"@) == Some(deck::card_extension(2)),
        deck::card_extension(0) == "xlsx"@,
        deck::card_extension(1) == "docx"@,
        deck::card_extension(2) == "pptx"@,
        deck::the_cards().len() == 3,
        deck::the_cards()[0].title == "Auto-Excel"@,
        deck::the_cards()[1].title == "Auto-Docs"@,
        deck::the_cards()[2].title == "Auto-Slides"@,
        deck::the_cards()[0].surface == Some("excel"@),
        deck::the_cards()[1].surface == Some("docs"@),
        deck::the_cards()[2].surface == Some("slides"@),
        deck::the_cards()[0].waits_for is None,
        deck::the_cards()[1].waits_for is None,
        deck::the_cards()[2].waits_for == Some(2u32),
        forall|i: int| 0 <= i < 3 ==> !(#[trigger] deck::the_cards()[i]).attention,
{
    reveal_strlit("excel_agent");
    reveal_strlit("docs_agent");
    reveal_strlit("slides_agent");
    assert("excel_agent"@.len() == 11 && "docs_agent"@.len() == 10 && "slides_agent"@.len() == 12);
    reveal_strlit("save_workbook");
    reveal_strlit("save_document");
    reveal_strlit("save_presentation");
    assert("save_workbook"@[5] != "save_document"@[5]);
    assert("save_workbook"@.len() == 13 && "save_presentation"@.len() == 17);
    assert("save_document"@.len() == 13);
}

/// Only a tool that saves has an extension.
pub proof fn law_only_saving_tools_save(tool: Seq<char>)
    ensures
        deck::saved_extension(tool) is Some <==> tool == "save_workbook"@ || tool
            == "save_document"@ || tool == "save_presentation"@,
{
}

/// A call of one of the deck's agents shows its tool on the agent's card; a slide that the slides
/// agent adds is shown as the next of ten.
pub proof fn law_calls_are_shown(slides: u32, author: Seq<char>, i: usize, name: Seq<char>)
    requires
        deck::index_of(author) == Some(i),
        slides < u32::MAX,
    ensures
        ({
            let acts = deck::part_acts(slides, author, (PartView::Call { name }));
            let shown = DeckActView::Status { index: i as int, line: deck::line_for(name) };
            &&& i == 2 && name == "add_slide"@ ==> acts == seq![
                shown,
                DeckActView::Surface { index: 2, slide: (slides + 1) as u32, total: 10 },
            ]
            &&& i != 2 || name != "add_slide"@ ==> acts == seq![shown]
        }),
{
    let shown = DeckActView::Status { index: i as int, line: deck::line_for(name) };
    assert(seq![shown].push(
        DeckActView::Surface { index: i as int, slide: (slides + 1) as u32, total: 10 },
    ) =~= seq![
        shown,
        DeckActView::Surface { index: i as int, slide: (slides + 1) as u32, total: 10 },
    ]);
}

/// The answer of a saving tool is a file of the agent's card; no other answer, no text and nothing
/// of another agent asks for anything.
pub proof fn law_answers_of_saving_tools_are_files(
    slides: u32,
    author: Seq<char>,
    name: Seq<char>,
    response: ResponseView,
    text: Seq<char>,
)
    ensures
        ({
            let acts = deck::part_acts(slides, author, (PartView::Response { name, response }));
            let i = deck::index_of(author);
            let e = deck::saved_extension(name);
            &&& i is Some && e is Some ==> acts == seq![
                DeckActView::Save {
                    index: i->0 as int,
                    output: artifacts::saved_text(response),
                    extension: e->0,
                },
            ]
            &&& i is None || e is None ==> acts.len() == 0
            &&& deck::part_acts(slides, author, (PartView::Text { text })).len() == 0
            &&& deck::part_acts(slides, author, PartView::Other).len() == 0
            &&& i is None ==> deck::part_acts(slides, author, (PartView::Call { name })).len() == 0
        }),
{
}

/// Each tool of the deck shows what it is for, and every other that something is done.
pub proof fn law_lines_of_the_deck_tools(tool: Seq<char>)
    ensures
        tool == "create_workbook"@ || tool == "open_workbook"@ ==> deck::line_for(tool) == "Pulling Q3 numbers…"@,
        tool == "write_cells"@ || tool == "write_column"@ || tool == "write_row"@ || tool == "add_chart"@ ==> deck::line_for(tool) == "Building the revenue chart…"@,
        tool == "save_workbook"@ ==> deck::line_for(tool) == "Revenue model ready…"@,
        tool == "create_document"@ ==> deck::line_for(tool) == "Drafting the narrative…"@,
        tool == "insert_paragraph"@ ==> deck::line_for(tool) == "Tightening the story…"@,
        tool == "save_document"@ ==> deck::line_for(tool) == "Story ready…"@,
        tool == "create_presentation"@ ==> deck::line_for(tool) == "Composing slides…"@,
        tool == "add_slide"@ ==> deck::line_for(tool) == "Adding slide…"@,
        tool == "save_presentation"@ ==> deck::line_for(tool) == "Deck ready…"@,
        tool != "create_workbook"@ && tool != "open_workbook"@ && tool != "write_cells"@ && tool != "write_column"@ && tool != "write_row"@ && tool != "add_chart"@ && tool != "save_workbook"@ && tool != "create_document"@ && tool != "insert_paragraph"@ && tool != "save_document"@ && tool != "create_presentation"@ && tool != "add_slide"@ && tool != "save_presentation"@ ==> deck::line_for(tool)
            == "Working…"@,
{
    reveal_strlit("create_workbook");
    assert("create_workbook"@.len() == 15);
    reveal_strlit("open_workbook");
    assert("open_workbook"@.len() == 13);
    reveal_strlit("write_cells");
    assert("write_cells"@.len() == 11);
    reveal_strlit("write_column");
    assert("write_column"@.len() == 12);
    reveal_strlit("write_row");
    assert("write_row"@.len() == 9);
    reveal_strlit("add_chart");
    assert("add_chart"@.len() == 9);
    reveal_strlit("save_workbook");
    assert("save_workbook"@.len() == 13);
    reveal_strlit("create_document");
    assert("create_document"@.len() == 15);
    reveal_strlit("insert_paragraph");
    assert("insert_paragraph"@.len() == 16);
    reveal_strlit("save_document");
    assert("save_document"@.len() == 13);
    reveal_strlit("create_presentation");
    assert("create_presentation"@.len() == 19);
    reveal_strlit("add_slide");
    assert("add_slide"@.len() == 9);
    reveal_strlit("save_presentation");
    assert("save_presentation"@.len() == 17);
    assert("save_workbook"@[0] != "open_workbook"@[0]);
    assert("create_document"@[7] != "create_workbook"@[7]);
    assert("save_document"@[0] != "open_workbook"@[0]);
    assert("save_document"@[5] != "save_workbook"@[5]);
    assert("add_slide"@[0] != "write_row"@[0]);
    assert("add_slide"@[4] != "add_chart"@[4]);
}

/// The slides can be presented, the workbook and the document opened, and each can be saved.
pub proof fn law_what_can_be_done_with_a_file(
    i: int,
    big: Seq<char>,
    sub: Seq<char>,
    url: Option<Seq<char>>,
)
    ensures
        ({
            let r = deck::saved_card(i, big, sub, url);
            &&& r.big == Some(big)
            &&& r.sub == Some(sub)
            &&& r.lines is None
            &&& r.artifact_url == url
            &&& i == 2 ==> r.actions == seq!["Save deck"@, "Present"@]
            &&& i != 2 ==> r.actions == seq!["Save"@, "Open"@]
        }),
{
}

/// The prompt of the deck names the intent, the directory and the files beside it, or says that
/// there are none.
pub proof fn law_the_deck_prompt(
    intent: Seq<char>,
    dir: Seq<char>,
    path: Seq<char>,
    paths: Seq<Seq<char>>,
)
    ensures
        deck::sibling_text(Seq::empty()) == "(none yet — excel and docs agents run first)"@,
        deck::sibling_text(seq![path]) == "- "@ + path,
        paths.len() > 0 ==> deck::sibling_text(paths.push(path)) == deck::sibling_text(paths)
            + "\n"@ + ("- "@ + path),
        deck::deck_prompt(intent, dir, path) == intent + "\n\n[Save files to: "@ + dir
            + "/]\n[Sibling artifacts]\n"@ + path
            + "\nBuild the pitch deck artifacts for this session."@,
{
    let f = |p: Seq<char>| "- "@ + p;
    let all = paths.push(path).map_values(f);
    assert(all.drop_last() =~= paths.map_values(f));
    assert(all.last() == "- "@ + path);
    assert(seq![path].map_values(f) =~= seq!["- "@ + path]);
}

/// The stream of the deck keeps its artifacts, and lets the guide suggest, exactly where there is a
/// session; then it is done.
pub proof fn law_how_the_deck_closes()
    ensures
        deck::deck_closing(true) == seq![
            ActView::StoreArtifacts,
            ActView::Wait { millis: 400 },
            ActView::Suggest,
            ActView::SendDone,
        ],
        deck::deck_closing(false) == seq![ActView::Wait { millis: 400 }, ActView::SendDone],
{
    assert(deck::deck_closing(true) =~= seq![
        ActView::StoreArtifacts,
        ActView::Wait { millis: 400 },
        ActView::Suggest,
        ActView::SendDone,
    ]);
    assert(deck::deck_closing(false) =~= seq![ActView::Wait { millis: 400 }, ActView::SendDone]);
}

// ---- combining ----

/// The workbook and then the document are moved into the slides, with a pause after each.
pub proof fn law_how_the_cards_move()
    ensures
        ({
            let s = combine::conduct();
            &&& s.len() == 4
            &&& s[0].op == "fuse"@ && s[0].source == Some("Auto-Excel"@) && s[0].target == Some(
                "Auto-Slides"@,
            ) && s[0].delay_ms is None
            &&& s[1].op == "wait"@ && s[1].source is None && s[1].target is None && s[1].delay_ms
                == Some(500u32)
            &&& s[2].op == "fuse"@ && s[2].source == Some("Auto-Docs"@) && s[2].target == Some(
                "Auto-Slides"@,
            ) && s[2].delay_ms is None
            &&& s[3].op == "wait"@ && s[3].source is None && s[3].target is None && s[3].delay_ms
                == Some(400u32)
        }),
{
}

/// Each source is the one that the session recorded, or else the one found; a deck is combined
/// exactly where all three are there.
pub proof fn law_recorded_sources_come_first(recorded: ArtifactsView, found: ArtifactsView)
    ensures
        ({
            let r = combine::sources_of(Some(recorded), found);
            let f = combine::sources_of(None, found);
            &&& r is Some <==> (recorded.xlsx is Some || found.xlsx is Some) && (
            recorded.docx is Some || found.docx is Some) && (recorded.pptx is Some
                || found.pptx is Some)
            &&& r matches Some((x, d, p)) ==> {
                &&& recorded.xlsx is Some ==> x == recorded.xlsx->0
                &&& recorded.xlsx is None ==> x == found.xlsx->0
                &&& recorded.docx is Some ==> d == recorded.docx->0
                &&& recorded.docx is None ==> d == found.docx->0
                &&& recorded.pptx is Some ==> p == recorded.pptx->0
                &&& recorded.pptx is None ==> p == found.pptx->0
            }
            &&& f is Some <==> found.xlsx is Some && found.docx is Some && found.pptx is Some
            &&& f is Some ==> f == Some((found.xlsx->0, found.docx->0, found.pptx->0))
        }),
{
}

/// Where all three sources are there, the agent is told each of them under its own name.
pub proof fn law_the_agent_is_told_its_sources(
    intent: Seq<char>,
    dir: Seq<char>,
    recorded: Option<ArtifactsView>,
    found: ArtifactsView,
    x: Seq<char>,
    d: Seq<char>,
    p: Seq<char>,
)
    requires
        combine::sources_of(recorded, found) == Some((x, d, p)),
    ensures
        combine::start_acts(intent, dir, recorded, found) == seq![
            CombineActView::SendConduct { steps: combine::conduct() },
            CombineActView::RunAgent {
                prompt: intent + "\n\n[Save files to: "@ + dir + "/]\n[Artifacts]\npptx: "@ + p
                    + "\n[Sibling sources]\nxlsx: "@ + x + "\ndocx: "@ + d
                    + "\nMerge excel numbers and docs narrative into the slides deck."@,
            },
        ],
{
}

/// A word is a number of slides exactly where it is a number from one to fifty.
pub proof fn law_numbers_of_slides(w: Seq<char>)
    ensures
        combine::slide_word(w) is Some <==> number::number(w) is Some && 1 <= number::number(w)->0
            <= 50,
        combine::slide_word(w) is Some ==> combine::slide_word(w) == number::number(w),
{
}

proof fn lemma_first_slides(ws: Seq<Seq<char>>, i: int)
    requires
        0 <= i <= ws.len(),
        forall|j: int| 0 <= j < i ==> combine::slide_word(#[trigger] ws[j]) is None,
    ensures
        i == ws.len() ==> combine::first_slide_word(ws) is None,
        i < ws.len() && combine::slide_word(ws[i]) is Some ==> combine::first_slide_word(ws)
            == combine::slide_word(ws[i]),
    decreases i,
{
    if i > 0 {
        let rest = ws.skip(1);
        assert forall|j: int| 0 <= j < i - 1 implies combine::slide_word(
            #[trigger] rest[j],
        ) is None by {
            assert(rest[j] == ws[j + 1]);
        }
        assert(combine::slide_word(ws[0]) is None);
        lemma_first_slides(rest, i - 1);
    }
}

/// The number of slides is the member `slide_count`, or where that is missing `slides`; where the
/// member is no such number, or both are missing, the first word that can be one.
pub proof fn law_how_many_slides(
    slide_count: Option<Option<u64>>,
    slides: Option<Option<u64>>,
    output: Seq<char>,
    i: int,
)
    requires
        0 <= i <= pieces::words(output).len(),
        forall|j: int|
            0 <= j < i ==> combine::slide_word(#[trigger] pieces::words(output)[j]) is None,
    ensures
        ({
            let r = combine::slides_said(slide_count, slides, output);
            let ws = pieces::words(output);
            let words_count = slide_count == Some(None::<u64>) || (slide_count is None && (
            slides is None || slides == Some(None::<u64>)));
            &&& slide_count matches Some(Some(n)) ==> r == Some(n as u32)
            &&& slide_count is None ==> (slides matches Some(Some(n)) ==> r == Some(n as u32))
            &&& words_count && i == ws.len() ==> r is None
            &&& words_count && i < ws.len() && combine::slide_word(ws[i]) is Some ==> r
                == combine::slide_word(ws[i])
        }),
{
    lemma_first_slides(pieces::words(output), i);
}

/// The last number of slides that was said stays, and ten stand in where none was.
pub proof fn law_the_last_number_of_slides_stays(said: Option<u32>, before: Option<u32>)
    ensures
        said is Some ==> combine::latest(said, before) == said,
        said is None ==> combine::latest(said, before) == before,
        before is Some ==> combine::slides_or_ten(before) == before->0,
        before is None ==> combine::slides_or_ten(before) == 10,
{
}

/// Only the answers of the combining agent's own tools count.
pub proof fn law_only_the_combining_agent_answers(author: Seq<char>, p: PartView, tool: Seq<char>)
    ensures
        combine::answers(author, p, tool) ==> author == "combine_agent"@ && p is Response,
        author != "combine_agent"@ ==> !combine::answers(author, p, tool),
        p matches PartView::Response { name, response } ==> (author == "combine_agent"@ ==> (
        combine::answers(author, p, tool) <==> name == tool)),
{
}

/// A combination ends by telling the client how many slides the deck has and where it is, pinning
/// the card of the slides with the same, keeping the artifacts exactly where slides were saved, and
/// going on with the tour.
pub proof fn law_how_a_combination_ends(
    n: u32,
    path: Option<Seq<char>>,
    url: Option<Seq<char>>,
    found: ArtifactsView,
)
    ensures
        ({
            let acts = combine::finish_acts(n, path, url, found);
            let sub = number::decimal(n as nat) + " slides · numbers + story combined"@;
            let k: int = if path is Some {
                3
            } else {
                2
            };
            &&& acts.len() == k + 3
            &&& acts[0] == (CombineActView::SendFinish {
                big: "Deck ready"@,
                sub,
                artifact_url: url,
                slide_count: n,
            })
            &&& match acts[1] {
                CombineActView::PinCard { index, card, resolve } => {
                    &&& index == 2
                    &&& card.title == "Auto-Slides"@
                    &&& card.agent == "auto-slides"@
                    &&& card.surface == Some("slides"@)
                    &&& card.waits_for is None
                    &&& resolve.big == Some("Deck ready"@)
                    &&& resolve.sub == Some(sub)
                    &&& resolve.lines is None
                    &&& resolve.actions == seq!["Save deck"@, "Present"@]
                    &&& resolve.artifact_url == url
                },
                _ => false,
            }
            &&& path is Some ==> match acts[2] {
                CombineActView::StoreArtifacts { artifacts } => artifacts.combined_pptx == path
                    && artifacts.xlsx == found.xlsx && artifacts.docx == found.docx
                    && artifacts.pptx == found.pptx,
                _ => false,
            }
            &&& acts[k] == (CombineActView::Wait { millis: 300 })
            &&& acts[k + 1] == CombineActView::Tour
            &&& acts[k + 2] == CombineActView::SendDone
        }),
{
}

// ---- workflows ----

proof fn lemma_slot(slots: Seq<SlotView>, author: Seq<char>, i: int)
    requires
        0 <= i <= slots.len(),
        forall|j: int| 0 <= j < i ==> (#[trigger] slots[j]).author != author,
    ensures
        i == slots.len() ==> workflow::slot_index(slots, author) is None,
        i < slots.len() && slots[i].author == author ==> workflow::slot_index(slots, author)
            == Some(slots[i].index),
    decreases i,
{
    if i > 0 {
        let rest = slots.skip(1);
        assert forall|j: int| 0 <= j < i - 1 implies (#[trigger] rest[j]).author != author by {
            assert(rest[j] == slots[j + 1]);
        }
        assert(slots[0].author != author);
        lemma_slot(rest, author, i - 1);
    }
}

/// An agent fills the card of the first slot with its name; an agent without a slot fills none, and
/// what it sends asks for nothing and changes nothing.
pub proof fn law_who_fills_a_card(s: RunView, e: EventView, i: int)
    requires
        0 <= i <= s.slots.len(),
        forall|j: int| 0 <= j < i ==> (#[trigger] s.slots[j]).author != e.author,
    ensures
        i < s.slots.len() && s.slots[i].author == e.author ==> workflow::slot_index(
            s.slots,
            e.author,
        ) == Some(s.slots[i].index),
        i == s.slots.len() ==> workflow::after_event(s, e) == s && workflow::event_acts(
            s,
            e,
        ).len() == 0,
{
    lemma_slot(s.slots, e.author, i);
}

/// What a tool answered is its output, or else its text, or else nothing.
pub proof fn law_what_a_tool_answered(r: ResponseView)
    ensures
        r.output is Some ==> workflow::answer_text(r) == r.output->0,
        r.output is None && r.text is Some ==> workflow::answer_text(r) == r.text->0,
        r.output is None && r.text is None ==> workflow::answer_text(r).len() == 0,
{
}

/// An answer of a tool is noted, on a line of its own, with the tools of the agent's card, and what
/// the agent says with what it said; a call notes nothing, and no other card is touched.
pub proof fn law_what_is_noted(s: RunView, i: int, p: PartView, k: int)
    requires
        s.valid(),
        0 <= i < s.resolved.len(),
        0 <= k < s.resolved.len(),
    ensures
        ({
            let t = workflow::after_part(s, i, p);
            &&& k != i ==> t.tools[k] == s.tools[k] && t.said[k] == s.said[k]
            &&& p matches PartView::Response { name, response } ==> t.tools[i] == s.tools[i]
                + workflow::answer_text(response) + "\n"@ && t.said == s.said
            &&& p matches PartView::Text { text } ==> t.said[i] == s.said[i] + text + "\n"@
                && t.tools == s.tools
            &&& p is Call || p is Other ==> t == s
            &&& t.resolved == s.resolved && t.slots == s.slots && t.store == s.store && t.services
                == s.services
        }),
{
    reveal_strlit("\n");
    assert("\n"@ =~= seq!['\n']);
}

/// Every call is shown on the agent's card, in order, and nothing else is.
pub proof fn law_every_call_is_shown(i: int, ps: Seq<PartView>, p: PartView)
    ensures
        p matches PartView::Call { name } ==> workflow::status_acts(i, ps.push(p))
            == workflow::status_acts(i, ps).push(ActView::Status { index: i, tool: name }),
        !(p is Call) ==> workflow::status_acts(i, ps.push(p)) == workflow::status_acts(i, ps),
        workflow::status_acts(i, Seq::<PartView>::empty()).len() == 0,
{
    assert(ps.push(p).drop_last() =~= ps);
}

/// A final response resolves the agent's card, where it was not resolved, with everything that was
/// noted of it up to there; no other event resolves a card.
pub proof fn law_final_responses_resolve(s: RunView, e: EventView, i: int)
    requires
        s.valid(),
        workflow::slot_index(s.slots, e.author) == Some(i),
        0 <= i < s.resolved.len(),
    ensures
        ({
            let t = workflow::after_parts(s, i, e.parts);
            let acts = workflow::event_acts(s, e);
            let shown = workflow::status_acts(i, e.parts);
            &&& e.is_final && !s.resolved[i] ==> acts == shown.push(
                ActView::Resolve {
                    index: i,
                    author: e.author,
                    tools: t.tools[i],
                    said: t.said[i],
                    store: s.store,
                    record: s.services,
                },
            ) && workflow::after_event(s, e).resolved == s.resolved.update(i, true)
            &&& !e.is_final || s.resolved[i] ==> acts == shown && workflow::after_event(
                s,
                e,
            ).resolved == s.resolved
            &&& workflow::after_event(s, e).tools == t.tools
            &&& workflow::after_event(s, e).said == t.said
        }),
{
    lemma_parts_keep(s, i, e.parts);
}

proof fn lemma_parts_keep(s: RunView, i: int, ps: Seq<PartView>)
    ensures
        ({
            let t = workflow::after_parts(s, i, ps);
            t.resolved == s.resolved && t.slots == s.slots && t.store == s.store && t.services
                == s.services
        }),
    decreases ps.len(),
{
    if ps.len() > 0 {
        lemma_parts_keep(s, i, ps.drop_last());
    }
}

/// At the end every card with a slot that was not resolved is, from what was noted of it, kept where
/// there is a session, and not recorded.
pub proof fn law_what_is_left_is_resolved(s: RunView, slots: Seq<SlotView>, k: SlotView)
    ensures
        s.resolved[k.index] ==> workflow::leftover_acts(s, slots.push(k))
            == workflow::leftover_acts(s, slots),
        !s.resolved[k.index] ==> workflow::leftover_acts(s, slots.push(k))
            == workflow::leftover_acts(s, slots).push(
            ActView::Resolve {
                index: k.index,
                author: k.author,
                tools: s.tools[k.index],
                said: s.said[k.index],
                store: s.store,
                record: false,
            },
        ),
        workflow::leftover_acts(s, Seq::<SlotView>::empty()).len() == 0,
{
    assert(slots.push(k).drop_last() =~= slots);
}

/// A stream opens with its scenario and its cards in order, each kept before it is shown where there
/// is a session.
pub proof fn law_how_a_stream_opens(n: int, store: bool)
    requires
        n >= 0,
    ensures
        ({
            let acts = workflow::opening_acts(n, store);
            &&& store ==> acts.len() == 2 + 2 * n && acts[0] == ActView::StoreScenario && acts[1]
                == (ActView::SendScenario { total: n }) && forall|i: int|
                0 <= i < n ==> acts[2 + 2 * i] == (#[trigger] kept_card(i)) && acts[3 + 2 * i]
                    == shown_card(i)
            &&& !store ==> acts.len() == 1 + n && acts[0] == (ActView::SendScenario { total: n })
                && forall|i: int| 0 <= i < n ==> acts[1 + i] == (#[trigger] shown_card(i))
        }),
{
    lemma_cards(n, store);
}

/// The card is kept.
pub open spec fn kept_card(i: int) -> ActView {
    ActView::StoreCard { index: i }
}

/// The card is shown.
pub open spec fn shown_card(i: int) -> ActView {
    ActView::SendCard { index: i }
}

proof fn lemma_cards(n: int, store: bool)
    requires
        n >= 0,
    ensures
        ({
            let acts = workflow::card_acts(n, store);
            &&& store ==> acts.len() == 2 * n && forall|i: int|
                0 <= i < n ==> acts[2 * i] == (#[trigger] kept_card(i)) && acts[2 * i + 1]
                    == shown_card(i)
            &&& !store ==> acts.len() == n && forall|i: int|
                0 <= i < n ==> acts[i] == (#[trigger] shown_card(i))
        }),
    decreases n,
{
    if n > 0 {
        lemma_cards(n - 1, store);
    }
}

/// A stream closes with what was queued, where there are services, a pause, the guide's word where
/// there is a session, and the end.
pub proof fn law_how_a_stream_closes(store: bool, services: bool)
    ensures
        ({
            let acts = workflow::closing_acts(store, services);
            let k: int = if services {
                1
            } else {
                0
            };
            &&& services ==> acts[0] == ActView::Announce
            &&& acts[k] == (ActView::Wait { millis: 400 })
            &&& store ==> acts[k + 1] == ActView::Suggest && acts.len() == k + 3
            &&& !store ==> acts.len() == k + 2
            &&& acts.last() == ActView::SendDone
        }),
{
}

/// A run starts with nothing resolved, answered or said.
pub proof fn law_how_a_run_starts(
    slots: Seq<SlotView>,
    n: int,
    store: bool,
    services: bool,
    i: int,
)
    requires
        0 <= i < n,
    ensures
        ({
            let s = workflow::started(slots, n, store, services);
            &&& s.resolved.len() == n
            &&& !s.resolved[i]
            &&& s.tools[i].len() == 0
            &&& s.said[i].len() == 0
            &&& s.store == store
            &&& s.services == services
            &&& s.slots == slots
        }),
{
}

/// The prompt of a workflow names the intent and which integrations are live.
pub proof fn law_the_workflow_prompt(intent: Seq<char>, note: Seq<char>)
    ensures
        workflow::workflow_prompt(intent, note) == intent + "\n\n[Integrations]\n"@ + note
            + "\nPrepare the scenario cards."@,
{
}

// ---- the morning ----

/// Each tool of the morning shows what it is for, and every other that something is done.
pub proof fn law_lines_of_the_morning_tools(tool: Seq<char>)
    ensures
        tool == "get_today"@ || tool == "list_events"@ || tool == "list_calendars"@ ==> morning::line_for(tool) == "Reading your calendar…"@,
        tool == "find_free_time"@ || tool == "search_events"@ ==> morning::line_for(tool) == "Finding free time…"@,
        tool == "list_inbox"@ ==> morning::line_for(tool) == "Triaging new emails…"@,
        tool == "search_emails"@ || tool == "get_email"@ ==> morning::line_for(tool) == "Surfacing only what matters…"@,
        tool == "gnews_top_headlines"@ || tool == "search_news"@ || tool == "get_country_news"@ ==> morning::line_for(tool) == "Pulling headlines…"@,
        tool == "get_forecast"@ || tool == "geocode_location"@ ==> morning::line_for(tool) == "Checking weather…"@,
        tool != "get_today"@ && tool != "list_events"@ && tool != "list_calendars"@ && tool != "find_free_time"@ && tool != "search_events"@ && tool != "list_inbox"@ && tool != "search_emails"@ && tool != "get_email"@ && tool != "gnews_top_headlines"@ && tool != "search_news"@ && tool != "get_country_news"@ && tool != "get_forecast"@ && tool != "geocode_location"@ ==> morning::line_for(tool)
            == "Working…"@,
{
    reveal_strlit("get_today");
    assert("get_today"@.len() == 9);
    reveal_strlit("list_events");
    assert("list_events"@.len() == 11);
    reveal_strlit("list_calendars");
    assert("list_calendars"@.len() == 14);
    reveal_strlit("find_free_time");
    assert("find_free_time"@.len() == 14);
    reveal_strlit("search_events");
    assert("search_events"@.len() == 13);
    reveal_strlit("list_inbox");
    assert("list_inbox"@.len() == 10);
    reveal_strlit("search_emails");
    assert("search_emails"@.len() == 13);
    reveal_strlit("get_email");
    assert("get_email"@.len() == 9);
    reveal_strlit("gnews_top_headlines");
    assert("gnews_top_headlines"@.len() == 19);
    reveal_strlit("search_news");
    assert("search_news"@.len() == 11);
    reveal_strlit("get_country_news");
    assert("get_country_news"@.len() == 16);
    reveal_strlit("get_forecast");
    assert("get_forecast"@.len() == 12);
    reveal_strlit("geocode_location");
    assert("geocode_location"@.len() == 16);
    assert("find_free_time"@[0] != "list_calendars"@[0]);
    assert("get_email"@[4] != "get_today"@[4]);
    assert("search_emails"@[8] != "search_events"@[8]);
    assert("search_news"@[0] != "list_events"@[0]);
    assert("geocode_location"@[2] != "get_country_news"@[2]);
}

/// The three agents of the morning fill its three cards, and only the inbox needs attention.
pub proof fn law_the_morning_cards()
    ensures
        morning::the_slots().len() == 3,
        morning::the_cards().len() == 3,
        forall|i: int|
            0 <= i < 3 ==> (#[trigger] morning::the_slots()[i]).index == i,
        morning::the_slots()[0].author == "calendar_agent"@ && morning::the_cards()[0].title
            == "Today"@ && morning::the_cards()[0].agent == "calendar.agent"@,
        morning::the_slots()[1].author == "inbox_agent"@ && morning::the_cards()[1].title
            == "Needs you"@ && morning::the_cards()[1].agent == "inbox.agent"@,
        morning::the_slots()[2].author == "brief_agent"@ && morning::the_cards()[2].title
            == "Brief"@ && morning::the_cards()[2].agent == "news.agent"@,
        !morning::the_cards()[0].attention,
        morning::the_cards()[1].attention,
        !morning::the_cards()[2].attention,
        morning::the_cards()[0].waits_for is None,
        morning::the_cards()[1].waits_for is None,
        morning::the_cards()[2].waits_for == Some(2u32),
{
}

/// Each agent of the morning resolves its own kind of card: the calendar counts meetings, the inbox
/// what to reply, the brief tells lines; another agent's card is ready.
pub proof fn law_cards_of_the_morning_agents(author: Seq<char>, text: Seq<char>)
    ensures
        author == "calendar_agent"@ ==> morning::agent_card(author, text)
            == morning::calendar_card(json::json_length(text)),
        author == "inbox_agent"@ ==> morning::agent_card(author, text) == morning::inbox_card(
            morning::email_count(chars::lowercase(text)),
        ),
        author == "brief_agent"@ ==> morning::agent_card(author, text) == morning::brief_card(
            text,
        ),
        author != "calendar_agent"@ && author != "inbox_agent"@ && author != "brief_agent"@
            ==> morning::agent_card(author, text).big == Some("Ready"@) && morning::agent_card(
            author,
            text,
        ).sub == Some("Done"@) && morning::agent_card(author, text).actions == seq!["Open"@],
{
    reveal_strlit("calendar_agent");
    reveal_strlit("inbox_agent");
    reveal_strlit("brief_agent");
    assert("calendar_agent"@.len() == 14 && "inbox_agent"@.len() == 11);
    assert("brief_agent"@[0] != "inbox_agent"@[0]);
    assert("brief_agent"@.len() == 11);
}

/// The calendar card says how many meetings there are, and three where it is not known.
pub proof fn law_the_calendar_card(n: usize)
    ensures
        morning::calendar_card(Some(n)).big == Some(number::decimal(n as nat) + " meetings"@),
        morning::calendar_card(None).big == Some(number::decimal(3) + " meetings"@),
        morning::calendar_card(Some(n)).sub == Some("Calendar synced · see details in card"@),
        morning::calendar_card(Some(n)).actions == seq!["Open"@, "Reschedule"@],
        morning::calendar_card(Some(n)).lines is None,
        morning::calendar_card(Some(n)).artifact_url is None,
{
}

/// An inbox is clear where the report says that nothing is unread, else it has one to reply where
/// the report speaks of one, and else two.
pub proof fn law_the_inbox_card(l: Seq<char>)
    ensures
        ({
            let none = scan::within(l, "no unread"@) || scan::within(l, "0 email"@);
            let one = scan::within(l, "1 email"@) || scan::within(l, "one email"@);
            let c = morning::inbox_card(morning::email_count(l));
            &&& none ==> c.big == Some("Inbox clear"@) && c.sub == Some("Nothing urgent"@)
            &&& !none && one ==> c.big == Some(number::decimal(1) + " to reply"@) && c.sub == Some(
                "Flagged threads need you"@,
            )
            &&& !none && !one ==> c.big == Some(number::decimal(2) + " to reply"@) && c.sub
                == Some("Flagged threads need you"@)
            &&& c.actions == seq!["Draft replies"@, "Snooze"@]
            &&& c.lines is None
        }),
{
}

proof fn lemma_written(lines: Seq<Seq<char>>)
    ensures
        morning::written(lines) == lines.map_values(|l: Seq<char>| scan::trimmed(l)).filter(
            |l: Seq<char>| l.len() > 0,
        ),
    decreases lines.len(),
{
    reveal(Seq::filter);
    let t = |l: Seq<char>| scan::trimmed(l);
    let f = |l: Seq<char>| l.len() > 0;
    let all = lines.map_values(t);
    if lines.len() > 0 {
        lemma_written(lines.drop_last());
        assert(all.drop_last() =~= lines.drop_last().map_values(t));
        assert(all.last() == scan::trimmed(lines.last()));
    } else {
        assert(all.filter(f) =~= Seq::<Seq<char>>::empty());
    }
}

/// The brief tells the first three lines that hold more than white space, trimmed, each with a bold
/// bullet before it unless it starts in bold; a brief without such a line has three of its own.
pub proof fn law_the_brief(text: Seq<char>, i: int)
    requires
        i >= 0,
    ensures
        ({
            let w = pieces::lines_of(text).map_values(|l: Seq<char>| scan::trimmed(l)).filter(
                |l: Seq<char>| l.len() > 0,
            );
            let c = morning::brief_card(text);
            let told = c.lines->0;
            &&& c.lines is Some
            &&& c.big is None
            &&& c.sub is None
            &&& c.actions == seq!["Read aloud"@, "Dismiss"@]
            &&& w.len() == 0 ==> told == seq![
                "<b>Headlines</b> — top stories loading"@,
                "<b>Weather</b> — check forecast"@,
                "<b>Focus</b> — protect your morning block"@,
            ]
            &&& w.len() > 0 ==> told.len() == if w.len() < 3 {
                w.len() as int
            } else {
                3
            }
            &&& w.len() > 0 && i < told.len() ==> told[i] == if scan::starts(w[i], "<b>"@) {
                w[i]
            } else {
                "<b>•</b> "@ + w[i]
            }
        }),
{
    lemma_written(pieces::lines_of(text));
}

/// What was said is what the tools answered, and behind it, on a line of its own, what the agent
/// said, where it said something.
pub proof fn law_what_was_said(tools: Seq<char>, said: Seq<char>)
    ensures
        said.len() == 0 ==> morning::all_said(tools, said) == tools,
        said.len() > 0 ==> morning::all_said(tools, said) == tools + "\n"@ + said,
{
}

/// The morning agents are told which sources are live, and where the user is as far as it is known.
pub proof fn law_the_morning_prompt(
    intent: Seq<char>,
    calendar: bool,
    inbox: bool,
    location: Option<Seq<char>>,
    timezone: Option<Seq<char>>,
)
    ensures
        ({
            let c = if calendar {
                "live"@
            } else {
                "unavailable — use general context"@
            };
            let i = if inbox {
                "live"@
            } else {
                "unavailable — use general context"@
            };
            let l = if location is Some {
                location->0
            } else {
                "unknown"@
            };
            let z = if timezone is Some {
                timezone->0
            } else {
                "unknown"@
            };
            morning::morning_prompt(intent, calendar, inbox, location, timezone) == intent
                + "\n\n[Integrations]\ncalendar: "@ + c + "\ninbox: "@ + i
                + "\nnews: yes\nweather: yes\n[Profile]\nhome_location: "@ + l
                + "\ntimezone: "@ + z + "\nPrepare the morning briefing cards."@
        }),
{
}

/// An answer of the combining agent that describes the slides says how many there are, where it says
/// so, and one that saves them where they are; nothing else says either.
pub proof fn law_what_the_combining_agent_reports(
    before: Option<u32>,
    author: Seq<char>,
    name: Seq<char>,
    response: ResponseView,
    text: Seq<char>,
)
    ensures
        ({
            let p = PartView::Response { name, response };
            let o = if response.output is Some {
                response.output->0
            } else {
                Seq::empty()
            };
            let said = combine::slides_said(
                json::json_unsigned(o, "slide_count"@),
                json::json_unsigned(o, "slides"@),
                o,
            );
            let own = author == "combine_agent"@;
            let described = own && name == "describe_presentation"@;
            let saved = own && name == "save_presentation"@;
            &&& described && said is Some ==> combine::counted(before, author, p) == said
            &&& !described || said is None ==> combine::counted(before, author, p) == before
            &&& saved ==> combine::reported(author, p) == Some(artifacts::saved_text(response))
            &&& !saved ==> combine::reported(author, p) is None
            &&& combine::counted(before, author, PartView::Text { text }) == before
            &&& combine::reported(author, PartView::Text { text }) is None
            &&& combine::counted(before, author, PartView::Call { name }) == before
            &&& combine::reported(author, PartView::Call { name }) is None
        }),
{
}

/// The session keeps the combined slides beside the newest of its files, and nothing where none were
/// saved.
pub proof fn law_what_is_kept_of_a_combination(path: Option<Seq<char>>, found: ArtifactsView)
    ensures
        path is None ==> combine::with_combined(path, found) is None,
        path is Some ==> ({
            let r = combine::with_combined(path, found);
            r is Some && r->0.combined_pptx == path && r->0.xlsx == found.xlsx && r->0.docx
                == found.docx && r->0.pptx == found.pptx
        }),
        combine::either(path, found.pptx) == if path is Some {
            path
        } else {
            found.pptx
        },
{
}

/// A saved answer in JSON names the path under `path`, or where that is missing under `file_path`,
/// or else under `output_path`.
pub proof fn law_where_a_path_is_named(s: Seq<char>)
    ensures
        ({
            let a = json::json_text(s, "path"@);
            let b = json::json_text(s, "file_path"@);
            let c = json::json_text(s, "output_path"@);
            let r = artifacts::named_path(s);
            &&& a is Some ==> r == a->0
            &&& a is None && b is Some ==> r == b->0
            &&& a is None && b is None && c is Some ==> r == c->0
            &&& a is None && b is None && c is None ==> r is None
        }),
{
}

/// A card counts as resolved exactly where a file of it was saved, and then is not left for the end.
pub proof fn law_saved_cards_are_resolved(
    saves: Seq<usize>,
    files: Seq<FoundView>,
    i: usize,
    path: Seq<char>,
)
    requires
        i < 3,
        forall|k: int| 0 <= k < saves.len() ==> #[trigger] saves[k] < 3,
    ensures
        deck::resolved_by(saves).len() == 3,
        deck::resolved_by(saves)[i as int] <==> saves.contains(i),
        deck::left_cards(deck::resolved_by(saves), files, 3).contains((i, path)) ==> !saves.contains(
            i,
        ) && artifacts::newest_path(files, deck::card_extension(i as int)) == Some(path),
    decreases saves.len(),
{
    deck::law_left_cards(deck::resolved_by(saves), files, 3);
    if saves.len() > 0 {
        let init = saves.drop_last();
        assert(forall|k: int| 0 <= k < init.len() ==> init[k] == saves[k]);
        law_saved_cards_are_resolved(init, files, i, path);
        assert(saves[saves.len() - 1] == saves.last());
        if init.contains(i) {
            let k = choose|k: int| 0 <= k < init.len() && init[k] == i;
            assert(saves[k] == i);
        }
        if saves.contains(i) && i != saves.last() {
            let k = choose|k: int| 0 <= k < saves.len() && saves[k] == i;
            assert(init[k] == i);
        }
    }
}

} // verus!
