//! Synthesis: one answer from many agent results. Facts are grouped by world and every suggested
//! action carries the mode it will run under.

pub mod laws;

use vstd::prelude::*;

use crate::domain::Domain;
use crate::domain::Mode;
use crate::mother::intake::Target;
use crate::mother::intake::TargetView;
use crate::text::chars;
use crate::text::pieces;
use crate::text::scan;

verus! {

/// What a card resolved to, as far as synthesis reads it. An entry of `lines` or `actions` that
/// is not a text is `None`.
pub struct Resolution {
    pub big: Option<String>,
    pub sub: Option<String>,
    pub lines: Option<Vec<Option<String>>>,
    pub actions: Option<Vec<Option<String>>>,
}

/// Outcome of one card inside a delegated scenario.
pub struct CardOutcome {
    pub title: String,
    pub agent: String,
    pub domain: Domain,
    pub resolve: Option<Resolution>,
}

/// All outcomes of one delegation target.
pub struct TargetResult {
    pub target: Target,
    pub cards: Vec<CardOutcome>,
    pub timed_out: bool,
}

pub struct SuggestedAction {
    pub text: String,
    pub card: String,
    pub agent: String,
    pub domain: Domain,
    pub mode: Mode,
}

pub struct Synthesis {
    pub html: String,
    pub actions: Vec<SuggestedAction>,
    /// `llm` | `template`
    pub source: &'static str,
}

#[verifier::ext_equal]
pub struct ResolutionView {
    pub big: Option<Seq<char>>,
    pub sub: Option<Seq<char>>,
    pub lines: Option<Seq<Option<Seq<char>>>>,
    pub actions: Option<Seq<Option<Seq<char>>>>,
}

#[verifier::ext_equal]
pub struct CardView {
    pub title: Seq<char>,
    pub agent: Seq<char>,
    pub domain: Domain,
    pub resolve: Option<ResolutionView>,
}

#[verifier::ext_equal]
pub struct ResultView {
    pub target: TargetView,
    pub cards: Seq<CardView>,
    pub timed_out: bool,
}

#[verifier::ext_equal]
pub struct ActionView {
    pub text: Seq<char>,
    pub card: Seq<char>,
    pub agent: Seq<char>,
    pub domain: Domain,
    pub mode: Mode,
}

pub open spec fn texts_in(v: Option<Vec<Option<String>>>) -> Option<Seq<Option<Seq<char>>>> {
    match v {
        Some(x) => Some(x@.map_values(|s: Option<String>| pieces::text_in(s))),
        None => None,
    }
}

impl View for Resolution {
    type V = ResolutionView;

    open spec fn view(&self) -> ResolutionView {
        ResolutionView {
            big: pieces::text_in(self.big),
            sub: pieces::text_in(self.sub),
            lines: texts_in(self.lines),
            actions: texts_in(self.actions),
        }
    }
}

impl View for CardOutcome {
    type V = CardView;

    open spec fn view(&self) -> CardView {
        CardView {
            title: self.title@,
            agent: self.agent@,
            domain: self.domain,
            resolve: match self.resolve {
                Some(r) => Some(r@),
                None => None,
            },
        }
    }
}

pub open spec fn cards_of(v: Seq<CardOutcome>) -> Seq<CardView> {
    v.map_values(|c: CardOutcome| c@)
}

impl View for TargetResult {
    type V = ResultView;

    open spec fn view(&self) -> ResultView {
        ResultView {
            target: self.target@,
            cards: cards_of(self.cards@),
            timed_out: self.timed_out,
        }
    }
}

pub open spec fn results_of(v: Seq<TargetResult>) -> Seq<ResultView> {
    v.map_values(|r: TargetResult| r@)
}

impl View for SuggestedAction {
    type V = ActionView;

    open spec fn view(&self) -> ActionView {
        ActionView {
            text: self.text@,
            card: self.card@,
            agent: self.agent@,
            domain: self.domain,
            mode: self.mode,
        }
    }
}

pub open spec fn actions_of(v: Seq<SuggestedAction>) -> Seq<ActionView> {
    v.map_values(|a: SuggestedAction| a@)
}

// ---- tags ----

/// Whether the end of `s` stands inside a tag.
pub open spec fn in_tag(s: Seq<char>) -> bool
    decreases s.len(),
{
    if s.len() == 0 {
        false
    } else if s.last() == '<' {
        true
    } else if s.last() == '>' {
        false
    } else {
        in_tag(s.drop_last())
    }
}

/// The characters of `s` outside tags.
pub open spec fn outside_tags(s: Seq<char>) -> Seq<char>
    decreases s.len(),
{
    if s.len() == 0 {
        s
    } else {
        let p = outside_tags(s.drop_last());
        if s.last() == '<' || s.last() == '>' || in_tag(s.drop_last()) {
            p
        } else {
            p.push(s.last())
        }
    }
}

/// `html` without its tags, the words one space apart.
pub open spec fn plain(html: Seq<char>) -> Seq<char> {
    pieces::joined(pieces::words(outside_tags(html)), " "@)
}

fn strip(v: &Vec<char>) -> (r: Vec<char>)
    ensures
        r@ == plain(v@),
{
    let mut out: Vec<char> = Vec::new();
    let mut inside: bool = false;
    let mut i: usize = 0;
    assert(v@.take(0) =~= Seq::<char>::empty());
    while i < v.len()
        invariant
            i <= v.len(),
            inside == in_tag(v@.take(i as int)),
            out@ == outside_tags(v@.take(i as int)),
        decreases v.len() - i,
    {
        let c = v[i];
        assert(v@.take(i + 1).drop_last() =~= v@.take(i as int));
        assert(v@.take(i + 1).last() == c);
        if c == '<' {
            inside = true;
        } else if c == '>' {
            inside = false;
        } else if !inside {
            out.push(c);
        }
        i += 1;
    }
    assert(v@.take(v.len() as int) =~= v@);
    pieces::join(&pieces::split_words(&out), " ")
}

pub fn strip_tags(html: &str) -> (r: String)
    ensures
        r@ == plain(html@),
{
    chars::text_of(&strip(&chars::chars_of(html)))
}

// ---- one card ----

/// The texts among the entries, in order.
pub open spec fn texts_among(v: Seq<Option<Seq<char>>>) -> Seq<Seq<char>>
    decreases v.len(),
{
    if v.len() == 0 {
        Seq::empty()
    } else {
        match v.last() {
            Some(s) => texts_among(v.drop_last()).push(s),
            None => texts_among(v.drop_last()),
        }
    }
}

/// What a card says in one line, behind its title.
pub open spec fn verdict(r: Option<ResolutionView>) -> Seq<char> {
    match r {
        None => "pending"@,
        Some(r) => match r.big {
            Some(big) => match r.sub {
                Some(sub) => if sub.len() == 0 {
                    big
                } else {
                    big + " — "@ + sub
                },
                None => big,
            },
            None => match r.lines {
                Some(lines) => pieces::joined(
                    pieces::at_most(texts_among(lines).map_values(|l: Seq<char>| plain(l)), 2),
                    "; "@,
                ),
                None => "done"@,
            },
        },
    }
}

pub open spec fn headline_of(c: CardView) -> Seq<char> {
    c.title + ": "@ + verdict(c.resolve)
}

pub open spec fn first_action_of(r: Option<ResolutionView>) -> Option<Seq<char>> {
    match r {
        Some(r) => match r.actions {
            Some(a) => if a.len() > 0 {
                a[0]
            } else {
                None
            },
            None => None,
        },
        None => None,
    }
}

fn headlines(lines: &Vec<Option<String>>) -> (r: Vec<char>)
    ensures
        r@ == pieces::joined(
            pieces::at_most(
                texts_among(lines@.map_values(|s: Option<String>| pieces::text_in(s))).map_values(
                    |l: Seq<char>| plain(l),
                ),
                2,
            ),
            "; "@,
        ),
{
    let mut found: Vec<Vec<char>> = Vec::new();
    let ghost all = lines@.map_values(|s: Option<String>| pieces::text_in(s));
    let ghost f = |l: Seq<char>| plain(l);
    let mut i: usize = 0;
    assert(all.take(0) =~= Seq::empty());
    assert(pieces::texts(found@) =~= pieces::at_most(texts_among(all.take(0)).map_values(f), 2));
    while i < lines.len()
        invariant
            i <= lines.len(),
            all == lines@.map_values(|s: Option<String>| pieces::text_in(s)),
            f == (|l: Seq<char>| plain(l)),
            pieces::texts(found@) == pieces::at_most(texts_among(all.take(i as int)).map_values(f), 2),
        decreases lines.len() - i,
    {
        let ghost p = all.take(i as int);
        assert(all.take(i + 1).drop_last() =~= p);
        assert(all.take(i + 1).last() == pieces::text_in(lines@[i as int]));
        let ghost o = found@;
        match &lines[i] {
            Some(s) => {
                proof {
                    assert(texts_among(all.take(i + 1)) == texts_among(p).push(s@));
                    assert(texts_among(p).push(s@).map_values(f) =~= texts_among(p).map_values(
                        f,
                    ).push(plain(s@)));
                }
                assert(pieces::texts(o).len() == o.len());
                if found.len() < 2 {
                    let x = strip(&chars::chars_of(s.as_str()));
                    found.push(x);
                    assert(pieces::texts(found@) =~= pieces::texts(o).push(plain(s@)));
                }
            },
            None => {},
        }
        assert(pieces::texts(found@) =~= pieces::at_most(
            texts_among(all.take(i + 1)).map_values(f),
            2,
        ));
        i += 1;
    }
    assert(all.take(lines.len() as int) =~= all);
    pieces::join(&found, "; ")
}

impl CardOutcome {
    /// One-line fact for the synthesis block.
    pub fn headline(&self) -> (r: String)
        ensures
            r@ == headline_of(self@),
    {
        let mut out = self.title.clone();
        out.append(": ");
        match &self.resolve {
            None => {
                out.append("pending");
            },
            Some(r) => {
                match &r.big {
                    Some(big) => {
                        out.append(big.as_str());
                        match &r.sub {
                            Some(sub) => {
                                if !sub.as_str().is_empty() {
                                    out.append(" — ");
                                    out.append(sub.as_str());
                                }
                            },
                            None => {},
                        }
                    },
                    None => {
                        match &r.lines {
                            Some(lines) => {
                                let h = chars::text_of(&headlines(lines));
                                out.append(h.as_str());
                            },
                            None => {
                                out.append("done");
                            },
                        }
                    },
                }
            },
        }
        assert(out@ =~= headline_of(self@));
        out
    }

    pub fn first_action(&self) -> (r: Option<String>)
        ensures
            pieces::text_in(r) == first_action_of(self@.resolve),
    {
        match &self.resolve {
            Some(r) => match &r.actions {
                Some(a) => if a.len() > 0 {
                    assert(r@.actions->0[0] == pieces::text_in(a@[0]));
                    match &a[0] {
                        Some(s) => Some(s.clone()),
                        None => None,
                    }
                } else {
                    None
                },
                None => None,
            },
            None => None,
        }
    }
}

// ---- the facts block ----

pub open spec fn label_of(d: Domain) -> Seq<char> {
    match d {
        Domain::Work => "Work"@,
        Domain::Home => "Home"@,
        Domain::Shared => "Today"@,
    }
}

fn domain_label(d: Domain) -> (r: &'static str)
    ensures
        r@ == label_of(d),
{
    match d {
        Domain::Work => "Work",
        Domain::Home => "Home",
        Domain::Shared => "Today",
    }
}

pub open spec fn result_line(r: ResultView) -> Seq<char> {
    "["@ + label_of(r.target.world) + " · "@ + r.target.agent + " · via "@ + r.target.scenario
        + "]"@ + if r.timed_out {
        " (timed out — partial)"@
    } else {
        Seq::empty()
    }
}

pub open spec fn card_line(c: CardView) -> Seq<char> {
    "  - "@ + plain(headline_of(c))
}

/// A result's line and the lines of its cards.
pub open spec fn result_lines(r: ResultView) -> Seq<Seq<char>> {
    seq![result_line(r)] + r.cards.map_values(|c: CardView| card_line(c))
}

pub open spec fn all_lines(rs: Seq<ResultView>) -> Seq<Seq<char>>
    decreases rs.len(),
{
    if rs.len() == 0 {
        Seq::empty()
    } else {
        all_lines(rs.drop_last()) + result_lines(rs.last())
    }
}

pub open spec fn note_lines(notes: Seq<Seq<char>>) -> Seq<Seq<char>> {
    if notes.len() == 0 {
        Seq::empty()
    } else {
        seq!["[Memory]"@] + notes.map_values(|m: Seq<char>| "  - "@ + m)
    }
}

/// The facts of a turn: the intent, then each result with its cards, then what memory adds.
pub open spec fn facts_text(
    intent: Seq<char>,
    rs: Seq<ResultView>,
    notes: Seq<Seq<char>>,
) -> Seq<char> {
    pieces::joined(seq!["Intent: "@ + intent] + all_lines(rs) + note_lines(notes), "\n"@)
}

fn line_of_result(r: &TargetResult) -> (s: String)
    ensures
        s@ == result_line(r@),
{
    let mut s = "[".to_string();
    s.append(domain_label(r.target.world));
    s.append(" · ");
    s.append(r.target.agent.as_str());
    s.append(" · via ");
    s.append(r.target.scenario.as_str());
    s.append("]");
    if r.timed_out {
        s.append(" (timed out — partial)");
    }
    assert(s@ =~= result_line(r@));
    s
}

fn push_cards(lines: &mut Vec<String>, cards: &Vec<CardOutcome>)
    ensures
        pieces::strings(final(lines)@) == pieces::strings(old(lines)@) + cards_of(
            cards@,
        ).map_values(|c: CardView| card_line(c)),
{
    let ghost before = pieces::strings(lines@);
    let ghost want = cards_of(cards@).map_values(|c: CardView| card_line(c));
    let mut i: usize = 0;
    while i < cards.len()
        invariant
            i <= cards.len(),
            want == cards_of(cards@).map_values(|c: CardView| card_line(c)),
            pieces::strings(lines@) == before + want.take(i as int),
        decreases cards.len() - i,
    {
        let mut s = "  - ".to_string();
        let h = strip_tags(cards[i].headline().as_str());
        s.append(h.as_str());
        assert(s@ == want[i as int]);
        let ghost o = lines@;
        lines.push(s);
        assert(pieces::strings(lines@) =~= pieces::strings(o).push(want[i as int]));
        i += 1;
        assert(pieces::strings(lines@) =~= before + want.take(i as int));
    }
    assert(want.take(cards.len() as int) =~= want);
}

/// Structured facts block handed to the model.
pub fn facts_block(
    intent: &str,
    results: &Vec<TargetResult>,
    memory_notes: &Vec<String>,
) -> (r: String)
    ensures
        r@ == facts_text(intent@, results_of(results@), pieces::strings(memory_notes@)),
{
    let ghost rs = results_of(results@);
    let ghost notes = pieces::strings(memory_notes@);
    let mut first = "Intent: ".to_string();
    first.append(intent);
    let ghost head = seq!["Intent: "@ + intent@];
    let mut lines: Vec<String> = vec![first];
    assert(rs.take(0) =~= Seq::empty());
    assert(pieces::strings(lines@) =~= head + all_lines(rs.take(0)));
    let mut i: usize = 0;
    while i < results.len()
        invariant
            i <= results.len(),
            rs == results_of(results@),
            pieces::strings(lines@) == head + all_lines(rs.take(i as int)),
        decreases results.len() - i,
    {
        let ghost p = rs.take(i as int);
        let ghost o = lines@;
        assert(rs.take(i + 1).drop_last() =~= p);
        assert(rs.take(i + 1).last() == results@[i as int]@);
        let s = line_of_result(&results[i]);
        lines.push(s);
        assert(pieces::strings(lines@) =~= pieces::strings(o).push(s@));
        push_cards(&mut lines, &results[i].cards);
        assert(pieces::strings(lines@) =~= head + all_lines(rs.take(i + 1)));
        i += 1;
    }
    assert(rs.take(results.len() as int) =~= rs);
    let ghost base = head + all_lines(rs);
    if memory_notes.len() > 0 {
        let ghost want = notes.map_values(|m: Seq<char>| "  - "@ + m);
        let m = "[Memory]".to_string();
        let ghost o = lines@;
        lines.push(m);
        assert(pieces::strings(lines@) =~= base + (seq!["[Memory]"@] + want.take(0)));
        let mut k: usize = 0;
        while k < memory_notes.len()
            invariant
                k <= memory_notes.len(),
                notes == pieces::strings(memory_notes@),
                want == notes.map_values(|m: Seq<char>| "  - "@ + m),
                pieces::strings(lines@) == base + (seq!["[Memory]"@] + want.take(k as int)),
            decreases memory_notes.len() - k,
        {
            let mut s = "  - ".to_string();
            s.append(memory_notes[k].as_str());
            assert(s@ == want[k as int]);
            let ghost o = lines@;
            lines.push(s);
            assert(pieces::strings(lines@) =~= pieces::strings(o).push(want[k as int]));
            k += 1;
            assert(pieces::strings(lines@) =~= base + (seq!["[Memory]"@] + want.take(k as int)));
        }
        assert(want.take(memory_notes.len() as int) =~= want);
    }
    assert(pieces::strings(lines@) =~= head + all_lines(rs) + note_lines(notes));
    pieces::join_strings(&lines, "\n")
}

// ---- the template ----

/// Every card of the results, in order.
pub open spec fn all_cards(rs: Seq<ResultView>) -> Seq<CardView>
    decreases rs.len(),
{
    if rs.len() == 0 {
        Seq::empty()
    } else {
        all_cards(rs.drop_last()) + rs.last().cards
    }
}

/// The cards of one world, in order.
pub open spec fn cards_in(cards: Seq<CardView>, d: Domain) -> Seq<CardView>
    decreases cards.len(),
{
    if cards.len() == 0 {
        Seq::empty()
    } else if cards.last().domain == d {
        cards_in(cards.drop_last(), d).push(cards.last())
    } else {
        cards_in(cards.drop_last(), d)
    }
}

/// A card's fact with its title in bold.
pub open spec fn bold_fact(c: CardView) -> Seq<char> {
    match scan::cut(headline_of(c), ": "@) {
        Some((title, rest)) => "<b>"@ + title + "</b> "@ + plain(rest),
        None => plain(headline_of(c)),
    }
}

/// The sentence of one world, where it has a card.
pub open spec fn world_part(cards: Seq<CardView>, d: Domain) -> Seq<Seq<char>> {
    let own = cards_in(cards, d);
    if own.len() == 0 {
        Seq::empty()
    } else {
        seq![
            label_of(d) + ": "@ + pieces::joined(
                own.map_values(|c: CardView| bold_fact(c)),
                " · "@,
            ) + "."@,
        ]
    }
}

/// What a card proposes, but for the mode.
#[verifier::ext_equal]
pub struct ProposalView {
    pub text: Seq<char>,
    pub card: Seq<char>,
    pub agent: Seq<char>,
    pub domain: Domain,
}

pub open spec fn proposal_of(a: ActionView) -> ProposalView {
    ProposalView { text: a.text, card: a.card, agent: a.agent, domain: a.domain }
}

pub open spec fn proposals_of(v: Seq<SuggestedAction>) -> Seq<ProposalView> {
    v.map_values(|a: SuggestedAction| proposal_of(a@))
}

/// The proposals of the cards that have one.
pub open spec fn proposals(cards: Seq<CardView>) -> Seq<ProposalView>
    decreases cards.len(),
{
    if cards.len() == 0 {
        Seq::empty()
    } else {
        let c = cards.last();
        match first_action_of(c.resolve) {
            Some(a) => proposals(cards.drop_last()).push(
                ProposalView {
                    text: a + " — "@ + c.title,
                    card: c.title,
                    agent: c.agent,
                    domain: c.domain,
                },
            ),
            None => proposals(cards.drop_last()),
        }
    }
}

pub open spec fn timed_out(rs: Seq<ResultView>) -> bool {
    exists|i: int| 0 <= i < rs.len() && (#[trigger] rs[i]).timed_out
}

/// The sentences of the template, one after another.
pub open spec fn template_parts(
    intent: Seq<char>,
    rs: Seq<ResultView>,
    notes: Seq<Seq<char>>,
) -> Seq<Seq<char>> {
    let cards = all_cards(rs);
    let parts = world_part(cards, Domain::Work) + world_part(cards, Domain::Home) + world_part(
        cards,
        Domain::Shared,
    ) + if timed_out(rs) {
        seq!["One agent did not finish in time; its card shows what it had."@]
    } else {
        Seq::empty()
    } + if notes.len() > 0 {
        seq![notes[0]]
    } else {
        Seq::empty()
    };
    if parts.len() == 0 {
        seq!["I looked into <b>"@ + plain(intent) + "</b> but nothing came back yet."@]
    } else {
        parts
    }
}

/// The proposals of the template: Work first, then Home, then Shared.
pub open spec fn template_proposals(rs: Seq<ResultView>) -> Seq<ProposalView> {
    let cards = all_cards(rs);
    proposals(cards_in(cards, Domain::Work)) + proposals(cards_in(cards, Domain::Home))
        + proposals(cards_in(cards, Domain::Shared))
}

/// Every mode is one that `mode_for` gives for the action's agent.
pub open spec fn modes_from<F: Fn(&str) -> Mode>(actions: Seq<SuggestedAction>, mode_for: F) -> bool {
    forall|i: int|
        0 <= i < actions.len() ==> exists|agent: &str|
            agent@ == (#[trigger] actions[i]).agent@ && call_ensures(
                mode_for,
                (agent,),
                actions[i].mode,
            )
}

fn cards_by_domain<'a>(results: &'a Vec<TargetResult>, d: Domain) -> (r: Vec<&'a CardOutcome>)
    ensures
        r@.map_values(|c: &CardOutcome| c@) == cards_in(all_cards(results_of(results@)), d),
{
    let ghost rs = results_of(results@);
    let ghost view = |c: &CardOutcome| c@;
    let mut out: Vec<&'a CardOutcome> = Vec::new();
    let mut i: usize = 0;
    assert(rs.take(0) =~= Seq::empty());
    assert(out@.map_values(view) =~= cards_in(all_cards(rs.take(0)), d));
    while i < results.len()
        invariant
            i <= results.len(),
            rs == results_of(results@),
            view == (|c: &CardOutcome| c@),
            out@.map_values(view) == cards_in(all_cards(rs.take(i as int)), d),
        decreases results.len() - i,
    {
        let ghost p = all_cards(rs.take(i as int));
        let ghost more = rs[i as int].cards;
        assert(rs.take(i + 1).drop_last() =~= rs.take(i as int));
        assert(all_cards(rs.take(i + 1)) =~= p + more);
        let cards = &results[i].cards;
        let mut k: usize = 0;
        assert(p + more.take(0) =~= p);
        while k < cards.len()
            invariant
                k <= cards.len(),
                more == cards_of(cards@),
                view == (|c: &CardOutcome| c@),
                out@.map_values(view) == cards_in(p + more.take(k as int), d),
            decreases cards.len() - k,
        {
            let c = &cards[k];
            let ghost o = out@;
            assert((p + more.take(k + 1)).drop_last() =~= p + more.take(k as int));
            assert((p + more.take(k + 1)).last() == c@);
            if c.domain == d {
                out.push(c);
                assert(out@.map_values(view) =~= o.map_values(view).push(c@));
            }
            k += 1;
        }
        assert(more.take(cards.len() as int) =~= more);
        i += 1;
    }
    assert(rs.take(results.len() as int) =~= rs);
    out
}

fn fact_of(c: &CardOutcome) -> (r: Vec<char>)
    ensures
        r@ == bold_fact(c@),
{
    let h = chars::chars_of(c.headline().as_str());
    match scan::split_once(&h, ": ") {
        Some((title, rest)) => {
            let a = scan::concat(&chars::chars_of("<b>"), &title);
            let b = scan::concat(&a, &chars::chars_of("</b> "));
            scan::concat(&b, &strip(&rest))
        },
        None => strip(&h),
    }
}

fn push_world(parts: &mut Vec<String>, cards: &Vec<&CardOutcome>, d: Domain, Ghost(all): Ghost<Seq<CardView>>)
    requires
        cards@.map_values(|c: &CardOutcome| c@) == cards_in(all, d),
    ensures
        pieces::strings(final(parts)@) == pieces::strings(old(parts)@) + world_part(all, d),
{
    let ghost own = cards_in(all, d);
    let ghost want = own.map_values(|c: CardView| bold_fact(c));
    let ghost before = pieces::strings(parts@);
    assert(own.len() == cards@.len());
    if cards.len() == 0 {
        assert(before + world_part(all, d) =~= before);
        return ;
    }
    let mut facts: Vec<Vec<char>> = Vec::new();
    let mut i: usize = 0;
    while i < cards.len()
        invariant
            i <= cards.len(),
            own == cards@.map_values(|c: &CardOutcome| c@),
            want == own.map_values(|c: CardView| bold_fact(c)),
            pieces::texts(facts@) == want.take(i as int),
        decreases cards.len() - i,
    {
        let f = fact_of(cards[i]);
        assert(own[i as int] == cards@[i as int]@);
        let ghost o = facts@;
        facts.push(f);
        assert(pieces::texts(facts@) =~= pieces::texts(o).push(want[i as int]));
        i += 1;
        assert(pieces::texts(facts@) =~= want.take(i as int));
    }
    assert(want.take(cards.len() as int) =~= want);
    let mut s = domain_label(d).to_string();
    s.append(": ");
    let body = chars::text_of(&pieces::join(&facts, " · "));
    s.append(body.as_str());
    s.append(".");
    let ghost o = parts@;
    parts.push(s);
    assert(pieces::strings(parts@) =~= pieces::strings(o).push(s@));
    assert(pieces::strings(parts@) =~= before + world_part(all, d));
}

fn push_actions<F: Fn(&str) -> Mode>(
    actions: &mut Vec<SuggestedAction>,
    cards: &Vec<&CardOutcome>,
    mode_for: &F,
)
    requires
        forall|agent: &str| call_requires(*mode_for, (agent,)),
        modes_from(old(actions)@, *mode_for),
    ensures
        proposals_of(final(actions)@) == proposals_of(old(actions)@) + proposals(
            cards@.map_values(|c: &CardOutcome| c@),
        ),
        modes_from(final(actions)@, *mode_for),
{
    let ghost cs = cards@.map_values(|c: &CardOutcome| c@);
    let ghost before = proposals_of(actions@);
    let mut i: usize = 0;
    assert(cs.take(0) =~= Seq::empty());
    assert(before + proposals(cs.take(0)) =~= before);
    while i < cards.len()
        invariant
            i <= cards.len(),
            cs == cards@.map_values(|c: &CardOutcome| c@),
            forall|agent: &str| call_requires(*mode_for, (agent,)),
            modes_from(actions@, *mode_for),
            proposals_of(actions@) == before + proposals(cs.take(i as int)),
        decreases cards.len() - i,
    {
        let c = cards[i];
        assert(cs.take(i + 1).drop_last() =~= cs.take(i as int));
        assert(cs.take(i + 1).last() == c@);
        match c.first_action() {
            Some(a) => {
                let mut text = a;
                text.append(" — ");
                text.append(c.title.as_str());
                let mode = mode_for(c.agent.as_str());
                let act = SuggestedAction {
                    text,
                    card: c.title.clone(),
                    agent: c.agent.clone(),
                    domain: c.domain,
                    mode,
                };
                let ghost o = actions@;
                actions.push(act);
                assert(proposals_of(actions@) =~= proposals_of(o).push(proposal_of(act@)));
                assert(proposals_of(actions@) =~= before + proposals(cs.take(i + 1)));
                assert forall|j: int| 0 <= j < actions@.len() implies exists|agent: &str|
                    agent@ == (#[trigger] actions@[j]).agent@ && call_ensures(
                        *mode_for,
                        (agent,),
                        actions@[j].mode,
                    ) by {
                    if j < o.len() {
                        assert(actions@[j] == o[j]);
                    }
                }
            },
            None => {},
        }
        i += 1;
    }
    assert(cs.take(cards.len() as int) =~= cs);
}

fn any_timed_out(results: &Vec<TargetResult>) -> (r: bool)
    ensures
        r == timed_out(results_of(results@)),
{
    let ghost rs = results_of(results@);
    let mut i: usize = 0;
    while i < results.len()
        invariant
            i <= results.len(),
            rs == results_of(results@),
            forall|j: int| 0 <= j < i ==> !(#[trigger] rs[j]).timed_out,
        decreases results.len() - i,
    {
        assert(rs[i as int] == results@[i as int]@);
        if results[i].timed_out {
            return true;
        }
        i += 1;
    }
    false
}

/// Deterministic synthesis: grouped by world, key facts bold, actions tagged with a mode.
pub fn compose_template<F: Fn(&str) -> Mode>(
    intent: &str,
    results: &Vec<TargetResult>,
    memory_notes: &Vec<String>,
    mode_for: &F,
) -> (r: Synthesis)
    requires
        forall|agent: &str| call_requires(*mode_for, (agent,)),
    ensures
        r.html@ == pieces::joined(
            template_parts(intent@, results_of(results@), pieces::strings(memory_notes@)),
            " "@,
        ),
        proposals_of(r.actions@) == template_proposals(results_of(results@)),
        modes_from(r.actions@, *mode_for),
        r.source@ == "template"@,
{
    let ghost rs = results_of(results@);
    let ghost notes = pieces::strings(memory_notes@);
    let ghost all = all_cards(rs);
    let work = cards_by_domain(results, Domain::Work);
    let home = cards_by_domain(results, Domain::Home);
    let shared = cards_by_domain(results, Domain::Shared);
    let mut parts: Vec<String> = Vec::new();
    push_world(&mut parts, &work, Domain::Work, Ghost(all));
    push_world(&mut parts, &home, Domain::Home, Ghost(all));
    push_world(&mut parts, &shared, Domain::Shared, Ghost(all));
    let mut actions: Vec<SuggestedAction> = Vec::new();
    push_actions(&mut actions, &work, mode_for);
    push_actions(&mut actions, &home, mode_for);
    push_actions(&mut actions, &shared, mode_for);
    assert(proposals_of(actions@) =~= template_proposals(rs));
    let ghost worlds = world_part(all, Domain::Work) + world_part(all, Domain::Home) + world_part(
        all,
        Domain::Shared,
    );
    assert(pieces::strings(parts@) =~= worlds);
    let ghost late: Seq<Seq<char>> = if timed_out(rs) {
        seq!["One agent did not finish in time; its card shows what it had."@]
    } else {
        Seq::empty()
    };
    if any_timed_out(results) {
        let s = "One agent did not finish in time; its card shows what it had.".to_string();
        let ghost o = parts@;
        parts.push(s);
        assert(pieces::strings(parts@) =~= pieces::strings(o).push(s@));
    }
    assert(pieces::strings(parts@) =~= worlds + late);
    let ghost said: Seq<Seq<char>> = if notes.len() > 0 {
        seq![notes[0]]
    } else {
        Seq::empty()
    };
    if memory_notes.len() > 0 {
        let s = memory_notes[0].clone();
        assert(s@ == notes[0]);
        let ghost o = parts@;
        parts.push(s);
        assert(pieces::strings(parts@) =~= pieces::strings(o).push(s@));
    }
    assert(pieces::strings(parts@) =~= worlds + late + said);
    if parts.len() == 0 {
        let mut s = "I looked into <b>".to_string();
        let p = strip_tags(intent);
        s.append(p.as_str());
        s.append("</b> but nothing came back yet.");
        let ghost o = parts@;
        parts.push(s);
        assert(pieces::strings(parts@) =~= seq![s@]);
    }
    assert(pieces::strings(parts@) =~= template_parts(intent@, rs, notes));
    Synthesis { html: pieces::join_strings(&parts, " "), actions, source: "template" }
}

/// The prompt handed to the model: fixed instructions around the facts block.
pub open spec fn prompt_text(facts: Seq<char>) -> Seq<char> {
    "You are the Mother Agent's voice (Suzy). Compose ONE 2–4 sentence HTML summary from these facts. Group by world when both appear. Use <b> for key numbers and names. Cite memory as \"(you told me)\" for known items and \"(I think)\" for assumed ones. No markdown, no wrapper tags.\n\n"@
        + facts + "\n\nWrite the HTML now."@
}

/// The prompt for a facts block.
pub fn synthesis_prompt(
    intent: &str,
    results: &Vec<TargetResult>,
    memory_notes: &Vec<String>,
) -> (r: String)
    ensures
        r@ == prompt_text(
            facts_text(intent@, results_of(results@), pieces::strings(memory_notes@)),
        ),
{
    let mut s =
        "You are the Mother Agent's voice (Suzy). Compose ONE 2–4 sentence HTML summary from these facts. Group by world when both appear. Use <b> for key numbers and names. Cite memory as \"(you told me)\" for known items and \"(I think)\" for assumed ones. No markdown, no wrapper tags.\n\n".to_string();
    let facts = facts_block(intent, results, memory_notes);
    s.append(facts.as_str());
    s.append("\n\nWrite the HTML now.");
    s
}

/// The text a model run ends with: what the last chunk that said anything said, trimmed; `None`
/// where that is empty.
pub open spec fn final_text(chunks: Seq<Seq<char>>) -> Option<Seq<char>> {
    let t = scan::trimmed(last_said(chunks));
    if t.len() == 0 {
        None
    } else {
        Some(t)
    }
}

/// The last chunk that is not empty.
pub open spec fn last_said(chunks: Seq<Seq<char>>) -> Seq<char>
    decreases chunks.len(),
{
    if chunks.len() == 0 {
        Seq::empty()
    } else if chunks.last().len() > 0 {
        chunks.last()
    } else {
        last_said(chunks.drop_last())
    }
}

/// The text a run of a prompt ends with, from the chunks it streamed.
pub fn collect_prompt(chunks: &Vec<String>) -> (r: Option<String>)
    ensures
        pieces::text_in(r) == final_text(pieces::strings(chunks@)),
{
    let ghost cs = pieces::strings(chunks@);
    let mut n: usize = chunks.len();
    assert(cs.take(n as int) =~= cs);
    while n > 0 && chunks[n - 1].as_str().is_empty()
        invariant
            n <= chunks.len(),
            cs == pieces::strings(chunks@),
            last_said(cs) == last_said(cs.take(n as int)),
        decreases n,
    {
        assert(cs.take(n as int).last() == chunks@[n - 1]@);
        assert(cs.take(n as int).drop_last() =~= cs.take(n - 1));
        n -= 1;
    }
    let said = if n == 0 {
        Vec::new()
    } else {
        assert(cs.take(n as int).last() == chunks@[n - 1]@);
        chars::chars_of(chunks[n - 1].as_str())
    };
    assert(said@ =~= last_said(cs));
    let t = scan::trim(&said);
    if t.len() == 0 {
        None
    } else {
        Some(chars::text_of(&t))
    }
}

/// The template with the model's text in place of its own, where there is one.
pub open spec fn composed(template: Synthesis, generated: Option<String>, r: Synthesis) -> bool {
    &&& r.actions == template.actions
    &&& match generated {
        Some(html) => r.html == html && r.source@ == "llm"@,
        None => r.html == template.html && r.source == template.source,
    }
}

/// The synthesis of a turn: the model's text where it gave one, the template otherwise. The
/// actions are the template's either way.
pub fn compose(template: Synthesis, generated: Option<String>) -> (r: Synthesis)
    ensures
        composed(template, generated, r),
{
    match generated {
        Some(html) => Synthesis { html, actions: template.actions, source: "llm" },
        None => template,
    }
}

// ---- laws ----

proof fn lemma_outside_tags(s: Seq<char>)
    ensures
        scan::free_of(outside_tags(s), '<'),
        scan::free_of(outside_tags(s), '>'),
    decreases s.len(),
{
    if s.len() > 0 {
        lemma_outside_tags(s.drop_last());
    }
}

/// A text without its tags has neither an opening nor a closing bracket.
pub proof fn law_stripped_text_has_no_tags(html: Seq<char>)
    ensures
        scan::free_of(plain(html), '<'),
        scan::free_of(plain(html), '>'),
{
    reveal_strlit(" ");
    let o = outside_tags(html);
    lemma_outside_tags(html);
    pieces::lemma_words_free(o, '<');
    pieces::lemma_words_free(o, '>');
    pieces::lemma_joined_free(pieces::words(o), " "@, '<');
    pieces::lemma_joined_free(pieces::words(o), " "@, '>');
}

proof fn lemma_tagless(s: Seq<char>)
    requires
        scan::free_of(s, '<'),
        scan::free_of(s, '>'),
    ensures
        outside_tags(s) == s,
        !in_tag(s),
    decreases s.len(),
{
    if s.len() > 0 {
        let init = s.drop_last();
        assert forall|i: int| 0 <= i < init.len() implies #[trigger] init[i] != '<' && init[i]
            != '>' by {
            assert(init[i] == s[i]);
        }
        lemma_tagless(init);
        assert(s[s.len() - 1] != '<' && s[s.len() - 1] != '>');
        assert(s =~= init.push(s.last()));
    }
}

/// Stripping a stripped text changes nothing.
pub proof fn law_stripping_is_idempotent(html: Seq<char>)
    ensures
        plain(plain(html)) == plain(html),
{
    law_stripped_text_has_no_tags(html);
    lemma_tagless(plain(html));
    let ws = pieces::words(outside_tags(html));
    pieces::lemma_words_are_words(outside_tags(html));
    pieces::lemma_words_of_joined(ws);
}

/// The cards by world: those of work, of home, then the shared ones.
pub open spec fn by_world(cards: Seq<CardView>) -> Seq<CardView> {
    cards_in(cards, Domain::Work) + cards_in(cards, Domain::Home) + cards_in(cards, Domain::Shared)
}

proof fn lemma_three_multisets<T>(a: Seq<T>, b: Seq<T>, c: Seq<T>)
    ensures
        (a + b + c).to_multiset() == a.to_multiset().add(b.to_multiset()).add(c.to_multiset()),
{
    vstd::seq_lib::lemma_multiset_commutative(a, b);
    vstd::seq_lib::lemma_multiset_commutative(a + b, c);
}

/// Every card is told in exactly one world, and what each proposes is suggested once.
pub proof fn law_every_card_is_told_once(rs: Seq<ResultView>)
    ensures
        by_world(all_cards(rs)).to_multiset() == all_cards(rs).to_multiset(),
        template_proposals(rs).to_multiset() == proposals(all_cards(rs)).to_multiset(),
{
    lemma_every_card_once(all_cards(rs));
}

proof fn lemma_every_card_once(cards: Seq<CardView>)
    ensures
        by_world(cards).to_multiset() == cards.to_multiset(),
        (proposals(cards_in(cards, Domain::Work)) + proposals(cards_in(cards, Domain::Home))
            + proposals(cards_in(cards, Domain::Shared))).to_multiset() == proposals(
            cards,
        ).to_multiset(),
    decreases cards.len(),
{
    let w = cards_in(cards, Domain::Work);
    let h = cards_in(cards, Domain::Home);
    let s = cards_in(cards, Domain::Shared);
    lemma_three_multisets(w, h, s);
    lemma_three_multisets(proposals(w), proposals(h), proposals(s));
    if cards.len() > 0 {
        let init = cards.drop_last();
        let c = cards.last();
        lemma_every_card_once(init);
        let w0 = cards_in(init, Domain::Work);
        let h0 = cards_in(init, Domain::Home);
        let s0 = cards_in(init, Domain::Shared);
        lemma_three_multisets(w0, h0, s0);
        lemma_three_multisets(proposals(w0), proposals(h0), proposals(s0));
        init.to_multiset_ensures();
        w0.to_multiset_ensures();
        h0.to_multiset_ensures();
        s0.to_multiset_ensures();
        proposals(init).to_multiset_ensures();
        proposals(w0).to_multiset_ensures();
        proposals(h0).to_multiset_ensures();
        proposals(s0).to_multiset_ensures();
        assert(cards =~= init.push(c));
        assert(w0.push(c).drop_last() =~= w0);
        assert(h0.push(c).drop_last() =~= h0);
        assert(s0.push(c).drop_last() =~= s0);
        assert(by_world(cards).to_multiset() =~= by_world(init).to_multiset().insert(c));
        let before = proposals(w0) + proposals(h0) + proposals(s0);
        let after = proposals(w) + proposals(h) + proposals(s);
        match first_action_of(c.resolve) {
            Some(a) => {
                let p = ProposalView {
                    text: a + " — "@ + c.title,
                    card: c.title,
                    agent: c.agent,
                    domain: c.domain,
                };
                assert(after.to_multiset() =~= before.to_multiset().insert(p));
            },
            None => {
                assert(after.to_multiset() =~= before.to_multiset());
            },
        }
    } else {
        assert(by_world(cards) =~= cards);
        assert(proposals(w) + proposals(h) + proposals(s) =~= proposals(cards));
    }
}

proof fn lemma_concat_free(a: Seq<char>, b: Seq<char>, c: char)
    requires
        scan::free_of(a, c),
        scan::free_of(b, c),
    ensures
        scan::free_of(a + b, c),
{
    assert forall|i: int| 0 <= i < (a + b).len() implies #[trigger] (a + b)[i] != c by {
        if i < a.len() {
            assert((a + b)[i] == a[i]);
        } else {
            assert((a + b)[i] == b[i - a.len()]);
        }
    }
}

/// The names of the target hold no `c`.
pub open spec fn named_without(t: TargetView, c: char) -> bool {
    scan::free_of(t.agent, c) && scan::free_of(t.scenario, c)
}

proof fn lemma_result_line_free(r: ResultView, c: char)
    requires
        c == '<' || c == '>',
        named_without(r.target, c),
    ensures
        scan::free_of(result_line(r), c),
{
    reveal_strlit("[");
    reveal_strlit("Work");
    reveal_strlit("Home");
    reveal_strlit("Today");
    reveal_strlit(" · ");
    reveal_strlit(" · via ");
    reveal_strlit("]");
    reveal_strlit(" (timed out — partial)");
    let a = "["@ + label_of(r.target.world);
    lemma_concat_free("["@, label_of(r.target.world), c);
    lemma_concat_free(a, " · "@, c);
    let b = a + " · "@;
    lemma_concat_free(b, r.target.agent, c);
    let d = b + r.target.agent;
    lemma_concat_free(d, " · via "@, c);
    let e = d + " · via "@;
    lemma_concat_free(e, r.target.scenario, c);
    let f = e + r.target.scenario;
    lemma_concat_free(f, "]"@, c);
    let end = if r.timed_out {
        " (timed out — partial)"@
    } else {
        Seq::empty()
    };
    lemma_concat_free(f + "]"@, end, c);
}

proof fn lemma_lines_free(rs: Seq<ResultView>, c: char)
    requires
        c == '<' || c == '>',
        forall|i: int| 0 <= i < rs.len() ==> named_without((#[trigger] rs[i]).target, c),
    ensures
        forall|k: int|
            0 <= k < all_lines(rs).len() ==> scan::free_of(#[trigger] all_lines(rs)[k], c),
    decreases rs.len(),
{
    if rs.len() > 0 {
        let init = rs.drop_last();
        let r = rs.last();
        assert forall|i: int| 0 <= i < init.len() implies named_without(
            (#[trigger] init[i]).target,
            c,
        ) by {
            assert(init[i] == rs[i]);
        }
        lemma_lines_free(init, c);
        assert(rs[rs.len() - 1] == r);
        lemma_result_line_free(r, c);
        reveal_strlit("  - ");
        let a = all_lines(init);
        let b = result_lines(r);
        assert forall|k: int| 0 <= k < (a + b).len() implies scan::free_of(
            #[trigger] (a + b)[k],
            c,
        ) by {
            if k < a.len() {
                assert((a + b)[k] == a[k]);
            } else if k > a.len() {
                let card = r.cards[k - a.len() - 1];
                assert((a + b)[k] == card_line(card));
                law_stripped_text_has_no_tags(headline_of(card));
                lemma_concat_free("  - "@, plain(headline_of(card)), c);
            }
        }
    }
}

/// The facts hold no tag that a card brought: whatever the cards say, the text is free of `<` and
/// `>` where the intent, the names of the targets and the notes are.
pub proof fn law_facts_are_tagless(
    intent: Seq<char>,
    rs: Seq<ResultView>,
    notes: Seq<Seq<char>>,
    c: char,
)
    requires
        c == '<' || c == '>',
        scan::free_of(intent, c),
        forall|i: int| 0 <= i < rs.len() ==> named_without((#[trigger] rs[i]).target, c),
        forall|i: int| 0 <= i < notes.len() ==> scan::free_of(#[trigger] notes[i], c),
    ensures
        scan::free_of(facts_text(intent, rs, notes), c),
{
    reveal_strlit("Intent: ");
    reveal_strlit("[Memory]");
    reveal_strlit("  - ");
    reveal_strlit("\n");
    lemma_concat_free("Intent: "@, intent, c);
    lemma_lines_free(rs, c);
    let a = seq!["Intent: "@ + intent];
    let b = all_lines(rs);
    let d = note_lines(notes);
    let all = a + b + d;
    assert forall|k: int| 0 <= k < all.len() implies scan::free_of(#[trigger] all[k], c) by {
        if k == 0 {
            assert(all[k] == "Intent: "@ + intent);
        } else if k < 1 + b.len() {
            assert(all[k] == b[k - 1]);
        } else {
            let m = k - 1 - b.len();
            assert(all[k] == d[m]);
            if m > 0 {
                assert(d[m] == "  - "@ + notes[m - 1]);
                lemma_concat_free("  - "@, notes[m - 1], c);
            }
        }
    }
    pieces::lemma_joined_free(all, "\n"@, c);
}

} // verus!
