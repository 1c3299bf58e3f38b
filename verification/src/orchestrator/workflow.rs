//! The stream of a scenario whose cards are filled by one agent each.
//!
//! A [`Run`] takes the events of the agents one by one and says what to do about each: show a
//! status line on a card, or resolve a card from what its agent's tools and the agent itself
//! said. Every card that an agent fills is resolved exactly once.

use vstd::prelude::*;

use crate::clock::Timestamp;
use crate::text::chars;
use crate::text::pieces;

verus! {

/// The card that an agent fills.
pub struct AgentSlot {
    pub author: String,
    pub index: usize,
}

#[verifier::ext_equal]
pub struct SlotView {
    pub author: Seq<char>,
    pub index: int,
}

impl View for AgentSlot {
    type V = SlotView;

    open spec fn view(&self) -> SlotView {
        SlotView { author: self.author@, index: self.index as int }
    }
}

pub open spec fn slots_of(v: Seq<AgentSlot>) -> Seq<SlotView> {
    v.map_values(|s: AgentSlot| s@)
}

/// The members of a tool's answer that are texts, as far as the streams read them.
pub struct ToolResponse {
    pub output: Option<String>,
    pub path: Option<String>,
    pub file_path: Option<String>,
    pub text: Option<String>,
}

#[verifier::ext_equal]
pub struct ResponseView {
    pub output: Option<Seq<char>>,
    pub path: Option<Seq<char>>,
    pub file_path: Option<Seq<char>>,
    pub text: Option<Seq<char>>,
}

impl View for ToolResponse {
    type V = ResponseView;

    open spec fn view(&self) -> ResponseView {
        ResponseView {
            output: pieces::text_in(self.output),
            path: pieces::text_in(self.path),
            file_path: pieces::text_in(self.file_path),
            text: pieces::text_in(self.text),
        }
    }
}

/// One part of what an agent sent.
pub enum Part {
    /// The agent calls a tool.
    Call { name: String },
    /// A tool answered.
    Response { name: String, response: ToolResponse },
    Text { text: String },
    Other,
}

#[verifier::ext_equal]
pub enum PartView {
    Call { name: Seq<char> },
    Response { name: Seq<char>, response: ResponseView },
    Text { text: Seq<char> },
    Other,
}

impl View for Part {
    type V = PartView;

    open spec fn view(&self) -> PartView {
        match self {
            Part::Call { name } => PartView::Call { name: name@ },
            Part::Response { name, response } => PartView::Response {
                name: name@,
                response: response@,
            },
            Part::Text { text } => PartView::Text { text: text@ },
            Part::Other => PartView::Other,
        }
    }
}

pub open spec fn parts_of(v: Seq<Part>) -> Seq<PartView> {
    v.map_values(|p: Part| p@)
}

/// One event of a running workflow.
pub struct AgentEvent {
    pub author: String,
    pub parts: Vec<Part>,
    /// The agent's final response.
    pub is_final: bool,
}

#[verifier::ext_equal]
pub struct EventView {
    pub author: Seq<char>,
    pub parts: Seq<PartView>,
    pub is_final: bool,
}

impl View for AgentEvent {
    type V = EventView;

    open spec fn view(&self) -> EventView {
        EventView { author: self.author@, parts: parts_of(self.parts@), is_final: self.is_final }
    }
}

/// What the driver of a stream does next.
pub enum Act {
    /// Keep the scenario and the intent with the session.
    StoreScenario,
    /// Tell the client which scenario starts, with how many cards.
    SendScenario { total: usize },
    StoreCard { index: usize },
    SendCard { index: usize },
    /// Show on a card that its agent works with a tool.
    Status { index: usize, tool: String },
    /// Resolve a card from what the tools answered and the agent said; `store` keeps it with the
    /// session, `record` notes it in the ledger.
    Resolve {
        index: usize,
        author: String,
        tools: String,
        said: String,
        store: bool,
        record: bool,
    },
    /// Announce what the agents queued for approval during the run (see [`announced`]).
    Announce,
    /// Keep the newest artifacts with the session.
    StoreArtifacts,
    Wait { millis: u64 },
    /// Let the session's guide comment and suggest.
    Suggest,
    SendDone,
}

#[verifier::ext_equal]
pub enum ActView {
    StoreScenario,
    SendScenario { total: int },
    StoreCard { index: int },
    SendCard { index: int },
    Status { index: int, tool: Seq<char> },
    Resolve {
        index: int,
        author: Seq<char>,
        tools: Seq<char>,
        said: Seq<char>,
        store: bool,
        record: bool,
    },
    Announce,
    StoreArtifacts,
    Wait { millis: int },
    Suggest,
    SendDone,
}

impl View for Act {
    type V = ActView;

    open spec fn view(&self) -> ActView {
        match self {
            Act::StoreScenario => ActView::StoreScenario,
            Act::SendScenario { total } => ActView::SendScenario { total: *total as int },
            Act::StoreCard { index } => ActView::StoreCard { index: *index as int },
            Act::SendCard { index } => ActView::SendCard { index: *index as int },
            Act::Status { index, tool } => ActView::Status { index: *index as int, tool: tool@ },
            Act::Resolve { index, author, tools, said, store, record } => ActView::Resolve {
                index: *index as int,
                author: author@,
                tools: tools@,
                said: said@,
                store: *store,
                record: *record,
            },
            Act::Announce => ActView::Announce,
            Act::StoreArtifacts => ActView::StoreArtifacts,
            Act::Wait { millis } => ActView::Wait { millis: *millis as int },
            Act::Suggest => ActView::Suggest,
            Act::SendDone => ActView::SendDone,
        }
    }
}

pub open spec fn acts_of(v: Seq<Act>) -> Seq<ActView> {
    v.map_values(|a: Act| a@)
}

// ---- opening and closing ----

pub open spec fn card_acts(n: int, store: bool) -> Seq<ActView>
    decreases n,
{
    if n <= 0 {
        Seq::empty()
    } else if store {
        card_acts(n - 1, store).push(ActView::StoreCard { index: n - 1 }).push(
            ActView::SendCard { index: n - 1 },
        )
    } else {
        card_acts(n - 1, store).push(ActView::SendCard { index: n - 1 })
    }
}

/// What opens a stream of `n` cards: the scenario, then each card, kept where there is a session
/// to keep it with.
pub open spec fn opening_acts(n: int, store: bool) -> Seq<ActView> {
    (if store {
        seq![ActView::StoreScenario]
    } else {
        Seq::empty()
    }).push(ActView::SendScenario { total: n }) + card_acts(n, store)
}

pub fn opening(n: usize, store: bool) -> (r: Vec<Act>)
    ensures
        acts_of(r@) == opening_acts(n as int, store),
{
    let mut out: Vec<Act> = Vec::new();
    if store {
        out.push(Act::StoreScenario);
    }
    out.push(Act::SendScenario { total: n });
    let ghost head = acts_of(out@);
    assert(head =~= (if store {
        seq![ActView::StoreScenario]
    } else {
        Seq::empty()
    }).push(ActView::SendScenario { total: n as int }));
    let mut i: usize = 0;
    assert(head + card_acts(0, store) =~= head);
    while i < n
        invariant
            i <= n,
            acts_of(out@) == head + card_acts(i as int, store),
        decreases n - i,
    {
        let ghost o = out@;
        if store {
            out.push(Act::StoreCard { index: i });
        }
        out.push(Act::SendCard { index: i });
        let ghost send = ActView::SendCard { index: i as int };
        let ghost keep = ActView::StoreCard { index: i as int };
        assert(acts_of(out@) =~= if store {
            acts_of(o).push(keep).push(send)
        } else {
            acts_of(o).push(send)
        });
        assert(acts_of(out@) =~= head + card_acts(i + 1, store));
        i += 1;
    }
    out
}

/// What closes a stream once every card is resolved.
pub open spec fn closing_acts(store: bool, services: bool) -> Seq<ActView> {
    (if services {
        seq![ActView::Announce]
    } else {
        Seq::empty()
    }) + seq![ActView::Wait { millis: 400 }] + (if store {
        seq![ActView::Suggest]
    } else {
        Seq::empty()
    }) + seq![ActView::SendDone]
}

/// Append what closes a stream.
pub fn closing(out: &mut Vec<Act>, store: bool, services: bool)
    ensures
        acts_of(final(out)@) == acts_of(old(out)@) + closing_acts(store, services),
{
    let ghost o = out@;
    if services {
        out.push(Act::Announce);
    }
    out.push(Act::Wait { millis: 400 });
    if store {
        out.push(Act::Suggest);
    }
    out.push(Act::SendDone);
    assert(acts_of(out@) =~= acts_of(o) + closing_acts(store, services));
}

/// The indices, in order, of the moments that are not before `started`.
pub open spec fn are_since(created: Seq<Timestamp>, started: Timestamp, r: Seq<usize>) -> bool {
    &&& forall|k: int, l: int| 0 <= k < l < r.len() ==> #[trigger] r[k] < #[trigger] r[l]
    &&& forall|i: usize| #[trigger]
        r.contains(i) <==> i < created.len() && created[i as int].instant() >= started.instant()
}

/// Which of the pending approvals, by when they were queued, a stream that started at `started`
/// tells of: those queued since, in order.
pub fn announced(created: &Vec<Timestamp>, started: Timestamp) -> (r: Vec<usize>)
    ensures
        are_since(created@, started, r@),
{
    let mut out: Vec<usize> = Vec::new();
    let mut i: usize = 0;
    while i < created.len()
        invariant
            i <= created.len(),
            forall|k: int| 0 <= k < out@.len() ==> #[trigger] out@[k] < i,
            forall|k: int, l: int|
                0 <= k < l < out@.len() ==> #[trigger] out@[k] < #[trigger] out@[l],
            forall|j: usize| #[trigger]
                out@.contains(j) <==> j < i && created@[j as int].instant() >= started.instant(),
        decreases created.len() - i,
    {
        if created[i].order_key() >= started.order_key() {
            let ghost o = out@;
            out.push(i);
            assert forall|j: usize| #[trigger] out@.contains(j) <==> o.contains(j) || j == i by {
                if o.contains(j) {
                    let k = choose|k: int| 0 <= k < o.len() && o[k] == j;
                    assert(out@[k] == j);
                }
                assert(out@[o.len() as int] == i);
                if out@.contains(j) && j != i {
                    let k = choose|k: int| 0 <= k < out@.len() && out@[k] == j;
                    assert(o[k] == j);
                }
            }
        }
        i += 1;
    }
    out
}

// ---- the run ----

/// The text of a tool's answer.
pub open spec fn answer_text(r: ResponseView) -> Seq<char> {
    match r.output {
        Some(o) => o,
        None => match r.text {
            Some(t) => t,
            None => Seq::empty(),
        },
    }
}

pub fn text_from_response(response: &ToolResponse) -> (r: String)
    ensures
        r@ == answer_text(response@),
{
    match &response.output {
        Some(o) => o.clone(),
        None => match &response.text {
            Some(t) => t.clone(),
            None => String::new(),
        },
    }
}

/// The state of a running workflow.
pub struct Run {
    pub slots: Vec<AgentSlot>,
    pub resolved: Vec<bool>,
    /// What the tools of each card's agent answered.
    pub tools: Vec<String>,
    /// What each card's agent said.
    pub said: Vec<String>,
    /// Whether there is a session to keep cards with.
    pub store: bool,
    /// Whether resolved cards are recorded and queued actions announced.
    pub services: bool,
}

#[verifier::ext_equal]
pub struct RunView {
    pub slots: Seq<SlotView>,
    pub resolved: Seq<bool>,
    pub tools: Seq<Seq<char>>,
    pub said: Seq<Seq<char>>,
    pub store: bool,
    pub services: bool,
}

impl View for Run {
    type V = RunView;

    open spec fn view(&self) -> RunView {
        RunView {
            slots: slots_of(self.slots@),
            resolved: self.resolved@,
            tools: pieces::strings(self.tools@),
            said: pieces::strings(self.said@),
            store: self.store,
            services: self.services,
        }
    }
}

/// Every slot names one of `n` cards.
pub open spec fn slots_fit(slots: Seq<SlotView>, n: int) -> bool {
    forall|k: int| 0 <= k < slots.len() ==> 0 <= (#[trigger] slots[k]).index < n
}

impl RunView {
    /// The buffers are one per card, and every slot names a card.
    pub open spec fn valid(self) -> bool {
        &&& self.tools.len() == self.resolved.len()
        &&& self.said.len() == self.resolved.len()
        &&& slots_fit(self.slots, self.resolved.len() as int)
    }
}

/// The card that `author` fills: that of the first slot with the name.
pub open spec fn slot_index(slots: Seq<SlotView>, author: Seq<char>) -> Option<int>
    decreases slots.len(),
{
    if slots.len() == 0 {
        None
    } else if slots[0].author == author {
        Some(slots[0].index)
    } else {
        slot_index(slots.skip(1), author)
    }
}

proof fn lemma_slot_index(slots: Seq<SlotView>, author: Seq<char>, n: int)
    requires
        slots_fit(slots, n),
    ensures
        slot_index(slots, author) matches Some(i) ==> 0 <= i < n,
    decreases slots.len(),
{
    if slots.len() > 0 && slots[0].author != author {
        assert(slots_fit(slots.skip(1), n));
        lemma_slot_index(slots.skip(1), author, n);
    }
}

pub fn card_index(author: &str, slots: &Vec<AgentSlot>) -> (r: Option<usize>)
    ensures
        match r {
            Some(i) => slot_index(slots_of(slots@), author@) == Some(i as int),
            None => slot_index(slots_of(slots@), author@) is None,
        },
{
    let ghost all = slots_of(slots@);
    let mut k: usize = 0;
    assert(all.skip(0) =~= all);
    while k < slots.len()
        invariant
            k <= slots.len(),
            all == slots_of(slots@),
            slot_index(all, author@) == slot_index(all.skip(k as int), author@),
        decreases slots.len() - k,
    {
        assert(all.skip(k as int)[0] == slots@[k as int]@);
        assert(all.skip(k as int).skip(1) =~= all.skip(k + 1));
        if chars::same(slots[k].author.as_str(), author) {
            return Some(slots[k].index);
        }
        k += 1;
    }
    None
}

/// The run after a part of an event of the agent of card `i`.
pub open spec fn after_part(s: RunView, i: int, p: PartView) -> RunView {
    match p {
        PartView::Response { name, response } => RunView {
            tools: s.tools.update(i, s.tools[i] + answer_text(response) + seq!['\n']),
            ..s
        },
        PartView::Text { text } => RunView {
            said: s.said.update(i, s.said[i] + text + seq!['\n']),
            ..s
        },
        _ => s,
    }
}

pub open spec fn after_parts(s: RunView, i: int, ps: Seq<PartView>) -> RunView
    decreases ps.len(),
{
    if ps.len() == 0 {
        s
    } else {
        after_part(after_parts(s, i, ps.drop_last()), i, ps.last())
    }
}

/// The status lines that the parts of an event show on card `i`.
pub open spec fn status_acts(i: int, ps: Seq<PartView>) -> Seq<ActView>
    decreases ps.len(),
{
    if ps.len() == 0 {
        Seq::empty()
    } else {
        let before = status_acts(i, ps.drop_last());
        match ps.last() {
            PartView::Call { name } => before.push(ActView::Status { index: i, tool: name }),
            _ => before,
        }
    }
}

pub open spec fn resolve_act(s: RunView, i: int, author: Seq<char>, record: bool) -> ActView {
    ActView::Resolve {
        index: i,
        author,
        tools: s.tools[i],
        said: s.said[i],
        store: s.store,
        record,
    }
}

/// The run after an event.
pub open spec fn after_event(s: RunView, e: EventView) -> RunView {
    match slot_index(s.slots, e.author) {
        Some(i) => {
            let t = after_parts(s, i, e.parts);
            if e.is_final && !t.resolved[i] {
                RunView { resolved: t.resolved.update(i, true), ..t }
            } else {
                t
            }
        },
        None => s,
    }
}

/// What an event asks for.
pub open spec fn event_acts(s: RunView, e: EventView) -> Seq<ActView> {
    match slot_index(s.slots, e.author) {
        Some(i) => {
            let t = after_parts(s, i, e.parts);
            let shown = status_acts(i, e.parts);
            if e.is_final && !t.resolved[i] {
                shown.push(resolve_act(t, i, e.author, s.services))
            } else {
                shown
            }
        },
        None => Seq::empty(),
    }
}

/// The resolves that are left for `slots` once the agents are done.
pub open spec fn leftover_acts(s: RunView, slots: Seq<SlotView>) -> Seq<ActView>
    decreases slots.len(),
{
    if slots.len() == 0 {
        Seq::empty()
    } else {
        let before = leftover_acts(s, slots.drop_last());
        let k = slots.last();
        if s.resolved[k.index] {
            before
        } else {
            before.push(resolve_act(s, k.index, k.author, false))
        }
    }
}

/// What ends a run: the resolves that are left, then the closing.
pub open spec fn finish_acts(s: RunView) -> Seq<ActView> {
    leftover_acts(s, s.slots) + closing_acts(s.store, s.services)
}

proof fn lemma_after_parts(s: RunView, i: int, ps: Seq<PartView>)
    requires
        s.valid(),
        0 <= i < s.resolved.len(),
    ensures
        after_parts(s, i, ps).valid(),
        after_parts(s, i, ps).slots == s.slots,
        after_parts(s, i, ps).resolved == s.resolved,
        after_parts(s, i, ps).store == s.store,
        after_parts(s, i, ps).services == s.services,
    decreases ps.len(),
{
    if ps.len() > 0 {
        lemma_after_parts(s, i, ps.drop_last());
    }
}

/// An event keeps a run valid.
pub proof fn lemma_after_event(s: RunView, e: EventView)
    requires
        s.valid(),
    ensures
        after_event(s, e).valid(),
        after_event(s, e).slots == s.slots,
        after_event(s, e).store == s.store,
        after_event(s, e).services == s.services,
        after_event(s, e).resolved.len() == s.resolved.len(),
{
    lemma_slot_index(s.slots, e.author, s.resolved.len() as int);
    match slot_index(s.slots, e.author) {
        Some(i) => {
            lemma_after_parts(s, i, e.parts);
        },
        None => {},
    }
}

fn empty_texts(n: usize) -> (r: Vec<String>)
    ensures
        pieces::strings(r@) == Seq::new(n as nat, |i: int| Seq::<char>::empty()),
{
    let mut out: Vec<String> = Vec::new();
    let mut i: usize = 0;
    while i < n
        invariant
            i <= n,
            pieces::strings(out@) == Seq::new(i as nat, |i: int| Seq::<char>::empty()),
        decreases n - i,
    {
        let s = String::new();
        let ghost o = out@;
        out.push(s);
        assert(s@ =~= Seq::<char>::empty());
        assert(pieces::strings(out@) =~= pieces::strings(o).push(s@));
        assert(pieces::strings(out@) =~= Seq::new((i + 1) as nat, |i: int| Seq::<char>::empty()));
        i += 1;
    }
    out
}

/// A run of `n` cards of which nothing is resolved.
pub open spec fn started(slots: Seq<SlotView>, n: int, store: bool, services: bool) -> RunView {
    RunView {
        slots,
        resolved: Seq::new(n as nat, |i: int| false),
        tools: Seq::new(n as nat, |i: int| Seq::<char>::empty()),
        said: Seq::new(n as nat, |i: int| Seq::<char>::empty()),
        store,
        services,
    }
}

impl Run {
    pub fn new(slots: Vec<AgentSlot>, cards: usize, store: bool, services: bool) -> (r: Self)
        requires
            slots_fit(slots_of(slots@), cards as int),
        ensures
            r@ == started(slots_of(slots@), cards as int, store, services),
            r@.valid(),
    {
        let mut resolved: Vec<bool> = Vec::new();
        let mut i: usize = 0;
        while i < cards
            invariant
                i <= cards,
                resolved@ == Seq::new(i as nat, |i: int| false),
            decreases cards - i,
        {
            resolved.push(false);
            assert(resolved@ =~= Seq::new((i + 1) as nat, |i: int| false));
            i += 1;
        }
        Run {
            slots,
            resolved,
            tools: empty_texts(cards),
            said: empty_texts(cards),
            store,
            services,
        }
    }

    fn on_parts(&mut self, index: usize, parts: &Vec<Part>, out: &mut Vec<Act>)
        requires
            old(self)@.valid(),
            index < old(self)@.resolved.len(),
        ensures
            final(self)@ == after_parts(old(self)@, index as int, parts_of(parts@)),
            acts_of(final(out)@) == acts_of(old(out)@) + status_acts(
                index as int,
                parts_of(parts@),
            ),
    {
        let ghost s = self@;
        let ghost before = acts_of(out@);
        let ghost ps = parts_of(parts@);
        let ghost i = index as int;
        let mut k: usize = 0;
        assert(ps.take(0) =~= Seq::empty());
        assert(before + status_acts(i, ps.take(0)) =~= before);
        while k < parts.len()
            invariant
                k <= parts.len(),
                i == index,
                ps == parts_of(parts@),
                s.valid(),
                index < s.resolved.len(),
                self@ == after_parts(s, i, ps.take(k as int)),
                self@.valid(),
                self@.resolved == s.resolved,
                acts_of(out@) == before + status_acts(i, ps.take(k as int)),
            decreases parts.len() - k,
        {
            assert(ps.take(k + 1).drop_last() =~= ps.take(k as int));
            assert(ps.take(k + 1).last() == parts@[k as int]@);
            let ghost now = self@;
            assert(now.tools[i] == self.tools@[i]@);
            assert(now.said[i] == self.said@[i]@);
            match &parts[k] {
                Part::Call { name } => {
                    let ghost o = out@;
                    let a = Act::Status { index, tool: name.clone() };
                    out.push(a);
                    assert(acts_of(out@) =~= acts_of(o).push(a@));
                },
                Part::Response { name, response } => {
                    let mut t = self.tools[index].clone();
                    let answer = text_from_response(response);
                    t.append(answer.as_str());
                    t.push('\n');
                    assert(t@ =~= now.tools[i] + answer_text(response@) + seq!['\n']);
                    self.tools.set(index, t);
                    assert(pieces::strings(self.tools@) =~= now.tools.update(i, t@));
                },
                Part::Text { text } => {
                    let mut t = self.said[index].clone();
                    t.append(text.as_str());
                    t.push('\n');
                    assert(t@ =~= now.said[i] + text@ + seq!['\n']);
                    self.said.set(index, t);
                    assert(pieces::strings(self.said@) =~= now.said.update(i, t@));
                },
                Part::Other => {},
            }
            proof {
                lemma_after_parts(s, i, ps.take(k + 1));
            }
            assert(self@ == after_parts(s, i, ps.take(k + 1)));
            assert(acts_of(out@) =~= before + status_acts(i, ps.take(k + 1)));
            k += 1;
        }
        assert(ps.take(parts.len() as int) =~= ps);
    }

    fn resolve(&self, index: usize, author: &str, record: bool) -> (r: Act)
        requires
            self@.valid(),
            index < self@.resolved.len(),
        ensures
            r@ == resolve_act(self@, index as int, author@, record),
    {
        assert(self@.tools[index as int] == self.tools@[index as int]@);
        assert(self@.said[index as int] == self.said@[index as int]@);
        Act::Resolve {
            index,
            author: author.to_string(),
            tools: self.tools[index].clone(),
            said: self.said[index].clone(),
            store: self.store,
            record,
        }
    }

    /// Take an event in and say what it asks for.
    pub fn on_event(&mut self, event: &AgentEvent) -> (r: Vec<Act>)
        requires
            old(self)@.valid(),
        ensures
            final(self)@ == after_event(old(self)@, event@),
            acts_of(r@) == event_acts(old(self)@, event@),
            final(self)@.valid(),
    {
        let ghost s = self@;
        proof {
            lemma_after_event(s, event@);
            lemma_slot_index(s.slots, event.author@, s.resolved.len() as int);
        }
        let mut out: Vec<Act> = Vec::new();
        assert(acts_of(out@) =~= Seq::empty());
        let index = match card_index(event.author.as_str(), &self.slots) {
            Some(i) => i,
            None => return out,
        };
        self.on_parts(index, &event.parts, &mut out);
        let ghost t = self@;
        proof {
            lemma_after_parts(s, index as int, event@.parts);
        }
        assert(acts_of(out@) =~= status_acts(index as int, event@.parts));
        if event.is_final && !self.resolved[index] {
            let a = self.resolve(index, event.author.as_str(), self.services);
            let ghost o = out@;
            out.push(a);
            assert(acts_of(out@) =~= acts_of(o).push(a@));
            self.resolved.set(index, true);
        }
        out
    }

    /// What is left to do once the agents are done.
    pub fn finish(&self) -> (r: Vec<Act>)
        requires
            self@.valid(),
        ensures
            acts_of(r@) == finish_acts(self@),
    {
        let ghost s = self@;
        let ghost all = s.slots;
        let mut out: Vec<Act> = Vec::new();
        let mut k: usize = 0;
        assert(all.take(0) =~= Seq::empty());
        assert(acts_of(out@) =~= leftover_acts(s, all.take(0)));
        while k < self.slots.len()
            invariant
                k <= self.slots.len(),
                s == self@,
                s.valid(),
                all == slots_of(self.slots@),
                acts_of(out@) == leftover_acts(s, all.take(k as int)),
            decreases self.slots.len() - k,
        {
            let ghost o = out@;
            assert(all.take(k + 1).drop_last() =~= all.take(k as int));
            assert(all[k as int] == self.slots@[k as int]@);
            let index = self.slots[k].index;
            if !self.resolved[index] {
                let a = self.resolve(index, self.slots[k].author.as_str(), false);
                out.push(a);
                assert(acts_of(out@) =~= acts_of(o).push(a@));
            }
            k += 1;
        }
        assert(all.take(self.slots.len() as int) =~= all);
        closing(&mut out, self.store, self.services);
        out
    }
}

// ---- a whole stream ----

/// What a workflow stream is made of. The cards themselves stay with the driver, which shows
/// them by their index.
pub struct WorkflowStreamConfig {
    pub scenario_key: String,
    pub cards: usize,
    pub slots: Vec<AgentSlot>,
    /// Which integrations are live, for the agents.
    pub integrations_note: String,
}

pub open spec fn workflow_prompt(intent: Seq<char>, integrations: Seq<char>) -> Seq<char> {
    intent + "\n\n[Integrations]\n"@ + integrations + "\nPrepare the scenario cards."@
}

impl WorkflowStreamConfig {
    /// What the agents are told.
    pub fn prompt(&self, intent: &str) -> (r: String)
        ensures
            r@ == workflow_prompt(intent@, self.integrations_note@),
    {
        let mut s = intent.to_string();
        s.append("\n\n[Integrations]\n");
        s.append(self.integrations_note.as_str());
        s.append("\nPrepare the scenario cards.");
        s
    }

    /// The run of this stream and what opens it.
    pub fn start(self, store: bool) -> (r: (Run, Vec<Act>))
        requires
            slots_fit(slots_of(self.slots@), self.cards as int),
        ensures
            r.0@ == started(slots_of(self.slots@), self.cards as int, store, true),
            r.0@.valid(),
            acts_of(r.1@) == opening_acts(self.cards as int, store),
    {
        let acts = opening(self.cards, store);
        (Run::new(self.slots, self.cards, store, true), acts)
    }
}

// ---- laws ----

/// The run after the events, in order.
pub open spec fn after_events(s: RunView, es: Seq<EventView>) -> RunView
    decreases es.len(),
{
    if es.len() == 0 {
        s
    } else {
        after_event(after_events(s, es.drop_last()), es.last())
    }
}

/// What the events ask for, in order.
pub open spec fn events_acts(s: RunView, es: Seq<EventView>) -> Seq<ActView>
    decreases es.len(),
{
    if es.len() == 0 {
        Seq::empty()
    } else {
        events_acts(s, es.drop_last()) + event_acts(after_events(s, es.drop_last()), es.last())
    }
}

/// How often card `i` is resolved by `acts`.
pub open spec fn resolves(acts: Seq<ActView>, i: int) -> nat
    decreases acts.len(),
{
    if acts.len() == 0 {
        0
    } else {
        resolves(acts.drop_last(), i) + (match acts.last() {
            ActView::Resolve { index, .. } => if index == i {
                1nat
            } else {
                0
            },
            _ => 0,
        })
    }
}

/// Whether a slot names card `i`.
pub open spec fn has_slot(slots: Seq<SlotView>, i: int) -> bool {
    exists|k: int| 0 <= k < slots.len() && (#[trigger] slots[k]).index == i
}

/// How many slots name card `i`.
pub open spec fn slot_count(slots: Seq<SlotView>, i: int) -> nat
    decreases slots.len(),
{
    if slots.len() == 0 {
        0
    } else {
        slot_count(slots.drop_last(), i) + (if slots.last().index == i {
            1nat
        } else {
            0
        })
    }
}

proof fn lemma_resolves_concat(a: Seq<ActView>, b: Seq<ActView>, i: int)
    ensures
        resolves(a + b, i) == resolves(a, i) + resolves(b, i),
    decreases b.len(),
{
    if b.len() == 0 {
        assert(a + b =~= a);
    } else {
        lemma_resolves_concat(a, b.drop_last(), i);
        assert((a + b).drop_last() =~= a + b.drop_last());
        assert((a + b).last() == b.last());
    }
}

proof fn lemma_resolves_push(a: Seq<ActView>, x: ActView, i: int)
    ensures
        resolves(a.push(x), i) == resolves(a, i) + (match x {
            ActView::Resolve { index, .. } => if index == i {
                1nat
            } else {
                0
            },
            _ => 0,
        }),
{
    assert(a.push(x).drop_last() =~= a);
}

proof fn lemma_status_resolves_nothing(c: int, ps: Seq<PartView>, i: int)
    ensures
        resolves(status_acts(c, ps), i) == 0,
    decreases ps.len(),
{
    if ps.len() > 0 {
        lemma_status_resolves_nothing(c, ps.drop_last(), i);
        match ps.last() {
            PartView::Call { name } => {
                lemma_resolves_push(
                    status_acts(c, ps.drop_last()),
                    ActView::Status { index: c, tool: name },
                    i,
                );
            },
            _ => {},
        }
    }
}

proof fn lemma_closing_resolves_nothing(store: bool, services: bool, i: int)
    ensures
        resolves(closing_acts(store, services), i) == 0,
{
    let a: Seq<ActView> = if services {
        seq![ActView::Announce]
    } else {
        Seq::empty()
    };
    let b: Seq<ActView> = seq![ActView::Wait { millis: 400 }];
    let c: Seq<ActView> = if store {
        seq![ActView::Suggest]
    } else {
        Seq::empty()
    };
    let d: Seq<ActView> = seq![ActView::SendDone];
    lemma_resolves_concat(a + b + c, d, i);
    lemma_resolves_concat(a + b, c, i);
    lemma_resolves_concat(a, b, i);
    reveal_with_fuel(resolves, 2);
    assert(services ==> a.drop_last() =~= Seq::empty());
    assert(b.drop_last() =~= Seq::empty());
    assert(store ==> c.drop_last() =~= Seq::empty());
    assert(d.drop_last() =~= Seq::empty());
}

/// Whatever the agents send, a card is resolved by their events at most once, and it is marked as
/// resolved exactly when it was.
pub proof fn law_events_resolve_a_card_at_most_once(
    slots: Seq<SlotView>,
    n: int,
    store: bool,
    services: bool,
    es: Seq<EventView>,
    i: int,
)
    requires
        0 <= i < n,
        slots_fit(slots, n),
    ensures
        ({
            let s = started(slots, n, store, services);
            let t = after_events(s, es);
            &&& t.valid()
            &&& t.slots == slots
            &&& t.resolved.len() == n
            &&& t.store == store
            &&& t.services == services
            &&& resolves(events_acts(s, es), i) == (if t.resolved[i] {
                1nat
            } else {
                0
            })
        }),
    decreases es.len(),
{
    let s = started(slots, n, store, services);
    if es.len() > 0 {
        let init = es.drop_last();
        let e = es.last();
        law_events_resolve_a_card_at_most_once(slots, n, store, services, init, i);
        let t = after_events(s, init);
        lemma_after_event(t, e);
        lemma_slot_index(t.slots, e.author, n);
        lemma_resolves_concat(events_acts(s, init), event_acts(t, e), i);
        match slot_index(t.slots, e.author) {
            Some(c) => {
                lemma_after_parts(t, c, e.parts);
                lemma_status_resolves_nothing(c, e.parts, i);
                let u = after_parts(t, c, e.parts);
                if e.is_final && !u.resolved[c] {
                    lemma_resolves_push(
                        status_acts(c, e.parts),
                        resolve_act(u, c, e.author, t.services),
                        i,
                    );
                }
            },
            None => {},
        }
    }
}

proof fn lemma_leftover_resolves(s: RunView, slots: Seq<SlotView>, i: int)
    ensures
        resolves(leftover_acts(s, slots), i) == (if s.resolved[i] {
            0
        } else {
            slot_count(slots, i)
        }),
    decreases slots.len(),
{
    if slots.len() > 0 {
        let init = slots.drop_last();
        let k = slots.last();
        lemma_leftover_resolves(s, init, i);
        if !s.resolved[k.index] {
            lemma_resolves_push(
                leftover_acts(s, init),
                resolve_act(s, k.index, k.author, false),
                i,
            );
        }
    }
}

proof fn lemma_slot_count(slots: Seq<SlotView>, i: int)
    ensures
        slot_count(slots, i) > 0 <==> has_slot(slots, i),
    decreases slots.len(),
{
    if slots.len() > 0 {
        let init = slots.drop_last();
        lemma_slot_count(init, i);
        assert(slots[slots.len() - 1] == slots.last());
        if has_slot(init, i) {
            let a = choose|a: int| 0 <= a < init.len() && (#[trigger] init[a]).index == i;
            assert(slots[a] == init[a]);
        }
        if has_slot(slots, i) && slots.last().index != i {
            let a = choose|a: int| 0 <= a < slots.len() && (#[trigger] slots[a]).index == i;
            assert(init[a] == slots[a]);
        }
    }
}

proof fn lemma_resolved_has_slot(
    slots: Seq<SlotView>,
    n: int,
    store: bool,
    services: bool,
    es: Seq<EventView>,
    i: int,
)
    requires
        0 <= i < n,
        slots_fit(slots, n),
        after_events(started(slots, n, store, services), es).resolved[i],
    ensures
        has_slot(slots, i),
    decreases es.len(),
{
    let s = started(slots, n, store, services);
    if es.len() > 0 {
        let init = es.drop_last();
        let e = es.last();
        law_events_resolve_a_card_at_most_once(slots, n, store, services, init, i);
        let t = after_events(s, init);
        if t.resolved[i] {
            lemma_resolved_has_slot(slots, n, store, services, init, i);
        } else {
            lemma_slot_index(slots, e.author, n);
            let c = slot_index(slots, e.author)->0;
            lemma_after_parts(t, c, e.parts);
            lemma_slot_is_there(slots, e.author);
        }
    }
}

proof fn lemma_slot_is_there(slots: Seq<SlotView>, author: Seq<char>)
    ensures
        slot_index(slots, author) matches Some(i) ==> has_slot(slots, i),
    decreases slots.len(),
{
    if slots.len() > 0 {
        if slots[0].author != author {
            let rest = slots.skip(1);
            lemma_slot_is_there(rest, author);
            if let Some(i) = slot_index(rest, author) {
                let a = choose|a: int| 0 <= a < rest.len() && (#[trigger] rest[a]).index == i;
                assert(slots[a + 1] == rest[a]);
            }
        } else {
            let first = slots[0].index;
            assert(has_slot(slots, first));
        }
    }
}

/// Over a whole stream, whatever the agents send, a card is resolved once where its agent's final
/// response came, and else at the end, once for each slot that names it.
pub proof fn law_how_often_a_card_resolves(
    slots: Seq<SlotView>,
    n: int,
    store: bool,
    services: bool,
    es: Seq<EventView>,
    i: int,
)
    requires
        0 <= i < n,
        slots_fit(slots, n),
    ensures
        ({
            let s = started(slots, n, store, services);
            let t = after_events(s, es);
            resolves(events_acts(s, es) + finish_acts(t), i) == (if t.resolved[i] {
                1
            } else {
                slot_count(slots, i)
            })
        }),
{
    let s = started(slots, n, store, services);
    let t = after_events(s, es);
    law_events_resolve_a_card_at_most_once(slots, n, store, services, es, i);
    lemma_resolves_concat(events_acts(s, es), finish_acts(t), i);
    lemma_resolves_concat(leftover_acts(t, t.slots), closing_acts(store, services), i);
    lemma_leftover_resolves(t, t.slots, i);
    lemma_closing_resolves_nothing(store, services, i);
}

/// Over a whole stream, whatever the agents send, a card that an agent fills is resolved exactly
/// once, and a card that none fills is never resolved. A card that several slots name is left out
/// where no final response came.
pub proof fn law_every_card_resolves_once(
    slots: Seq<SlotView>,
    n: int,
    store: bool,
    services: bool,
    es: Seq<EventView>,
    i: int,
)
    requires
        0 <= i < n,
        slots_fit(slots, n),
        slot_count(slots, i) <= 1 || after_events(
            started(slots, n, store, services),
            es,
        ).resolved[i],
    ensures
        ({
            let s = started(slots, n, store, services);
            resolves(events_acts(s, es) + finish_acts(after_events(s, es)), i) == (if has_slot(
                slots,
                i,
            ) {
                1nat
            } else {
                0
            })
        }),
{
    law_how_often_a_card_resolves(slots, n, store, services, es, i);
    lemma_slot_count(slots, i);
    if after_events(started(slots, n, store, services), es).resolved[i] {
        lemma_resolved_has_slot(slots, n, store, services, es, i);
    }
}

/// A stream tells of exactly what was queued since it started, at the moment of the start too, in
/// the order in which it is pending.
pub proof fn law_what_is_announced(created: Seq<Timestamp>, started: Timestamp, r: Seq<usize>)
    requires
        are_since(created, started, r),
    ensures
        forall|i: usize|
            0 <= i < created.len() ==> (#[trigger] r.contains(i) <==> created[i as int].secs
                > started.secs || (created[i as int].secs == started.secs
                && created[i as int].nanos >= started.nanos)),
        forall|k: int, l: int| 0 <= k < l < r.len() ==> #[trigger] r[k] < #[trigger] r[l],
{
}

} // verus!
