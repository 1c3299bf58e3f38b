//! The agent message bus. Agents never call each other: worlds and the Mother exchange
//! [`AgentMessage`]s here, every message carries the turn's `trace_id`, and nested requests stop
//! at [`MAX_DEPTH`]. Payloads are facts, never raw content.

use std::collections::VecDeque;

use vstd::prelude::*;

use crate::clock;
use crate::clock::Timestamp;
use crate::domain::Domain;
use crate::text::chars;
use crate::text::number;
use crate::text::pieces;

verus! {

#[derive(Clone, Copy, Debug, PartialEq, Eq, Structural)]
pub enum Kind {
    Request,
    Result,
    Observation,
    Conflict,
    MemoryProposal,
}

#[derive(Debug)]
pub struct Address {
    pub agent: String,
    pub world: Domain,
}

#[verifier::ext_equal]
pub struct AddressView {
    pub agent: Seq<char>,
    pub world: Domain,
}

impl View for Address {
    type V = AddressView;

    open spec fn view(&self) -> AddressView {
        AddressView { agent: self.agent@, world: self.world }
    }
}

/// The Mother's own address.
pub open spec fn mother_address() -> AddressView {
    AddressView { agent: "mother"@, world: Domain::Shared }
}

impl Address {
    pub fn new(agent: &str, world: Domain) -> (r: Self)
        ensures
            r@ == (AddressView { agent: agent@, world }),
    {
        Address { agent: agent.to_string(), world }
    }

    pub fn mother() -> (r: Self)
        ensures
            r@ == mother_address(),
    {
        Address::new("mother", Domain::Shared)
    }

    /// A copy of the address.
    pub fn copy(&self) -> (r: Self)
        ensures
            r@ == self@,
    {
        Address { agent: self.agent.clone(), world: self.world }
    }
}

/// Under which mode a message was sent, and with which effects.
#[derive(Debug)]
pub struct Permission {
    pub mode: String,
    pub effects_used: Vec<String>,
}

#[verifier::ext_equal]
pub struct PermissionView {
    pub mode: Seq<char>,
    pub effects_used: Seq<Seq<char>>,
}

impl View for Permission {
    type V = PermissionView;

    open spec fn view(&self) -> PermissionView {
        PermissionView { mode: self.mode@, effects_used: pieces::strings(self.effects_used@) }
    }
}

pub open spec fn permission_in(p: Option<Permission>) -> Option<PermissionView> {
    match p {
        Some(p) => Some(p@),
        None => None,
    }
}

/// The facts of a message.
#[derive(Debug)]
pub enum Payload {
    /// A task handed on: to which agent, where it is not the receiver, and through which scenario.
    Task { agent: Option<String>, task: String, scenario: String },
    /// Facts in their serialized form.
    Json(String),
}

#[verifier::ext_equal]
pub enum PayloadView {
    Task { agent: Option<Seq<char>>, task: Seq<char>, scenario: Seq<char> },
    Json(Seq<char>),
}

impl View for Payload {
    type V = PayloadView;

    open spec fn view(&self) -> PayloadView {
        match self {
            Payload::Task { agent, task, scenario } => PayloadView::Task {
                agent: pieces::text_in(*agent),
                task: task@,
                scenario: scenario@,
            },
            Payload::Json(t) => PayloadView::Json(t@),
        }
    }
}

impl Payload {
    /// A copy of the payload.
    pub fn copy(&self) -> (r: Self)
        ensures
            r@ == self@,
    {
        match self {
            Payload::Task { agent, task, scenario } => Payload::Task {
                agent: pieces::copy_text(agent),
                task: task.clone(),
                scenario: scenario.clone(),
            },
            Payload::Json(t) => Payload::Json(t.clone()),
        }
    }
}

#[derive(Debug)]
pub struct AgentMessage {
    pub trace_id: String,
    pub from: Address,
    pub to: Address,
    pub kind: Kind,
    pub domain: Domain,
    /// Nesting depth of a request chain; the Mother's own requests are depth 1.
    pub depth: u8,
    pub permission_ctx: Option<Permission>,
    pub payload: Payload,
    pub ts: Timestamp,
}

#[verifier::ext_equal]
pub struct MessageView {
    pub trace_id: Seq<char>,
    pub from: AddressView,
    pub to: AddressView,
    pub kind: Kind,
    pub domain: Domain,
    pub depth: u8,
    pub permission_ctx: Option<PermissionView>,
    pub payload: PayloadView,
    pub ts: Timestamp,
}

impl View for AgentMessage {
    type V = MessageView;

    open spec fn view(&self) -> MessageView {
        MessageView {
            trace_id: self.trace_id@,
            from: self.from@,
            to: self.to@,
            kind: self.kind,
            domain: self.domain,
            depth: self.depth,
            permission_ctx: permission_in(self.permission_ctx),
            payload: self.payload@,
            ts: self.ts,
        }
    }
}

pub open spec fn messages_of(v: Seq<AgentMessage>) -> Seq<MessageView> {
    v.map_values(|m: AgentMessage| m@)
}

/// The domain of a message: that of both ends where they share one.
pub open spec fn common_domain(from: Domain, to: Domain) -> Domain {
    if from == to {
        from
    } else {
        Domain::Shared
    }
}

/// A message as it is first written, at a moment.
pub open spec fn written(
    trace_id: Seq<char>,
    from: AddressView,
    to: AddressView,
    kind: Kind,
    payload: PayloadView,
    ts: Timestamp,
) -> MessageView {
    MessageView {
        trace_id,
        from,
        to,
        kind,
        domain: common_domain(from.world, to.world),
        depth: 1,
        permission_ctx: None,
        payload,
        ts,
    }
}

impl AgentMessage {
    /// A message written at this moment.
    pub fn new_at(
        trace_id: &str,
        from: Address,
        to: Address,
        kind: Kind,
        payload: Payload,
        ts: Timestamp,
    ) -> (r: Self)
        ensures
            r@ == written(trace_id@, from@, to@, kind, payload@, ts),
    {
        let domain = if from.world == to.world {
            from.world
        } else {
            Domain::Shared
        };
        AgentMessage {
            trace_id: trace_id.to_string(),
            from,
            to,
            kind,
            domain,
            depth: 1,
            permission_ctx: None,
            payload,
            ts,
        }
    }

    /// A message written now.
    pub fn new(trace_id: &str, from: Address, to: Address, kind: Kind, payload: Payload) -> (r: Self)
        ensures
            r@ == written(trace_id@, from@, to@, kind, payload@, r.ts),
    {
        AgentMessage::new_at(trace_id, from, to, kind, payload, clock::now())
    }

    pub fn depth(self, d: u8) -> (r: Self)
        ensures
            r@ == (MessageView { depth: d, ..self@ }),
    {
        let mut m = self;
        m.depth = d;
        m
    }

    pub fn permission(self, mode: &str, effects: &Vec<&str>) -> (r: Self)
        ensures
            r@ == (MessageView {
                permission_ctx: Some(
                    PermissionView { mode: mode@, effects_used: pieces::slices(effects@) },
                ),
                ..self@
            }),
    {
        let mut used: Vec<String> = Vec::new();
        let mut i: usize = 0;
        while i < effects.len()
            invariant
                i <= effects.len(),
                pieces::strings(used@) == pieces::slices(effects@).take(i as int),
            decreases effects.len() - i,
        {
            let e = effects[i].to_string();
            let ghost o = used@;
            used.push(e);
            assert(pieces::strings(used@) =~= pieces::strings(o).push(e@));
            assert(pieces::slices(effects@).take(i + 1) =~= pieces::slices(effects@).take(
                i as int,
            ).push(e@));
            i += 1;
        }
        assert(pieces::slices(effects@).take(effects.len() as int) =~= pieces::slices(effects@));
        let mut m = self;
        m.permission_ctx = Some(Permission { mode: mode.to_string(), effects_used: used });
        m
    }

    /// A copy of the message.
    pub fn copy(&self) -> (r: Self)
        ensures
            r@ == self@,
    {
        AgentMessage {
            trace_id: self.trace_id.clone(),
            from: self.from.copy(),
            to: self.to.copy(),
            kind: self.kind,
            domain: self.domain,
            depth: self.depth,
            permission_ctx: match &self.permission_ctx {
                Some(p) => Some(
                    Permission {
                        mode: p.mode.clone(),
                        effects_used: pieces::copy_strings(&p.effects_used),
                    },
                ),
                None => None,
            },
            payload: self.payload.copy(),
            ts: self.ts,
        }
    }
}

/// Fan-out depth cap: Mother → world → agent, no deeper.
pub const MAX_DEPTH: u8 = 2;

/// How many messages the bus keeps.
pub const RECENT: usize = 2_000;

#[derive(Debug, PartialEq, Eq, Structural)]
pub enum BusError {
    DepthExceeded(u8),
}

impl BusError {
    pub open spec fn text(self) -> Seq<char> {
        match self {
            BusError::DepthExceeded(d) => "request depth "@ + number::decimal(d as nat)
                + " exceeds the cap of "@ + number::decimal(MAX_DEPTH as nat),
        }
    }

    /// What the error says.
    pub fn message(&self) -> (r: String)
        ensures
            r@ == self.text(),
    {
        match self {
            BusError::DepthExceeded(d) => {
                let mut s = "request depth ".to_string();
                let n = chars::text_of(&number::digits(*d as u64));
                s.append(n.as_str());
                s.append(" exceeds the cap of ");
                let cap = chars::text_of(&number::digits(MAX_DEPTH as u64));
                s.append(cap.as_str());
                s
            },
        }
    }
}

/// The messages of the recent turns.
pub struct AgentBus {
    recent: VecDeque<AgentMessage>,
}

/// A request that nests too deep.
pub open spec fn too_deep(m: MessageView) -> bool {
    m.kind == Kind::Request && m.depth > MAX_DEPTH
}

/// The kept messages with one more: the oldest makes room where the bus is full.
pub open spec fn kept_with(recent: Seq<MessageView>, m: MessageView) -> Seq<MessageView> {
    if recent.len() >= RECENT {
        recent.skip(1).push(m)
    } else {
        recent.push(m)
    }
}

/// The messages of one turn, in order.
pub open spec fn turn(recent: Seq<MessageView>, trace_id: Seq<char>) -> Seq<MessageView>
    decreases recent.len(),
{
    if recent.len() == 0 {
        recent
    } else if recent.last().trace_id == trace_id {
        turn(recent.drop_last(), trace_id).push(recent.last())
    } else {
        turn(recent.drop_last(), trace_id)
    }
}

impl View for AgentBus {
    type V = Seq<MessageView>;

    closed spec fn view(&self) -> Seq<MessageView> {
        messages_of(self.recent@)
    }
}

/// What publishing a message comes to: it is kept, or refused and nothing changes.
pub open spec fn published(
    before: Seq<MessageView>,
    m: MessageView,
    r: Result<(), BusError>,
    after: Seq<MessageView>,
) -> bool {
    match r {
        Ok(_) => !too_deep(m) && after == kept_with(before, m),
        Err(e) => too_deep(m) && e == BusError::DepthExceeded(m.depth) && after == before,
    }
}

impl Default for AgentBus {
    fn default() -> (r: Self)
        ensures
            r@ == Seq::<MessageView>::empty(),
    {
        AgentBus::new()
    }
}

impl AgentBus {
    pub fn new() -> (r: Self)
        ensures
            r@ == Seq::<MessageView>::empty(),
    {
        let r = AgentBus { recent: VecDeque::new() };
        assert(r@ =~= Seq::<MessageView>::empty());
        r
    }

    /// A fresh identifier of a turn.
    pub fn new_trace_id() -> (r: String)
        ensures
            clock::random_id_text(r@),
    {
        clock::fresh_id_text()
    }

    /// Publish; requests deeper than [`MAX_DEPTH`] are refused so a chain can never run away.
    pub fn publish(&mut self, msg: AgentMessage) -> (r: Result<(), BusError>)
        ensures
            published(old(self)@, msg@, r, final(self)@),
    {
        if msg.kind == Kind::Request && msg.depth > MAX_DEPTH {
            return Err(BusError::DepthExceeded(msg.depth));
        }
        let ghost before = self.recent@;
        let ghost m = msg@;
        if self.recent.len() >= RECENT {
            let oldest = self.recent.pop_front();
            assert(messages_of(self.recent@) =~= messages_of(before).skip(1));
        }
        let ghost mid = self.recent@;
        self.recent.push_back(msg);
        assert(messages_of(self.recent@) =~= messages_of(mid).push(m));
        Ok(())
    }

    /// Every message of one turn, in order.
    pub fn trace(&self, trace_id: &str) -> (r: Vec<AgentMessage>)
        ensures
            messages_of(r@) == turn(self@, trace_id@),
    {
        let ghost all = self@;
        let mut out: Vec<AgentMessage> = Vec::new();
        let mut i: usize = 0;
        assert(all.take(0) =~= Seq::empty());
        assert(messages_of(out@) =~= turn(all.take(0), trace_id@));
        while i < self.recent.len()
            invariant
                i <= self.recent@.len(),
                all == messages_of(self.recent@),
                messages_of(out@) == turn(all.take(i as int), trace_id@),
            decreases self.recent@.len() - i,
        {
            assert(all.take(i + 1).drop_last() =~= all.take(i as int));
            assert(all.take(i + 1).last() == self.recent@[i as int]@);
            let m = &self.recent[i];
            if chars::same(m.trace_id.as_str(), trace_id) {
                let c = m.copy();
                let ghost o = out@;
                out.push(c);
                assert(messages_of(out@) =~= messages_of(o).push(c@));
            }
            i += 1;
        }
        assert(all.take(self.recent@.len() as int) =~= all);
        out
    }

    pub fn len(&self) -> (r: usize)
        ensures
            r == self@.len(),
    {
        self.recent.len()
    }

    pub fn is_empty(&self) -> (r: bool)
        ensures
            r == (self@.len() == 0),
    {
        self.len() == 0
    }
}

// ---- laws ----

/// The bus never keeps more than its limit.
pub proof fn law_the_bus_is_bounded(recent: Seq<MessageView>, m: MessageView)
    requires
        recent.len() <= RECENT,
    ensures
        kept_with(recent, m).len() <= RECENT,
        kept_with(recent, m).last() == m,
{
}

/// A published message comes last in its turn, and the messages of every turn stay in order, unless
/// the bus is full and drops the oldest message of that turn.
pub proof fn law_a_turn_keeps_its_messages(
    recent: Seq<MessageView>,
    m: MessageView,
    trace_id: Seq<char>,
)
    requires
        recent.len() >= RECENT ==> recent[0].trace_id != trace_id,
    ensures
        turn(kept_with(recent, m), trace_id) == if m.trace_id == trace_id {
            turn(recent, trace_id).push(m)
        } else {
            turn(recent, trace_id)
        },
{
    if recent.len() >= RECENT {
        lemma_turn_without_the_oldest(recent, trace_id);
        assert(recent.skip(1).push(m).drop_last() =~= recent.skip(1));
    } else {
        assert(recent.push(m).drop_last() =~= recent);
    }
}

proof fn lemma_turn_without_the_oldest(recent: Seq<MessageView>, trace_id: Seq<char>)
    requires
        recent.len() > 0,
        recent[0].trace_id != trace_id,
    ensures
        turn(recent.skip(1), trace_id) == turn(recent, trace_id),
    decreases recent.len(),
{
    if recent.len() == 1 {
        assert(recent.skip(1) =~= Seq::empty());
        assert(recent.drop_last() =~= Seq::empty());
    } else {
        let init = recent.drop_last();
        lemma_turn_without_the_oldest(init, trace_id);
        assert(recent.skip(1).drop_last() =~= init.skip(1));
    }
}

/// Messages between the Mother and a world are shared; messages within a world are of that world.
pub proof fn law_domain_of_a_message(
    trace_id: Seq<char>,
    from: AddressView,
    to: AddressView,
    kind: Kind,
    payload: PayloadView,
    ts: Timestamp,
)
    ensures
        ({
            let m = written(trace_id, from, to, kind, payload, ts);
            &&& from == mother_address() || to == mother_address() ==> m.domain == Domain::Shared
            &&& from.world == to.world ==> m.domain == from.world
            &&& !too_deep(m)
        }),
{
}

/// A request is refused exactly where it is nested more than two deep: with its depth, and with
/// nothing changed. Everything else is kept last, whatever its depth; up to 2000 messages stay, and
/// then the oldest makes room.
pub proof fn law_what_is_published(
    before: Seq<MessageView>,
    m: MessageView,
    r: Result<(), BusError>,
    after: Seq<MessageView>,
)
    requires
        published(before, m, r, after),
    ensures
        r is Err <==> m.kind == Kind::Request && m.depth > 2,
        r is Err ==> r == Err::<(), BusError>(BusError::DepthExceeded(m.depth)) && after == before,
        r is Ok && before.len() < 2000 ==> after == before.push(m),
        r is Ok && before.len() >= 2000 ==> after == before.skip(1).push(m),
{
}

/// The messages of a turn are all that carry its trace, in order.
pub proof fn law_a_turn_is_its_messages(recent: Seq<MessageView>, trace_id: Seq<char>)
    ensures
        turn(recent, trace_id) == recent.filter(|m: MessageView| m.trace_id == trace_id),
    decreases recent.len(),
{
    reveal(Seq::filter);
    if recent.len() > 0 {
        law_a_turn_is_its_messages(recent.drop_last(), trace_id);
    }
}

/// A message says who wrote it to whom and what, one deep and without permissions; it is of the
/// world that both ends share, and else of both.
pub proof fn law_what_a_message_says(
    trace_id: Seq<char>,
    from: AddressView,
    to: AddressView,
    kind: Kind,
    payload: PayloadView,
    ts: Timestamp,
)
    ensures
        ({
            let m = written(trace_id, from, to, kind, payload, ts);
            &&& m.trace_id == trace_id
            &&& m.from == from
            &&& m.to == to
            &&& m.kind == kind
            &&& m.payload == payload
            &&& m.ts == ts
            &&& m.depth == 1
            &&& m.permission_ctx is None
            &&& from.world == to.world ==> m.domain == from.world
            &&& from.world != to.world ==> m.domain == Domain::Shared
        }),
        mother_address().agent == "mother"@,
        mother_address().world == Domain::Shared,
{
}

/// The refusal names the depth of the request and the cap.
pub proof fn law_what_the_refusal_says(d: u8)
    ensures
        BusError::DepthExceeded(d).text() == "request depth "@ + number::decimal(d as nat)
            + " exceeds the cap of "@ + number::decimal(2),
{
}

} // verus!
