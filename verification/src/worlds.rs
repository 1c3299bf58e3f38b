//! The worlds of work and home: what a turn with several targets asks of them and what comes back.

use vstd::prelude::*;

use crate::clock::Timestamp;
use crate::domain::Domain;
use crate::mother::bus;
use crate::mother::bus::Address;
use crate::mother::bus::AddressView;
use crate::mother::bus::AgentMessage;
use crate::mother::bus::MessageView;
use crate::mother::bus::Payload;
use crate::mother::bus::PayloadView;
use crate::mother::bus::PermissionView;
use crate::mother::intake;
use crate::mother::intake::Target;
use crate::mother::intake::TargetView;
use crate::text::chars;
use crate::text::pieces;

verus! {

/// Per-agent outcome inside a [`WorldResult`].
#[derive(Debug)]
pub struct AgentOutcome {
    pub agent: String,
    pub scenario: String,
    pub cards: usize,
    pub resolved: usize,
    pub timed_out: bool,
}

#[verifier::ext_equal]
pub struct OutcomeView {
    pub agent: Seq<char>,
    pub scenario: Seq<char>,
    pub cards: nat,
    pub resolved: nat,
    pub timed_out: bool,
}

impl View for AgentOutcome {
    type V = OutcomeView;

    open spec fn view(&self) -> OutcomeView {
        OutcomeView {
            agent: self.agent@,
            scenario: self.scenario@,
            cards: self.cards as nat,
            resolved: self.resolved as nat,
            timed_out: self.timed_out,
        }
    }
}

pub open spec fn outcomes_of(v: Seq<AgentOutcome>) -> Seq<OutcomeView> {
    v.map_values(|o: AgentOutcome| o@)
}

/// One structured result for a whole world — what the Mother receives back from a world mother.
#[derive(Debug)]
pub struct WorldResult {
    pub world: Domain,
    pub agents: Vec<AgentOutcome>,
    /// Content-free facts for synthesis ("2 threads unanswered for 3+ days", "1 date ahead").
    pub facts: Vec<String>,
    pub stubs: Vec<&'static str>,
}

/// What a target's scenario produced: the type of each event, where it has one, and whether the
/// scenario ran out of time.
#[derive(Debug)]
pub struct Collected {
    pub types: Vec<Option<String>>,
    pub timed_out: bool,
}

/// How many events are of a kind.
pub open spec fn events_of_kind(types: Seq<Option<String>>, kind: Seq<char>) -> nat
    decreases types.len(),
{
    if types.len() == 0 {
        0
    } else {
        events_of_kind(types.drop_last(), kind) + (if pieces::text_in(types.last()) == Some(kind) {
            1nat
        } else {
            0
        })
    }
}

pub fn count_events(types: &Vec<Option<String>>, kind: &str) -> (r: usize)
    ensures
        r == events_of_kind(types@, kind@),
{
    let mut n: usize = 0;
    let mut i: usize = 0;
    assert(types@.take(0) =~= Seq::empty());
    while i < types.len()
        invariant
            i <= types.len(),
            n <= i,
            n == events_of_kind(types@.take(i as int), kind@),
        decreases types.len() - i,
    {
        assert(types@.take(i + 1).drop_last() =~= types@.take(i as int));
        let hit = match &types[i] {
            Some(t) => chars::same(t.as_str(), kind),
            None => false,
        };
        if hit {
            n += 1;
        }
        i += 1;
    }
    assert(types@.take(types.len() as int) =~= types@);
    n
}

pub open spec fn outcome_of(t: TargetView, c: Collected) -> OutcomeView {
    OutcomeView {
        agent: t.agent,
        scenario: t.scenario,
        cards: events_of_kind(c.types@, "card_spawn"@),
        resolved: events_of_kind(c.types@, "card_resolve"@),
        timed_out: c.timed_out,
    }
}

/// The outcomes of the first `n` targets that are of the world.
pub open spec fn outcomes_in(
    world: Domain,
    targets: Seq<TargetView>,
    collected: Seq<Collected>,
    n: int,
) -> Seq<OutcomeView>
    decreases n,
{
    if n <= 0 {
        Seq::empty()
    } else {
        let before = outcomes_in(world, targets, collected, n - 1);
        if targets[n - 1].world == world {
            before.push(outcome_of(targets[n - 1], collected[n - 1]))
        } else {
            before
        }
    }
}

/// The smaller of two lengths.
pub open spec fn shorter(a: nat, b: nat) -> nat {
    if a <= b {
        a
    } else {
        b
    }
}

impl WorldResult {
    pub fn new(world: Domain) -> (r: Self)
        ensures
            r.world == world,
            r.agents@.len() == 0,
            r.facts@.len() == 0,
            r.stubs@.len() == 0,
    {
        WorldResult { world, agents: Vec::new(), facts: Vec::new(), stubs: Vec::new() }
    }

    /// Fold the collected events of this world's targets into per-agent outcomes.
    pub fn from_targets(world: Domain, targets: &Vec<Target>, collected: &Vec<Collected>) -> (r:
        Self)
        ensures
            r.world == world,
            r.facts@.len() == 0,
            r.stubs@.len() == 0,
            outcomes_of(r.agents@) == outcomes_in(
                world,
                intake::targets_of(targets@),
                collected@,
                shorter(targets@.len(), collected@.len()) as int,
            ),
    {
        let mut r = WorldResult::new(world);
        let ghost ts = intake::targets_of(targets@);
        let n: usize = if targets.len() <= collected.len() {
            targets.len()
        } else {
            collected.len()
        };
        let mut agents: Vec<AgentOutcome> = Vec::new();
        let mut i: usize = 0;
        assert(outcomes_of(agents@) =~= outcomes_in(world, ts, collected@, 0));
        while i < n
            invariant
                i <= n,
                n <= targets@.len(),
                n <= collected@.len(),
                ts == intake::targets_of(targets@),
                outcomes_of(agents@) == outcomes_in(world, ts, collected@, i as int),
            decreases n - i,
        {
            let t = &targets[i];
            assert(ts[i as int] == t@);
            if t.world == world {
                let o = AgentOutcome {
                    agent: t.agent.clone(),
                    scenario: t.scenario.clone(),
                    cards: count_events(&collected[i].types, "card_spawn"),
                    resolved: count_events(&collected[i].types, "card_resolve"),
                    timed_out: collected[i].timed_out,
                };
                let ghost before = agents@;
                agents.push(o);
                assert(outcomes_of(agents@) =~= outcomes_of(before).push(o@));
            }
            i += 1;
        }
        r.agents = agents;
        r
    }
}

// ---- world-native cards ----

/// A world-native card (no adapter behind it).
#[derive(Debug)]
pub struct WorldCard {
    pub glyph: String,
    pub title: String,
    pub agent: String,
    pub domain: Domain,
    pub stream: Vec<&'static str>,
}

pub fn card(title: &str, agent: &str, glyph: &str, domain: Domain) -> (r: WorldCard)
    ensures
        r.glyph@ == glyph@,
        r.title@ == title@,
        r.agent@ == agent@,
        r.domain == domain,
        pieces::slices(r.stream@) == seq!["Checking…"@],
{
    let stream = vec!["Checking…"];
    assert(pieces::slices(stream@) =~= seq!["Checking…"@]);
    WorldCard {
        glyph: glyph.to_string(),
        title: title.to_string(),
        agent: agent.to_string(),
        domain,
        stream,
    }
}

/// An event of a world-native scenario.
#[derive(Debug)]
pub enum WorldEvent<C, R> {
    Scenario { key: &'static str, text: &'static str, total_cards: usize },
    CardSpawn { index: usize, card: C, domain: Domain },
    CardResolve { index: usize, resolve: R },
}

impl<C, R> WorldEvent<C, R> {
    pub open spec fn kind_name(self) -> Seq<char> {
        match self {
            WorldEvent::Scenario { .. } => "scenario"@,
            WorldEvent::CardSpawn { .. } => "card_spawn"@,
            WorldEvent::CardResolve { .. } => "card_resolve"@,
        }
    }

    /// The type that the event goes under.
    pub fn kind(&self) -> (r: &'static str)
        ensures
            r@ == self.kind_name(),
    {
        match self {
            WorldEvent::Scenario { .. } => "scenario",
            WorldEvent::CardSpawn { .. } => "card_spawn",
            WorldEvent::CardResolve { .. } => "card_resolve",
        }
    }
}

/// Events for one already-resolved card.
pub fn one_card_events<C, R>(c: C, resolve: R, domain: Domain) -> (r: Vec<WorldEvent<C, R>>)
    ensures
        r@.len() == 3,
        r@[0] matches WorldEvent::Scenario { key, text, total_cards } && key@ == domain.name()
            && text@ == ""@ && total_cards == 1,
        r@[1] == (WorldEvent::<C, R>::CardSpawn { index: 0, card: c, domain }),
        r@[2] == (WorldEvent::<C, R>::CardResolve { index: 0, resolve }),
{
    let mut out: Vec<WorldEvent<C, R>> = Vec::new();
    out.push(WorldEvent::Scenario { key: domain.as_str(), text: "", total_cards: 1 });
    out.push(WorldEvent::CardSpawn { index: 0, card: c, domain });
    out.push(WorldEvent::CardResolve { index: 0, resolve });
    out
}

// ---- worlds ----

/// No stream has to run for the scenario.
pub open spec fn native(scenario: Seq<char>) -> bool {
    scenario == "stub"@ || scenario == "home"@ || scenario == "work"@
}

/// Scenario keys that are world-native (no stream to run).
pub fn is_world_native(scenario: &str) -> (r: bool)
    ensures
        r == native(scenario@),
{
    chars::same(scenario, "stub") || chars::same(scenario, "home") || chars::same(scenario, "work")
}

/// The world has a mother that is enabled.
pub open spec fn mothered(world: Domain, work_enabled: bool, home_enabled: bool) -> bool {
    match world {
        Domain::Work => work_enabled,
        Domain::Home => home_enabled,
        Domain::Shared => false,
    }
}

/// Whether a world mother exists (and is enabled) for `world`.
pub fn has_mother(world: Domain, work_enabled: bool, home_enabled: bool) -> (r: bool)
    ensures
        r == mothered(world, work_enabled, home_enabled),
{
    match world {
        Domain::Work => work_enabled,
        Domain::Home => home_enabled,
        Domain::Shared => false,
    }
}

/// Per-target fan-out budget, in seconds.
pub const TARGET_TIMEOUT_SECS: u64 = 90;

/// Whether a world folds its share of the targets: it is enabled and one of them is its own.
pub open spec fn folds(targets: Seq<TargetView>, world: Domain, enabled: bool) -> bool {
    enabled && exists|i: int| 0 <= i < targets.len() && (#[trigger] targets[i]).world == world
}

pub fn needs_fold(targets: &Vec<Target>, world: Domain, enabled: bool) -> (r: bool)
    ensures
        r == folds(intake::targets_of(targets@), world, enabled),
{
    if !enabled {
        return false;
    }
    let ghost ts = intake::targets_of(targets@);
    let mut i: usize = 0;
    while i < targets.len()
        invariant
            i <= targets.len(),
            enabled,
            ts == intake::targets_of(targets@),
            forall|j: int| 0 <= j < i ==> (#[trigger] ts[j]).world != world,
        decreases targets.len() - i,
    {
        assert(ts[i as int] == targets@[i as int]@);
        if targets[i].world == world {
            return true;
        }
        i += 1;
    }
    false
}

// ---- requests ----

/// Who takes a target up in its world: the world's mother, or the agent itself where the target is
/// shared.
pub open spec fn taker(t: TargetView) -> Seq<char> {
    match t.world {
        Domain::Work => "work_mother"@,
        Domain::Home => "home_mother"@,
        Domain::Shared => t.agent,
    }
}

/// The Mother's request for a target.
pub open spec fn first_request(trace_id: Seq<char>, t: TargetView, ts: Timestamp) -> MessageView {
    MessageView {
        permission_ctx: Some(
            PermissionView { mode: "suggest"@, effects_used: Seq::empty() },
        ),
        ..bus::written(
            trace_id,
            bus::mother_address(),
            AddressView { agent: taker(t), world: t.world },
            bus::Kind::Request,
            PayloadView::Task { agent: Some(t.agent), task: t.task, scenario: t.scenario },
            ts,
        )
    }
}

/// The world mother's request to its agent.
pub open spec fn second_request(trace_id: Seq<char>, t: TargetView, ts: Timestamp) -> MessageView {
    MessageView {
        depth: 2,
        ..bus::written(
            trace_id,
            AddressView { agent: taker(t), world: t.world },
            AddressView { agent: t.agent, world: t.world },
            bus::Kind::Request,
            PayloadView::Task { agent: None, task: t.task, scenario: t.scenario },
            ts,
        )
    }
}

/// The requests that a fan-out sends, in order.
pub open spec fn requests_for(
    trace_id: Seq<char>,
    targets: Seq<TargetView>,
    ts: Timestamp,
) -> Seq<MessageView>
    decreases targets.len(),
{
    if targets.len() == 0 {
        Seq::empty()
    } else {
        let before = requests_for(trace_id, targets.drop_last(), ts);
        let t = targets.last();
        if t.world == Domain::Shared {
            before.push(first_request(trace_id, t, ts))
        } else {
            before.push(first_request(trace_id, t, ts)).push(second_request(trace_id, t, ts))
        }
    }
}

fn taker_name(t: &Target) -> (r: String)
    ensures
        r@ == taker(t@),
{
    match t.world {
        Domain::Work => "work_mother".to_string(),
        Domain::Home => "home_mother".to_string(),
        Domain::Shared => t.agent.clone(),
    }
}

/// The messages as if all of them had been written at `ts`.
pub open spec fn stamped(ms: Seq<MessageView>, ts: Timestamp) -> Seq<MessageView> {
    ms.map_values(|m: MessageView| MessageView { ts, ..m })
}

/// The requests that the Mother and the world mothers send for the targets of a turn, each written
/// at its own moment.
pub fn requests(trace_id: &str, targets: &Vec<Target>) -> (r: Vec<AgentMessage>)
    ensures
        forall|ts: Timestamp| #[trigger]
            stamped(bus::messages_of(r@), ts) == requests_for(
                trace_id@,
                intake::targets_of(targets@),
                ts,
            ),
{
    let ghost all = intake::targets_of(targets@);
    let mut out: Vec<AgentMessage> = Vec::new();
    let mut i: usize = 0;
    assert(all.take(0) =~= Seq::empty());
    assert forall|ts: Timestamp| #[trigger]
        stamped(bus::messages_of(out@), ts) == requests_for(trace_id@, all.take(0), ts) by {
        assert(stamped(bus::messages_of(out@), ts) =~= Seq::empty());
    }
    while i < targets.len()
        invariant
            i <= targets.len(),
            all == intake::targets_of(targets@),
            forall|ts: Timestamp| #[trigger]
                stamped(bus::messages_of(out@), ts) == requests_for(
                    trace_id@,
                    all.take(i as int),
                    ts,
                ),
        decreases targets.len() - i,
    {
        assert(all.take(i + 1).drop_last() =~= all.take(i as int));
        let t = &targets[i];
        assert(all.take(i + 1).last() == t@);
        let who = taker_name(t);
        let to = Address::new(who.as_str(), t.world);
        let payload = Payload::Task {
            agent: Some(t.agent.clone()),
            task: t.task.clone(),
            scenario: t.scenario.clone(),
        };
        let none: Vec<&str> = Vec::new();
        assert(pieces::slices(none@) =~= Seq::empty());
        let m = AgentMessage::new(
            trace_id,
            Address::mother(),
            to,
            bus::Kind::Request,
            payload,
        ).permission("suggest", &none);
        assert(m@ == first_request(trace_id@, t@, m.ts));
        let ghost o = out@;
        let ghost first = m@;
        out.push(m);
        if t.world != Domain::Shared {
            let payload = Payload::Task {
                agent: None,
                task: t.task.clone(),
                scenario: t.scenario.clone(),
            };
            let m = AgentMessage::new(
                trace_id,
                Address::new(who.as_str(), t.world),
                Address::new(t.agent.as_str(), t.world),
                bus::Kind::Request,
                payload,
            ).depth(2);
            assert(m@ == second_request(trace_id@, t@, m.ts));
            let ghost second = m@;
            out.push(m);
            assert(bus::messages_of(out@) =~= bus::messages_of(o).push(first).push(second));
        } else {
            assert(bus::messages_of(out@) =~= bus::messages_of(o).push(first));
        }
        assert forall|ts: Timestamp| #[trigger]
            stamped(bus::messages_of(out@), ts) == requests_for(
                trace_id@,
                all.take(i + 1),
                ts,
            ) by {
            assert(stamped(bus::messages_of(out@), ts) =~= requests_for(
                trace_id@,
                all.take(i + 1),
                ts,
            )) by {
                assert(stamped(bus::messages_of(o), ts) == requests_for(
                    trace_id@,
                    all.take(i as int),
                    ts,
                ));
            }
        }
        i += 1;
    }
    assert(all.take(targets.len() as int) =~= all);
    out
}

/// The result of a world, from its mother to the Mother, at a moment.
pub open spec fn world_result(
    trace_id: Seq<char>,
    world: Domain,
    facts: Seq<char>,
    ts: Timestamp,
) -> MessageView {
    bus::written(
        trace_id,
        AddressView {
            agent: match world {
                Domain::Work => "work_mother"@,
                Domain::Home => "home_mother"@,
                Domain::Shared => "mother"@,
            },
            world,
        },
        bus::mother_address(),
        bus::Kind::Result,
        PayloadView::Json(facts),
        ts,
    )
}

/// The result that a world mother sends back, from its facts in serialized form.
pub fn result_message(trace_id: &str, world: Domain, facts: &str) -> (r: AgentMessage)
    ensures
        r@ == world_result(trace_id@, world, facts@, r.ts),
{
    let agent = match world {
        Domain::Work => "work_mother",
        Domain::Home => "home_mother",
        Domain::Shared => "mother",
    };
    AgentMessage::new(
        trace_id,
        Address::new(agent, world),
        Address::mother(),
        bus::Kind::Result,
        Payload::Json(facts.to_string()),
    )
}

// ---- laws ----

/// No request of a fan-out is too deep for the bus, and all of them are of the turn.
pub proof fn law_fan_out_requests_are_accepted(
    trace_id: Seq<char>,
    targets: Seq<TargetView>,
    ts: Timestamp,
    i: int,
)
    requires
        0 <= i < requests_for(trace_id, targets, ts).len(),
    ensures
        !bus::too_deep(requests_for(trace_id, targets, ts)[i]),
        requests_for(trace_id, targets, ts)[i].trace_id == trace_id,
    decreases targets.len(),
{
    let before = requests_for(trace_id, targets.drop_last(), ts);
    if i < before.len() {
        assert(requests_for(trace_id, targets, ts)[i] == before[i]);
        law_fan_out_requests_are_accepted(trace_id, targets.drop_last(), ts, i);
    }
}

/// The outcome of each target stands in the result of exactly one world.
pub proof fn law_every_outcome_is_of_one_world(
    targets: Seq<TargetView>,
    collected: Seq<Collected>,
    n: int,
)
    requires
        0 <= n <= targets.len(),
        n <= collected.len(),
    ensures
        outcomes_in(Domain::Work, targets, collected, n).len() + outcomes_in(
            Domain::Home,
            targets,
            collected,
            n,
        ).len() + outcomes_in(Domain::Shared, targets, collected, n).len() == n,
    decreases n,
{
    if n > 0 {
        law_every_outcome_is_of_one_world(targets, collected, n - 1);
    }
}

/// The events that go under a type.
pub open spec fn of_type(kind: Seq<char>) -> spec_fn(Option<String>) -> bool {
    |x: Option<String>| x is Some && x->0@ == kind
}

/// An outcome counts the cards that were spawned and those that were resolved, of the target's own
/// agent and scenario.
pub proof fn law_what_an_outcome_counts(t: TargetView, c: Collected)
    ensures
        ({
            let o = outcome_of(t, c);
            &&& o.agent == t.agent
            &&& o.scenario == t.scenario
            &&& o.timed_out == c.timed_out
            &&& o.cards == c.types@.filter(of_type("card_spawn"@)).len()
            &&& o.resolved == c.types@.filter(of_type("card_resolve"@)).len()
        }),
{
    lemma_events_of_kind(c.types@, "card_spawn"@);
    lemma_events_of_kind(c.types@, "card_resolve"@);
}

proof fn lemma_events_of_kind(types: Seq<Option<String>>, kind: Seq<char>)
    ensures
        events_of_kind(types, kind) == types.filter(of_type(kind)).len(),
    decreases types.len(),
{
    reveal(Seq::filter);
    if types.len() > 0 {
        lemma_events_of_kind(types.drop_last(), kind);
    }
}

/// The result of a world has the outcome of each of its own targets, in order, as far as something
/// was collected, and of no other.
pub proof fn law_a_world_has_its_own_outcomes(
    world: Domain,
    targets: Seq<TargetView>,
    collected: Seq<Collected>,
    n: int,
)
    requires
        0 <= n,
    ensures
        targets[n].world == world ==> outcomes_in(world, targets, collected, n + 1)
            == outcomes_in(world, targets, collected, n).push(
            outcome_of(targets[n], collected[n]),
        ),
        targets[n].world != world ==> outcomes_in(world, targets, collected, n + 1)
            == outcomes_in(world, targets, collected, n),
        outcomes_in(world, targets, collected, 0).len() == 0,
        forall|a: nat, b: nat| #[trigger] shorter(a, b) <= a && shorter(a, b) <= b && (shorter(
            a,
            b,
        ) == a || shorter(a, b) == b),
{
}

/// Nothing has to run for a stub and for the two worlds themselves, and for every other scenario
/// something has.
pub proof fn law_what_is_native(scenario: Seq<char>)
    ensures
        native(scenario) <==> scenario == "stub"@ || scenario == "home"@ || scenario == "work"@,
{
}

/// A world has a mother exactly where its own is enabled; what is of both has none.
pub proof fn law_who_has_a_mother(work_enabled: bool, home_enabled: bool)
    ensures
        mothered(Domain::Work, work_enabled, home_enabled) == work_enabled,
        mothered(Domain::Home, work_enabled, home_enabled) == home_enabled,
        !mothered(Domain::Shared, work_enabled, home_enabled),
{
}

/// A world folds its share exactly where it is enabled and a target is its own.
pub proof fn law_which_worlds_fold(targets: Seq<TargetView>, world: Domain, enabled: bool)
    ensures
        folds(targets, world, enabled) <==> enabled && targets.filter(
            |t: TargetView| t.world == world,
        ).len() > 0,
    decreases targets.len(),
{
    reveal(Seq::filter);
    let f = |t: TargetView| t.world == world;
    if targets.len() > 0 {
        let init = targets.drop_last();
        law_which_worlds_fold(init, world, enabled);
        assert(targets[targets.len() - 1] == targets.last());
        if folds(init, world, enabled) {
            let i = choose|i: int| 0 <= i < init.len() && (#[trigger] init[i]).world == world;
            assert(targets[i].world == world);
        }
        if folds(targets, world, enabled) && targets.last().world != world {
            let i = choose|i: int|
                0 <= i < targets.len() && (#[trigger] targets[i]).world == world;
            assert(init[i].world == world);
        }
    }
}

/// Each target is asked for by the Mother, to suggest only: of the mother of its world, who asks the
/// agent one level deeper; or, where it is of both worlds, of the agent itself.
pub proof fn law_who_is_asked(
    trace_id: Seq<char>,
    targets: Seq<TargetView>,
    t: TargetView,
    ts: Timestamp,
)
    ensures
        ({
            let before = requests_for(trace_id, targets, ts);
            let after = requests_for(trace_id, targets.push(t), ts);
            let n = before.len() as int;
            let first = after[n];
            let second = after[n + 1];
            &&& after.take(n) == before
            &&& after.len() == if t.world == Domain::Shared {
                n + 1
            } else {
                n + 2
            }
            &&& first.trace_id == trace_id
            &&& first.kind == bus::Kind::Request
            &&& first.from.agent == "mother"@
            &&& first.from.world == Domain::Shared
            &&& first.to.world == t.world
            &&& first.domain == Domain::Shared
            &&& first.depth == 1
            &&& first.permission_ctx matches Some(p) && p.mode == "suggest"@
                && p.effects_used.len() == 0
            &&& first.payload == (PayloadView::Task {
                agent: Some(t.agent),
                task: t.task,
                scenario: t.scenario,
            })
            &&& first.to.agent == if t.world == Domain::Work {
                "work_mother"@
            } else if t.world == Domain::Home {
                "home_mother"@
            } else {
                t.agent
            }
            &&& t.world != Domain::Shared ==> {
                &&& second.trace_id == trace_id
                &&& second.kind == bus::Kind::Request
                &&& second.from == first.to
                &&& second.to.agent == t.agent
                &&& second.to.world == t.world
                &&& second.domain == t.world
                &&& second.depth == 2
                &&& second.permission_ctx is None
                &&& second.payload == (PayloadView::Task {
                    agent: None,
                    task: t.task,
                    scenario: t.scenario,
                })
            }
        }),
{
    assert(targets.push(t).drop_last() =~= targets);
    let before = requests_for(trace_id, targets, ts);
    let after = requests_for(trace_id, targets.push(t), ts);
    assert(after.take(before.len() as int) =~= before);
}

/// The types that the events of a native scenario go under are those that outcomes count.
pub proof fn law_types_of_the_events<C, R>(e: WorldEvent<C, R>)
    ensures
        e is Scenario <==> e.kind_name() == "scenario"@,
        e is CardSpawn <==> e.kind_name() == "card_spawn"@,
        e is CardResolve <==> e.kind_name() == "card_resolve"@,
{
    reveal_strlit("scenario");
    reveal_strlit("card_spawn");
    reveal_strlit("card_resolve");
    assert("scenario"@.len() == 8 && "card_spawn"@.len() == 10 && "card_resolve"@.len() == 12);
}

/// The result of a world comes from whom the Mother asked for its targets, in the same turn, with
/// the facts as they are; it is never refused.
pub proof fn law_who_answers(
    trace_id: Seq<char>,
    t: TargetView,
    facts: Seq<char>,
    ts: Timestamp,
)
    ensures
        ({
            let r = world_result(trace_id, t.world, facts, ts);
            let asked = first_request(trace_id, t, ts);
            &&& t.world != Domain::Shared ==> r.from == asked.to && r.to == asked.from
            &&& r.to.agent == "mother"@
            &&& r.from.world == t.world
            &&& r.kind == bus::Kind::Result
            &&& r.trace_id == trace_id
            &&& r.payload == PayloadView::Json(facts)
            &&& r.domain == Domain::Shared
            &&& !bus::too_deep(r)
        }),
{
}

} // verus!
