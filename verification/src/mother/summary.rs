//! A session's shape.

use vstd::prelude::*;

use crate::domain::Domain;

verus! {

/// A card of a session, as far as its shape goes.
#[derive(Clone, Copy, Debug, PartialEq, Eq, Structural)]
pub struct CardRecord {
    pub domain: Domain,
    pub removed: bool,
}

/// Cards on the field and active agents of one life domain.
#[derive(Clone, Copy, Debug, PartialEq, Eq, Structural)]
pub struct DomainCount {
    pub domain: Domain,
    pub cards: usize,
    pub agents_active: usize,
}

/// How many cards of a domain are not removed.
pub open spec fn cards_in(cards: Seq<CardRecord>, d: Domain) -> nat
    decreases cards.len(),
{
    if cards.len() == 0 {
        0
    } else {
        cards_in(cards.drop_last(), d) + (if !cards.last().removed && cards.last().domain == d {
            1nat
        } else {
            0
        })
    }
}

/// How many agents are of a domain.
pub open spec fn agents_in(agents: Seq<Domain>, d: Domain) -> nat
    decreases agents.len(),
{
    if agents.len() == 0 {
        0
    } else {
        agents_in(agents.drop_last(), d) + (if agents.last() == d {
            1nat
        } else {
            0
        })
    }
}

fn count_domain(cards: &Vec<CardRecord>, agents: &Vec<Domain>, d: Domain) -> (r: DomainCount)
    ensures
        r.domain == d,
        r.cards == cards_in(cards@, d),
        r.agents_active == agents_in(agents@, d),
{
    let mut n: usize = 0;
    let mut i: usize = 0;
    assert(cards@.take(0) =~= Seq::empty());
    while i < cards.len()
        invariant
            i <= cards.len(),
            n <= i,
            n == cards_in(cards@.take(i as int), d),
        decreases cards.len() - i,
    {
        assert(cards@.take(i + 1).drop_last() =~= cards@.take(i as int));
        if !cards[i].removed && cards[i].domain == d {
            n += 1;
        }
        i += 1;
    }
    assert(cards@.take(cards.len() as int) =~= cards@);
    let mut m: usize = 0;
    let mut k: usize = 0;
    assert(agents@.take(0) =~= Seq::empty());
    while k < agents.len()
        invariant
            k <= agents.len(),
            m <= k,
            m == agents_in(agents@.take(k as int), d),
        decreases agents.len() - k,
    {
        assert(agents@.take(k + 1).drop_last() =~= agents@.take(k as int));
        if agents[k] == d {
            m += 1;
        }
        k += 1;
    }
    assert(agents@.take(agents.len() as int) =~= agents@);
    DomainCount { domain: d, cards: n, agents_active: m }
}

/// Counts of cards and active agents per life domain — the Mother's cheap view of a session's
/// shape.
pub fn domain_summary(cards: &Vec<CardRecord>, agents_active: &Vec<Domain>) -> (r: Vec<DomainCount>)
    ensures
        r@.len() == 3,
        r@[0].domain == Domain::Work,
        r@[1].domain == Domain::Home,
        r@[2].domain == Domain::Shared,
        forall|i: int|
            0 <= i < 3 ==> (#[trigger] r@[i]).cards == cards_in(cards@, r@[i].domain)
                && r@[i].agents_active == agents_in(agents_active@, r@[i].domain),
{
    vec![
        count_domain(cards, agents_active, Domain::Work),
        count_domain(cards, agents_active, Domain::Home),
        count_domain(cards, agents_active, Domain::Shared),
    ]
}

/// How many cards are on the field.
pub open spec fn on_the_field(cards: Seq<CardRecord>) -> nat
    decreases cards.len(),
{
    if cards.len() == 0 {
        0
    } else {
        on_the_field(cards.drop_last()) + (if cards.last().removed {
            0nat
        } else {
            1
        })
    }
}

/// The three domains hold every card on the field and every active agent, each once.
pub proof fn law_every_card_and_agent_is_counted_once(cards: Seq<CardRecord>, agents: Seq<Domain>)
    ensures
        cards_in(cards, Domain::Work) + cards_in(cards, Domain::Home) + cards_in(
            cards,
            Domain::Shared,
        ) == on_the_field(cards),
        agents_in(agents, Domain::Work) + agents_in(agents, Domain::Home) + agents_in(
            agents,
            Domain::Shared,
        ) == agents.len(),
    decreases cards.len() + agents.len(),
{
    if cards.len() > 0 {
        law_every_card_and_agent_is_counted_once(cards.drop_last(), agents);
    } else if agents.len() > 0 {
        law_every_card_and_agent_is_counted_once(cards, agents.drop_last());
    }
    if agents.len() > 0 {
        law_every_card_and_agent_is_counted_once(Seq::empty(), agents.drop_last());
    }
}

/// A domain is counted with its cards that are not removed, and with all of its active agents.
pub proof fn law_what_is_counted(cards: Seq<CardRecord>, agents: Seq<Domain>, d: Domain)
    ensures
        cards_in(cards, d) == cards.filter(
            |c: CardRecord| c.domain == d && !c.removed,
        ).len(),
        agents_in(agents, d) == agents.filter(|a: Domain| a == d).len(),
    decreases cards.len() + agents.len(),
{
    reveal(Seq::filter);
    if cards.len() > 0 {
        law_what_is_counted(cards.drop_last(), agents, d);
    } else if agents.len() > 0 {
        law_what_is_counted(cards, agents.drop_last(), d);
    }
}

} // verus!
