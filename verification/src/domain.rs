//! Life domains and authority modes.

use vstd::prelude::*;

use crate::text::chars;

verus! {

/// The world a fact, a card or an agent belongs to.
#[derive(Clone, Copy, Debug, PartialEq, Eq, Structural)]
pub enum Domain {
    Work,
    Home,
    Shared,
}

/// What an agent may do on its own.
#[derive(Clone, Copy, Debug, PartialEq, Eq, Structural)]
pub enum Mode {
    Observe,
    Suggest,
    Automate,
}

impl Default for Domain {
    fn default() -> (r: Self)
        ensures
            r == Domain::Shared,
    {
        Domain::Shared
    }
}

impl Domain {
    pub open spec fn name(self) -> Seq<char> {
        match self {
            Domain::Work => "work"@,
            Domain::Home => "home"@,
            Domain::Shared => "shared"@,
        }
    }

    pub fn as_str(&self) -> (r: &'static str)
        ensures
            r@ == self.name(),
    {
        match self {
            Domain::Work => "work",
            Domain::Home => "home",
            Domain::Shared => "shared",
        }
    }

    pub open spec fn named(s: Seq<char>) -> Option<Domain> {
        if s == Domain::Work.name() {
            Some(Domain::Work)
        } else if s == Domain::Home.name() {
            Some(Domain::Home)
        } else if s == Domain::Shared.name() {
            Some(Domain::Shared)
        } else {
            None
        }
    }

    pub fn parse(s: &str) -> (r: Option<Domain>)
        ensures
            r == Domain::named(s@),
    {
        if chars::same(s, "work") {
            Some(Domain::Work)
        } else if chars::same(s, "home") {
            Some(Domain::Home)
        } else if chars::same(s, "shared") {
            Some(Domain::Shared)
        } else {
            None
        }
    }

    /// The world whose agents a scenario stands in for.
    pub open spec fn of_scenario(s: Seq<char>) -> Domain {
        if s == "deck"@ || s == "people"@ || s == "work"@ {
            Domain::Work
        } else if s == "week"@ || s == "live"@ || s == "lisbon"@ || s == "home"@ {
            Domain::Home
        } else {
            Domain::Shared
        }
    }

    pub fn for_scenario(scenario: &str) -> (r: Domain)
        ensures
            r == Domain::of_scenario(scenario@),
    {
        if chars::same(scenario, "deck") || chars::same(scenario, "people") || chars::same(
            scenario,
            "work",
        ) {
            Domain::Work
        } else if chars::same(scenario, "week") || chars::same(scenario, "live") || chars::same(
            scenario,
            "lisbon",
        ) || chars::same(scenario, "home") {
            Domain::Home
        } else {
            Domain::Shared
        }
    }

    /// The world that a card names, or else that of its scenario.
    pub open spec fn of_card(scenario: Seq<char>, named: Option<Seq<char>>) -> Domain {
        match named {
            Some(n) => match Domain::named(n) {
                Some(d) => d,
                None => Domain::of_scenario(scenario),
            },
            None => Domain::of_scenario(scenario),
        }
    }

    /// The world of a card: the one it names, or else that of its scenario.
    pub fn for_card(scenario: &str, named: Option<&str>) -> (r: Domain)
        ensures
            r == Domain::of_card(
                scenario@,
                match named {
                    Some(n) => Some(n@),
                    None => None,
                },
            ),
    {
        match named {
            Some(n) => match Domain::parse(n) {
                Some(d) => d,
                None => Domain::for_scenario(scenario),
            },
            None => Domain::for_scenario(scenario),
        }
    }

    /// A domain is read back from its name.
    pub proof fn law_parse_reads_as_str_back(self)
        ensures
            Domain::named(self.name()) == Some(self),
    {
        reveal_strlit("work");
        reveal_strlit("home");
        reveal_strlit("shared");
        assert("work"@[0] != "home"@[0]);
        assert("work"@[0] != "shared"@[0]);
        assert("home"@[0] != "shared"@[0]);
    }
}

impl Mode {
    pub open spec fn name(self) -> Seq<char> {
        match self {
            Mode::Observe => "observe"@,
            Mode::Suggest => "suggest"@,
            Mode::Automate => "automate"@,
        }
    }

    pub fn as_str(&self) -> (r: &'static str)
        ensures
            r@ == self.name(),
    {
        match self {
            Mode::Observe => "observe",
            Mode::Suggest => "suggest",
            Mode::Automate => "automate",
        }
    }
}

/// The world of a card is the one that its name spells; a card without one, or with another name,
/// is of the world of its scenario.
pub proof fn law_a_card_may_name_its_world(scenario: Seq<char>, name: Seq<char>)
    ensures
        Domain::of_card(scenario, Some("work"@)) == Domain::Work,
        Domain::of_card(scenario, Some("home"@)) == Domain::Home,
        Domain::of_card(scenario, Some("shared"@)) == Domain::Shared,
        name != "work"@ && name != "home"@ && name != "shared"@ ==> Domain::of_card(
            scenario,
            Some(name),
        ) == Domain::of_scenario(scenario),
        Domain::of_card(scenario, None) == Domain::of_scenario(scenario),
{
    reveal_strlit("work");
    reveal_strlit("home");
    reveal_strlit("shared");
    assert("work"@[0] != "home"@[0]);
    assert("shared"@.len() == 6 && "work"@.len() == 4 && "home"@.len() == 4);
}

/// The names of the domains and of the modes.
pub proof fn law_names(s: Seq<char>)
    ensures
        Domain::Work.name() == "work"@,
        Domain::Home.name() == "home"@,
        Domain::Shared.name() == "shared"@,
        Domain::named(s) is Some <==> s == "work"@ || s == "home"@ || s == "shared"@,
        Mode::Observe.name() == "observe"@,
        Mode::Suggest.name() == "suggest"@,
        Mode::Automate.name() == "automate"@,
{
}

/// Decks, people and work are of work; the week, what is live, a trip and home are of home; every
/// other scenario is of both.
pub proof fn law_worlds_of_the_scenarios(s: Seq<char>)
    ensures
        Domain::of_scenario(s) == Domain::Work <==> s == "deck"@ || s == "people"@ || s
            == "work"@,
        Domain::of_scenario(s) == Domain::Home <==> s == "week"@ || s == "live"@ || s
            == "lisbon"@ || s == "home"@,
{
    reveal_strlit("deck");
    reveal_strlit("people");
    reveal_strlit("work");
    reveal_strlit("week");
    reveal_strlit("live");
    reveal_strlit("lisbon");
    reveal_strlit("home");
    assert("deck"@[0] == 'd' && "people"@[0] == 'p' && "work"@[1] == 'o' && "week"@[1] == 'e');
    assert("week"@[0] == 'w' && "live"@[0] == 'l' && "lisbon"@[0] == 'l' && "home"@[0] == 'h');
    assert("work"@[0] == 'w');
}

} // verus!
