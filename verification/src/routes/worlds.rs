//! The two worlds' agent rosters for the world pages: ids, titles, glyphs, missions, default
//! authority modes, stub flags and a starter prompt per agent. No personal data.

use vstd::prelude::*;

use crate::domain::Domain;
use crate::domain::Mode;
use crate::text::chars;
use crate::text::chars::Class;
use crate::text::laws;
use crate::text::pieces;

verus! {

/// An agent as its world registers it.
pub struct WorldAgent {
    pub id: &'static str,
    pub mission: &'static str,
    /// Labeled stub until its source exists.
    pub stub: bool,
    pub scenario: &'static str,
    /// The agents that do the work.
    pub phase1_agents: Vec<&'static str>,
}

pub struct WorldAgentView {
    pub id: &'static str,
    pub title: String,
    pub glyph: &'static str,
    pub world: Domain,
    pub mission: &'static str,
    /// Default authority mode of the agent that does the work (`observe|suggest|automate`).
    pub mode: &'static str,
    pub stub: bool,
    pub scenario: &'static str,
    pub phase1_agents: Vec<&'static str>,
    /// A natural prompt the Mother routes to this agent — what a click on the tile types.
    pub prompt: &'static str,
}

pub struct WorldsResponse {
    pub work: Vec<WorldAgentView>,
    pub home: Vec<WorldAgentView>,
}

pub open spec fn glyph_of(id: Seq<char>) -> Seq<char> {
    if id == "productivity"@ {
        "📅"@
    } else if id == "email"@ {
        "✉️"@
    } else if id == "team_comms"@ {
        "💬"@
    } else if id == "project"@ {
        "🎯"@
    } else if id == "research_knowledge"@ {
        "🔎"@
    } else if id == "work_automation"@ {
        "⚙️"@
    } else if id == "career"@ {
        "🧭"@
    } else if id == "professional_social"@ {
        "💼"@
    } else if id == "family"@ {
        "🏠"@
    } else if id == "personal_productivity"@ {
        "✅"@
    } else if id == "health_wellness"@ {
        "💪"@
    } else if id == "finance"@ {
        "💳"@
    } else if id == "entertainment"@ {
        "📻"@
    } else if id == "social_fun"@ {
        "🎲"@
    } else if id == "travel"@ {
        "✈️"@
    } else if id == "personal_social"@ {
        "📱"@
    } else {
        "✦"@
    }
}

pub fn glyph(id: &str) -> (r: &'static str)
    ensures
        r@ == glyph_of(id@),
{
    if chars::same(id, "productivity") {
        "📅"
    } else if chars::same(id, "email") {
        "✉️"
    } else if chars::same(id, "team_comms") {
        "💬"
    } else if chars::same(id, "project") {
        "🎯"
    } else if chars::same(id, "research_knowledge") {
        "🔎"
    } else if chars::same(id, "work_automation") {
        "⚙️"
    } else if chars::same(id, "career") {
        "🧭"
    } else if chars::same(id, "professional_social") {
        "💼"
    } else if chars::same(id, "family") {
        "🏠"
    } else if chars::same(id, "personal_productivity") {
        "✅"
    } else if chars::same(id, "health_wellness") {
        "💪"
    } else if chars::same(id, "finance") {
        "💳"
    } else if chars::same(id, "entertainment") {
        "📻"
    } else if chars::same(id, "social_fun") {
        "🎲"
    } else if chars::same(id, "travel") {
        "✈️"
    } else if chars::same(id, "personal_social") {
        "📱"
    } else {
        "✦"
    }
}

/// The words of an id, each with a capital.
pub open spec fn spelled(id: Seq<char>) -> Seq<char> {
    pieces::joined(
        pieces::fields(id, Class::One('_')).map_values(|w: Seq<char>| pieces::capital(w)),
        " "@,
    )
}

pub open spec fn title_of(id: Seq<char>) -> Seq<char> {
    if id == "team_comms"@ {
        "Team Comms"@
    } else if id == "research_knowledge"@ {
        "Research & Knowledge"@
    } else if id == "health_wellness"@ {
        "Health & Wellness"@
    } else if id == "social_fun"@ {
        "Social & Fun"@
    } else {
        spelled(id)
    }
}

fn spell(id: &str) -> (r: String)
    ensures
        r@ == spelled(id@),
{
    let v = chars::chars_of(id);
    let fields = pieces::split(&v, Class::One('_'));
    let ghost all = pieces::texts(fields@);
    let ghost want = all.map_values(|w: Seq<char>| pieces::capital(w));
    let mut out: Vec<Vec<char>> = Vec::new();
    let mut i: usize = 0;
    while i < fields.len()
        invariant
            i <= fields.len(),
            all == pieces::texts(fields@),
            want == all.map_values(|w: Seq<char>| pieces::capital(w)),
            pieces::texts(out@) == want.take(i as int),
        decreases fields.len() - i,
    {
        let c = pieces::capitalized(&fields[i]);
        assert(want[i as int] == c@);
        let ghost o = out@;
        out.push(c);
        assert(pieces::texts(out@) =~= pieces::texts(o).push(c@));
        assert(want.take(i + 1) =~= want.take(i as int).push(c@));
        i += 1;
    }
    assert(want.take(fields.len() as int) =~= want);
    chars::text_of(&pieces::join(&out, " "))
}

pub fn title(id: &str) -> (r: String)
    ensures
        r@ == title_of(id@),
{
    if chars::same(id, "team_comms") {
        "Team Comms".to_string()
    } else if chars::same(id, "research_knowledge") {
        "Research & Knowledge".to_string()
    } else if chars::same(id, "health_wellness") {
        "Health & Wellness".to_string()
    } else if chars::same(id, "social_fun") {
        "Social & Fun".to_string()
    } else {
        spell(id)
    }
}

pub open spec fn prompt_of(id: Seq<char>) -> Seq<char> {
    if id == "productivity"@ {
        "What's on my plate today?"@
    } else if id == "email"@ {
        "What's happening in my inbox?"@
    } else if id == "team_comms"@ {
        "Catch me up on the team"@
    } else if id == "project"@ {
        "How are my projects doing?"@
    } else if id == "research_knowledge"@ {
        "Show me what you found"@
    } else if id == "work_automation"@ {
        "Build me a pitch deck"@
    } else if id == "career"@ {
        "Where am I on my career goals?"@
    } else if id == "professional_social"@ {
        "Anything on LinkedIn I should know about?"@
    } else if id == "family"@ {
        "Remind me about family commitments"@
    } else if id == "personal_productivity"@ {
        "What personal errands are due?"@
    } else if id == "health_wellness"@ {
        "How am I sleeping this week?"@
    } else if id == "finance"@ {
        "How's my spending?"@
    } else if id == "entertainment"@ {
        "What is happening live"@
    } else if id == "social_fun"@ {
        "Suggest something fun for the weekend"@
    } else if id == "travel"@ {
        "Plan a weekend trip to Lisbon"@
    } else if id == "personal_social"@ {
        "Anything on my socials?"@
    } else {
        "What's happening?"@
    }
}

pub fn prompt(id: &str) -> (r: &'static str)
    ensures
        r@ == prompt_of(id@),
{
    if chars::same(id, "productivity") {
        "What's on my plate today?"
    } else if chars::same(id, "email") {
        "What's happening in my inbox?"
    } else if chars::same(id, "team_comms") {
        "Catch me up on the team"
    } else if chars::same(id, "project") {
        "How are my projects doing?"
    } else if chars::same(id, "research_knowledge") {
        "Show me what you found"
    } else if chars::same(id, "work_automation") {
        "Build me a pitch deck"
    } else if chars::same(id, "career") {
        "Where am I on my career goals?"
    } else if chars::same(id, "professional_social") {
        "Anything on LinkedIn I should know about?"
    } else if chars::same(id, "family") {
        "Remind me about family commitments"
    } else if chars::same(id, "personal_productivity") {
        "What personal errands are due?"
    } else if chars::same(id, "health_wellness") {
        "How am I sleeping this week?"
    } else if chars::same(id, "finance") {
        "How's my spending?"
    } else if chars::same(id, "entertainment") {
        "What is happening live"
    } else if chars::same(id, "social_fun") {
        "Suggest something fun for the weekend"
    } else if chars::same(id, "travel") {
        "Plan a weekend trip to Lisbon"
    } else if chars::same(id, "personal_social") {
        "Anything on my socials?"
    } else {
        "What's happening?"
    }
}

/// The mode of the first of the agents, as the catalog gives it; to observe, where there is none.
pub open spec fn mode_is<F: Fn(&str) -> Mode>(agents: Seq<&'static str>, f: F, mode: Seq<char>) -> bool {
    if agents.len() == 0 {
        mode == Mode::Observe.name()
    } else {
        exists|m: Mode| call_ensures(f, (agents[0],), m) && mode == #[trigger] m.name()
    }
}

fn mode_for<F: Fn(&str) -> Mode>(agents: &Vec<&'static str>, catalog: &F) -> (r: &'static str)
    requires
        forall|s: &str| call_requires(*catalog, (s,)),
    ensures
        mode_is(agents@, *catalog, r@),
{
    if agents.len() == 0 {
        Mode::Observe.as_str()
    } else {
        let m = catalog(agents[0]);
        m.as_str()
    }
}

/// The tile of an agent of `world`.
pub open spec fn tile_is<F: Fn(&str) -> Mode>(
    a: WorldAgent,
    world: Domain,
    catalog: F,
    v: WorldAgentView,
) -> bool {
    &&& v.id@ == a.id@
    &&& v.title@ == title_of(a.id@)
    &&& v.glyph@ == glyph_of(a.id@)
    &&& v.world == world
    &&& v.mission@ == a.mission@
    &&& mode_is(a.phase1_agents@, catalog, v.mode@)
    &&& v.stub == a.stub
    &&& v.scenario@ == a.scenario@
    &&& v.phase1_agents@ == a.phase1_agents@
    &&& v.prompt@ == prompt_of(a.id@)
}

/// One tile for each agent of the registry, in order.
pub open spec fn roster_is<F: Fn(&str) -> Mode>(
    agents: Seq<WorldAgent>,
    world: Domain,
    catalog: F,
    tiles: Seq<WorldAgentView>,
) -> bool {
    &&& tiles.len() == agents.len()
    &&& forall|i: int|
        0 <= i < tiles.len() ==> tile_is(agents[i], world, catalog, #[trigger] tiles[i])
}

fn copy_names(v: &Vec<&'static str>) -> (r: Vec<&'static str>)
    ensures
        r@ == v@,
{
    let mut out: Vec<&'static str> = Vec::new();
    let mut i: usize = 0;
    while i < v.len()
        invariant
            i <= v.len(),
            out@ == v@.take(i as int),
        decreases v.len() - i,
    {
        out.push(v[i]);
        assert(v@.take(i + 1) =~= v@.take(i as int).push(v@[i as int]));
        i += 1;
    }
    assert(v@.take(v.len() as int) =~= v@);
    out
}

fn roster<F: Fn(&str) -> Mode>(agents: &Vec<WorldAgent>, world: Domain, catalog: &F) -> (r: Vec<
    WorldAgentView,
>)
    requires
        forall|s: &str| call_requires(*catalog, (s,)),
    ensures
        roster_is(agents@, world, *catalog, r@),
{
    let mut out: Vec<WorldAgentView> = Vec::new();
    let mut i: usize = 0;
    while i < agents.len()
        invariant
            i <= agents.len(),
            forall|s: &str| call_requires(*catalog, (s,)),
            out@.len() == i,
            forall|k: int|
                0 <= k < out@.len() ==> tile_is(
                    agents@[k],
                    world,
                    *catalog,
                    #[trigger] out@[k],
                ),
        decreases agents.len() - i,
    {
        let a = &agents[i];
        let v = WorldAgentView {
            id: a.id,
            title: title(a.id),
            glyph: glyph(a.id),
            world,
            mission: a.mission,
            mode: mode_for(&a.phase1_agents, catalog),
            stub: a.stub,
            scenario: a.scenario,
            phase1_agents: copy_names(&a.phase1_agents),
            prompt: prompt(a.id),
        };
        out.push(v);
        i += 1;
    }
    out
}

/// The rosters of both worlds, from their registries and the catalog of authority modes.
pub fn rosters<F: Fn(&str) -> Mode>(
    work_agents: &Vec<WorldAgent>,
    home_agents: &Vec<WorldAgent>,
    catalog: &F,
) -> (r: WorldsResponse)
    requires
        forall|s: &str| call_requires(*catalog, (s,)),
    ensures
        roster_is(work_agents@, Domain::Work, *catalog, r.work@),
        roster_is(home_agents@, Domain::Home, *catalog, r.home@),
{
    WorldsResponse {
        work: roster(work_agents, Domain::Work, catalog),
        home: roster(home_agents, Domain::Home, catalog),
    }
}

/// Every tile is of the world of its roster, and where the registries of two worlds share no agent,
/// neither do their rosters.
pub proof fn law_rosters_do_not_overlap<F: Fn(&str) -> Mode>(
    work: Seq<WorldAgent>,
    home: Seq<WorldAgent>,
    catalog: F,
    r: WorldsResponse,
)
    requires
        roster_is(work, Domain::Work, catalog, r.work@),
        roster_is(home, Domain::Home, catalog, r.home@),
    ensures
        forall|i: int| 0 <= i < r.work@.len() ==> (#[trigger] r.work@[i]).world == Domain::Work,
        forall|j: int| 0 <= j < r.home@.len() ==> (#[trigger] r.home@[j]).world == Domain::Home,
        (forall|a: int, b: int|
            0 <= a < work.len() && 0 <= b < home.len() ==> (#[trigger] work[a]).id@ != (
            #[trigger] home[b]).id@) ==> forall|i: int, j: int|
            0 <= i < r.work@.len() && 0 <= j < r.home@.len() ==> (#[trigger] r.work@[i]).id@ != (
            #[trigger] r.home@[j]).id@,
{
    assert forall|i: int| 0 <= i < r.work@.len() implies (#[trigger] r.work@[i]).world
        == Domain::Work && r.work@[i].id@ == work[i].id@ by {
        assert(tile_is(work[i], Domain::Work, catalog, r.work@[i]));
    }
    assert forall|j: int| 0 <= j < r.home@.len() implies (#[trigger] r.home@[j]).world
        == Domain::Home && r.home@[j].id@ == home[j].id@ by {
        assert(tile_is(home[j], Domain::Home, catalog, r.home@[j]));
    }
    if forall|a: int, b: int|
        0 <= a < work.len() && 0 <= b < home.len() ==> (#[trigger] work[a]).id@ != (
        #[trigger] home[b]).id@ {
        assert forall|i: int, j: int| 0 <= i < r.work@.len() && 0 <= j < r.home@.len() implies (
        #[trigger] r.work@[i]).id@ != (#[trigger] r.home@[j]).id@ by {
            assert(work[i].id@ != home[j].id@);
        }
    }
}

/// The glyph of each agent, and that of every other.
pub proof fn law_glyphs(id: Seq<char>)
    ensures
        id == "productivity"@ ==> glyph_of(id) == "📅"@,
        id == "email"@ ==> glyph_of(id) == "✉️"@,
        id == "team_comms"@ ==> glyph_of(id) == "💬"@,
        id == "project"@ ==> glyph_of(id) == "🎯"@,
        id == "research_knowledge"@ ==> glyph_of(id) == "🔎"@,
        id == "work_automation"@ ==> glyph_of(id) == "⚙️"@,
        id == "career"@ ==> glyph_of(id) == "🧭"@,
        id == "professional_social"@ ==> glyph_of(id) == "💼"@,
        id == "family"@ ==> glyph_of(id) == "🏠"@,
        id == "personal_productivity"@ ==> glyph_of(id) == "✅"@,
        id == "health_wellness"@ ==> glyph_of(id) == "💪"@,
        id == "finance"@ ==> glyph_of(id) == "💳"@,
        id == "entertainment"@ ==> glyph_of(id) == "📻"@,
        id == "social_fun"@ ==> glyph_of(id) == "🎲"@,
        id == "travel"@ ==> glyph_of(id) == "✈️"@,
        id == "personal_social"@ ==> glyph_of(id) == "📱"@,
        id != "productivity"@ && id != "email"@ && id != "team_comms"@ && id != "project"@ && id != "research_knowledge"@ && id != "work_automation"@ && id != "career"@ && id != "professional_social"@ && id != "family"@ && id != "personal_productivity"@ && id != "health_wellness"@ && id != "finance"@ && id != "entertainment"@ && id != "social_fun"@ && id != "travel"@ && id != "personal_social"@ ==> glyph_of(id) == "✦"@,
{
    reveal_strlit("productivity");
    assert("productivity"@.len() == 12);
    reveal_strlit("email");
    assert("email"@.len() == 5);
    reveal_strlit("team_comms");
    assert("team_comms"@.len() == 10);
    reveal_strlit("project");
    assert("project"@.len() == 7);
    reveal_strlit("research_knowledge");
    assert("research_knowledge"@.len() == 18);
    reveal_strlit("work_automation");
    assert("work_automation"@.len() == 15);
    reveal_strlit("career");
    assert("career"@.len() == 6);
    reveal_strlit("professional_social");
    assert("professional_social"@.len() == 19);
    reveal_strlit("family");
    assert("family"@.len() == 6);
    reveal_strlit("personal_productivity");
    assert("personal_productivity"@.len() == 21);
    reveal_strlit("health_wellness");
    assert("health_wellness"@.len() == 15);
    reveal_strlit("finance");
    assert("finance"@.len() == 7);
    reveal_strlit("entertainment");
    assert("entertainment"@.len() == 13);
    reveal_strlit("social_fun");
    assert("social_fun"@.len() == 10);
    reveal_strlit("travel");
    assert("travel"@.len() == 6);
    reveal_strlit("personal_social");
    assert("personal_social"@.len() == 15);
    assert("career"@[0] != "family"@[0]);
    assert("work_automation"@[0] != "health_wellness"@[0]);
    assert("project"@[0] != "finance"@[0]);
    assert("team_comms"@[0] != "social_fun"@[0]);
    assert("career"@[0] != "travel"@[0]);
    assert("family"@[0] != "travel"@[0]);
    assert("work_automation"@[0] != "personal_social"@[0]);
    assert("health_wellness"@[0] != "personal_social"@[0]);
}

/// What a click on each agent asks, and on every other.
pub proof fn law_prompts(id: Seq<char>)
    ensures
        id == "productivity"@ ==> prompt_of(id) == "What's on my plate today?"@,
        id == "email"@ ==> prompt_of(id) == "What's happening in my inbox?"@,
        id == "team_comms"@ ==> prompt_of(id) == "Catch me up on the team"@,
        id == "project"@ ==> prompt_of(id) == "How are my projects doing?"@,
        id == "research_knowledge"@ ==> prompt_of(id) == "Show me what you found"@,
        id == "work_automation"@ ==> prompt_of(id) == "Build me a pitch deck"@,
        id == "career"@ ==> prompt_of(id) == "Where am I on my career goals?"@,
        id == "professional_social"@ ==> prompt_of(id) == "Anything on LinkedIn I should know about?"@,
        id == "family"@ ==> prompt_of(id) == "Remind me about family commitments"@,
        id == "personal_productivity"@ ==> prompt_of(id) == "What personal errands are due?"@,
        id == "health_wellness"@ ==> prompt_of(id) == "How am I sleeping this week?"@,
        id == "finance"@ ==> prompt_of(id) == "How's my spending?"@,
        id == "entertainment"@ ==> prompt_of(id) == "What is happening live"@,
        id == "social_fun"@ ==> prompt_of(id) == "Suggest something fun for the weekend"@,
        id == "travel"@ ==> prompt_of(id) == "Plan a weekend trip to Lisbon"@,
        id == "personal_social"@ ==> prompt_of(id) == "Anything on my socials?"@,
        id != "productivity"@ && id != "email"@ && id != "team_comms"@ && id != "project"@ && id != "research_knowledge"@ && id != "work_automation"@ && id != "career"@ && id != "professional_social"@ && id != "family"@ && id != "personal_productivity"@ && id != "health_wellness"@ && id != "finance"@ && id != "entertainment"@ && id != "social_fun"@ && id != "travel"@ && id != "personal_social"@ ==> prompt_of(id) == "What's happening?"@,
{
    reveal_strlit("productivity");
    assert("productivity"@.len() == 12);
    reveal_strlit("email");
    assert("email"@.len() == 5);
    reveal_strlit("team_comms");
    assert("team_comms"@.len() == 10);
    reveal_strlit("project");
    assert("project"@.len() == 7);
    reveal_strlit("research_knowledge");
    assert("research_knowledge"@.len() == 18);
    reveal_strlit("work_automation");
    assert("work_automation"@.len() == 15);
    reveal_strlit("career");
    assert("career"@.len() == 6);
    reveal_strlit("professional_social");
    assert("professional_social"@.len() == 19);
    reveal_strlit("family");
    assert("family"@.len() == 6);
    reveal_strlit("personal_productivity");
    assert("personal_productivity"@.len() == 21);
    reveal_strlit("health_wellness");
    assert("health_wellness"@.len() == 15);
    reveal_strlit("finance");
    assert("finance"@.len() == 7);
    reveal_strlit("entertainment");
    assert("entertainment"@.len() == 13);
    reveal_strlit("social_fun");
    assert("social_fun"@.len() == 10);
    reveal_strlit("travel");
    assert("travel"@.len() == 6);
    reveal_strlit("personal_social");
    assert("personal_social"@.len() == 15);
    assert("career"@[0] != "family"@[0]);
    assert("work_automation"@[0] != "health_wellness"@[0]);
    assert("project"@[0] != "finance"@[0]);
    assert("team_comms"@[0] != "social_fun"@[0]);
    assert("career"@[0] != "travel"@[0]);
    assert("family"@[0] != "travel"@[0]);
    assert("work_automation"@[0] != "personal_social"@[0]);
    assert("health_wellness"@[0] != "personal_social"@[0]);
}

/// Four agents have a title of their own; every other is titled by the words of its id.
pub proof fn law_titles(id: Seq<char>)
    ensures
        id == "team_comms"@ ==> title_of(id) == "Team Comms"@,
        id == "research_knowledge"@ ==> title_of(id) == "Research & Knowledge"@,
        id == "health_wellness"@ ==> title_of(id) == "Health & Wellness"@,
        id == "social_fun"@ ==> title_of(id) == "Social & Fun"@,
        id != "team_comms"@ && id != "research_knowledge"@ && id != "health_wellness"@ && id != "social_fun"@ ==> title_of(id) == spelled(id),
{
    reveal_strlit("team_comms");
    assert("team_comms"@.len() == 10);
    reveal_strlit("research_knowledge");
    assert("research_knowledge"@.len() == 18);
    reveal_strlit("health_wellness");
    assert("health_wellness"@.len() == 15);
    reveal_strlit("social_fun");
    assert("social_fun"@.len() == 10);
    assert("team_comms"@[0] != "social_fun"@[0]);
}

/// A title that is spelled has each word of the id with a capital, one space apart.
pub proof fn law_spelled_titles(a: Seq<char>, b: Seq<char>)
    requires
        forall|i: int| 0 <= i < a.len() ==> #[trigger] a[i] != '_',
        forall|i: int| 0 <= i < b.len() ==> #[trigger] b[i] != '_',
    ensures
        spelled(b) == pieces::capital(b),
        spelled(a + "_"@ + b) == pieces::capital(a) + " "@ + pieces::capital(b),
{
    reveal_strlit("_");
    let k = Class::One('_');
    let f = |w: Seq<char>| pieces::capital(w);
    assert("_"@ =~= seq!['_']);
    laws::law_separators_start_fields(a, '_', a, k);
    laws::law_separators_start_fields(a, '_', b, k);
    assert(seq![b].map_values(f) =~= seq![pieces::capital(b)]);
    let two = seq![a].push(b).map_values(f);
    assert(two =~= seq![pieces::capital(a)].push(pieces::capital(b)));
    laws::law_joining(seq![pieces::capital(a)], pieces::capital(b), " "@);
}

/// A tile shows its own agent, of the world of its roster, with the authority of the first agent
/// that does the work; where none does, it observes.
pub proof fn law_what_a_tile_shows<F: Fn(&str) -> Mode>(
    agents: Seq<WorldAgent>,
    world: Domain,
    catalog: F,
    tiles: Seq<WorldAgentView>,
    i: int,
)
    requires
        roster_is(agents, world, catalog, tiles),
        0 <= i < agents.len(),
    ensures
        tiles.len() == agents.len(),
        tiles[i].id@ == agents[i].id@,
        tiles[i].world == world,
        tiles[i].mission@ == agents[i].mission@,
        tiles[i].stub == agents[i].stub,
        tiles[i].scenario@ == agents[i].scenario@,
        tiles[i].phase1_agents@ == agents[i].phase1_agents@,
        tiles[i].title@ == title_of(agents[i].id@),
        tiles[i].glyph@ == glyph_of(agents[i].id@),
        tiles[i].prompt@ == prompt_of(agents[i].id@),
        agents[i].phase1_agents@.len() == 0 ==> tiles[i].mode@ == "observe"@,
        agents[i].phase1_agents@.len() > 0 ==> exists|m: Mode|
            call_ensures(catalog, (agents[i].phase1_agents@[0],), m) && tiles[i].mode@
                == #[trigger] m.name(),
{
    assert(tile_is(agents[i], world, catalog, tiles[i]));
}

} // verus!
