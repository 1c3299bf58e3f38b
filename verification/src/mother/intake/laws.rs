//! What intake promises: which words make an utterance an action, urgent or noise, and who acts on
//! what it says.

use vstd::prelude::*;

use crate::domain::Domain;
use crate::mother::intake;
use crate::mother::intake::IntakeView;
use crate::mother::intake::Kind;
use crate::mother::intake::Routed;
use crate::mother::intake::Rule;
use crate::mother::intake::Urgency;
use crate::mother::keywords;
use crate::text::chars;
use crate::text::scan;

verus! {

/// The text asks for something to be done.
pub open spec fn asks_for_action(l: Seq<char>) -> bool {
    ||| scan::within(l, "help me"@)
    ||| scan::within(l, "reorganize"@)
    ||| scan::within(l, "reorganise"@)
    ||| scan::within(l, "reschedule"@)
    ||| scan::within(l, "move "@)
    ||| scan::within(l, "send"@)
    ||| scan::within(l, "draft"@)
    ||| scan::within(l, "book"@)
    ||| scan::within(l, "reply"@)
    ||| scan::within(l, "combine"@)
    ||| scan::within(l, "build me"@)
    ||| scan::within(l, "make me"@)
    ||| scan::within(l, "create"@)
    ||| scan::within(l, "schedule"@)
    ||| scan::within(l, "cancel"@)
    ||| scan::within(l, "remind me to"@)
    ||| scan::within(l, "set a reminder"@)
    ||| scan::within(l, "plan a"@)
    ||| scan::within(l, "plan me"@)
    ||| scan::within(l, "prepare"@)
    ||| scan::within(l, "apply"@)
    ||| scan::within(l, "handle it"@)
    ||| scan::within(l, "do it"@)
}

/// The text presses.
pub open spec fn sounds_urgent(l: Seq<char>) -> bool {
    ||| scan::within(l, "urgent"@)
    ||| scan::within(l, "asap"@)
    ||| scan::within(l, "overwhelmed"@)
    ||| scan::within(l, "right now"@)
    ||| scan::within(l, "emergency"@)
    ||| scan::within(l, "immediately"@)
}

/// The text leaves time.
pub open spec fn sounds_relaxed(l: Seq<char>) -> bool {
    ||| scan::within(l, "whenever"@)
    ||| scan::within(l, "no rush"@)
    ||| scan::within(l, "sometime"@)
    ||| scan::within(l, "eventually"@)
}

/// The text asks for the briefing of the day.
pub open spec fn asks_briefing(l: Seq<char>) -> bool {
    ||| scan::within(l, "what do i need to know"@)
    ||| scan::within(l, "start my day"@)
    ||| scan::within(l, "good morning"@)
    ||| scan::within(l, "morning briefing"@)
    ||| scan::within(l, "my briefing"@)
    ||| scan::within(l, "brief me"@)
}

/// The text asks to be prepared for what comes next.
pub open spec fn asks_prepare(l: Seq<char>) -> bool {
    ||| scan::within(l, "prepare me for"@)
    ||| scan::within(l, "prep me for"@)
    ||| scan::within(l, "my afternoon"@)
    ||| scan::within(l, "afternoon meeting"@)
    ||| scan::within(l, "next meeting"@)
}

/// The text says that the day is too much.
pub open spec fn asks_overwhelmed(l: Seq<char>) -> bool {
    ||| scan::within(l, "overwhelmed"@)
    ||| scan::within(l, "reorganize my day"@)
    ||| scan::within(l, "reorganise my day"@)
    ||| scan::within(l, "reorganize today"@)
    ||| scan::within(l, "lighter day"@)
    ||| scan::within(l, "too much today"@)
    ||| scan::within(l, "help me reorganize"@)
}

/// The text asks how work stands.
pub open spec fn asks_work_status(l: Seq<char>) -> bool {
    ||| scan::within(l, "happening with work"@)
    ||| scan::within(l, "how is work"@)
    ||| scan::within(l, "how's work"@)
    ||| scan::within(l, "work status"@)
    ||| scan::within(l, "what's up at work"@)
    ||| scan::within(l, "whats up at work"@)
    ||| scan::within(l, "at work today"@)
}

/// The text asks about the family.
pub open spec fn asks_family(l: Seq<char>) -> bool {
    ||| scan::within(l, "family commitment"@)
    ||| scan::within(l, "family event"@)
    ||| scan::within(l, "family plans"@)
    ||| scan::within(l, "remind me about family"@)
    ||| scan::within(l, "what's happening at home"@)
    ||| scan::within(l, "whats happening at home"@)
    ||| scan::within(l, "home commitments"@)
}

/// The text asks about personal tasks.
pub open spec fn asks_personal_tasks(l: Seq<char>) -> bool {
    ||| scan::within(l, "my personal tasks"@)
    ||| scan::within(l, "my errands"@)
    ||| scan::within(l, "personal to-do"@)
    ||| scan::within(l, "personal todo"@)
    ||| scan::within(l, "what do i need to do at home"@)
    ||| scan::within(l, "household tasks"@)
}

/// The text asks about what was read.
pub open spec fn asks_reading(l: Seq<char>) -> bool {
    ||| scan::within(l, "been reading"@)
    ||| scan::within(l, "what have i read"@)
    ||| scan::within(l, "my reading"@)
    ||| scan::within(l, "what am i learning"@)
    ||| scan::within(l, "reading lately"@)
}

/// The text speaks of a trip.
pub open spec fn asks_travel(l: Seq<char>) -> bool {
    ||| scan::within(l, "trip"@)
    ||| scan::within(l, "travel"@)
    ||| scan::within(l, "flight"@)
    ||| scan::within(l, "hotel"@)
    ||| scan::within(l, "itinerary"@)
    ||| scan::within(l, "vacation"@)
    ||| scan::within(l, "holiday"@)
    ||| scan::within(l, "lisbon"@)
}

/// The text speaks of money.
pub open spec fn asks_money(l: Seq<char>) -> bool {
    ||| scan::within(l, "spending"@)
    ||| scan::within(l, "my budget"@)
    ||| scan::within(l, "my money"@)
    ||| scan::within(l, "how much did i spend"@)
    ||| scan::within(l, "subscriptions"@)
}

/// The text speaks of health.
pub open spec fn asks_health(l: Seq<char>) -> bool {
    ||| scan::within(l, "my sleep"@)
    ||| scan::within(l, "my health"@)
    ||| scan::within(l, "exercise"@)
    ||| scan::within(l, "workout"@)
    ||| scan::within(l, "wellness"@)
}

/// The text is a bare greeting or a bare word.
pub open spec fn only_greets(l: Seq<char>) -> bool {
    ||| l == "hi"@
    ||| l == "hello"@
    ||| l == "hey"@
    ||| l == "hmm"@
    ||| l == "help"@
    ||| l == "test"@
    ||| l == "ok"@
    ||| l == "yes"@
    ||| l == "no"@
}

/// The text says too little: under three bytes, no letter, or a bare greeting.
pub open spec fn says_too_little(l: Seq<char>) -> bool {
    ||| chars::byte_len(l) < 3
    ||| forall|i: int| 0 <= i < l.len() ==> !chars::alphabetic(#[trigger] l[i])
    ||| only_greets(l)
}

proof fn lemma_action(l: Seq<char>)
    ensures
        intake::any_within(l, intake::action_phrases()) <==> asks_for_action(l),
{
    let s = intake::action_phrases();
    assert(s[0] == "help me"@);
    assert(s[1] == "reorganize"@);
    assert(s[2] == "reorganise"@);
    assert(s[3] == "reschedule"@);
    assert(s[4] == "move "@);
    assert(s[5] == "send"@);
    assert(s[6] == "draft"@);
    assert(s[7] == "book"@);
    assert(s[8] == "reply"@);
    assert(s[9] == "combine"@);
    assert(s[10] == "build me"@);
    assert(s[11] == "make me"@);
    assert(s[12] == "create"@);
    assert(s[13] == "schedule"@);
    assert(s[14] == "cancel"@);
    assert(s[15] == "remind me to"@);
    assert(s[16] == "set a reminder"@);
    assert(s[17] == "plan a"@);
    assert(s[18] == "plan me"@);
    assert(s[19] == "prepare"@);
    assert(s[20] == "apply"@);
    assert(s[21] == "handle it"@);
    assert(s[22] == "do it"@);
    assert(s.len() == 23);
}

proof fn lemma_urgent(l: Seq<char>)
    ensures
        intake::any_within(l, intake::urgent_phrases()) <==> sounds_urgent(l),
{
    let s = intake::urgent_phrases();
    assert(s[0] == "urgent"@);
    assert(s[1] == "asap"@);
    assert(s[2] == "overwhelmed"@);
    assert(s[3] == "right now"@);
    assert(s[4] == "emergency"@);
    assert(s[5] == "immediately"@);
    assert(s.len() == 6);
}

proof fn lemma_relaxed(l: Seq<char>)
    ensures
        intake::any_within(l, intake::relaxed_phrases()) <==> sounds_relaxed(l),
{
    let s = intake::relaxed_phrases();
    assert(s[0] == "whenever"@);
    assert(s[1] == "no rush"@);
    assert(s[2] == "sometime"@);
    assert(s[3] == "eventually"@);
    assert(s.len() == 4);
}

proof fn lemma_greets(l: Seq<char>)
    ensures
        intake::greetings().contains(l) <==> only_greets(l),
{
    let s = intake::greetings();
    assert(s[0] == "hi"@);
    assert(s[1] == "hello"@);
    assert(s[2] == "hey"@);
    assert(s[3] == "hmm"@);
    assert(s[4] == "help"@);
    assert(s[5] == "test"@);
    assert(s[6] == "ok"@);
    assert(s[7] == "yes"@);
    assert(s[8] == "no"@);
    assert(s.len() == 9);
}

proof fn lemma_briefing(l: Seq<char>)
    ensures
        intake::any_within(l, intake::phrases_of(Rule::Briefing)) <==> asks_briefing(l),
{
    let s = intake::phrases_of(Rule::Briefing);
    assert(s[0] == "what do i need to know"@);
    assert(s[1] == "start my day"@);
    assert(s[2] == "good morning"@);
    assert(s[3] == "morning briefing"@);
    assert(s[4] == "my briefing"@);
    assert(s[5] == "brief me"@);
    assert(s.len() == 6);
}

proof fn lemma_prepare(l: Seq<char>)
    ensures
        intake::any_within(l, intake::phrases_of(Rule::Prepare)) <==> asks_prepare(l),
{
    let s = intake::phrases_of(Rule::Prepare);
    assert(s[0] == "prepare me for"@);
    assert(s[1] == "prep me for"@);
    assert(s[2] == "my afternoon"@);
    assert(s[3] == "afternoon meeting"@);
    assert(s[4] == "next meeting"@);
    assert(s.len() == 5);
}

proof fn lemma_overwhelmed(l: Seq<char>)
    ensures
        intake::any_within(l, intake::phrases_of(Rule::Overwhelmed)) <==> asks_overwhelmed(l),
{
    let s = intake::phrases_of(Rule::Overwhelmed);
    assert(s[0] == "overwhelmed"@);
    assert(s[1] == "reorganize my day"@);
    assert(s[2] == "reorganise my day"@);
    assert(s[3] == "reorganize today"@);
    assert(s[4] == "lighter day"@);
    assert(s[5] == "too much today"@);
    assert(s[6] == "help me reorganize"@);
    assert(s.len() == 7);
}

proof fn lemma_work_status(l: Seq<char>)
    ensures
        intake::any_within(l, intake::phrases_of(Rule::WorkStatus)) <==> asks_work_status(l),
{
    let s = intake::phrases_of(Rule::WorkStatus);
    assert(s[0] == "happening with work"@);
    assert(s[1] == "how is work"@);
    assert(s[2] == "how's work"@);
    assert(s[3] == "work status"@);
    assert(s[4] == "what's up at work"@);
    assert(s[5] == "whats up at work"@);
    assert(s[6] == "at work today"@);
    assert(s.len() == 7);
}

proof fn lemma_family(l: Seq<char>)
    ensures
        intake::any_within(l, intake::phrases_of(Rule::Family)) <==> asks_family(l),
{
    let s = intake::phrases_of(Rule::Family);
    assert(s[0] == "family commitment"@);
    assert(s[1] == "family event"@);
    assert(s[2] == "family plans"@);
    assert(s[3] == "remind me about family"@);
    assert(s[4] == "what's happening at home"@);
    assert(s[5] == "whats happening at home"@);
    assert(s[6] == "home commitments"@);
    assert(s.len() == 7);
}

proof fn lemma_personal_tasks(l: Seq<char>)
    ensures
        intake::any_within(l, intake::phrases_of(Rule::PersonalTasks)) <==> asks_personal_tasks(l),
{
    let s = intake::phrases_of(Rule::PersonalTasks);
    assert(s[0] == "my personal tasks"@);
    assert(s[1] == "my errands"@);
    assert(s[2] == "personal to-do"@);
    assert(s[3] == "personal todo"@);
    assert(s[4] == "what do i need to do at home"@);
    assert(s[5] == "household tasks"@);
    assert(s.len() == 6);
}

proof fn lemma_reading(l: Seq<char>)
    ensures
        intake::any_within(l, intake::phrases_of(Rule::Reading)) <==> asks_reading(l),
{
    let s = intake::phrases_of(Rule::Reading);
    assert(s[0] == "been reading"@);
    assert(s[1] == "what have i read"@);
    assert(s[2] == "my reading"@);
    assert(s[3] == "what am i learning"@);
    assert(s[4] == "reading lately"@);
    assert(s.len() == 5);
}

proof fn lemma_travel(l: Seq<char>)
    ensures
        intake::any_within(l, intake::phrases_of(Rule::Travel)) <==> asks_travel(l),
{
    let s = intake::phrases_of(Rule::Travel);
    assert(s[0] == "trip"@);
    assert(s[1] == "travel"@);
    assert(s[2] == "flight"@);
    assert(s[3] == "hotel"@);
    assert(s[4] == "itinerary"@);
    assert(s[5] == "vacation"@);
    assert(s[6] == "holiday"@);
    assert(s[7] == "lisbon"@);
    assert(s.len() == 8);
}

proof fn lemma_money(l: Seq<char>)
    ensures
        intake::any_within(l, intake::phrases_of(Rule::Money)) <==> asks_money(l),
{
    let s = intake::phrases_of(Rule::Money);
    assert(s[0] == "spending"@);
    assert(s[1] == "my budget"@);
    assert(s[2] == "my money"@);
    assert(s[3] == "how much did i spend"@);
    assert(s[4] == "subscriptions"@);
    assert(s.len() == 5);
}

proof fn lemma_health(l: Seq<char>)
    ensures
        intake::any_within(l, intake::phrases_of(Rule::Health)) <==> asks_health(l),
{
    let s = intake::phrases_of(Rule::Health);
    assert(s[0] == "my sleep"@);
    assert(s[1] == "my health"@);
    assert(s[2] == "exercise"@);
    assert(s[3] == "workout"@);
    assert(s[4] == "wellness"@);
    assert(s.len() == 5);
}

/// An utterance is an action exactly where it asks for something to be done.
pub proof fn law_what_makes_an_action(l: Seq<char>)
    ensures
        intake::kind_of(l) == Kind::Action <==> asks_for_action(l),
        intake::kind_of(l) == Kind::Question <==> !asks_for_action(l),
{
    lemma_action(l);
}

/// An utterance is urgent where it presses, whatever else it says; of low urgency where it leaves
/// time and does not press; and of normal urgency otherwise.
pub proof fn law_what_makes_it_urgent(l: Seq<char>)
    ensures
        intake::urgency_of(l) == Urgency::High <==> sounds_urgent(l),
        intake::urgency_of(l) == Urgency::Low <==> !sounds_urgent(l) && sounds_relaxed(l),
        intake::urgency_of(l) == Urgency::Normal <==> !sounds_urgent(l) && !sounds_relaxed(l),
{
    lemma_urgent(l);
    lemma_relaxed(l);
}

proof fn lemma_noise(l: Seq<char>)
    ensures
        intake::noise(l) <==> says_too_little(l),
{
    lemma_greets(l);
    assert(forall|c: char| chars::Class::Alphabetic.has(c) == chars::alphabetic(c));
}

/// An utterance that says too little is answered with the question which flow is meant, and goes to
/// no agent, whatever the router said.
pub proof fn law_too_little_is_asked_back(text: Seq<char>, routed: Option<Routed>)
    requires
        says_too_little(chars::lowercase(scan::trimmed(text))),
    ensures
        intake::classified(text, routed).clarify == Some(
            "I'm not sure which flow you want. Try <b>Start my day</b>, <b>Build me a pitch deck</b>, or <b>Plan a trip to Lisbon</b>."@,
        ),
        intake::classified(text, routed).targets.len() == 0,
        intake::classified(text, routed).kind == Kind::Question,
        intake::classified(text, routed).urgency == Urgency::Normal,
        intake::classified(text, routed).source == "rule"@,
{
    lemma_noise(chars::lowercase(scan::trimmed(text)));
}

/// The urgency of a result is what the lower-case text sounds like.
pub open spec fn urgency_fits(v: IntakeView, l: Seq<char>) -> bool {
    &&& v.urgency == Urgency::High <==> sounds_urgent(l)
    &&& v.urgency == Urgency::Low <==> !sounds_urgent(l) && sounds_relaxed(l)
}

/// A briefing is a question to the briefing agent, about both worlds.
pub proof fn law_a_briefing(text: Seq<char>, routed: Option<Routed>)
    requires
        ({
            let l = chars::lowercase(scan::trimmed(text));
            &&& !says_too_little(l)
            &&& asks_briefing(l)
        }),
    ensures
        ({
            let v = intake::classified(text, routed);
            &&& v.domains == seq![Domain::Work, Domain::Home]
            &&& v.targets.len() == 1
            &&& v.targets[0].world == Domain::Shared
            &&& v.targets[0].agent == "briefing"@
            &&& v.targets[0].task == "today across work and home"@
            &&& v.targets[0].scenario == "morning"@
            &&& v.kind == Kind::Question
            &&& urgency_fits(v, chars::lowercase(text))
            &&& v.clarify is None
            &&& v.source == "rule"@
        }),
{
    let l = chars::lowercase(scan::trimmed(text));
    lemma_noise(l);
    lemma_briefing(l);
    law_what_makes_it_urgent(chars::lowercase(text));
}

/// To be prepared is a question of work, to the productivity and the team agents.
pub proof fn law_preparing(text: Seq<char>, routed: Option<Routed>)
    requires
        ({
            let l = chars::lowercase(scan::trimmed(text));
            &&& !says_too_little(l)
            &&& asks_prepare(l)
            &&& !asks_briefing(l)
        }),
    ensures
        ({
            let v = intake::classified(text, routed);
            &&& v.domains == seq![Domain::Work]
            &&& v.targets.len() == 2
            &&& v.targets[0].world == Domain::Work
            &&& v.targets[0].agent == "productivity"@
            &&& v.targets[0].task == "calendar and priorities for the rest of the day"@
            &&& v.targets[0].scenario == "morning"@
            &&& v.targets[1].world == Domain::Work
            &&& v.targets[1].agent == "team_comms"@
            &&& v.targets[1].task == "who is waiting and 1:1 prep"@
            &&& v.targets[1].scenario == "people"@
            &&& v.kind == Kind::Question
            &&& urgency_fits(v, chars::lowercase(text))
            &&& v.clarify is None
            &&& v.source == "rule"@
        }),
{
    let l = chars::lowercase(scan::trimmed(text));
    lemma_noise(l);
    lemma_briefing(l);
    lemma_prepare(l);
    law_what_makes_it_urgent(chars::lowercase(text));
}

/// An overwhelming day is an urgent action in both worlds, however it is put.
pub proof fn law_an_overwhelming_day(text: Seq<char>, routed: Option<Routed>)
    requires
        ({
            let l = chars::lowercase(scan::trimmed(text));
            &&& !says_too_little(l)
            &&& asks_overwhelmed(l)
            &&& !asks_briefing(l)
            &&& !asks_prepare(l)
        }),
    ensures
        ({
            let v = intake::classified(text, routed);
            &&& v.domains == seq![Domain::Work, Domain::Home]
            &&& v.targets.len() == 2
            &&& v.targets[0].world == Domain::Work
            &&& v.targets[0].agent == "productivity"@
            &&& v.targets[0].task == "propose what to defer or move today"@
            &&& v.targets[0].scenario == "morning"@
            &&& v.targets[1].world == Domain::Home
            &&& v.targets[1].agent == "personal_productivity"@
            &&& v.targets[1].task == "propose which personal tasks to move"@
            &&& v.targets[1].scenario == "home"@
            &&& v.kind == Kind::Action
            &&& v.urgency == Urgency::High
            &&& v.clarify is None
            &&& v.source == "rule"@
        }),
{
    let l = chars::lowercase(scan::trimmed(text));
    lemma_noise(l);
    lemma_briefing(l);
    lemma_prepare(l);
    lemma_overwhelmed(l);
}

/// The state of work is a question to the productivity and the team agents.
pub proof fn law_the_state_of_work(text: Seq<char>, routed: Option<Routed>)
    requires
        ({
            let l = chars::lowercase(scan::trimmed(text));
            &&& !says_too_little(l)
            &&& asks_work_status(l)
            &&& !asks_briefing(l)
            &&& !asks_prepare(l)
            &&& !asks_overwhelmed(l)
        }),
    ensures
        ({
            let v = intake::classified(text, routed);
            &&& v.domains == seq![Domain::Work]
            &&& v.targets.len() == 2
            &&& v.targets[0].world == Domain::Work
            &&& v.targets[0].agent == "productivity"@
            &&& v.targets[0].task == "calendar, inbox and brief"@
            &&& v.targets[0].scenario == "morning"@
            &&& v.targets[1].world == Domain::Work
            &&& v.targets[1].agent == "team_comms"@
            &&& v.targets[1].task == "team threads and follow-ups"@
            &&& v.targets[1].scenario == "people"@
            &&& v.kind == Kind::Question
            &&& urgency_fits(v, chars::lowercase(text))
            &&& v.clarify is None
            &&& v.source == "rule"@
        }),
{
    let l = chars::lowercase(scan::trimmed(text));
    lemma_noise(l);
    lemma_briefing(l);
    lemma_prepare(l);
    lemma_overwhelmed(l);
    lemma_work_status(l);
    law_what_makes_it_urgent(chars::lowercase(text));
}

/// The family is a question to the family agent.
pub proof fn law_the_family(text: Seq<char>, routed: Option<Routed>)
    requires
        ({
            let l = chars::lowercase(scan::trimmed(text));
            &&& !says_too_little(l)
            &&& asks_family(l)
            &&& !asks_briefing(l)
            &&& !asks_prepare(l)
            &&& !asks_overwhelmed(l)
            &&& !asks_work_status(l)
        }),
    ensures
        ({
            let v = intake::classified(text, routed);
            &&& v.domains == seq![Domain::Home]
            &&& v.targets.len() == 1
            &&& v.targets[0].world == Domain::Home
            &&& v.targets[0].agent == "family"@
            &&& v.targets[0].task == "family commitments and important dates"@
            &&& v.targets[0].scenario == "home"@
            &&& v.kind == Kind::Question
            &&& urgency_fits(v, chars::lowercase(text))
            &&& v.clarify is None
            &&& v.source == "rule"@
        }),
{
    let l = chars::lowercase(scan::trimmed(text));
    lemma_noise(l);
    lemma_briefing(l);
    lemma_prepare(l);
    lemma_overwhelmed(l);
    lemma_work_status(l);
    lemma_family(l);
    law_what_makes_it_urgent(chars::lowercase(text));
}

/// Personal tasks go to the agent for them, as an action where something is to be done.
pub proof fn law_personal_tasks(text: Seq<char>, routed: Option<Routed>)
    requires
        ({
            let l = chars::lowercase(scan::trimmed(text));
            &&& !says_too_little(l)
            &&& asks_personal_tasks(l)
            &&& !asks_briefing(l)
            &&& !asks_prepare(l)
            &&& !asks_overwhelmed(l)
            &&& !asks_work_status(l)
            &&& !asks_family(l)
        }),
    ensures
        ({
            let v = intake::classified(text, routed);
            &&& v.domains == seq![Domain::Home]
            &&& v.targets.len() == 1
            &&& v.targets[0].world == Domain::Home
            &&& v.targets[0].agent == "personal_productivity"@
            &&& v.targets[0].task == "personal tasks and errands"@
            &&& v.targets[0].scenario == "home"@
            &&& v.kind == Kind::Action <==> asks_for_action(chars::lowercase(text))
            &&& urgency_fits(v, chars::lowercase(text))
            &&& v.clarify is None
            &&& v.source == "rule"@
        }),
{
    let l = chars::lowercase(scan::trimmed(text));
    lemma_noise(l);
    lemma_briefing(l);
    lemma_prepare(l);
    lemma_overwhelmed(l);
    lemma_work_status(l);
    lemma_family(l);
    lemma_personal_tasks(l);
    law_what_makes_an_action(chars::lowercase(text));
    law_what_makes_it_urgent(chars::lowercase(text));
}

/// What was read is a question to the reading agent, of neither world alone.
pub proof fn law_reading(text: Seq<char>, routed: Option<Routed>)
    requires
        ({
            let l = chars::lowercase(scan::trimmed(text));
            &&& !says_too_little(l)
            &&& asks_reading(l)
            &&& !asks_briefing(l)
            &&& !asks_prepare(l)
            &&& !asks_overwhelmed(l)
            &&& !asks_work_status(l)
            &&& !asks_family(l)
            &&& !asks_personal_tasks(l)
        }),
    ensures
        ({
            let v = intake::classified(text, routed);
            &&& v.domains == seq![Domain::Shared]
            &&& v.targets.len() == 1
            &&& v.targets[0].world == Domain::Shared
            &&& v.targets[0].agent == "reading_knowledge"@
            &&& v.targets[0].task == "recent reading, topics and trend"@
            &&& v.targets[0].scenario == "proactive"@
            &&& v.kind == Kind::Question
            &&& urgency_fits(v, chars::lowercase(text))
            &&& v.clarify is None
            &&& v.source == "rule"@
        }),
{
    let l = chars::lowercase(scan::trimmed(text));
    lemma_noise(l);
    lemma_briefing(l);
    lemma_prepare(l);
    lemma_overwhelmed(l);
    lemma_work_status(l);
    lemma_family(l);
    lemma_personal_tasks(l);
    lemma_reading(l);
    law_what_makes_it_urgent(chars::lowercase(text));
}

/// A trip goes to the travel agent, as an action where something is to be done.
pub proof fn law_a_trip(text: Seq<char>, routed: Option<Routed>)
    requires
        ({
            let l = chars::lowercase(scan::trimmed(text));
            &&& !says_too_little(l)
            &&& asks_travel(l)
            &&& !asks_briefing(l)
            &&& !asks_prepare(l)
            &&& !asks_overwhelmed(l)
            &&& !asks_work_status(l)
            &&& !asks_family(l)
            &&& !asks_personal_tasks(l)
            &&& !asks_reading(l)
        }),
    ensures
        ({
            let v = intake::classified(text, routed);
            &&& v.domains == seq![Domain::Home]
            &&& v.targets.len() == 1
            &&& v.targets[0].world == Domain::Home
            &&& v.targets[0].agent == "travel"@
            &&& v.targets[0].task == "flights, stay and itinerary"@
            &&& v.targets[0].scenario == "lisbon"@
            &&& v.kind == Kind::Action <==> asks_for_action(chars::lowercase(text))
            &&& urgency_fits(v, chars::lowercase(text))
            &&& v.clarify is None
            &&& v.source == "rule"@
        }),
{
    let l = chars::lowercase(scan::trimmed(text));
    lemma_noise(l);
    lemma_briefing(l);
    lemma_prepare(l);
    lemma_overwhelmed(l);
    lemma_work_status(l);
    lemma_family(l);
    lemma_personal_tasks(l);
    lemma_reading(l);
    lemma_travel(l);
    law_what_makes_an_action(chars::lowercase(text));
    law_what_makes_it_urgent(chars::lowercase(text));
}

/// Money goes to the finance agent, as an action where something is to be done.
pub proof fn law_money(text: Seq<char>, routed: Option<Routed>)
    requires
        ({
            let l = chars::lowercase(scan::trimmed(text));
            &&& !says_too_little(l)
            &&& asks_money(l)
            &&& !asks_briefing(l)
            &&& !asks_prepare(l)
            &&& !asks_overwhelmed(l)
            &&& !asks_work_status(l)
            &&& !asks_family(l)
            &&& !asks_personal_tasks(l)
            &&& !asks_reading(l)
            &&& !asks_travel(l)
        }),
    ensures
        ({
            let v = intake::classified(text, routed);
            &&& v.domains == seq![Domain::Home]
            &&& v.targets.len() == 1
            &&& v.targets[0].world == Domain::Home
            &&& v.targets[0].agent == "finance"@
            &&& v.targets[0].task == "spending and budget"@
            &&& v.targets[0].scenario == "week"@
            &&& v.kind == Kind::Action <==> asks_for_action(chars::lowercase(text))
            &&& urgency_fits(v, chars::lowercase(text))
            &&& v.clarify is None
            &&& v.source == "rule"@
        }),
{
    let l = chars::lowercase(scan::trimmed(text));
    lemma_noise(l);
    lemma_briefing(l);
    lemma_prepare(l);
    lemma_overwhelmed(l);
    lemma_work_status(l);
    lemma_family(l);
    lemma_personal_tasks(l);
    lemma_reading(l);
    lemma_travel(l);
    lemma_money(l);
    law_what_makes_an_action(chars::lowercase(text));
    law_what_makes_it_urgent(chars::lowercase(text));
}

/// Health goes to the wellness agent, as an action where something is to be done.
pub proof fn law_health(text: Seq<char>, routed: Option<Routed>)
    requires
        ({
            let l = chars::lowercase(scan::trimmed(text));
            &&& !says_too_little(l)
            &&& asks_health(l)
            &&& !asks_briefing(l)
            &&& !asks_prepare(l)
            &&& !asks_overwhelmed(l)
            &&& !asks_work_status(l)
            &&& !asks_family(l)
            &&& !asks_personal_tasks(l)
            &&& !asks_reading(l)
            &&& !asks_travel(l)
            &&& !asks_money(l)
        }),
    ensures
        ({
            let v = intake::classified(text, routed);
            &&& v.domains == seq![Domain::Home]
            &&& v.targets.len() == 1
            &&& v.targets[0].world == Domain::Home
            &&& v.targets[0].agent == "health_wellness"@
            &&& v.targets[0].task == "sleep, exercise and habits"@
            &&& v.targets[0].scenario == "week"@
            &&& v.kind == Kind::Action <==> asks_for_action(chars::lowercase(text))
            &&& urgency_fits(v, chars::lowercase(text))
            &&& v.clarify is None
            &&& v.source == "rule"@
        }),
{
    let l = chars::lowercase(scan::trimmed(text));
    lemma_noise(l);
    lemma_briefing(l);
    lemma_prepare(l);
    lemma_overwhelmed(l);
    lemma_work_status(l);
    lemma_family(l);
    lemma_personal_tasks(l);
    lemma_reading(l);
    lemma_travel(l);
    lemma_money(l);
    lemma_health(l);
    law_what_makes_an_action(chars::lowercase(text));
    law_what_makes_it_urgent(chars::lowercase(text));
}

/// One of the ten topics that have an agent of their own.
pub open spec fn has_a_topic(l: Seq<char>) -> bool {
    ||| asks_briefing(l)
    ||| asks_prepare(l)
    ||| asks_overwhelmed(l)
    ||| asks_work_status(l)
    ||| asks_family(l)
    ||| asks_personal_tasks(l)
    ||| asks_reading(l)
    ||| asks_travel(l)
    ||| asks_money(l)
    ||| asks_health(l)
}

/// The rules decide exactly where the utterance says too little or has a topic; otherwise the
/// router does, and without it the keywords.
pub proof fn law_the_router_decides_the_rest(text: Seq<char>, routed: Option<Routed>)
    ensures
        ({
            let l = chars::lowercase(scan::trimmed(text));
            let v = intake::classified(text, routed);
            &&& says_too_little(l) || has_a_topic(l) <==> intake::ruled(text) is Some
            &&& !says_too_little(l) && !has_a_topic(l) ==> match routed {
                Some(Routed::Scenario(key)) => {
                    &&& v.targets.len() == 1
                    &&& v.targets[0].scenario == key@
                    &&& v.source == "llm"@
                    &&& v.clarify is None
                },
                Some(Routed::Clarify(message)) => {
                    &&& v.targets.len() == 0
                    &&& v.clarify == Some(message@)
                    &&& v.kind == Kind::Question
                },
                None => {
                    &&& v.targets.len() == 1
                    &&& v.targets[0].scenario == keywords::keyword_scenario(
                        chars::lowercase(text),
                    )
                    &&& v.source == "keyword"@
                    &&& v.clarify is None
                },
            }
        }),
{
    let l = chars::lowercase(scan::trimmed(text));
    lemma_noise(l);
    lemma_briefing(l);
    lemma_prepare(l);
    lemma_overwhelmed(l);
    lemma_work_status(l);
    lemma_family(l);
    lemma_personal_tasks(l);
    lemma_reading(l);
    lemma_travel(l);
    lemma_money(l);
    lemma_health(l);
}

/// Who is asked through a topic that keeps the kind of the utterance.
pub open spec fn keeps_the_kind(agent: Seq<char>) -> bool {
    ||| agent == "personal_productivity"@
    ||| agent == "travel"@
    ||| agent == "finance"@
    ||| agent == "health_wellness"@
}

/// What is delegated through the router or the keywords, or to the agent for personal tasks, travel,
/// money or health alone, is an action exactly where the utterance asks for something to be done.
pub proof fn law_delegated_actions_are_asked_for(text: Seq<char>, routed: Option<Routed>)
    requires
        intake::classified(text, routed).clarify is None,
        intake::ruled(text) is None || keeps_the_kind(
            intake::classified(text, routed).targets[0].agent,
        ),
    ensures
        intake::classified(text, routed).kind == Kind::Action <==> asks_for_action(
            chars::lowercase(text),
        ),
        urgency_fits(intake::classified(text, routed), chars::lowercase(text)),
{
    law_what_makes_an_action(chars::lowercase(text));
    law_what_makes_it_urgent(chars::lowercase(text));
    reveal_strlit("personal_productivity");
    reveal_strlit("travel");
    reveal_strlit("finance");
    reveal_strlit("health_wellness");
    reveal_strlit("briefing");
    reveal_strlit("productivity");
    reveal_strlit("family");
    reveal_strlit("reading_knowledge");
    assert("travel"@[0] == 't' && "family"@[0] == 'f');
    assert("personal_productivity"@.len() == 21);
    assert("finance"@.len() == 7 && "health_wellness"@.len() == 15);
    assert("briefing"@.len() == 8 && "productivity"@.len() == 12 && "reading_knowledge"@.len()
        == 17);
}

/// A result of a scenario has one target that runs it, in the scenario's world, on the worlds that
/// it touches: its own, or both where it is of neither alone.
pub proof fn law_scenarios_touch_their_worlds(
    scenario: Seq<char>,
    text: Seq<char>,
    source: Seq<char>,
)
    ensures
        ({
            let v = intake::of_scenario(scenario, text, source);
            &&& v.source == source
            &&& v.targets.len() == 1
            &&& v.targets[0].world == Domain::of_scenario(scenario)
            &&& v.targets[0].world == Domain::Shared ==> v.domains == seq![
                Domain::Work,
                Domain::Home,
            ]
            &&& v.targets[0].world != Domain::Shared ==> v.domains == seq![v.targets[0].world]
            &&& v.kind == Kind::Action <==> asks_for_action(chars::lowercase(text))
            &&& urgency_fits(v, chars::lowercase(text))
        }),
{
    law_what_makes_an_action(chars::lowercase(text));
    law_what_makes_it_urgent(chars::lowercase(text));
}

/// Who stands behind each scenario, with which task and in which world; another scenario is the
/// Mother's own, of neither world alone.
pub proof fn law_who_stands_behind_a_scenario(s: Seq<char>)
    ensures
        s == "morning"@ ==> intake::agent_of(s) == "briefing"@ && intake::task_of(s) == "today's calendar, inbox and brief"@
            && Domain::of_scenario(s) == Domain::Shared,
        s == "deck"@ ==> intake::agent_of(s) == "work_automation"@ && intake::task_of(s) == "build the numbers, narrative and slides"@
            && Domain::of_scenario(s) == Domain::Work,
        s == "people"@ ==> intake::agent_of(s) == "team_comms"@ && intake::task_of(s) == "who is waiting on you and what to prep"@
            && Domain::of_scenario(s) == Domain::Work,
        s == "week"@ ==> intake::agent_of(s) == "briefing"@ && intake::task_of(s) == "money, health and focus for the week"@
            && Domain::of_scenario(s) == Domain::Home,
        s == "live"@ ==> intake::agent_of(s) == "entertainment"@ && intake::task_of(s) == "headlines, markets and what is live now"@
            && Domain::of_scenario(s) == Domain::Home,
        s == "lisbon"@ ==> intake::agent_of(s) == "travel"@ && intake::task_of(s) == "flights, stay and itinerary"@
            && Domain::of_scenario(s) == Domain::Home,
        s == "proactive"@ ==> intake::agent_of(s) == "research_knowledge"@ && intake::task_of(s) == "what the background agents found"@
            && Domain::of_scenario(s) == Domain::Shared,
        s == "home"@ ==> intake::agent_of(s) == "home"@ && intake::task_of(s) == "family and personal life"@
            && Domain::of_scenario(s) == Domain::Home,
        s != "morning"@ && s != "deck"@ && s != "people"@ && s != "week"@ && s != "live"@ && s != "lisbon"@ && s != "proactive"@ && s != "home"@ ==> intake::agent_of(s)
            == "mother"@ && intake::task_of(s) == "handle the request"@,
        s != "deck"@ && s != "people"@ && s != "week"@ && s != "live"@ && s != "lisbon"@ && s != "home"@ && s != "work"@ ==> Domain::of_scenario(s) == Domain::Shared,
        Domain::of_scenario("work"@) == Domain::Work,
{
    reveal_strlit("morning");
    assert("morning"@.len() == 7);
    reveal_strlit("deck");
    assert("deck"@.len() == 4);
    reveal_strlit("people");
    assert("people"@.len() == 6);
    reveal_strlit("week");
    assert("week"@.len() == 4);
    reveal_strlit("live");
    assert("live"@.len() == 4);
    reveal_strlit("lisbon");
    assert("lisbon"@.len() == 6);
    reveal_strlit("proactive");
    assert("proactive"@.len() == 9);
    reveal_strlit("home");
    assert("home"@.len() == 4);
    reveal_strlit("work");
    assert("work"@.len() == 4);
    assert("deck"@[0] != "week"@[0]);
    assert("deck"@[0] != "live"@[0]);
    assert("week"@[0] != "live"@[0]);
    assert("people"@[0] != "lisbon"@[0]);
    assert("deck"@[0] != "home"@[0]);
    assert("week"@[0] != "home"@[0]);
    assert("live"@[0] != "home"@[0]);
    assert("deck"@[0] != "work"@[0]);
    assert("week"@[1] != "work"@[1]);
    assert("live"@[0] != "work"@[0]);
    assert("home"@[0] != "work"@[0]);
}

/// The keywords name a scenario: a deck before people, people before the week, the week before what
/// is live, that before a trip, a trip before what was found; a text with none of them, the morning.
pub proof fn law_keywords(l: Seq<char>)
    ensures
        ({
            let s = keywords::keyword_scenario(l);
            let says_deck = scan::within(l, "deck"@) || scan::within(l, "slides"@) || scan::within(l, "pitch"@);
            let says_people = scan::within(l, "team"@) || scan::within(l, "people"@);
            let says_week = scan::within(l, "week"@);
            let says_live = scan::within(l, "live"@);
            let says_lisbon = scan::within(l, "lisbon"@) || scan::within(l, "trip"@);
            let says_proactive = scan::within(l, "found"@);
            &&& says_deck ==> s == "deck"@
            &&& says_people && !says_deck ==> s == "people"@
            &&& says_week && !says_deck && !says_people ==> s == "week"@
            &&& says_live && !says_deck && !says_people && !says_week ==> s == "live"@
            &&& says_lisbon && !says_deck && !says_people && !says_week && !says_live ==> s == "lisbon"@
            &&& says_proactive && !says_deck && !says_people && !says_week && !says_live && !says_lisbon ==> s == "proactive"@
            &&& !says_deck && !says_people && !says_week && !says_live && !says_lisbon && !says_proactive ==> s == "morning"@
        }),
{
}

/// The scenarios of a result come in the order of its targets, each where it is first run.
pub proof fn law_scenarios_come_in_order(s: Seq<Seq<char>>, x: Seq<char>)
    ensures
        s.contains(x) ==> intake::distinct(s.push(x)) == intake::distinct(s),
        !s.contains(x) ==> intake::distinct(s.push(x)) == intake::distinct(s).push(x),
        intake::distinct(Seq::<Seq<char>>::empty()).len() == 0,
{
    assert(s.push(x).drop_last() =~= s);
    intake::law_distinct(s);
}

/// Several agents act exactly where there are two targets or more. The first one is primary, and
/// only a result that asks back has none.
pub proof fn law_several_and_primary(text: Seq<char>, routed: Option<Routed>)
    ensures
        ({
            let v = intake::classified(text, routed);
            &&& v.targets.len() >= 2 ==> intake::several(v)
            &&& v.targets.len() <= 1 ==> !intake::several(v)
            &&& v.clarify is Some ==> intake::primary(v) is None
            &&& v.clarify is None ==> intake::primary(v) == Some(v.targets[0].scenario)
        }),
{
    intake::law_asks_or_delegates(text, routed);
}

} // verus!
