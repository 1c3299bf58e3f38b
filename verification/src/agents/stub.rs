//! Agents whose source does not exist yet: each says what it waits for.

use vstd::prelude::*;

verus! {

/// An agent that only says what it needs.
pub struct LabeledStub {
    pub name: &'static str,
    pub label: &'static str,
    pub note: &'static str,
}

/// Career: goals and learning plans can already be stated and read from memory.
pub fn career() -> (r: LabeledStub)
    ensures
        r.name@ == "career_agent"@,
        r.label@ == "STUB — BK-101"@,
        r.note@
            == "Career goals, skills and opportunities need a career/network source (LinkedIn MCP). Goals stated with \"remember …\" are readable now."@,
{
    LabeledStub {
        name: "career_agent",
        label: "STUB — BK-101",
        note: "Career goals, skills and opportunities need a career/network source (LinkedIn MCP). Goals stated with \"remember …\" are readable now.",
    }
}

/// Professional social media.
pub fn professional_social() -> (r: LabeledStub)
    ensures
        r.name@ == "professional_social_agent"@,
        r.label@ == "STUB — BK-101"@,
        r.note@
            == "Mentions, posts and networking opportunities need a LinkedIn MCP. Import a LinkedIn export to enable Observe mode."@,
{
    LabeledStub {
        name: "professional_social_agent",
        label: "STUB — BK-101",
        note: "Mentions, posts and networking opportunities need a LinkedIn MCP. Import a LinkedIn export to enable Observe mode.",
    }
}

/// Personal social media.
pub fn personal_social() -> (r: LabeledStub)
    ensures
        r.name@ == "personal_social_agent"@,
        r.label@ == "STUB — BK-102"@,
        r.note@
            == "Instagram, Facebook, TikTok and X need social MCPs. Import an export to enable Observe mode."@,
{
    LabeledStub {
        name: "personal_social_agent",
        label: "STUB — BK-102",
        note: "Instagram, Facebook, TikTok and X need social MCPs. Import an export to enable Observe mode.",
    }
}

} // verus!
