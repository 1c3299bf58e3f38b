//! The keyword fallback: which scenario an utterance names when neither a rule nor the router
//! decides.

use vstd::prelude::*;

use crate::text::chars;
use crate::text::scan;

verus! {

/// The scenario that a lower-case text names.
pub open spec fn keyword_scenario(l: Seq<char>) -> Seq<char> {
    if scan::within(l, "deck"@) || scan::within(l, "slides"@) || scan::within(l, "pitch"@) {
        "deck"@
    } else if scan::within(l, "team"@) || scan::within(l, "people"@) {
        "people"@
    } else if scan::within(l, "week"@) {
        "week"@
    } else if scan::within(l, "live"@) {
        "live"@
    } else if scan::within(l, "lisbon"@) || scan::within(l, "trip"@) {
        "lisbon"@
    } else if scan::within(l, "found"@) {
        "proactive"@
    } else {
        "morning"@
    }
}

/// The scenario that the lower-case text `l` names.
pub fn pick_scenario_lower(l: &Vec<char>) -> (r: &'static str)
    ensures
        r@ == keyword_scenario(l@),
{
    if scan::contains(l, "deck") || scan::contains(l, "slides") || scan::contains(l, "pitch") {
        "deck"
    } else if scan::contains(l, "team") || scan::contains(l, "people") {
        "people"
    } else if scan::contains(l, "week") {
        "week"
    } else if scan::contains(l, "live") {
        "live"
    } else if scan::contains(l, "lisbon") || scan::contains(l, "trip") {
        "lisbon"
    } else if scan::contains(l, "found") {
        "proactive"
    } else {
        "morning"
    }
}

/// The scenario that `text` names, whatever its case.
pub fn pick_scenario(text: &str) -> (r: &'static str)
    ensures
        r@ == keyword_scenario(chars::lowercase(text@)),
{
    pick_scenario_lower(&chars::lowered(text))
}

} // verus!
