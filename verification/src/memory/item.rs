//! Memory items as the rules read them.

use vstd::prelude::*;

use crate::domain::Domain;
use crate::text::pieces;

verus! {

/// How an item came to be held.
#[derive(Clone, Copy, Debug, PartialEq, Eq, Structural)]
pub enum Kind {
    Known,
    Assumed,
    Recommended,
}

/// How private an item is.
#[derive(Clone, Copy, Debug, PartialEq, Eq, Structural)]
pub enum Sensitivity {
    Normal,
    Health,
    Financial,
}

/// One reason for holding an item.
pub struct Reason {
    pub kind: String,
    pub agent: Option<String>,
    pub note: Option<String>,
}

/// A memory item.
pub struct MemoryItem {
    pub domain: Domain,
    pub kind: Kind,
    pub key: String,
    /// The value, where it is a text.
    pub text: Option<String>,
    /// The value in its serialized form.
    pub rendered: String,
    pub provenance: Vec<Reason>,
    /// The one-line form shown to the user.
    pub note: String,
}

/// What a [`Reason`] says.
#[verifier::ext_equal]
pub struct ReasonView {
    pub kind: Seq<char>,
    pub agent: Option<Seq<char>>,
    pub note: Option<Seq<char>>,
}

/// What a [`MemoryItem`] says.
#[verifier::ext_equal]
pub struct ItemView {
    pub domain: Domain,
    pub kind: Kind,
    pub key: Seq<char>,
    pub text: Option<Seq<char>>,
    pub rendered: Seq<char>,
    pub provenance: Seq<ReasonView>,
    pub note: Seq<char>,
}

impl View for Reason {
    type V = ReasonView;

    open spec fn view(&self) -> ReasonView {
        ReasonView { kind: self.kind@, agent: pieces::text_in(self.agent), note: pieces::text_in(self.note) }
    }
}

impl View for MemoryItem {
    type V = ItemView;

    open spec fn view(&self) -> ItemView {
        ItemView {
            domain: self.domain,
            kind: self.kind,
            key: self.key@,
            text: pieces::text_in(self.text),
            rendered: self.rendered@,
            provenance: self.provenance@.map_values(|x: Reason| x@),
            note: self.note@,
        }
    }
}

pub open spec fn items_of(v: Seq<MemoryItem>) -> Seq<ItemView> {
    v.map_values(|x: MemoryItem| x@)
}

} // verus!
