//! Cards and what they resolve to.

use vstd::prelude::*;

use crate::text::pieces;

verus! {

/// A card as a stream spawns it.
pub struct Card {
    pub glyph: &'static str,
    pub title: &'static str,
    pub agent: &'static str,
    pub surface: Option<&'static str>,
    pub attention: bool,
    /// How many cards this one waits for.
    pub waits_for: Option<u32>,
    /// The lines shown until the card resolves.
    pub stream: Vec<&'static str>,
}

#[verifier::ext_equal]
pub struct CardView {
    pub glyph: Seq<char>,
    pub title: Seq<char>,
    pub agent: Seq<char>,
    pub surface: Option<Seq<char>>,
    pub attention: bool,
    pub waits_for: Option<u32>,
    pub stream: Seq<Seq<char>>,
}

impl View for Card {
    type V = CardView;

    open spec fn view(&self) -> CardView {
        CardView {
            glyph: self.glyph@,
            title: self.title@,
            agent: self.agent@,
            surface: match self.surface {
                Some(s) => Some(s@),
                None => None,
            },
            attention: self.attention,
            waits_for: self.waits_for,
            stream: pieces::slices(self.stream@),
        }
    }
}

pub open spec fn cards_of(v: Seq<Card>) -> Seq<CardView> {
    v.map_values(|c: Card| c@)
}

/// What a card shows once its agent is done.
pub struct Resolve {
    pub big: Option<String>,
    pub sub: Option<String>,
    pub lines: Option<Vec<String>>,
    pub actions: Vec<&'static str>,
    pub artifact_url: Option<String>,
}

#[verifier::ext_equal]
pub struct ResolveView {
    pub big: Option<Seq<char>>,
    pub sub: Option<Seq<char>>,
    pub lines: Option<Seq<Seq<char>>>,
    pub actions: Seq<Seq<char>>,
    pub artifact_url: Option<Seq<char>>,
}

impl View for Resolve {
    type V = ResolveView;

    open spec fn view(&self) -> ResolveView {
        ResolveView {
            big: pieces::text_in(self.big),
            sub: pieces::text_in(self.sub),
            lines: match self.lines {
                Some(l) => Some(pieces::strings(l@)),
                None => None,
            },
            actions: pieces::slices(self.actions@),
            artifact_url: pieces::text_in(self.artifact_url),
        }
    }
}

/// A resolve of a headline, a line under it, two actions and maybe a link.
pub open spec fn headline_resolve(
    big: Seq<char>,
    sub: Seq<char>,
    actions: Seq<Seq<char>>,
    url: Option<Seq<char>>,
) -> ResolveView {
    ResolveView { big: Some(big), sub: Some(sub), lines: None, actions, artifact_url: url }
}

} // verus!
