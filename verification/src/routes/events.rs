//! Content-free UI signals for the ledger. The field client reports counts only: focus changes,
//! notifications shown, cards opened per domain. Nothing about *what* was shown.

use vstd::prelude::*;

use crate::domain::Domain;
use crate::text::chars;
use crate::text::pieces;

verus! {

#[derive(Debug)]
pub struct UiEvent {
    /// ui_focus | ui_blur | ui_notification | ui_card_open | ui_lens | ui_gesture
    pub kind: String,
    pub count: Option<u32>,
    pub domain: Option<Domain>,
    pub duration_ms: Option<i32>,
}

#[verifier::ext_equal]
pub struct UiEventView {
    pub kind: Seq<char>,
    pub count: Option<u32>,
    pub domain: Option<Domain>,
    pub duration_ms: Option<i32>,
}

impl View for UiEvent {
    type V = UiEventView;

    open spec fn view(&self) -> UiEventView {
        UiEventView {
            kind: self.kind@,
            count: self.count,
            domain: self.domain,
            duration_ms: self.duration_ms,
        }
    }
}

pub open spec fn ui_events_of(v: Seq<UiEvent>) -> Seq<UiEventView> {
    v.map_values(|e: UiEvent| e@)
}

#[derive(Debug)]
pub struct UiEventsBody {
    pub events: Vec<UiEvent>,
}

pub open spec fn known_kinds() -> Seq<Seq<char>> {
    seq![
        "ui_focus"@,
        "ui_blur"@,
        "ui_notification"@,
        "ui_card_open"@,
        "ui_lens"@,
        "ui_gesture"@,
    ]
}

/// The kinds of signal that are recorded.
pub fn ui_kinds() -> (r: Vec<&'static str>)
    ensures
        pieces::slices(r@) == known_kinds(),
{
    let r = vec!["ui_focus", "ui_blur", "ui_notification", "ui_card_open", "ui_lens", "ui_gesture"];
    assert(pieces::slices(r@) =~= known_kinds());
    r
}

/// What the ledger keeps of a signal.
#[derive(Debug)]
pub struct UiRecord {
    pub user_id: String,
    pub domain: Domain,
    pub agent_id: &'static str,
    pub kind: String,
    pub count: u32,
    pub duration_ms: Option<i32>,
}

#[verifier::ext_equal]
pub struct UiRecordView {
    pub user_id: Seq<char>,
    pub domain: Domain,
    pub agent_id: Seq<char>,
    pub kind: Seq<char>,
    pub count: u32,
    pub duration_ms: Option<i32>,
}

impl View for UiRecord {
    type V = UiRecordView;

    open spec fn view(&self) -> UiRecordView {
        UiRecordView {
            user_id: self.user_id@,
            domain: self.domain,
            agent_id: self.agent_id@,
            kind: self.kind@,
            count: self.count,
            duration_ms: self.duration_ms,
        }
    }
}

pub open spec fn records_of(v: Seq<UiRecord>) -> Seq<UiRecordView> {
    v.map_values(|r: UiRecord| r@)
}

/// Why signals are refused.
#[derive(Clone, Copy, Debug, PartialEq, Eq, Structural)]
pub enum Refusal {
    NoSession,
    TooMany,
}

impl Refusal {
    pub open spec fn words(self) -> Seq<char> {
        match self {
            Refusal::NoSession => "session not found"@,
            Refusal::TooMany => "too many events"@,
        }
    }

    pub open spec fn code(self) -> u16 {
        match self {
            Refusal::NoSession => 404,
            Refusal::TooMany => 400,
        }
    }

    /// The status that goes with the refusal.
    pub fn status(&self) -> (r: u16)
        ensures
            r == self.code(),
    {
        match self {
            Refusal::NoSession => 404,
            Refusal::TooMany => 400,
        }
    }

    /// What the client is told.
    pub fn message(&self) -> (r: &'static str)
        ensures
            r@ == self.words(),
    {
        match self {
            Refusal::NoSession => "session not found",
            Refusal::TooMany => "too many events",
        }
    }
}

/// What is kept of a signal of a known kind.
pub open spec fn record_of(user: Seq<char>, e: UiEventView) -> UiRecordView {
    UiRecordView {
        user_id: user,
        domain: match e.domain {
            Some(d) => d,
            None => Domain::Shared,
        },
        agent_id: "ui"@,
        kind: e.kind,
        count: match e.count {
            Some(n) => n,
            None => 1,
        },
        duration_ms: e.duration_ms,
    }
}

/// What is kept of the signals: those of known kinds, in order.
pub open spec fn kept(user: Seq<char>, es: Seq<UiEventView>) -> Seq<UiRecordView>
    decreases es.len(),
{
    if es.len() == 0 {
        Seq::empty()
    } else {
        let before = kept(user, es.drop_last());
        if known_kinds().contains(es.last().kind) {
            before.push(record_of(user, es.last()))
        } else {
            before
        }
    }
}

fn is_known(kind: &str) -> (r: bool)
    ensures
        r == known_kinds().contains(kind@),
{
    let kinds = ui_kinds();
    let ghost ks = known_kinds();
    let mut i: usize = 0;
    while i < kinds.len()
        invariant
            i <= kinds.len(),
            ks == pieces::slices(kinds@),
            ks == known_kinds(),
            forall|j: int| 0 <= j < i ==> ks[j] != kind@,
        decreases kinds.len() - i,
    {
        assert(ks[i as int] == kinds@[i as int]@);
        if chars::same(kinds[i], kind) {
            return true;
        }
        i += 1;
    }
    false
}

pub open spec fn user_in(user: Option<&str>) -> Option<Seq<char>> {
    match user {
        Some(u) => Some(u@),
        None => None,
    }
}

/// What is kept of the signals of a session's user, or why they are refused.
pub open spec fn record_is(
    user: Option<Seq<char>>,
    es: Seq<UiEventView>,
    r: Result<Vec<UiRecord>, Refusal>,
) -> bool {
    match r {
        Ok(v) => user is Some && es.len() <= 200 && records_of(v@) == kept(user->0, es),
        Err(Refusal::NoSession) => user is None,
        Err(Refusal::TooMany) => user is Some && es.len() > 200,
    }
}

/// Take the signals of a session's client: at most 200 at a time, for a session that there is.
/// `user` is the session's user.
pub fn record(user: Option<&str>, body: &UiEventsBody) -> (r: Result<Vec<UiRecord>, Refusal>)
    ensures
        record_is(user_in(user), ui_events_of(body.events@), r),
{
    let user = match user {
        Some(u) => u,
        None => return Err(Refusal::NoSession),
    };
    if body.events.len() > 200 {
        return Err(Refusal::TooMany);
    }
    let ghost all = ui_events_of(body.events@);
    let mut out: Vec<UiRecord> = Vec::new();
    let mut i: usize = 0;
    assert(all.take(0) =~= Seq::empty());
    assert(records_of(out@) =~= kept(user@, all.take(0)));
    while i < body.events.len()
        invariant
            i <= body.events@.len(),
            all == ui_events_of(body.events@),
            records_of(out@) == kept(user@, all.take(i as int)),
        decreases body.events@.len() - i,
    {
        assert(all.take(i + 1).drop_last() =~= all.take(i as int));
        assert(all.take(i + 1).last() == body.events@[i as int]@);
        let e = &body.events[i];
        if is_known(e.kind.as_str()) {
            let x = UiRecord {
                user_id: user.to_string(),
                domain: match e.domain {
                    Some(d) => d,
                    None => Domain::Shared,
                },
                agent_id: "ui",
                kind: e.kind.clone(),
                count: match e.count {
                    Some(n) => n,
                    None => 1,
                },
                duration_ms: e.duration_ms,
            };
            let ghost o = out@;
            out.push(x);
            assert(records_of(out@) =~= records_of(o).push(x@));
        }
        i += 1;
    }
    assert(all.take(body.events@.len() as int) =~= all);
    Ok(out)
}

/// Only known kinds of signal reach the ledger.
pub proof fn law_only_known_kinds_are_kept(user: Seq<char>, es: Seq<UiEventView>, i: int)
    requires
        0 <= i < kept(user, es).len(),
    ensures
        known_kinds().contains(kept(user, es)[i].kind),
        kept(user, es)[i].user_id == user,
        kept(user, es)[i].agent_id == "ui"@,
    decreases es.len(),
{
    let before = kept(user, es.drop_last());
    if i < before.len() {
        assert(kept(user, es)[i] == before[i]);
        law_only_known_kinds_are_kept(user, es.drop_last(), i);
    }
}

/// A signal is kept exactly where it is one of the six that the client may send.
pub open spec fn may_send(kind: Seq<char>) -> bool {
    ||| kind == "ui_focus"@
    ||| kind == "ui_blur"@
    ||| kind == "ui_notification"@
    ||| kind == "ui_card_open"@
    ||| kind == "ui_lens"@
    ||| kind == "ui_gesture"@
}

proof fn lemma_known(kind: Seq<char>)
    ensures
        known_kinds().contains(kind) <==> may_send(kind),
{
    let s = known_kinds();
    assert(s[0] == "ui_focus"@ && s[1] == "ui_blur"@ && s[2] == "ui_notification"@);
    assert(s[3] == "ui_card_open"@ && s[4] == "ui_lens"@ && s[5] == "ui_gesture"@);
    assert(s.len() == 6);
}

/// The signals of known kinds are kept in order, each with the user, its kind and its duration, as
/// one where it counts nothing, and of both worlds where it names none; the others are dropped.
pub proof fn law_what_is_kept_of_a_signal(
    user: Seq<char>,
    es: Seq<UiEventView>,
    e: UiEventView,
)
    ensures
        may_send(e.kind) ==> kept(user, es.push(e)) == kept(user, es).push(
            UiRecordView {
                user_id: user,
                domain: if e.domain is Some {
                    e.domain->0
                } else {
                    Domain::Shared
                },
                agent_id: "ui"@,
                kind: e.kind,
                count: if e.count is Some {
                    e.count->0
                } else {
                    1
                },
                duration_ms: e.duration_ms,
            },
        ),
        !may_send(e.kind) ==> kept(user, es.push(e)) == kept(user, es),
        kept(user, Seq::<UiEventView>::empty()).len() == 0,
{
    lemma_known(e.kind);
    assert(es.push(e).drop_last() =~= es);
}

/// Signals are refused exactly where there is no session, which is not found, or where there are
/// more than 200, which is a bad request.
pub proof fn law_when_signals_are_refused(
    user: Option<Seq<char>>,
    es: Seq<UiEventView>,
    r: Result<Vec<UiRecord>, Refusal>,
)
    requires
        record_is(user, es, r),
    ensures
        r is Err <==> user is None || es.len() > 200,
        r matches Err(e) ==> (user is None ==> e.code() == 404 && e.words()
            == "session not found"@) && (user is Some ==> e.code() == 400 && e.words()
            == "too many events"@),
        r matches Ok(v) ==> v@.len() <= es.len(),
{
    lemma_kept_len(user->0, es);
    if r is Ok {
        assert(records_of(r->Ok_0@).len() == r->Ok_0@.len());
    }
}

proof fn lemma_kept_len(user: Seq<char>, es: Seq<UiEventView>)
    ensures
        kept(user, es).len() <= es.len(),
    decreases es.len(),
{
    if es.len() > 0 {
        lemma_kept_len(user, es.drop_last());
    }
}

} // verus!
