//! Consents: one record per grant, with its user, category, world and purpose, when it was granted
//! and when it was revoked. A revoked grant stays in the history.

pub mod laws;

use vstd::prelude::*;

use crate::clock;
use crate::clock::Timestamp;
use crate::domain::Domain;
use crate::ranking;
use crate::ranking::Ranked;
use crate::text::chars;
use crate::text::pieces;
use crate::text::scan;

verus! {

/// Consent categories the system asks for. A consent is per category and world.
pub fn categories() -> (r: Vec<&'static str>)
    ensures
        pieces::slices(r@) == seq![
            "calendar"@,
            "email"@,
            "health"@,
            "finance"@,
            "social"@,
            "location"@,
            "reading"@,
            "routines"@,
            "camera"@,
        ],
{
    let r = vec![
        "calendar", "email", "health", "finance", "social", "location", "reading", "routines",
        "camera",
    ];
    assert(pieces::slices(r@) =~= seq![
        "calendar"@,
        "email"@,
        "health"@,
        "finance"@,
        "social"@,
        "location"@,
        "reading"@,
        "routines"@,
        "camera"@,
    ]);
    r
}

#[derive(Debug)]
pub struct Consent {
    pub id: u128,
    pub user_id: String,
    pub category: String,
    pub world: Domain,
    /// Plain-language purpose shown in the trust center ("read your calendar to plan the day").
    pub purpose: String,
    pub granted_at: Timestamp,
    pub revoked_at: Option<Timestamp>,
}

#[verifier::ext_equal]
pub struct ConsentView {
    pub id: u128,
    pub user_id: Seq<char>,
    pub category: Seq<char>,
    pub world: Domain,
    pub purpose: Seq<char>,
    pub granted_at: Timestamp,
    pub revoked_at: Option<Timestamp>,
}

impl View for Consent {
    type V = ConsentView;

    open spec fn view(&self) -> ConsentView {
        ConsentView {
            id: self.id,
            user_id: self.user_id@,
            category: self.category@,
            world: self.world,
            purpose: self.purpose@,
            granted_at: self.granted_at,
            revoked_at: self.revoked_at,
        }
    }
}

pub open spec fn consents_of(v: Seq<Consent>) -> Seq<ConsentView> {
    v.map_values(|c: Consent| c@)
}

/// The grant stands.
pub open spec fn active(c: ConsentView) -> bool {
    c.revoked_at is None
}

/// The grant answers a check for `world`.
pub open spec fn covers(c: ConsentView, world: Domain) -> bool {
    active(c) && (match world {
        Domain::Shared => true,
        w => c.world == w || c.world == Domain::Shared,
    })
}

impl Consent {
    pub fn is_active(&self) -> (r: bool)
        ensures
            r == active(self@),
    {
        self.revoked_at.is_none()
    }

    /// Whether this grant answers a check for `world`. A `shared` grant covers both worlds; a
    /// world grant covers only that world; a `shared` check is satisfied by any active grant.
    pub fn covers(&self, world: Domain) -> (r: bool)
        ensures
            r == covers(self@, world),
    {
        self.is_active() && match world {
            Domain::Shared => true,
            w => self.world == w || self.world == Domain::Shared,
        }
    }

    /// A copy of the consent.
    pub fn copy(&self) -> (r: Consent)
        ensures
            r@ == self@,
    {
        Consent {
            id: self.id,
            user_id: self.user_id.clone(),
            category: self.category.clone(),
            world: self.world,
            purpose: self.purpose.clone(),
            granted_at: self.granted_at,
            revoked_at: self.revoked_at,
        }
    }
}

// ---- categories ----

pub open spec fn category_char(c: char) -> bool {
    chars::ascii_lower(c) || c == '_'
}

pub open spec fn ascii_lowercase(s: Seq<char>) -> Seq<char> {
    s.map_values(|c: char| chars::ascii_lowered(c))
}

/// The category that a text names: trimmed, in lower case, of one to forty letters and
/// underscores.
pub open spec fn category_of(raw: Seq<char>) -> Option<Seq<char>> {
    let c = ascii_lowercase(scan::trimmed(raw));
    if 0 < c.len() <= 40 && forall|i: int| 0 <= i < c.len() ==> category_char(#[trigger] c[i]) {
        Some(c)
    } else {
        None
    }
}

/// Lower-case letters and underscores, at most 40 chars.
pub fn normalize_category(raw: &str) -> (r: Option<String>)
    ensures
        pieces::text_in(r) == category_of(raw@),
{
    let t = scan::trim(&chars::chars_of(raw));
    let ghost want = ascii_lowercase(t@);
    if t.len() == 0 || t.len() > 40 {
        return None;
    }
    let mut out = String::new();
    let mut i: usize = 0;
    while i < t.len()
        invariant
            i <= t.len(),
            0 < t@.len() <= 40,
            want == ascii_lowercase(t@),
            t@ == scan::trimmed(raw@),
            out@ == want.take(i as int),
            forall|k: int| 0 <= k < i ==> category_char(#[trigger] want[k]),
        decreases t.len() - i,
    {
        let c = chars::to_ascii_lower(t[i]);
        assert(want[i as int] == c);
        if !(('a' <= c && c <= 'z') || c == '_') {
            return None;
        }
        out.push(c);
        assert(want.take(i + 1) =~= want.take(i as int).push(c));
        i += 1;
    }
    assert(want.take(t.len() as int) =~= want);
    Some(out)
}

/// A category that was normalized is its own normal form.
pub proof fn law_normal_categories_stay(raw: Seq<char>)
    ensures
        category_of(raw) matches Some(c) ==> category_of(c) == Some(c),
{
    if let Some(c) = category_of(raw) {
        assert(!chars::white(c[0]));
        assert(scan::drop_start(c, chars::Class::White) == c);
        assert(category_char(c[c.len() - 1]));
        assert(!chars::white(c.last()));
        assert(scan::trimmed(c) == c);
        assert(ascii_lowercase(c) =~= c) by {
            assert forall|i: int| 0 <= i < c.len() implies chars::ascii_lowered(
                #[trigger] c[i],
            ) == c[i] by {
                assert(category_char(c[i]));
            }
        }
    }
}

// ---- one user's consents ----

/// The first active grant of a category for exactly a world.
pub open spec fn standing(l: Seq<ConsentView>, category: Seq<char>, world: Domain) -> Option<
    ConsentView,
>
    decreases l.len(),
{
    if l.len() == 0 {
        None
    } else if l[0].category == category && l[0].world == world && active(l[0]) {
        Some(l[0])
    } else {
        standing(l.skip(1), category, world)
    }
}

/// A revocation of `category` in `world` (every world when `None`) is about this grant.
pub open spec fn revoked_by(c: ConsentView, category: Seq<char>, world: Option<Domain>) -> bool {
    c.category == category && active(c) && (match world {
        Some(w) => c.world == w,
        None => true,
    })
}

pub open spec fn revoke_one(
    c: ConsentView,
    category: Seq<char>,
    world: Option<Domain>,
    at: Timestamp,
) -> ConsentView {
    if revoked_by(c, category, world) {
        ConsentView { revoked_at: Some(at), ..c }
    } else {
        c
    }
}

pub open spec fn after_revoke(
    l: Seq<ConsentView>,
    category: Seq<char>,
    world: Option<Domain>,
    at: Timestamp,
) -> Seq<ConsentView> {
    l.map_values(|c: ConsentView| revoke_one(c, category, world, at))
}

/// The identifiers of the grants that a revocation is about.
pub open spec fn revoked_ids(
    l: Seq<ConsentView>,
    category: Seq<char>,
    world: Option<Domain>,
) -> Seq<u128>
    decreases l.len(),
{
    if l.len() == 0 {
        Seq::empty()
    } else {
        let before = revoked_ids(l.drop_last(), category, world);
        if revoked_by(l.last(), category, world) {
            before.push(l.last().id)
        } else {
            before
        }
    }
}

/// An active grant covers the category for the world.
pub open spec fn has_grant(l: Seq<ConsentView>, category: Seq<char>, world: Domain) -> bool {
    exists|i: int| 0 <= i < l.len() && (#[trigger] l[i]).category == category && covers(l[i], world)
}

/// The category that a text names is granted for the world.
pub open spec fn allows(l: Seq<ConsentView>, raw: Seq<char>, world: Domain) -> bool {
    match category_of(raw) {
        Some(c) => has_grant(l, c, world),
        None => false,
    }
}

/// Newest first; what was granted at the same moment keeps its order.
pub open spec fn newest_first(l: Seq<ConsentView>) -> Seq<ConsentView> {
    ranking::sorted_by(l, |c: ConsentView| -c.granted_at.instant())
}

pub open spec fn only_active(l: Seq<ConsentView>) -> Seq<ConsentView>
    decreases l.len(),
{
    if l.len() == 0 {
        l
    } else if active(l.last()) {
        only_active(l.drop_last()).push(l.last())
    } else {
        only_active(l.drop_last())
    }
}

/// At most 240 characters of the trimmed purpose.
pub open spec fn purpose_of(purpose: Seq<char>) -> Seq<char> {
    pieces::at_most(scan::trimmed(purpose), 240)
}

/// A grant made at a moment.
pub open spec fn granted(
    id: u128,
    user: Seq<char>,
    category: Seq<char>,
    world: Domain,
    purpose: Seq<char>,
    at: Timestamp,
) -> ConsentView {
    ConsentView {
        id,
        user_id: user,
        category,
        world,
        purpose: purpose_of(purpose),
        granted_at: at,
        revoked_at: None,
    }
}

/// A call that may change what a user has granted.
#[verifier::ext_equal]
pub enum Call {
    Grant { category: Seq<char>, world: Domain, purpose: Seq<char>, id: u128, at: Timestamp },
    Revoke { category: Seq<char>, world: Option<Domain>, at: Timestamp },
    Purge,
    Load { rows: Seq<ConsentView> },
}

/// The consent that a grant gives back: the one that stands, or else a new one.
pub open spec fn consent_for(
    l: Seq<ConsentView>,
    user: Seq<char>,
    category: Seq<char>,
    world: Domain,
    purpose: Seq<char>,
    id: u128,
    at: Timestamp,
) -> ConsentView {
    match standing(l, category, world) {
        Some(x) => x,
        None => granted(id, user, category, world, purpose, at),
    }
}

/// The grants of the user after a call of theirs.
pub open spec fn after_call(l: Seq<ConsentView>, user: Seq<char>, call: Call) -> Seq<ConsentView> {
    match call {
        Call::Grant { category, world, purpose, id, at } => match category_of(category) {
            Some(c) => if standing(l, c, world) is Some {
                l
            } else {
                l.push(granted(id, user, c, world, purpose, at))
            },
            None => l,
        },
        Call::Revoke { category, world, at } => match category_of(category) {
            Some(c) => after_revoke(l, c, world, at),
            None => l,
        },
        Call::Purge => Seq::empty(),
        Call::Load { rows } => rows,
    }
}

/// The grants of the user after a series of calls, each with the user who makes it.
pub open spec fn after_calls(
    l: Seq<ConsentView>,
    user: Seq<char>,
    calls: Seq<(Seq<char>, Call)>,
) -> Seq<ConsentView>
    decreases calls.len(),
{
    if calls.len() == 0 {
        l
    } else {
        let before = after_calls(l, user, calls.drop_last());
        if calls.last().0 == user {
            after_call(before, user, calls.last().1)
        } else {
            before
        }
    }
}

/// The call neither revokes the consent nor drops what was granted.
pub open spec fn keeps(call: Call, x: ConsentView) -> bool {
    match call {
        Call::Grant { .. } => true,
        Call::Revoke { category, world, .. } => match category_of(category) {
            Some(c) => !revoked_by(x, c, world),
            None => true,
        },
        Call::Purge => false,
        Call::Load { .. } => false,
    }
}

fn find_standing(list: &Vec<Consent>, category: &str, world: Domain) -> (r: Option<Consent>)
    ensures
        match r {
            Some(c) => standing(consents_of(list@), category@, world) == Some(c@),
            None => standing(consents_of(list@), category@, world) is None,
        },
{
    let ghost all = consents_of(list@);
    let mut i: usize = 0;
    assert(all.skip(0) =~= all);
    while i < list.len()
        invariant
            i <= list.len(),
            all == consents_of(list@),
            standing(all, category@, world) == standing(all.skip(i as int), category@, world),
        decreases list.len() - i,
    {
        assert(all.skip(i as int)[0] == list@[i as int]@);
        assert(all.skip(i as int).skip(1) =~= all.skip(i + 1));
        let c = &list[i];
        if chars::same(c.category.as_str(), category) && c.world == world && c.is_active() {
            return Some(c.copy());
        }
        i += 1;
    }
    None
}

fn revoke_all(list: &mut Vec<Consent>, category: &str, world: Option<Domain>, at: Timestamp) -> (r:
    Vec<u128>)
    ensures
        consents_of(final(list)@) == after_revoke(
            consents_of(old(list)@),
            category@,
            world,
            at,
        ),
        r@ == revoked_ids(consents_of(old(list)@), category@, world),
{
    let ghost all = consents_of(list@);
    let ghost want = after_revoke(all, category@, world, at);
    let mut ids: Vec<u128> = Vec::new();
    let mut i: usize = 0;
    let n = list.len();
    assert(all.take(0) =~= Seq::empty());
    assert(consents_of(list@) =~= want.take(0) + all.skip(0));
    while i < n
        invariant
            i <= n,
            n == list@.len(),
            n == all.len(),
            want == after_revoke(all, category@, world, at),
            consents_of(list@) == want.take(i as int) + all.skip(i as int),
            ids@ == revoked_ids(all.take(i as int), category@, world),
        decreases n - i,
    {
        assert(all.take(i + 1).drop_last() =~= all.take(i as int));
        let ghost before = consents_of(list@);
        assert(before[i as int] == list@[i as int]@);
        assert(before[i as int] == all[i as int]);
        let in_scope = match world {
            Some(w) => list[i].world == w,
            None => true,
        };
        if chars::same(list[i].category.as_str(), category) && list[i].is_active() && in_scope {
            let mut c = list[i].copy();
            c.revoked_at = Some(at);
            ids.push(c.id);
            assert(c@ == want[i as int]);
            list.set(i, c);
            assert(consents_of(list@) =~= before.update(i as int, c@));
        }
        assert(consents_of(list@) =~= want.take(i + 1) + all.skip(i + 1));
        i += 1;
    }
    assert(all.take(n as int) =~= all);
    assert(want.take(n as int) + all.skip(n as int) =~= want);
    ids
}

fn any_covers(list: &Vec<Consent>, category: &str, world: Domain) -> (r: bool)
    ensures
        r == has_grant(consents_of(list@), category@, world),
{
    let ghost all = consents_of(list@);
    let mut i: usize = 0;
    while i < list.len()
        invariant
            i <= list.len(),
            all == consents_of(list@),
            forall|j: int|
                0 <= j < i ==> !((#[trigger] all[j]).category == category@ && covers(
                    all[j],
                    world,
                )),
        decreases list.len() - i,
    {
        assert(all[i as int] == list@[i as int]@);
        if chars::same(list[i].category.as_str(), category) && list[i].covers(world) {
            return true;
        }
        i += 1;
    }
    false
}

fn copy_all(list: &Vec<Consent>) -> (r: Vec<Consent>)
    ensures
        consents_of(r@) == consents_of(list@),
{
    let mut out: Vec<Consent> = Vec::new();
    let mut i: usize = 0;
    while i < list.len()
        invariant
            i <= list.len(),
            consents_of(out@) == consents_of(list@).take(i as int),
        decreases list.len() - i,
    {
        let c = list[i].copy();
        let ghost o = out@;
        out.push(c);
        assert(consents_of(out@) =~= consents_of(o).push(c@));
        assert(consents_of(list@).take(i + 1) =~= consents_of(list@).take(i as int).push(c@));
        i += 1;
    }
    assert(consents_of(list@).take(list.len() as int) =~= consents_of(list@));
    out
}

fn sort_newest_first(list: Vec<Consent>) -> (r: Vec<Consent>)
    ensures
        consents_of(r@) == newest_first(consents_of(list@)),
{
    let mut ranks: Vec<i128> = Vec::new();
    let mut i: usize = 0;
    while i < list.len()
        invariant
            i <= list.len(),
            ranks@.len() == i,
            forall|k: int| 0 <= k < i ==> #[trigger] ranks@[k] == -list@[k].granted_at.instant(),
        decreases list.len() - i,
    {
        let t = list[i].granted_at.order_key();
        assert(t > i128::MIN);
        ranks.push(-t);
        i += 1;
    }
    let ghost s = ranking::zipped(list@, ranks@);
    let ghost all = list@;
    let r = ranking::sort_items(list, &ranks);
    proof {
        let f = |x: Ranked<Consent>| x.item@;
        let kept = |c: ConsentView| -c.granted_at.instant();
        ranking::lemma_sorted_map(s, ranking::rank_of(), f, kept);
        assert(s.map_values(f) =~= consents_of(all));
        assert(consents_of(r@) =~= ranking::sorted_by(s, ranking::rank_of()).map_values(f));
    }
    r
}

fn keep_active(list: Vec<Consent>) -> (r: Vec<Consent>)
    ensures
        consents_of(r@) == only_active(consents_of(list@)),
{
    let ghost all = consents_of(list@);
    let mut out: Vec<Consent> = Vec::new();
    let mut i: usize = 0;
    assert(all.take(0) =~= Seq::empty());
    assert(consents_of(out@) =~= only_active(all.take(0)));
    while i < list.len()
        invariant
            i <= list.len(),
            all == consents_of(list@),
            consents_of(out@) == only_active(all.take(i as int)),
        decreases list.len() - i,
    {
        assert(all.take(i + 1).drop_last() =~= all.take(i as int));
        assert(all.take(i + 1).last() == list@[i as int]@);
        if list[i].is_active() {
            let c = list[i].copy();
            let ghost o = out@;
            out.push(c);
            assert(consents_of(out@) =~= consents_of(o).push(c@));
        }
        i += 1;
    }
    assert(all.take(list.len() as int) =~= all);
    out
}

fn cut_purpose(purpose: &str) -> (r: String)
    ensures
        r@ == purpose_of(purpose@),
{
    let t = scan::trim(&chars::chars_of(purpose));
    if t.len() > 240 {
        assert(t@.take(240) =~= t@.subrange(0, 240));
        chars::text_of(&scan::sub_text(&t, 0, 240))
    } else {
        chars::text_of(&t)
    }
}

// ---- the store ----

struct UserConsents {
    user_id: String,
    list: Vec<Consent>,
}

/// The consents of every user.
pub struct ConsentStore {
    users: Vec<UserConsents>,
    loaded: Vec<String>,
}

/// What a grant came to: the consent, and whether it was made now.
#[derive(Debug)]
pub struct Grant {
    pub consent: Consent,
    pub inserted: bool,
}

impl ConsentStore {
    /// No user has two lists.
    pub closed spec fn valid(self) -> bool {
        forall|i: int, j: int|
            0 <= i < j < self.users@.len() ==> (#[trigger] self.users@[i]).user_id@ != (
            #[trigger] self.users@[j]).user_id@
    }

    /// The consents of a user, in the order they were granted.
    pub closed spec fn consents(self, user: Seq<char>) -> Seq<ConsentView> {
        if exists|i: int| 0 <= i < self.users@.len() && (#[trigger] self.users@[i]).user_id@ == user {
            let i = choose|i: int|
                0 <= i < self.users@.len() && (#[trigger] self.users@[i]).user_id@ == user;
            consents_of(self.users@[i].list@)
        } else {
            Seq::empty()
        }
    }

    /// The consents of a user were read from where they are kept.
    pub closed spec fn has_loaded(self, user: Seq<char>) -> bool {
        pieces::strings(self.loaded@).contains(user)
    }

    proof fn lemma_consents(self, i: int)
        requires
            self.valid(),
            0 <= i < self.users@.len(),
        ensures
            self.consents(self.users@[i].user_id@) == consents_of(self.users@[i].list@),
    {
        let user = self.users@[i].user_id@;
        let j = choose|j: int|
            0 <= j < self.users@.len() && (#[trigger] self.users@[j]).user_id@ == user;
        if j < i {
            assert(self.users@[j].user_id@ != self.users@[i].user_id@);
        } else if i < j {
            assert(self.users@[i].user_id@ != self.users@[j].user_id@);
        }
    }

    pub fn new() -> (r: Self)
        ensures
            r.valid(),
            forall|u: Seq<char>| #[trigger] r.consents(u) == Seq::<ConsentView>::empty(),
            forall|u: Seq<char>| !#[trigger] r.has_loaded(u),
    {
        ConsentStore { users: Vec::new(), loaded: Vec::new() }
    }

    fn position(&self, user: &str) -> (r: Option<usize>)
        ensures
            match r {
                Some(i) => i < self.users@.len() && self.users@[i as int].user_id@ == user@,
                None => forall|i: int|
                    0 <= i < self.users@.len() ==> (#[trigger] self.users@[i]).user_id@ != user@,
            },
    {
        let mut i: usize = 0;
        while i < self.users.len()
            invariant
                i <= self.users.len(),
                forall|k: int|
                    0 <= k < i ==> (#[trigger] self.users@[k]).user_id@ != user@,
            decreases self.users.len() - i,
        {
            if chars::same(self.users[i].user_id.as_str(), user) {
                return Some(i);
            }
            i += 1;
        }
        None
    }

    /// Put a list in the place of a user's consents.
    fn put(&mut self, user: &str, list: Vec<Consent>)
        requires
            old(self).valid(),
        ensures
            final(self).valid(),
            final(self).consents(user@) == consents_of(list@),
            forall|u: Seq<char>|
                u != user@ ==> #[trigger] final(self).consents(u) == old(self).consents(u),
            forall|u: Seq<char>| #[trigger] final(self).has_loaded(u) == old(self).has_loaded(u),
    {
        let ghost before = *self;
        match self.position(user) {
            Some(i) => {
                let x = UserConsents { user_id: user.to_string(), list };
                self.users.set(i, x);
                assert(self.valid()) by {
                    assert forall|a: int, b: int| 0 <= a < b < self.users@.len() implies (
                    #[trigger] self.users@[a]).user_id@ != (#[trigger] self.users@[b]).user_id@ by {
                        assert(before.users@[a].user_id@ != before.users@[b].user_id@);
                    }
                }
                proof {
                    self.lemma_consents(i as int);
                    assert forall|u: Seq<char>| u != user@ implies #[trigger] self.consents(u)
                        == before.consents(u) by {
                        lemma_others(before, *self, u, i as int);
                    }
                }
            },
            None => {
                let x = UserConsents { user_id: user.to_string(), list };
                self.users.push(x);
                let ghost n = before.users@.len() as int;
                assert(self.valid()) by {
                    assert forall|a: int, b: int| 0 <= a < b < self.users@.len() implies (
                    #[trigger] self.users@[a]).user_id@ != (#[trigger] self.users@[b]).user_id@ by {
                        assert(self.users@[a] == before.users@[a]);
                        if b < n {
                            assert(self.users@[b] == before.users@[b]);
                        }
                    }
                }
                proof {
                    self.lemma_consents(n);
                    assert forall|u: Seq<char>| u != user@ implies #[trigger] self.consents(u)
                        == before.consents(u) by {
                        lemma_others(before, *self, u, n);
                    }
                }
            },
        }
    }

    /// The list of a user.
    fn get(&self, user: &str) -> (r: Vec<Consent>)
        requires
            self.valid(),
        ensures
            consents_of(r@) == self.consents(user@),
    {
        match self.position(user) {
            Some(i) => {
                proof {
                    self.lemma_consents(i as int);
                }
                copy_all(&self.users[i].list)
            },
            None => {
                let v: Vec<Consent> = Vec::new();
                assert(consents_of(v@) =~= Seq::empty());
                v
            },
        }
    }

    /// Whether the consents of a user were read.
    pub fn is_loaded(&self, user: &str) -> (r: bool)
        ensures
            r == self.has_loaded(user@),
    {
        pieces::has_string(&self.loaded, user)
    }

    /// Take in what is kept of a user.
    pub fn load(&mut self, user: &str, rows: Vec<Consent>)
        requires
            old(self).valid(),
        ensures
            final(self).valid(),
            final(self).has_loaded(user@),
            final(self).consents(user@) == after_call(
                old(self).consents(user@),
                user@,
                Call::Load { rows: consents_of(rows@) },
            ),
            forall|u: Seq<char>|
                u != user@ ==> #[trigger] final(self).consents(u) == old(self).consents(u),
            forall|u: Seq<char>|
                u != user@ ==> #[trigger] final(self).has_loaded(u) == old(self).has_loaded(u),
    {
        self.put(user, rows);
        let ghost mid = *self;
        let u = user.to_string();
        let ghost o = self.loaded@;
        self.loaded.push(u);
        proof {
            let a = pieces::strings(o);
            let b = pieces::strings(self.loaded@);
            assert(b =~= a.push(user@));
            assert(b[a.len() as int] == user@);
            assert forall|x: Seq<char>| x != user@ implies #[trigger] self.has_loaded(x)
                == mid.has_loaded(x) by {
                if a.contains(x) {
                    let k = choose|k: int| 0 <= k < a.len() && a[k] == x;
                    assert(b[k] == x);
                }
                if b.contains(x) {
                    let k = choose|k: int| 0 <= k < b.len() && b[k] == x;
                    assert(a[k] == x);
                }
            }
            assert forall|x: Seq<char>| #[trigger] self.consents(x) == mid.consents(x) by {
                lemma_same_users(mid, *self, x);
            }
        }
    }

    /// Grant `category` for `world`, with this identifier and at this moment where a new grant is
    /// made.
    pub fn grant_with(
        &mut self,
        user: &str,
        category: &str,
        world: Domain,
        purpose: &str,
        id: u128,
        at: Timestamp,
    ) -> (r: Option<Grant>)
        requires
            old(self).valid(),
        ensures
            final(self).valid(),
            forall|u: Seq<char>|
                u != user@ ==> #[trigger] final(self).consents(u) == old(self).consents(u),
            forall|u: Seq<char>| #[trigger] final(self).has_loaded(u) == old(self).has_loaded(u),
            final(self).consents(user@) == after_call(
                old(self).consents(user@),
                user@,
                Call::Grant { category: category@, world, purpose: purpose@, id, at },
            ),
            match category_of(category@) {
                Some(c) => {
                    &&& r is Some
                    &&& r->0.consent@ == consent_for(
                        old(self).consents(user@),
                        user@,
                        c,
                        world,
                        purpose@,
                        id,
                        at,
                    )
                    &&& r->0.inserted == standing(old(self).consents(user@), c, world) is None
                },
                None => r is None,
            },
    {
        let c = match normalize_category(category) {
            Some(c) => c,
            None => return None,
        };
        let mut list = self.get(user);
        match find_standing(&list, c.as_str(), world) {
            Some(existing) => Some(Grant { consent: existing, inserted: false }),
            None => {
                let x = Consent {
                    id,
                    user_id: user.to_string(),
                    category: c,
                    world,
                    purpose: cut_purpose(purpose),
                    granted_at: at,
                    revoked_at: None,
                };
                let made = x.copy();
                let ghost o = list@;
                list.push(x);
                assert(consents_of(list@) =~= consents_of(o).push(x@));
                self.put(user, list);
                Some(Grant { consent: made, inserted: true })
            },
        }
    }

    /// Grant `category` for `world`. Idempotent: an active grant for the same category and world
    /// is returned unchanged. `None` when the category is not a valid identifier.
    pub fn grant(&mut self, user: &str, category: &str, world: Domain, purpose: &str) -> (r: Option<
        Grant,
    >)
        requires
            old(self).valid(),
        ensures
            final(self).valid(),
            forall|u: Seq<char>|
                u != user@ ==> #[trigger] final(self).consents(u) == old(self).consents(u),
            forall|u: Seq<char>| #[trigger] final(self).has_loaded(u) == old(self).has_loaded(u),
            match category_of(category@) {
                Some(c) => {
                    let before = old(self).consents(user@);
                    let id = r->0.consent.id;
                    let at = r->0.consent.granted_at;
                    &&& r is Some
                    &&& r->0.consent@ == consent_for(before, user@, c, world, purpose@, id, at)
                    &&& r->0.inserted == standing(before, c, world) is None
                    &&& r->0.inserted ==> clock::random_id(id)
                    &&& final(self).consents(user@) == after_call(
                        before,
                        user@,
                        Call::Grant { category: category@, world, purpose: purpose@, id, at },
                    )
                },
                None => r is None && final(self).consents(user@) == old(self).consents(user@),
            },
    {
        let id = clock::fresh_id();
        let at = clock::now();
        self.grant_with(user, category, world, purpose, id, at)
    }

    /// Revoke active grants for `category` in `world` (every world when `None`), at this moment.
    /// Returns which.
    pub fn revoke_at(
        &mut self,
        user: &str,
        category: &str,
        world: Option<Domain>,
        at: Timestamp,
    ) -> (r: Vec<u128>)
        requires
            old(self).valid(),
        ensures
            final(self).valid(),
            forall|u: Seq<char>|
                u != user@ ==> #[trigger] final(self).consents(u) == old(self).consents(u),
            forall|u: Seq<char>| #[trigger] final(self).has_loaded(u) == old(self).has_loaded(u),
            final(self).consents(user@) == after_call(
                old(self).consents(user@),
                user@,
                Call::Revoke { category: category@, world, at },
            ),
            match category_of(category@) {
                Some(c) => r@ == revoked_ids(old(self).consents(user@), c, world),
                None => r@.len() == 0,
            },
    {
        let c = match normalize_category(category) {
            Some(c) => c,
            None => return Vec::new(),
        };
        let mut list = self.get(user);
        let ids = revoke_all(&mut list, c.as_str(), world, at);
        self.put(user, list);
        ids
    }

    /// Revoke active grants for `category` in `world` (every world when `None`). Returns which,
    /// and the moment they were revoked at.
    pub fn revoke(&mut self, user: &str, category: &str, world: Option<Domain>) -> (r: (
        Vec<u128>,
        Timestamp,
    ))
        requires
            old(self).valid(),
        ensures
            final(self).valid(),
            forall|u: Seq<char>|
                u != user@ ==> #[trigger] final(self).consents(u) == old(self).consents(u),
            forall|u: Seq<char>| #[trigger] final(self).has_loaded(u) == old(self).has_loaded(u),
            final(self).consents(user@) == after_call(
                old(self).consents(user@),
                user@,
                Call::Revoke { category: category@, world, at: r.1 },
            ),
            match category_of(category@) {
                Some(c) => r.0@ == revoked_ids(old(self).consents(user@), c, world),
                None => r.0@.len() == 0,
            },
    {
        let at = clock::now();
        (self.revoke_at(user, category, world, at), at)
    }

    /// Whether an active grant covers `category` for `world` (see [`Consent::covers`]).
    pub fn has(&self, user: &str, category: &str, world: Domain) -> (r: bool)
        requires
            self.valid(),
        ensures
            r == allows(self.consents(user@), category@, world),
    {
        match normalize_category(category) {
            Some(c) => any_covers(&self.get(user), c.as_str(), world),
            None => false,
        }
    }

    /// Every grant, including revoked ones, newest first — the trust center's history.
    pub fn list(&self, user: &str) -> (r: Vec<Consent>)
        requires
            self.valid(),
        ensures
            consents_of(r@) == newest_first(self.consents(user@)),
    {
        sort_newest_first(self.get(user))
    }

    /// Only active grants.
    pub fn active(&self, user: &str) -> (r: Vec<Consent>)
        requires
            self.valid(),
        ensures
            consents_of(r@) == only_active(newest_first(self.consents(user@))),
    {
        keep_active(self.list(user))
    }

    /// Hard delete everything for the user. Returns how many grants were deleted.
    pub fn purge(&mut self, user: &str) -> (r: usize)
        requires
            old(self).valid(),
        ensures
            final(self).valid(),
            r == old(self).consents(user@).len(),
            final(self).consents(user@) == after_call(
                old(self).consents(user@),
                user@,
                Call::Purge,
            ),
            forall|u: Seq<char>|
                u != user@ ==> #[trigger] final(self).consents(u) == old(self).consents(u),
            forall|u: Seq<char>| #[trigger] final(self).has_loaded(u) == old(self).has_loaded(u),
    {
        let list = self.get(user);
        assert(consents_of(list@).len() == list@.len());
        let n = list.len();
        let none: Vec<Consent> = Vec::new();
        assert(consents_of(none@) =~= Seq::empty());
        self.put(user, none);
        n
    }
}

/// Where two stores differ in the entry of one user only, the others have the same consents.
proof fn lemma_others(a: ConsentStore, b: ConsentStore, u: Seq<char>, i: int)
    requires
        a.valid(),
        b.valid(),
        0 <= i < b.users@.len(),
        b.users@[i].user_id@ != u,
        b.users@.len() == a.users@.len() || b.users@.len() == a.users@.len() + 1,
        i < a.users@.len() ==> a.users@[i].user_id@ != u,
        b.users@.len() == a.users@.len() + 1 ==> i == a.users@.len(),
        forall|k: int| 0 <= k < a.users@.len() && k != i ==> #[trigger] b.users@[k] == a.users@[k],
    ensures
        b.consents(u) == a.consents(u),
{
    if exists|k: int| 0 <= k < a.users@.len() && (#[trigger] a.users@[k]).user_id@ == u {
        let k = choose|k: int| 0 <= k < a.users@.len() && (#[trigger] a.users@[k]).user_id@ == u;
        assert(b.users@[k] == a.users@[k]);
        a.lemma_consents(k);
        b.lemma_consents(k);
    } else {
        assert forall|k: int| 0 <= k < b.users@.len() implies (#[trigger] b.users@[k]).user_id@
            != u by {
            if k != i {
                assert(b.users@[k] == a.users@[k]);
                assert(a.users@[k].user_id@ != u);
            }
        }
    }
}

proof fn lemma_same_users(a: ConsentStore, b: ConsentStore, u: Seq<char>)
    requires
        a.users == b.users,
    ensures
        b.consents(u) == a.consents(u),
{
}

// ---- laws ----

/// A `shared` grant that stands covers both worlds, a world grant only its own, and a `shared`
/// check accepts any grant that stands.
pub proof fn law_coverage(c: ConsentView)
    requires
        active(c),
    ensures
        c.world == Domain::Shared ==> covers(c, Domain::Work) && covers(c, Domain::Home),
        c.world == Domain::Work ==> covers(c, Domain::Work) && !covers(c, Domain::Home),
        c.world == Domain::Home ==> covers(c, Domain::Home) && !covers(c, Domain::Work),
        covers(c, Domain::Shared),
{
}

/// A revoked grant covers nothing.
pub proof fn law_revoked_covers_nothing(c: ConsentView, w: Domain)
    requires
        !active(c),
    ensures
        !covers(c, w),
{
}

proof fn lemma_standing(l: Seq<ConsentView>, category: Seq<char>, world: Domain)
    ensures
        match standing(l, category, world) {
            Some(x) => l.contains(x) && x.category == category && x.world == world && active(x),
            None => forall|i: int|
                0 <= i < l.len() ==> !((#[trigger] l[i]).category == category && l[i].world
                    == world && active(l[i])),
        },
    decreases l.len(),
{
    if l.len() > 0 && !(l[0].category == category && l[0].world == world && active(l[0])) {
        let rest = l.skip(1);
        lemma_standing(rest, category, world);
        match standing(rest, category, world) {
            Some(x) => {
                let k = choose|k: int| 0 <= k < rest.len() && rest[k] == x;
                assert(l[k + 1] == x);
            },
            None => {
                assert forall|i: int| 0 <= i < l.len() implies !((#[trigger] l[i]).category
                    == category && l[i].world == world && active(l[i])) by {
                    if i > 0 {
                        assert(rest[i - 1] == l[i]);
                    }
                }
            },
        }
    } else if l.len() > 0 {
        assert(l.contains(l[0]));
    }
}

proof fn lemma_standing_push(
    l: Seq<ConsentView>,
    x: ConsentView,
    category: Seq<char>,
    world: Domain,
)
    requires
        standing(l, category, world) is None,
        x.category == category,
        x.world == world,
        active(x),
    ensures
        standing(l.push(x), category, world) == Some(x),
    decreases l.len(),
{
    let r = l.push(x);
    if l.len() == 0 {
        assert(r[0] == x);
    } else {
        assert(r[0] == l[0]);
        assert(r.skip(1) =~= l.skip(1).push(x));
        lemma_standing_push(l.skip(1), x, category, world);
    }
}

proof fn lemma_standing_stays(
    l: Seq<ConsentView>,
    y: ConsentView,
    category: Seq<char>,
    world: Domain,
)
    requires
        standing(l, category, world) is Some,
    ensures
        standing(l.push(y), category, world) == standing(l, category, world),
    decreases l.len(),
{
    let r = l.push(y);
    assert(r[0] == l[0]);
    if !(l[0].category == category && l[0].world == world && active(l[0])) {
        assert(r.skip(1) =~= l.skip(1).push(y));
        lemma_standing_stays(l.skip(1), y, category, world);
    }
}

proof fn lemma_standing_unrevoked(
    l: Seq<ConsentView>,
    category: Seq<char>,
    world: Domain,
    c: Seq<char>,
    w: Option<Domain>,
    at: Timestamp,
)
    requires
        standing(l, category, world) is Some,
        !revoked_by(standing(l, category, world)->0, c, w),
    ensures
        standing(after_revoke(l, c, w, at), category, world) == standing(l, category, world),
    decreases l.len(),
{
    let r = after_revoke(l, c, w, at);
    assert(r[0] == revoke_one(l[0], c, w, at));
    if !(l[0].category == category && l[0].world == world && active(l[0])) {
        assert(r.skip(1) =~= after_revoke(l.skip(1), c, w, at));
        lemma_standing_unrevoked(l.skip(1), category, world, c, w, at);
    }
}

/// What is granted stands, whatever calls follow, until a call revokes it or drops what was
/// granted.
pub proof fn law_a_grant_stands_until_revoked(
    l: Seq<ConsentView>,
    user: Seq<char>,
    calls: Seq<(Seq<char>, Call)>,
    category: Seq<char>,
    world: Domain,
    x: ConsentView,
)
    requires
        standing(l, category, world) == Some(x),
        forall|i: int|
            0 <= i < calls.len() && (#[trigger] calls[i]).0 == user ==> keeps(calls[i].1, x),
    ensures
        standing(after_calls(l, user, calls), category, world) == Some(x),
    decreases calls.len(),
{
    if calls.len() > 0 {
        let init = calls.drop_last();
        assert forall|i: int| 0 <= i < init.len() && (#[trigger] init[i]).0 == user implies keeps(
            init[i].1,
            x,
        ) by {
            assert(init[i] == calls[i]);
        }
        law_a_grant_stands_until_revoked(l, user, init, category, world, x);
        let before = after_calls(l, user, init);
        assert(calls[calls.len() - 1] == calls.last());
        if calls.last().0 == user {
            match calls.last().1 {
                Call::Grant { category: raw, world: w, purpose, id, at } => match category_of(raw) {
                    Some(c) => if standing(before, c, w) is None {
                        lemma_standing_stays(
                            before,
                            granted(id, user, c, w, purpose, at),
                            category,
                            world,
                        );
                    },
                    None => {},
                },
                Call::Revoke { category: raw, world: w, at } => match category_of(raw) {
                    Some(c) => {
                        lemma_standing_unrevoked(before, category, world, c, w, at);
                    },
                    None => {},
                },
                _ => {},
            }
        }
    }
}

/// Granting is idempotent: once a category is granted for a world, a later grant of it gives the
/// first consent back and leaves everything as it is, whatever calls come between, unless one of
/// them revokes it or drops what was granted.
pub proof fn law_granting_is_idempotent(
    l: Seq<ConsentView>,
    user: Seq<char>,
    category: Seq<char>,
    world: Domain,
    first: Call,
    calls: Seq<(Seq<char>, Call)>,
    second: Call,
)
    requires
        first matches Call::Grant { category: raw, world: w, .. } && category_of(raw) == Some(
            category,
        ) && w == world,
        second matches Call::Grant { category: raw, world: w, .. } && category_of(raw) == Some(
            category,
        ) && w == world,
        forall|i: int|
            0 <= i < calls.len() && (#[trigger] calls[i]).0 == user ==> keeps(
                calls[i].1,
                consent_for(
                    l,
                    user,
                    category,
                    world,
                    first->Grant_purpose,
                    first->Grant_id,
                    first->Grant_at,
                ),
            ),
    ensures
        ({
            let x = consent_for(
                l,
                user,
                category,
                world,
                first->Grant_purpose,
                first->Grant_id,
                first->Grant_at,
            );
            let later = after_calls(after_call(l, user, first), user, calls);
            &&& consent_for(
                later,
                user,
                category,
                world,
                second->Grant_purpose,
                second->Grant_id,
                second->Grant_at,
            ) == x
            &&& standing(later, category, world) is Some
            &&& after_call(later, user, second) == later
        }),
{
    let x = consent_for(
        l,
        user,
        category,
        world,
        first->Grant_purpose,
        first->Grant_id,
        first->Grant_at,
    );
    if standing(l, category, world) is None {
        lemma_standing_push(l, x, category, world);
    }
    law_a_grant_stands_until_revoked(after_call(l, user, first), user, calls, category, world, x);
}

/// What stands is granted: a check for the same category and world succeeds, and so does a check
/// for `shared`.
pub proof fn law_what_stands_is_granted(
    l: Seq<ConsentView>,
    category: Seq<char>,
    world: Domain,
)
    requires
        standing(l, category, world) is Some,
    ensures
        has_grant(l, category, world),
        has_grant(l, category, Domain::Shared),
{
    lemma_standing(l, category, world);
    let x = standing(l, category, world)->0;
    let k = choose|k: int| 0 <= k < l.len() && l[k] == x;
    assert(l[k].category == category && covers(l[k], world));
    assert(covers(l[k], Domain::Shared));
}

/// Revoking a category in every world leaves no grant of it.
pub proof fn law_revoking_everywhere_leaves_no_grant(
    l: Seq<ConsentView>,
    category: Seq<char>,
    at: Timestamp,
    world: Domain,
)
    ensures
        !has_grant(after_revoke(l, category, None, at), category, world),
{
    let r = after_revoke(l, category, None, at);
    assert forall|i: int| 0 <= i < r.len() implies !((#[trigger] r[i]).category == category
        && covers(r[i], world)) by {
        assert(r[i] == revoke_one(l[i], category, None, at));
    }
}

/// Revoking in one world touches only the grants of that category and world: every other grant
/// stays as it was, and the history keeps all of them.
pub proof fn law_revoking_scopes_by_world(
    l: Seq<ConsentView>,
    category: Seq<char>,
    w: Domain,
    at: Timestamp,
)
    ensures
        after_revoke(l, category, Some(w), at).len() == l.len(),
        forall|i: int|
            0 <= i < l.len() ==> {
                let x = #[trigger] after_revoke(l, category, Some(w), at)[i];
                &&& l[i].category != category || l[i].world != w ==> x == l[i]
                &&& l[i].category == category && l[i].world == w ==> !active(x)
            },
{
}

/// As many grants are revoked as are reported.
pub proof fn law_revocations_are_counted(
    l: Seq<ConsentView>,
    category: Seq<char>,
    world: Option<Domain>,
    at: Timestamp,
)
    ensures
        only_active(l).len() == only_active(after_revoke(l, category, world, at)).len()
            + revoked_ids(l, category, world).len(),
    decreases l.len(),
{
    if l.len() > 0 {
        law_revocations_are_counted(l.drop_last(), category, world, at);
        let r = after_revoke(l, category, world, at);
        assert(r.drop_last() =~= after_revoke(l.drop_last(), category, world, at));
        assert(r.last() == revoke_one(l.last(), category, world, at));
    }
}

/// The history is newest first and holds every grant.
pub proof fn law_history_is_newest_first(l: Seq<ConsentView>)
    ensures
        newest_first(l).len() == l.len(),
        newest_first(l).to_multiset() == l.to_multiset(),
        forall|i: int, j: int|
            0 <= i < j < l.len() ==> (#[trigger] newest_first(l)[i]).granted_at.instant() >= (
            #[trigger] newest_first(l)[j]).granted_at.instant(),
{
    let key = |c: ConsentView| -c.granted_at.instant();
    ranking::law_sorted(l, key);
    assert forall|i: int, j: int| 0 <= i < j < l.len() implies (
    #[trigger] newest_first(l)[i]).granted_at.instant() >= (
    #[trigger] newest_first(l)[j]).granted_at.instant() by {
        assert(key(newest_first(l)[i]) <= key(newest_first(l)[j]));
    }
}

} // verus!
