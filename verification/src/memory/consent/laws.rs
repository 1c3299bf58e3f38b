//! What consents promise, grant by grant.

use vstd::prelude::*;

use crate::clock::Timestamp;
use crate::domain::Domain;
use crate::memory::consent;
use crate::memory::consent::Call;
use crate::memory::consent::ConsentView;
use crate::text::chars;
use crate::text::scan;

verus! {

/// A grant answers a check exactly where it was not revoked and it or the check is for both worlds,
/// or both are for the same one.
pub proof fn law_who_is_covered(c: ConsentView, w: Domain)
    ensures
        consent::covers(c, w) <==> c.revoked_at is None && (w == Domain::Shared || c.world
            == Domain::Shared || c.world == w),
{
}

/// A check succeeds exactly where some grant of the category that was not revoked answers it.
pub proof fn law_a_check_needs_a_grant(l: Seq<ConsentView>, category: Seq<char>, w: Domain)
    ensures
        consent::has_grant(l, category, w) <==> exists|i: int|
            0 <= i < l.len() && (#[trigger] l[i]).category == category && l[i].revoked_at is None
                && (w == Domain::Shared || l[i].world == Domain::Shared || l[i].world == w),
{
    if exists|i: int|
        0 <= i < l.len() && (#[trigger] l[i]).category == category && l[i].revoked_at is None && (w
            == Domain::Shared || l[i].world == Domain::Shared || l[i].world == w) {
        let i = choose|i: int|
            0 <= i < l.len() && (#[trigger] l[i]).category == category && l[i].revoked_at is None
                && (w == Domain::Shared || l[i].world == Domain::Shared || l[i].world == w);
        assert(consent::covers(l[i], w));
    }
}

// ---- categories ----

/// A letter of either case, or an underscore.
pub open spec fn may_name(c: char) -> bool {
    'a' <= c <= 'z' || 'A' <= c <= 'Z' || c == '_'
}

/// A text names a category exactly where, without the white space around it, it is one to forty
/// letters and underscores; the category is spelled as the text, in lower case.
pub proof fn law_which_texts_name_a_category(raw: Seq<char>)
    ensures
        ({
            let t = scan::trimmed(raw);
            let r = consent::category_of(raw);
            let ok = 1 <= t.len() <= 40 && forall|i: int| 0 <= i < t.len() ==> may_name(
                #[trigger] t[i],
            );
            &&& r is Some <==> ok
            &&& ok ==> r->0.len() == t.len() && forall|i: int|
                0 <= i < t.len() ==> #[trigger] r->0[i] == if 'A' <= t[i] <= 'Z' {
                    (t[i] as int + 32) as char
                } else {
                    t[i]
                }
        }),
{
    let t = scan::trimmed(raw);
    let c = consent::ascii_lowercase(t);
    assert(c.len() == t.len());
    assert forall|i: int| 0 <= i < t.len() implies (consent::category_char(#[trigger] c[i])
        <==> may_name(t[i])) by {
        assert(c[i] == chars::ascii_lowered(t[i]));
    }
    let ok = 1 <= t.len() <= 40 && forall|i: int| 0 <= i < t.len() ==> may_name(#[trigger] t[i]);
    if consent::category_of(raw) is Some {
        assert forall|i: int| 0 <= i < t.len() implies may_name(#[trigger] t[i]) by {
            assert(consent::category_char(c[i]));
        }
    }
    if ok {
        assert forall|i: int| 0 <= i < c.len() implies consent::category_char(#[trigger] c[i]) by {
            assert(may_name(t[i]));
        }
    }
}

// ---- granting ----

/// The category is granted for exactly the world.
pub open spec fn stands_at(l: Seq<ConsentView>, i: int, category: Seq<char>, w: Domain) -> bool {
    0 <= i < l.len() && l[i].category == category && l[i].world == w && l[i].revoked_at is None
}

proof fn lemma_standing(l: Seq<ConsentView>, category: Seq<char>, w: Domain, n: int)
    requires
        0 <= n <= l.len(),
        forall|i: int| 0 <= i < n ==> !#[trigger] stands_at(l, i, category, w),
    ensures
        consent::standing(l, category, w) == consent::standing(l.skip(n), category, w),
    decreases n,
{
    if n == 0 {
        assert(l.skip(0) =~= l);
    } else {
        lemma_standing(l, category, w, n - 1);
        assert(!stands_at(l, n - 1, category, w));
        assert(l.skip(n - 1)[0] == l[n - 1]);
        assert(l.skip(n - 1).skip(1) =~= l.skip(n));
    }
}

proof fn lemma_first_standing(l: Seq<ConsentView>, category: Seq<char>, w: Domain, i: int)
    requires
        stands_at(l, i, category, w),
        forall|j: int| 0 <= j < i ==> !#[trigger] stands_at(l, j, category, w),
    ensures
        consent::standing(l, category, w) == Some(l[i]),
{
    lemma_standing(l, category, w, i);
    assert(l.skip(i)[0] == l[i]);
}

/// A grant of a category that already stands for exactly the world changes nothing and gives the
/// first such grant back.
pub proof fn law_granting_again_gives_the_first_grant(
    l: Seq<ConsentView>,
    user: Seq<char>,
    raw: Seq<char>,
    category: Seq<char>,
    w: Domain,
    purpose: Seq<char>,
    id: u128,
    at: Timestamp,
    i: int,
)
    requires
        consent::category_of(raw) == Some(category),
        stands_at(l, i, category, w),
        forall|j: int| 0 <= j < i ==> !#[trigger] stands_at(l, j, category, w),
    ensures
        consent::after_call(
            l,
            user,
            Call::Grant { category: raw, world: w, purpose, id, at },
        ) == l,
        consent::consent_for(l, user, category, w, purpose, id, at) == l[i],
        consent::standing(l, category, w) is Some,
{
    lemma_first_standing(l, category, w, i);
}

/// A grant of a category that does not stand for exactly the world, whatever stands for another,
/// adds one grant behind the others: the user's, of that category, world, moment and identifier, not
/// revoked, with at most 240 characters of the trimmed purpose.
pub proof fn law_a_new_grant(
    l: Seq<ConsentView>,
    user: Seq<char>,
    raw: Seq<char>,
    category: Seq<char>,
    w: Domain,
    purpose: Seq<char>,
    id: u128,
    at: Timestamp,
)
    requires
        consent::category_of(raw) == Some(category),
        forall|j: int| 0 <= j < l.len() ==> !#[trigger] stands_at(l, j, category, w),
    ensures
        ({
            let after = consent::after_call(
                l,
                user,
                Call::Grant { category: raw, world: w, purpose, id, at },
            );
            let x = consent::consent_for(l, user, category, w, purpose, id, at);
            let p = scan::trimmed(purpose);
            &&& consent::standing(l, category, w) is None
            &&& after == l.push(x)
            &&& x.user_id == user
            &&& x.category == category
            &&& x.world == w
            &&& x.id == id
            &&& x.granted_at == at
            &&& x.revoked_at is None
            &&& p.len() <= 240 ==> x.purpose == p
            &&& p.len() > 240 ==> x.purpose.len() == 240 && forall|k: int|
                0 <= k < 240 ==> x.purpose[k] == #[trigger] p[k]
        }),
{
    lemma_standing(l, category, w, l.len() as int);
}

/// What is no category is neither granted nor revoked.
pub proof fn law_no_category_changes_nothing(
    l: Seq<ConsentView>,
    user: Seq<char>,
    raw: Seq<char>,
    w: Domain,
    some: Option<Domain>,
    purpose: Seq<char>,
    id: u128,
    at: Timestamp,
)
    requires
        consent::category_of(raw) is None,
    ensures
        consent::after_call(
            l,
            user,
            Call::Grant { category: raw, world: w, purpose, id, at },
        ) == l,
        consent::after_call(l, user, Call::Revoke { category: raw, world: some, at }) == l,
{
}

// ---- revoking ----

/// A revocation is about a grant that was not revoked, of its category and, where it names one, of
/// exactly its world.
pub open spec fn is_about(c: ConsentView, category: Seq<char>, w: Option<Domain>) -> bool {
    c.category == category && c.revoked_at is None && (w is None || w == Some(c.world))
}

/// A revocation marks exactly the grants that it is about with its moment, and changes nothing else:
/// what was revoked before keeps its own moment, and every grant stays in its place.
pub proof fn law_what_a_revocation_marks(
    l: Seq<ConsentView>,
    user: Seq<char>,
    raw: Seq<char>,
    category: Seq<char>,
    w: Option<Domain>,
    at: Timestamp,
)
    requires
        consent::category_of(raw) == Some(category),
    ensures
        ({
            let after = consent::after_call(
                l,
                user,
                Call::Revoke { category: raw, world: w, at },
            );
            &&& after.len() == l.len()
            &&& forall|i: int|
                0 <= i < l.len() ==> if is_about(l[i], category, w) {
                    (#[trigger] after[i]) == (ConsentView { revoked_at: Some(at), ..l[i] })
                } else {
                    after[i] == l[i]
                }
        }),
{
    let after = consent::after_revoke(l, category, w, at);
    assert forall|i: int| 0 <= i < l.len() implies if is_about(l[i], category, w) {
        (#[trigger] after[i]) == (ConsentView { revoked_at: Some(at), ..l[i] })
    } else {
        after[i] == l[i]
    } by {
        assert(after[i] == consent::revoke_one(l[i], category, w, at));
    }
}

/// The identifiers that a revocation reports are those of the grants that it is about, in order.
pub proof fn law_what_a_revocation_reports(
    l: Seq<ConsentView>,
    category: Seq<char>,
    w: Option<Domain>,
)
    ensures
        consent::revoked_ids(l, category, w) == l.filter(
            |c: ConsentView| is_about(c, category, w),
        ).map_values(|c: ConsentView| c.id),
    decreases l.len(),
{
    reveal(Seq::filter);
    let f = |c: ConsentView| is_about(c, category, w);
    let id = |c: ConsentView| c.id;
    if l.len() > 0 {
        let init = l.drop_last();
        law_what_a_revocation_reports(init, category, w);
        if f(l.last()) {
            assert(init.filter(f).push(l.last()).map_values(id) =~= init.filter(f).map_values(
                id,
            ).push(l.last().id));
        }
    } else {
        assert(l.filter(f).map_values(id) =~= Seq::<u128>::empty());
    }
}

/// The active grants are those that were not revoked, in order.
pub proof fn law_active_grants_were_not_revoked(l: Seq<ConsentView>)
    ensures
        consent::only_active(l) == l.filter(|c: ConsentView| c.revoked_at is None),
    decreases l.len(),
{
    reveal(Seq::filter);
    if l.len() > 0 {
        law_active_grants_were_not_revoked(l.drop_last());
    }
}

/// After a purge the user has no grant, and after a load those that were loaded.
pub proof fn law_purging_and_loading(
    l: Seq<ConsentView>,
    user: Seq<char>,
    rows: Seq<ConsentView>,
)
    ensures
        consent::after_call(l, user, Call::Purge).len() == 0,
        consent::after_call(l, user, Call::Load { rows }) == rows,
{
}

/// A category that was granted and then revoked in its world is not granted there, unless it is
/// granted for both worlds too.
pub proof fn law_revoking_undoes_a_grant(
    l: Seq<ConsentView>,
    user: Seq<char>,
    raw: Seq<char>,
    category: Seq<char>,
    w: Domain,
    at: Timestamp,
)
    requires
        consent::category_of(raw) == Some(category),
        w != Domain::Shared,
    ensures
        ({
            let after = consent::after_call(
                l,
                user,
                Call::Revoke { category: raw, world: Some(w), at },
            );
            consent::has_grant(after, category, w) <==> exists|i: int|
                0 <= i < l.len() && (#[trigger] l[i]).category == category && l[i].world
                    == Domain::Shared && l[i].revoked_at is None
        }),
{
    let after = consent::after_call(l, user, Call::Revoke { category: raw, world: Some(w), at });
    law_what_a_revocation_marks(l, user, raw, category, Some(w), at);
    law_a_check_needs_a_grant(after, category, w);
    if consent::has_grant(after, category, w) {
        let i = choose|i: int|
            0 <= i < after.len() && (#[trigger] after[i]).category == category
                && after[i].revoked_at is None && (w == Domain::Shared || after[i].world
                == Domain::Shared || after[i].world == w);
        assert(l[i].category == category);
    }
    if exists|i: int|
        0 <= i < l.len() && (#[trigger] l[i]).category == category && l[i].world == Domain::Shared
            && l[i].revoked_at is None {
        let i = choose|i: int|
            0 <= i < l.len() && (#[trigger] l[i]).category == category && l[i].world
                == Domain::Shared && l[i].revoked_at is None;
        assert(after[i] == l[i]);
    }
}

/// The later of two moments is the one of the later second, or of the later part of the same one.
pub proof fn law_moments_are_ordered(a: Timestamp, b: Timestamp)
    ensures
        a.instant() < b.instant() <==> a.secs < b.secs || (a.secs == b.secs && a.nanos < b.nanos),
{
}

/// A check is allowed exactly where its text names a category of which some grant that was not
/// revoked is for both worlds, or for the one that is asked for, or any is asked for.
pub proof fn law_what_a_check_allows(l: Seq<ConsentView>, raw: Seq<char>, w: Domain)
    ensures
        consent::allows(l, raw, w) <==> exists|i: int|
            0 <= i < l.len() && consent::category_of(raw) == Some((#[trigger] l[i]).category)
                && l[i].revoked_at is None && (w == Domain::Shared || l[i].world == Domain::Shared
                || l[i].world == w),
{
    if consent::category_of(raw) is Some {
        law_a_check_needs_a_grant(l, consent::category_of(raw)->0, w);
    }
}

/// What is granted is allowed at once, for its world and for a check of both.
pub proof fn law_what_is_granted_is_allowed(
    l: Seq<ConsentView>,
    user: Seq<char>,
    raw: Seq<char>,
    w: Domain,
    purpose: Seq<char>,
    id: u128,
    at: Timestamp,
)
    requires
        consent::category_of(raw) is Some,
    ensures
        ({
            let after = consent::after_call(
                l,
                user,
                Call::Grant { category: raw, world: w, purpose, id, at },
            );
            consent::allows(after, raw, w) && consent::allows(after, raw, Domain::Shared)
        }),
{
    let c = consent::category_of(raw)->0;
    let after = consent::after_call(
        l,
        user,
        Call::Grant { category: raw, world: w, purpose, id, at },
    );
    if exists|j: int| 0 <= j < l.len() && #[trigger] stands_at(l, j, c, w) {
        let j = choose|j: int| 0 <= j < l.len() && #[trigger] stands_at(l, j, c, w);
        if consent::standing(l, c, w) is None {
            lemma_none_stands(l, c, w, j);
        }
        assert(after[j].category == c && after[j].world == w && after[j].revoked_at is None);
        law_what_a_check_allows(after, raw, w);
        law_what_a_check_allows(after, raw, Domain::Shared);
    } else {
        law_a_new_grant(l, user, raw, c, w, purpose, id, at);
        let n = l.len() as int;
        assert(after[n].category == c && after[n].world == w && after[n].revoked_at is None);
        law_what_a_check_allows(after, raw, w);
        law_what_a_check_allows(after, raw, Domain::Shared);
    }
}

proof fn lemma_none_stands(l: Seq<ConsentView>, category: Seq<char>, w: Domain, j: int)
    requires
        stands_at(l, j, category, w),
    ensures
        consent::standing(l, category, w) is Some,
    decreases l.len(),
{
    if !stands_at(l, 0, category, w) {
        let rest = l.skip(1);
        assert(rest[j - 1] == l[j]);
        assert(stands_at(rest, j - 1, category, w));
        lemma_none_stands(rest, category, w, j - 1);
    }
}

} // verus!
