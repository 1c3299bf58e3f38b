//! Stable sorting by a number.

use vstd::prelude::*;

verus! {

/// `s`, which is sorted, with `x` behind all that do not come after it.
pub open spec fn placed<T>(s: Seq<T>, x: T, key: spec_fn(T) -> int) -> Seq<T>
    decreases s.len(),
{
    if s.len() == 0 || key(s.last()) <= key(x) {
        s.push(x)
    } else {
        placed(s.drop_last(), x, key).push(s.last())
    }
}

/// `s` by ascending keys; what has the same key keeps its order (`sort_by_key`).
pub open spec fn sorted_by<T>(s: Seq<T>, key: spec_fn(T) -> int) -> Seq<T>
    decreases s.len(),
{
    if s.len() == 0 {
        s
    } else {
        placed(sorted_by(s.drop_last(), key), s.last(), key)
    }
}

/// The keys ascend.
pub open spec fn ascends<T>(s: Seq<T>, key: spec_fn(T) -> int) -> bool {
    forall|i: int, j: int| 0 <= i < j < s.len() ==> key(#[trigger] s[i]) <= key(#[trigger] s[j])
}

proof fn lemma_placed<T>(s: Seq<T>, x: T, key: spec_fn(T) -> int)
    requires
        ascends(s, key),
    ensures
        ascends(placed(s, x, key), key),
        placed(s, x, key).to_multiset() == s.to_multiset().insert(x),
        placed(s, x, key).len() == s.len() + 1,
        forall|i: int|
            0 <= i < placed(s, x, key).len() ==> key(#[trigger] placed(s, x, key)[i]) <= key(x) || (
            s.len() > 0 && key(placed(s, x, key)[i]) <= key(s.last())),
    decreases s.len(),
{
    let r = placed(s, x, key);
    s.to_multiset_ensures();
    if s.len() == 0 || key(s.last()) <= key(x) {
        assert forall|i: int, j: int| 0 <= i < j < r.len() implies key(#[trigger] r[i]) <= key(
            #[trigger] r[j],
        ) by {
            assert(r[i] == s[i]);
            if j < s.len() {
                assert(r[j] == s[j]);
            } else if i < s.len() - 1 {
                assert(key(s[i]) <= key(s[s.len() - 1]));
            }
        }
        assert forall|i: int| 0 <= i < r.len() implies key(#[trigger] r[i]) <= key(x) || (s.len() > 0
            && key(r[i]) <= key(s.last())) by {
            if i < s.len() - 1 {
                assert(r[i] == s[i]);
                assert(key(s[i]) <= key(s[s.len() - 1]));
            }
        }
    } else {
        let init = s.drop_last();
        let z = s.last();
        assert(ascends(init, key)) by {
            assert forall|i: int, j: int| 0 <= i < j < init.len() implies key(#[trigger] init[i])
                <= key(#[trigger] init[j]) by {
                assert(init[i] == s[i] && init[j] == s[j]);
            }
        }
        lemma_placed(init, x, key);
        let a = placed(init, x, key);
        a.to_multiset_ensures();
        init.to_multiset_ensures();
        assert(s =~= init.push(z));
        assert(s.to_multiset() =~= init.to_multiset().insert(z));
        assert(r.to_multiset() =~= init.to_multiset().insert(x).insert(z));
        assert(r.to_multiset() =~= s.to_multiset().insert(x));
        assert forall|i: int| 0 <= i < a.len() implies key(#[trigger] a[i]) <= key(z) by {
            if init.len() > 0 {
                assert(key(s[init.len() - 1]) <= key(s[s.len() - 1]));
                assert(init.last() == s[init.len() - 1]);
            }
        }
        assert forall|i: int, j: int| 0 <= i < j < r.len() implies key(#[trigger] r[i]) <= key(
            #[trigger] r[j],
        ) by {
            assert(r[i] == a[i]);
            if j < a.len() {
                assert(r[j] == a[j]);
            }
        }
        assert forall|i: int| 0 <= i < r.len() implies key(#[trigger] r[i]) <= key(x) || (s.len() > 0
            && key(r[i]) <= key(s.last())) by {
            if i < a.len() {
                assert(r[i] == a[i]);
            }
        }
    }
}

/// No two items are in the relation.
pub open spec fn apart<T>(s: Seq<T>, related: spec_fn(T, T) -> bool) -> bool {
    forall|i: int, j: int|
        0 <= i < s.len() && 0 <= j < s.len() && i != j ==> !related(
            #[trigger] s[i],
            #[trigger] s[j],
        )
}

proof fn lemma_placed_apart<T>(
    s: Seq<T>,
    x: T,
    key: spec_fn(T) -> int,
    related: spec_fn(T, T) -> bool,
)
    requires
        apart(s, related),
        forall|i: int| 0 <= i < s.len() ==> !related(#[trigger] s[i], x) && !related(x, s[i]),
    ensures
        apart(placed(s, x, key), related),
        forall|i: int|
            0 <= i < placed(s, x, key).len() ==> #[trigger] placed(s, x, key)[i] == x || s.contains(
                placed(s, x, key)[i],
            ),
    decreases s.len(),
{
    let r = placed(s, x, key);
    if s.len() == 0 || key(s.last()) <= key(x) {
        assert forall|i: int| 0 <= i < r.len() implies #[trigger] r[i] == x || s.contains(r[i]) by {
            if i < s.len() {
                assert(r[i] == s[i]);
            }
        }
    } else {
        let init = s.drop_last();
        let z = s.last();
        assert forall|i: int| 0 <= i < init.len() implies #[trigger] init[i] == s[i] by {}
        lemma_placed_apart(init, x, key, related);
        let a = placed(init, x, key);
        assert(s[s.len() - 1] == z);
        assert forall|i: int| 0 <= i < a.len() implies #[trigger] a[i] == x || exists|k: int|
            0 <= k < init.len() && s[k] == a[i] by {
            if a[i] != x {
                let k = choose|k: int| 0 <= k < init.len() && init[k] == a[i];
                assert(s[k] == a[i]);
            }
        }
        assert forall|i: int| 0 <= i < r.len() implies #[trigger] r[i] == x || s.contains(r[i]) by {
            if i < a.len() {
                assert(r[i] == a[i]);
            }
        }
        assert forall|i: int, j: int|
            0 <= i < r.len() && 0 <= j < r.len() && i != j implies !related(
            #[trigger] r[i],
            #[trigger] r[j],
        ) by {
            if i < a.len() {
                assert(r[i] == a[i]);
            }
            if j < a.len() {
                assert(r[j] == a[j]);
            }
        }
    }
}

/// Sorting leaves apart what is apart.
pub proof fn lemma_sorted_apart<T>(
    s: Seq<T>,
    key: spec_fn(T) -> int,
    related: spec_fn(T, T) -> bool,
)
    requires
        apart(s, related),
    ensures
        apart(sorted_by(s, key), related),
        forall|i: int|
            0 <= i < sorted_by(s, key).len() ==> s.contains(#[trigger] sorted_by(s, key)[i]),
    decreases s.len(),
{
    if s.len() > 0 {
        let init = s.drop_last();
        assert forall|i: int| 0 <= i < init.len() implies #[trigger] init[i] == s[i] by {}
        lemma_sorted_apart(init, key, related);
        let a = sorted_by(init, key);
        let x = s.last();
        assert(s[s.len() - 1] == x);
        assert forall|i: int| 0 <= i < a.len() implies !related(#[trigger] a[i], x) && !related(
            x,
            a[i],
        ) && s.contains(a[i]) by {
            let k = choose|k: int| 0 <= k < init.len() && init[k] == a[i];
            assert(s[k] == a[i]);
        }
        lemma_placed_apart(a, x, key, related);
        assert forall|i: int| 0 <= i < sorted_by(s, key).len() implies s.contains(
            #[trigger] sorted_by(s, key)[i],
        ) by {
            let y = placed(a, x, key)[i];
            if y != x {
                let k = choose|k: int| 0 <= k < a.len() && a[k] == y;
                assert(s.contains(a[k]));
            }
        }
    }
}

/// Sorting keeps what is sorted and puts it in ascending order.
pub proof fn law_sorted<T>(s: Seq<T>, key: spec_fn(T) -> int)
    ensures
        ascends(sorted_by(s, key), key),
        sorted_by(s, key).to_multiset() == s.to_multiset(),
        sorted_by(s, key).len() == s.len(),
    decreases s.len(),
{
    if s.len() > 0 {
        let init = s.drop_last();
        law_sorted(init, key);
        lemma_placed(sorted_by(init, key), s.last(), key);
        init.to_multiset_ensures();
        assert(s =~= init.push(s.last()));
        assert(s.to_multiset() =~= init.to_multiset().insert(s.last()));
    }
}

/// The items of `s` with key `k`, in order.
pub open spec fn with_rank<T>(s: Seq<T>, key: spec_fn(T) -> int, k: int) -> Seq<T>
    decreases s.len(),
{
    if s.len() == 0 {
        s
    } else if key(s.last()) == k {
        with_rank(s.drop_last(), key, k).push(s.last())
    } else {
        with_rank(s.drop_last(), key, k)
    }
}

proof fn lemma_placed_rank<T>(s: Seq<T>, x: T, key: spec_fn(T) -> int, k: int)
    requires
        ascends(s, key),
    ensures
        with_rank(placed(s, x, key), key, k) == if key(x) == k {
            with_rank(s, key, k).push(x)
        } else {
            with_rank(s, key, k)
        },
    decreases s.len(),
{
    if s.len() == 0 || key(s.last()) <= key(x) {
        assert(s.push(x).drop_last() =~= s);
    } else {
        let init = s.drop_last();
        let z = s.last();
        assert(ascends(init, key)) by {
            assert forall|i: int, j: int| 0 <= i < j < init.len() implies key(#[trigger] init[i])
                <= key(#[trigger] init[j]) by {
                assert(init[i] == s[i] && init[j] == s[j]);
            }
        }
        lemma_placed_rank(init, x, key, k);
        let a = placed(init, x, key);
        assert(a.push(z).drop_last() =~= a);
    }
}

/// Sorting is stable: what has the same key keeps its order.
pub proof fn law_sorted_is_stable<T>(s: Seq<T>, key: spec_fn(T) -> int, k: int)
    ensures
        with_rank(sorted_by(s, key), key, k) == with_rank(s, key, k),
    decreases s.len(),
{
    if s.len() > 0 {
        let init = s.drop_last();
        law_sorted_is_stable(init, key, k);
        law_sorted(init, key);
        lemma_placed_rank(sorted_by(init, key), s.last(), key, k);
    }
}

proof fn lemma_placed_map<T, U>(
    s: Seq<T>,
    x: T,
    key: spec_fn(T) -> int,
    f: spec_fn(T) -> U,
    kept: spec_fn(U) -> int,
)
    requires
        forall|i: int| 0 <= i < s.len() ==> key(#[trigger] s[i]) == kept(f(s[i])),
        key(x) == kept(f(x)),
    ensures
        placed(s, x, key).map_values(f) == placed(s.map_values(f), f(x), kept),
    decreases s.len(),
{
    let m = s.map_values(f);
    if s.len() > 0 {
        assert(m.last() == f(s.last()));
        assert(key(s[s.len() - 1]) == kept(f(s[s.len() - 1])));
    }
    if s.len() == 0 || key(s.last()) <= key(x) {
        assert(placed(s, x, key).map_values(f) =~= m.push(f(x)));
    } else {
        let init = s.drop_last();
        assert forall|i: int| 0 <= i < init.len() implies key(#[trigger] init[i]) == kept(
            f(init[i]),
        ) by {
            assert(init[i] == s[i]);
        }
        lemma_placed_map(init, x, key, f, kept);
        assert(m.drop_last() =~= init.map_values(f));
        assert(placed(s, x, key).map_values(f) =~= placed(init, x, key).map_values(f).push(
            f(s.last()),
        ));
    }
}

/// Sorting looks at the keys only.
pub proof fn lemma_sorted_map<T, U>(
    s: Seq<T>,
    key: spec_fn(T) -> int,
    f: spec_fn(T) -> U,
    kept: spec_fn(U) -> int,
)
    requires
        forall|i: int| 0 <= i < s.len() ==> key(#[trigger] s[i]) == kept(f(s[i])),
    ensures
        sorted_by(s, key).map_values(f) == sorted_by(s.map_values(f), kept),
    decreases s.len(),
{
    let m = s.map_values(f);
    if s.len() > 0 {
        let init = s.drop_last();
        assert forall|i: int| 0 <= i < init.len() implies key(#[trigger] init[i]) == kept(
            f(init[i]),
        ) by {
            assert(init[i] == s[i]);
        }
        lemma_sorted_map(init, key, f, kept);
        law_sorted(init, key);
        let t = sorted_by(init, key);
        assert forall|i: int| 0 <= i < t.len() implies key(#[trigger] t[i]) == kept(f(t[i])) by {
            t.to_multiset_ensures();
            init.to_multiset_ensures();
            assert(t.contains(t[i]) <==> t.to_multiset().count(t[i]) > 0);
            assert(init.contains(t[i]) <==> init.to_multiset().count(t[i]) > 0);
            let k = choose|k: int| 0 <= k < init.len() && init[k] == t[i];
            assert(key(init[k]) == kept(f(init[k])));
        }
        assert(key(s[s.len() - 1]) == kept(f(s[s.len() - 1])));
        lemma_placed_map(t, s.last(), key, f, kept);
        assert(m.drop_last() =~= init.map_values(f));
        assert(m.last() == f(s.last()));
    } else {
        assert(sorted_by(s, key).map_values(f) =~= sorted_by(m, kept));
    }
}

/// An item with the number it is sorted by.
pub struct Ranked<T> {
    pub rank: i128,
    pub item: T,
}

pub open spec fn rank_of<T>() -> spec_fn(Ranked<T>) -> int {
    |r: Ranked<T>| r.rank as int
}

/// The items, without their numbers.
pub open spec fn items<T>(s: Seq<Ranked<T>>) -> Seq<T> {
    s.map_values(|r: Ranked<T>| r.item)
}

fn place<T>(v: &mut Vec<Ranked<T>>, x: Ranked<T>)
    ensures
        final(v)@ == placed(old(v)@, x, rank_of()),
{
    let ghost s = v@;
    let mut i: usize = v.len();
    assert(s.take(i as int) =~= s);
    assert(placed(s, x, rank_of()) =~= placed(s.take(i as int), x, rank_of()) + s.skip(i as int));
    while i > 0 && v[i - 1].rank > x.rank
        invariant
            i <= v.len(),
            v@ == s,
            placed(s, x, rank_of()) == placed(s.take(i as int), x, rank_of()) + s.skip(i as int),
        decreases i,
    {
        let ghost t = s.take(i as int);
        assert(t.drop_last() =~= s.take(i - 1));
        assert(t.last() == s[i - 1]);
        assert(placed(t, x, rank_of()) + s.skip(i as int) =~= placed(
            s.take(i - 1),
            x,
            rank_of(),
        ) + s.skip(i - 1));
        i -= 1;
    }
    assert(placed(s.take(i as int), x, rank_of()) == s.take(i as int).push(x)) by {
        if i > 0 {
            assert(s.take(i as int).last() == s[i - 1]);
        }
    }
    v.insert(i, x);
    assert(v@ =~= s.take(i as int).push(x) + s.skip(i as int));
}

/// Sort by ascending numbers, keeping the order of what has the same.
fn sort<T>(v: Vec<Ranked<T>>) -> (r: Vec<Ranked<T>>)
    ensures
        r@ == sorted_by(v@, rank_of()),
{
    let ghost all = v@;
    let n = v.len();
    let mut rest = v;
    let mut out: Vec<Ranked<T>> = Vec::new();
    let mut i: usize = 0;
    assert(all.take(0) =~= Seq::empty());
    assert(out@ =~= sorted_by(all.take(0), rank_of()));
    while i < n
        invariant
            i <= n,
            n == all.len(),
            rest@ == all.skip(i as int),
            out@ == sorted_by(all.take(i as int), rank_of()),
        decreases n - i,
    {
        let x = rest.remove(0);
        assert(x == all[i as int]);
        assert(rest@ =~= all.skip(i + 1));
        assert(all.take(i + 1).drop_last() =~= all.take(i as int));
        place(&mut out, x);
        i += 1;
    }
    assert(all.take(n as int) =~= all);
    out
}

/// The items, each with its number.
pub open spec fn zipped<T>(items: Seq<T>, ranks: Seq<i128>) -> Seq<Ranked<T>> {
    Seq::new(items.len(), |i: int| Ranked { rank: ranks[i], item: items[i] })
}

/// Sort items by their numbers, keeping the order of what has the same.
pub fn sort_items<T>(v: Vec<T>, ranks: &Vec<i128>) -> (r: Vec<T>)
    requires
        v@.len() == ranks@.len(),
    ensures
        r@ == items(sorted_by(zipped(v@, ranks@), rank_of())),
{
    let ghost all = v@;
    let n = v.len();
    let mut rest = v;
    let mut ranked: Vec<Ranked<T>> = Vec::new();
    let mut i: usize = 0;
    while i < n
        invariant
            i <= n,
            n == all.len(),
            n == ranks@.len(),
            rest@ == all.skip(i as int),
            ranked@ == zipped(all, ranks@).take(i as int),
        decreases n - i,
    {
        let item = rest.remove(0);
        assert(item == all[i as int]);
        assert(rest@ =~= all.skip(i + 1));
        ranked.push(Ranked { rank: ranks[i], item });
        assert(ranked@ =~= zipped(all, ranks@).take(i + 1));
        i += 1;
    }
    assert(zipped(all, ranks@).take(n as int) =~= zipped(all, ranks@));
    unranked(sort(ranked))
}

/// The items of a sorted list.
fn unranked<T>(v: Vec<Ranked<T>>) -> (r: Vec<T>)
    ensures
        r@ == items(v@),
{
    let ghost all = v@;
    let n = v.len();
    let mut rest = v;
    let mut out: Vec<T> = Vec::new();
    let mut i: usize = 0;
    while i < n
        invariant
            i <= n,
            n == all.len(),
            rest@ == all.skip(i as int),
            out@ == items(all).take(i as int),
        decreases n - i,
    {
        let x = rest.remove(0);
        assert(x == all[i as int]);
        assert(rest@ =~= all.skip(i + 1));
        out.push(x.item);
        assert(items(all).take(i + 1) =~= items(all).take(i as int).push(items(all)[i as int]));
        i += 1;
    }
    assert(items(all).take(n as int) =~= items(all));
    out
}

} // verus!
