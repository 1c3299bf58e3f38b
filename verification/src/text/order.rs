//! The order of texts, by their characters, and sorted lists of distinct keys.

use vstd::prelude::*;

use crate::text::chars;

verus! {

/// `a` comes before `b`, as `str` orders texts: the first character that differs decides, and a
/// text comes before its extensions.
pub open spec fn before(a: Seq<char>, b: Seq<char>) -> bool
    decreases a.len(),
{
    if b.len() == 0 {
        false
    } else if a.len() == 0 {
        true
    } else if a[0] == b[0] {
        before(a.skip(1), b.skip(1))
    } else {
        (a[0] as int) < (b[0] as int)
    }
}

pub proof fn lemma_irreflexive(a: Seq<char>)
    ensures
        !before(a, a),
    decreases a.len(),
{
    if a.len() > 0 {
        lemma_irreflexive(a.skip(1));
    }
}

pub proof fn lemma_transitive(a: Seq<char>, b: Seq<char>, c: Seq<char>)
    requires
        before(a, b),
        before(b, c),
    ensures
        before(a, c),
    decreases a.len(),
{
    if a.len() > 0 && b.len() > 0 && c.len() > 0 {
        if a[0] == b[0] && b[0] == c[0] {
            lemma_transitive(a.skip(1), b.skip(1), c.skip(1));
        }
    }
}

pub proof fn lemma_total(a: Seq<char>, b: Seq<char>)
    ensures
        a == b || before(a, b) || before(b, a),
    decreases a.len(),
{
    if a.len() == 0 && b.len() == 0 {
        assert(a =~= b);
    } else if a.len() > 0 && b.len() > 0 && a[0] == b[0] {
        lemma_total(a.skip(1), b.skip(1));
        if a.skip(1) == b.skip(1) {
            assert(a =~= seq![a[0]] + a.skip(1));
            assert(b =~= seq![b[0]] + b.skip(1));
        }
    }
}

pub fn comes_before(a: &Vec<char>, b: &Vec<char>) -> (r: bool)
    ensures
        r == before(a@, b@),
{
    let mut i: usize = 0;
    assert(a@.skip(0) =~= a@);
    assert(b@.skip(0) =~= b@);
    while i < a.len() && i < b.len()
        invariant
            i <= a.len(),
            i <= b.len(),
            before(a@, b@) == before(a@.skip(i as int), b@.skip(i as int)),
        decreases a.len() - i,
    {
        assert(a@.skip(i as int)[0] == a@[i as int]);
        assert(b@.skip(i as int)[0] == b@[i as int]);
        assert(a@.skip(i as int).skip(1) =~= a@.skip(i + 1));
        assert(b@.skip(i as int).skip(1) =~= b@.skip(i + 1));
        if a[i] != b[i] {
            return a[i] < b[i];
        }
        i += 1;
    }
    i < b.len()
}

/// A key of a group: a text and a number.
pub struct Key {
    pub text: Vec<char>,
    pub number: i64,
}

#[verifier::ext_equal]
pub struct KeyView {
    pub text: Seq<char>,
    pub number: int,
}

impl View for Key {
    type V = KeyView;

    open spec fn view(&self) -> KeyView {
        KeyView { text: self.text@, number: self.number as int }
    }
}

pub open spec fn keys_of(v: Seq<Key>) -> Seq<KeyView> {
    v.map_values(|k: Key| k@)
}

/// Keys are ordered by their texts, then by their numbers.
pub open spec fn key_before(a: KeyView, b: KeyView) -> bool {
    before(a.text, b.text) || (a.text == b.text && a.number < b.number)
}

/// Every key comes before all that follow it.
pub open spec fn ascending(keys: Seq<KeyView>) -> bool {
    forall|i: int, j: int|
        0 <= i < j < keys.len() ==> key_before(#[trigger] keys[i], #[trigger] keys[j])
}

pub proof fn lemma_key_irreflexive(a: KeyView)
    ensures
        !key_before(a, a),
{
    lemma_irreflexive(a.text);
}

pub proof fn lemma_key_transitive(a: KeyView, b: KeyView, c: KeyView)
    requires
        key_before(a, b),
        key_before(b, c),
    ensures
        key_before(a, c),
{
    if before(a.text, b.text) && before(b.text, c.text) {
        lemma_transitive(a.text, b.text, c.text);
    }
}

pub proof fn lemma_key_total(a: KeyView, b: KeyView)
    ensures
        a == b || key_before(a, b) || key_before(b, a),
{
    lemma_total(a.text, b.text);
}

/// The keys of an ascending list are distinct.
pub proof fn lemma_ascending_distinct(keys: Seq<KeyView>, i: int, j: int)
    requires
        ascending(keys),
        0 <= i < keys.len(),
        0 <= j < keys.len(),
        keys[i] == keys[j],
    ensures
        i == j,
{
    lemma_key_irreflexive(keys[i]);
    if i < j {
        assert(key_before(keys[i], keys[j]));
    } else if j < i {
        assert(key_before(keys[j], keys[i]));
    }
}

fn key_comes_before(a: &Key, b: &Key) -> (r: bool)
    ensures
        r == key_before(a@, b@),
{
    comes_before(&a.text, &b.text) || (chars::same_chars(&a.text, &b.text) && a.number < b.number)
}

pub fn same_key(a: &Key, b: &Key) -> (r: bool)
    ensures
        r == (a@ == b@),
{
    chars::same_chars(&a.text, &b.text) && a.number == b.number
}

/// Put a key in its place, unless it is there.
pub fn insert_key(keys: &mut Vec<Key>, key: Key)
    requires
        ascending(keys_of(old(keys)@)),
    ensures
        ascending(keys_of(final(keys)@)),
        forall|x: KeyView| #[trigger]
            keys_of(final(keys)@).contains(x) <==> keys_of(old(keys)@).contains(x) || x == key@,
{
    let ghost before_all = keys_of(keys@);
    let mut i: usize = 0;
    while i < keys.len() && key_comes_before(&keys[i], &key)
        invariant
            i <= keys.len(),
            before_all == keys_of(keys@),
            forall|m: int| 0 <= m < i ==> key_before(#[trigger] before_all[m], key@),
        decreases keys.len() - i,
    {
        assert(before_all[i as int] == keys@[i as int]@);
        i += 1;
    }
    if i < keys.len() && same_key(&keys[i], &key) {
        assert(before_all[i as int] == key@);
        return;
    }
    let ghost k = key@;
    keys.insert(i, key);
    let ghost after = keys_of(keys@);
    proof {
        assert(after =~= before_all.insert(i as int, k));
        if i < before_all.len() {
            lemma_key_total(before_all[i as int], k);
        }
        assert forall|a: int, b: int| 0 <= a < b < after.len() implies key_before(
            #[trigger] after[a],
            #[trigger] after[b],
        ) by {
            if b < i {
                assert(after[a] == before_all[a] && after[b] == before_all[b]);
            } else if b == i {
                assert(after[a] == before_all[a]);
            } else if a < i {
                assert(after[a] == before_all[a] && after[b] == before_all[b - 1]);
            } else if a == i {
                assert(after[b] == before_all[b - 1]);
                if b - 1 > i {
                    assert(key_before(before_all[i as int], before_all[b - 1]));
                    lemma_key_transitive(k, before_all[i as int], before_all[b - 1]);
                }
            } else {
                assert(after[a] == before_all[a - 1] && after[b] == before_all[b - 1]);
            }
        }
        assert forall|x: KeyView| #[trigger] after.contains(x) <==> before_all.contains(x) || x
            == k by {
            if before_all.contains(x) {
                let m = choose|m: int| 0 <= m < before_all.len() && before_all[m] == x;
                if m < i {
                    assert(after[m] == x);
                } else {
                    assert(after[m + 1] == x);
                }
            }
            assert(after[i as int] == k);
            if after.contains(x) && x != k {
                let m = choose|m: int| 0 <= m < after.len() && after[m] == x;
                if m < i {
                    assert(before_all[m] == x);
                } else {
                    assert(before_all[m - 1] == x);
                }
            }
        }
    }
}

/// A list with `k` put in its place, unless it is there.
pub open spec fn with_key(ks: Seq<KeyView>, k: KeyView) -> Seq<KeyView>
    decreases ks.len(),
{
    if ks.len() == 0 || key_before(ks.last(), k) {
        ks.push(k)
    } else if ks.last() == k {
        ks
    } else {
        with_key(ks.drop_last(), k).push(ks.last())
    }
}

/// Putting a key in its place keeps a list ascending and adds the key only.
pub proof fn lemma_with_key(ks: Seq<KeyView>, k: KeyView)
    requires
        ascending(ks),
    ensures
        ascending(with_key(ks, k)),
        forall|x: KeyView| #[trigger]
            with_key(ks, k).contains(x) <==> ks.contains(x) || x == k,
    decreases ks.len(),
{
    let r = with_key(ks, k);
    if ks.len() == 0 || key_before(ks.last(), k) {
        assert forall|i: int, j: int| 0 <= i < j < r.len() implies key_before(
            #[trigger] r[i],
            #[trigger] r[j],
        ) by {
            assert(r[i] == ks[i]);
            if j < ks.len() {
                assert(r[j] == ks[j]);
            } else if i < ks.len() - 1 {
                assert(key_before(ks[i], ks[ks.len() - 1]));
                lemma_key_transitive(ks[i], ks.last(), k);
            }
        }
        lemma_push_contains(ks, k);
    } else if ks.last() == k {
        assert(ks.contains(ks[ks.len() - 1]));
    } else {
        let init = ks.drop_last();
        let z = ks.last();
        assert(ascending(init)) by {
            assert forall|i: int, j: int| 0 <= i < j < init.len() implies key_before(
                #[trigger] init[i],
                #[trigger] init[j],
            ) by {
                assert(init[i] == ks[i] && init[j] == ks[j]);
            }
        }
        lemma_with_key(init, k);
        lemma_key_total(z, k);
        let a = with_key(init, k);
        lemma_push_contains(a, z);
        lemma_push_contains(init, z);
        assert(ks =~= init.push(z));
        assert forall|i: int, j: int| 0 <= i < j < r.len() implies key_before(
            #[trigger] r[i],
            #[trigger] r[j],
        ) by {
            assert(r[i] == a[i]);
            if j < a.len() {
                assert(r[j] == a[j]);
            } else {
                assert(a.contains(a[i]));
                if a[i] != k {
                    let m = choose|m: int| 0 <= m < init.len() && init[m] == a[i];
                    assert(key_before(ks[m], ks[ks.len() - 1]));
                }
            }
        }
    }
}

proof fn lemma_push_contains(s: Seq<KeyView>, x: KeyView)
    ensures
        forall|y: KeyView| #[trigger] s.push(x).contains(y) <==> s.contains(y) || x == y,
{
    let t = s.push(x);
    assert forall|y: KeyView| #[trigger] t.contains(y) <==> s.contains(y) || x == y by {
        if s.contains(y) {
            let k = choose|k: int| 0 <= k < s.len() && s[k] == y;
            assert(t[k] == y);
        }
        assert(t[s.len() as int] == x);
        if t.contains(y) && x != y {
            let k = choose|k: int| 0 <= k < t.len() && t[k] == y;
            assert(s[k] == y);
        }
    }
}

/// Two ascending lists of the same keys are the same list.
pub proof fn lemma_ascending_unique(a: Seq<KeyView>, b: Seq<KeyView>)
    requires
        ascending(a),
        ascending(b),
        forall|x: KeyView| #[trigger] a.contains(x) <==> b.contains(x),
    ensures
        a == b,
    decreases a.len(),
{
    if a.len() == 0 {
        if b.len() > 0 {
            assert(b.contains(b[0]));
            assert(a.contains(b[0]));
        }
        assert(a =~= b);
    } else {
        assert(a.contains(a.last()));
        assert(b.len() > 0);
        assert(b.contains(b.last()));
        assert(a.contains(b.last()));
        let i = choose|i: int| 0 <= i < b.len() && b[i] == a.last();
        let j = choose|j: int| 0 <= j < a.len() && a[j] == b.last();
        assert(a.last() == b.last()) by {
            if i < b.len() - 1 && j < a.len() - 1 {
                assert(key_before(b[i], b[b.len() - 1]));
                assert(key_before(a[j], a[a.len() - 1]));
                lemma_key_transitive(a.last(), b.last(), a.last());
                lemma_key_irreflexive(a.last());
            }
        }
        let x = a.drop_last();
        let y = b.drop_last();
        assert(ascending(x)) by {
            assert forall|m: int, n: int| 0 <= m < n < x.len() implies key_before(
                #[trigger] x[m],
                #[trigger] x[n],
            ) by {
                assert(x[m] == a[m] && x[n] == a[n]);
            }
        }
        assert(ascending(y)) by {
            assert forall|m: int, n: int| 0 <= m < n < y.len() implies key_before(
                #[trigger] y[m],
                #[trigger] y[n],
            ) by {
                assert(y[m] == b[m] && y[n] == b[n]);
            }
        }
        assert forall|k: KeyView| #[trigger] x.contains(k) <==> y.contains(k) by {
            if x.contains(k) {
                let m = choose|m: int| 0 <= m < x.len() && x[m] == k;
                assert(a[m] == k);
                assert(a.contains(k));
                let n = choose|n: int| 0 <= n < b.len() && b[n] == k;
                if n == b.len() - 1 {
                    lemma_ascending_distinct(a, m, a.len() - 1);
                }
                assert(y[n] == k);
            }
            if y.contains(k) {
                let m = choose|m: int| 0 <= m < y.len() && y[m] == k;
                assert(b[m] == k);
                assert(b.contains(k));
                assert(a.contains(k));
                let n = choose|n: int| 0 <= n < a.len() && a[n] == k;
                if n == a.len() - 1 {
                    lemma_ascending_distinct(b, m, b.len() - 1);
                }
                assert(x[n] == k);
            }
        }
        lemma_ascending_unique(x, y);
        assert(a =~= x.push(a.last()));
        assert(b =~= y.push(b.last()));
    }
}

} // verus!
