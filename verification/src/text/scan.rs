//! Prefixes, suffixes, trimming and search.

use vstd::prelude::*;

use crate::text::chars;
use crate::text::chars::Class;

verus! {

/// `s` without its leading characters of class `k`.
pub open spec fn drop_start(s: Seq<char>, k: Class) -> Seq<char>
    decreases s.len(),
{
    if s.len() > 0 && k.has(s[0]) {
        drop_start(s.skip(1), k)
    } else {
        s
    }
}

/// `s` without its trailing characters of class `k`.
pub open spec fn drop_end(s: Seq<char>, k: Class) -> Seq<char>
    decreases s.len(),
{
    if s.len() > 0 && k.has(s.last()) {
        drop_end(s.drop_last(), k)
    } else {
        s
    }
}

/// `str::trim`.
pub open spec fn trimmed(s: Seq<char>) -> Seq<char> {
    drop_end(drop_start(s, Class::White), Class::White)
}

/// `p` stands in `s` at position `i`.
pub open spec fn at(s: Seq<char>, i: int, p: Seq<char>) -> bool {
    0 <= i && i + p.len() <= s.len() && s.subrange(i, i + p.len()) == p
}

pub open spec fn starts(s: Seq<char>, p: Seq<char>) -> bool {
    at(s, 0, p)
}

pub open spec fn ends(s: Seq<char>, p: Seq<char>) -> bool {
    at(s, s.len() - p.len(), p)
}

/// The character is not in the text.
pub open spec fn free_of(s: Seq<char>, c: char) -> bool {
    forall|i: int| 0 <= i < s.len() ==> #[trigger] s[i] != c
}

/// `p` stands somewhere in `s`.
pub open spec fn within(s: Seq<char>, p: Seq<char>) -> bool {
    exists|i: int| at(s, i, p)
}

/// `i` is the first position of `p` in `s`.
pub open spec fn first_at(s: Seq<char>, i: int, p: Seq<char>) -> bool {
    at(s, i, p) && forall|j: int| j < i ==> !at(s, j, p)
}

/// What stands before and behind the first `p` in `s` (`str::split_once`).
pub open spec fn cut(s: Seq<char>, p: Seq<char>) -> Option<(Seq<char>, Seq<char>)> {
    if within(s, p) {
        let i = choose|i: int| first_at(s, i, p);
        Some((s.take(i), s.skip(i + p.len())))
    } else {
        None
    }
}

/// `s` without the prefix `p`, where it has it (`str::strip_prefix`).
pub open spec fn after(s: Seq<char>, p: Seq<char>) -> Option<Seq<char>> {
    if starts(s, p) {
        Some(s.skip(p.len() as int))
    } else {
        None
    }
}

/// `s` without the suffix `p`, where it has it (`str::strip_suffix`).
pub open spec fn before(s: Seq<char>, p: Seq<char>) -> Option<Seq<char>> {
    if ends(s, p) {
        Some(s.take(s.len() - p.len()))
    } else {
        None
    }
}

/// `s` without every leading `p` (`str::trim_start_matches`).
pub open spec fn drop_prefixes(s: Seq<char>, p: Seq<char>) -> Seq<char>
    decreases s.len(),
{
    if p.len() > 0 && starts(s, p) {
        drop_prefixes(s.skip(p.len() as int), p)
    } else {
        s
    }
}

/// `s` without every trailing `p` (`str::trim_end_matches`).
pub open spec fn drop_suffixes(s: Seq<char>, p: Seq<char>) -> Seq<char>
    decreases s.len(),
{
    if p.len() > 0 && ends(s, p) {
        drop_suffixes(s.take(s.len() - p.len()), p)
    } else {
        s
    }
}

/// The characters of `v` from `i` up to `j`.
pub fn sub_text(v: &Vec<char>, i: usize, j: usize) -> (r: Vec<char>)
    requires
        i <= j <= v@.len(),
    ensures
        r@ == v@.subrange(i as int, j as int),
{
    let mut out: Vec<char> = Vec::new();
    let mut k: usize = i;
    while k < j
        invariant
            i <= k <= j <= v@.len(),
            out@ == v@.subrange(i as int, k as int),
        decreases j - k,
    {
        out.push(v[k]);
        k += 1;
    }
    out
}

/// `v` followed by `w`.
pub fn concat(v: &Vec<char>, w: &Vec<char>) -> (r: Vec<char>)
    ensures
        r@ == v@ + w@,
{
    let mut out = sub_text(v, 0, v.len());
    let mut k: usize = 0;
    while k < w.len()
        invariant
            k <= w.len(),
            out@ == v@ + w@.take(k as int),
        decreases w.len() - k,
    {
        out.push(w[k]);
        k += 1;
    }
    assert(w@.take(w.len() as int) =~= w@);
    out
}

pub fn without_start(v: &Vec<char>, k: Class) -> (r: Vec<char>)
    ensures
        r@ == drop_start(v@, k),
{
    let mut i: usize = 0;
    assert(v@.skip(0) =~= v@);
    while i < v.len() && k.holds(v[i])
        invariant
            i <= v.len(),
            drop_start(v@, k) == drop_start(v@.skip(i as int), k),
        decreases v.len() - i,
    {
        assert(v@.skip(i as int).skip(1) =~= v@.skip(i + 1));
        i += 1;
    }
    assert(v@.skip(i as int) =~= v@.subrange(i as int, v@.len() as int));
    sub_text(v, i, v.len())
}

pub fn without_end(v: &Vec<char>, k: Class) -> (r: Vec<char>)
    ensures
        r@ == drop_end(v@, k),
{
    let mut n: usize = v.len();
    assert(v@.take(n as int) =~= v@);
    while n > 0 && k.holds(v[n - 1])
        invariant
            n <= v.len(),
            drop_end(v@, k) == drop_end(v@.take(n as int), k),
        decreases n,
    {
        assert(v@.take(n as int).drop_last() =~= v@.take(n - 1));
        n -= 1;
    }
    assert(v@.take(n as int) =~= v@.subrange(0, n as int));
    sub_text(v, 0, n)
}

pub fn trim(v: &Vec<char>) -> (r: Vec<char>)
    ensures
        r@ == trimmed(v@),
{
    without_end(&without_start(v, Class::White), Class::White)
}

/// Whether `p` stands in `v` at `i`.
pub fn is_at(v: &Vec<char>, i: usize, p: &Vec<char>) -> (r: bool)
    ensures
        r == at(v@, i as int, p@),
{
    if i > v.len() || v.len() - i < p.len() {
        return false;
    }
    let mut k: usize = 0;
    while k < p.len()
        invariant
            k <= p.len(),
            i + p.len() <= v.len(),
            forall|m: int| 0 <= m < k ==> v@[i + m] == p@[m],
        decreases p.len() - k,
    {
        if v[i + k] != p[k] {
            assert(v@.subrange(i as int, i + p@.len())[k as int] != p@[k as int]);
            return false;
        }
        k += 1;
    }
    assert(v@.subrange(i as int, i + p@.len()) =~= p@);
    true
}

pub fn starts_with(v: &Vec<char>, p: &str) -> (r: bool)
    ensures
        r == starts(v@, p@),
{
    is_at(v, 0, &chars::chars_of(p))
}

pub fn ends_with(v: &Vec<char>, p: &str) -> (r: bool)
    ensures
        r == ends(v@, p@),
{
    let q = chars::chars_of(p);
    if q.len() > v.len() {
        false
    } else {
        is_at(v, v.len() - q.len(), &q)
    }
}

/// The first position of `p` in `v`.
pub fn position(v: &Vec<char>, p: &Vec<char>) -> (r: Option<usize>)
    ensures
        match r {
            Some(i) => first_at(v@, i as int, p@),
            None => !within(v@, p@),
        },
{
    if p.len() > v.len() {
        return None;
    }
    let mut i: usize = 0;
    while i <= v.len() - p.len()
        invariant
            p.len() <= v.len(),
            i <= v.len() - p.len() + 1,
            forall|j: int| j < i ==> !at(v@, j, p@),
        decreases v.len() - p.len() + 1 - i,
    {
        if is_at(v, i, p) {
            return Some(i);
        }
        if i == v.len() - p.len() {
            assert(forall|j: int| j > i ==> !at(v@, j, p@));
            return None;
        }
        i += 1;
    }
    None
}

pub fn contains(v: &Vec<char>, p: &str) -> (r: bool)
    ensures
        r == within(v@, p@),
{
    position(v, &chars::chars_of(p)).is_some()
}

/// Two first positions are the same position.
pub proof fn lemma_first_at_unique(s: Seq<char>, i: int, j: int, p: Seq<char>)
    requires
        first_at(s, i, p),
        first_at(s, j, p),
    ensures
        i == j,
{
}

/// The parts of `v` before and behind the first `p`.
pub fn split_once(v: &Vec<char>, p: &str) -> (r: Option<(Vec<char>, Vec<char>)>)
    ensures
        match r {
            Some((a, b)) => cut(v@, p@) == Some((a@, b@)),
            None => cut(v@, p@) is None,
        },
{
    let q = chars::chars_of(p);
    match position(v, &q) {
        Some(i) => {
            proof {
                let j = choose|j: int| first_at(v@, j, q@);
                lemma_first_at_unique(v@, i as int, j, q@);
            }
            assert(i + q@.len() <= v@.len());
            assert(v@.skip(i + q@.len()) =~= v@.subrange(i + q@.len(), v@.len() as int));
            let n = v.len();
            assert(n == v@.len() && q.len() == q@.len());
            assert(v@.take(i as int) =~= v@.subrange(0, i as int));
            Some((sub_text(v, 0, i), sub_text(v, i + q.len(), n)))
        },
        None => None,
    }
}

pub fn strip_prefix(v: &Vec<char>, p: &str) -> (r: Option<Vec<char>>)
    ensures
        match r {
            Some(t) => after(v@, p@) == Some(t@),
            None => after(v@, p@) is None,
        },
{
    let q = chars::chars_of(p);
    if is_at(v, 0, &q) {
        assert(v@.skip(q@.len() as int) =~= v@.subrange(q@.len() as int, v@.len() as int));
        Some(sub_text(v, q.len(), v.len()))
    } else {
        None
    }
}

pub fn strip_suffix(v: &Vec<char>, p: &str) -> (r: Option<Vec<char>>)
    ensures
        match r {
            Some(t) => before(v@, p@) == Some(t@),
            None => before(v@, p@) is None,
        },
{
    let q = chars::chars_of(p);
    if q.len() <= v.len() && is_at(v, v.len() - q.len(), &q) {
        assert(v@.take(v@.len() - q@.len()) =~= v@.subrange(0, v@.len() - q@.len()));
        Some(sub_text(v, 0, v.len() - q.len()))
    } else {
        None
    }
}

pub fn without_prefixes(v: &Vec<char>, p: &str) -> (r: Vec<char>)
    ensures
        r@ == drop_prefixes(v@, p@),
{
    let q = chars::chars_of(p);
    let mut i: usize = 0;
    assert(v@.skip(0) =~= v@);
    while q.len() > 0 && is_at(v, i, &q)
        invariant
            i <= v.len(),
            q@ == p@,
            drop_prefixes(v@, p@) == drop_prefixes(v@.skip(i as int), p@),
        decreases v.len() - i,
    {
        let ghost t = v@.skip(i as int);
        assert(t.subrange(0, 0int + p@.len()) =~= v@.subrange(i as int, i + p@.len()));
        assert(t.skip(p@.len() as int) =~= v@.skip(i + p@.len()));
        i = i + q.len();
    }
    let ghost t = v@.skip(i as int);
    if q.len() > 0 {
        assert(!at(t, 0, p@)) by {
            if at(t, 0, p@) {
                assert(t.subrange(0, 0int + p@.len()) =~= v@.subrange(i as int, i + p@.len()));
            }
        }
    }
    assert(t =~= v@.subrange(i as int, v@.len() as int));
    sub_text(v, i, v.len())
}

pub fn without_suffixes(v: &Vec<char>, p: &str) -> (r: Vec<char>)
    ensures
        r@ == drop_suffixes(v@, p@),
{
    let q = chars::chars_of(p);
    let mut n: usize = v.len();
    assert(v@.take(n as int) =~= v@);
    while q.len() > 0 && q.len() <= n && is_at(v, n - q.len(), &q)
        invariant
            n <= v.len(),
            q@ == p@,
            drop_suffixes(v@, p@) == drop_suffixes(v@.take(n as int), p@),
        decreases n,
    {
        let ghost t = v@.take(n as int);
        assert(t.subrange(t.len() - p@.len(), t.len() - p@.len() + p@.len()) =~= v@.subrange(
            n - p@.len(),
            n - p@.len() + p@.len(),
        ));
        assert(t.take(t.len() - p@.len()) =~= v@.take(n - p@.len()));
        n = n - q.len();
    }
    let ghost t = v@.take(n as int);
    if q.len() > 0 {
        assert(!ends(t, p@)) by {
            if ends(t, p@) {
                assert(t.subrange(t.len() - p@.len(), t.len() - p@.len() + p@.len())
                    =~= v@.subrange(n - p@.len(), n - p@.len() + p@.len()));
            }
        }
    }
    assert(t =~= v@.subrange(0, n as int));
    sub_text(v, 0, n)
}

/// `i` is the first position in `s` of a character of class `k`.
pub open spec fn first_of(s: Seq<char>, i: int, k: Class) -> bool {
    0 <= i < s.len() && k.has(s[i]) && forall|j: int| 0 <= j < i ==> !k.has(#[trigger] s[j])
}

/// What stands before and behind the first character of class `k` in `s`.
pub open spec fn cut_by(s: Seq<char>, k: Class) -> Option<(Seq<char>, Seq<char>)> {
    if exists|i: int| first_of(s, i, k) {
        let i = choose|i: int| first_of(s, i, k);
        Some((s.take(i), s.skip(i + 1)))
    } else {
        None
    }
}

/// The parts of `v` before and behind the first character of class `k`.
pub fn split_once_by(v: &Vec<char>, k: Class) -> (r: Option<(Vec<char>, Vec<char>)>)
    ensures
        match r {
            Some((a, b)) => cut_by(v@, k) == Some((a@, b@)),
            None => cut_by(v@, k) is None,
        },
{
    let mut i: usize = 0;
    while i < v.len()
        invariant
            i <= v.len(),
            forall|j: int| 0 <= j < i ==> !k.has(#[trigger] v@[j]),
        decreases v.len() - i,
    {
        if k.holds(v[i]) {
            assert(first_of(v@, i as int, k));
            proof {
                let j = choose|j: int| first_of(v@, j, k);
                assert(j == i) by {
                    if j < i {
                        assert(!k.has(v@[j]));
                    }
                }
            }
            assert(v@.take(i as int) =~= v@.subrange(0, i as int));
            assert(v@.skip(i + 1) =~= v@.subrange(i + 1, v@.len() as int));
            return Some((sub_text(v, 0, i), sub_text(v, i + 1, v.len())));
        }
        i += 1;
    }
    None
}

/// Whether a character of class `k` is in `v`.
pub fn any_of(v: &Vec<char>, k: Class) -> (r: bool)
    ensures
        r == exists|i: int| 0 <= i < v@.len() && k.has(#[trigger] v@[i]),
{
    let mut i: usize = 0;
    while i < v.len()
        invariant
            i <= v.len(),
            forall|j: int| 0 <= j < i ==> !k.has(#[trigger] v@[j]),
        decreases v.len() - i,
    {
        if k.holds(v[i]) {
            return true;
        }
        i += 1;
    }
    false
}

} // verus!
