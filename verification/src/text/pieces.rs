//! Splitting, joining and replacing.

use vstd::prelude::*;

use crate::text::chars;
use crate::text::chars::Class;
use crate::text::scan;

verus! {

/// The texts that a vector of character vectors holds.
pub open spec fn texts(v: Seq<Vec<char>>) -> Seq<Seq<char>> {
    v.map_values(|w: Vec<char>| w@)
}

/// The texts that a vector of strings holds.
pub open spec fn strings(v: Seq<String>) -> Seq<Seq<char>> {
    v.map_values(|w: String| w@)
}

/// The texts that a vector of string slices holds.
pub open spec fn slices(v: Seq<&str>) -> Seq<Seq<char>> {
    v.map_values(|w: &str| w@)
}

/// The first `n` of a sequence, or all of it.
pub open spec fn at_most<T>(s: Seq<T>, n: int) -> Seq<T> {
    if s.len() <= n {
        s
    } else {
        s.take(n)
    }
}

/// The text that an optional string holds.
pub open spec fn text_in(s: Option<String>) -> Option<Seq<char>> {
    match s {
        Some(x) => Some(x@),
        None => None,
    }
}

/// A copy of an optional string.
pub fn copy_text(s: &Option<String>) -> (r: Option<String>)
    ensures
        text_in(r) == text_in(*s),
{
    match s {
        Some(x) => Some(x.clone()),
        None => None,
    }
}

/// A copy of a vector of strings.
pub fn copy_strings(v: &Vec<String>) -> (r: Vec<String>)
    ensures
        strings(r@) == strings(v@),
{
    let mut out: Vec<String> = Vec::new();
    let mut i: usize = 0;
    while i < v.len()
        invariant
            i <= v.len(),
            strings(out@) == strings(v@).take(i as int),
        decreases v.len() - i,
    {
        let s = v[i].clone();
        let ghost o = out@;
        out.push(s);
        assert(strings(out@) =~= strings(o).push(s@));
        assert(strings(v@).take(i + 1) =~= strings(v@).take(i as int).push(s@));
        i += 1;
    }
    assert(strings(v@).take(v.len() as int) =~= strings(v@));
    out
}

/// Whether one of the strings is `s`.
pub fn has_string(v: &Vec<String>, s: &str) -> (r: bool)
    ensures
        r == strings(v@).contains(s@),
{
    let mut i: usize = 0;
    while i < v.len()
        invariant
            i <= v.len(),
            forall|j: int| 0 <= j < i ==> strings(v@)[j] != s@,
        decreases v.len() - i,
    {
        assert(strings(v@)[i as int] == v@[i as int]@);
        if chars::same(v[i].as_str(), s) {
            return true;
        }
        i += 1;
    }
    false
}

/// The fields of `s` between the characters of class `k` (`str::split`).
pub open spec fn fields(s: Seq<char>, k: Class) -> Seq<Seq<char>>
    decreases s.len(),
{
    if s.len() == 0 {
        seq![Seq::empty()]
    } else {
        let f = fields(s.drop_last(), k);
        if k.has(s.last()) {
            f.push(Seq::empty())
        } else {
            f.drop_last().push(f.last().push(s.last()))
        }
    }
}

pub open spec fn filled(w: Seq<char>) -> bool {
    w.len() > 0
}

/// The fields that hold a character.
pub open spec fn tokens(s: Seq<char>, k: Class) -> Seq<Seq<char>> {
    fields(s, k).filter(|w: Seq<char>| filled(w))
}

/// `str::split_whitespace`.
pub open spec fn words(s: Seq<char>) -> Seq<Seq<char>> {
    tokens(s, Class::White)
}

/// The texts of `list` with `sep` between them.
pub open spec fn joined(list: Seq<Seq<char>>, sep: Seq<char>) -> Seq<char>
    decreases list.len(),
{
    if list.len() == 0 {
        Seq::empty()
    } else if list.len() == 1 {
        list[0]
    } else {
        joined(list.drop_last(), sep) + sep + list.last()
    }
}

/// `s` with each `p`, from the left, replaced by `q` (`str::replace`).
pub open spec fn replaced(s: Seq<char>, p: Seq<char>, q: Seq<char>) -> Seq<char>
    decreases s.len(),
{
    if s.len() == 0 || p.len() == 0 {
        s
    } else if scan::starts(s, p) {
        q + replaced(s.skip(p.len() as int), p, q)
    } else {
        seq![s[0]] + replaced(s.skip(1), p, q)
    }
}

pub proof fn lemma_fields_not_empty(s: Seq<char>, k: Class)
    ensures
        fields(s, k).len() > 0,
{
}

pub fn split(v: &Vec<char>, k: Class) -> (r: Vec<Vec<char>>)
    ensures
        texts(r@) == fields(v@, k),
{
    let mut done: Vec<Vec<char>> = Vec::new();
    let mut cur: Vec<char> = Vec::new();
    let mut i: usize = 0;
    assert(v@.take(0) =~= Seq::<char>::empty());
    assert(texts(done@).push(cur@) =~= fields(v@.take(0), k));
    while i < v.len()
        invariant
            i <= v.len(),
            texts(done@).push(cur@) == fields(v@.take(i as int), k),
        decreases v.len() - i,
    {
        let c = v[i];
        let ghost t = v@.take(i + 1);
        let ghost f = fields(v@.take(i as int), k);
        assert(t.drop_last() =~= v@.take(i as int));
        assert(f.last() == cur@);
        assert(f.drop_last() =~= texts(done@));
        if k.holds(c) {
            let ghost before = done@;
            done.push(cur);
            assert(texts(done@) =~= f);
            cur = Vec::new();
        } else {
            cur.push(c);
        }
        assert(texts(done@).push(cur@) =~= fields(t, k));
        i += 1;
    }
    assert(v@.take(v.len() as int) =~= v@);
    let ghost last = cur@;
    let ghost before = done@;
    done.push(cur);
    assert(texts(done@) =~= texts(before).push(last));
    done
}

pub fn split_tokens(v: &Vec<char>, k: Class) -> (r: Vec<Vec<char>>)
    ensures
        texts(r@) == tokens(v@, k),
{
    let all = split(v, k);
    let mut out: Vec<Vec<char>> = Vec::new();
    let mut i: usize = 0;
    let ghost f = fields(v@, k);
    let ghost p = |w: Seq<char>| filled(w);
    reveal(Seq::filter);
    assert(f.take(0).filter(p) =~= Seq::empty());
    while i < all.len()
        invariant
            i <= all.len(),
            f == texts(all@),
            p == (|w: Seq<char>| filled(w)),
            texts(out@) == f.take(i as int).filter(p),
        decreases all.len() - i,
    {
        proof {
            reveal(Seq::filter);
            assert(f.take(i + 1).drop_last() =~= f.take(i as int));
        }
        if all[i].len() > 0 {
            let w = scan::sub_text(&all[i], 0, all[i].len());
            assert(w@ =~= all@[i as int]@);
            let ghost o = out@;
            out.push(w);
            assert(texts(out@) =~= texts(o).push(w@));
        }
        i += 1;
    }
    assert(f.take(all.len() as int) =~= f);
    out
}

pub fn split_words(v: &Vec<char>) -> (r: Vec<Vec<char>>)
    ensures
        texts(r@) == words(v@),
{
    split_tokens(v, Class::White)
}

/// The texts of `list` with `sep` between them.
pub fn join(list: &Vec<Vec<char>>, sep: &str) -> (r: Vec<char>)
    ensures
        r@ == joined(texts(list@), sep@),
{
    let gap = chars::chars_of(sep);
    let mut out: Vec<char> = Vec::new();
    let mut i: usize = 0;
    let ghost t = texts(list@);
    assert(t.take(0) =~= Seq::empty());
    while i < list.len()
        invariant
            i <= list.len(),
            gap@ == sep@,
            t == texts(list@),
            out@ == joined(t.take(i as int), sep@),
        decreases list.len() - i,
    {
        assert(t.take(i + 1).drop_last() =~= t.take(i as int));
        if i > 0 {
            out = scan::concat(&out, &gap);
        }
        out = scan::concat(&out, &list[i]);
        if i == 0 {
            assert(out@ =~= t.take(1)[0]);
        }
        i += 1;
    }
    assert(t.take(list.len() as int) =~= t);
    out
}

/// The strings of `list` with `sep` between them.
pub fn join_strings(list: &Vec<String>, sep: &str) -> (r: String)
    ensures
        r@ == joined(strings(list@), sep@),
{
    let mut all: Vec<Vec<char>> = Vec::new();
    let mut i: usize = 0;
    while i < list.len()
        invariant
            i <= list.len(),
            texts(all@) == strings(list@).take(i as int),
        decreases list.len() - i,
    {
        let c = chars::chars_of(list[i].as_str());
        let ghost o = all@;
        all.push(c);
        assert(texts(all@) =~= texts(o).push(c@));
        assert(strings(list@).take(i + 1) =~= strings(list@).take(i as int).push(c@));
        i += 1;
    }
    assert(strings(list@).take(list.len() as int) =~= strings(list@));
    chars::text_of(&join(&all, sep))
}

pub fn replace(v: &Vec<char>, p: &str, q: &str) -> (r: Vec<char>)
    requires
        p@.len() > 0,
    ensures
        r@ == replaced(v@, p@, q@),
{
    let from = chars::chars_of(p);
    let to = chars::chars_of(q);
    let mut out: Vec<char> = Vec::new();
    let mut i: usize = 0;
    assert(v@.skip(0) =~= v@);
    assert(out@ + replaced(v@, p@, q@) =~= replaced(v@, p@, q@));
    while i < v.len()
        invariant
            i <= v.len(),
            from@ == p@,
            to@ == q@,
            p@.len() > 0,
            replaced(v@, p@, q@) == out@ + replaced(v@.skip(i as int), p@, q@),
        decreases v.len() - i,
    {
        let ghost t = v@.skip(i as int);
        let ghost o = out@;
        if scan::is_at(v, i, &from) {
            assert(t.subrange(0, 0int + p@.len()) =~= v@.subrange(i as int, i + p@.len()));
            assert(t.skip(p@.len() as int) =~= v@.skip(i + p@.len()));
            out = scan::concat(&out, &to);
            i = i + from.len();
            assert(o + (q@ + replaced(v@.skip(i as int), p@, q@)) =~= (o + q@) + replaced(
                v@.skip(i as int),
                p@,
                q@,
            ));
        } else {
            assert(!scan::starts(t, p@)) by {
                if scan::starts(t, p@) {
                    assert(t.subrange(0, 0int + p@.len()) =~= v@.subrange(i as int, i + p@.len()));
                }
            }
            assert(t.skip(1) =~= v@.skip(i + 1));
            out.push(v[i]);
            i += 1;
            assert(o + (seq![t[0]] + replaced(v@.skip(i as int), p@, q@)) =~= o.push(t[0])
                + replaced(v@.skip(i as int), p@, q@));
        }
    }
    assert(v@.skip(i as int) =~= Seq::<char>::empty());
    assert(out@ + Seq::<char>::empty() =~= out@);
    out
}

/// `w` with its first character in upper case.
pub open spec fn capital(w: Seq<char>) -> Seq<char> {
    if w.len() == 0 {
        w
    } else {
        chars::upper_of(w[0]) + w.skip(1)
    }
}

pub fn capitalized(v: &Vec<char>) -> (r: Vec<char>)
    ensures
        r@ == capital(v@),
        v@.len() > 0 && (v@[0] as int) < 128 ==> r@ == seq![chars::ascii_raised(v@[0])] + v@.skip(
            1,
        ),
{
    if v.len() == 0 {
        Vec::new()
    } else {
        let head = chars::upper_char(v[0]);
        assert(v@.skip(1) =~= v@.subrange(1, v@.len() as int));
        scan::concat(&head, &scan::sub_text(v, 1, v.len()))
    }
}

/// The lines of `s` (`str::lines`): what stands between line feeds, without the carriage return
/// before one, and no empty line behind the last line feed.
pub open spec fn lines_of(s: Seq<char>) -> Seq<Seq<char>> {
    let f = fields(s, Class::One('\n'));
    let g = f.map(
        |i: int, w: Seq<char>|
            if i < f.len() - 1 && w.len() > 0 && w.last() == '\r' {
                w.drop_last()
            } else {
                w
            },
    );
    if g.last().len() == 0 {
        g.drop_last()
    } else {
        g
    }
}

pub fn split_lines(v: &Vec<char>) -> (r: Vec<Vec<char>>)
    ensures
        texts(r@) == lines_of(v@),
{
    let all = split(v, Class::One('\n'));
    let ghost f = fields(v@, Class::One('\n'));
    let ghost g = f.map(
        |i: int, w: Seq<char>|
            if i < f.len() - 1 && w.len() > 0 && w.last() == '\r' {
                w.drop_last()
            } else {
                w
            },
    );
    proof {
        lemma_fields_not_empty(v@, Class::One('\n'));
    }
    let mut out: Vec<Vec<char>> = Vec::new();
    let mut i: usize = 0;
    while i < all.len()
        invariant
            i <= all.len(),
            f == texts(all@),
            g == f.map(
                |i: int, w: Seq<char>|
                    if i < f.len() - 1 && w.len() > 0 && w.last() == '\r' {
                        w.drop_last()
                    } else {
                        w
                    },
            ),
            texts(out@) == g.take(i as int),
        decreases all.len() - i,
    {
        let n = all[i].len();
        let w = if i + 1 < all.len() && n > 0 && all[i][n - 1] == '\r' {
            scan::sub_text(&all[i], 0, n - 1)
        } else {
            scan::sub_text(&all[i], 0, n)
        };
        assert(w@ =~= g[i as int]);
        let ghost o = out@;
        out.push(w);
        assert(texts(out@) =~= texts(o).push(w@));
        assert(g.take(i + 1) =~= g.take(i as int).push(w@));
        i += 1;
    }
    assert(g.take(all.len() as int) =~= g);
    let last = out.len() - 1;
    assert(texts(out@)[last as int] == out@[last as int]@);
    if out[last].len() == 0 {
        let ghost o = out@;
        let dropped = out.pop();
        assert(texts(out@) =~= texts(o).drop_last());
    }
    out
}

/// A text without white space, and not empty.
pub open spec fn word_like(w: Seq<char>) -> bool {
    w.len() > 0 && forall|i: int| 0 <= i < w.len() ==> !chars::white(#[trigger] w[i])
}

pub open spec fn all_words(ws: Seq<Seq<char>>) -> bool {
    forall|i: int| 0 <= i < ws.len() ==> word_like(#[trigger] ws[i])
}

proof fn lemma_fields_white_free(s: Seq<char>)
    ensures
        forall|i: int, j: int|
            0 <= i < fields(s, Class::White).len() && 0 <= j < fields(s, Class::White)[i].len()
                ==> !chars::white(#[trigger] fields(s, Class::White)[i][j]),
        fields(s, Class::White).len() > 0,
    decreases s.len(),
{
    let r = fields(s, Class::White);
    if s.len() > 0 {
        lemma_fields_white_free(s.drop_last());
        let f = fields(s.drop_last(), Class::White);
        assert forall|i: int, j: int| 0 <= i < r.len() && 0 <= j < r[i].len() implies !chars::white(
            #[trigger] r[i][j],
        ) by {
            if Class::White.has(s.last()) {
                if i < f.len() {
                    assert(r[i] == f[i]);
                    assert(!chars::white(f[i][j]));
                }
            } else if i < f.len() - 1 {
                assert(r[i] == f[i]);
                assert(!chars::white(f[i][j]));
            } else {
                assert(r[i] == f.last().push(s.last()));
                if j < f.last().len() {
                    assert(!chars::white(f[f.len() - 1][j]));
                }
            }
        }
    } else {
        assert forall|i: int, j: int| 0 <= i < r.len() && 0 <= j < r[i].len() implies !chars::white(
            #[trigger] r[i][j],
        ) by {
            assert(r[0].len() == 0);
        }
    }
}

/// The words of a text are words.
pub proof fn lemma_words_are_words(s: Seq<char>)
    ensures
        all_words(words(s)),
{
    let f = fields(s, Class::White);
    let p = |w: Seq<char>| filled(w);
    lemma_fields_white_free(s);
    let ws = f.filter(p);
    assert forall|i: int| 0 <= i < ws.len() implies word_like(#[trigger] ws[i]) by {
        f.lemma_filter_contains_rev(p, ws[i]);
        f.lemma_filter_pred(p, i);
        let k = choose|k: int| 0 <= k < f.len() && f[k] == ws[i];
        assert forall|j: int| 0 <= j < ws[i].len() implies !chars::white(#[trigger] ws[i][j]) by {
            assert(!chars::white(f[k][j]));
        }
    }
}

proof fn lemma_fields_of_a_word(a: Seq<char>, w: Seq<char>)
    requires
        forall|i: int| 0 <= i < w.len() ==> !chars::white(#[trigger] w[i]),
    ensures
        fields(a + w, Class::White) == fields(a, Class::White).drop_last().push(
            fields(a, Class::White).last() + w,
        ),
    decreases w.len(),
{
    let f = fields(a, Class::White);
    if w.len() == 0 {
        assert(a + w =~= a);
        assert(f.last() + w =~= f.last());
        assert(f.drop_last().push(f.last()) =~= f);
    } else {
        let init = w.drop_last();
        lemma_fields_of_a_word(a, init);
        assert((a + w).drop_last() =~= a + init);
        assert((a + w).last() == w.last());
        let g = fields(a + init, Class::White);
        assert(g.drop_last() =~= f.drop_last());
        assert((f.last() + init).push(w.last()) =~= f.last() + w);
        assert(!chars::white(w[w.len() - 1]));
    }
}

/// Words that are joined with spaces are the words of the joined text.
pub proof fn lemma_words_of_joined(ws: Seq<Seq<char>>)
    requires
        all_words(ws),
    ensures
        words(joined(ws, " "@)) == ws,
{
    let p = |w: Seq<char>| filled(w);
    let t = joined(ws, " "@);
    if ws.len() == 0 {
        let f = fields(t, Class::White);
        assert(t =~= Seq::empty());
        assert(f =~= seq![Seq::<char>::empty()]);
        reveal(Seq::filter);
        assert(f.drop_last() =~= Seq::empty());
        assert(f.filter(p) =~= f.drop_last().filter(p));
        assert(words(t) =~= ws);
    } else {
        lemma_fields_of_joined(ws);
        lemma_filter_all(ws);
    }
}

proof fn lemma_filter_all(ws: Seq<Seq<char>>)
    requires
        all_words(ws),
    ensures
        ws.filter(|w: Seq<char>| filled(w)) == ws,
    decreases ws.len(),
{
    let p = |w: Seq<char>| filled(w);
    reveal(Seq::filter);
    if ws.len() > 0 {
        let init = ws.drop_last();
        assert forall|i: int| 0 <= i < init.len() implies word_like(#[trigger] init[i]) by {
            assert(init[i] == ws[i]);
        }
        lemma_filter_all(init);
        assert(word_like(ws[ws.len() - 1]));
        assert(ws =~= init.push(ws.last()));
    }
}

proof fn lemma_fields_of_joined(ws: Seq<Seq<char>>)
    requires
        all_words(ws),
        ws.len() > 0,
    ensures
        fields(joined(ws, " "@), Class::White) == ws,
    decreases ws.len(),
{
    reveal_strlit(" ");
    let w = ws.last();
    assert(word_like(ws[ws.len() - 1]));
    if ws.len() == 1 {
        let e = Seq::<char>::empty();
        lemma_fields_of_a_word(e, w);
        assert(e + w =~= w);
        assert(fields(e, Class::White) =~= seq![e]);
        assert(fields(w, Class::White) =~= seq![w]);
        assert(ws =~= seq![w]);
    } else {
        let init = ws.drop_last();
        assert forall|i: int| 0 <= i < init.len() implies word_like(#[trigger] init[i]) by {
            assert(init[i] == ws[i]);
        }
        lemma_fields_of_joined(init);
        let a = joined(init, " "@);
        let b = a + " "@;
        assert(b.drop_last() =~= a);
        assert(b.last() == ' ');
        assert(fields(b, Class::White) =~= init.push(Seq::empty()));
        lemma_fields_of_a_word(b, w);
        assert(Seq::<char>::empty() + w =~= w);
        assert(fields(b + w, Class::White) =~= init.push(w));
        assert(ws =~= init.push(w));
    }
}

/// A joined text holds no character that neither its parts nor the separator hold.
pub proof fn lemma_joined_free(ws: Seq<Seq<char>>, sep: Seq<char>, c: char)
    requires
        forall|i: int| 0 <= i < ws.len() ==> scan::free_of(#[trigger] ws[i], c),
        scan::free_of(sep, c),
    ensures
        scan::free_of(joined(ws, sep), c),
    decreases ws.len(),
{
    if ws.len() == 1 {
        assert(scan::free_of(ws[0], c));
    } else if ws.len() > 1 {
        let init = ws.drop_last();
        assert forall|i: int| 0 <= i < init.len() implies scan::free_of(#[trigger] init[i], c) by {
            assert(init[i] == ws[i]);
        }
        lemma_joined_free(init, sep, c);
        assert(scan::free_of(ws[ws.len() - 1], c));
        let a = joined(init, sep);
        let r = joined(ws, sep);
        assert forall|i: int| 0 <= i < r.len() implies #[trigger] r[i] != c by {
            if i < a.len() {
                assert(r[i] == a[i]);
            } else if i < a.len() + sep.len() {
                assert(r[i] == sep[i - a.len()]);
            } else {
                assert(r[i] == ws.last()[i - a.len() - sep.len()]);
            }
        }
    }
}

proof fn lemma_fields_free(s: Seq<char>, k: Class, c: char)
    requires
        scan::free_of(s, c),
    ensures
        forall|i: int|
            0 <= i < fields(s, k).len() ==> scan::free_of(#[trigger] fields(s, k)[i], c),
    decreases s.len(),
{
    if s.len() > 0 {
        let init = s.drop_last();
        assert forall|i: int| 0 <= i < init.len() implies #[trigger] init[i] != c by {
            assert(init[i] == s[i]);
        }
        lemma_fields_free(init, k, c);
        lemma_fields_not_empty(init, k);
        let f = fields(init, k);
        let r = fields(s, k);
        assert(s[s.len() - 1] != c);
        assert forall|i: int| 0 <= i < r.len() implies scan::free_of(#[trigger] r[i], c) by {
            if k.has(s.last()) {
                if i < f.len() {
                    assert(r[i] == f[i]);
                }
            } else if i < f.len() - 1 {
                assert(r[i] == f[i]);
            } else {
                assert(scan::free_of(f[f.len() - 1], c));
                assert(r[i] == f.last().push(s.last()));
            }
        }
    }
}

/// The words of a text hold no character that the text does not hold.
pub proof fn lemma_words_free(s: Seq<char>, c: char)
    requires
        scan::free_of(s, c),
    ensures
        forall|i: int| 0 <= i < words(s).len() ==> scan::free_of(#[trigger] words(s)[i], c),
{
    let f = fields(s, Class::White);
    let p = |w: Seq<char>| filled(w);
    lemma_fields_free(s, Class::White, c);
    let ws = f.filter(p);
    assert forall|i: int| 0 <= i < ws.len() implies scan::free_of(#[trigger] ws[i], c) by {
        f.lemma_filter_contains_rev(p, ws[i]);
        let k = choose|k: int| 0 <= k < f.len() && f[k] == ws[i];
        assert(scan::free_of(f[k], c));
    }
}

} // verus!
