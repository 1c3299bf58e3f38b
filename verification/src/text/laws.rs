//! What the vocabulary of texts means, in terms of how texts are put together.

use vstd::prelude::*;

use crate::text::chars;
use crate::text::chars::Class;
use crate::text::number;
use crate::text::order;
use crate::text::order::KeyView;
use crate::text::pieces;
use crate::text::scan;

verus! {

// ---- parts of texts ----

/// A text starts, ends with, and holds the parts that it is made of.
pub proof fn law_parts_are_found(a: Seq<char>, p: Seq<char>, b: Seq<char>)
    ensures
        scan::starts(p + b, p),
        scan::ends(a + p, p),
        scan::within(a + p + b, p),
        scan::after(p + b, p) == Some(b),
        scan::before(a + p, p) == Some(a),
{
    let n = a.len() as int;
    assert((p + b).subrange(0, p.len() as int) =~= p);
    assert((a + p).subrange(n, n + p.len()) =~= p);
    assert((a + p + b).subrange(n, n + p.len()) =~= p);
    assert(scan::at(a + p + b, n, p));
    assert((p + b).skip(p.len() as int) =~= b);
    assert((a + p).take(n) =~= a);
}

/// A text that starts with, ends with or holds a part is made of it and what is around it.
pub proof fn law_found_parts_are_parts(s: Seq<char>, p: Seq<char>)
    ensures
        scan::starts(s, p) ==> s == p + s.skip(p.len() as int),
        scan::ends(s, p) ==> s == s.take(s.len() - p.len()) + p,
        scan::within(s, p) ==> exists|i: int|
            0 <= i <= s.len() - p.len() && s == #[trigger] s.take(i) + p + s.skip(i + p.len()),
{
    if scan::starts(s, p) {
        assert(s =~= p + s.skip(p.len() as int));
    }
    if scan::ends(s, p) {
        assert(s =~= s.take(s.len() - p.len()) + p);
    }
    if scan::within(s, p) {
        let i = choose|i: int| scan::at(s, i, p);
        assert(s =~= s.take(i) + p + s.skip(i + p.len()));
    }
}

/// A text is cut at the first place where the separator stands, and not where it does not.
pub proof fn law_cutting(s: Seq<char>, p: Seq<char>)
    ensures
        scan::cut(s, p) is Some <==> scan::within(s, p),
        scan::cut(s, p) matches Some((a, b)) ==> s == a + p + b && forall|j: int|
            0 <= j < a.len() ==> !#[trigger] scan::at(s, j, p),
{
    if scan::within(s, p) {
        let i = choose|i: int| scan::at(s, i, p);
        lemma_first(s, p, i);
        let k = choose|k: int| scan::first_at(s, k, p);
        assert(scan::first_at(s, k, p));
        assert(s =~= s.take(k) + p + s.skip(k + p.len()));
    }
}

proof fn lemma_first(s: Seq<char>, p: Seq<char>, i: int)
    requires
        scan::at(s, i, p),
    ensures
        exists|k: int| scan::first_at(s, k, p),
    decreases i,
{
    if exists|j: int| j < i && scan::at(s, j, p) {
        let j = choose|j: int| j < i && scan::at(s, j, p);
        lemma_first(s, p, j);
    } else {
        assert(scan::first_at(s, i, p));
    }
}

/// A text is cut at its first character of a class.
pub proof fn law_cutting_at_a_class(a: Seq<char>, c: char, b: Seq<char>, k: Class)
    requires
        k.has(c),
        forall|i: int| 0 <= i < a.len() ==> !k.has(#[trigger] a[i]),
    ensures
        scan::cut_by(a + seq![c] + b, k) == Some((a, b)),
        scan::cut_by(a, k) is None,
{
    let s = a + seq![c] + b;
    let n = a.len() as int;
    assert forall|j: int| 0 <= j < n implies !k.has(#[trigger] s[j]) by {
        assert(s[j] == a[j]);
    }
    assert(s[n] == c);
    assert(scan::first_of(s, n, k));
    let i = choose|i: int| scan::first_of(s, i, k);
    assert(scan::first_of(s, i, k));
    if i < n {
        assert(!k.has(s[i]));
    }
    if n < i {
        assert(!k.has(s[n]));
    }
    assert(s.take(n) =~= a);
    assert(s.skip(n + 1) =~= b);
    assert forall|j: int| !scan::first_of(a, j, k) by {
        if 0 <= j < a.len() {
            assert(!k.has(a[j]));
        }
    }
}

proof fn lemma_drop_start(w: Seq<char>, t: Seq<char>, k: Class)
    requires
        forall|i: int| 0 <= i < w.len() ==> k.has(#[trigger] w[i]),
        t.len() == 0 || !k.has(t[0]),
    ensures
        scan::drop_start(w + t, k) == t,
    decreases w.len(),
{
    let s = w + t;
    if w.len() == 0 {
        assert(s =~= t);
    } else {
        assert(s[0] == w[0]);
        assert(s.skip(1) =~= w.skip(1) + t);
        assert(forall|i: int| 0 <= i < w.skip(1).len() ==> w.skip(1)[i] == w[i + 1]);
        lemma_drop_start(w.skip(1), t, k);
    }
}

proof fn lemma_drop_end(t: Seq<char>, w: Seq<char>, k: Class)
    requires
        forall|i: int| 0 <= i < w.len() ==> k.has(#[trigger] w[i]),
        t.len() == 0 || !k.has(t.last()),
    ensures
        scan::drop_end(t + w, k) == t,
    decreases w.len(),
{
    let s = t + w;
    if w.len() == 0 {
        assert(s =~= t);
    } else {
        assert(s.last() == w[w.len() - 1]);
        assert(s.drop_last() =~= t + w.drop_last());
        lemma_drop_end(t, w.drop_last(), k);
    }
}

/// Dropping a class at the start or at the end drops all of its characters there, and no other.
pub proof fn law_dropping(w: Seq<char>, t: Seq<char>, k: Class)
    requires
        forall|i: int| 0 <= i < w.len() ==> k.has(#[trigger] w[i]),
    ensures
        t.len() == 0 || !k.has(t[0]) ==> scan::drop_start(w + t, k) == t,
        t.len() == 0 || !k.has(t.last()) ==> scan::drop_end(t + w, k) == t,
{
    if t.len() == 0 || !k.has(t[0]) {
        lemma_drop_start(w, t, k);
    }
    if t.len() == 0 || !k.has(t.last()) {
        lemma_drop_end(t, w, k);
    }
}

/// Trimming drops the white space around a text, and none inside it.
pub proof fn law_trimming(v: Seq<char>, t: Seq<char>, w: Seq<char>)
    requires
        forall|i: int| 0 <= i < v.len() ==> chars::white(#[trigger] v[i]),
        forall|i: int| 0 <= i < w.len() ==> chars::white(#[trigger] w[i]),
        t.len() > 0 ==> !chars::white(t[0]) && !chars::white(t.last()),
    ensures
        scan::trimmed(v + t + w) == t,
{
    let k = Class::White;
    if t.len() > 0 {
        lemma_drop_start(v, t + w, k);
        assert(v + (t + w) =~= v + t + w);
        lemma_drop_end(t, w, k);
    } else {
        let s = v + t + w;
        assert forall|i: int| 0 <= i < s.len() implies k.has(#[trigger] s[i]) by {
            if i < v.len() {
                assert(s[i] == v[i]);
            } else {
                assert(s[i] == w[i - v.len()]);
            }
        }
        lemma_drop_start(s, t, k);
        assert(s + t =~= s);
    }
}

/// Every repetition of a prefix, or of a suffix, is dropped.
pub proof fn law_dropping_repetitions(p: Seq<char>, t: Seq<char>)
    requires
        p.len() > 0,
    ensures
        scan::drop_prefixes(p + t, p) == scan::drop_prefixes(t, p),
        scan::drop_suffixes(t + p, p) == scan::drop_suffixes(t, p),
        !scan::starts(t, p) ==> scan::drop_prefixes(t, p) == t,
        !scan::ends(t, p) ==> scan::drop_suffixes(t, p) == t,
{
    law_parts_are_found(t, p, t);
    assert((p + t).skip(p.len() as int) =~= t);
    assert((t + p).take(t.len() as int) =~= t);
}

// ---- fields, words and lines ----

proof fn lemma_field_grows(a: Seq<char>, b: Seq<char>, k: Class)
    requires
        forall|i: int| 0 <= i < b.len() ==> !k.has(#[trigger] b[i]),
    ensures
        pieces::fields(a + b, k) == pieces::fields(a, k).drop_last().push(
            pieces::fields(a, k).last() + b,
        ),
    decreases b.len(),
{
    pieces::lemma_fields_not_empty(a, k);
    let f = pieces::fields(a, k);
    if b.len() == 0 {
        assert(a + b =~= a);
        assert(f.last() + b =~= f.last());
        assert(f.drop_last().push(f.last()) =~= f);
    } else {
        let init = b.drop_last();
        lemma_field_grows(a, init, k);
        let s = a + b;
        assert(s.drop_last() =~= a + init);
        assert(s.last() == b[b.len() - 1]);
        let g = f.drop_last().push(f.last() + init);
        assert(g.drop_last() =~= f.drop_last());
        assert((f.last() + init).push(b.last()) =~= f.last() + b);
    }
}

/// Each separator starts a field, with what follows up to the next; a text without a separator is
/// one field.
pub proof fn law_separators_start_fields(a: Seq<char>, c: char, b: Seq<char>, k: Class)
    requires
        k.has(c),
        forall|i: int| 0 <= i < b.len() ==> !k.has(#[trigger] b[i]),
    ensures
        pieces::fields(b, k) == seq![b],
        pieces::fields(a + seq![c] + b, k) == pieces::fields(a, k).push(b),
{
    let none = Seq::<char>::empty();
    lemma_field_grows(none, b, k);
    assert(none + b =~= b);
    assert(pieces::fields(none, k) =~= seq![none]);
    assert(seq![none].drop_last() =~= Seq::<Seq<char>>::empty());
    assert(pieces::fields(b, k) =~= seq![b]);
    let s = a + seq![c];
    assert(s.drop_last() =~= a);
    assert(s.last() == c);
    assert(pieces::fields(s, k) == pieces::fields(a, k).push(none));
    lemma_field_grows(s, b, k);
    assert(pieces::fields(s, k).drop_last() =~= pieces::fields(a, k));
}

/// The words of a text are its fields between white space that hold a character.
pub proof fn law_words_are_filled_fields(a: Seq<char>, c: char, w: Seq<char>)
    requires
        chars::white(c),
        forall|i: int| 0 <= i < w.len() ==> !chars::white(#[trigger] w[i]),
    ensures
        w.len() > 0 ==> pieces::words(a + seq![c] + w) == pieces::words(a).push(w),
        w.len() > 0 ==> pieces::words(w) == seq![w],
        w.len() == 0 ==> pieces::words(a + seq![c] + w) == pieces::words(a),
        w.len() == 0 ==> pieces::words(w).len() == 0,
{
    reveal(Seq::filter);
    let k = Class::White;
    assert forall|i: int| 0 <= i < w.len() implies !k.has(#[trigger] w[i]) by {
        assert(!chars::white(w[i]));
    }
    law_separators_start_fields(a, c, w, k);
    assert(pieces::fields(a, k).push(w).drop_last() =~= pieces::fields(a, k));
    assert(seq![w].drop_last() =~= Seq::<Seq<char>>::empty());
    let f = |x: Seq<char>| pieces::filled(x);
    assert(Seq::<Seq<char>>::empty().filter(f) =~= Seq::<Seq<char>>::empty());
    if w.len() > 0 {
        assert(Seq::<Seq<char>>::empty().push(w) =~= seq![w]);
    }
}

/// Joined texts stand in order, with the separator between neighbours only.
pub proof fn law_joining(list: Seq<Seq<char>>, x: Seq<char>, sep: Seq<char>)
    ensures
        pieces::joined(Seq::empty(), sep).len() == 0,
        list.len() == 0 ==> pieces::joined(list.push(x), sep) == x,
        list.len() > 0 ==> pieces::joined(list.push(x), sep) == pieces::joined(list, sep) + sep
            + x,
{
    assert(list.push(x).drop_last() =~= list);
}

/// A text without the first character of a pattern has nothing replaced.
pub proof fn law_nothing_is_replaced(s: Seq<char>, p: Seq<char>, q: Seq<char>)
    requires
        p.len() > 0,
        scan::free_of(s, p[0]),
    ensures
        pieces::replaced(s, p, q) == s,
    decreases s.len(),
{
    if s.len() > 0 {
        if scan::starts(s, p) {
            assert(s.subrange(0, p.len() as int)[0] == s[0]);
        }
        let t = s.skip(1);
        assert forall|i: int| 0 <= i < t.len() implies #[trigger] t[i] != p[0] by {
            assert(t[i] == s[i + 1]);
        }
        law_nothing_is_replaced(t, p, q);
        assert(seq![s[0]] + t =~= s);
    }
}

/// Every occurrence of a pattern is replaced, from the left, and nothing else.
pub proof fn law_occurrences_are_replaced(
    a: Seq<char>,
    p: Seq<char>,
    b: Seq<char>,
    q: Seq<char>,
)
    requires
        p.len() > 0,
        scan::free_of(a, p[0]),
    ensures
        pieces::replaced(a + p + b, p, q) == a + q + pieces::replaced(b, p, q),
    decreases a.len(),
{
    let s = a + p + b;
    let r = pieces::replaced(b, p, q);
    if a.len() == 0 {
        assert(s.subrange(0, p.len() as int) =~= p);
        assert(s.skip(p.len() as int) =~= b);
        assert(a + q + r =~= q + r);
    } else {
        if scan::starts(s, p) {
            assert(s.subrange(0, p.len() as int)[0] == s[0]);
        }
        let t = a.skip(1);
        assert forall|i: int| 0 <= i < t.len() implies #[trigger] t[i] != p[0] by {
            assert(t[i] == a[i + 1]);
        }
        law_occurrences_are_replaced(t, p, b, q);
        assert(s.skip(1) =~= t + p + b);
        assert(seq![s[0]] + (t + q + r) =~= a + q + r);
    }
}

/// A line feed ends a line, with a carriage return before it or without; the end of a text ends its
/// last line, where there is one.
pub proof fn law_lines(a: Seq<char>, b: Seq<char>)
    requires
        scan::free_of(a, '\n'),
        scan::free_of(b, '\n'),
        a.len() == 0 || a.last() != '\r',
        b.len() > 0,
    ensures
        pieces::lines_of(b) == seq![b],
        pieces::lines_of(a + "\n"@ + b) == seq![a, b],
        pieces::lines_of(a + "\r\n"@ + b) == seq![a, b],
        pieces::lines_of(b + "\n"@) == seq![
            if b.last() == '\r' {
                b.drop_last()
            } else {
                b
            },
        ],
        pieces::lines_of(Seq::empty()).len() == 0,
{
    reveal_strlit("\n");
    reveal_strlit("\r\n");
    let k = Class::One('\n');
    let none = Seq::<char>::empty();
    assert("\n"@ =~= seq!['\n']);
    let r = a.push('\r');
    assert(a + "\r\n"@ + b =~= r + seq!['\n'] + b);
    assert(b + "\n"@ =~= b + seq!['\n'] + none);
    law_separators_start_fields(none, '\n', a, k);
    law_separators_start_fields(none, '\n', b, k);
    law_separators_start_fields(none, '\n', r, k);
    law_separators_start_fields(a, '\n', b, k);
    law_separators_start_fields(r, '\n', b, k);
    law_separators_start_fields(b, '\n', none, k);
    assert(seq![a].push(b) =~= seq![a, b]);
    assert(seq![r].push(b) =~= seq![r, b]);
    assert(seq![b].push(none) =~= seq![b, none]);
    assert(r.drop_last() =~= a);
    assert(pieces::lines_of(b) =~= seq![b]);
    assert(pieces::lines_of(a + "\n"@ + b) =~= seq![a, b]);
    assert(pieces::lines_of(a + "\r\n"@ + b) =~= seq![a, b]);
    let last = if b.last() == '\r' {
        b.drop_last()
    } else {
        b
    };
    assert(pieces::lines_of(b + "\n"@) =~= seq![last]);
    assert(pieces::fields(none, k) =~= seq![none]);
}

/// A capital takes the place of the first character; the rest stays.
pub proof fn law_capitals(c: char, rest: Seq<char>)
    ensures
        pieces::capital(seq![c] + rest) == chars::upper_of(c) + rest,
        pieces::capital(Seq::empty()).len() == 0,
{
    let w = seq![c] + rest;
    assert(w.skip(1) =~= rest);
}

/// The first of a sequence, as many as are asked for and there.
pub proof fn law_at_most<T>(s: Seq<T>, n: int, i: int)
    requires
        n >= 0,
    ensures
        pieces::at_most(s, n).len() == if s.len() < n {
            s.len() as int
        } else {
            n
        },
        0 <= i < pieces::at_most(s, n).len() ==> pieces::at_most(s, n)[i] == s[i],
{
}

// ---- numbers ----

/// A digit behind a number makes it ten times as large and adds itself.
pub proof fn law_digits_behind_digits(s: Seq<char>, d: nat)
    requires
        d < 10,
    ensures
        number::value(s.push(number::digit_char(d))) == 10 * number::value(s) + d,
        number::digit_char(d) as int == '0' as int + d,
        number::value(Seq::<char>::empty()) == 0,
{
    assert(s.push(number::digit_char(d)).drop_last() =~= s);
}

/// A text is a number exactly where it is digits, at least one, with or without one plus sign
/// before them, of a value that fits; it is that value.
pub proof fn law_what_is_a_number(s: Seq<char>)
    ensures
        number::number(s) is Some <==> {
            ||| s.len() > 0 && number::all_digits(s) && number::value(s) <= 0xffff_ffff
            ||| s.len() > 1 && s[0] == '+' && number::all_digits(s.skip(1)) && number::value(
                s.skip(1),
            ) <= 0xffff_ffff
        },
        number::number(s) matches Some(n) ==> n == if s[0] == '+' {
            number::value(s.skip(1))
        } else {
            number::value(s)
        },
{
    if s.len() > 0 && s[0] == '+' {
        if number::all_digits(s) {
            assert(chars::digit(s[0]));
        }
    }
}

/// A number in decimal has no leading zero, and a negative one a minus sign.
pub proof fn law_decimals(n: nat)
    ensures
        number::value(number::decimal(n)) == n,
        number::decimal(n).len() > 1 ==> number::decimal(n)[0] != '0',
        number::integer(n as int) == number::decimal(n),
        n > 0 ==> number::integer(-(n as int)) == "-"@ + number::decimal(n),
    decreases n,
{
    number::law_decimal_reads_back(n);
    if n >= 10 {
        law_decimals(n / 10);
        if n / 10 < 10 {
            assert(number::decimal(n / 10)[0] == number::digit_char(n / 10));
        } else {
            number::law_decimal_reads_back(n / 10 / 10);
        }
        assert(number::decimal(n)[0] == number::decimal(n / 10)[0]);
    }
}

/// Two digits are at least two: a number under ten has a zero before it, and no other has.
pub proof fn law_two_digits(n: nat)
    ensures
        n < 10 ==> number::two_digits(n) == seq!['0'] + number::decimal(n),
        n >= 10 ==> number::two_digits(n) == number::decimal(n),
{
    if n < 10 {
        assert(number::two_digits(n) =~= seq!['0'] + number::decimal(n));
    }
}

// ---- characters ----

/// A text takes as many bytes as its parts together; an ASCII character takes one, and none takes
/// more than four.
pub proof fn law_bytes(a: Seq<char>, b: Seq<char>, c: char)
    ensures
        chars::byte_len(a + b) == chars::byte_len(a) + chars::byte_len(b),
        chars::byte_len(seq![c]) == chars::width(c),
        chars::byte_len(Seq::<char>::empty()) == 0,
        chars::width(c) == 1 <==> (c as int) <= 127,
        chars::width(c) <= 2 <==> (c as int) <= 2047,
        chars::width(c) <= 3 <==> (c as int) <= 65535,
        1 <= chars::width(c) <= 4,
    decreases b.len(),
{
    assert(seq![c].drop_last() =~= Seq::<char>::empty());
    assert(seq![c].last() == c);
    assert(chars::byte_len(seq![c].drop_last()) == 0);
    if b.len() == 0 {
        assert(a + b =~= a);
    } else {
        law_bytes(a, b.drop_last(), c);
        assert((a + b).drop_last() =~= a + b.drop_last());
    }
}

/// The end of a text that takes as many bytes as its last part is its last part.
pub proof fn law_ends_by_bytes(a: Seq<char>, b: Seq<char>)
    ensures
        chars::byte_suffix(a + b, chars::byte_len(b) as int) == Some(b),
    decreases b.len(),
{
    if b.len() == 0 {
        assert(b =~= Seq::<char>::empty());
    } else {
        let init = b.drop_last();
        law_ends_by_bytes(a, init);
        assert((a + b).drop_last() =~= a + init);
        assert((a + b).last() == b.last());
        assert(init.push(b.last()) =~= b);
    }
}

/// Of the ASCII characters, the space and those from the tab to the carriage return are white.
pub proof fn law_white_space(c: char)
    requires
        (c as int) < 128,
    ensures
        chars::white(c) <==> c == ' ' || c == '\t' || c == '\n' || c == '\r' || c as int == 11 || c
            as int == 12,
{
}

/// Lowering and raising letters undo each other, and leave every other character alone.
pub proof fn law_ascii_cases(c: char)
    ensures
        'A' <= c <= 'Z' ==> chars::ascii_lowered(c) as int == c as int + 32,
        !('A' <= c <= 'Z') ==> chars::ascii_lowered(c) == c,
        'a' <= c <= 'z' ==> chars::ascii_raised(c) as int == c as int - 32,
        !('a' <= c <= 'z') ==> chars::ascii_raised(c) == c,
        'A' <= c <= 'Z' ==> chars::ascii_raised(chars::ascii_lowered(c)) == c,
{
}

// ---- order ----

/// The first characters that differ order two texts, and a text comes before what it starts.
pub proof fn law_texts_are_ordered(p: Seq<char>, x: char, a: Seq<char>, y: char, b: Seq<char>)
    ensures
        x != y ==> (order::before(p + seq![x] + a, p + seq![y] + b) <==> (x as int) < (y as int)),
        order::before(p, p + seq![x] + a),
        !order::before(p + seq![x] + a, p),
    decreases p.len(),
{
    let s = p + seq![x] + a;
    let t = p + seq![y] + b;
    if p.len() == 0 {
        assert(s[0] == x && t[0] == y);
    } else {
        let q = p.skip(1);
        law_texts_are_ordered(q, x, a, y, b);
        assert(s.skip(1) =~= q + seq![x] + a);
        assert(t.skip(1) =~= q + seq![y] + b);
        assert(s[0] == p[0] && t[0] == p[0]);
    }
}

/// Keys are ordered by their texts, and those of the same text by their numbers.
pub proof fn law_keys_are_ordered(a: KeyView, b: KeyView)
    ensures
        order::before(a.text, b.text) ==> order::key_before(a, b),
        a.text == b.text ==> (order::key_before(a, b) <==> a.number < b.number),
        order::before(b.text, a.text) ==> !order::key_before(a, b),
{
    order::lemma_irreflexive(a.text);
    if order::before(b.text, a.text) && order::before(a.text, b.text) {
        order::lemma_transitive(a.text, b.text, a.text);
    }
    if order::before(b.text, a.text) && a.text == b.text {
        order::lemma_irreflexive(b.text);
    }
}

/// The characters of each class: those it lists, and no others.
pub proof fn law_classes(c: char, x: char, y: char, z: char)
    ensures
        Class::One(x).has(c) <==> seq![x].contains(c),
        Class::Two(x, y).has(c) <==> seq![x, y].contains(c),
        Class::Three(x, y, z).has(c) <==> seq![x, y, z].contains(c),
        Class::White.has(c) <==> chars::white(c),
        Class::Alphabetic.has(c) <==> chars::alphabetic(c),
        Class::NotAlphanumeric.has(c) <==> !chars::alphabetic(c) && !chars::numeric(c),
{
    assert(seq![x][0] == x);
    assert(seq![x, y][0] == x && seq![x, y][1] == y);
    assert(seq![x, y, z][0] == x && seq![x, y, z][1] == y && seq![x, y, z][2] == z);
}

} // verus!
