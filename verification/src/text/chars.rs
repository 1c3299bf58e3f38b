//! Characters: the Unicode properties the parsers rely on, and the way from `str` to characters
//! and back.

use vstd::prelude::*;

verus! {

/// The `White_Space` property of Unicode, which is what `char::is_whitespace` tests.
pub open spec fn white(c: char) -> bool {
    let n = c as int;
    ||| 9 <= n <= 13
    ||| n == 32
    ||| n == 0x85
    ||| n == 0xA0
    ||| n == 0x1680
    ||| 0x2000 <= n <= 0x200A
    ||| n == 0x2028
    ||| n == 0x2029
    ||| n == 0x202F
    ||| n == 0x205F
    ||| n == 0x3000
}

pub fn is_white(c: char) -> (r: bool)
    ensures
        r == white(c),
{
    let n: u32 = c as u32;
    (9 <= n && n <= 13) || n == 32 || n == 0x85 || n == 0xA0 || n == 0x1680 || (0x2000 <= n && n
        <= 0x200A) || n == 0x2028 || n == 0x2029 || n == 0x202F || n == 0x205F || n == 0x3000
}

pub open spec fn ascii_upper(c: char) -> bool {
    'A' <= c <= 'Z'
}

pub open spec fn ascii_lower(c: char) -> bool {
    'a' <= c <= 'z'
}

pub open spec fn digit(c: char) -> bool {
    '0' <= c <= '9'
}

pub open spec fn ascii(s: Seq<char>) -> bool {
    forall|i: int| 0 <= i < s.len() ==> (#[trigger] s[i] as int) < 128
}

/// `char::to_ascii_lowercase`.
pub open spec fn ascii_lowered(c: char) -> char {
    if ascii_upper(c) {
        (c as int + 32) as char
    } else {
        c
    }
}

/// `char::to_ascii_uppercase`.
pub open spec fn ascii_raised(c: char) -> char {
    if ascii_lower(c) {
        (c as int - 32) as char
    } else {
        c
    }
}

pub fn to_ascii_lower(c: char) -> (r: char)
    ensures
        r == ascii_lowered(c),
{
    if 'A' <= c && c <= 'Z' {
        let n: u8 = c as u8;
        (n + 32) as char
    } else {
        c
    }
}

/// Whether a character has Unicode's `Alphabetic` property.
pub uninterp spec fn alphabetic(c: char) -> bool;

/// Whether a character is in one of Unicode's number categories.
pub uninterp spec fn numeric(c: char) -> bool;

/// `str::to_lowercase` of a text.
pub uninterp spec fn lowercase(s: Seq<char>) -> Seq<char>;

/// `char::to_lowercase` of one character.
pub uninterp spec fn lower_of(c: char) -> Seq<char>;

/// `char::to_uppercase` of one character.
pub uninterp spec fn upper_of(c: char) -> Seq<char>;

/// Calls `char::is_alphabetic`. Trusted: the answer depends on the character alone, and of the
/// ASCII characters exactly the letters are alphabetic.
#[verifier::external_body]
pub(crate) fn is_alphabetic(c: char) -> (r: bool)
    ensures
        r == alphabetic(c),
        (c as int) < 128 ==> r == (ascii_lower(c) || ascii_upper(c)),
{
    c.is_alphabetic()
}

/// Calls `char::is_numeric`. Trusted: the answer depends on the character alone, and of the
/// ASCII characters exactly the decimal digits are numeric.
#[verifier::external_body]
pub(crate) fn is_numeric(c: char) -> (r: bool)
    ensures
        r == numeric(c),
        (c as int) < 128 ==> r == digit(c),
{
    c.is_numeric()
}

/// Calls `str::to_lowercase`. Trusted: the result depends on the text alone, and on a text of
/// ASCII characters it lowers each letter and keeps the rest.
#[verifier::external_body]
pub(crate) fn to_lowercase(s: &str) -> (r: String)
    ensures
        r@ == lowercase(s@),
        ascii(s@) ==> r@ == s@.map_values(|c: char| ascii_lowered(c)),
{
    s.to_lowercase()
}

/// Calls `char::to_lowercase`. Trusted: the result depends on the character alone; an ASCII
/// character gives one character.
#[verifier::external_body]
pub(crate) fn lower_char(c: char) -> (r: Vec<char>)
    ensures
        r@ == lower_of(c),
        (c as int) < 128 ==> r@ == seq![ascii_lowered(c)],
{
    c.to_lowercase().collect()
}

/// Calls `char::to_uppercase`. Trusted: the result depends on the character alone; an ASCII
/// character gives one character.
#[verifier::external_body]
pub(crate) fn upper_char(c: char) -> (r: Vec<char>)
    ensures
        r@ == upper_of(c),
        (c as int) < 128 ==> r@ == seq![ascii_raised(c)],
{
    c.to_uppercase().collect()
}

/// `String::push` appends one character.
pub assume_specification[ String::push ](s: &mut String, c: char)
    ensures
        final(s)@ == old(s)@.push(c),
;

/// What `char::is_alphanumeric` tests.
pub open spec fn alphanumeric(c: char) -> bool {
    alphabetic(c) || numeric(c)
}

pub fn is_alphanumeric(c: char) -> (r: bool)
    ensures
        r == alphanumeric(c),
{
    is_alphabetic(c) || is_numeric(c)
}

/// The characters of a text.
pub fn chars_of(s: &str) -> (r: Vec<char>)
    ensures
        r@ == s@,
{
    let mut out: Vec<char> = Vec::new();
    for c in it: s.chars()
        invariant
            out@ == it.seq().take(it.index()),
    {
        out.push(c);
    }
    out
}

/// The text made of `v`.
pub fn text_of(v: &Vec<char>) -> (r: String)
    ensures
        r@ == v@,
{
    let mut out = String::new();
    let mut i: usize = 0;
    while i < v.len()
        invariant
            i <= v.len(),
            out@ == v@.take(i as int),
        decreases v.len() - i,
    {
        out.push(v[i]);
        i += 1;
    }
    out
}

/// The characters of `s` in lower case.
pub fn lowered(s: &str) -> (r: Vec<char>)
    ensures
        r@ == lowercase(s@),
        ascii(s@) ==> r@ == s@.map_values(|c: char| ascii_lowered(c)),
{
    let l = to_lowercase(s);
    chars_of(l.as_str())
}

/// Whether two texts are the same.
pub fn same(a: &str, b: &str) -> (r: bool)
    ensures
        r == (a@ == b@),
{
    same_chars(&chars_of(a), &chars_of(b))
}

pub fn same_chars(x: &Vec<char>, y: &Vec<char>) -> (r: bool)
    ensures
        r == (x@ == y@),
{
    if x.len() != y.len() {
        return false;
    }
    let mut i: usize = 0;
    while i < x.len()
        invariant
            i <= x.len(),
            x.len() == y.len(),
            x@.take(i as int) == y@.take(i as int),
        decreases x.len() - i,
    {
        if x[i] != y[i] {
            assert(x@[i as int] != y@[i as int]);
            return false;
        }
        assert(x@.take(i + 1) =~= x@.take(i as int).push(x@[i as int]));
        assert(y@.take(i + 1) =~= y@.take(i as int).push(y@[i as int]));
        i += 1;
    }
    assert(x@.take(x.len() as int) =~= x@);
    assert(y@.take(y.len() as int) =~= y@);
    true
}

/// Whether the characters `v` spell `s`.
pub fn spells(v: &Vec<char>, s: &str) -> (r: bool)
    ensures
        r == (v@ == s@),
{
    same_chars(v, &chars_of(s))
}

/// A class of characters, as a separator or as what is trimmed.
#[derive(Clone, Copy)]
pub enum Class {
    White,
    One(char),
    Two(char, char),
    Three(char, char, char),
    Alphabetic,
    NotAlphanumeric,
}

impl Class {
    pub open spec fn has(self, c: char) -> bool {
        match self {
            Class::White => white(c),
            Class::One(a) => c == a,
            Class::Two(a, b) => c == a || c == b,
            Class::Three(a, b, d) => c == a || c == b || c == d,
            Class::Alphabetic => alphabetic(c),
            Class::NotAlphanumeric => !alphanumeric(c),
        }
    }

    pub fn holds(self, c: char) -> (r: bool)
        ensures
            r == self.has(c),
    {
        match self {
            Class::White => is_white(c),
            Class::One(a) => c == a,
            Class::Two(a, b) => c == a || c == b,
            Class::Three(a, b, d) => c == a || c == b || c == d,
            Class::Alphabetic => is_alphabetic(c),
            Class::NotAlphanumeric => !is_alphanumeric(c),
        }
    }
}

/// Bytes that a character takes in UTF-8.
pub open spec fn width(c: char) -> nat {
    let n = c as int;
    if n < 0x80 {
        1
    } else if n < 0x800 {
        2
    } else if n < 0x10000 {
        3
    } else {
        4
    }
}

pub fn width_of(c: char) -> (r: u128)
    ensures
        r == width(c),
{
    let n: u32 = c as u32;
    if n < 0x80 {
        1
    } else if n < 0x800 {
        2
    } else if n < 0x10000 {
        3
    } else {
        4
    }
}

/// Bytes that a text takes in UTF-8, which is what `str::len` counts.
pub open spec fn byte_len(s: Seq<char>) -> nat
    decreases s.len(),
{
    if s.len() == 0 {
        0
    } else {
        byte_len(s.drop_last()) + width(s.last())
    }
}

pub fn bytes_of(v: &Vec<char>) -> (r: u128)
    ensures
        r == byte_len(v@),
{
    let mut n: u128 = 0;
    let mut i: usize = 0;
    while i < v.len()
        invariant
            i <= v.len(),
            n == byte_len(v@.take(i as int)),
            n <= 4 * i,
        decreases v.len() - i,
    {
        assert(v@.take(i + 1).drop_last() =~= v@.take(i as int));
        n = n + width_of(v[i]);
        i += 1;
    }
    assert(v@.take(v.len() as int) =~= v@);
    n
}

/// The suffix of `s` that takes `n` bytes, where one starts between two characters.
pub open spec fn byte_suffix(s: Seq<char>, n: int) -> Option<Seq<char>>
    decreases s.len(),
{
    if n == 0 {
        Some(Seq::empty())
    } else if n < 0 || s.len() == 0 {
        None
    } else {
        match byte_suffix(s.drop_last(), n - width(s.last())) {
            Some(p) => Some(p.push(s.last())),
            None => None,
        }
    }
}

/// The suffix of `v` that takes `n` bytes.
pub fn suffix_of_bytes(v: &Vec<char>, n: u128) -> (r: Option<Vec<char>>)
    ensures
        r is Some <==> byte_suffix(v@, n as int) is Some,
        r matches Some(t) ==> byte_suffix(v@, n as int) == Some(t@),
{
    let mut k: usize = v.len();
    let mut left: u128 = n;
    proof {
        assert(v@.take(k as int) =~= v@);
        assert(v@.subrange(k as int, v@.len() as int) =~= Seq::<char>::empty());
        match byte_suffix(v@, n as int) {
            Some(p) => {
                assert(p + Seq::<char>::empty() =~= p);
            },
            None => {},
        }
    }
    while left > 0 && k > 0
        invariant
            k <= v.len(),
            match byte_suffix(v@.take(k as int), left as int) {
                Some(p) => byte_suffix(v@, n as int) == Some(
                    p + v@.subrange(k as int, v@.len() as int),
                ),
                None => byte_suffix(v@, n as int) is None,
            },
        decreases k,
    {
        let w = width_of(v[k - 1]);
        let ghost s = v@.take(k as int);
        assert(s.drop_last() =~= v@.take(k - 1));
        assert(s.last() == v@[k - 1]);
        if w > left {
            assert(byte_suffix(s.drop_last(), left - width(s.last())) is None);
            return None;
        }
        proof {
            match byte_suffix(s.drop_last(), left - width(s.last())) {
                Some(p) => {
                    assert(p.push(s.last()) + v@.subrange(k as int, v@.len() as int) =~= p
                        + v@.subrange(k - 1, v@.len() as int));
                },
                None => {},
            }
        }
        left = left - w;
        k = k - 1;
    }
    if left > 0 {
        return None;
    }
    assert(Seq::<char>::empty() + v@.subrange(k as int, v@.len() as int) =~= v@.subrange(
        k as int,
        v@.len() as int,
    ));
    Some(crate::text::scan::sub_text(v, k, v.len()))
}

} // verus!
