//! Decimal numbers in text.

use vstd::prelude::*;

use crate::text::chars;

verus! {

pub open spec fn all_digits(s: Seq<char>) -> bool {
    forall|i: int| 0 <= i < s.len() ==> chars::digit(#[trigger] s[i])
}

/// The number that decimal digits spell.
pub open spec fn value(s: Seq<char>) -> nat
    decreases s.len(),
{
    if s.len() == 0 {
        0
    } else {
        value(s.drop_last()) * 10 + (s.last() as int - '0' as int) as nat
    }
}

/// `s` without one leading plus sign.
pub open spec fn unsigned(s: Seq<char>) -> Seq<char> {
    if s.len() > 0 && s[0] == '+' {
        s.skip(1)
    } else {
        s
    }
}

/// What `str::parse::<u32>` accepts and gives: an optional plus sign and at least one digit,
/// nothing else, of a value that fits.
pub open spec fn number(s: Seq<char>) -> Option<u32> {
    let d = unsigned(s);
    if d.len() > 0 && all_digits(d) && value(d) <= u32::MAX {
        Some(value(d) as u32)
    } else {
        None
    }
}

proof fn lemma_value_grows(s: Seq<char>, n: int)
    requires
        0 <= n <= s.len(),
        all_digits(s),
    ensures
        value(s.take(n)) <= value(s),
    decreases s.len() - n,
{
    if n == s.len() {
        assert(s.take(n) =~= s);
    } else {
        lemma_value_grows(s, n + 1);
        assert(s.take(n + 1).drop_last() =~= s.take(n));
    }
}

pub fn parse_u32(v: &Vec<char>) -> (r: Option<u32>)
    ensures
        r == number(v@),
{
    let mut i: usize = if v.len() > 0 && v[0] == '+' {
        1
    } else {
        0
    };
    let ghost start = i as int;
    let ghost d = unsigned(v@);
    assert(d =~= v@.skip(start));
    if i == v.len() {
        return None;
    }
    let mut n: u64 = 0;
    assert(d.take(0) =~= Seq::<char>::empty());
    while i < v.len()
        invariant
            start <= i <= v.len(),
            0 <= start,
            d == unsigned(v@),
            d == v@.skip(start),
            all_digits(d.take(i - start)),
            n == value(d.take(i - start)),
            n <= u32::MAX,
        decreases v.len() - i,
    {
        let c = v[i];
        assert(c == d[i - start]);
        if !('0' <= c && c <= '9') {
            assert(!all_digits(d));
            return None;
        }
        let x: u64 = c as u64 - '0' as u64;
        let ghost t = d.take(i - start + 1);
        assert(t.drop_last() =~= d.take(i - start));
        assert(all_digits(t)) by {
            assert forall|j: int| 0 <= j < t.len() implies chars::digit(#[trigger] t[j]) by {
                if j < i - start {
                    assert(d.take(i - start)[j] == t[j]);
                }
            }
        }
        n = n * 10 + x;
        i += 1;
        if n > u32::MAX as u64 {
            proof {
                if all_digits(d) {
                    lemma_value_grows(d, i - start);
                }
            }
            return None;
        }
    }
    assert(d.take(i - start) =~= d);
    Some(n as u32)
}

/// The character of a decimal digit.
pub open spec fn digit_char(n: nat) -> char {
    ('0' as int + n % 10) as char
}

/// `n` in decimal, without leading zeros.
pub open spec fn decimal(n: nat) -> Seq<char>
    decreases n,
{
    if n < 10 {
        seq![digit_char(n)]
    } else {
        decimal(n / 10).push(digit_char(n))
    }
}

/// `n` in decimal, at least two digits (`{:02}`).
pub open spec fn two_digits(n: nat) -> Seq<char> {
    if n < 10 {
        seq!['0', digit_char(n)]
    } else {
        decimal(n)
    }
}

fn char_of_digit(x: u64) -> (c: char)
    requires
        x < 10,
    ensures
        c == digit_char(x as nat),
{
    let b: u8 = x as u8 + 48;
    b as char
}

pub fn digits(n: u64) -> (r: Vec<char>)
    ensures
        r@ == decimal(n as nat),
    decreases n,
{
    if n < 10 {
        let mut out: Vec<char> = Vec::new();
        out.push(char_of_digit(n));
        out
    } else {
        let mut out = digits(n / 10);
        out.push(char_of_digit(n % 10));
        out
    }
}

pub fn padded(n: u64) -> (r: Vec<char>)
    ensures
        r@ == two_digits(n as nat),
{
    if n < 10 {
        let mut out: Vec<char> = Vec::new();
        out.push('0');
        out.push(char_of_digit(n));
        out
    } else {
        digits(n)
    }
}

/// An integer in decimal.
pub open spec fn integer(n: int) -> Seq<char> {
    if n < 0 {
        "-"@ + decimal((-n) as nat)
    } else {
        decimal(n as nat)
    }
}

pub fn integer_text(n: i64) -> (r: String)
    ensures
        r@ == integer(n as int),
{
    if n < 0 {
        let mut s = "-".to_string();
        let d = chars::text_of(&digits((-(n as i128)) as u64));
        s.append(d.as_str());
        s
    } else {
        chars::text_of(&digits(n as u64))
    }
}

/// Every decimal numeral is one that `number` reads back.
pub proof fn law_decimal_reads_back(n: nat)
    ensures
        decimal(n).len() > 0,
        all_digits(decimal(n)),
        value(decimal(n)) == n,
    decreases n,
{
    let s = decimal(n);
    if n < 10 {
        assert(s.drop_last() =~= Seq::<char>::empty());
        assert(value(s.drop_last()) == 0);
    } else {
        law_decimal_reads_back(n / 10);
        assert(s.drop_last() =~= decimal(n / 10));
        let t = decimal(n / 10);
        assert forall|i: int| 0 <= i < s.len() implies chars::digit(#[trigger] s[i]) by {
            if i < t.len() {
                assert(s[i] == t[i]);
            }
        }
    }
}

} // verus!
