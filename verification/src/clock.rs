//! Moments and identifiers: what the machine says, not what the rules decide.

use vstd::prelude::*;

verus! {

/// A moment: Unix time in seconds, and the nanoseconds of the second.
#[derive(Clone, Copy, Debug, PartialEq, Eq, Structural)]
pub struct Timestamp {
    pub secs: i64,
    pub nanos: u32,
}

impl Timestamp {
    /// A number by which moments are ordered: by the second, then by the nanosecond, of which a
    /// leap second has more than others.
    pub open spec fn instant(self) -> int {
        self.secs * 0x1_0000_0000 + self.nanos
    }

    pub fn order_key(&self) -> (r: i128)
        ensures
            r == self.instant(),
    {
        self.secs as i128 * 0x1_0000_0000 + self.nanos as i128
    }
}

/// Calls `chrono::Utc::now`, then `DateTime::timestamp` and `DateTime::timestamp_subsec_nanos`.
/// Trusted: the moment is not before the start of Unix time, and the nanoseconds are less than a
/// second. Which moment it is depends on the machine.
#[verifier::external_body]
pub(crate) fn now() -> (r: Timestamp)
    ensures
        r.secs >= 0,
        r.nanos < 1_000_000_000,
{
    let now = chrono::Utc::now();
    Timestamp { secs: now.timestamp(), nanos: now.timestamp_subsec_nanos() }
}

/// The bits of a random identifier that are not random: version 4, variant 2.
pub open spec fn random_id(n: u128) -> bool {
    (n as int / 0x10000000000000000000) % 16 == 4 && (n as int / 0x4000000000000000) % 4 == 2
}

/// Calls `uuid::Uuid::new_v4` and `Uuid::as_u128`. Trusted: the version and variant bits are those
/// of a random identifier. The other bits are chance.
#[verifier::external_body]
pub(crate) fn fresh_id() -> (r: u128)
    ensures
        random_id(r),
{
    uuid::Uuid::new_v4().as_u128()
}

pub open spec fn hex(c: char) -> bool {
    '0' <= c <= '9' || 'a' <= c <= 'f'
}

/// The written form of an identifier: lower-case hexadecimal digits in five groups.
pub open spec fn hyphenated(s: Seq<char>) -> bool {
    &&& s.len() == 36
    &&& forall|i: int|
        0 <= i < 36 ==> if i == 8 || i == 13 || i == 18 || i == 23 {
            #[trigger] s[i] == '-'
        } else {
            hex(s[i])
        }
}

/// The written form of a random identifier: its digits of version and variant are fixed.
pub open spec fn random_id_text(s: Seq<char>) -> bool {
    &&& hyphenated(s)
    &&& s[14] == '4'
    &&& s[19] == '8' || s[19] == '9' || s[19] == 'a' || s[19] == 'b'
}

/// Calls `uuid::Uuid::new_v4` and writes the identifier with `to_string`. Trusted: the text is a
/// random identifier in its hyphenated form, with the digits of its version and variant. The other
/// digits are chance.
#[verifier::external_body]
pub(crate) fn fresh_id_text() -> (r: String)
    ensures
        random_id_text(r@),
{
    uuid::Uuid::new_v4().to_string()
}

} // verus!
