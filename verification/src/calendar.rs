//! Dates of the proleptic Gregorian calendar, as day numbers.

use vstd::prelude::*;

verus! {

/// The first and the last year of the calendar.
pub const FIRST_YEAR: i32 = -262143;

pub const LAST_YEAR: i32 = 262142;

pub open spec fn leap(y: int) -> bool {
    y % 4 == 0 && (y % 100 != 0 || y % 400 == 0)
}

pub open spec fn month_length(y: int, m: int) -> int {
    if m == 4 || m == 6 || m == 9 || m == 11 {
        30
    } else if m == 2 {
        if leap(y) {
            29
        } else {
            28
        }
    } else {
        31
    }
}

/// Days of year `y` before its month `m`.
pub open spec fn before_month(y: int, m: int) -> int
    decreases m,
{
    if m <= 1 {
        0
    } else {
        before_month(y, m - 1) + month_length(y, m - 1)
    }
}

/// The number of the last day before year `y`, where the first of January of year 1 is day 1.
pub open spec fn before_year(y: int) -> int {
    365 * (y - 1) + (y - 1) / 4 - (y - 1) / 100 + (y - 1) / 400
}

/// The calendar has such a day.
pub open spec fn exists_date(y: int, m: int, d: int) -> bool {
    &&& FIRST_YEAR <= y <= LAST_YEAR
    &&& 1 <= m <= 12
    &&& 1 <= d <= month_length(y, m)
}

pub open spec fn day_number(y: int, m: int, d: int) -> int {
    before_year(y) + before_month(y, m) + d
}

/// The calendar has a day of this number.
pub open spec fn in_calendar(n: int) -> bool {
    before_year(FIRST_YEAR as int) < n <= before_year(LAST_YEAR + 1)
}

/// Day `n` is in year `y`.
pub open spec fn year_has(y: int, n: int) -> bool {
    before_year(y) < n <= before_year(y + 1)
}

/// A day, by its number.
#[derive(Clone, Copy, Debug, PartialEq, Eq, Structural)]
pub struct Date {
    pub number: i32,
}

impl Date {
    pub open spec fn valid(self) -> bool {
        in_calendar(self.number as int)
    }
}

/// Calls `chrono::NaiveDate::from_ymd_opt` and `Datelike::num_days_from_ce`. Trusted: exactly the
/// dates of the calendar within its years are accepted, and a date's number is the count of days
/// from the first of January of year 1, which is day 1.
#[verifier::external_body]
fn number_of(year: i32, month: u32, day: u32) -> (r: Option<i32>)
    ensures
        match r {
            Some(n) => exists_date(year as int, month as int, day as int) && n == day_number(
                year as int,
                month as int,
                day as int,
            ),
            None => !exists_date(year as int, month as int, day as int),
        },
{
    let date = chrono::NaiveDate::from_ymd_opt(year, month, day);
    date.map(|d| chrono::Datelike::num_days_from_ce(&d))
}

/// Calls `chrono::NaiveDate::from_num_days_from_ce_opt` and `Datelike::year`. Trusted: a day of
/// the calendar has the year whose days hold its number.
#[verifier::external_body]
fn year_of(n: i32) -> (r: Option<i32>)
    ensures
        match r {
            Some(y) => in_calendar(n as int) && year_has(y as int, n as int) && FIRST_YEAR <= y
                <= LAST_YEAR,
            None => !in_calendar(n as int),
        },
{
    let date = chrono::NaiveDate::from_num_days_from_ce_opt(n);
    date.map(|d| chrono::Datelike::year(&d))
}

/// Calls `chrono::NaiveDate::from_num_days_from_ce_opt`, `Datelike::weekday` and
/// `Weekday::num_days_from_monday`. Trusted: day 1 is a Monday, and the weekdays follow each
/// other.
#[verifier::external_body]
fn weekday_of(n: i32) -> (r: Option<u32>)
    ensures
        match r {
            Some(w) => in_calendar(n as int) && w == weekday(n as int),
            None => !in_calendar(n as int),
        },
{
    let date = chrono::NaiveDate::from_num_days_from_ce_opt(n);
    date.map(|d| chrono::Datelike::weekday(&d).num_days_from_monday())
}

/// Days since Monday of day `n`.
pub open spec fn weekday(n: int) -> int {
    (n - 1) % 7
}

impl Date {
    /// The day of a year, month and day of the month, where the calendar has it.
    pub fn from_ymd(year: i32, month: u32, day: u32) -> (r: Option<Date>)
        ensures
            match r {
                Some(date) => exists_date(year as int, month as int, day as int) && date.number
                    == day_number(year as int, month as int, day as int) && date.valid(),
                None => !exists_date(year as int, month as int, day as int),
            },
    {
        match number_of(year, month, day) {
            Some(number) => {
                proof {
                    lemma_day_in_year(year as int, month as int, day as int);
                    lemma_year_in_calendar(year as int, number as int);
                }
                Some(Date { number })
            },
            None => None,
        }
    }

    /// The year of the day.
    pub fn year(&self) -> (r: i32)
        requires
            self.valid(),
        ensures
            year_has(r as int, self.number as int),
            FIRST_YEAR <= r <= LAST_YEAR,
    {
        match year_of(self.number) {
            Some(y) => y,
            None => 0,
        }
    }

    /// Days since Monday.
    pub fn weekday(&self) -> (r: u32)
        requires
            self.valid(),
        ensures
            r == weekday(self.number as int),
    {
        match weekday_of(self.number) {
            Some(w) => w,
            None => 0,
        }
    }
}

pub proof fn lemma_year_length(y: int)
    ensures
        before_year(y + 1) == before_year(y) + (if leap(y) {
            366int
        } else {
            365
        }),
{
}

proof fn lemma_before_month(y: int, m: int)
    requires
        1 <= m <= 13,
    ensures
        0 <= before_month(y, m),
        m == 13 ==> before_month(y, m) == (if leap(y) {
            366int
        } else {
            365
        }),
        m <= 12 ==> before_month(y, m) + month_length(y, m) <= (if leap(y) {
            366int
        } else {
            365
        }),
{
    reveal_with_fuel(before_month, 14);
}

/// Years follow each other.
pub proof fn lemma_years_grow(a: int, b: int)
    requires
        a <= b,
    ensures
        before_year(a) <= before_year(b),
    decreases b - a,
{
    if a < b {
        lemma_years_grow(a, b - 1);
        lemma_year_length(b - 1);
    }
}

/// A date is in its year.
pub proof fn lemma_day_in_year(y: int, m: int, d: int)
    requires
        1 <= m <= 12,
        1 <= d <= month_length(y, m),
    ensures
        year_has(y, day_number(y, m, d)),
{
    lemma_before_month(y, m);
    lemma_year_length(y);
}

proof fn lemma_year_in_calendar(y: int, n: int)
    requires
        FIRST_YEAR <= y <= LAST_YEAR,
        year_has(y, n),
    ensures
        in_calendar(n),
{
    lemma_years_grow(FIRST_YEAR as int, y);
    lemma_years_grow(y + 1, LAST_YEAR + 1);
}

// ---- moments ----

/// The number of the first of January 1970, from which Unix time counts.
pub const EPOCH: i64 = 719163;

/// The local day of a moment, `offset` seconds east of Greenwich.
pub open spec fn local_day(secs: int, offset: int) -> int {
    EPOCH + (secs + offset) / 86400
}

/// Seconds since local midnight.
pub open spec fn local_second(secs: int, offset: int) -> int {
    (secs + offset) % 86400
}

/// The local day and the second of the day of a moment.
pub fn local_time(secs: i64, offset: i32) -> (r: (i64, u32))
    ensures
        r.0 == local_day(secs as int, offset as int),
        r.1 == local_second(secs as int, offset as int),
        r.1 < 86400,
{
    // Shifted by whole days to where nothing is negative.
    let days: i128 = 200_000_000_000_000;
    let n: i128 = secs as i128 + offset as i128 + 86400 * days;
    ((n / 86400 - days) as i64 + EPOCH, (n % 86400) as u32)
}

/// Unix time starts on the first of January 1970.
pub proof fn law_epoch()
    ensures
        EPOCH == day_number(1970, 1, 1),
{
}

// ---- the next occurrence of a day of the year ----

/// Day `n` is on the given month and day of its year.
pub open spec fn falls_on(n: int, m: int, d: int) -> bool {
    exists|y: int| exists_date(y, m, d) && #[trigger] day_number(y, m, d) == n
}

/// Day `n` falls on the month and day `k` days ahead, and no day before that does.
pub open spec fn is_next(n: int, m: int, d: int, k: int) -> bool {
    &&& k >= 0
    &&& falls_on(n + k, m, d)
    &&& forall|x: int| n <= x < n + k ==> !#[trigger] falls_on(x, m, d)
}

/// The calendar has no such month and day from day `n` on.
pub open spec fn never_again(n: int, m: int, d: int) -> bool {
    forall|y: int| exists_date(y, m, d) ==> #[trigger] day_number(y, m, d) < n
}

/// Days from day `n` to the next such month and day.
pub open spec fn next_occurrence(n: int, m: int, d: int) -> Option<int> {
    if exists|k: int| is_next(n, m, d, k) {
        Some(choose|k: int| is_next(n, m, d, k))
    } else {
        None
    }
}

/// There is one next day.
proof fn lemma_one_next(n: int, m: int, d: int, a: int, b: int)
    requires
        is_next(n, m, d, a),
        is_next(n, m, d, b),
    ensures
        a == b,
{
    if a < b {
        assert(falls_on(n + a, m, d));
    } else if b < a {
        assert(falls_on(n + b, m, d));
    }
}

/// Where some day ahead falls on the month and day, there is a next one.
proof fn lemma_some_next(n: int, m: int, d: int, k: int)
    requires
        k >= 0,
        falls_on(n + k, m, d),
    ensures
        exists|j: int| is_next(n, m, d, j),
    decreases k,
{
    if exists|x: int| n <= x < n + k && #[trigger] falls_on(x, m, d) {
        let x = choose|x: int| n <= x < n + k && #[trigger] falls_on(x, m, d);
        assert(n + (x - n) == x);
        lemma_some_next(n, m, d, x - n);
    } else {
        assert(is_next(n, m, d, k));
    }
}

/// What is next, or is never again, is what [`next_occurrence`] says.
pub proof fn lemma_next_occurrence(n: int, m: int, d: int)
    ensures
        forall|k: int| #[trigger]
            is_next(n, m, d, k) ==> next_occurrence(n, m, d) == Some(k),
        never_again(n, m, d) ==> next_occurrence(n, m, d) is None,
{
    assert forall|k: int| #[trigger] is_next(n, m, d, k) implies next_occurrence(n, m, d) == Some(
        k,
    ) by {
        lemma_one_next(n, m, d, k, next_occurrence(n, m, d)->0);
    }
    if never_again(n, m, d) && next_occurrence(n, m, d) is Some {
        let k = next_occurrence(n, m, d)->0;
        assert(is_next(n, m, d, k));
        let y = choose|y: int| exists_date(y, m, d) && #[trigger] day_number(y, m, d) == n + k;
        assert(day_number(y, m, d) < n);
    }
}

/// The next occurrence is such a month and day, not before day `n`, with no other one in between;
/// there is none only where the calendar has no such day from `n` on.
pub proof fn law_next_occurrence_is_the_next(n: int, m: int, d: int)
    ensures
        match next_occurrence(n, m, d) {
            Some(k) => is_next(n, m, d, k),
            None => never_again(n, m, d),
        },
{
    if next_occurrence(n, m, d) is None {
        assert forall|y: int| exists_date(y, m, d) implies #[trigger] day_number(y, m, d) < n by {
            let x = day_number(y, m, d);
            if x >= n {
                assert(falls_on(n + (x - n), m, d));
                lemma_some_next(n, m, d, x - n);
            }
        }
    }
}

/// The month and day are still ahead in year `y`.
pub open spec fn ahead_in(n: int, y: int, m: int, d: int) -> bool {
    exists_date(y, m, d) && day_number(y, m, d) >= n
}

/// The first year, from that of day `n` on, in which the month and day are ahead holds the next
/// one.
pub proof fn lemma_first_year_ahead(n: int, t: int, y: int, m: int, d: int)
    requires
        year_has(t, n),
        t <= y,
        ahead_in(n, y, m, d),
        forall|z: int| t <= z < y ==> !#[trigger] ahead_in(n, z, m, d),
    ensures
        is_next(n, m, d, day_number(y, m, d) - n),
{
    let k = day_number(y, m, d) - n;
    assert(falls_on(n + k, m, d));
    assert forall|x: int| n <= x < n + k implies !#[trigger] falls_on(x, m, d) by {
        if falls_on(x, m, d) {
            let z = choose|z: int| exists_date(z, m, d) && #[trigger] day_number(z, m, d) == x;
            assert(ahead_in(n, z, m, d));
            lemma_day_in_year(z, m, d);
            lemma_day_in_year(y, m, d);
            if z < t {
                lemma_years_grow(z + 1, t);
            } else if z > y {
                lemma_years_grow(y + 1, z);
            }
        }
    }
}

/// Of any eight years in a row, one is a leap year.
proof fn lemma_leap_year_within_eight(t: int) -> (y: int)
    ensures
        t < y <= t + 8,
        leap(y),
{
    let a = t + 4 - t % 4;
    assert(a % 4 == 0);
    if a % 100 != 0 {
        a
    } else {
        assert((a + 4) % 100 != 0);
        a + 4
    }
}

/// A month and day that are ahead in none of nine years never come again.
pub proof fn lemma_nine_years_are_enough(n: int, t: int, m: int, d: int)
    requires
        year_has(t, n),
        FIRST_YEAR <= t,
        forall|z: int| t <= z <= t + 8 ==> !#[trigger] ahead_in(n, z, m, d),
    ensures
        never_again(n, m, d),
{
    assert forall|y: int| exists_date(y, m, d) implies #[trigger] day_number(y, m, d) < n by {
        if day_number(y, m, d) >= n {
            assert(ahead_in(n, y, m, d));
            lemma_day_in_year(y, m, d);
            if y < t {
                lemma_years_grow(y + 1, t);
            } else {
                let z = if m == 2 && d == 29 {
                    lemma_leap_year_within_eight(t)
                } else {
                    t + 1
                };
                assert(exists_date(z, m, d));
                lemma_day_in_year(z, m, d);
                lemma_years_grow(t + 1, z);
                assert(ahead_in(n, z, m, d));
            }
        }
    }
}

/// A year has 365 days, and one more where four but not a hundred, or four hundred, divide it; the
/// months of a year make up the year.
pub proof fn law_years_and_months(y: int)
    ensures
        before_year(y + 1) - before_year(y) == if y % 4 == 0 && (y % 100 != 0 || y % 400 == 0) {
            366int
        } else {
            365
        },
        before_month(y, 13) == before_year(y + 1) - before_year(y),
        month_length(y, 1) == 31,
        month_length(y, 2) == before_year(y + 1) - before_year(y) - 337,
        month_length(y, 3) == 31,
        month_length(y, 4) == 30,
        month_length(y, 5) == 31,
        month_length(y, 6) == 30,
        month_length(y, 7) == 31,
        month_length(y, 8) == 31,
        month_length(y, 9) == 30,
        month_length(y, 10) == 31,
        month_length(y, 11) == 30,
        month_length(y, 12) == 31,
{
    reveal_with_fuel(before_month, 14);
    let p = y - 1;
    assert(y / 4 - p / 4 == if y % 4 == 0 {
        1int
    } else {
        0
    });
    assert(y / 100 - p / 100 == if y % 100 == 0 {
        1int
    } else {
        0
    });
    assert(y / 400 - p / 400 == if y % 400 == 0 {
        1int
    } else {
        0
    });
}

/// The day after the last of a month is the first of the next.
pub proof fn law_months_follow_each_other(y: int, m: int)
    requires
        1 <= m < 12,
    ensures
        day_number(y, m + 1, 1) == day_number(y, m, month_length(y, m)) + 1,
        day_number(y + 1, 1, 1) == day_number(y, 12, 31) + 1,
        day_number(1, 1, 1) == 1,
{
    law_years_and_months(y);
    reveal_with_fuel(before_month, 14);
}

/// The days of the week go round, from Monday to Sunday; day 1 is a Monday.
pub proof fn law_the_week_goes_round(n: int)
    ensures
        weekday(1) == 0,
        weekday(n + 1) == if weekday(n) == 6 {
            0
        } else {
            weekday(n) + 1
        },
        0 <= weekday(n) <= 6,
{
}

/// A moment is on the day and at the second that its time makes up, 86400 seconds to a day.
pub proof fn law_days_and_seconds_make_up_the_time(secs: int, offset: int)
    ensures
        (local_day(secs, offset) - 719163) * 86400 + local_second(secs, offset) == secs + offset,
        0 <= local_second(secs, offset) < 86400,
{
}

/// A month and day that never comes again falls on no day from the day on, and one that does not
/// fall on the day or later never comes again.
pub proof fn law_what_never_comes_again(n: int, m: int, d: int)
    ensures
        never_again(n, m, d) <==> forall|x: int| x >= n ==> !#[trigger] falls_on(x, m, d),
{
    if never_again(n, m, d) {
        assert forall|x: int| x >= n implies !#[trigger] falls_on(x, m, d) by {
            if falls_on(x, m, d) {
                let y = choose|y: int| exists_date(y, m, d) && #[trigger] day_number(y, m, d) == x;
                assert(day_number(y, m, d) < n);
            }
        }
    }
    if forall|x: int| x >= n ==> !#[trigger] falls_on(x, m, d) {
        assert forall|y: int| exists_date(y, m, d) implies #[trigger] day_number(y, m, d) < n by {
            let x = day_number(y, m, d);
            assert(falls_on(x, m, d));
        }
    }
}

} // verus!
