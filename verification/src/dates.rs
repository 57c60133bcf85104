//! Calendar dates and timestamps.

use chrono::Datelike;
use vstd::prelude::*;

verus! {

/// The first day of the calendar: January 1 of the year -262143.
pub const MIN_DAYS: i32 = -95746129;

/// The last day of the calendar: December 31 of the year 262142.
pub const MAX_DAYS: i32 = 95745399;

/// The first and the last year of the calendar.
pub const FIRST_YEAR: i64 = -262143;

pub const LAST_YEAR: i64 = 262142;

/// The longest offset of todo.txt's date notation that is counted in days: 255 weeks.
/// Months and years that the calendar does not have are passed over.
pub const HEADROOM: i32 = 1785;

/// A calendar date, as the number of days since December 31 of the year 0.
#[derive(Clone, Copy, Debug, PartialEq, Eq, Structural)]
pub struct Date {
    pub(crate) days: i32,
}

impl View for Date {
    type V = int;

    closed spec fn view(&self) -> int {
        self.days as int
    }
}

/// The day numbers of an optional date.
pub open spec fn opt_day(d: Option<Date>) -> Option<int> {
    match d {
        Some(x) => Some(x@),
        None => None,
    }
}

/// The text that chrono's `%Y-%m-%d` gives for a day number.
pub uninterp spec fn iso_text(day: int) -> Seq<char>;

/// The day number that chrono's `%Y-%m-%d` reads from a text, if any.
pub uninterp spec fn iso_day(s: Seq<char>) -> Option<int>;

/// The day number that todo.txt date notation stands for, relative to a base.
pub uninterp spec fn tag_day(s: Seq<char>, base: int) -> Option<int>;

impl Date {
    #[verifier::type_invariant]
    spec fn in_calendar(self) -> bool {
        MIN_DAYS <= self.days <= MAX_DAYS
    }

    /// Whether every offset of todo.txt's date notation stays in the calendar
    /// when it is counted from this date.
    pub open spec fn has_room(self) -> bool {
        self@ + HEADROOM <= MAX_DAYS
    }

    /// The date of a day number, where the calendar has it.
    pub fn from_days_ce(days: i32) -> (r: Option<Date>)
        ensures
            opt_day(r) == (if MIN_DAYS <= days <= MAX_DAYS {
                Some(days as int)
            } else {
                None
            }),
    {
        if MIN_DAYS <= days && days <= MAX_DAYS {
            Some(Date { days })
        } else {
            None
        }
    }

    /// The day number of this date.
    pub fn days_ce(&self) -> (r: i32)
        ensures
            r == self@,
            MIN_DAYS <= r <= MAX_DAYS,
    {
        proof {
            use_type_invariant(*self);
        }
        self.days
    }

    /// This date as `YYYY-MM-DD`.
    pub fn to_text(&self) -> (r: String)
        ensures
            r@ == iso_text(self@),
    {
        format_iso(*self)
    }

    /// The date that a text in the form `YYYY-MM-DD` names.
    pub fn parse(s: &str) -> (r: Option<Date>)
        ensures
            opt_day(r) == iso_day(s@),
            reads_back(s@, iso_day(s@)),
    {
        parse_iso(s)
    }

    /// The date that a `due:` value stands for: an absolute date, or an offset
    /// from `base`.
    pub fn parse_tag(s: &str, base: Date) -> (r: Option<Date>)
        requires
            base.has_room(),
        ensures
            opt_day(r) == tag_day(s@, base@),
            reads_back(s@, tag_day(s@, base@)),
    {
        parse_tag_date(s, base)
    }

    /// Whether every offset of todo.txt's date notation stays in the calendar when it
    /// is counted from this date.
    pub fn leaves_room(&self) -> (r: bool)
        ensures
            r == self.has_room(),
    {
        self.days_ce() <= MAX_DAYS - HEADROOM
    }

    /// Whether the words of a filter, such as `tomorrow`, stay in the calendar when they
    /// are counted from this date.
    pub fn is_inner(&self) -> (r: bool)
        ensures
            r == is_inner_day(self@),
    {
        let days: i32 = self.days_ce();
        MIN_DAYS + 36500 <= days && days <= MAX_DAYS - 7
    }

    /// January 1, 2000.
    pub fn plain() -> (r: Date)
        ensures
            r@ == PLAIN_DAY,
    {
        Date { days: PLAIN_DAY }
    }

    /// This date where offsets can be counted from it, or else January 1, 2000.
    pub fn within_reach(self) -> (r: Date)
        ensures
            r@ == (if self.has_room() {
                self@
            } else {
                PLAIN_DAY as int
            }),
    {
        if self.leaves_room() {
            self
        } else {
            Date::plain()
        }
    }

    /// Today in the local time zone. The clock decides which date it is, so that only
    /// what holds of every date is stated.
    pub fn today() -> (r: Date)
        ensures
            MIN_DAYS <= r@ <= MAX_DAYS,
    {
        let r = local_date();
        proof {
            use_type_invariant(r);
        }
        r
    }
}

/// January 1, 2000.
pub const PLAIN_DAY: i32 = 730120;

/// Whether a filter can count from a day: the words of its notation stay in the
/// calendar. The longest way back is that of `overdue`, a hundred years; the longest way
/// on is a week.
pub open spec fn is_inner_day(day: int) -> bool {
    MIN_DAYS + 36500 <= day <= MAX_DAYS - 7
}

// ---------------------------------------------------------------------------
// Years, months and days
// ---------------------------------------------------------------------------

/// Whether a year has February 29.
pub open spec fn is_leap(y: int) -> bool {
    y % 4 == 0 && (y % 100 != 0 || y % 400 == 0)
}

/// The days of a month.
pub open spec fn month_len(y: int, m: int) -> int {
    if m == 2 {
        if is_leap(y) {
            29
        } else {
            28
        }
    } else if m == 4 || m == 6 || m == 9 || m == 11 {
        30
    } else {
        31
    }
}

/// The day before a year.
pub open spec fn year_start(y: int) -> int {
    365 * (y - 1) + (y - 1) / 4 - (y - 1) / 100 + (y - 1) / 400
}

/// The days of a year before a month.
pub open spec fn month_start(y: int, m: int) -> int
    decreases m,
{
    if m <= 1 {
        0
    } else {
        month_start(y, m - 1) + month_len(y, m - 1)
    }
}

/// The day number of a date in the Gregorian calendar.
pub open spec fn civil_day(y: int, m: int, d: int) -> int {
    year_start(y) + month_start(y, m) + d
}

/// Whether there is such a date.
pub open spec fn is_civil(y: int, m: int, d: int) -> bool {
    1 <= m <= 12 && 1 <= d <= month_len(y, m)
}

/// The year, the month and the day of a day number.
pub open spec fn civil(day: int) -> (int, int, int) {
    choose|c: (int, int, int)| is_civil(c.0, c.1, c.2) && #[trigger] civil_day(c.0, c.1, c.2) == day
}

proof fn lemma_next_year(y: int)
    ensures
        year_start(y + 1) == year_start(y) + month_start(y, 13),
        month_start(y, 13) == 365 || month_start(y, 13) == 366,
{
    reveal_with_fuel(month_start, 14);
}

proof fn lemma_year_order(a: int, b: int)
    requires
        a <= b,
    ensures
        year_start(a) <= year_start(b),
    decreases b - a,
{
    if a < b {
        lemma_next_year(a);
        lemma_year_order(a + 1, b);
    }
}

proof fn lemma_month_order(y: int, a: int, b: int)
    requires
        1 <= a <= b,
    ensures
        0 <= month_start(y, a) <= month_start(y, b),
    decreases b,
{
    if a < b {
        lemma_month_order(y, a, b - 1);
    } else if a > 1 {
        lemma_month_order(y, a - 1, a - 1);
    }
}

/// A date is in its year.
proof fn lemma_in_year(y: int, m: int, d: int)
    requires
        is_civil(y, m, d),
    ensures
        year_start(y) < civil_day(y, m, d) <= year_start(y + 1),
{
    lemma_next_year(y);
    lemma_month_order(y, 1, m);
    lemma_month_order(y, m + 1, 13);
    assert(month_start(y, m + 1) == month_start(y, m) + month_len(y, m));
}

/// Every day has one date.
proof fn lemma_one_date(y: int, m: int, d: int, z: int, n: int, e: int)
    requires
        is_civil(y, m, d),
        is_civil(z, n, e),
        civil_day(y, m, d) == civil_day(z, n, e),
    ensures
        y == z && m == n && d == e,
{
    lemma_in_year(y, m, d);
    lemma_in_year(z, n, e);
    if y < z {
        lemma_year_order(y + 1, z);
    }
    if z < y {
        lemma_year_order(z + 1, y);
    }
    if m < n {
        lemma_month_order(y, m + 1, n);
        assert(month_start(y, m + 1) == month_start(y, m) + month_len(y, m));
    }
    if n < m {
        lemma_month_order(y, n + 1, m);
        assert(month_start(y, n + 1) == month_start(y, n) + month_len(y, n));
    }
}

/// The days of a month.
pub fn length_of_month(y: i64, m: i64) -> (r: i64)
    requires
        FIRST_YEAR <= y <= LAST_YEAR,
    ensures
        r == month_len(y as int, m as int),
        28 <= r <= 31,
{
    // A multiple of four hundred keeps the remainders from a sign.
    let n: u64 = (y + 262400) as u64;
    let leap: bool = n % 4 == 0 && (n % 100 != 0 || n % 400 == 0);
    assert(leap == is_leap(y as int));
    if m == 2 {
        if leap {
            29
        } else {
            28
        }
    } else if m == 4 || m == 6 || m == 9 || m == 11 {
        30
    } else {
        31
    }
}

fn start_of_year(y: i64) -> (r: i64)
    requires
        FIRST_YEAR <= y <= LAST_YEAR + 1,
    ensures
        r == year_start(y as int),
{
    let n: u64 = (y - 1 + 262400) as u64;
    let leaps: i64 = (n / 4) as i64 - (n / 100) as i64 + (n / 400) as i64;
    365 * (y - 1) + leaps - 65600 + 2624 - 656
}

/// The day number of a date.
pub fn day_of_civil(y: i64, m: i64, d: i64) -> (r: i64)
    requires
        FIRST_YEAR <= y <= LAST_YEAR,
        is_civil(y as int, m as int, d as int),
    ensures
        r == civil_day(y as int, m as int, d as int),
        MIN_DAYS <= r <= MAX_DAYS,
{
    let mut days: i64 = 0;
    let mut k: i64 = 1;
    while k < m
        invariant
            1 <= k <= m <= 12,
            FIRST_YEAR <= y <= LAST_YEAR,
            days == month_start(y as int, k as int),
            0 <= days <= 31 * k,
        decreases m - k,
    {
        days = days + length_of_month(y, k);
        k = k + 1;
    }
    proof {
        lemma_in_year(y as int, m as int, d as int);
        lemma_year_order(FIRST_YEAR as int, y as int);
        lemma_year_order(y + 1, LAST_YEAR + 1);
    }
    start_of_year(y) + days + d
}

/// The year, the month and the day of a day number.
pub fn civil_of(day: i64) -> (r: (i64, i64, i64))
    requires
        MIN_DAYS <= day <= MAX_DAYS,
    ensures
        (r.0 as int, r.1 as int, r.2 as int) == civil(day as int),
        is_civil(r.0 as int, r.1 as int, r.2 as int),
        civil_day(r.0 as int, r.1 as int, r.2 as int) == day,
        FIRST_YEAR <= r.0 <= LAST_YEAR,
{
    let mut y: i64 = FIRST_YEAR;
    let mut over: i64 = LAST_YEAR + 1;
    while over - y > 1
        invariant
            FIRST_YEAR <= y < over <= LAST_YEAR + 1,
            year_start(y as int) < day <= year_start(over as int),
        decreases over - y,
    {
        let mid: i64 = y + (over - y) / 2;
        if start_of_year(mid) < day {
            y = mid;
        } else {
            over = mid;
        }
    }
    let mut d: i64 = day - start_of_year(y);
    let mut m: i64 = 1;
    proof {
        lemma_next_year(y as int);
    }
    while m < 12 && d > length_of_month(y, m)
        invariant
            FIRST_YEAR <= y <= LAST_YEAR,
            1 <= m <= 12,
            1 <= d <= 366,
            day == year_start(y as int) + month_start(y as int, m as int) + d,
            day <= year_start(y as int) + month_start(y as int, 13),
        decreases 12 - m,
    {
        d = d - length_of_month(y, m);
        m = m + 1;
        assert(month_start(y as int, m as int) == month_start(y as int, m - 1) + month_len(
            y as int,
            m - 1,
        ));
    }
    assert(month_start(y as int, 13) == month_start(y as int, 12) + month_len(y as int, 12));
    assert(is_civil(y as int, m as int, d as int));
    proof {
        let c = (y as int, m as int, d as int);
        assert(civil_day(c.0, c.1, c.2) == day);
        let e = civil(day as int);
        lemma_one_date(c.0, c.1, c.2, e.0, e.1, e.2);
    }
    (y, m, d)
}

// ---------------------------------------------------------------------------
// Notation
// ---------------------------------------------------------------------------

/// Whether the year of a day has at most four digits and is not zero.
pub open spec fn has_plain_year(day: int) -> bool {
    1 <= day <= 3652059
}

/// Whether a text that a day with a plain year is written as stands for that day.
pub open spec fn reads_back(s: Seq<char>, day: Option<int>) -> bool {
    forall|d: int| has_plain_year(d) && s == #[trigger] iso_text(d) ==> day == Some(d)
}

/// Calls `chrono::NaiveDate::format` with `%Y-%m-%d`. The text depends on the
/// date alone; it is given a name.
#[verifier::external_body]
fn format_iso(d: Date) -> (r: String)
    ensures
        r@ == iso_text(d@),
{
    let day = chrono::NaiveDate::from_num_days_from_ce_opt(d.days).unwrap();
    day.format("%Y-%m-%d").to_string()
}

/// Calls `chrono::NaiveDate::parse_from_str` with `%Y-%m-%d`. The date depends
/// on the text alone; it is given a name, and an error is `None`. What was written
/// in that form, with a year of four digits, is read back.
#[verifier::external_body]
fn parse_iso(s: &str) -> (r: Option<Date>)
    ensures
        opt_day(r) == iso_day(s@),
        reads_back(s@, opt_day(r)),
{
    let day = chrono::NaiveDate::parse_from_str(s, "%Y-%m-%d").ok();
    day.map(|d| Date { days: d.num_days_from_ce() })
}

/// Calls `todo_lib::todotxt::parse_date`. The date depends on the text and the
/// base alone; it is given a name, and an error is `None`. What was written as
/// `YYYY-MM-DD`, with a year of four digits, is read back. The base leaves room for
/// the longest offset that is counted in days, 255 weeks.
#[verifier::external_body]
fn parse_tag_date(s: &str, base: Date) -> (r: Option<Date>)
    requires
        base.has_room(),
    ensures
        opt_day(r) == tag_day(s@, base@),
        reads_back(s@, opt_day(r)),
{
    let from = chrono::NaiveDate::from_num_days_from_ce_opt(base.days).unwrap();
    let day = todo_lib::todotxt::parse_date(s, from).ok();
    day.map(|d| Date { days: d.num_days_from_ce() })
}

/// Calls `chrono::Local::now`, which reads the clock: nothing is promised of
/// the date.
#[verifier::external_body]
fn local_date() -> (r: Date) {
    Date { days: chrono::Local::now().date_naive().num_days_from_ce() }
}

/// A point in time without a zone: whole seconds since January 1, 1970, and
/// nanoseconds into that second. A leap second is the second before it with a
/// billion nanoseconds or more.
#[derive(Clone, Copy, Debug, PartialEq, Eq, Structural)]
pub struct Timestamp {
    pub secs: i64,
    pub nanos: u32,
}

/// The timestamp that chrono reads from a text in the form
/// `YYYY-MM-DDTHH:MM:SSZ`, if any.
pub uninterp spec fn utc_timestamp(s: Seq<char>) -> Option<Timestamp>;

impl Timestamp {
    /// The timestamp that a text in the form `YYYY-MM-DDTHH:MM:SSZ` names.
    pub fn parse(s: &str) -> (r: Option<Timestamp>)
        ensures
            r == utc_timestamp(s@),
    {
        parse_utc(s)
    }

    /// Seconds and nanoseconds of this point in time `d` seconds later. A leap
    /// second counts as part of the second it extends, unless `d` is zero.
    pub open spec fn shifted(self, d: int) -> (int, int) {
        if self.nanos < 1_000_000_000 || d == 0 {
            (self.secs + d, self.nanos as int)
        } else if d > 0 {
            (self.secs + d, self.nanos - 1_000_000_000)
        } else {
            (self.secs + 1 + d, self.nanos - 1_000_000_000)
        }
    }

    /// Whether this point in time is later than `other` by more than `d` seconds.
    pub open spec fn is_later(self, other: Timestamp, d: int) -> bool {
        let limit = other.shifted(d);
        self.secs > limit.0 || (self.secs == limit.0 && self.nanos > limit.1)
    }

    /// Whether this point in time is later than `other` by more than `d` seconds.
    pub fn later_than(&self, other: &Timestamp, d: i64) -> (r: bool)
        ensures
            r == self.is_later(*other, d as int),
    {
        let leap: bool = other.nanos >= 1_000_000_000 && d != 0;
        let base: i128 = if leap && d < 0 {
            other.secs as i128 + 1
        } else {
            other.secs as i128
        };
        let limit: i128 = base + d as i128;
        let nanos: u32 = if leap {
            other.nanos - 1_000_000_000
        } else {
            other.nanos
        };
        let secs: i128 = self.secs as i128;
        secs > limit || (secs == limit && self.nanos > nanos)
    }
}

/// Calls `chrono::NaiveDateTime::parse_from_str` with `%Y-%m-%dT%H:%M:%SZ`. The
/// timestamp depends on the text alone; it is given a name, and an error is
/// `None`.
#[verifier::external_body]
fn parse_utc(s: &str) -> (r: Option<Timestamp>)
    ensures
        r == utc_timestamp(s@),
{
    let at = chrono::NaiveDateTime::parse_from_str(s, "%Y-%m-%dT%H:%M:%SZ").ok();
    at.map(|t| t.and_utc()).map(|t| Timestamp {
        secs: t.timestamp(),
        nanos: t.timestamp_subsec_nanos(),
    })
}

/// Dates follow each other by days, months and years, from January 1 of the year 1 on, and
/// every day has the date that it was counted from.
pub proof fn dates_follow_each_other(y: int, m: int, d: int)
    requires
        is_civil(y, m, d),
    ensures
        civil_day(1, 1, 1) == 1,
        d < month_len(y, m) ==> civil_day(y, m, d + 1) == civil_day(y, m, d) + 1,
        d == month_len(y, m) && m < 12 ==> civil_day(y, m + 1, 1) == civil_day(y, m, d) + 1,
        m == 12 && d == 31 ==> civil_day(y + 1, 1, 1) == civil_day(y, m, d) + 1,
        civil(civil_day(y, m, d)) == (y, m, d),
{
    lemma_next_year(y);
    assert(month_start(y, m + 1) == month_start(y, m) + month_len(y, m));
    let c = (y, m, d);
    assert(is_civil(c.0, c.1, c.2) && civil_day(c.0, c.1, c.2) == civil_day(y, m, d));
    let e = civil(civil_day(y, m, d));
    lemma_one_date(y, m, d, e.0, e.1, e.2);
}

} // verus!
