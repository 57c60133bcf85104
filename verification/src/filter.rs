//! Push filters: which tasks of the file belong in a reminder list.
//!
//! ```text
//! filter = rule ('~' rule)*        -- one of the rules has to hold
//! rule   = cond (';' cond)*        -- all conditions have to hold
//! cond   = '@'ctx                  -- has the context, written @=ctx in full
//!        | '-@'ctx                 -- has not the context
//!        | '+'prj                  -- has the project
//!        | '-+'prj                 -- has not the project
//!        | '#'tag                  -- has the hashtag
//!        | field '=' value         -- a condition of todo_lib's filters
//! ```
//!
//! Where no `~` occurs, `|` separates the rules. In a value an offset may be
//! written `+2d` as well as `2d`.

use crate::dates::{
    civil, civil_day, civil_of, dates_follow_each_other, day_of_civil, is_civil, is_inner_day,
    length_of_month, month_len, Date, FIRST_YEAR, LAST_YEAR, MAX_DAYS, MIN_DAYS,
};
use crate::task::{Task, TaskView};
use crate::text::{
    chars_of, decimal, decimal_reads_back, find, has_char, is_digit, is_digit_char, is_white, join,
    join_texts, split, split_at_char, string_of, text_after, texts, trim, trim_text,
};
use vstd::prelude::*;

verus! {

// ---------------------------------------------------------------------------
// Notation
// ---------------------------------------------------------------------------

/// How many digits `s` starts with.
pub open spec fn digits(s: Seq<char>) -> nat
    decreases s.len(),
{
    if s.len() > 0 && is_digit(s[0]) {
        1 + digits(s.skip(1))
    } else {
        0
    }
}

/// Whether `s` starts with an offset: digits and a unit of time.
pub open spec fn starts_offset(s: Seq<char>) -> bool {
    let n = digits(s) as int;
    0 < n < s.len() && is_unit(s[n])
}

/// `s` without the plus signs that stand directly before an offset.
pub open spec fn without_plus(s: Seq<char>) -> Seq<char>
    decreases s.len(),
{
    if s.len() == 0 {
        s
    } else if s[0] == '+' && starts_offset(s.skip(1)) {
        without_plus(s.skip(1))
    } else {
        seq![s[0]] + without_plus(s.skip(1))
    }
}

/// A condition whose value, behind the first `=`, has its offsets without plus
/// signs.
pub open spec fn plain_offsets(cond: Seq<char>) -> Seq<char> {
    let n = find(cond, '=') as int;
    if n < cond.len() {
        cond.take(n + 1) + without_plus(cond.skip(n + 1))
    } else {
        cond
    }
}

/// How many characters of a condition are the sign of a context, a project or a
/// hashtag, with the minus before it.
pub open spec fn sign_len(cond: Seq<char>) -> int {
    if cond.len() >= 2 && cond[0] == '-' && (cond[1] == '@' || cond[1] == '+' || cond[1] == '#') {
        2
    } else if cond.len() >= 1 && (cond[0] == '@' || cond[0] == '+' || cond[0] == '#') {
        1
    } else {
        0
    }
}

/// A condition in the notation of todo_lib's filters.
pub open spec fn full_cond(cond: Seq<char>) -> Seq<char> {
    if cond.contains('=') {
        plain_offsets(cond)
    } else if sign_len(cond) > 0 {
        cond.take(sign_len(cond)).push('=') + cond.skip(sign_len(cond))
    } else {
        cond
    }
}

/// A rule in the notation of todo_lib's filters.
pub open spec fn full_rule(rule: Seq<char>) -> Seq<char> {
    join(split(rule, ';').map_values(|c: Seq<char>| full_cond(trim(c))), ";"@)
}

/// Drops the plus sign of each `+<digits><unit>` with a unit of `d`, `w`, `m` or
/// `y`.
pub fn strip_plus_offsets(s: &str) -> (r: String)
    ensures
        r@ == without_plus(s@),
{
    let cs = chars_of(s);
    let n: usize = cs.len();
    let mut out = String::new();
    let mut i: usize = 0;
    assert(s@.skip(0) =~= s@);
    assert(out@ + without_plus(s@.skip(0)) =~= without_plus(s@));
    while i < n
        invariant
            cs@ == s@,
            n == s@.len(),
            i <= n,
            out@ + without_plus(s@.skip(i as int)) == without_plus(s@),
        decreases n - i,
    {
        let ghost rest = s@.skip(i as int);
        assert(rest.skip(1) =~= s@.skip(i + 1));
        let drop: bool = cs[i] == '+' && offset_at(&cs, i + 1);
        if !drop {
            let ghost before = out@;
            out.push(cs[i]);
            assert(out@ + without_plus(s@.skip(i + 1)) =~= before + (seq![rest[0]] + without_plus(
                s@.skip(i + 1),
            )));
        }
        i = i + 1;
    }
    assert(s@.skip(n as int) =~= Seq::<char>::empty());
    assert(out@ =~= without_plus(s@));
    out
}

proof fn lemma_digits_is(s: Seq<char>, n: int)
    requires
        0 <= n <= s.len(),
        forall|j: int| 0 <= j < n ==> is_digit(#[trigger] s[j]),
        n < s.len() ==> !is_digit(s[n]),
    ensures
        digits(s) == n,
    decreases s.len(),
{
    if n > 0 {
        assert forall|j: int| 0 <= j < n - 1 implies is_digit(#[trigger] s.skip(1)[j]) by {
            assert(s.skip(1)[j] == s[j + 1]);
        }
        if n < s.len() {
            assert(s.skip(1)[n - 1] == s[n]);
        }
        lemma_digits_is(s.skip(1), n - 1);
    }
}

/// Whether an offset starts at position `at`.
fn offset_at(cs: &Vec<char>, at: usize) -> (r: bool)
    requires
        at <= cs@.len(),
    ensures
        r == starts_offset(cs@.skip(at as int)),
{
    let n: usize = cs.len();
    let mut i: usize = at;
    while i < n && '0' <= cs[i] && cs[i] <= '9'
        invariant
            n == cs@.len(),
            at <= i <= n,
            forall|j: int| at <= j < i ==> is_digit(#[trigger] cs@[j]),
        decreases n - i,
    {
        i = i + 1;
    }
    proof {
        let rest = cs@.skip(at as int);
        assert forall|j: int| 0 <= j < i - at implies is_digit(#[trigger] rest[j]) by {
            assert(rest[j] == cs@[at + j]);
        }
        if i < n {
            assert(rest[i - at] == cs@[i as int]);
        }
        lemma_digits_is(rest, i - at);
    }
    i > at && i < n && is_unit_char(cs[i])
}

/// Drops the plus signs of the offsets behind the first `=` of a condition.
pub fn normalize_date_offsets(cond: &str) -> (r: String)
    ensures
        r@ == plain_offsets(cond@),
{
    let cs = chars_of(cond);
    for i in 0..cs.len()
        invariant
            cs@ == cond@,
            forall|j: int| 0 <= j < i ==> #[trigger] cond@[j] != '=',
    {
        if cs[i] == '=' {
            proof {
                crate::text::lemma_find_is(cond@, '=', i as int);
            }
            let mut r = string_of(&cs, 0, i + 1);
            let value = text_after(cond, i + 1);
            let plain = strip_plus_offsets(value.as_str());
            r.append(plain.as_str());
            assert(cond@.subrange(0, i + 1) =~= cond@.take(i + 1));
            return r;
        }
    }
    proof {
        crate::text::lemma_find_is(cond@, '=', cond@.len() as int);
    }
    cond.to_owned()
}

/// A trimmed condition in the notation of todo_lib's filters.
fn normalize_condition(cond: &str) -> (r: String)
    ensures
        r@ == full_cond(cond@),
{
    if has_char(cond, '=') {
        return normalize_date_offsets(cond);
    }
    let cs = chars_of(cond);
    let n: usize = if cs.len() >= 2 && cs[0] == '-' && (cs[1] == '@' || cs[1] == '+' || cs[1]
        == '#') {
        2
    } else if cs.len() >= 1 && (cs[0] == '@' || cs[0] == '+' || cs[0] == '#') {
        1
    } else {
        0
    };
    if n == 0 {
        return cond.to_owned();
    }
    let mut r = string_of(&cs, 0, n);
    r.push('=');
    let rest = text_after(cond, n);
    r.append(rest.as_str());
    assert(cond@.subrange(0, n as int) =~= cond@.take(n as int));
    r
}

/// A rule in the notation of todo_lib's filters: the shorthands of contexts,
/// projects and hashtags get their `=`, other conditions lose the plus signs of
/// their offsets.
pub fn normalize_shorthands(group: &str) -> (r: String)
    ensures
        r@ == full_rule(group@),
{
    let pieces = split_at_char(group, ';');
    let ghost wanted = split(group@, ';').map_values(|c: Seq<char>| full_cond(trim(c)));
    let mut conds: Vec<String> = Vec::new();
    for i in 0..pieces.len()
        invariant
            texts(pieces@) == split(group@, ';'),
            wanted == split(group@, ';').map_values(|c: Seq<char>| full_cond(trim(c))),
            conds@.len() == i,
            texts(conds@) == wanted.take(i as int),
    {
        let cond = trim_text(pieces[i].as_str());
        assert(pieces@[i as int]@ == texts(pieces@)[i as int]);
        conds.push(normalize_condition(cond.as_str()));
        assert(texts(conds@) =~= wanted.take(i + 1));
    }
    assert(wanted.take(wanted.len() as int) =~= wanted);
    join_texts(&conds, ";")
}

// ---------------------------------------------------------------------------
// Filters
// ---------------------------------------------------------------------------

/// Whether todo_lib's filter for the rule `rule` admits a task on a given day.
pub uninterp spec fn rule_admits(rule: Seq<char>, task: TaskView, today: int) -> bool;

/// Calls `todo_lib::flt::Filter::parse` and `is_empty`. The filter is empty where
/// nothing stands between the semicolons of the rule.
#[verifier::external_body]
fn is_void_rule(rule: &str) -> (r: bool)
    ensures
        r == is_void(rule@),
{
    todo_lib::flt::Filter::parse(rule, false).is_empty()
}

/// Whether a letter is a unit of time in an offset such as `2w`.
pub open spec fn is_unit(c: char) -> bool {
    c == 'd' || c == 'w' || c == 'm' || c == 'y'
}

/// The largest number that todo_lib reads in an offset or a duration.
pub const MOST_UNITS: u64 = 0xffff_ffff;

/// Whether a text is an offset such as `2w` or `1y6m`: digits and units, not digits
/// alone.
pub open spec fn is_offset(s: Seq<char>) -> bool {
    &&& forall|i: int| 0 <= i < s.len() ==> is_digit(#[trigger] s[i]) || is_unit(s[i])
    &&& exists|i: int| 0 <= i < s.len() && is_unit(#[trigger] s[i])
}

/// Where todo_lib stands within an offset.
#[verifier::ext_equal]
pub struct Walk {
    /// The number that is being read.
    pub num: nat,
    /// The day that has been reached.
    pub day: int,
    /// Whether every number was read and every day is in the calendar.
    pub fits: bool,
}

/// The year and month `(y, m)` that todo_lib moves the day `d` of a month of `len` days
/// to: the last day of a month stays the last. A year that the calendar does not have
/// leads to the day `home` instead.
pub open spec fn landed(y: int, m: int, d: int, len: int, home: int) -> int {
    if FIRST_YEAR <= y <= LAST_YEAR {
        civil_day(
            y,
            m,
            if d == len || month_len(y, m) < d {
                month_len(y, m)
            } else {
                d
            },
        )
    } else {
        home
    }
}

/// The day that is `n` years on.
pub open spec fn years_on(day: int, n: int, home: int) -> int {
    let (y, m, d) = civil(day);
    landed(y + n, m, d, month_len(y, m), home)
}

/// The day that is `n` months on; the same day where the calendar has no such month.
pub open spec fn months_on(day: int, n: int) -> int {
    let (y, m, d) = civil(day);
    landed(y + (m - 1 + n) / 12, (m - 1 + n) % 12 + 1, d, month_len(y, m), day)
}

/// The number of years that todo_lib takes a number for: it has a sign and 32 bits.
pub open spec fn signed_years(n: nat) -> int {
    if n <= 0x7fff_ffff {
        n as int
    } else {
        n - 0x1_0000_0000
    }
}

/// A number with the sign of a direction.
pub open spec fn directed(n: int, back: bool) -> int {
    if back {
        -n
    } else {
        n
    }
}

impl Walk {
    /// After a number of days.
    pub open spec fn moved(self, days: int, back: bool) -> Walk {
        let day = self.day + directed(days, back);
        Walk { num: 0, day, fits: self.fits && MIN_DAYS <= day <= MAX_DAYS }
    }

    /// After the next character.
    pub open spec fn read(self, c: char, back: bool, today: int) -> Walk {
        if is_digit(c) {
            let num = (10 * self.num + (c as int - '0' as int)) as nat;
            Walk { num, fits: self.fits && num <= MOST_UNITS, ..self }
        } else if self.num == 0 {
            self
        } else if c == 'd' {
            self.moved(self.num as int, back)
        } else if c == 'w' {
            self.moved((7 * self.num) as int, back)
        } else if c == 'm' {
            Walk {
                num: 0,
                day: months_on(self.day, directed(self.num as int, back)),
                fits: self.fits && (back || civil(self.day).1 + self.num <= MOST_UNITS),
            }
        } else {
            let n = directed(signed_years(self.num), back);
            Walk {
                num: 0,
                day: years_on(self.day, n, today),
                fits: self.fits && i32::MIN <= civil(self.day).0 + n <= i32::MAX,
            }
        }
    }
}

/// Where todo_lib stands behind an offset that is counted from the day `today`.
pub open spec fn walk(s: Seq<char>, back: bool, today: int) -> Walk
    decreases s.len(),
{
    if s.len() == 0 {
        Walk { num: 0, day: today, fits: true }
    } else {
        walk(s.drop_last(), back, today).read(s.last(), back, today)
    }
}

/// Whether a value can be read as a date on the day `today`: where it is an offset, with
/// or without a minus before it, it does not leave the calendar.
pub open spec fn offset_fits(v: Seq<char>, today: int) -> bool {
    let back = v.len() > 0 && v[0] == '-';
    let s = if back {
        v.skip(1)
    } else {
        v
    };
    is_offset(s) ==> walk(s, back, today).fits
}

fn is_unit_char(c: char) -> (r: bool)
    ensures
        r == is_unit(c),
{
    c == 'd' || c == 'w' || c == 'm' || c == 'y'
}

fn land(y: i64, m: i64, d: i64, len: i64, home: i64) -> (r: i64)
    requires
        1 <= m <= 12,
        1 <= d <= len <= 31,
        MIN_DAYS <= home <= MAX_DAYS,
    ensures
        r == landed(y as int, m as int, d as int, len as int, home as int),
        MIN_DAYS <= r <= MAX_DAYS,
{
    if FIRST_YEAR <= y && y <= LAST_YEAR {
        let now: i64 = length_of_month(y, m);
        let day: i64 = if d == len || now < d {
            now
        } else {
            d
        };
        day_of_civil(y, m, day)
    } else {
        home
    }
}

/// Whether an offset does not leave the calendar.
fn can_walk(s: &str, back: bool, today: Date) -> (r: bool)
    requires
        forall|i: int|
            0 <= i < s@.len() ==> is_digit(#[trigger] s@[i]) || is_unit(s@[i]),
    ensures
        r == walk(s@, back, today@).fits,
{
    let cs = chars_of(s);
    let n: usize = cs.len();
    let start: i64 = today.days_ce() as i64;
    let mut num: u64 = 0;
    let mut day: i64 = start;
    let mut fits: bool = true;
    assert(s@.take(0) =~= Seq::<char>::empty());
    for i in 0..n
        invariant
            cs@ == s@,
            n == s@.len(),
            start == today@,
            MIN_DAYS <= start <= MAX_DAYS,
            forall|k: int|
                0 <= k < s@.len() ==> is_digit(#[trigger] s@[k]) || is_unit(s@[k]),
            fits == walk(s@.take(i as int), back, today@).fits,
            fits ==> num == walk(s@.take(i as int), back, today@).num,
            fits ==> day == walk(s@.take(i as int), back, today@).day,
            num <= MOST_UNITS,
            MIN_DAYS <= day <= MAX_DAYS,
    {
        let c = cs[i];
        assert(s@.take(i + 1).drop_last() =~= s@.take(i as int));
        assert(s@.take(i + 1).last() == c);
        assert(is_digit(s@[i as int]) || is_unit(s@[i as int]));
        if fits {
            if is_digit_char(c) {
                let more: u64 = 10 * num + (c as u64 - '0' as u64);
                if more <= MOST_UNITS {
                    num = more;
                } else {
                    fits = false;
                }
            } else if num > 0 {
                let count: i64 = num as i64;
                if c == 'd' || c == 'w' {
                    let days: i64 = if c == 'd' {
                        count
                    } else {
                        7 * count
                    };
                    let by: i64 = if back {
                        -days
                    } else {
                        days
                    };
                    if MIN_DAYS as i64 <= day + by && day + by <= MAX_DAYS as i64 {
                        day = day + by;
                    } else {
                        fits = false;
                    }
                } else {
                    let (y, m, d) = civil_of(day);
                    let len: i64 = length_of_month(y, m);
                    if c == 'm' {
                        if back || m + count <= MOST_UNITS as i64 {
                            let by: i64 = if back {
                                -count
                            } else {
                                count
                            };
                            // A multiple of twelve keeps the division from a sign.
                            let months: u64 = (m - 1 + by + 12 * 400_000_000) as u64;
                            let years: i64 = (months / 12) as i64 - 400_000_000;
                            let month: i64 = (months % 12) as i64 + 1;
                            assert(years == (m - 1 + by) / 12);
                            assert(month == (m - 1 + by) % 12 + 1);
                            day = land(y + years, month, d, len, day);
                        } else {
                            fits = false;
                        }
                    } else {
                        let signed: i64 = if count <= 0x7fff_ffff {
                            count
                        } else {
                            count - 0x1_0000_0000
                        };
                        let by: i64 = if back {
                            -signed
                        } else {
                            signed
                        };
                        if -0x8000_0000 <= y + by && y + by <= 0x7fff_ffff {
                            day = land(y + by, m, d, len, start);
                        } else {
                            fits = false;
                        }
                    }
                }
                num = 0;
            }
        }
    }
    assert(s@.take(n as int) =~= s@);
    fits
}

/// Whether a value can be read as a date on the day `today`.
pub fn can_count(v: &str, today: Date) -> (r: bool)
    ensures
        r == offset_fits(v@, today@),
{
    let n: usize = v.unicode_len();
    let back: bool = n > 0 && v.get_char(0) == '-';
    let s = if back {
        text_after(v, 1)
    } else {
        v.to_owned()
    };
    let cs = chars_of(s.as_str());
    let mut has_unit: bool = false;
    for i in 0..cs.len()
        invariant
            cs@ == s@,
            back == (v@.len() > 0 && v@[0] == '-'),
            s@ == (if back {
                v@.skip(1)
            } else {
                v@
            }),
            forall|k: int| 0 <= k < i ==> is_digit(#[trigger] s@[k]) || is_unit(s@[k]),
            has_unit == exists|k: int| 0 <= k < i && is_unit(#[trigger] s@[k]),
    {
        let unit: bool = is_unit_char(cs[i]);
        if !unit && !is_digit_char(cs[i]) {
            assert(!is_digit(s@[i as int]) && !is_unit(s@[i as int]));
            return true;
        }
        if unit {
            assert(is_unit(s@[i as int]));
            has_unit = true;
        }
    }
    !has_unit || can_walk(s.as_str(), back, today)
}

/// The smaller of two numbers.
spec fn at_most(n: nat, limit: int) -> int {
    if n <= limit {
        n as int
    } else {
        limit
    }
}

/// The bytes of the unit that a letter in a size such as `2mb` stands for; zero for
/// any other character. The last one is the sign for kelvin, whose lower case is `k`.
pub open spec fn unit_bytes(c: char) -> nat {
    if c == 'e' || c == 'E' {
        0x1000_0000_0000_0000
    } else if c == 'p' || c == 'P' {
        0x4_0000_0000_0000
    } else if c == 't' || c == 'T' {
        0x100_0000_0000
    } else if c == 'g' || c == 'G' {
        0x4000_0000
    } else if c == 'm' || c == 'M' {
        0x10_0000
    } else if c == 'k' || c == 'K' || c == '\u{212a}' {
        0x400
    } else {
        0
    }
}

/// The number that the digits at the end of a text write.
pub open spec fn last_number(s: Seq<char>) -> nat
    decreases s.len(),
{
    if s.len() == 0 || !is_digit(s.last()) {
        0
    } else {
        (10 * last_number(s.drop_last()) + (s.last() as int - '0' as int)) as nat
    }
}

/// Where the digits end with which a value starts, behind an optional plus sign.
pub open spec fn digits_end(v: Seq<char>) -> int {
    if v.len() > 0 && v[0] == '+' {
        1 + digits(v.skip(1)) as int
    } else {
        digits(v) as int
    }
}

/// Whether `c` is the letter at position `i` of a unit's name that is written in `p`
/// letters: `m`, `mb` or `mib`, once or several times over.
pub open spec fn is_name_letter(c: char, i: int, p: int, unit: nat) -> bool {
    if p == 1 {
        unit_bytes(c) == unit
    } else if p == 2 {
        if i % 2 == 0 {
            unit_bytes(c) == unit
        } else {
            is_b(c)
        }
    } else {
        if i % 3 == 0 {
            unit_bytes(c) == unit
        } else if i % 3 == 1 {
            is_i(c)
        } else {
            is_b(c)
        }
    }
}

pub open spec fn is_b(c: char) -> bool {
    c == 'b' || c == 'B'
}

pub open spec fn is_i(c: char) -> bool {
    c == 'i' || c == 'I'
}

/// Whether `v` is, from position `n` on, the name of a unit that is written in `p`
/// letters, once or several times over.
pub open spec fn names_unit(v: Seq<char>, n: int, p: int) -> bool {
    &&& p == 2 ==> (v.len() - n) % 2 == 0
    &&& p == 3 ==> (v.len() - n) % 3 == 0
    &&& forall|i: int|
        n <= i < v.len() ==> is_name_letter(#[trigger] v[i], i - n, p, unit_bytes(v[n]))
}

/// Whether a value is a size such as `2m`, `2mb` or `2MiB`.
pub open spec fn is_size(v: Seq<char>) -> bool {
    let n = digits_end(v);
    &&& 0 < n < v.len()
    &&& is_digit(v[n - 1])
    &&& unit_bytes(v[n]) > 0
    &&& names_unit(v, n, 1) || names_unit(v, n, 2) || names_unit(v, n, 3)
}

/// Whether a value can be read as a size: it has 64 bits in bytes. A number that is
/// itself larger is not read at all.
pub open spec fn size_fits(v: Seq<char>) -> bool {
    let n = digits_end(v);
    is_size(v) ==> last_number(v.take(n)) * unit_bytes(v[n]) <= u64::MAX || last_number(v.take(n))
        > u64::MAX
}

fn bytes_in(c: char) -> (r: u128)
    ensures
        r == unit_bytes(c),
        r <= 0x1000_0000_0000_0000,
{
    if c == 'e' || c == 'E' {
        0x1000_0000_0000_0000
    } else if c == 'p' || c == 'P' {
        0x4_0000_0000_0000
    } else if c == 't' || c == 'T' {
        0x100_0000_0000
    } else if c == 'g' || c == 'G' {
        0x4000_0000
    } else if c == 'm' || c == 'M' {
        0x10_0000
    } else if c == 'k' || c == 'K' || c == '\u{212a}' {
        0x400
    } else {
        0
    }
}

fn spells_unit(cs: &Vec<char>, n: usize, p: usize) -> (r: bool)
    requires
        n < cs@.len(),
        1 <= p <= 3,
    ensures
        r == names_unit(cs@, n as int, p as int),
{
    let len: usize = cs.len();
    if (p == 2 && (len - n) % 2 != 0) || (p == 3 && (len - n) % 3 != 0) {
        return false;
    }
    let unit: u128 = bytes_in(cs[n]);
    for i in n..len
        invariant
            len == cs@.len(),
            n < len,
            1 <= p <= 3,
            unit == unit_bytes(cs@[n as int]),
            forall|k: int|
                n <= k < i ==> is_name_letter(
                    #[trigger] cs@[k],
                    k - n,
                    p as int,
                    unit_bytes(cs@[n as int]),
                ),
    {
        let c = cs[i];
        let at: usize = i - n;
        let b: bool = c == 'b' || c == 'B';
        let fine: bool = if p == 1 || (p == 2 && at % 2 == 0) || (p == 3 && at % 3 == 0) {
            bytes_in(c) == unit
        } else if p == 3 && at % 3 == 1 {
            c == 'i' || c == 'I'
        } else {
            b
        };
        assert(fine == is_name_letter(cs@[i as int], i - n, p as int, unit_bytes(cs@[n as int])));
        if !fine {
            return false;
        }
    }
    true
}

/// Whether a value can be read as a size.
fn can_measure(v: &str) -> (r: bool)
    ensures
        r == size_fits(v@),
{
    let cs = chars_of(v);
    let len: usize = cs.len();
    let from: usize = if len > 0 && cs[0] == '+' {
        1
    } else {
        0
    };
    let mut n: usize = from;
    let mut num: u128 = 0;
    assert(from == 0 ==> v@.take(0) =~= Seq::<char>::empty());
    assert(from == 1 ==> v@.take(1).last() == '+');
    while n < len && is_digit_char(cs[n])
        invariant
            cs@ == v@,
            len == v@.len(),
            from <= n <= len,
            forall|k: int| from <= k < n ==> is_digit(#[trigger] v@[k]),
            num == at_most(last_number(v@.take(n as int)), 0x1_0000_0000_0000_0000),
        decreases len - n,
    {
        assert(v@.take(n + 1).drop_last() =~= v@.take(n as int));
        assert(v@.take(n + 1).last() == cs@[n as int]);
        if num < 0x1_0000_0000_0000_0000 {
            num = 10 * num + (cs[n] as u128 - '0' as u128);
        }
        if num > 0x1_0000_0000_0000_0000 {
            num = 0x1_0000_0000_0000_0000;
        }
        n = n + 1;
    }
    proof {
        let rest = v@.skip(from as int);
        assert forall|j: int| 0 <= j < n - from implies is_digit(#[trigger] rest[j]) by {
            assert(rest[j] == v@[from + j]);
        }
        if n < len {
            assert(rest[n - from] == v@[n as int]);
        }
        lemma_digits_is(rest, n - from);
        if from == 0 {
            assert(rest =~= v@);
        }
    }
    assert(n == digits_end(v@));
    if n == from || n >= len {
        return true;
    }
    let unit: u128 = bytes_in(cs[n]);
    if unit == 0 {
        return true;
    }
    if !spells_unit(&cs, n, 1) && !spells_unit(&cs, n, 2) && !spells_unit(&cs, n, 3) {
        return true;
    }
    assert(is_digit(v@[n - 1]));
    assert(is_size(v@));
    if num >= 0x1_0000_0000_0000_0000 {
        return true;
    }
    assert(num * unit <= 0x1_0000_0000_0000_0000 * 0x1000_0000_0000_0000) by (nonlinear_arith)
        requires
            num < 0x1_0000_0000_0000_0000,
            unit <= 0x1000_0000_0000_0000,
    ;
    let ghost read = last_number(v@.take(n as int));
    assert(read == num);
    assert(read * unit_bytes(v@[n as int]) == num * unit);
    num * unit <= 0xffff_ffff_ffff_ffff
}

/// The seconds of the unit that a letter in a duration such as `2h` stands for; zero for
/// any other character.
pub open spec fn unit_seconds(c: char) -> nat {
    if c == 'w' || c == 'W' {
        604800
    } else if c == 'd' || c == 'D' {
        86400
    } else if c == 'h' || c == 'H' {
        3600
    } else if c == 'm' || c == 'M' {
        60
    } else if c == 's' || c == 'S' {
        1
    } else {
        0
    }
}

/// What todo_lib is reading in a duration.
#[derive(Debug, Clone, Copy, PartialEq, Eq, Structural)]
pub enum Part {
    /// Nothing yet.
    Start,
    /// A number.
    Number,
    /// The unit behind a number.
    Unit,
    /// Nothing any more: this is no duration.
    Broken,
}

/// Where todo_lib stands within a duration.
#[verifier::ext_equal]
pub struct Timing {
    pub part: Part,
    /// The number that was read last.
    pub num: nat,
    /// The seconds of the unit that was read last.
    pub unit: nat,
    /// The seconds of the parts before.
    pub sum: nat,
    /// Whether the sums have 64 bits.
    pub fits: bool,
}

impl Timing {
    /// After the next character.
    pub open spec fn read(self, c: char) -> Timing {
        let broken = Timing { part: Part::Broken, ..self };
        let figure = (c as int - '0' as int) as nat;
        match self.part {
            Part::Start => if is_digit(c) {
                Timing { part: Part::Number, num: figure, ..self }
            } else {
                broken
            },
            Part::Number => if is_digit(c) {
                Timing { num: 10 * self.num + figure, ..self }
            } else if unit_seconds(c) > 0 && self.num <= MOST_UNITS {
                Timing { part: Part::Unit, unit: unit_seconds(c), ..self }
            } else {
                broken
            },
            Part::Unit => if is_digit(c) {
                let sum = self.sum + self.num * self.unit;
                Timing {
                    part: Part::Number,
                    num: figure,
                    sum,
                    fits: self.fits && sum <= i64::MAX,
                    ..self
                }
            } else {
                broken
            },
            Part::Broken => self,
        }
    }

    /// The seconds of all parts, at the end of a text.
    pub open spec fn total(self) -> nat {
        match self.part {
            Part::Start => 0,
            Part::Number => if self.num <= MOST_UNITS {
                self.sum + self.num
            } else {
                self.sum
            },
            Part::Unit => self.sum + self.num * self.unit,
            Part::Broken => self.sum,
        }
    }
}

/// Where todo_lib stands behind a duration without a sign.
pub open spec fn timing(s: Seq<char>) -> Timing
    decreases s.len(),
{
    if s.len() == 0 {
        Timing { part: Part::Start, num: 0, unit: 0, sum: 0, fits: true }
    } else {
        timing(s.drop_last()).read(s.last())
    }
}

/// A text without the dashes before it.
pub open spec fn without_dashes(s: Seq<char>) -> Seq<char>
    decreases s.len(),
{
    if s.len() > 0 && s[0] == '-' {
        without_dashes(s.skip(1))
    } else {
        s
    }
}

/// Whether a value can be read as a duration: it has 64 bits in seconds.
pub open spec fn duration_fits(v: Seq<char>) -> bool {
    let end = timing(without_dashes(v));
    end.fits && end.total() <= i64::MAX
}

fn seconds_in(c: char) -> (r: u64)
    ensures
        r == unit_seconds(c),
        r <= 604800,
{
    if c == 'w' || c == 'W' {
        604800
    } else if c == 'd' || c == 'D' {
        86400
    } else if c == 'h' || c == 'H' {
        3600
    } else if c == 'm' || c == 'M' {
        60
    } else if c == 's' || c == 'S' {
        1
    } else {
        0
    }
}

/// A number of units in seconds.
fn time_of(num: u64, unit: u64) -> (r: u64)
    requires
        num <= MOST_UNITS,
        unit <= 604800,
    ensures
        r == num as nat * unit as nat,
        r <= 0xffff_ffff * 604800,
{
    assert(num * unit <= 0xffff_ffff * 604800) by (nonlinear_arith)
        requires
            num <= 0xffff_ffff,
            unit <= 604800,
    ;
    num * unit
}

/// Whether a value can be read as a duration.
fn can_time(v: &str) -> (r: bool)
    ensures
        r == duration_fits(v@),
{
    let cs = chars_of(v);
    let n: usize = cs.len();
    let mut from: usize = 0;
    assert(v@.skip(0) =~= v@);
    while from < n && cs[from] == '-'
        invariant
            cs@ == v@,
            n == v@.len(),
            from <= n,
            without_dashes(v@.skip(from as int)) == without_dashes(v@),
        decreases n - from,
    {
        assert(v@.skip(from as int).skip(1) =~= v@.skip(from + 1));
        from = from + 1;
    }
    let ghost s = v@.skip(from as int);
    assert(without_dashes(v@) == s);
    let mut part = Part::Start;
    let mut num: u64 = 0;
    let mut unit: u64 = 0;
    let mut sum: u64 = 0;
    assert(s.take(0) =~= Seq::<char>::empty());
    for i in from..n
        invariant
            cs@ == v@,
            n == v@.len(),
            from <= n,
            s == v@.skip(from as int),
            without_dashes(v@) == s,
            part == timing(s.take(i - from)).part,
            timing(s.take(i - from)).fits,
            num == at_most(timing(s.take(i - from)).num, MOST_UNITS + 1),
            part == Part::Unit ==> num <= MOST_UNITS,
            unit == timing(s.take(i - from)).unit,
            unit <= 604800,
            sum == timing(s.take(i - from)).sum,
            sum <= i64::MAX,
    {
        let c = cs[i];
        let ghost before = timing(s.take(i - from));
        assert(s.take(i - from + 1).drop_last() =~= s.take(i - from));
        assert(s.take(i - from + 1).last() == c);
        let is_figure: bool = is_digit_char(c);
        let figure: u64 = if is_figure {
            c as u64 - '0' as u64
        } else {
            0
        };
        match part {
            Part::Start => {
                if is_figure {
                    part = Part::Number;
                    num = figure;
                } else {
                    part = Part::Broken;
                }
            },
            Part::Number => {
                let secs: u64 = seconds_in(c);
                if is_figure {
                    if num <= MOST_UNITS {
                        num = 10 * num + figure;
                    }
                    if num > MOST_UNITS {
                        num = MOST_UNITS + 1;
                    }
                } else if secs > 0 && num <= MOST_UNITS {
                    part = Part::Unit;
                    unit = secs;
                } else {
                    part = Part::Broken;
                }
            },
            Part::Unit => {
                if is_figure {
                    let more: u64 = time_of(num, unit);
                    assert(before.num * before.unit == more);
                    sum = sum + more;
                    part = Part::Number;
                    num = figure;
                    if sum > 0x7fff_ffff_ffff_ffff {
                        proof {
                            lemma_timing_stays(s, i - from + 1);
                        }
                        return false;
                    }
                } else {
                    part = Part::Broken;
                }
            },
            Part::Broken => {},
        }
    }
    let ghost end = timing(s);
    assert(s.take(n - from) =~= s);
    match part {
        Part::Start => true,
        Part::Number => num > MOST_UNITS || sum + num <= 0x7fff_ffff_ffff_ffff,
        Part::Unit => {
            let more: u64 = time_of(num, unit);
            assert(end.num * end.unit == more);
            sum + more <= 0x7fff_ffff_ffff_ffff
        },
        Part::Broken => true,
    }
}

/// A sum that has left 64 bits does not come back.
proof fn lemma_timing_stays(s: Seq<char>, n: int)
    requires
        0 <= n <= s.len(),
        !timing(s.take(n)).fits,
    ensures
        !timing(s).fits,
    decreases s.len() - n,
{
    if n < s.len() {
        assert(s.take(n + 1).drop_last() =~= s.take(n));
        lemma_timing_stays(s, n + 1);
    } else {
        assert(s.take(n) =~= s);
    }
}

// ---------------------------------------------------------------------------
// Conditions that todo_lib can work out
// ---------------------------------------------------------------------------

/// What todo_lib's filters take the values of a tag for.
#[derive(Debug, Clone, Copy, PartialEq, Eq, Structural)]
pub enum Reading {
    /// Texts, or numbers that are only compared.
    Words,
    /// A date of the task, which is no tag.
    Calendar,
    /// Dates.
    Dates,
    /// Durations.
    Durations,
    /// Sizes.
    Sizes,
    /// What the value of the tag looks like.
    Open,
}

/// Whether a text ends with another.
pub open spec fn ends_with(s: Seq<char>, end: Seq<char>) -> bool {
    s.len() >= end.len() && s.skip(s.len() - end.len()) == end
}

/// Whether a condition is about a part of the task that is neither a tag nor a date.
pub open spec fn is_part(name: Seq<char>) -> bool {
    ||| name == "ID"@ || name == "pri"@ || name == "priority"@ || name == "done"@ || name
        == "subj"@ || name == "subject"@
    ||| name == "@"@ || name == "+"@ || name == "#"@ || name == "prj"@ || name == "project"@
        || name == "ctx"@ || name == "context"@ || name == "hashtag"@
    ||| name == "src"@ || name == "src_id"@
}

/// What todo_lib's filters take the values of a tag for, by its name.
pub open spec fn reading(name: Seq<char>) -> Reading {
    if is_part(name) {
        Reading::Words
    } else if name == "completed"@ || name == "created"@ || name == "create"@ {
        Reading::Calendar
    } else if ends_with(name, "_time"@) {
        Reading::Words
    } else if ends_with(name, "_date"@) || name == "due"@ || name == "t"@ {
        Reading::Dates
    } else if name == "spent"@ || ends_with(name, "_dur"@) || ends_with(name, "_duration"@) {
        Reading::Durations
    } else if ends_with(name, "_size"@) || ends_with(name, "_sz"@) {
        Reading::Sizes
    } else if name == "started"@ || name == "finished"@ {
        Reading::Dates
    } else if name == "proj"@ || (name.len() > 0 && name[0] == '#') {
        Reading::Words
    } else {
        Reading::Open
    }
}

fn has_end(s: &String, end: &str) -> (r: bool)
    ensures
        r == ends_with(s@, end@),
{
    let n: usize = s.as_str().unicode_len();
    let k: usize = end.unicode_len();
    n >= k && text_after(s.as_str(), n - k) == end.to_owned()
}

fn names_part(name: &String) -> (r: bool)
    ensures
        r == is_part(name@),
{
    *name == "ID".to_owned() || *name == "pri".to_owned() || *name == "priority".to_owned() || *name
        == "done".to_owned() || *name == "subj".to_owned() || *name == "subject".to_owned() || *name
        == "@".to_owned() || *name == "+".to_owned() || *name == "#".to_owned() || *name
        == "prj".to_owned() || *name == "project".to_owned() || *name == "ctx".to_owned() || *name
        == "context".to_owned() || *name == "hashtag".to_owned() || *name == "src".to_owned()
        || *name == "src_id".to_owned()
}

fn reading_of(name: &String) -> (r: Reading)
    ensures
        r == reading(name@),
{
    if names_part(name) {
        Reading::Words
    } else if *name == "completed".to_owned() || *name == "created".to_owned() || *name
        == "create".to_owned() {
        Reading::Calendar
    } else if has_end(name, "_time") {
        Reading::Words
    } else if has_end(name, "_date") || *name == "due".to_owned() || *name == "t".to_owned() {
        Reading::Dates
    } else if *name == "spent".to_owned() || has_end(name, "_dur") || has_end(name, "_duration") {
        Reading::Durations
    } else if has_end(name, "_size") || has_end(name, "_sz") {
        Reading::Sizes
    } else if *name == "started".to_owned() || *name == "finished".to_owned() {
        Reading::Dates
    } else if *name == "proj".to_owned() || (name.as_str().unicode_len() > 0
        && name.as_str().get_char(0) == '#') {
        Reading::Words
    } else {
        Reading::Open
    }
}

/// What a value of a condition is counted in.
#[derive(Debug, Clone, Copy, PartialEq, Eq, Structural)]
pub enum Measure {
    Days,
    Seconds,
    Bytes,
}

/// Whether a value can be read in a measure on the day `today`.
pub open spec fn operand_fits(measure: Measure, v: Seq<char>, today: int) -> bool {
    match measure {
        Measure::Days => offset_fits(v, today),
        Measure::Seconds => duration_fits(v),
        Measure::Bytes => size_fits(v),
    }
}

/// Where the two dots of a range first occur in a value, or its length.
pub open spec fn find_dots(v: Seq<char>) -> nat
    decreases v.len(),
{
    if v.len() == 0 || (v.len() > 1 && v[0] == '.' && v[1] == '.') {
        0
    } else {
        1 + find_dots(v.skip(1))
    }
}

/// Whether a value of a condition is a range.
pub open spec fn is_range(v: Seq<char>) -> bool {
    find_dots(v) < v.len()
}

/// A text without the sign of a negation.
pub open spec fn without_sign(s: Seq<char>) -> Seq<char> {
    if s.len() > 0 && (s[0] == '-' || s[0] == '!') {
        s.skip(1)
    } else {
        s
    }
}

/// Whether one of the values of a condition, or both its ends where it is a range, can
/// be read in a measure.
pub open spec fn value_fits(measure: Measure, v: Seq<char>, today: int) -> bool {
    let n = find_dots(v) as int;
    if is_range(v) {
        operand_fits(measure, v.take(n), today) && operand_fits(measure, v.skip(n + 2), today)
    } else {
        operand_fits(measure, without_sign(v), today)
    }
}

/// Whether the values of a condition, which commas separate, can be read in a measure.
pub open spec fn values_fit(measure: Measure, wanted: Seq<char>, today: int) -> bool {
    forall|i: int|
        0 <= i < split(wanted, ',').len() ==> value_fits(
            measure,
            #[trigger] split(wanted, ',')[i],
            today,
        )
}

/// Whether there is a range among the values of a condition.
pub open spec fn has_range(wanted: Seq<char>) -> bool {
    exists|i: int|
        0 <= i < split(wanted, ',').len() && is_range(#[trigger] split(wanted, ',')[i])
}

/// Whether a character can be a decimal digit of some script.
pub open spec fn is_figure(c: char) -> bool {
    is_digit(c) || (c > '\u{7f}' && c != '\u{212a}')
}

/// Whether a value has the shape of a date.
pub open spec fn is_like_date(v: Seq<char>) -> bool {
    v.len() == 10 && forall|i: int|
        0 <= i < 10 ==> if i == 4 || i == 7 {
            v[i] == '-'
        } else {
            is_figure(#[trigger] v[i])
        }
}

/// Whether a value has the shape of a duration: numbers with units behind them, the
/// longer units first.
pub open spec fn is_like_duration(v: Seq<char>) -> bool {
    &&& forall|i: int|
        0 <= i < v.len() ==> is_figure(#[trigger] v[i]) || (unit_seconds(v[i]) > 0 && i > 0
            && is_figure(v[i - 1]))
    &&& v.len() > 0 ==> unit_seconds(v.last()) > 0
    &&& forall|i: int, j: int|
        0 <= i < j < v.len() && unit_seconds(#[trigger] v[i]) > 0 && unit_seconds(#[trigger] v[j])
            > 0 ==> unit_seconds(v[i]) > unit_seconds(v[j])
}

/// Whether a letter is one of the units that tell a size from another value.
pub open spec fn is_size_unit(c: char) -> bool {
    unit_bytes(c) > 0 && c != 'e' && c != 'E'
}

/// Whether `v` is, from position `n` on, such as `k`, `kb`, `ki` or `kib`, or `b`.
pub open spec fn ends_size(v: Seq<char>, n: int) -> bool {
    let len = v.len() - n;
    ||| len == 1 && (is_size_unit(v[n]) || is_b(v[n]))
    ||| len == 2 && is_size_unit(v[n]) && (is_i(v[n + 1]) || is_b(v[n + 1]))
    ||| len == 3 && is_size_unit(v[n]) && is_i(v[n + 1]) && is_b(v[n + 2])
}

/// Whether a value has the shape of a size: a number with a unit behind it.
pub open spec fn is_like_size(v: Seq<char>) -> bool {
    exists|n: int|
        0 < n < v.len() && #[trigger] ends_size(v, n) && forall|i: int|
            0 <= i < n ==> is_figure(#[trigger] v[i])
}

/// Whether todo_lib can compare the value `v` of a tag with the values `wanted` of a
/// condition on the day `today`.
pub open spec fn can_compare(
    reading: Reading,
    wanted: Seq<char>,
    v: Seq<char>,
    today: int,
) -> bool {
    match reading {
        Reading::Words => true,
        Reading::Calendar => true,
        Reading::Dates => values_fit(Measure::Days, wanted, today) && (has_range(wanted)
            ==> offset_fits(v, today)),
        Reading::Durations => values_fit(Measure::Seconds, wanted, today) && duration_fits(v),
        Reading::Sizes => values_fit(Measure::Bytes, wanted, today) && size_fits(v),
        Reading::Open => {
            &&& is_like_date(v) ==> values_fit(Measure::Days, wanted, today)
            &&& is_like_duration(v) ==> values_fit(Measure::Seconds, wanted, today)
                && duration_fits(v)
            &&& is_like_size(v) && !is_like_duration(v) ==> values_fit(
                Measure::Bytes,
                wanted,
                today,
            ) && size_fits(v)
        },
    }
}

/// The name that a condition is about, without the sign of a negation.
pub open spec fn cond_name(cond: Seq<char>) -> Seq<char> {
    without_sign(cond.take(find(cond, '=') as int))
}

/// The values of a condition, behind the first `=`.
pub open spec fn cond_values(cond: Seq<char>) -> Seq<char> {
    let n = find(cond, '=') as int;
    if n < cond.len() {
        cond.skip(n + 1)
    } else {
        Seq::empty()
    }
}

/// The date of a task that a condition of the given name is about.
pub open spec fn calendar_date(name: Seq<char>, t: TaskView) -> Option<int> {
    if name == "completed"@ {
        t.finish_date
    } else {
        t.create_date
    }
}

/// Whether todo_lib can work a condition out for a task on the day `today`: no offset
/// leaves the calendar, and no size or duration leaves 64 bits.
pub open spec fn is_safe_cond(cond: Seq<char>, t: TaskView, today: int) -> bool {
    let name = cond_name(cond);
    &&& reading(name) == Reading::Calendar && calendar_date(name, t) is Some ==> values_fit(
        Measure::Days,
        cond_values(cond),
        today,
    )
    &&& t.tags.dom().contains(name) ==> can_compare(
        reading(name),
        cond_values(cond),
        t.tags[name],
        today,
    )
}

/// Whether todo_lib can work a rule out for a task on the day `today`.
pub open spec fn is_safe_rule(rule: Seq<char>, t: TaskView, today: int) -> bool {
    let conds = split(rule, ';');
    forall|i: int| 0 <= i < conds.len() ==> is_safe_cond(#[trigger] conds[i], t, today)
}

/// Whether todo_lib can work rules out for a task on the day `today`.
pub open spec fn are_safe_rules(rules: Seq<Seq<char>>, t: TaskView, today: int) -> bool {
    forall|i: int| 0 <= i < rules.len() ==> is_safe_rule(#[trigger] rules[i], t, today)
}

fn can_read(measure: Measure, v: &str, today: Date) -> (r: bool)
    ensures
        r == operand_fits(measure, v@, today@),
{
    match measure {
        Measure::Days => can_count(v, today),
        Measure::Seconds => can_time(v),
        Measure::Bytes => can_measure(v),
    }
}

proof fn lemma_find_dots_is(v: Seq<char>, n: int)
    requires
        0 <= n <= v.len(),
        forall|j: int| 0 <= j < n ==> !(j + 1 < v.len() && #[trigger] v[j] == '.' && v[j + 1] == '.'),
        n < v.len() ==> n + 1 < v.len() && v[n] == '.' && v[n + 1] == '.',
    ensures
        find_dots(v) == n,
    decreases v.len(),
{
    if n > 0 {
        let rest = v.skip(1);
        assert(v[0] == v[0]);
        assert forall|j: int| 0 <= j < n - 1 implies !(j + 1 < rest.len() && #[trigger] rest[j]
            == '.' && rest[j + 1] == '.') by {
            assert(rest[j] == v[j + 1]);
            if j + 1 < rest.len() {
                assert(rest[j + 1] == v[j + 2]);
            }
        }
        if n < v.len() {
            assert(rest[n - 1] == v[n]);
            assert(rest[n] == v[n + 1]);
        }
        lemma_find_dots_is(rest, n - 1);
    }
}

/// Where the two dots of a range first occur in a value, or its length.
fn dots_at(cs: &Vec<char>) -> (r: usize)
    ensures
        r == find_dots(cs@),
        r <= cs@.len(),
        r < cs@.len() ==> r + 1 < cs@.len(),
{
    let len: usize = cs.len();
    for i in 0..len
        invariant
            len == cs@.len(),
            forall|j: int|
                0 <= j < i ==> !(j + 1 < cs@.len() && #[trigger] cs@[j] == '.' && cs@[j + 1] == '.'),
    {
        if len - i > 1 && cs[i] == '.' && cs[i + 1] == '.' {
            proof {
                lemma_find_dots_is(cs@, i as int);
            }
            return i;
        }
    }
    proof {
        lemma_find_dots_is(cs@, len as int);
    }
    len
}

/// Where the name or value without the sign of a negation starts.
fn sign_end(cs: &Vec<char>, end: usize) -> (r: usize)
    requires
        end <= cs@.len(),
    ensures
        r <= end,
        cs@.subrange(r as int, end as int) == without_sign(cs@.take(end as int)),
{
    let r: usize = if end > 0 && (cs[0] == '-' || cs[0] == '!') {
        1
    } else {
        0
    };
    assert(cs@.subrange(r as int, end as int) =~= without_sign(cs@.take(end as int)));
    r
}

fn can_read_value(measure: Measure, v: &String, today: Date) -> (r: bool)
    ensures
        r == value_fits(measure, v@, today@),
{
    let cs = chars_of(v.as_str());
    let n: usize = dots_at(&cs);
    if n < cs.len() {
        let low = string_of(&cs, 0, n);
        let high = string_of(&cs, n + 2, cs.len());
        assert(low@ =~= v@.take(n as int));
        assert(high@ =~= v@.skip(n + 2));
        can_read(measure, low.as_str(), today) && can_read(measure, high.as_str(), today)
    } else {
        let from: usize = sign_end(&cs, cs.len());
        assert(cs@.take(cs@.len() as int) =~= v@);
        let operand = string_of(&cs, from, cs.len());
        can_read(measure, operand.as_str(), today)
    }
}

fn can_read_values(measure: Measure, wanted: &str, today: Date) -> (r: bool)
    ensures
        r == values_fit(measure, wanted@, today@),
{
    let values = split_at_char(wanted, ',');
    for i in 0..values.len()
        invariant
            texts(values@) == split(wanted@, ','),
            forall|j: int|
                0 <= j < i ==> value_fits(measure, #[trigger] split(wanted@, ',')[j], today@),
    {
        assert(split(wanted@, ',')[i as int] == values@[i as int]@);
        if !can_read_value(measure, &values[i], today) {
            return false;
        }
    }
    true
}

fn holds_range(wanted: &str) -> (r: bool)
    ensures
        r == has_range(wanted@),
{
    let values = split_at_char(wanted, ',');
    for i in 0..values.len()
        invariant
            texts(values@) == split(wanted@, ','),
            forall|j: int| 0 <= j < i ==> !is_range(#[trigger] split(wanted@, ',')[j]),
    {
        assert(split(wanted@, ',')[i as int] == values@[i as int]@);
        let cs = chars_of(values[i].as_str());
        if dots_at(&cs) < cs.len() {
            return true;
        }
    }
    false
}

fn is_figure_char(c: char) -> (r: bool)
    ensures
        r == is_figure(c),
{
    is_digit_char(c) || (c > '\u{7f}' && c != '\u{212a}')
}

fn looks_like_date(cs: &Vec<char>) -> (r: bool)
    ensures
        r == is_like_date(cs@),
{
    if cs.len() != 10 {
        return false;
    }
    for i in 0..10usize
        invariant
            cs@.len() == 10,
            forall|k: int|
                0 <= k < i ==> if k == 4 || k == 7 {
                    cs@[k] == '-'
                } else {
                    is_figure(#[trigger] cs@[k])
                },
    {
        let fine: bool = if i == 4 || i == 7 {
            cs[i] == '-'
        } else {
            is_figure_char(cs[i])
        };
        if !fine {
            assert(!is_like_date(cs@)) by {
                let k = i as int;
                assert(if k == 4 || k == 7 {
                    cs@[k] != '-'
                } else {
                    !is_figure(cs@[k])
                });
            }
            return false;
        }
    }
    true
}

fn looks_like_duration(cs: &Vec<char>) -> (r: bool)
    ensures
        r == is_like_duration(cs@),
{
    let n: usize = cs.len();
    let mut last: u64 = 604801;
    for i in 0..n
        invariant
            n == cs@.len(),
            last <= 604801,
            forall|k: int|
                0 <= k < i ==> is_figure(#[trigger] cs@[k]) || (unit_seconds(cs@[k]) > 0 && k > 0
                    && is_figure(cs@[k - 1])),
            forall|k: int|
                0 <= k < i && unit_seconds(#[trigger] cs@[k]) > 0 ==> last <= unit_seconds(cs@[k]),
            last == 604801 || exists|k: int|
                0 <= k < i && unit_seconds(#[trigger] cs@[k]) == last && last > 0,
            forall|j: int, k: int|
                0 <= j < k < i && unit_seconds(#[trigger] cs@[j]) > 0 && unit_seconds(
                    #[trigger] cs@[k],
                ) > 0 ==> unit_seconds(cs@[j]) > unit_seconds(cs@[k]),
    {
        let c = cs[i];
        let secs: u64 = seconds_in(c);
        if secs > 0 {
            if i == 0 || !is_figure_char(cs[i - 1]) {
                assert(!is_figure(cs@[i as int]));
                return false;
            }
            if secs >= last {
                assert(unit_seconds(cs@[i as int]) > 0);
                return false;
            }
            last = secs;
            assert(unit_seconds(cs@[i as int]) == last);
        } else if !is_figure_char(c) {
            assert(!is_figure(cs@[i as int]));
            return false;
        }
    }
    n == 0 || seconds_in(cs[n - 1]) > 0
}

fn is_size_letter(c: char) -> (r: bool)
    ensures
        r == is_size_unit(c),
{
    bytes_in(c) > 0 && c != 'e' && c != 'E'
}

fn looks_like_size(cs: &Vec<char>) -> (r: bool)
    ensures
        r == is_like_size(cs@),
{
    let len: usize = cs.len();
    let mut n: usize = 0;
    while n < len && is_figure_char(cs[n])
        invariant
            len == cs@.len(),
            n <= len,
            forall|k: int| 0 <= k < n ==> is_figure(#[trigger] cs@[k]),
        decreases len - n,
    {
        n = n + 1;
    }
    proof {
        // The number ends where the unit starts.
        if is_like_size(cs@) {
            let m = choose|m: int|
                0 < m < cs@.len() && #[trigger] ends_size(cs@, m) && forall|i: int|
                    0 <= i < m ==> is_figure(#[trigger] cs@[i]);
            assert(!is_figure(cs@[m]));
            assert(m == n) by {
                if m < n {
                    assert(is_figure(cs@[m]));
                }
                if n < m {
                    assert(is_figure(cs@[n as int]));
                }
            }
        }
    }
    if n == 0 || n == len {
        return false;
    }
    let rest: usize = len - n;
    let first = cs[n];
    let r: bool = if rest == 1 {
        is_size_letter(first) || first == 'b' || first == 'B'
    } else if rest == 2 {
        let c = cs[n + 1];
        is_size_letter(first) && (c == 'i' || c == 'I' || c == 'b' || c == 'B')
    } else if rest == 3 {
        let (c, d) = (cs[n + 1], cs[n + 2]);
        is_size_letter(first) && (c == 'i' || c == 'I') && (d == 'b' || d == 'B')
    } else {
        false
    };
    assert(r == ends_size(cs@, n as int));
    r
}

fn can_compare_values(reading: Reading, wanted: &str, v: &str, today: Date) -> (r: bool)
    ensures
        r == can_compare(reading, wanted@, v@, today@),
{
    match reading {
        Reading::Words => true,
        Reading::Calendar => true,
        Reading::Dates => can_read_values(Measure::Days, wanted, today) && (!holds_range(wanted)
            || can_count(v, today)),
        Reading::Durations => can_read_values(Measure::Seconds, wanted, today) && can_time(v),
        Reading::Sizes => can_read_values(Measure::Bytes, wanted, today) && can_measure(v),
        Reading::Open => {
            let cs = chars_of(v);
            if looks_like_date(&cs) && !can_read_values(Measure::Days, wanted, today) {
                return false;
            }
            if looks_like_duration(&cs) {
                return can_read_values(Measure::Seconds, wanted, today) && can_time(v);
            }
            !looks_like_size(&cs) || (can_read_values(Measure::Bytes, wanted, today)
                && can_measure(v))
        },
    }
}

/// Whether todo_lib can work a condition out for a task.
fn can_check_cond(cond: &str, t: &Task, today: Date) -> (r: bool)
    ensures
        r == is_safe_cond(cond@, t@, today@),
{
    let cs = chars_of(cond);
    let mut at: usize = 0;
    while at < cs.len() && cs[at] != '='
        invariant
            cs@ == cond@,
            at <= cs@.len(),
            forall|j: int| 0 <= j < at ==> #[trigger] cond@[j] != '=',
        decreases cs@.len() - at,
    {
        at = at + 1;
    }
    proof {
        crate::text::lemma_find_is(cond@, '=', at as int);
    }
    let from: usize = sign_end(&cs, at);
    let name = string_of(&cs, from, at);
    assert(name@ == cond_name(cond@));
    let wanted = if at < cs.len() {
        text_after(cond, at + 1)
    } else {
        String::new()
    };
    assert(wanted@ =~= cond_values(cond@));
    let reading = reading_of(&name);
    if reading == Reading::Calendar {
        let dated: bool = if name == "completed".to_owned() {
            t.finish_date.is_some()
        } else {
            t.create_date.is_some()
        };
        if dated && !can_read_values(Measure::Days, wanted.as_str(), today) {
            return false;
        }
    }
    match t.tags.get(name.as_str()) {
        Some(v) => can_compare_values(reading, wanted.as_str(), v.as_str(), today),
        None => true,
    }
}

/// Whether todo_lib can work a rule out for a task.
fn can_check_rule(rule: &str, t: &Task, today: Date) -> (r: bool)
    ensures
        r == is_safe_rule(rule@, t@, today@),
{
    let conds = split_at_char(rule, ';');
    for i in 0..conds.len()
        invariant
            texts(conds@) == split(rule@, ';'),
            forall|j: int|
                0 <= j < i ==> is_safe_cond(#[trigger] split(rule@, ';')[j], t@, today@),
    {
        assert(split(rule@, ';')[i as int] == conds@[i as int]@);
        if !can_check_cond(conds[i].as_str(), t, today) {
            return false;
        }
    }
    true
}

/// Calls `todo_lib::flt::Filter::matches` for a parsed rule. The answer depends
/// on the rule, the task and the day alone; it is given a name. Dates that the
/// rule or a tag gives as offsets from the day have to stay in the calendar, and
/// sizes and durations in the range of 64 bits: todo_lib counts them unchecked.
#[verifier::external_body]
fn rule_matches(rule: &str, task: Task, today: Date) -> (r: bool)
    requires
        is_safe_rule(rule@, task@, today@),
        is_inner_day(today@),
    ensures
        r == rule_admits(rule@, task@, today@),
{
    let date = |d: Date| chrono::NaiveDate::from_num_days_from_ce_opt(d.days).unwrap();
    let t = todo_lib::todotxt::Task {
        subject: task.subject, priority: task.priority, finished: task.finished,
        contexts: task.contexts, projects: task.projects, hashtags: task.hashtags,
        tags: task.tags.entries.into_iter().collect(),
        create_date: task.create_date.map(date), finish_date: task.finish_date.map(date),
        due_date: task.due_date.map(date), threshold_date: task.threshold_date.map(date),
        recurrence: task.recurrence.and_then(|r| r.parse().ok()),
        source: None,
    };
    todo_lib::flt::Filter::parse(rule, false).matches(&t, 0, date(today))
}

/// Whether nothing but semicolons stands in a rule.
pub open spec fn is_void(rule: Seq<char>) -> bool {
    forall|i: int| 0 <= i < rule.len() ==> rule[i] == ';'
}

/// The rules that the pieces of a filter text stand for; a piece without a
/// condition stands for none.
pub open spec fn rules_of(pieces: Seq<Seq<char>>) -> Seq<Seq<char>>
    decreases pieces.len(),
{
    if pieces.len() == 0 {
        Seq::empty()
    } else {
        let front = rules_of(pieces.drop_last());
        let rule = full_rule(trim(pieces.last()));
        if trim(pieces.last()).len() == 0 || is_void(rule) {
            front
        } else {
            front.push(rule)
        }
    }
}

/// The rules of a filter text.
pub open spec fn filter_rules(s: Seq<char>) -> Seq<Seq<char>> {
    rules_of(split(s, if s.contains('~') {
        '~'
    } else {
        '|'
    }))
}

/// Whether one of the rules admits a task.
pub open spec fn rules_admit(rules: Seq<Seq<char>>, task: TaskView, today: int) -> bool {
    exists|i: int| 0 <= i < rules.len() && rule_admits(#[trigger] rules[i], task, today)
}

/// A push filter: a task has to meet one of its rules.
#[derive(Debug)]
pub struct Filter {
    groups: Vec<String>,
}

impl View for Filter {
    type V = Seq<Seq<char>>;

    closed spec fn view(&self) -> Seq<Seq<char>> {
        texts(self.groups@)
    }
}

impl Filter {
    /// Reads a filter text. Every text is accepted; one without a rule gives a
    /// filter that admits nothing.
    pub fn parse(s: &str) -> (r: Self)
        ensures
            r@ == filter_rules(s@),
    {
        let sep: char = if has_char(s, '~') {
            '~'
        } else {
            '|'
        };
        let pieces = split_at_char(s, sep);
        let mut groups: Vec<String> = Vec::new();
        assert(texts(groups@) =~= rules_of(texts(pieces@).take(0)));
        for i in 0..pieces.len()
            invariant
                texts(groups@) == rules_of(texts(pieces@).take(i as int)),
        {
            let ghost more = texts(pieces@).take(i + 1);
            assert(more.drop_last() =~= texts(pieces@).take(i as int));
            assert(more.last() == pieces@[i as int]@);
            let ghost before = texts(groups@);
            let piece = trim_text(pieces[i].as_str());
            if !piece.as_str().is_empty() {
                let rule = normalize_shorthands(piece.as_str());
                if !is_void_rule(rule.as_str()) {
                    groups.push(rule);
                    assert(texts(groups@) =~= before.push(full_rule(piece@)));
                }
            }
        }
        assert(texts(pieces@).take(pieces@.len() as int) =~= texts(pieces@));
        Filter { groups }
    }

    /// The filter that admits nothing.
    pub fn deny_all() -> (r: Self)
        ensures
            r@ == Seq::<Seq<char>>::empty(),
            forall|task: TaskView, today: int| !rules_admit(r@, task, today),
    {
        let r = Filter { groups: Vec::new() };
        assert(r@ =~= Seq::<Seq<char>>::empty());
        r
    }

    /// Whether todo_lib can work the filter out for a task on the day `today`.
    pub fn can_match(&self, task: &Task, today: Date) -> (r: bool)
        ensures
            r == are_safe_rules(self@, task@, today@),
    {
        for i in 0..self.groups.len()
            invariant
                forall|j: int| 0 <= j < i ==> is_safe_rule(#[trigger] self@[j], task@, today@),
        {
            assert(self@[i as int] == self.groups@[i as int]@);
            if !can_check_rule(self.groups[i].as_str(), task, today) {
                return false;
            }
        }
        true
    }

    /// Whether the filter admits a task on the day `today`.
    pub fn matches(&self, task: &Task, today: Date) -> (r: bool)
        requires
            are_safe_rules(self@, task@, today@),
            is_inner_day(today@),
        ensures
            r == rules_admit(self@, task@, today@),
    {
        for i in 0..self.groups.len()
            invariant
                are_safe_rules(self@, task@, today@),
                is_inner_day(today@),
                forall|j: int| 0 <= j < i ==> !rule_admits(#[trigger] self@[j], task@, today@),
        {
            assert(self@[i as int] == self.groups@[i as int]@);
            if rule_matches(self.groups[i].as_str(), task.clone(), today) {
                return true;
            }
        }
        false
    }
}

// ---------------------------------------------------------------------------
// Laws
// ---------------------------------------------------------------------------

/// The rules of pieces one behind the other are the rules of all of them.
proof fn lemma_rules_add(a: Seq<Seq<char>>, b: Seq<Seq<char>>)
    ensures
        rules_of(a + b) == rules_of(a) + rules_of(b),
    decreases b.len(),
{
    if b.len() == 0 {
        assert(a + b =~= a);
        assert(rules_of(a) + rules_of(b) =~= rules_of(a));
    } else {
        lemma_rules_add(a, b.drop_last());
        assert((a + b).drop_last() =~= a + b.drop_last());
        assert(rules_of(a + b) =~= rules_of(a) + rules_of(b));
    }
}

/// One of two lists of rules admits a task where the list of both does.
proof fn lemma_admit_add(a: Seq<Seq<char>>, b: Seq<Seq<char>>, task: TaskView, today: int)
    ensures
        rules_admit(a + b, task, today) <==> rules_admit(a, task, today) || rules_admit(
            b,
            task,
            today,
        ),
{
    let both = a + b;
    assert forall|i: int| 0 <= i < a.len() implies #[trigger] a[i] == both[i] by {}
    assert forall|i: int| 0 <= i < b.len() implies #[trigger] b[i] == both[a.len() + i] by {}
    if rules_admit(both, task, today) {
        let i = choose|i: int| 0 <= i < both.len() && rule_admits(#[trigger] both[i], task, today);
        if i < a.len() {
            assert(rule_admits(a[i], task, today));
        } else {
            assert(rule_admits(b[i - a.len()], task, today));
        }
    }
}

/// A tilde between two filters admits what one of them admits. Neither has a bar, which
/// separates rules only where there is no tilde.
pub proof fn tilde_admits_either(a: Seq<char>, b: Seq<char>, task: TaskView, today: int)
    requires
        !a.contains('|'),
        !b.contains('|'),
    ensures
        rules_admit(filter_rules(a + "~"@ + b), task, today) <==> rules_admit(
            filter_rules(a),
            task,
            today,
        ) || rules_admit(filter_rules(b), task, today),
{
    reveal_strlit("~");
    let s = a.push('~') + b;
    assert(a + "~"@ + b =~= s);
    assert(s[a.len() as int] == '~');
    assert(s.contains('~'));
    crate::text::lemma_split_add(a, '~', b);
    lemma_rules_add(split(a, '~'), split(b, '~'));
    if !a.contains('~') {
        crate::text::lemma_one_piece(a, '~');
        crate::text::lemma_one_piece(a, '|');
    }
    if !b.contains('~') {
        crate::text::lemma_one_piece(b, '~');
        crate::text::lemma_one_piece(b, '|');
    }
    lemma_admit_add(filter_rules(a), filter_rules(b), task, today);
}

/// Where there is no tilde, a bar between two filters admits what one of them admits.
pub proof fn bar_admits_either(a: Seq<char>, b: Seq<char>, task: TaskView, today: int)
    requires
        !a.contains('~'),
        !b.contains('~'),
    ensures
        rules_admit(filter_rules(a + "|"@ + b), task, today) <==> rules_admit(
            filter_rules(a),
            task,
            today,
        ) || rules_admit(filter_rules(b), task, today),
{
    reveal_strlit("|");
    let s = a.push('|') + b;
    assert(a + "|"@ + b =~= s);
    if s.contains('~') {
        let i = s.index_of('~');
        assert(s[i] == '~');
        if i < a.len() {
            assert(a[i] == '~');
        } else {
            assert(b[i - a.len() - 1] == '~');
        }
    }
    crate::text::lemma_split_add(a, '|', b);
    lemma_rules_add(split(a, '|'), split(b, '|'));
    lemma_admit_add(filter_rules(a), filter_rules(b), task, today);
}

/// Nothing is left of white space.
proof fn lemma_trim_blank(s: Seq<char>)
    requires
        forall|i: int| 0 <= i < s.len() ==> is_white(#[trigger] s[i]),
    ensures
        trim(s).len() == 0,
    decreases s.len(),
{
    if s.len() > 0 {
        assert(is_white(s[0]));
        assert forall|i: int| 0 <= i < s.skip(1).len() implies is_white(#[trigger] s.skip(1)[i]) by {
            assert(s.skip(1)[i] == s[i + 1]);
        }
        lemma_trim_blank(s.skip(1));
    }
}

/// A filter text without anything but white space admits no task.
pub proof fn blank_filter_admits_nothing(s: Seq<char>, task: TaskView, today: int)
    requires
        forall|i: int| 0 <= i < s.len() ==> is_white(#[trigger] s[i]),
    ensures
        !rules_admit(filter_rules(s), task, today),
{
    assert forall|c: char| s.contains(c) implies is_white(c) by {
        let i = s.index_of(c);
        assert(is_white(s[i]));
    }
    assert(!is_white('~') && !is_white('|'));
    crate::text::lemma_one_piece(s, '|');
    lemma_trim_blank(s);
    let pieces = seq![s];
    assert(pieces.drop_last() =~= Seq::<Seq<char>>::empty());
    assert(pieces.last() == s);
    assert(rules_of(pieces.drop_last()).len() == 0);
    assert(rules_of(pieces).len() == 0);
}

/// A bare context, project or hashtag is short for a condition on it, with or without a
/// minus before it. A condition that is not short stays, but for the plus signs of
/// offsets behind its `=`.
pub proof fn short_conditions_are_written_out(name: Seq<char>, sign: char, cond: Seq<char>)
    requires
        !name.contains('='),
        sign == '@' || sign == '+' || sign == '#',
    ensures
        full_cond(seq![sign] + name) == seq![sign, '='] + name,
        full_cond(seq!['-', sign] + name) == seq!['-', sign, '='] + name,
        !cond.contains('=') && sign_len(cond) == 0 ==> full_cond(cond) == cond,
        cond.contains('=') && !cond.contains('+') ==> full_cond(cond) == cond,
{
    let a = seq![sign] + name;
    let b = seq!['-', sign] + name;
    assert(!a.contains('=')) by {
        if a.contains('=') {
            let i = a.index_of('=');
            assert(i > 0);
            assert(name[i - 1] == '=');
        }
    }
    assert(!b.contains('=')) by {
        if b.contains('=') {
            let i = b.index_of('=');
            assert(i > 1);
            assert(name[i - 2] == '=');
        }
    }
    assert(a[0] == sign);
    assert(b[0] == '-' && b[1] == sign);
    assert(full_cond(a) =~= seq![sign, '='] + name);
    assert(full_cond(b) =~= seq!['-', sign, '='] + name);
    if cond.contains('=') && !cond.contains('+') {
        let n = find(cond, '=') as int;
        if n < cond.len() {
            let rest = cond.skip(n + 1);
            assert forall|i: int| 0 <= i < rest.len() implies #[trigger] rest[i] != '+' by {
                assert(rest[i] == cond[n + 1 + i]);
                if rest[i] == '+' {
                    assert(cond.contains('+'));
                }
            }
            lemma_no_plus(rest);
            assert(full_cond(cond) =~= cond);
        }
    }
}

proof fn lemma_no_plus(s: Seq<char>)
    requires
        forall|i: int| 0 <= i < s.len() ==> #[trigger] s[i] != '+',
    ensures
        without_plus(s) == s,
    decreases s.len(),
{
    if s.len() > 0 {
        let rest = s.skip(1);
        assert forall|i: int| 0 <= i < rest.len() implies #[trigger] rest[i] != '+' by {
            assert(rest[i] == s[i + 1]);
        }
        lemma_no_plus(rest);
        assert(s[0] != '+');
        assert(without_plus(s) =~= s);
    }
}

proof fn lemma_digits_then(ds: Seq<char>, unit: char, rest: Seq<char>)
    requires
        forall|i: int| 0 <= i < ds.len() ==> is_digit(#[trigger] ds[i]),
        !is_digit(unit),
    ensures
        digits(ds + seq![unit] + rest) == ds.len(),
    decreases ds.len(),
{
    let s = ds + seq![unit] + rest;
    if ds.len() == 0 {
        assert(s[0] == unit);
    } else {
        assert(s[0] == ds[0]);
        let less = ds.skip(1);
        assert forall|i: int| 0 <= i < less.len() implies is_digit(#[trigger] less[i]) by {
            assert(less[i] == ds[i + 1]);
        }
        assert(s.skip(1) =~= less + seq![unit] + rest);
        lemma_digits_then(less, unit, rest);
    }
}

/// A plus sign before digits and a unit of time goes, and one before anything else stays.
pub proof fn plus_of_offset_goes(
    ds: Seq<char>,
    unit: char,
    rest: Seq<char>,
    other: Seq<char>,
)
    requires
        ds.len() > 0,
        forall|i: int| 0 <= i < ds.len() ==> is_digit(#[trigger] ds[i]),
        unit == 'd' || unit == 'w' || unit == 'm' || unit == 'y',
        other.len() > 0 ==> !is_digit(other[0]),
    ensures
        without_plus(seq!['+'] + ds + seq![unit] + rest) == without_plus(ds + seq![unit] + rest),
        without_plus(seq!['+'] + other) == seq!['+'] + without_plus(other),
{
    let body = ds + seq![unit] + rest;
    let s = seq!['+'] + ds + seq![unit] + rest;
    lemma_digits_then(ds, unit, rest);
    assert(s[0] == '+');
    assert(s.skip(1) =~= body);
    assert(body[ds.len() as int] == unit);
    assert((seq!['+'] + other)[0] == '+');
    assert((seq!['+'] + other).skip(1) =~= other);
    assert(digits(other) == 0);
}

proof fn lemma_join_add(a: Seq<Seq<char>>, b: Seq<Seq<char>>)
    requires
        a.len() > 0,
        b.len() > 0,
    ensures
        join(a + b, ";"@) == join(a, ";"@) + ";"@ + join(b, ";"@),
    decreases b.len(),
{
    let all = a + b;
    assert(all.last() == b.last());
    if b.len() == 1 {
        assert(all.drop_last() =~= a);
        assert(join(b, ";"@) == b[0]);
        assert(join(all, ";"@) =~= join(a, ";"@) + ";"@ + b[0]);
    } else {
        assert(all.drop_last() =~= a + b.drop_last());
        lemma_join_add(a, b.drop_last());
        assert(join(all, ";"@) =~= join(a, ";"@) + ";"@ + join(b, ";"@));
    }
}

/// The conditions of a rule are written out one by one.
pub proof fn conditions_are_written_out_in_turn(a: Seq<char>, b: Seq<char>)
    ensures
        full_rule(a + ";"@ + b) == full_rule(a) + ";"@ + full_rule(b),
        !a.contains(';') ==> full_rule(a) == full_cond(trim(a)),
{
    reveal_strlit(";");
    let f = |c: Seq<char>| full_cond(trim(c));
    assert(a + ";"@ + b =~= a.push(';') + b);
    crate::text::lemma_split_add(a, ';', b);
    let pa = split(a, ';');
    let pb = split(b, ';');
    assert((pa + pb).map_values(f) =~= pa.map_values(f) + pb.map_values(f));
    assert(pa.len() > 0 && pb.len() > 0);
    lemma_join_add(pa.map_values(f), pb.map_values(f));
    if !a.contains(';') {
        crate::text::lemma_one_piece(a, ';');
        let one = seq![a].map_values(f);
        assert(one.len() == 1 && one[0] == full_cond(trim(a)));
        assert(join(one, ";"@) == one[0]);
    }
}

proof fn lemma_walk_number(n: nat, back: bool, today: int)
    requires
        n <= MOST_UNITS,
    ensures
        walk(decimal(n), back, today) == (Walk { num: n, day: today, fits: true }),
    decreases n,
{
    let s = decimal(n);
    decimal_reads_back(n);
    assert(is_digit(s[s.len() - 1]));
    if n < 10 {
        assert(s.drop_last() =~= Seq::<char>::empty());
        assert(walk(s.drop_last(), back, today) == (Walk { num: 0, day: today, fits: true }));
    } else {
        lemma_walk_number(n / 10, back, today);
        assert(s.drop_last() =~= decimal(n / 10));
    }
}

/// A number of days or weeks, forward or, with a minus before it, back, can be counted
/// from a day exactly where it does not leave the calendar.
pub proof fn offsets_stay_in_calendar(n: nat, today: int)
    requires
        0 < n <= MOST_UNITS,
    ensures
        offset_fits(decimal(n).push('d'), today) <==> MIN_DAYS <= today + n <= MAX_DAYS,
        offset_fits(decimal(n).push('w'), today) <==> MIN_DAYS <= today + 7 * n <= MAX_DAYS,
        offset_fits(seq!['-'] + decimal(n).push('d'), today) <==> MIN_DAYS <= today - n <= MAX_DAYS,
        offset_fits(seq!['-'] + decimal(n).push('w'), today) <==> MIN_DAYS <= today - 7 * n
            <= MAX_DAYS,
{
    let ds = decimal(n);
    decimal_reads_back(n);
    lemma_walk_number(n, false, today);
    lemma_walk_number(n, true, today);
    assert(is_digit(ds[0]));
    let a = ds.push('d');
    let b = ds.push('w');
    assert(a.drop_last() =~= ds);
    assert(b.drop_last() =~= ds);
    assert((seq!['-'] + a).skip(1) =~= a);
    assert((seq!['-'] + b).skip(1) =~= b);
    assert((seq!['-'] + a)[0] == '-');
    assert((seq!['-'] + b)[0] == '-');
    assert(a[0] == ds[0] && b[0] == ds[0]);
    assert(is_offset(a)) by {
        assert(is_unit(a[ds.len() as int]));
        assert forall|i: int| 0 <= i < a.len() implies is_digit(#[trigger] a[i]) || is_unit(
            a[i],
        ) by {
            if i < ds.len() {
                assert(a[i] == ds[i]);
            }
        }
    }
    assert(is_offset(b)) by {
        assert(is_unit(b[ds.len() as int]));
        assert forall|i: int| 0 <= i < b.len() implies is_digit(#[trigger] b[i]) || is_unit(
            b[i],
        ) by {
            if i < ds.len() {
                assert(b[i] == ds[i]);
            }
        }
    }
}

/// A condition on a tag that a task does not have, or on the words of a task, can always
/// be worked out, unless it is about a date of the task.
pub proof fn conditions_on_words_are_safe(cond: Seq<char>, t: TaskView, today: int)
    ensures
        is_part(cond_name(cond)) ==> is_safe_cond(cond, t, today),
        !t.tags.dom().contains(cond_name(cond)) && cond_name(cond) != "completed"@ && cond_name(
            cond,
        ) != "created"@ && cond_name(cond) != "create"@ ==> is_safe_cond(cond, t, today),
{
}

/// Months and years keep the day of the month. The last day of a month stays the last, and
/// a day that the new month does not have becomes its last.
pub proof fn months_keep_the_day(y: int, m: int, d: int, n: int, home: int)
    requires
        is_civil(y, m, d),
    ensures
        ({
            let by = y + (m - 1 + n) / 12;
            let bm = (m - 1 + n) % 12 + 1;
            let there = months_on(civil_day(y, m, d), n);
            &&& FIRST_YEAR <= by <= LAST_YEAR && d < month_len(y, m) && d <= month_len(by, bm)
                ==> there == civil_day(by, bm, d)
            &&& FIRST_YEAR <= by <= LAST_YEAR && (d == month_len(y, m) || d > month_len(by, bm))
                ==> there == civil_day(by, bm, month_len(by, bm))
            &&& !(FIRST_YEAR <= by <= LAST_YEAR) ==> there == civil_day(y, m, d)
        }),
        ({
            let there = years_on(civil_day(y, m, d), n, home);
            &&& FIRST_YEAR <= y + n <= LAST_YEAR && d < month_len(y, m) ==> there == civil_day(
                y + n,
                m,
                d,
            )
            &&& FIRST_YEAR <= y + n <= LAST_YEAR && d == month_len(y, m) ==> there == civil_day(
                y + n,
                m,
                month_len(y + n, m),
            )
            &&& !(FIRST_YEAR <= y + n <= LAST_YEAR) ==> there == home
        }),
{
    dates_follow_each_other(y, m, d);
}

/// A text without a separator is one rule, the one that it writes, unless nothing is in
/// it.
pub proof fn one_rule_is_kept(s: Seq<char>)
    requires
        !s.contains('~'),
        !s.contains('|'),
    ensures
        filter_rules(s) == (if trim(s).len() == 0 || is_void(full_rule(trim(s))) {
            Seq::empty()
        } else {
            seq![full_rule(trim(s))]
        }),
{
    crate::text::lemma_one_piece(s, '|');
    let pieces = seq![s];
    assert(pieces.drop_last() =~= Seq::<Seq<char>>::empty());
    assert(pieces.last() == s);
    assert(rules_of(pieces.drop_last()) =~= Seq::<Seq<char>>::empty());
    assert(rules_of(pieces) =~= if trim(s).len() == 0 || is_void(full_rule(trim(s))) {
        Seq::<Seq<char>>::empty()
    } else {
        seq![full_rule(trim(s))]
    });
}

proof fn lemma_timing_number(n: nat)
    ensures
        timing(decimal(n)) == (Timing { part: Part::Number, num: n, unit: 0, sum: 0, fits: true }),
    decreases n,
{
    let s = decimal(n);
    decimal_reads_back(n);
    assert(is_digit(s[s.len() - 1]));
    if n < 10 {
        assert(s.drop_last() =~= Seq::<char>::empty());
        assert(timing(s.drop_last()).part == Part::Start);
    } else {
        lemma_timing_number(n / 10);
        assert(s.drop_last() =~= decimal(n / 10));
    }
}

/// A number of seconds, minutes, hours, days or weeks can be read as a duration, as long
/// as the number has 32 bits.
pub proof fn durations_can_be_read(n: nat, unit: char)
    requires
        n <= MOST_UNITS,
        unit == 's' || unit == 'm' || unit == 'h' || unit == 'd' || unit == 'w',
    ensures
        duration_fits(decimal(n)),
        duration_fits(decimal(n).push(unit)),
        duration_fits(seq!['-'] + decimal(n).push(unit)),
{
    let ds = decimal(n);
    let s = ds.push(unit);
    let b = seq!['-'] + s;
    decimal_reads_back(n);
    lemma_timing_number(n);
    assert(is_digit(ds[0]));
    assert(s[0] == ds[0]);
    assert(s.drop_last() =~= ds);
    assert(b[0] == '-');
    assert(b.skip(1) =~= s);
    assert(without_dashes(s) == s);
    assert(n * unit_seconds(unit) <= n * 604800) by (nonlinear_arith)
        requires
            unit_seconds(unit) <= 604800,
    ;
}

proof fn lemma_last_number(n: nat)
    ensures
        last_number(decimal(n)) == n,
    decreases n,
{
    let s = decimal(n);
    decimal_reads_back(n);
    assert(is_digit(s[s.len() - 1]));
    if n < 10 {
        assert(s.drop_last() =~= Seq::<char>::empty());
        assert(last_number(s.drop_last()) == 0);
    } else {
        lemma_last_number(n / 10);
        assert(s.drop_last() =~= decimal(n / 10));
    }
}

/// A number of kilobytes, megabytes, gigabytes or terabytes can be read as a size exactly
/// where the bytes have 64 bits, or the number has more itself and is not read at all.
pub proof fn sizes_can_be_read(n: nat)
    ensures
        size_fits(decimal(n).push('k')) <==> n * 1024 <= u64::MAX || n > u64::MAX,
        size_fits(decimal(n).push('m')) <==> n * 1024 * 1024 <= u64::MAX || n > u64::MAX,
        size_fits(decimal(n).push('g')) <==> n * 1024 * 1024 * 1024 <= u64::MAX || n > u64::MAX,
        size_fits(decimal(n).push('t')) <==> n * 1024 * 1024 * 1024 * 1024 <= u64::MAX || n
            > u64::MAX,
{
    lemma_size(n, 'k');
    lemma_size(n, 'm');
    lemma_size(n, 'g');
    lemma_size(n, 't');
}

proof fn lemma_size(n: nat, c: char)
    requires
        unit_bytes(c) > 0,
        !is_digit(c),
    ensures
        size_fits(decimal(n).push(c)) <==> n * unit_bytes(c) <= u64::MAX || n > u64::MAX,
{
    let ds = decimal(n);
    let v = ds.push(c);
    let k = ds.len() as int;
    decimal_reads_back(n);
    lemma_last_number(n);
    assert(is_digit(ds[0]));
    assert(v[0] == ds[0]);
    lemma_digits_then(ds, c, Seq::empty());
    assert(ds + seq![c] + Seq::<char>::empty() =~= v);
    assert(digits_end(v) == k);
    assert(is_digit(ds[k - 1]));
    assert(v[k - 1] == ds[k - 1]);
    assert(v[k] == c);
    assert(v.take(k) =~= ds);
    assert(names_unit(v, k, 1));
    assert(is_size(v));
}

/// Rules can be worked out where all their conditions can; and rules of conditions on the
/// words of a task always can.
pub proof fn rules_on_words_are_safe(rules: Seq<Seq<char>>, t: TaskView, today: int)
    requires
        forall|i: int, k: int|
            0 <= i < rules.len() && 0 <= k < split(rules[i], ';').len() ==> is_part(
                cond_name(#[trigger] split(#[trigger] rules[i], ';')[k]),
            ),
    ensures
        are_safe_rules(rules, t, today),
{
    assert forall|i: int| 0 <= i < rules.len() implies is_safe_rule(#[trigger] rules[i], t, today) by {
        let conds = split(rules[i], ';');
        assert forall|k: int| 0 <= k < conds.len() implies is_safe_cond(
            #[trigger] conds[k],
            t,
            today,
        ) by {
            assert(is_part(cond_name(split(rules[i], ';')[k])));
        }
    }
}

} // verus!
