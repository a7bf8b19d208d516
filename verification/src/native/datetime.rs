//! Points in time as milliseconds since the Unix epoch, their calendar
//! components in UTC, and their text forms.

use crate::text::{
    all_digits, chars_of, copy_range, decimal, decimal_value, is_digit, parse_number, push_decimal,
    rows, split, split_chars, string_of,
};
use std::time::{Duration, SystemTime, SystemTimeError};
use vstd::prelude::*;

verus! {

/// A point in time: milliseconds since 1970-01-01T00:00:00Z.
#[derive(Debug, Clone, Copy, PartialEq, Eq, Structural, PartialOrd, Ord)]
pub struct DateTime {
    pub millis: u64,
}

/// `std::time::SystemTime`, a reading of the system clock, as an opaque
/// value.
#[verifier::external_type_specification]
#[verifier::external_body]
pub struct ExSystemTime(SystemTime);

/// `std::time::SystemTimeError`, the failure of a clock that reads earlier
/// than expected, as an opaque value.
#[verifier::external_type_specification]
#[verifier::external_body]
pub struct ExSystemTimeError(SystemTimeError);

/// `SystemTime::now`: the reading of the system clock. Nothing is claimed of
/// it.
#[verifier::external_body]
fn system_now() -> SystemTime {
    SystemTime::now()
}

/// `SystemTime::duration_since`, taken from the Unix epoch: the time passed
/// since then, or an error where the clock reads earlier. Nothing is claimed
/// of either.
#[verifier::external_body]
fn since_epoch(t: &SystemTime) -> Result<Duration, SystemTimeError> {
    t.duration_since(std::time::UNIX_EPOCH)
}

/// `Duration::as_millis`: the whole milliseconds of a duration. Nothing is
/// claimed of their number.
#[verifier::external_body]
fn whole_millis(d: &Duration) -> u128 {
    d.as_millis()
}

// ---------------------------------------------------------------------------
// Calendar
// ---------------------------------------------------------------------------

/// Whether `year` is a leap year of the Gregorian calendar.
pub open spec fn leap_year(year: int) -> bool {
    (year % 4 == 0 && year % 100 != 0) || year % 400 == 0
}

/// The number of days of `year`.
pub open spec fn year_days(year: int) -> int {
    if leap_year(year) {
        366
    } else {
        365
    }
}

/// The number of days of the month `month` of `year`; 0 for a month outside
/// 1 to 12.
pub open spec fn month_days(year: int, month: int) -> int {
    if month == 1 || month == 3 || month == 5 || month == 7 || month == 8 || month == 10 || month
        == 12 {
        31
    } else if month == 4 || month == 6 || month == 9 || month == 11 {
        30
    } else if month == 2 {
        if leap_year(year) {
            29
        } else {
            28
        }
    } else {
        0
    }
}

/// The days from 1970-01-01 to the first day of `year`; 0 for a year up to
/// 1970.
pub open spec fn days_before_year(year: int) -> int
    decreases year,
{
    if year <= 1970 {
        0
    } else {
        days_before_year(year - 1) + year_days(year - 1)
    }
}

/// The days from the first day of `year` to the first day of its month
/// `month`.
pub open spec fn days_before_month(year: int, month: int) -> int
    decreases month,
{
    if month <= 1 {
        0
    } else {
        days_before_month(year, month - 1) + month_days(year, month - 1)
    }
}

/// The day number of a date, counted from 1970-01-01 as day 0.
pub open spec fn day_number(year: int, month: int, day: int) -> int {
    days_before_year(year) + days_before_month(year, month) + day - 1
}

/// A year begins between 365 and 366 days later for each year since 1970.
pub proof fn lemma_days_before_year(year: int)
    requires
        year >= 1970,
    ensures
        365 * (year - 1970) <= days_before_year(year) <= 366 * (year - 1970),
    decreases year,
{
    if year > 1970 {
        lemma_days_before_year(year - 1);
    }
}

/// A month begins at most 31 days later for each month before it, and the
/// thirteenth would begin with the next year.
pub proof fn lemma_days_before_month(year: int, month: int)
    requires
        1 <= month <= 13,
    ensures
        0 <= days_before_month(year, month) <= 31 * (month - 1),
        month == 13 ==> days_before_month(year, month) == year_days(year),
    decreases month,
{
    if month > 1 {
        lemma_days_before_month(year, month - 1);
    }
    if month == 13 {
        reveal_with_fuel(days_before_month, 14);
    }
}

fn is_leap_year(year: u32) -> (r: bool)
    ensures
        r == leap_year(year as int),
{
    (year % 4 == 0 && year % 100 != 0) || (year % 400 == 0)
}

fn days_in_month(year: u32, month: u32) -> (r: u32)
    ensures
        r == month_days(year as int, month as int),
{
    if month == 1 || month == 3 || month == 5 || month == 7 || month == 8 || month == 10 || month
        == 12 {
        31
    } else if month == 4 || month == 6 || month == 9 || month == 11 {
        30
    } else if month == 2 {
        if is_leap_year(year) {
            29
        } else {
            28
        }
    } else {
        0
    }
}

/// The day number of a date, for a month from 1 to 12 and a day from 1 to
/// 31, where it fits in 32 bits.
fn days_since_epoch(year: u32, month: u32, day: u32) -> (r: Option<u32>)
    ensures
        r == (if 1 <= month <= 12 && 1 <= day <= 31 && day_number(
            year as int,
            month as int,
            day as int,
        ) <= u32::MAX {
            Some(day_number(year as int, month as int, day as int) as u32)
        } else {
            None
        }),
        r matches Some(d) ==> d == day_number(year as int, month as int, day as int),
{
    if month < 1 || month > 12 || day < 1 || day > 31 {
        return None;
    }
    proof {
        lemma_days_before_month(year as int, month as int);
        if year >= 1970 {
            lemma_days_before_year(year as int);
        }
    }
    let mut days: u32 = 0;
    let mut y: u32 = 1970;
    while y < year
        invariant
            1970 <= y <= year || (y == 1970 && year < 1970),
            days == days_before_year(y as int),
            1 <= month <= 12,
            1 <= day <= 31,
        decreases year - y,
    {
        let len: u32 = if is_leap_year(y) {
            366
        } else {
            365
        };
        proof {
            lemma_days_before_year(year as int);
            lemma_days_before_year(y as int + 1);
            lemma_year_order(y as int + 1, year as int);
            lemma_days_before_month(year as int, month as int);
        }
        if days > u32::MAX - len {
            return None;
        }
        days = days + len;
        y = y + 1;
    }
    let mut m: u32 = 1;
    let mut total: u64 = days as u64;
    while m < month
        invariant
            1 <= m <= month <= 12,
            total == days_before_year(year as int) + days_before_month(year as int, m as int),
            total <= u32::MAX + 31 * (m - 1),
        decreases month - m,
    {
        proof {
            lemma_days_before_month(year as int, m as int);
            lemma_days_before_month(year as int, m as int + 1);
        }
        total = total + days_in_month(year, m) as u64;
        m = m + 1;
    }
    total = total + (day - 1) as u64;
    if total > u32::MAX as u64 {
        None
    } else {
        Some(total as u32)
    }
}

/// Later years begin later.
proof fn lemma_year_order(a: int, b: int)
    requires
        a <= b,
    ensures
        days_before_year(a) <= days_before_year(b),
    decreases b - a,
{
    if a < b {
        lemma_year_order(a, b - 1);
    }
}

/// The date of a day number.
fn days_to_date(days: u64) -> (r: (u32, u32, u32))
    requires
        days <= u64::MAX / 86_400_000,
    ensures
        1970 <= r.0,
        1 <= r.1 <= 12,
        1 <= r.2 <= month_days(r.0 as int, r.1 as int),
        day_number(r.0 as int, r.1 as int, r.2 as int) == days,
{
    let mut rest: u64 = days;
    let mut year: u32 = 1970;
    loop
        invariant_except_break
            1970 <= year,
            rest <= days,
            days_before_year(year as int) + rest == days,
            days <= u64::MAX / 86_400_000,
        ensures
            1970 <= year,
            days_before_year(year as int) + rest == days,
            rest < year_days(year as int),
        decreases rest,
    {
        let len: u64 = if is_leap_year(year) {
            366
        } else {
            365
        };
        if rest < len {
            break ;
        }
        proof {
            lemma_days_before_year(year as int);
        }
        rest = rest - len;
        year = year + 1;
    }
    let mut month: u32 = 1;
    while month <= 12
        invariant_except_break
            1 <= month <= 12,
            days_before_year(year as int) + days_before_month(year as int, month as int) + rest
                == days,
            days_before_month(year as int, month as int) + rest < year_days(year as int),
        ensures
            1 <= month <= 12,
            days_before_year(year as int) + days_before_month(year as int, month as int) + rest
                == days,
            rest < month_days(year as int, month as int),
        decreases 13 - month,
    {
        let len = days_in_month(year, month) as u64;
        if rest < len {
            break ;
        }
        proof {
            lemma_days_before_month(year as int, month as int + 1);
        }
        rest = rest - len;
        month = month + 1;
    }
    (year, month, (rest + 1) as u32)
}

// ---------------------------------------------------------------------------
// Text
// ---------------------------------------------------------------------------

/// `n` zeros.
pub open spec fn zeros(n: nat) -> Seq<char> {
    Seq::new(n, |i: int| '0')
}

/// The decimal notation of `n`, filled with zeros on the left up to `width`
/// characters.
pub open spec fn padded(n: nat, width: nat) -> Seq<char> {
    if decimal(n).len() >= width {
        decimal(n)
    } else {
        zeros((width - decimal(n).len()) as nat) + decimal(n)
    }
}

/// The components of a point in time: year, month, day, hour, minute, second
/// and millisecond.
pub struct Components {
    pub year: int,
    pub month: int,
    pub day: int,
    pub hour: int,
    pub minute: int,
    pub second: int,
    pub millis: int,
}

/// `YYYY-MM-DD`
pub open spec fn date_text(c: Components) -> Seq<char> {
    padded(c.year as nat, 4) + seq!['-'] + padded(c.month as nat, 2) + seq!['-'] + padded(
        c.day as nat,
        2,
    )
}

/// `HH:MM:SS`
pub open spec fn time_text(c: Components) -> Seq<char> {
    padded(c.hour as nat, 2) + seq![':'] + padded(c.minute as nat, 2) + seq![':'] + padded(
        c.second as nat,
        2,
    )
}

/// `YYYY-MM-DDTHH:MM:SS.sssZ`
pub open spec fn iso_text(c: Components) -> Seq<char> {
    date_text(c) + seq!['T'] + time_text(c) + seq!['.'] + padded(c.millis as nat, 3) + seq!['Z']
}

/// `YYYY-MM-DD HH:MM:SS`
pub open spec fn plain_text(c: Components) -> Seq<char> {
    date_text(c) + seq![' '] + time_text(c)
}

fn push_padded(out: &mut Vec<char>, n: u32, width: usize)
    ensures
        final(out)@ == old(out)@ + padded(n as nat, width as nat),
{
    let mut digits: Vec<char> = Vec::new();
    push_decimal(&mut digits, n as u64);
    assert(digits@ =~= decimal(n as nat));
    let ghost before = out@;
    if digits.len() < width {
        let fill = width - digits.len();
        let mut i: usize = 0;
        while i < fill
            invariant
                i <= fill,
                out@ == before + zeros(i as nat),
            decreases fill - i,
        {
            out.push('0');
            assert(out@ =~= before + zeros((i + 1) as nat));
            i += 1;
        }
    } else {
        assert(out@ =~= before + zeros(0));
    }
    let ghost mid = out@;
    crate::text::push_range(out, &digits, 0, digits.len());
    proof {
        assert(digits@.subrange(0, digits.len() as int) =~= digits@);
        if digits.len() < width {
            assert(out@ =~= before + (zeros((width - digits.len()) as nat) + decimal(n as nat)));
        } else {
            assert(out@ =~= before + decimal(n as nat));
        }
    }
}

fn push_date(out: &mut Vec<char>, c: (u32, u32, u32, u32, u32, u32, u32))
    ensures
        final(out)@ == old(out)@ + date_text(components_of(c)),
{
    push_padded(out, c.0, 4);
    out.push('-');
    push_padded(out, c.1, 2);
    out.push('-');
    push_padded(out, c.2, 2);
    assert(out@ =~= old(out)@ + date_text(components_of(c)));
}

fn push_time(out: &mut Vec<char>, c: (u32, u32, u32, u32, u32, u32, u32))
    ensures
        final(out)@ == old(out)@ + time_text(components_of(c)),
{
    push_padded(out, c.3, 2);
    out.push(':');
    push_padded(out, c.4, 2);
    out.push(':');
    push_padded(out, c.5, 2);
    assert(out@ =~= old(out)@ + time_text(components_of(c)));
}

/// The components as a record.
pub open spec fn components_of(c: (u32, u32, u32, u32, u32, u32, u32)) -> Components {
    Components {
        year: c.0 as int,
        month: c.1 as int,
        day: c.2 as int,
        hour: c.3 as int,
        minute: c.4 as int,
        second: c.5 as int,
        millis: c.6 as int,
    }
}

/// The components of the point in time `millis`: those of the date whose day
/// number is the count of whole days, and the hour, minute and second of
/// what is left of the seconds.
pub open spec fn is_components_of(c: Components, millis: int) -> bool {
    &&& c.year >= 1970
    &&& 1 <= c.month <= 12
    &&& 1 <= c.day <= month_days(c.year, c.month)
    &&& day_number(c.year, c.month, c.day) == (millis / 1000) / 86400
    &&& c.hour == ((millis / 1000) % 86400) / 3600
    &&& c.minute == (((millis / 1000) % 86400) % 3600) / 60
    &&& c.second == ((millis / 1000) % 86400) % 60
    &&& c.millis == millis % 1000
}

/// The milliseconds that components stand for.
pub open spec fn millis_of(c: Components) -> int {
    day_number(c.year, c.month, c.day) * 86_400_000 + c.hour * 3_600_000 + c.minute * 60_000
        + c.second * 1000 + c.millis
}

// ---------------------------------------------------------------------------
// Numbers in text
// ---------------------------------------------------------------------------

/// The number below 2^32 that `s` denotes: digits, after an optional `+`.
pub open spec fn parse_u32_spec(s: Seq<char>) -> Option<u32> {
    let digits = if s.len() > 0 && s[0] == '+' {
        s.subrange(1, s.len() as int)
    } else {
        s
    };
    if digits.len() > 0 && all_digits(digits) && decimal_value(digits) <= u32::MAX {
        Some(decimal_value(digits) as u32)
    } else {
        None
    }
}

fn parse_u32(s: &Vec<char>) -> (r: Option<u32>)
    ensures
        r == parse_u32_spec(s@),
{
    let lo: usize = if s.len() > 0 && s[0] == '+' {
        1
    } else {
        0
    };
    let ghost digits = s@.subrange(lo as int, s.len() as int);
    assert(lo == 0 ==> digits =~= s@);
    if lo == s.len() {
        return None;
    }
    let mut i: usize = lo;
    while i < s.len()
        invariant
            lo <= i <= s.len(),
            lo < s.len(),
            digits == s@.subrange(lo as int, s.len() as int),
            digits == (if s@.len() > 0 && s@[0] == '+' {
                s@.subrange(1, s@.len() as int)
            } else {
                s@
            }),
            forall|j: int| 0 <= j < i - lo ==> is_digit(#[trigger] digits[j]),
        decreases s.len() - i,
    {
        if !crate::text::is_digit_char(s[i]) {
            assert(!is_digit(digits[i - lo]));
            return None;
        }
        i += 1;
    }
    match parse_number(s, lo, s.len()) {
        Some(n) => if n <= 0xffff_ffff {
            Some(n as u32)
        } else {
            None
        },
        None => None,
    }
}

/// `s` without the `Z`s at its end.
pub open spec fn without_zulu(s: Seq<char>) -> Seq<char>
    decreases s.len(),
{
    if s.len() > 0 && s.last() == 'Z' {
        without_zulu(s.drop_last())
    } else {
        s
    }
}

/// The point in time that the text denotes: a date `Y-M-D`, a `T`, and a
/// time `h:m:s` or `h:m:s.f`, each number with an optional `+`; `Z`s at the
/// end are ignored. The fraction is taken as a count of milliseconds.
pub open spec fn parse_iso_spec(s: Seq<char>) -> Option<Components> {
    let parts = split(without_zulu(s), 'T');
    if parts.len() != 2 {
        None
    } else {
        let date = split(parts[0], '-');
        let time = split(parts[1], ':');
        if date.len() != 3 || time.len() != 3 {
            None
        } else {
            let sec = split(time[2], '.');
            let fraction = if sec.len() > 1 {
                parse_u32_spec(sec[1])
            } else {
                Some(0u32)
            };
            if parse_u32_spec(date[0]) is Some && parse_u32_spec(date[1]) is Some
                && parse_u32_spec(date[2]) is Some && parse_u32_spec(time[0]) is Some
                && parse_u32_spec(time[1]) is Some && parse_u32_spec(sec[0]) is Some
                && fraction is Some {
                Some(
                    Components {
                        year: parse_u32_spec(date[0])->0 as int,
                        month: parse_u32_spec(date[1])->0 as int,
                        day: parse_u32_spec(date[2])->0 as int,
                        hour: parse_u32_spec(time[0])->0 as int,
                        minute: parse_u32_spec(time[1])->0 as int,
                        second: parse_u32_spec(sec[0])->0 as int,
                        millis: fraction->0 as int,
                    },
                )
            } else {
                None
            }
        }
    }
}

/// Whether components can be made a point in time: the month is from 1 to
/// 12, the day from 1 to 31, and the day number fits in 32 bits.
pub open spec fn can_be_built(c: Components) -> bool {
    1 <= c.month <= 12 && 1 <= c.day <= 31 && day_number(c.year, c.month, c.day) <= u32::MAX
}

// ---------------------------------------------------------------------------
// Durations as text
// ---------------------------------------------------------------------------

/// The parts of a duration of `secs` seconds: days, hours, minutes and
/// seconds, each with its unit letter, those that are 0 left out; the
/// seconds stay where all are 0.
pub open spec fn duration_parts(secs: nat) -> Seq<Seq<char>> {
    let d = secs / 86400;
    let h = (secs % 86400) / 3600;
    let m = (secs % 3600) / 60;
    let s = secs % 60;
    (if d > 0 {
        seq![decimal(d) + seq!['d']]
    } else {
        Seq::<Seq<char>>::empty()
    }) + (if h > 0 {
        seq![decimal(h) + seq!['h']]
    } else {
        Seq::<Seq<char>>::empty()
    }) + (if m > 0 {
        seq![decimal(m) + seq!['m']]
    } else {
        Seq::<Seq<char>>::empty()
    }) + (if s > 0 || (d == 0 && h == 0 && m == 0) {
        seq![decimal(s) + seq!['s']]
    } else {
        Seq::<Seq<char>>::empty()
    })
}

fn unit_part(n: u64, unit: char) -> (r: Vec<char>)
    ensures
        r@ == decimal(n as nat) + seq![unit],
{
    let mut r: Vec<char> = Vec::new();
    push_decimal(&mut r, n);
    r.push(unit);
    assert(r@ =~= decimal(n as nat) + seq![unit]);
    r
}

/// A duration of `total_secs` seconds in words such as `2d 3h 45m` or `45s`.
pub fn format_duration(total_secs: u64) -> (r: String)
    ensures
        r@ == crate::text::join(duration_parts(total_secs as nat), " "@),
{
    let days = total_secs / 86400;
    let hours = (total_secs % 86400) / 3600;
    let minutes = (total_secs % 3600) / 60;
    let seconds = total_secs % 60;
    let mut parts: Vec<Vec<char>> = Vec::new();
    if days > 0 {
        parts.push(unit_part(days, 'd'));
    }
    if hours > 0 {
        parts.push(unit_part(hours, 'h'));
    }
    if minutes > 0 {
        parts.push(unit_part(minutes, 'm'));
    }
    if seconds > 0 || parts.len() == 0 {
        parts.push(unit_part(seconds, 's'));
    }
    assert(rows(parts@) =~= duration_parts(total_secs as nat));
    let mut out: Vec<char> = Vec::new();
    crate::text::push_joined(&mut out, &parts, " ");
    assert(out@ =~= crate::text::join(rows(parts@), " "@));
    string_of(&out)
}

impl DateTime {
    /// The point in time that a reading of the clock denotes: `millis`
    /// milliseconds after the epoch, the latest point in time where that is
    /// beyond it, and the epoch itself where the clock read earlier than
    /// the epoch and so gave no number.
    pub fn from_reading(reading: Option<u128>) -> (r: DateTime)
        ensures
            r.millis == (match reading {
                Some(ms) => if ms > u64::MAX {
                    u64::MAX
                } else {
                    ms as u64
                },
                None => 0,
            }),
    {
        match reading {
            Some(ms) => {
                if ms > 0xffff_ffff_ffff_ffff {
                    DateTime { millis: 0xffff_ffff_ffff_ffff }
                } else {
                    DateTime { millis: ms as u64 }
                }
            },
            None => DateTime { millis: 0 },
        }
    }

    /// The present time by the system clock: see [`DateTime::from_reading`].
    pub fn now() -> DateTime {
        let t = system_now();
        match since_epoch(&t) {
            Ok(d) => DateTime::from_reading(Some(whole_millis(&d))),
            Err(_) => DateTime::from_reading(None),
        }
    }

    /// The point in time `secs` seconds after the epoch.
    pub fn from_timestamp(secs: u64) -> (r: DateTime)
        requires
            secs * 1000 <= u64::MAX,
        ensures
            r.millis == secs * 1000,
    {
        DateTime { millis: secs * 1000 }
    }

    /// The point in time `millis` milliseconds after the epoch.
    pub fn from_timestamp_millis(millis: u64) -> (r: DateTime)
        ensures
            r.millis == millis,
    {
        DateTime { millis }
    }

    /// The whole seconds since the epoch.
    pub fn timestamp(&self) -> (r: u64)
        ensures
            r == self.millis / 1000,
    {
        self.millis / 1000
    }

    /// The milliseconds since the epoch.
    pub fn timestamp_millis(&self) -> (r: u64)
        ensures
            r == self.millis,
    {
        self.millis
    }

    /// Year, month, day, hour, minute, second and millisecond in UTC.
    pub fn to_components(&self) -> (r: (u32, u32, u32, u32, u32, u32, u32))
        ensures
            is_components_of(components_of(r), self.millis as int),
    {
        let total_seconds = self.millis / 1000;
        let millis = (self.millis % 1000) as u32;
        let days = total_seconds / 86400;
        let remaining = total_seconds % 86400;
        let hour = (remaining / 3600) as u32;
        let minute = ((remaining % 3600) / 60) as u32;
        let second = (remaining % 60) as u32;
        let (year, month, day) = days_to_date(days);
        (year, month, day, hour, minute, second, millis)
    }

    /// The point in time with these components in UTC, where the month is
    /// from 1 to 12, the day from 1 to 31 and the date's day number fits in
    /// 32 bits. Hours, minutes, seconds and milliseconds beyond their usual
    /// range carry over.
    pub fn from_components(
        year: u32,
        month: u32,
        day: u32,
        hour: u32,
        minute: u32,
        second: u32,
        millis: u32,
    ) -> (r: Option<DateTime>)
        ensures
            r == (if can_be_built(components_of((year, month, day, hour, minute, second, millis))) {
                Some(
                    DateTime {
                        millis: millis_of(
                            components_of((year, month, day, hour, minute, second, millis)),
                        ) as u64,
                    },
                )
            } else {
                None
            }),
    {
        let days = match days_since_epoch(year, month, day) {
            Some(d) => d,
            None => {
                return None;
            },
        };
        let total_millis = days as u64 * 86_400_000 + hour as u64 * 3_600_000 + minute as u64
            * 60_000 + second as u64 * 1000 + millis as u64;
        Some(DateTime { millis: total_millis })
    }

    /// `YYYY-MM-DDTHH:MM:SS.sssZ`
    pub fn to_iso8601(&self) -> (r: String)
        ensures
            exists|c: Components| #[trigger]
                is_components_of(c, self.millis as int) && r@ == iso_text(c),
    {
        let c = self.to_components();
        let mut out: Vec<char> = Vec::new();
        push_date(&mut out, c);
        out.push('T');
        push_time(&mut out, c);
        out.push('.');
        push_padded(&mut out, c.6, 3);
        out.push('Z');
        assert(out@ =~= iso_text(components_of(c)));
        assert(is_components_of(components_of(c), self.millis as int));
        string_of(&out)
    }

    /// The same as [`DateTime::to_iso8601`].
    pub fn to_rfc3339(&self) -> (r: String)
        ensures
            exists|c: Components| #[trigger]
                is_components_of(c, self.millis as int) && r@ == iso_text(c),
    {
        self.to_iso8601()
    }

    /// `YYYY-MM-DD HH:MM:SS`
    pub fn to_string(&self) -> (r: String)
        ensures
            exists|c: Components| #[trigger]
                is_components_of(c, self.millis as int) && r@ == plain_text(c),
    {
        let c = self.to_components();
        let mut out: Vec<char> = Vec::new();
        push_date(&mut out, c);
        out.push(' ');
        push_time(&mut out, c);
        assert(out@ =~= plain_text(components_of(c)));
        assert(is_components_of(components_of(c), self.millis as int));
        string_of(&out)
    }

    /// `YYYY-MM-DD`
    pub fn to_date_string(&self) -> (r: String)
        ensures
            exists|c: Components| #[trigger]
                is_components_of(c, self.millis as int) && r@ == date_text(c),
    {
        let c = self.to_components();
        let mut out: Vec<char> = Vec::new();
        push_date(&mut out, c);
        assert(out@ =~= date_text(components_of(c)));
        assert(is_components_of(components_of(c), self.millis as int));
        string_of(&out)
    }

    /// `HH:MM:SS`
    pub fn to_time_string(&self) -> (r: String)
        ensures
            exists|c: Components| #[trigger]
                is_components_of(c, self.millis as int) && r@ == time_text(c),
    {
        let c = self.to_components();
        let mut out: Vec<char> = Vec::new();
        push_time(&mut out, c);
        assert(out@ =~= time_text(components_of(c)));
        assert(is_components_of(components_of(c), self.millis as int));
        string_of(&out)
    }

    /// Reads a text such as `2024-12-15T10:30:45.123Z`.
    pub fn parse_iso8601(s: &str) -> (r: Option<DateTime>)
        ensures
            r == (match parse_iso_spec(s@) {
                Some(c) => if can_be_built(c) {
                    Some(DateTime { millis: millis_of(c) as u64 })
                } else {
                    None
                },
                None => None,
            }),
    {
        let all = chars_of(s);
        let mut end: usize = all.len();
        assert(all@.take(all.len() as int) =~= all@);
        while end > 0 && all[end - 1] == 'Z'
            invariant
                end <= all.len(),
                without_zulu(all@.take(end as int)) == without_zulu(all@),
            decreases end,
        {
            proof {
                assert(all@.take(end as int).drop_last() =~= all@.take(end - 1));
            }
            end -= 1;
        }
        assert(all@.take(all.len() as int) =~= all@);
        let body = copy_range(&all, 0, end);
        assert(body@ =~= all@.take(end as int));
        assert(without_zulu(body@) == body@);
        let parts = split_chars(&body, 'T');
        if parts.len() != 2 {
            return None;
        }
        assert(rows(parts@)[0] == parts[0]@);
        assert(rows(parts@)[1] == parts[1]@);
        let date = split_chars(&parts[0], '-');
        if date.len() != 3 {
            return None;
        }
        let time = split_chars(&parts[1], ':');
        if time.len() != 3 {
            return None;
        }
        assert(rows(date@)[0] == date[0]@);
        assert(rows(date@)[1] == date[1]@);
        assert(rows(date@)[2] == date[2]@);
        assert(rows(time@)[0] == time[0]@);
        assert(rows(time@)[1] == time[1]@);
        assert(rows(time@)[2] == time[2]@);
        let sec = split_chars(&time[2], '.');
        assert(sec.len() >= 1) by {
            crate::text::lemma_split_nonempty(time[2]@, '.', 0);
        }
        assert(rows(sec@)[0] == sec[0]@);
        let year = parse_u32(&date[0]);
        let month = parse_u32(&date[1]);
        let day = parse_u32(&date[2]);
        let hour = parse_u32(&time[0]);
        let minute = parse_u32(&time[1]);
        let second = parse_u32(&sec[0]);
        let fraction = if sec.len() > 1 {
            assert(rows(sec@)[1] == sec[1]@);
            parse_u32(&sec[1])
        } else {
            Some(0u32)
        };
        match (year, month, day, hour, minute, second, fraction) {
            (Some(y), Some(mo), Some(d), Some(h), Some(mi), Some(se), Some(f)) => {
                DateTime::from_components(y, mo, d, h, mi, se, f)
            },
            _ => None,
        }
    }

    /// The point in time `millis` milliseconds later.
    pub fn add(&self, millis: u64) -> (r: DateTime)
        requires
            self.millis + millis <= u64::MAX,
        ensures
            r.millis == self.millis + millis,
    {
        DateTime { millis: self.millis + millis }
    }

    /// The point in time `millis` milliseconds earlier, but not before the
    /// epoch.
    pub fn sub(&self, millis: u64) -> (r: DateTime)
        ensures
            r.millis == (if self.millis >= millis {
                self.millis - millis
            } else {
                0
            }),
    {
        DateTime { millis: self.millis.saturating_sub(millis) }
    }

    /// The milliseconds from `other` to `self`; 0 where `other` is later.
    pub fn duration_since(&self, other: &DateTime) -> (r: u64)
        ensures
            r == millis_between(*self, *other),
    {
        self.millis.saturating_sub(other.millis)
    }

    /// The milliseconds from `self` to the present time by the system clock:
    /// the time from `self` to some point in time, and 0 where that point is
    /// the earlier one. Which point the clock gives is not claimed.
    pub fn elapsed(&self) -> (r: u64)
        ensures
            exists|present: DateTime| r == #[trigger] millis_between(present, *self),
    {
        let present = DateTime::now();
        let r = present.duration_since(self);
        assert(r == millis_between(present, *self));
        r
    }
}

/// The milliseconds from `earlier` to `later`; 0 where `earlier` is the
/// later of the two.
pub open spec fn millis_between(later: DateTime, earlier: DateTime) -> int {
    if later.millis >= earlier.millis {
        later.millis - earlier.millis
    } else {
        0
    }
}

} // verus!
