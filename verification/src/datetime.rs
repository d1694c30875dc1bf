//! Calendar date-times as plain values, and the few calls into `chrono` that the
//! library makes (current time, parsing, differences).
use vstd::prelude::*;
use chrono::{Datelike, Timelike};
use crate::text::{decimal, pad_left, digits_of, pad_chars, push_chars};

verus! {

/// A calendar date and time of day without time zone, as `chrono::NaiveDateTime`
/// holds it: proleptic Gregorian date, hour, minute, second and nanosecond (a
/// nanosecond of `1_000_000_000` or more marks a leap second at second 59).
#[derive(Debug, Clone, Copy, PartialEq, Eq)]
pub struct DateTime {
    pub year: i32,
    pub month: u32,
    pub day: u32,
    pub hour: u32,
    pub minute: u32,
    pub second: u32,
    pub nanosecond: u32,
}

/// Smallest and largest year `chrono` represents.
pub const MIN_YEAR: i32 = -262143;
pub const MAX_YEAR: i32 = 262142;

pub open spec fn is_leap_year(y: int) -> bool {
    y % 4 == 0 && (y % 100 != 0 || y % 400 == 0)
}

pub open spec fn days_in_month(y: int, m: int) -> int {
    if m == 2 {
        if is_leap_year(y) {
            29
        } else {
            28
        }
    } else if m == 4 || m == 6 || m == 9 || m == 11 {
        30
    } else {
        31
    }
}

/// A valid calendar date within `chrono`'s range.
pub open spec fn valid_date(y: int, m: int, d: int) -> bool {
    &&& MIN_YEAR <= y <= MAX_YEAR
    &&& 1 <= m <= 12
    &&& 1 <= d <= days_in_month(y, m)
}

impl DateTime {
    /// The value is one that `chrono::NaiveDateTime` can hold.
    pub open spec fn wf(self) -> bool {
        &&& valid_date(self.year as int, self.month as int, self.day as int)
        &&& self.hour < 24
        &&& self.minute < 60
        &&& self.second < 60
        &&& (self.nanosecond < 1_000_000_000 || (self.second == 59 && self.nanosecond
            < 2_000_000_000))
    }

    /// `NaiveDate::from_ymd_opt(..).and_hms_opt(..)`: the date-time at the given
    /// second, or `None` where the date or time of day does not exist.
    pub fn new(year: i32, month: u32, day: u32, hour: u32, minute: u32, second: u32) -> (r:
        Option<DateTime>)
        ensures
            r is Some <==> valid_date(year as int, month as int, day as int) && hour < 24
                && minute < 60 && second < 60,
            r matches Some(d) ==> d.wf() && d == (DateTime {
                year,
                month,
                day,
                hour,
                minute,
                second,
                nanosecond: 0,
            }),
    {
        if year < MIN_YEAR || year > MAX_YEAR || month < 1 || month > 12 || day < 1 {
            return None;
        }
        let leap = year % 4 == 0 && (year % 100 != 0 || year % 400 == 0);
        let dim: u32 = if month == 2 {
            if leap {
                29
            } else {
                28
            }
        } else if month == 4 || month == 6 || month == 9 || month == 11 {
            30
        } else {
            31
        };
        assert(leap == is_leap_year(year as int));
        if day > dim || hour >= 24 || minute >= 60 || second >= 60 {
            return None;
        }
        Some(DateTime { year, month, day, hour, minute, second, nanosecond: 0 })
    }

    /// The chronological order of `chrono::NaiveDateTime` (its `<=`): the
    /// components compared lexicographically, most significant first.
    pub open spec fn before_eq(self, other: DateTime) -> bool {
        if self.year != other.year {
            self.year < other.year
        } else if self.month != other.month {
            self.month < other.month
        } else if self.day != other.day {
            self.day < other.day
        } else if self.hour != other.hour {
            self.hour < other.hour
        } else if self.minute != other.minute {
            self.minute < other.minute
        } else if self.second != other.second {
            self.second < other.second
        } else {
            self.nanosecond <= other.nanosecond
        }
    }

    /// Whether `self` is not later than `other`.
    pub fn le(&self, other: &DateTime) -> (r: bool)
        ensures
            r == self.before_eq(*other),
    {
        if self.year != other.year {
            self.year < other.year
        } else if self.month != other.month {
            self.month < other.month
        } else if self.day != other.day {
            self.day < other.day
        } else if self.hour != other.hour {
            self.hour < other.hour
        } else if self.minute != other.minute {
            self.minute < other.minute
        } else if self.second != other.second {
            self.second < other.second
        } else {
            self.nanosecond <= other.nanosecond
        }
    }
}

/// The chronological order is total and transitive.
pub proof fn lemma_before_eq_order(a: DateTime, b: DateTime, c: DateTime)
    ensures
        a.before_eq(b) || b.before_eq(a),
        a.before_eq(b) && b.before_eq(c) ==> a.before_eq(c),
        a.before_eq(b) && b.before_eq(a) ==> a == b,
{
}

// ---------------------------------------------------------------------------
// Formatting
// ---------------------------------------------------------------------------

/// `{:02}` of a number: its decimal text, zero-padded to two characters.
pub open spec fn two_digits(n: nat) -> Seq<char> {
    pad_left(decimal(n), 2, '0')
}

/// `chrono`'s `%Y`: four zero-padded digits for years 0 to 9999, otherwise an
/// explicit sign followed by at least four digits.
pub open spec fn year_text(y: int) -> Seq<char> {
    if 0 <= y <= 9999 {
        pad_left(decimal(y as nat), 4, '0')
    } else if y < 0 {
        seq!['-'] + pad_left(decimal((-y) as nat), 4, '0')
    } else {
        seq!['+'] + pad_left(decimal(y as nat), 4, '0')
    }
}

/// `chrono`'s `%Y%m%d` of a date-time.
pub open spec fn compact_date(dt: DateTime) -> Seq<char> {
    year_text(dt.year as int) + two_digits(dt.month as nat) + two_digits(dt.day as nat)
}

/// Appends `{:02}` of `n` to `s`.
pub fn push_two_digits(s: &mut String, n: u32)
    ensures
        final(s)@ == old(s)@ + two_digits(n as nat),
{
    let v = pad_chars(digits_of(n as u64, 10), 2, '0');
    push_chars(s, v.as_slice());
}

/// Appends `%Y` of `y` to `s`.
pub fn push_year(s: &mut String, y: i32)
    ensures
        final(s)@ == old(s)@ + year_text(y as int),
{
    let ghost start = s@;
    if 0 <= y && y <= 9999 {
        let v = pad_chars(digits_of(y as u64, 10), 4, '0');
        push_chars(s, v.as_slice());
    } else if y < 0 {
        let m: u64 = if y == i32::MIN {
            2147483648u64
        } else {
            (-y) as u64
        };
        let v = pad_chars(digits_of(m, 10), 4, '0');
        crate::text::push_char(s, '-');
        push_chars(s, v.as_slice());
        assert(s@ =~= start + year_text(y as int));
    } else {
        let v = pad_chars(digits_of(y as u64, 10), 4, '0');
        crate::text::push_char(s, '+');
        push_chars(s, v.as_slice());
        assert(s@ =~= start + year_text(y as int));
    }
}

/// `dt.format("%Y%m%d")`.
pub fn format_compact_date(dt: &DateTime) -> (r: String)
    ensures
        r@ == compact_date(*dt),
{
    let mut s = String::new();
    push_year(&mut s, dt.year);
    push_two_digits(&mut s, dt.month);
    push_two_digits(&mut s, dt.day);
    assert(s@ =~= compact_date(*dt));
    s
}

/// `chrono`'s `%Y-%m-%d %H:%M:%S` of a date-time (a leap second shows as `60`).
pub open spec fn ymd_hms_text(dt: DateTime) -> Seq<char> {
    year_text(dt.year as int) + seq!['-'] + two_digits(dt.month as nat) + seq!['-'] + two_digits(dt.day as nat)
        + seq![' '] + two_digits(dt.hour as nat) + seq![':'] + two_digits(dt.minute as nat) + seq![':']
        + two_digits((dt.second + dt.nanosecond / 1_000_000_000) as nat)
}

/// `dt.format("%Y-%m-%d %H:%M:%S")`.
pub fn format_ymd_hms(dt: &DateTime) -> (r: String)
    requires
        dt.wf(),
    ensures
        r@ == ymd_hms_text(*dt),
{
    let mut s = String::new();
    push_year(&mut s, dt.year);
    crate::text::push_char(&mut s, '-');
    push_two_digits(&mut s, dt.month);
    crate::text::push_char(&mut s, '-');
    push_two_digits(&mut s, dt.day);
    crate::text::push_char(&mut s, ' ');
    push_two_digits(&mut s, dt.hour);
    crate::text::push_char(&mut s, ':');
    push_two_digits(&mut s, dt.minute);
    crate::text::push_char(&mut s, ':');
    push_two_digits(&mut s, dt.second + dt.nanosecond / 1_000_000_000);
    assert(s@ =~= ymd_hms_text(*dt));
    s
}

// ---------------------------------------------------------------------------
// Calls into chrono
// ---------------------------------------------------------------------------

/// What `NaiveDateTime::parse_from_str(s, "%Y-%m-%d %H:%M:%S")` yields for `s`,
/// read as a `DateTime` (`None` where it returns an error).
pub uninterp spec fn chrono_parse_ymd_hms(s: Seq<char>) -> Option<DateTime>;

/// What `NaiveDateTime::parse_from_str(s, "%Y:%m:%d %H:%M:%S")` yields for `s`,
/// read as a `DateTime` (`None` where it returns an error).
pub uninterp spec fn chrono_parse_colon_ymd_hms(s: Seq<char>) -> Option<DateTime>;

/// What `a.signed_duration_since(b).num_seconds()` yields.
pub uninterp spec fn chrono_seconds_between(a: DateTime, b: DateTime) -> int;

/// `chrono::NaiveDateTime::parse_from_str(s, "%Y-%m-%d %H:%M:%S")`. The result is
/// named by `chrono_parse_ymd_hms`; what is claimed beyond the name is that a parsed
/// value is a valid `NaiveDateTime`, which every value of that type is.
#[verifier::external_body]
pub(crate) fn parse_ymd_hms(s: &str) -> (r: Option<DateTime>)
    ensures
        r == chrono_parse_ymd_hms(s@),
        r matches Some(d) ==> d.wf(),
{
    match chrono::NaiveDateTime::parse_from_str(s, "%Y-%m-%d %H:%M:%S") {
        Ok(dt) => Some(DateTime {
            year: dt.year(),
            month: dt.month(),
            day: dt.day(),
            hour: dt.hour(),
            minute: dt.minute(),
            second: dt.second(),
            nanosecond: dt.nanosecond(),
        }),
        Err(_) => None,
    }
}

/// `chrono::NaiveDateTime::parse_from_str(s, "%Y:%m:%d %H:%M:%S")`, the EXIF
/// layout. The result is named by `chrono_parse_colon_ymd_hms`; what is claimed
/// beyond the name is that a parsed value is a valid `NaiveDateTime`.
#[verifier::external_body]
pub(crate) fn parse_colon_ymd_hms(s: &str) -> (r: Option<DateTime>)
    ensures
        r == chrono_parse_colon_ymd_hms(s@),
        r matches Some(d) ==> d.wf(),
{
    match chrono::NaiveDateTime::parse_from_str(s, "%Y:%m:%d %H:%M:%S") {
        Ok(dt) => Some(DateTime {
            year: dt.year(),
            month: dt.month(),
            day: dt.day(),
            hour: dt.hour(),
            minute: dt.minute(),
            second: dt.second(),
            nanosecond: dt.nanosecond(),
        }),
        Err(_) => None,
    }
}

/// `a.signed_duration_since(b).num_seconds()` on the `chrono` values that `a` and
/// `b` stand for. The result is named by `chrono_seconds_between`; nothing more is
/// claimed of it.
#[verifier::external_body]
pub(crate) fn seconds_between(a: &DateTime, b: &DateTime) -> (r: i64)
    requires
        a.wf(),
        b.wf(),
    ensures
        r == chrono_seconds_between(*a, *b),
{
    let ca = chrono::NaiveDate::from_ymd_opt(a.year, a.month, a.day).unwrap().and_hms_nano_opt(
        a.hour,
        a.minute,
        a.second,
        a.nanosecond,
    ).unwrap();
    let cb = chrono::NaiveDate::from_ymd_opt(b.year, b.month, b.day).unwrap().and_hms_nano_opt(
        b.hour,
        b.minute,
        b.second,
        b.nanosecond,
    ).unwrap();
    ca.signed_duration_since(cb).num_seconds()
}

/// What `chrono::DateTime::parse_from_rfc3339(s)` yields for `s`: the instant it
/// denotes, as whole seconds since the Unix epoch (`timestamp`) and the nanoseconds
/// past that second (`timestamp_subsec_nanos`); `None` where it returns an error.
pub uninterp spec fn chrono_rfc3339_instant(s: Seq<char>) -> Option<(i64, u32)>;

/// `chrono::DateTime::parse_from_rfc3339(s)`, read as the instant it denotes. The
/// result is named by `chrono_rfc3339_instant`; what is claimed beyond the name is
/// that the nanoseconds stay under two seconds, as every chrono time of day's do
/// (more than one second only within a leap second).
#[verifier::external_body]
pub(crate) fn rfc3339_instant(s: &str) -> (r: Option<(i64, u32)>)
    ensures
        r == chrono_rfc3339_instant(s@),
        r matches Some(p) ==> p.1 < 2_000_000_000,
{
    chrono::DateTime::parse_from_rfc3339(s).ok().map(|d| (d.timestamp(), d.timestamp_subsec_nanos()))
}

/// A reading of a clock: a calendar month and day, and a time of day (a leap
/// second shows as nanoseconds past one second).
pub open spec fn clock_reading(dt: DateTime) -> bool {
    &&& 1 <= dt.month <= 12
    &&& 1 <= dt.day <= 31
    &&& dt.hour < 24
    &&& dt.minute < 60
    &&& dt.second < 60
    &&& dt.nanosecond < 2_000_000_000
}

/// The seconds field as written: a leap second counts as second 60.
pub open spec fn shown_second(dt: DateTime) -> nat {
    (dt.second + dt.nanosecond / 1_000_000_000) as nat
}

/// `%Y-%m-%dT%H:%M:%S`: how `to_rfc3339` begins for a date-time.
pub open spec fn rfc3339_head(dt: DateTime) -> Seq<char> {
    year_text(dt.year as int) + seq!['-'] + two_digits(dt.month as nat) + seq!['-'] + two_digits(dt.day as nat)
        + seq!['T'] + two_digits(dt.hour as nat) + seq![':'] + two_digits(dt.minute as nat) + seq![':']
        + two_digits(shown_second(dt))
}

/// A time stamp as `to_rfc3339` writes one: it begins with the date and time of
/// some clock reading, `%Y-%m-%dT%H:%M:%S` (fractional seconds and the UTC offset
/// follow).
pub open spec fn rfc3339_stamp(s: Seq<char>) -> bool {
    exists|dt: DateTime| #[trigger] clock_reading(dt) && s.len() >= rfc3339_head(dt).len()
        && s.take(rfc3339_head(dt).len() as int) == rfc3339_head(dt)
}

/// `%Y%m%d_%H%M%S` of a date-time.
pub open spec fn file_stamp(dt: DateTime) -> Seq<char> {
    compact_date(dt) + seq!['_'] + two_digits(dt.hour as nat) + two_digits(dt.minute as nat) + two_digits(
        shown_second(dt),
    )
}

/// `%Y%m%d` of some clock reading.
pub open spec fn compact_date_stamp(s: Seq<char>) -> bool {
    exists|dt: DateTime| #[trigger] clock_reading(dt) && s == compact_date(dt)
}

/// `%Y%m%d_%H%M%S` of some clock reading.
pub open spec fn file_stamp_text(s: Seq<char>) -> bool {
    exists|dt: DateTime| #[trigger] clock_reading(dt) && s == file_stamp(dt)
}

/// `chrono::Local::now().to_rfc3339()`: the current local time as RFC 3339 text.
/// Of every outcome it is claimed that the text begins with the local date and time
/// as `write_rfc3339` writes them; which reading it is depends on the clock. Not
/// claimed: that chrono's RFC 3339 parser reads it back, which fails for years
/// outside 0 to 9999 (written with a sign). `Utc::now` stops the program when the
/// system clock is before 1970, which no argument can rule out.
#[verifier::external_body]
pub(crate) fn now_rfc3339() -> (r: String)
    ensures
        rfc3339_stamp(r@),
{
    chrono::Local::now().to_rfc3339()
}

/// `chrono::Local::now().format("%Y%m%d")`: today's local date, for some clock
/// reading.
#[verifier::external_body]
pub(crate) fn today_compact() -> (r: String)
    ensures
        compact_date_stamp(r@),
{
    chrono::Local::now().format("%Y%m%d").to_string()
}

/// `chrono::Local::now().format("%Y%m%d_%H%M%S")`: the current local time as a
/// file-name stamp, for some clock reading.
#[verifier::external_body]
pub(crate) fn now_stamp() -> (r: String)
    ensures
        file_stamp_text(r@),
{
    chrono::Local::now().format("%Y%m%d_%H%M%S").to_string()
}

} // verus!
