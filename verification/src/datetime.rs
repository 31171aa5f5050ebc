//! Verified civil-calendar arithmetic and the fixed timestamp format
//! `YYYY.MM.DD HH:MM:SS` used by every log line.
//!
//! Times are reduced to whole seconds since 1970-01-01 00:00:00; the log
//! format has no time zone, so the reduction is purely arithmetical.

use vstd::prelude::*;

use crate::numbers::all_digits;
use crate::numbers::digit_char;
use crate::numbers::digits_val;
use crate::numbers::is_digit;
use crate::numbers::lemma_pow10_small;
use crate::numbers::pow10;

verus! {

/// A wall-clock timestamp split into civil fields.
#[derive(Clone, Copy, Debug, PartialEq, Eq, Structural)]
pub struct DateTime {
    pub year: u32,
    pub month: u32,
    pub day: u32,
    pub hour: u32,
    pub minute: u32,
    pub second: u32,
}

/// Gregorian leap-year rule.
pub open spec fn is_leap_year(y: int) -> bool {
    y % 4 == 0 && (y % 100 != 0 || y % 400 == 0)
}

/// Days in one month of the Gregorian calendar.
pub open spec fn days_in_month(y: int, m: int) -> int {
    if m == 2 {
        if is_leap_year(y) {
            29
        } else {
            28
        }
    } else if m == 4 || m == 6 || m == 9 || m == 11 {
        30
    } else {
        31
    }
}

/// Days in one year.
pub open spec fn days_in_year(y: int) -> int {
    if is_leap_year(y) {
        366
    } else {
        365
    }
}

/// Days from 1970-01-01 to the first day of year `y`.
pub open spec fn days_before_year(y: int) -> int
    decreases y,
{
    if y <= 1970 {
        0
    } else {
        days_before_year(y - 1) + days_in_year(y - 1)
    }
}

/// Days from the first of January to the first day of month `m` of year `y`.
pub open spec fn days_before_month(y: int, m: int) -> int
    decreases m,
{
    if m <= 1 {
        0
    } else {
        days_before_month(y, m - 1) + days_in_month(y, m - 1)
    }
}

/// A representable timestamp: a real calendar date in 1970..=9999.
pub open spec fn wf_date(dt: DateTime) -> bool {
    &&& 1970 <= dt.year <= 9999
    &&& 1 <= dt.month <= 12
    &&& 1 <= dt.day <= days_in_month(dt.year as int, dt.month as int)
    &&& dt.hour <= 23
    &&& dt.minute <= 59
    &&& dt.second <= 59
}

/// Seconds from 1970-01-01 00:00:00 to the given civil time.
pub open spec fn epoch_secs(dt: DateTime) -> int {
    (days_before_year(dt.year as int) + days_before_month(dt.year as int, dt.month as int)
        + dt.day - 1) * 86400 + dt.hour * 3600 + dt.minute * 60 + dt.second
}

/// Executable leap-year test.
pub fn is_leap_year_u32(y: u32) -> (r: bool)
    ensures
        r == is_leap_year(y as int),
{
    y % 4 == 0 && (y % 100 != 0 || y % 400 == 0)
}

/// Executable [`days_in_month`].
pub fn days_in_month_u32(y: u32, m: u32) -> (r: u32)
    ensures
        r as int == days_in_month(y as int, m as int),
        28 <= r <= 31,
{
    if m == 2 {
        if is_leap_year_u32(y) {
            29
        } else {
            28
        }
    } else if m == 4 || m == 6 || m == 9 || m == 11 {
        30
    } else {
        31
    }
}

/// Executable [`days_in_year`].
fn days_in_year_u32(y: u32) -> (r: u32)
    ensures
        r as int == days_in_year(y as int),
        365 <= r <= 366,
{
    if is_leap_year_u32(y) {
        366
    } else {
        365
    }
}

/// Days before a year never exceed 366 per elapsed year.
proof fn lemma_days_before_year_bound(y: int)
    requires
        y >= 1970,
    ensures
        0 <= days_before_year(y) <= (y - 1970) * 366,
    decreases y,
{
    if y > 1970 {
        lemma_days_before_year_bound(y - 1);
    }
}

/// Days before a month never exceed 31 per elapsed month.
proof fn lemma_days_before_month_bound(y: int, m: int)
    requires
        m >= 1,
    ensures
        0 <= days_before_month(y, m) <= (m - 1) * 31,
    decreases m,
{
    if m > 1 {
        lemma_days_before_month_bound(y, m - 1);
    }
}

/// Seconds since the epoch of a well-formed civil time.
pub fn epoch_seconds(dt: &DateTime) -> (r: u64)
    requires
        wf_date(*dt),
    ensures
        r as int == epoch_secs(*dt),
        r < 300_000_000_000,
{
    proof {
        lemma_days_before_year_bound(dt.year as int);
        lemma_days_before_month_bound(dt.year as int, dt.month as int);
    }
    let mut days: u64 = 0;
    let mut y: u32 = 1970;
    while y < dt.year
        invariant
            1970 <= y <= dt.year <= 9999,
            days as int == days_before_year(y as int),
            days <= (y - 1970) as u64 * 366,
        decreases dt.year - y,
    {
        days = days + days_in_year_u32(y) as u64;
        y += 1;
    }
    let mut m: u32 = 1;
    while m < dt.month
        invariant
            1 <= m <= dt.month <= 12,
            1970 <= dt.year <= 9999,
            days as int == days_before_year(dt.year as int) + days_before_month(
                dt.year as int,
                m as int,
            ),
            days <= 8029 * 366 + (m - 1) as u64 * 31,
        decreases dt.month - m,
    {
        proof {
            lemma_days_before_year_bound(dt.year as int);
        }
        days = days + days_in_month_u32(dt.year, m) as u64;
        m += 1;
    }
    proof {
        lemma_days_before_year_bound(dt.year as int);
        lemma_days_before_month_bound(dt.year as int, dt.month as int);
    }
    days = days + (dt.day - 1) as u64;
    days * 86400 + dt.hour as u64 * 3600 + dt.minute as u64 * 60 + dt.second as u64
}


/// Split epoch seconds back into civil fields: the inverse of
/// [`epoch_seconds`] for every representable time.
pub fn civil_of_epoch(epoch: u64) -> (r: DateTime)
    requires
        epoch < days_before_year(10000) * 86400,
    ensures
        wf_date(r),
        epoch_secs(r) == epoch,
{
    let total_days = epoch / 86_400;
    let rem = epoch % 86_400;
    let mut y: u32 = 1970;
    let mut days = total_days;
    proof {
        lemma_days_before_year_bound(10000);
    }
    while days >= days_in_year_u32(y) as u64
        invariant
            1970 <= y <= 9999,
            total_days == epoch / 86_400,
            total_days < days_before_year(10000),
            days as int == total_days - days_before_year(y as int),
        decreases days,
    {
        proof {
            if y == 9999 {
                assert(days_before_year(10000) == days_before_year(9999) + days_in_year(9999));
                assert(false);
            }
        }
        days = days - days_in_year_u32(y) as u64;
        y += 1;
    }
    let ghost days_in_y = days_in_year(y as int);
    assert(days < days_in_y);
    let mut m: u32 = 1;
    let mut mdays = days;
    while mdays >= days_in_month_u32(y, m) as u64
        invariant
            1 <= m <= 12,
            1970 <= y <= 9999,
            days < days_in_year(y as int),
            mdays as int == days - days_before_month(y as int, m as int),
        decreases mdays,
    {
        proof {
            if m == 12 {
                lemma_months_fill_year(y as int);
                assert(false);
            }
        }
        mdays = mdays - days_in_month_u32(y, m) as u64;
        m += 1;
    }
    let r = DateTime {
        year: y,
        month: m,
        day: mdays as u32 + 1,
        hour: (rem / 3600) as u32,
        minute: (rem % 3600 / 60) as u32,
        second: (rem % 60) as u32,
    };
    proof {
        assert(rem == r.hour * 3600 + r.minute * 60 + r.second);
        assert(epoch == total_days * 86400 + rem);
    }
    r
}

/// The twelve months exactly fill the year.
proof fn lemma_months_fill_year(y: int)
    ensures
        days_before_month(y, 13) == days_in_year(y),
{
    assert(days_before_month(y, 1) == 0);
    assert(days_before_month(y, 2) == 31);
    assert(days_before_month(y, 3) == days_before_month(y, 2) + days_in_month(y, 2));
    assert(days_before_month(y, 4) == days_before_month(y, 3) + 31);
    assert(days_before_month(y, 5) == days_before_month(y, 4) + 30);
    assert(days_before_month(y, 6) == days_before_month(y, 5) + 31);
    assert(days_before_month(y, 7) == days_before_month(y, 6) + 30);
    assert(days_before_month(y, 8) == days_before_month(y, 7) + 31);
    assert(days_before_month(y, 9) == days_before_month(y, 8) + 31);
    assert(days_before_month(y, 10) == days_before_month(y, 9) + 30);
    assert(days_before_month(y, 11) == days_before_month(y, 10) + 31);
    assert(days_before_month(y, 12) == days_before_month(y, 11) + 30);
    assert(days_before_month(y, 13) == days_before_month(y, 12) + 31);
}

/// Year field of a well-shaped timestamp text.
pub open spec fn ts_year(s: Seq<char>) -> int {
    digits_val(s.subrange(0, 4))
}

/// Month field.
pub open spec fn ts_month(s: Seq<char>) -> int {
    digits_val(s.subrange(5, 7))
}

/// Day field.
pub open spec fn ts_day(s: Seq<char>) -> int {
    digits_val(s.subrange(8, 10))
}

/// Hour field.
pub open spec fn ts_hour(s: Seq<char>) -> int {
    digits_val(s.subrange(11, 13))
}

/// Minute field.
pub open spec fn ts_minute(s: Seq<char>) -> int {
    digits_val(s.subrange(14, 16))
}

/// Second field.
pub open spec fn ts_second(s: Seq<char>) -> int {
    digits_val(s.subrange(17, 19))
}

/// The text has exactly the shape `YYYY.MM.DD HH:MM:SS`.
pub open spec fn ts_shape_ok(s: Seq<char>) -> bool {
    &&& s.len() == 19
    &&& s[4] == '.' && s[7] == '.' && s[10] == ' ' && s[13] == ':' && s[16] == ':'
    &&& all_digits(s.subrange(0, 4))
    &&& all_digits(s.subrange(5, 7))
    &&& all_digits(s.subrange(8, 10))
    &&& all_digits(s.subrange(11, 13))
    &&& all_digits(s.subrange(14, 16))
    &&& all_digits(s.subrange(17, 19))
}

/// The text is a well-shaped timestamp naming a real calendar time.
pub open spec fn ts_valid(s: Seq<char>) -> bool {
    &&& ts_shape_ok(s)
    &&& 1970 <= ts_year(s) <= 9999
    &&& 1 <= ts_month(s) <= 12
    &&& 1 <= ts_day(s) <= days_in_month(ts_year(s), ts_month(s))
    &&& ts_hour(s) <= 23
    &&& ts_minute(s) <= 59
    &&& ts_second(s) <= 59
}

/// Value of the digit run `v[from..to]`, when it is all digits.
fn read_digits(v: &Vec<char>, from: usize, to: usize) -> (r: Option<u32>)
    requires
        from <= to <= v@.len(),
        to - from <= 4,
    ensures
        match r {
            Some(x) => all_digits(v@.subrange(from as int, to as int)) && x as int == digits_val(
                v@.subrange(from as int, to as int),
            ),
            None => !all_digits(v@.subrange(from as int, to as int)),
        },
{
    proof {
        lemma_pow10_small();
        assert(pow10(4) == 10000);
    }
    let mut acc: u32 = 0;
    let mut i = from;
    while i < to
        invariant
            from <= i <= to <= v@.len(),
            to - from <= 4,
            all_digits(v@.subrange(from as int, i as int)),
            acc as int == digits_val(v@.subrange(from as int, i as int)),
            (acc as int) < pow10(i - from),
            pow10(0) == 1 && pow10(1) == 10 && pow10(2) == 100 && pow10(3) == 1000 && pow10(4)
                == 10000,
        decreases to - i,
    {
        let u = v[i] as u32;
        if u < 48 || u > 57 {
            assert(!is_digit(v@.subrange(from as int, to as int)[i - from]));
            return None;
        }
        proof {
            assert(v@.subrange(from as int, i + 1 as int).drop_last() =~= v@.subrange(
                from as int,
                i as int,
            ));
            assert(pow10(i + 1 - from) == 10 * pow10(i - from));
        }
        acc = acc * 10 + (u - 48);
        i += 1;
    }
    Some(acc)
}

/// Read a timestamp text, per [`ts_valid`]. `Some` exactly on valid texts,
/// and then the fields are the digit values of the text.
pub fn parse_timestamp(v: &Vec<char>) -> (r: Option<DateTime>)
    ensures
        match r {
            Some(dt) => {
                &&& ts_valid(v@)
                &&& wf_date(dt)
                &&& dt.year as int == ts_year(v@)
                &&& dt.month as int == ts_month(v@)
                &&& dt.day as int == ts_day(v@)
                &&& dt.hour as int == ts_hour(v@)
                &&& dt.minute as int == ts_minute(v@)
                &&& dt.second as int == ts_second(v@)
            },
            None => !ts_valid(v@),
        },
{
    if v.len() != 19 {
        return None;
    }
    if !(v[4] == '.' && v[7] == '.' && v[10] == ' ' && v[13] == ':' && v[16] == ':') {
        return None;
    }
    let year = match read_digits(v, 0, 4) {
        Some(x) => x,
        None => {
            return None;
        },
    };
    let month = match read_digits(v, 5, 7) {
        Some(x) => x,
        None => {
            return None;
        },
    };
    let day = match read_digits(v, 8, 10) {
        Some(x) => x,
        None => {
            return None;
        },
    };
    let hour = match read_digits(v, 11, 13) {
        Some(x) => x,
        None => {
            return None;
        },
    };
    let minute = match read_digits(v, 14, 16) {
        Some(x) => x,
        None => {
            return None;
        },
    };
    let second = match read_digits(v, 17, 19) {
        Some(x) => x,
        None => {
            return None;
        },
    };
    if !(1970 <= year && year <= 9999) {
        return None;
    }
    if !(1 <= month && month <= 12) {
        return None;
    }
    if !(1 <= day && day <= days_in_month_u32(year, month)) {
        return None;
    }
    if !(hour <= 23 && minute <= 59 && second <= 59) {
        return None;
    }
    Some(DateTime { year, month, day, hour, minute, second })
}

/// Two-character zero-padded decimal text.
pub open spec fn two_digits(n: int) -> Seq<char> {
    seq![digit_char(n / 10), digit_char(n % 10)]
}

/// Four-character zero-padded decimal text.
pub open spec fn four_digits(n: int) -> Seq<char> {
    seq![
        digit_char(n / 1000),
        digit_char((n / 100) % 10),
        digit_char((n / 10) % 10),
        digit_char(n % 10),
    ]
}

/// The canonical text of a civil time, `YYYY.MM.DD HH:MM:SS`.
pub open spec fn ts_text(dt: DateTime) -> Seq<char> {
    four_digits(dt.year as int) + seq!['.'] + two_digits(dt.month as int) + seq!['.'] + two_digits(
        dt.day as int,
    ) + seq![' '] + two_digits(dt.hour as int) + seq![':'] + two_digits(dt.minute as int) + seq![
        ':',
    ] + two_digits(dt.second as int)
}

/// Push the two-digit text of `n` onto `out`.
fn push_two_digits(out: &mut Vec<char>, n: u32)
    requires
        n <= 99,
    ensures
        final(out)@ == old(out)@ + two_digits(n as int),
{
    out.push((48 + (n / 10) as u8) as char);
    out.push((48 + (n % 10) as u8) as char);
    assert(out@ =~= old(out)@ + two_digits(n as int));
}

/// Write a civil time in the log's timestamp format, per [`ts_text`].
pub fn format_timestamp(dt: &DateTime) -> (r: Vec<char>)
    requires
        wf_date(*dt),
    ensures
        r@ == ts_text(*dt),
{
    let mut out: Vec<char> = Vec::new();
    let y = dt.year;
    out.push((48 + (y / 1000) as u8) as char);
    out.push((48 + ((y / 100) % 10) as u8) as char);
    out.push((48 + ((y / 10) % 10) as u8) as char);
    out.push((48 + (y % 10) as u8) as char);
    out.push('.');
    push_two_digits(&mut out, dt.month);
    out.push('.');
    push_two_digits(&mut out, dt.day);
    out.push(' ');
    push_two_digits(&mut out, dt.hour);
    out.push(':');
    push_two_digits(&mut out, dt.minute);
    out.push(':');
    push_two_digits(&mut out, dt.second);
    assert(out@ =~= ts_text(*dt));
    out
}

} // verus!
