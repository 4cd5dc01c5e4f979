use vstd::prelude::*;
use chrono::{Datelike, TimeZone, Timelike};
use crate::decode::DecodeError;

verus! {

/// The calendar fields that `chrono::NaiveDate::parse_from_str` reads from a text
/// and a strftime format: year, month, day.
pub uninterp spec fn chrono_date(raw: Seq<char>, fmt: Seq<char>) -> Option<(i32, u32, u32)>;

/// The fields that chrono's `Utc.datetime_from_str` reads from a text and a
/// strftime format: year, month, day, hour, minute, second, nanosecond.
pub uninterp spec fn chrono_datetime(raw: Seq<char>, fmt: Seq<char>) -> Option<
    (i32, u32, u32, u32, u32, u32, u32),
>;

pub open spec fn is_leap_year(y: int) -> bool {
    (y % 4 == 0 && y % 100 != 0) || y % 400 == 0
}

pub open spec fn days_in_month(y: int, m: int) -> int {
    if m == 2 {
        if is_leap_year(y) { 29 } else { 28 }
    } else if m == 4 || m == 6 || m == 9 || m == 11 {
        30
    } else {
        31
    }
}

/// A day of the proleptic Gregorian calendar in the range chrono supports.
pub open spec fn valid_date(y: int, m: int, d: int) -> bool {
    &&& -262143 <= y <= 262142
    &&& 1 <= m <= 12
    &&& 1 <= d <= days_in_month(y, m)
}

pub open spec fn digit_char(k: int) -> char {
    if k == 0 { '0' } else if k == 1 { '1' } else if k == 2 { '2' } else if k == 3 { '3' }
    else if k == 4 { '4' } else if k == 5 { '5' } else if k == 6 { '6' } else if k == 7 { '7' }
    else if k == 8 { '8' } else { '9' }
}

/// The last `w` decimal digits of `n`, zero-padded.
pub open spec fn padded(n: nat, w: nat) -> Seq<char>
    decreases w,
{
    if w == 0 {
        Seq::empty()
    } else {
        padded(n / 10, (w - 1) as nat).push(digit_char((n % 10) as int))
    }
}

/// Width of a year's magnitude as written: at least four digits.
pub open spec fn year_width(n: nat) -> nat {
    if n < 10000 { 4 } else if n < 100000 { 5 } else { 6 }
}

/// `%Y`: four digits for years 0 to 9999, else a sign and at least four digits.
pub open spec fn year_text(y: int) -> Seq<char> {
    if 0 <= y <= 9999 {
        padded(y as nat, 4)
    } else if y < 0 {
        seq!['-'] + padded((-y) as nat, year_width((-y) as nat))
    } else {
        seq!['+'] + padded(y as nat, year_width(y as nat))
    }
}

/// `%Y-%m-%d`.
pub open spec fn date_text(y: int, m: int, d: int) -> Seq<char> {
    year_text(y) + seq!['-'] + padded(m as nat, 2) + seq!['-'] + padded(d as nat, 2)
}

/// `%Y-%m-%d %H:%M:%S`.
pub open spec fn datetime_text(y: int, mo: int, d: int, h: int, mi: int, s: int) -> Seq<char> {
    date_text(y, mo, d) + seq![' '] + padded(h as nat, 2) + seq![':'] + padded(mi as nat, 2)
        + seq![':'] + padded(s as nat, 2)
}

pub open spec fn date_format() -> Seq<char> {
    seq!['%', 'Y', '-', '%', 'm', '-', '%', 'd']
}

pub open spec fn datetime_format() -> Seq<char> {
    date_format() + seq![' ', '%', 'H', ':', '%', 'M', ':', '%', 'S']
}

/// Text in the canonical date form.
pub open spec fn canonical_date(s: Seq<char>) -> bool {
    exists|y: i32, m: u32, d: u32| valid_date(y as int, m as int, d as int) && s == #[trigger] date_text(y as int, m as int, d as int)
}

/// Text in the canonical date form, with a year from 0 to 9999.
pub open spec fn four_digit_date(s: Seq<char>) -> bool {
    exists|y: i32, m: u32, d: u32| valid_date(y as int, m as int, d as int) && 0 <= y <= 9999
        && s == #[trigger] date_text(y as int, m as int, d as int)
}

/// The seconds field as `%S` writes it: a leap second reads 60.
pub open spec fn shown_second(s: int, nano: int) -> int {
    if nano >= 1_000_000_000 { s + 1 } else { s }
}

/// Text in the canonical datetime form, with a year from 0 to 9999 and no leap second.
pub open spec fn four_digit_datetime(t: Seq<char>) -> bool {
    exists|y: i32, mo: u32, d: u32, h: u32, mi: u32, s: u32|
        valid_date(y as int, mo as int, d as int) && 0 <= y <= 9999 && h < 24 && mi < 60 && s < 60
        && t == #[trigger] datetime_text(y as int, mo as int, d as int, h as int, mi as int, s as int)
}

/// The text of a decoded field, or why it failed.
pub open spec fn text_view(r: Result<String, DecodeError>) -> Result<Seq<char>, DecodeError> {
    match r {
        Ok(s) => Ok(s@),
        Err(e) => Err(e),
    }
}

/// What decoding a date gives: its canonical text, or `DateFormat`.
pub open spec fn date_of(raw: Seq<char>, fmt: Seq<char>) -> Result<Seq<char>, DecodeError> {
    match chrono_date(raw, fmt) {
        Some(t) => Ok(date_text(t.0 as int, t.1 as int, t.2 as int)),
        None => Err(DecodeError::DateFormat),
    }
}

/// What decoding a datetime gives: its canonical text, or `DatetimeFormat`.
pub open spec fn datetime_of(raw: Seq<char>, fmt: Seq<char>) -> Result<Seq<char>, DecodeError> {
    match chrono_datetime(raw, fmt) {
        Some(t) => Ok(
            datetime_text(
                t.0 as int,
                t.1 as int,
                t.2 as int,
                t.3 as int,
                t.4 as int,
                shown_second(t.5 as int, t.6 as int),
            ),
        ),
        None => Err(DecodeError::DatetimeFormat),
    }
}

/// Relies on chrono's `NaiveDate::parse_from_str`: it reads a valid calendar
/// date by the strftime format, and reads back what `%Y-%m-%d` writes.
#[verifier::external_body]
fn parse_date(raw: &str, fmt: &str) -> (r: Option<(i32, u32, u32)>)
    ensures
        r == chrono_date(raw@, fmt@),
        r matches Some(t) ==> valid_date(t.0 as int, t.1 as int, t.2 as int),
        fmt@ == date_format() ==> forall|y: i32, m: u32, d: u32|
            valid_date(y as int, m as int, d as int) && 0 <= y <= 9999 && raw@ == #[trigger] date_text(
                y as int,
                m as int,
                d as int,
            ) ==> r == Some((y, m, d)),
{
    chrono::NaiveDate::parse_from_str(raw, fmt).ok().map(|t| (t.year(), t.month(), t.day()))
}

/// Relies on chrono's `TimeZone::datetime_from_str` for `Utc`: it reads a valid
/// date and time of day by the strftime format (a leap second as second 59 with
/// a nanosecond count of a second or more), and reads back what
/// `%Y-%m-%d %H:%M:%S` writes.
#[verifier::external_body]
#[allow(deprecated)]
fn parse_datetime(raw: &str, fmt: &str) -> (r: Option<(i32, u32, u32, u32, u32, u32, u32)>)
    ensures
        r == chrono_datetime(raw@, fmt@),
        r matches Some(t) ==> valid_date(t.0 as int, t.1 as int, t.2 as int) && t.3 < 24 && t.4
            < 60 && t.5 < 60 && t.6 < 2_000_000_000,
        fmt@ == datetime_format() ==> forall|y: i32, mo: u32, d: u32, h: u32, mi: u32, s: u32|
            valid_date(y as int, mo as int, d as int) && 0 <= y <= 9999 && h < 24 && mi < 60 && s
                < 60 && raw@ == #[trigger] datetime_text(
                y as int,
                mo as int,
                d as int,
                h as int,
                mi as int,
                s as int,
            ) ==> r == Some((y, mo, d, h, mi, s, 0u32)),
{
    chrono::Utc.datetime_from_str(raw, fmt).ok().map(
        |t| (t.year(), t.month(), t.day(), t.hour(), t.minute(), t.second(), t.nanosecond()),
    )
}

fn digit(k: u32) -> (c: char)
    requires
        k < 10,
    ensures
        c == digit_char(k as int),
{
    if k == 0 { '0' } else if k == 1 { '1' } else if k == 2 { '2' } else if k == 3 { '3' }
    else if k == 4 { '4' } else if k == 5 { '5' } else if k == 6 { '6' } else if k == 7 { '7' }
    else if k == 8 { '8' } else { '9' }
}

fn push_padded(v: &mut Vec<char>, n: u32, w: usize)
    ensures
        final(v)@ == old(v)@ + padded(n as nat, w as nat),
    decreases w,
{
    if w > 0 {
        push_padded(v, n / 10, w - 1);
        let c = digit(n % 10);
        v.push(c);
        assert(padded(n as nat, w as nat) == padded((n / 10) as nat, (w - 1) as nat).push(c));
    } else {
        assert(old(v)@ + padded(n as nat, 0) =~= old(v)@);
    }
    assert(final(v)@ =~= old(v)@ + padded(n as nat, w as nat));
}

fn push_date(v: &mut Vec<char>, y: i32, m: u32, d: u32)
    requires
        valid_date(y as int, m as int, d as int),
    ensures
        final(v)@ == old(v)@ + date_text(y as int, m as int, d as int),
{
    let ghost start = v@;
    if 0 <= y && y <= 9999 {
        push_padded(v, y as u32, 4);
    } else {
        let n: u32 = if y < 0 { (-y) as u32 } else { y as u32 };
        if y < 0 {
            v.push('-');
        } else {
            v.push('+');
        }
        let w: usize = if n < 10000 { 4 } else if n < 100000 { 5 } else { 6 };
        push_padded(v, n, w);
    }
    assert(v@ =~= start + year_text(y as int));
    v.push('-');
    push_padded(v, m, 2);
    v.push('-');
    push_padded(v, d, 2);
    assert(v@ =~= start + date_text(y as int, m as int, d as int));
}

/// Renders a day as `YYYY-MM-DD`.
pub fn render_date(y: i32, m: u32, d: u32) -> (r: String)
    requires
        valid_date(y as int, m as int, d as int),
    ensures
        r@ == date_text(y as int, m as int, d as int),
{
    let mut v: Vec<char> = Vec::new();
    push_date(&mut v, y, m, d);
    assert(v@ =~= date_text(y as int, m as int, d as int));
    crate::text::string_of(v.as_slice())
}

/// Renders a moment as `YYYY-MM-DD HH:MM:SS`.
pub fn render_datetime(y: i32, mo: u32, d: u32, h: u32, mi: u32, s: u32) -> (r: String)
    requires
        valid_date(y as int, mo as int, d as int),
        h < 24,
        mi < 60,
        s <= 60,
    ensures
        r@ == datetime_text(y as int, mo as int, d as int, h as int, mi as int, s as int),
{
    let mut v: Vec<char> = Vec::new();
    push_date(&mut v, y, mo, d);
    v.push(' ');
    push_padded(&mut v, h, 2);
    v.push(':');
    push_padded(&mut v, mi, 2);
    v.push(':');
    push_padded(&mut v, s, 2);
    assert(v@ =~= datetime_text(y as int, mo as int, d as int, h as int, mi as int, s as int));
    crate::text::string_of(v.as_slice())
}

/// Reads a date by `fmt` and writes it as `YYYY-MM-DD`. A text already in that
/// form, read by that form, comes back unchanged.
pub fn deserialize_date(raw: &str, fmt: &str) -> (r: Result<String, DecodeError>)
    ensures
        match chrono_date(raw@, fmt@) {
            Some(t) => r is Ok && r->Ok_0@ == date_text(t.0 as int, t.1 as int, t.2 as int),
            None => r == Err::<String, DecodeError>(DecodeError::DateFormat),
        },
        text_view(r) == date_of(raw@, fmt@),
        r is Ok ==> canonical_date(r->Ok_0@),
        fmt@ == date_format() && four_digit_date(raw@) ==> r is Ok && r->Ok_0@ == raw@,
{
    match parse_date(raw, fmt) {
        Some(t) => {
            let out = render_date(t.0, t.1, t.2);
            assert(canonical_date(out@));
            Ok(out)
        },
        None => Err(DecodeError::DateFormat),
    }
}

/// Reads a moment by `fmt` and writes it as `YYYY-MM-DD HH:MM:SS`. A text
/// already in that form, read by that form, comes back unchanged.
pub fn deserialize_datetime(raw: &str, fmt: &str) -> (r: Result<String, DecodeError>)
    ensures
        match chrono_datetime(raw@, fmt@) {
            Some(t) => r is Ok && r->Ok_0@ == datetime_text(
                t.0 as int,
                t.1 as int,
                t.2 as int,
                t.3 as int,
                t.4 as int,
                shown_second(t.5 as int, t.6 as int),
            ),
            None => r == Err::<String, DecodeError>(DecodeError::DatetimeFormat),
        },
        text_view(r) == datetime_of(raw@, fmt@),
        fmt@ == datetime_format() && four_digit_datetime(raw@) ==> r is Ok && r->Ok_0@ == raw@,
{
    match parse_datetime(raw, fmt) {
        Some(t) => {
            let s: u32 = if t.6 >= 1_000_000_000 { t.5 + 1 } else { t.5 };
            Ok(render_datetime(t.0, t.1, t.2, t.3, t.4, s))
        },
        None => Err(DecodeError::DatetimeFormat),
    }
}

} // verus!
