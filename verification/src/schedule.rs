//! When a message goes out: the date and time that the user picks, and the
//! countdown until then.

use vstd::prelude::*;
use crate::style::{look, make_look, plain, run_of, run_owned, runs, Color, Segment, Style};
use crate::text::{
    chars_of, decimal, digit_value, drop_front, is_digit, push_char, push_decimal, push_two_digits,
    two_digits, CharClass,
};
use crate::util::{format_time_from_seconds, system_time_seconds, time_text};

verus! {

broadcast use vstd::string::group_string_axioms;

/// A day of the calendar.
#[derive(Clone, Copy, Debug, PartialEq, Eq)]
pub struct CalendarDate {
    pub year: i32,
    pub month: u32,
    pub day: u32,
}

/// `a` falls on or before `b` (`NaiveDate::le`).
pub open spec fn on_or_before(a: CalendarDate, b: CalendarDate) -> bool {
    ||| a.year < b.year
    ||| (a.year == b.year && a.month < b.month)
    ||| (a.year == b.year && a.month == b.month && a.day <= b.day)
}

/// A message may be scheduled for `candidate` only where it falls after
/// `yesterday`: today or later.
pub fn is_schedulable_date(candidate: CalendarDate, yesterday: CalendarDate) -> (r: bool)
    ensures
        r == !on_or_before(candidate, yesterday),
{
    let earlier_or_same = candidate.year < yesterday.year || (candidate.year == yesterday.year
        && candidate.month < yesterday.month) || (candidate.year == yesterday.year
        && candidate.month == yesterday.month && candidate.day <= yesterday.day);
    !earlier_or_same
}

/// The calendar order: every two dates compare (`on_or_before` is total,
/// reflexive, antisymmetric and transitive); an earlier year comes first
/// whatever the month and day, and within a year an earlier month comes first
/// whatever the days; so a message may be scheduled for a date exactly when
/// that date is not on or before yesterday, and a date in a later month of
/// the same year, or in a later year, always may.
pub proof fn law_calendar_order(a: CalendarDate, b: CalendarDate, c: CalendarDate)
    ensures
        on_or_before(a, a),
        on_or_before(a, b) || on_or_before(b, a),
        on_or_before(a, b) && on_or_before(b, a) ==> a == b,
        on_or_before(a, b) && on_or_before(b, c) ==> on_or_before(a, c),
        a.year < b.year ==> on_or_before(a, b) && !on_or_before(b, a),
        a.year == b.year && a.month < b.month ==> on_or_before(a, b) && !on_or_before(b, a),
        a.year == b.year && a.month == b.month ==> (on_or_before(a, b) <==> a.day <= b.day),
{
}

/// An hour and a minute of the day.
#[derive(Clone, Copy, Debug, PartialEq, Eq)]
pub struct TimeOfDay {
    pub hour: u32,
    pub minute: u32,
}

/// The number that chrono's `%H` or `%M` reads at the start of `s`: one or
/// two ASCII digits (two where two follow), with what is left after them.
pub open spec fn leading_number(s: Seq<char>) -> Option<(nat, Seq<char>)> {
    if s.len() >= 1 && is_digit(s[0]) {
        if s.len() >= 2 && is_digit(s[1]) {
            Some((digit_value(s[0]) * 10 + digit_value(s[1]), s.subrange(2, s.len() as int)))
        } else {
            Some((digit_value(s[0]), s.subrange(1, s.len() as int)))
        }
    } else {
        None
    }
}

/// What `NaiveTime::parse_from_str(text, "%H:%M")` reads from `text`, as hour
/// and minute: leading whitespace, an hour of one or two digits up to 23, a
/// `:` right after it, whitespace, a minute of one or two digits up to 59,
/// and nothing after; `None` for any other text.
pub open spec fn hour_minute_of(text: Seq<char>) -> Option<(u32, u32)> {
    match leading_number(drop_front(text, CharClass::Whitespace)) {
        Some((h, rest)) => if h <= 23 && rest.len() > 0 && rest[0] == ':' {
            match leading_number(drop_front(rest.subrange(1, rest.len() as int), CharClass::Whitespace)) {
                Some((m, tail)) => if m <= 59 && tail.len() == 0 {
                    Some((h as u32, m as u32))
                } else {
                    None
                },
                None => None,
            }
        } else {
            None
        },
        None => None,
    }
}

/// `chrono::NaiveTime::parse_from_str` with the format `%H:%M`, as hour and
/// minute. Claimed, from chrono's `format::parse` (`parse`, the numeric item
/// that skips leading whitespace and reads one or two digits, the literal
/// `:`, and no trailing text), `Parsed::set_hour`, `Parsed::set_minute` and
/// `Parsed::to_naive_time`: it reads exactly `hour_minute_of(text)`.
#[verifier::external_body]
fn parse_hour_minute(text: &str) -> (r: Option<(u32, u32)>)
    ensures
        r == hour_minute_of(text@),
{
    match chrono::NaiveTime::parse_from_str(text, "%H:%M") {
        Ok(t) => Some((chrono::Timelike::hour(&t), chrono::Timelike::minute(&t))),
        Err(_) => None,
    }
}

/// Reads a time of day written as `HH:MM`.
pub fn parse_time_of_day(text: &str) -> (r: Option<TimeOfDay>)
    ensures
        match hour_minute_of(text@) {
            Some((h, m)) => r == Some(TimeOfDay { hour: h, minute: m }),
            None => r is None,
        },
        r matches Some(t) ==> t.hour < 24 && t.minute < 60,
{
    match parse_hour_minute(text) {
        Some((hour, minute)) => Some(TimeOfDay { hour, minute }),
        None => None,
    }
}

/// The seconds to wait from `now` until `target`, or `None` where `target`
/// has passed.
pub fn wait_seconds(target: u64, now: u64) -> (r: Option<u64>)
    ensures
        r == (if now <= target { Some((target - now) as u64) } else { None::<u64> }),
{
    if now <= target {
        Some(target - now)
    } else {
        None
    }
}

/// Why no countdown can start.
#[derive(Clone, Copy, Debug, PartialEq, Eq)]
pub enum CountdownError {
    /// The machine's clock stands before the Unix epoch.
    ClockBeforeEpoch,
    /// The time to send at has already passed.
    TimeHasPassed,
}

/// The wait until the Unix time `target`, given the clock's reading: `None`
/// where the clock stands before the epoch.
pub open spec fn countdown_wait(target: u64, reading: Option<u64>) -> Result<u64, CountdownError> {
    match reading {
        None => Err(CountdownError::ClockBeforeEpoch),
        Some(now) => if now <= target {
            Ok((target - now) as u64)
        } else {
            Err(CountdownError::TimeHasPassed)
        },
    }
}

/// The seconds to wait until the Unix time `target`, given the clock's
/// reading in seconds since the epoch (`None` where it stands before it).
pub fn wait_for_reading(target: u64, reading: Option<u64>) -> (r: Result<u64, CountdownError>)
    ensures
        r == countdown_wait(target, reading),
{
    match reading {
        None => Err(CountdownError::ClockBeforeEpoch),
        Some(now) => match wait_seconds(target, now) {
            Some(w) => Ok(w),
            None => Err(CountdownError::TimeHasPassed),
        },
    }
}

/// The seconds to wait until the Unix time `target`, by the machine's clock:
/// what `wait_for_reading` gives for the reading taken.
pub fn seconds_until(target: u64) -> (r: Result<u64, CountdownError>)
    ensures
        r matches Ok(w) ==> w <= target,
        exists|reading: Option<u64>| r == countdown_wait(target, reading),
{
    let reading = system_time_seconds();
    wait_for_reading(target, reading)
}

/// What the countdown shows while `remaining` seconds are left.
pub open spec fn countdown_runs(remaining: nat) -> Seq<(Seq<char>, Style)> {
    seq![
        ("Message will be sent in "@, plain()),
        (time_text(remaining), look(Color::Yellow, true, false, false, false, false)),
        (" "@, plain()),
        ("Press Ctrl+C to cancel"@, look(Color::Plain, false, false, false, false, true)),
    ]
}

/// What the countdown shows while `remaining` seconds are left.
pub fn countdown_segments(remaining: u64) -> (r: Vec<Segment>)
    ensures
        runs(r@) == countdown_runs(remaining as nat),
{
    let mut r: Vec<Segment> = Vec::new();
    r.push(run_of("Message will be sent in ", make_look(Color::Plain, false, false, false, false, false)));
    r.push(run_owned(format_time_from_seconds(remaining), make_look(Color::Yellow, true, false, false, false, false)));
    r.push(run_of(" ", make_look(Color::Plain, false, false, false, false, false)));
    r.push(run_of("Press Ctrl+C to cancel", make_look(Color::Plain, false, false, false, false, true)));
    assert(runs(r@) =~= countdown_runs(remaining as nat));
    r
}

/// The decimal digits of `n`, padded with `0` to four.
pub open spec fn four_digits(n: nat) -> Seq<char> {
    let d = decimal(n);
    if d.len() < 4 {
        Seq::new((4 - d.len()) as nat, |i: int| '0') + d
    } else {
        d
    }
}

/// How chrono shows a year: four digits for years 0 to 9999, otherwise a
/// sign and at least four digits.
pub open spec fn year_text(year: int) -> Seq<char> {
    if 0 <= year <= 9999 {
        four_digits(year as nat)
    } else if year < 0 {
        seq!['-'] + four_digits((-year) as nat)
    } else {
        seq!['+'] + four_digits(year as nat)
    }
}

/// How a send time shows: `YYYY-MM-DD HH:MM:00`, as chrono's `NaiveDateTime`
/// shows a date of the calendar with a time of whole minutes.
pub open spec fn send_time_words(date: CalendarDate, time: TimeOfDay) -> Seq<char> {
    year_text(date.year as int) + seq!['-'] + two_digits(date.month as nat) + seq!['-'] + two_digits(
        date.day as nat,
    ) + seq![' '] + two_digits(time.hour as nat) + seq![':'] + two_digits(time.minute as nat) + seq![
        ':',
        '0',
        '0',
    ]
}

/// Appends `n`, padded with `0` to four digits.
fn push_four_digits(out: &mut String, n: u64)
    ensures
        final(out)@ == old(out)@ + four_digits(n as nat),
{
    let mut digits = String::new();
    push_decimal(&mut digits, n);
    let len = chars_of(digits.as_str()).len();
    let ghost d = decimal(n as nat);
    if len < 4 {
        let mut k: usize = 0;
        while k < 4 - len
            invariant
                len == d.len(),
                k <= 4 - len,
                out@ == old(out)@ + Seq::new(k as nat, |i: int| '0'),
            decreases 4 - len - k,
        {
            push_char(out, '0');
            k += 1;
            assert(out@ =~= old(out)@ + Seq::new(k as nat, |i: int| '0'));
        }
    }
    out.append(digits.as_str());
    assert(out@ =~= old(out)@ + four_digits(n as nat));
}

/// The text shown for a message due on `date` at `time`.
pub fn send_time_text(date: CalendarDate, time: TimeOfDay) -> (r: String)
    ensures
        r@ == send_time_words(date, time),
{
    let mut out = String::new();
    let year = date.year as i64;
    if 0 <= year && year <= 9999 {
        push_four_digits(&mut out, year as u64);
    } else if year < 0 {
        push_char(&mut out, '-');
        push_four_digits(&mut out, (-year) as u64);
    } else {
        push_char(&mut out, '+');
        push_four_digits(&mut out, year as u64);
    }
    push_char(&mut out, '-');
    push_two_digits(&mut out, date.month as u64);
    push_char(&mut out, '-');
    push_two_digits(&mut out, date.day as u64);
    push_char(&mut out, ' ');
    push_two_digits(&mut out, time.hour as u64);
    push_char(&mut out, ':');
    push_two_digits(&mut out, time.minute as u64);
    push_char(&mut out, ':');
    push_char(&mut out, '0');
    push_char(&mut out, '0');
    assert(out@ =~= send_time_words(date, time));
    out
}

} // verus!
