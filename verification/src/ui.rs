//! How sessions are described in the menu's session list: when they started, in
//! local time relative to today, and how far they got.
use crate::db::SessionSummary;
use crate::text::append_str;
use chrono::{Datelike, Timelike};
use vstd::prelude::*;

verus! {

/// A moment in local time, to the minute.
#[derive(Debug, Clone, Copy, PartialEq, Eq, Structural)]
pub struct LocalDateTime {
    pub year: i32,
    pub month: u32,
    pub day: u32,
    pub hour: u32,
    pub minute: u32,
}

/// A day of the local calendar.
#[derive(Debug, Clone, Copy, PartialEq, Eq, Structural)]
pub struct CalendarDate {
    pub year: i32,
    pub month: u32,
    pub day: u32,
}

/// The last second that `chrono` can represent, as a Unix timestamp.
pub const MAX_TIMESTAMP: u64 = 8210266876799;

pub open spec fn valid_date(d: CalendarDate) -> bool {
    1 <= d.month <= 12 && 1 <= d.day <= 31
}

pub open spec fn valid_moment(t: LocalDateTime) -> bool {
    1 <= t.month <= 12 && 1 <= t.day <= 31 && t.hour < 24 && t.minute < 60
}

/// `y` is a leap year of the Gregorian calendar.
pub open spec fn is_leap(y: int) -> bool {
    y % 4 == 0 && (y % 100 != 0 || y % 400 == 0)
}

/// Days in month `m` of year `y`.
pub open spec fn days_in_month(y: int, m: int) -> int {
    if m == 2 {
        if is_leap(y) { 29 } else { 28 }
    } else if m == 4 || m == 6 || m == 9 || m == 11 {
        30
    } else {
        31
    }
}

/// Days of year `y` before the first of month `m`.
pub open spec fn days_before_month(y: int, m: int) -> int
    decreases m,
{
    if m <= 1 {
        0
    } else {
        days_before_month(y, m - 1) + days_in_month(y, m - 1)
    }
}

/// Leap years from year 1 through year `n`.
pub open spec fn leap_years_through(n: int) -> int {
    n / 4 - n / 100 + n / 400
}

/// Days from 1970-01-01 to `y-m-d` (negative before it), in the proleptic Gregorian
/// calendar.
pub open spec fn day_number(y: int, m: int, d: int) -> int {
    365 * (y - 1970) + leap_years_through(y - 1) - leap_years_through(1969) + days_before_month(y, m) + d - 1
}

/// `t` is the civil date and time, to the minute, of the moment `secs` seconds after
/// 1970-01-01 00:00: a real date whose minute holds that second.
pub open spec fn is_time_of(t: LocalDateTime, secs: int) -> bool {
    let start = day_number(t.year as int, t.month as int, t.day as int) * 86400 + t.hour * 3600 + t.minute * 60;
    &&& valid_moment(t)
    &&& t.day <= days_in_month(t.year as int, t.month as int)
    &&& start <= secs < start + 60
}

/// `t` is the civil time of `secs` seconds after the Unix epoch in some time zone less
/// than a day from UTC.
pub open spec fn local_time_of(t: LocalDateTime, secs: int) -> bool {
    exists|off: int| -86400 < off < 86400 && #[trigger] is_time_of(t, secs + off)
}

/// Reads the moment `timestamp` seconds after the Unix epoch in the machine's time
/// zone: `chrono`'s `DateTime::from_timestamp` (which gives a moment for every
/// timestamp up to `MAX_TIMESTAMP`) and `with_timezone(&Local)`, then the fields. The
/// contract states that the fields are the civil time of the timestamp shifted by the
/// zone's offset, which `chrono` keeps under a day either way (`FixedOffset`); which
/// offset the zone has at that moment is left unsaid.
#[verifier::external_body]
fn local_date_time(timestamp: u64) -> (res: LocalDateTime)
    requires
        timestamp <= MAX_TIMESTAMP,
    ensures
        local_time_of(res, timestamp as int),
{
    let utc = chrono::DateTime::from_timestamp(timestamp as i64, 0).expect("timestamp within chrono's range");
    let dt = utc.with_timezone(&chrono::Local);
    LocalDateTime { year: dt.year(), month: dt.month(), day: dt.day(), hour: dt.hour(), minute: dt.minute() }
}

/// `d` is a date that `chrono`'s `NaiveDate` can hold: a real day of a month, in a
/// year from -262143 to 262142.
pub open spec fn chrono_date(d: CalendarDate) -> bool {
    &&& valid_date(d)
    &&& d.day <= days_in_month(d.year as int, d.month as int)
    &&& -262143 <= d.year <= 262142
}

/// Calls `chrono::Local::now` and reads the date. The clock and the time zone decide
/// which date it is; the contract states that it is a date `NaiveDate` can hold.
#[verifier::external_body]
fn local_today() -> (res: CalendarDate)
    ensures
        chrono_date(res),
{
    let d = chrono::Local::now().date_naive();
    CalendarDate { year: d.year(), month: d.month(), day: d.day() }
}

/// The day before `d` in the Gregorian calendar.
pub open spec fn prev_day(d: CalendarDate) -> CalendarDate {
    if d.day > 1 {
        CalendarDate { day: (d.day - 1) as u32, ..d }
    } else if d.month > 1 {
        CalendarDate {
            year: d.year,
            month: (d.month - 1) as u32,
            day: days_in_month(d.year as int, d.month - 1) as u32,
        }
    } else {
        CalendarDate { year: (d.year - 1) as i32, month: 12, day: 31 }
    }
}

/// The day before `d` as `chrono` gives it: none for what is not a date it can hold,
/// nor for its first day, -262143-01-01.
pub open spec fn chrono_day_before(d: CalendarDate) -> Option<CalendarDate> {
    if chrono_date(d) && !(d.year == -262143 && d.month == 1 && d.day == 1) {
        Some(prev_day(d))
    } else {
        None
    }
}

/// Calls `NaiveDate::from_ymd_opt` on `d` and `checked_sub_signed` with one day. The
/// first gives a date for exactly the real days in `chrono`'s year range, the second
/// the calendar day before unless that falls before the range.
#[verifier::external_body]
fn day_before(d: CalendarDate) -> (res: Option<CalendarDate>)
    ensures
        res == chrono_day_before(d),
{
    match chrono::NaiveDate::from_ymd_opt(d.year, d.month, d.day).and_then(
        |x| x.checked_sub_signed(chrono::TimeDelta::days(1)),
    ) {
        Some(p) => Some(CalendarDate { year: p.year(), month: p.month(), day: p.day() }),
        None => None,
    }
}

pub open spec fn digit_char(d: int) -> char {
    if d == 0 {
        '0'
    } else if d == 1 {
        '1'
    } else if d == 2 {
        '2'
    } else if d == 3 {
        '3'
    } else if d == 4 {
        '4'
    } else if d == 5 {
        '5'
    } else if d == 6 {
        '6'
    } else if d == 7 {
        '7'
    } else if d == 8 {
        '8'
    } else {
        '9'
    }
}

/// The decimal digits of `n`, without leading zeros.
pub open spec fn decimal(n: nat) -> Seq<char>
    decreases n,
{
    if n < 10 {
        seq![digit_char(n as int)]
    } else {
        decimal(n / 10).push(digit_char((n % 10) as int))
    }
}

/// `n` (below 100) in two digits.
pub open spec fn two_digits(n: nat) -> Seq<char> {
    seq![digit_char((n / 10) as int), digit_char((n % 10) as int)]
}

/// `s` padded on the left with zeros to at least four characters.
pub open spec fn pad4(s: Seq<char>) -> Seq<char> {
    if s.len() < 4 {
        Seq::new((4 - s.len()) as nat, |i: int| '0') + s
    } else {
        s
    }
}

/// A year as `chrono` writes `%Y`: four digits, zero-padded, from 0 to 9999; outside
/// that range with a sign in front.
pub open spec fn year_text(y: int) -> Seq<char> {
    if 0 <= y <= 9999 {
        pad4(decimal(y as nat))
    } else if y > 9999 {
        seq!['+'] + pad4(decimal(y as nat))
    } else {
        seq!['-'] + pad4(decimal((-y) as nat))
    }
}

/// `%Y-%m-%d`.
pub open spec fn date_text(d: CalendarDate) -> Seq<char> {
    year_text(d.year as int) + seq!['-'] + two_digits(d.month as nat) + seq!['-'] + two_digits(
        d.day as nat,
    )
}

/// `%H:%M`.
pub open spec fn clock_text(t: LocalDateTime) -> Seq<char> {
    two_digits(t.hour as nat) + seq![':'] + two_digits(t.minute as nat)
}

pub open spec fn date_of(t: LocalDateTime) -> CalendarDate {
    CalendarDate { year: t.year, month: t.month, day: t.day }
}

/// How a session started at `when` is dated: "Today HH:MM" on `today`,
/// "Yesterday HH:MM" on `yesterday`, otherwise "YYYY-MM-DD".
pub open spec fn session_date_text(when: LocalDateTime, today: CalendarDate, yesterday: Option<CalendarDate>) -> Seq<char> {
    if date_of(when) == today {
        "Today "@ + clock_text(when)
    } else if yesterday == Some(date_of(when)) {
        "Yesterday "@ + clock_text(when)
    } else {
        date_text(date_of(when))
    }
}

fn digit(d: u64) -> (c: char)
    requires
        d < 10,
    ensures
        c == digit_char(d as int),
{
    if d == 0 {
        '0'
    } else if d == 1 {
        '1'
    } else if d == 2 {
        '2'
    } else if d == 3 {
        '3'
    } else if d == 4 {
        '4'
    } else if d == 5 {
        '5'
    } else if d == 6 {
        '6'
    } else if d == 7 {
        '7'
    } else if d == 8 {
        '8'
    } else {
        '9'
    }
}

/// Appends the decimal digits of `n`.
pub fn push_decimal(out: &mut Vec<char>, n: u64)
    ensures
        final(out)@ == old(out)@ + decimal(n as nat),
    decreases n,
{
    if n >= 10 {
        push_decimal(out, n / 10);
        out.push(digit(n % 10));
        proof {
            assert(final(out)@ =~= old(out)@ + decimal(n as nat));
        }
    } else {
        out.push(digit(n));
        proof {
            assert(final(out)@ =~= old(out)@ + decimal(n as nat));
        }
    }
}

pub proof fn lemma_decimal_len(n: nat)
    ensures
        decimal(n).len() >= 1,
        n < 10 ==> decimal(n).len() == 1,
        n < 100 ==> decimal(n).len() <= 2,
        n < 1000 ==> decimal(n).len() <= 3,
        n >= 10 ==> decimal(n).len() >= 2,
        n >= 100 ==> decimal(n).len() >= 3,
        n >= 1000 ==> decimal(n).len() >= 4,
    decreases n,
{
    if n >= 10 {
        lemma_decimal_len(n / 10);
    }
}

/// The number that the decimal digits `s` spell, read from the left.
pub open spec fn digits_value(s: Seq<char>) -> int
    decreases s.len(),
{
    if s.len() == 0 {
        0
    } else {
        digits_value(s.drop_last()) * 10 + (s.last() as int - '0' as int)
    }
}

proof fn lemma_digit_char(d: int)
    requires
        0 <= d < 10,
    ensures
        digit_char(d) as int - '0' as int == d,
        '0' <= digit_char(d) <= '9',
{
}

/// `decimal(n)` is how `n` is written in decimal: its characters are digits, they spell
/// `n`, and the first is `0` only for zero itself.
pub proof fn lemma_decimal_spells(n: nat)
    ensures
        digits_value(decimal(n)) == n,
        forall|i: int| 0 <= i < decimal(n).len() ==> '0' <= #[trigger] decimal(n)[i] <= '9',
        decimal(n)[0] == '0' ==> n == 0,
    decreases n,
{
    if n < 10 {
        lemma_digit_char(n as int);
        let s = decimal(n);
        assert(s.drop_last() =~= Seq::<char>::empty());
        assert(s.last() == digit_char(n as int));
        assert(digits_value(s.drop_last()) == 0);
        assert(digits_value(s) == n);
    } else {
        lemma_decimal_spells(n / 10);
        lemma_digit_char((n % 10) as int);
        let s = decimal(n);
        let p = decimal(n / 10);
        assert(s.drop_last() =~= p);
        assert(s.last() == digit_char((n % 10) as int));
        assert(digits_value(s) == digits_value(p) * 10 + (n % 10));
        assert((n / 10) * 10 + n % 10 == n) by (nonlinear_arith);
        lemma_decimal_len(n / 10);
        assert(s[0] == p[0]);
        assert(n / 10 > 0) by (nonlinear_arith)
            requires
                n >= 10,
        ;
        assert forall|i: int| 0 <= i < s.len() implies '0' <= #[trigger] s[i] <= '9' by {
            if i < p.len() {
                assert(s[i] == p[i]);
            }
        }
    }
}

fn push_two_digits(out: &mut Vec<char>, n: u32)
    requires
        n < 100,
    ensures
        final(out)@ == old(out)@ + two_digits(n as nat),
{
    out.push(digit((n / 10) as u64));
    out.push(digit((n % 10) as u64));
    proof {
        assert(final(out)@ =~= old(out)@ + two_digits(n as nat));
    }
}

/// Appends `n` in at least four digits, zero-padded.
fn push_pad4(out: &mut Vec<char>, n: u64)
    ensures
        final(out)@ == old(out)@ + pad4(decimal(n as nat)),
{
    let ghost start = out@;
    proof {
        lemma_decimal_len(n as nat);
    }
    let zeros: usize = if n < 10 {
        3
    } else if n < 100 {
        2
    } else if n < 1000 {
        1
    } else {
        0
    };
    let mut k: usize = 0;
    while k < zeros
        invariant
            k <= zeros,
            out@ == start + Seq::new(k as nat, |i: int| '0'),
        decreases zeros - k,
    {
        out.push('0');
        k = k + 1;
        proof {
            assert(out@ =~= start + Seq::new(k as nat, |i: int| '0'));
        }
    }
    let ghost mid = out@;
    push_decimal(out, n);
    proof {
        let d = decimal(n as nat);
        if n < 10 {
            assert(d.len() == 1);
        } else if n < 100 {
            assert(d.len() == 2) by {
                lemma_decimal_len(n as nat / 10);
            }
        } else if n < 1000 {
            assert(d.len() == 3) by {
                lemma_decimal_len(n as nat / 10);
                lemma_decimal_len(n as nat / 100);
            }
        }
        assert(out@ =~= start + pad4(d));
    }
}

fn push_year(out: &mut Vec<char>, y: i32)
    ensures
        final(out)@ == old(out)@ + year_text(y as int),
{
    let ghost start = out@;
    if 0 <= y && y <= 9999 {
        push_pad4(out, y as u64);
    } else if y > 9999 {
        out.push('+');
        push_pad4(out, y as u64);
        proof {
            assert(out@ =~= start + year_text(y as int));
        }
    } else {
        out.push('-');
        let a: i64 = -(y as i64);
        push_pad4(out, a as u64);
        proof {
            assert(out@ =~= start + year_text(y as int));
        }
    }
}

/// Dates a session started at `when`: "Today HH:MM" if that is `today`,
/// "Yesterday HH:MM" if it is `yesterday`, otherwise "YYYY-MM-DD".
pub fn format_session_date_at(when: LocalDateTime, today: CalendarDate, yesterday: Option<CalendarDate>) -> (res: String)
    requires
        valid_moment(when),
    ensures
        res@ == session_date_text(when, today, yesterday),
{
    let mut out: Vec<char> = Vec::new();
    let day = CalendarDate { year: when.year, month: when.month, day: when.day };
    let is_yesterday = match yesterday {
        Some(y) => y == day,
        None => false,
    };
    if day == today {
        append_str(&mut out, "Today ");
        push_two_digits(&mut out, when.hour);
        out.push(':');
        push_two_digits(&mut out, when.minute);
        proof {
            assert(out@ =~= "Today "@ + clock_text(when));
        }
    } else if is_yesterday {
        append_str(&mut out, "Yesterday ");
        push_two_digits(&mut out, when.hour);
        out.push(':');
        push_two_digits(&mut out, when.minute);
        proof {
            assert(out@ =~= "Yesterday "@ + clock_text(when));
        }
    } else {
        push_year(&mut out, when.year);
        out.push('-');
        push_two_digits(&mut out, when.month);
        out.push('-');
        push_two_digits(&mut out, when.day);
        proof {
            assert(out@ =~= date_text(date_of(when)));
        }
    }
    crate::text::string_from_chars(&out)
}

/// How a session started `timestamp` seconds after the Unix epoch is dated on `today`
/// in a time zone `off` seconds ahead of UTC.
pub open spec fn dated(timestamp: int, off: int, today: CalendarDate, when: LocalDateTime, text: Seq<char>) -> bool {
    &&& -86400 < off < 86400
    &&& is_time_of(when, timestamp + off)
    &&& chrono_date(today)
    &&& text == session_date_text(when, today, chrono_day_before(today))
}

/// Dates a session started `timestamp` seconds after the Unix epoch, by the local
/// clock and time zone: "Today HH:MM", "Yesterday HH:MM" (the day before today), or
/// "YYYY-MM-DD", of the local time of `timestamp`. The zone's offset and today's date
/// come from the machine.
pub fn format_session_date(timestamp: u64) -> (res: String)
    requires
        timestamp <= MAX_TIMESTAMP,
    ensures
        exists|off: int, today: CalendarDate, when: LocalDateTime|
            #[trigger] dated(timestamp as int, off, today, when, res@),
{
    let when = local_date_time(timestamp);
    let today = local_today();
    let yesterday = day_before(today);
    let res = format_session_date_at(when, today, yesterday);
    proof {
        let off = choose|off: int| -86400 < off < 86400 && #[trigger] is_time_of(when, timestamp + off);
        assert(dated(timestamp as int, off, today, when, res@));
    }
    res
}

/// How far a session got: "COMPLETED", or answered/total.
pub open spec fn session_status(s: SessionSummary) -> Seq<char> {
    if s.completed_at is Some {
        "COMPLETED"@
    } else {
        decimal(s.questions_answered as nat) + seq!['/'] + decimal(s.questions_total as nat)
    }
}

/// A session's entry in the list: "DATE - DECK (STATUS)".
pub open spec fn session_item_text(s: SessionSummary, date: Seq<char>) -> Seq<char> {
    date + " - "@ + s.deck_name@ + " ("@ + session_status(s) + ")"@
}

/// A session's entry in the list, with its start already dated as `date`.
pub fn session_item_with_date(session: &SessionSummary, date: &str) -> (res: String)
    ensures
        res@ == session_item_text(*session, date@),
{
    let mut out: Vec<char> = Vec::new();
    append_str(&mut out, date);
    append_str(&mut out, " - ");
    append_str(&mut out, session.deck_name.as_str());
    append_str(&mut out, " (");
    let ghost before_status = out@;
    if session.completed_at.is_some() {
        append_str(&mut out, "COMPLETED");
    } else {
        push_decimal(&mut out, session.questions_answered as u64);
        out.push('/');
        push_decimal(&mut out, session.questions_total as u64);
    }
    proof {
        assert(out@ =~= before_status + session_status(*session));
    }
    append_str(&mut out, ")");
    proof {
        assert(out@ =~= session_item_text(*session, date@));
    }
    crate::text::string_from_chars(&out)
}

/// A session's entry in the menu's list: "DATE - DECK (STATUS)", the date as
/// `format_session_date` gives it and the status "COMPLETED" or answered/total.
pub fn format_session_item(session: &SessionSummary) -> (res: String)
    requires
        session.started_at <= MAX_TIMESTAMP,
    ensures
        exists|off: int, today: CalendarDate, when: LocalDateTime, date: Seq<char>|
            #[trigger] dated(session.started_at as int, off, today, when, date) && res@ == session_item_text(
                *session,
                date,
            ),
{
    let date = format_session_date(session.started_at);
    let res = session_item_with_date(session, date.as_str());
    proof {
        let (o, t, w) = choose|off: int, today: CalendarDate, when: LocalDateTime|
            #[trigger] dated(session.started_at as int, off, today, when, date@);
        assert(dated(session.started_at as int, o, t, w, date@));
    }
    res
}

} // verus!
