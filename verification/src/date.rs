//! Calendar values and arithmetic: dates of the proleptic Gregorian calendar
//! restricted to years 0 through 9999 (the range the `YYYYMMDDTHHMMSSZ`
//! timestamp form can carry), times of day, day stepping, and the conversion
//! of a local wall-clock time at a fixed UTC offset into a UTC instant.
//! ISO week resolution is delegated to chrono behind trusted wrappers.

use vstd::prelude::*;

use chrono::Datelike;
use chrono::Timelike;

verus! {

/// A day of the week.
#[derive(Clone, Copy, Debug, PartialEq, Eq, Structural)]
pub enum Weekday {
    Mon,
    Tue,
    Wed,
    Thu,
    Fri,
    Sat,
    Sun,
}

/// A calendar date.
#[derive(Clone, Copy, Debug, PartialEq, Eq, Structural)]
pub struct Date {
    pub year: i32,
    pub month: u32,
    pub day: u32,
}

/// A wall-clock time of day, minute precision.
#[derive(Clone, Copy, Debug, PartialEq, Eq, Structural)]
pub struct TimeOfDay {
    pub hour: u32,
    pub minute: u32,
}

/// A UTC instant, second precision.
#[derive(Clone, Copy, Debug, PartialEq, Eq, Structural)]
pub struct UtcDateTime {
    pub date: Date,
    pub hour: u32,
    pub minute: u32,
    pub second: u32,
}

pub open spec fn is_leap_year(y: int) -> bool {
    (y % 4 == 0 && y % 100 != 0) || y % 400 == 0
}

pub open spec fn days_in_month(y: int, m: int) -> int {
    if m == 2 {
        if is_leap_year(y) {
            29
        } else {
            28
        }
    } else if m == 4 || m == 6 || m == 9 || m == 11 {
        30
    } else {
        31
    }
}

/// The month/day pair names a day of year `y` of the Gregorian calendar.
pub open spec fn valid_md(y: int, m: int, d: int) -> bool {
    1 <= m <= 12 && 1 <= d <= days_in_month(y, m)
}

/// A date the library can carry end to end: a Gregorian date whose year fits
/// the four-digit timestamp form.
pub open spec fn date_valid(d: Date) -> bool {
    0 <= d.year <= 9999 && valid_md(d.year as int, d.month as int, d.day as int)
}

pub open spec fn time_valid(t: TimeOfDay) -> bool {
    t.hour < 24 && t.minute < 60
}

pub open spec fn utc_valid(u: UtcDateTime) -> bool {
    date_valid(u.date) && u.hour < 24 && u.minute < 60 && u.second < 60
}

/// The day after `d`, or `None` past the supported range.
pub open spec fn next_date(d: Date) -> Option<Date> {
    if (d.day as int) < days_in_month(d.year as int, d.month as int) {
        Some(Date { year: d.year, month: d.month, day: (d.day + 1) as u32 })
    } else if d.month < 12 {
        Some(Date { year: d.year, month: (d.month + 1) as u32, day: 1 })
    } else if d.year < 9999 {
        Some(Date { year: (d.year + 1) as i32, month: 1, day: 1 })
    } else {
        None
    }
}

/// The day before `d`, or `None` past the supported range.
pub open spec fn prev_date(d: Date) -> Option<Date> {
    if d.day > 1 {
        Some(Date { year: d.year, month: d.month, day: (d.day - 1) as u32 })
    } else if d.month > 1 {
        Some(
            Date {
                year: d.year,
                month: (d.month - 1) as u32,
                day: days_in_month(d.year as int, d.month as int - 1) as u32,
            },
        )
    } else if d.year > 0 {
        Some(Date { year: (d.year - 1) as i32, month: 12, day: 31 })
    } else {
        None
    }
}

/// `d` advanced by `n` days, or `None` when that leaves the supported range.
pub open spec fn date_plus(d: Date, n: nat) -> Option<Date>
    decreases n,
{
    if n == 0 {
        Some(d)
    } else {
        match next_date(d) {
            Some(d2) => date_plus(d2, (n - 1) as nat),
            None => None,
        }
    }
}

/// A local wall-clock time at UTC offset `off` (in minutes), as a UTC instant.
/// The date shifts by at most one day since `|off| < 1440`.
pub open spec fn local_to_utc(d: Date, t: TimeOfDay, off: int) -> Option<UtcDateTime> {
    let total = t.hour * 60 + t.minute - off;
    if total < 0 {
        match prev_date(d) {
            Some(p) => Some(
                UtcDateTime {
                    date: p,
                    hour: ((total + 1440) / 60) as u32,
                    minute: ((total + 1440) % 60) as u32,
                    second: 0,
                },
            ),
            None => None,
        }
    } else if total >= 1440 {
        match next_date(d) {
            Some(nx) => Some(
                UtcDateTime {
                    date: nx,
                    hour: ((total - 1440) / 60) as u32,
                    minute: ((total - 1440) % 60) as u32,
                    second: 0,
                },
            ),
            None => None,
        }
    } else {
        Some(UtcDateTime { date: d, hour: (total / 60) as u32, minute: (total % 60) as u32, second: 0 })
    }
}

pub fn leap_year(y: i32) -> (r: bool)
    requires
        y >= 0,
    ensures
        r == is_leap_year(y as int),
{
    (y % 4 == 0 && y % 100 != 0) || y % 400 == 0
}

pub fn month_days(y: i32, m: u32) -> (r: u32)
    requires
        y >= 0,
    ensures
        r as int == days_in_month(y as int, m as int),
{
    if m == 2 {
        if leap_year(y) {
            29
        } else {
            28
        }
    } else if m == 4 || m == 6 || m == 9 || m == 11 {
        30
    } else {
        31
    }
}

pub fn date_succ(d: Date) -> (r: Option<Date>)
    requires
        date_valid(d),
    ensures
        r == next_date(d),
        r matches Some(x) ==> date_valid(x),
{
    let dim = month_days(d.year, d.month);
    if d.day < dim {
        Some(Date { year: d.year, month: d.month, day: d.day + 1 })
    } else if d.month < 12 {
        Some(Date { year: d.year, month: d.month + 1, day: 1 })
    } else if d.year < 9999 {
        Some(Date { year: d.year + 1, month: 1, day: 1 })
    } else {
        None
    }
}

pub fn date_pred(d: Date) -> (r: Option<Date>)
    requires
        date_valid(d),
    ensures
        r == prev_date(d),
        r matches Some(x) ==> date_valid(x),
{
    if d.day > 1 {
        Some(Date { year: d.year, month: d.month, day: d.day - 1 })
    } else if d.month > 1 {
        Some(Date { year: d.year, month: d.month - 1, day: month_days(d.year, d.month - 1) })
    } else if d.year > 0 {
        Some(Date { year: d.year - 1, month: 12, day: 31 })
    } else {
        None
    }
}

/// Advance a date by a number of days, one day at a time.
pub fn add_days(d: Date, n: u64) -> (r: Option<Date>)
    requires
        date_valid(d),
    ensures
        r == date_plus(d, n as nat),
        r matches Some(x) ==> date_valid(x),
{
    let mut cur: Date = d;
    let mut i: u64 = 0;
    while i < n
        invariant
            i <= n,
            date_valid(cur),
            date_plus(d, n as nat) == date_plus(cur, (n - i) as nat),
        decreases n - i,
    {
        match date_succ(cur) {
            Some(nx) => {
                cur = nx;
            },
            None => {
                return None;
            },
        }
        i += 1;
    }
    Some(cur)
}

/// Interpret `(d, t)` as local wall-clock time at `off` minutes east of UTC
/// and convert it to a UTC instant.
pub fn convert_local(d: Date, t: TimeOfDay, off: i32) -> (r: Option<UtcDateTime>)
    requires
        date_valid(d),
        time_valid(t),
        -1440 < off < 1440,
    ensures
        r == local_to_utc(d, t, off as int),
        r matches Some(u) ==> utc_valid(u),
{
    let total: i32 = (t.hour * 60 + t.minute) as i32 - off;
    if total < 0 {
        match date_pred(d) {
            Some(p) => {
                let m: i32 = total + 1440;
                Some(
                    UtcDateTime {
                        date: p,
                        hour: (m / 60) as u32,
                        minute: (m % 60) as u32,
                        second: 0,
                    },
                )
            },
            None => None,
        }
    } else if total >= 1440 {
        match date_succ(d) {
            Some(nx) => {
                let m: i32 = total - 1440;
                Some(
                    UtcDateTime {
                        date: nx,
                        hour: (m / 60) as u32,
                        minute: (m % 60) as u32,
                        second: 0,
                    },
                )
            },
            None => None,
        }
    } else {
        Some(
            UtcDateTime {
                date: d,
                hour: (total / 60) as u32,
                minute: (total % 60) as u32,
                second: 0,
            },
        )
    }
}

/// Law: at UTC offset zero a local wall-clock time converts to the same
/// date and the same time of day.
pub proof fn lemma_zero_offset_identity(d: Date, t: TimeOfDay)
    requires
        time_valid(t),
    ensures
        local_to_utc(d, t, 0) == Some(
            UtcDateTime { date: d, hour: t.hour, minute: t.minute, second: 0 },
        ),
{
    let total = t.hour * 60 + t.minute;
    assert(total / 60 == t.hour && total % 60 == t.minute) by (nonlinear_arith)
        requires
            t.hour < 24,
            t.minute < 60,
            total == t.hour * 60 + t.minute,
    ;
}

/// Law: day stepping is additive: advancing by `a + b` days is advancing by
/// `a` days and then by `b`.
pub proof fn lemma_date_plus_add(d: Date, a: nat, b: nat)
    ensures
        date_plus(d, a + b) == (match date_plus(d, a) {
            Some(x) => date_plus(x, b),
            None => None,
        }),
    decreases a,
{
    if a > 0 {
        match next_date(d) {
            Some(d2) => {
                lemma_date_plus_add(d2, (a - 1) as nat, b);
            },
            None => {
            },
        }
    }
}

// ---------------------------------------------------------------------------
// trusted wrappers around chrono
// ---------------------------------------------------------------------------

/// ISO 8601 week-numbering year of a date, as chrono computes it.
pub uninterp spec fn iso_year_of(d: Date) -> i32;

/// ISO 8601 week number of a date, as chrono computes it.
pub uninterp spec fn iso_week_of(d: Date) -> u32;

/// Relies on chrono's `NaiveDate::from_ymd_opt` (a valid date maps to `Some`)
/// and `NaiveDate::iso_week` with its `year`/`week` accessors: the ISO 8601
/// week-numbering year and week of a calendar date. The week lies in 1..=53
/// and the week-numbering year differs from the calendar year by at most one.
#[verifier::external_body]
pub(crate) fn iso_week_fields(d: &Date) -> (r: (i32, u32))
    requires
        date_valid(*d),
    ensures
        r.0 == iso_year_of(*d),
        r.1 == iso_week_of(*d),
        1 <= r.1 <= 53,
        d.year - 1 <= r.0 <= d.year + 1,
{
    let nd = chrono::NaiveDate::from_ymd_opt(d.year, d.month, d.day).unwrap();
    let iw = nd.iso_week();
    (iw.year(), iw.week())
}

/// The date chrono resolves an ISO (week-year, week, weekday) triple to.
pub uninterp spec fn iso_ywd_date(y: i32, w: u32, wd: Weekday) -> Option<Date>;

/// Relies on chrono's `NaiveDate::from_isoywd_opt`: resolves an ISO
/// (week-year, week, weekday) triple to the calendar date of that weekday in
/// that week, or `None` when the year has no such week. A returned date is a
/// valid Gregorian date whose year differs from the week-year by at most one.
/// The week-year must stay within chrono's own year range: chrono steps to
/// the neighbouring year before any range check, so at the extreme `i32`
/// values that step could overflow.
#[verifier::external_body]
pub(crate) fn resolve_iso_ywd(y: i32, w: u32, wd: Weekday) -> (r: Option<Date>)
    requires
        -262143 <= y <= 262142,
    ensures
        r == iso_ywd_date(y, w, wd),
        r matches Some(d) ==> valid_md(d.year as int, d.month as int, d.day as int) && y - 1
            <= d.year <= y + 1,
{
    let cw = match wd {
        Weekday::Mon => chrono::Weekday::Mon,
        Weekday::Tue => chrono::Weekday::Tue,
        Weekday::Wed => chrono::Weekday::Wed,
        Weekday::Thu => chrono::Weekday::Thu,
        Weekday::Fri => chrono::Weekday::Fri,
        Weekday::Sat => chrono::Weekday::Sat,
        Weekday::Sun => chrono::Weekday::Sun,
    };
    match chrono::NaiveDate::from_isoywd_opt(y, w, cw) {
        Some(nd) => Some(Date { year: nd.year(), month: nd.month(), day: nd.day() }),
        None => None,
    }
}

/// Relies on chrono's `Utc::now` and the `Datelike`/`Timelike` accessors: the
/// current UTC date and time. The fields form a valid Gregorian date and time
/// of day; nothing more can be promised of a clock reading. Like running out
/// of memory, a system clock set before the Unix epoch aborts the process:
/// chrono panics on such a reading.
#[verifier::external_body]
pub(crate) fn now_utc() -> (r: UtcDateTime)
    ensures
        valid_md(r.date.year as int, r.date.month as int, r.date.day as int),
        r.hour < 24,
        r.minute < 60,
        r.second < 60,
{
    let now = chrono::Utc::now();
    UtcDateTime {
        date: Date { year: now.year(), month: now.month(), day: now.day() },
        hour: now.hour(),
        minute: now.minute(),
        second: now.second(),
    }
}

/// A UTC clock reading clamped into the supported year range, so that every
/// produced instant is representable.
pub fn creation_stamp() -> (r: UtcDateTime)
    ensures
        utc_valid(r),
{
    let now = now_utc();
    if 0 <= now.date.year && now.date.year <= 9999 {
        now
    } else {
        UtcDateTime { date: Date { year: 1970, month: 1, day: 1 }, hour: 0, minute: 0, second: 0 }
    }
}

} // verus!
