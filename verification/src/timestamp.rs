//! UTC instants and the calendar arithmetic on them, which `chrono` performs.

use crate::calls;
use crate::text;
use chrono::{DateTime, NaiveDate, TimeDelta, Utc};
use vstd::prelude::*;

verus! {

/// The first second that a UTC date can have: 1 January of the year -262143.
pub const MIN_SECS: i64 = -8_334_601_228_800;

/// The last second that a UTC date can have: 31 December of the year 262142.
pub const MAX_SECS: i64 = 8_210_266_876_799;

/// A UTC instant.
///
/// `secs` counts the non-leap seconds since 1 January 1970. `nanos` counts the nanoseconds
/// into that second, and goes on past 1,000,000,000 inside a leap second.
#[derive(Clone, Copy, Debug, PartialEq, Eq, Structural)]
pub struct Timestamp {
    pub secs: i64,
    pub nanos: u32,
}

/// Integer division that rounds towards zero.
pub open spec fn trunc_div(a: int, b: int) -> int {
    if a >= 0 {
        a / b
    } else {
        -((-a) / b)
    }
}

impl Timestamp {
    /// Whether this names an instant: its date exists, and a nanosecond count past one second
    /// stands at the end of a minute.
    pub open spec fn wf(self) -> bool {
        &&& MIN_SECS <= self.secs <= MAX_SECS
        &&& self.nanos < 2_000_000_000
        &&& self.nanos >= 1_000_000_000 ==> self.secs as int % 60 == 59
    }

    /// Whether the instant lies inside a leap second.
    pub open spec fn in_leap_second(self) -> bool {
        self.nanos >= 1_000_000_000
    }

    /// The second of the day.
    pub open spec fn second_of_day(self) -> int {
        self.secs as int % 86_400
    }

    /// Nanoseconds from `earlier` to this instant.
    ///
    /// A leap second that one side lies in counts when the other side is farther along in its
    /// day. No other leap second counts.
    pub open spec fn nanos_since(self, earlier: Timestamp) -> int {
        let crossed: int = if self.second_of_day() > earlier.second_of_day()
            && earlier.in_leap_second() {
            1
        } else if self.second_of_day() < earlier.second_of_day() && self.in_leap_second() {
            -1
        } else {
            0
        };
        (self.secs - earlier.secs + crossed) * 1_000_000_000 + self.nanos - earlier.nanos
    }

    /// Whole seconds from `earlier` to this instant, rounded towards zero.
    pub open spec fn seconds_since_spec(self, earlier: Timestamp) -> int {
        trunc_div(self.nanos_since(earlier), 1_000_000_000)
    }

    /// Whole milliseconds from `earlier` to this instant, rounded towards zero.
    pub open spec fn millis_since_spec(self, earlier: Timestamp) -> int {
        trunc_div(self.nanos_since(earlier), 1_000_000)
    }

    /// The second and nanosecond that lie `ms` milliseconds after this instant.
    ///
    /// A move that leaves a leap second counts from the second before it when it goes forward,
    /// and from the second after it when it goes back by a second or more.
    pub open spec fn moved(self, ms: int) -> (int, int) {
        let whole = trunc_div(ms, 1000);
        let fraction = (ms - whole * 1000) * 1_000_000;
        if self.in_leap_second() && whole == 0 && self.nanos + fraction < 2_000_000_000 {
            (self.secs as int, self.nanos + fraction)
        } else {
            let base = if !self.in_leap_second() {
                self.secs * 1_000_000_000 + self.nanos
            } else if whole < 0 {
                (self.secs + 1) * 1_000_000_000 + self.nanos - 1_000_000_000
            } else {
                self.secs * 1_000_000_000 + self.nanos - 1_000_000_000
            };
            let total = base + ms * 1_000_000;
            (total / 1_000_000_000, total % 1_000_000_000)
        }
    }

    /// The instant `ms` milliseconds after this one, where its date exists.
    pub open spec fn plus_millis_spec(self, ms: int) -> Option<Timestamp> {
        let (secs, nanos) = self.moved(ms);
        if MIN_SECS <= secs <= MAX_SECS {
            Some(Timestamp { secs: secs as i64, nanos: nanos as u32 })
        } else {
            None
        }
    }

    /// Whole seconds from `earlier` to this instant, rounded towards zero.
    pub fn seconds_since(&self, earlier: &Timestamp) -> (s: i64)
        requires
            self.wf(),
            earlier.wf(),
        ensures
            s == self.seconds_since_spec(*earlier),
    {
        let (secs, _nanos) = signed_duration_since(self, earlier);
        secs
    }

    /// Whole milliseconds from `earlier` to this instant, rounded towards zero.
    pub fn millis_since(&self, earlier: &Timestamp) -> (ms: i64)
        requires
            self.wf(),
            earlier.wf(),
        ensures
            ms == self.millis_since_spec(*earlier),
    {
        let (secs, nanos) = signed_duration_since(self, earlier);
        if nanos >= 0 {
            secs * 1000 + (nanos / 1_000_000) as i64
        } else {
            secs * 1000 - ((-nanos) / 1_000_000) as i64
        }
    }

    /// The instant `ms` milliseconds after this one, or `None` where its date does not exist.
    pub fn plus_millis(&self, ms: i64) -> (r: Option<Timestamp>)
        requires
            self.wf(),
        ensures
            r == self.plus_millis_spec(ms as int),
            r matches Some(t) ==> t.wf(),
    {
        checked_add_signed(self, ms)
    }
}

/// Reads the system clock: `chrono::Utc::now`.
///
/// The result is an instant at or after 1 January 1970, outside any leap second. Which one it
/// is rests on the machine. The call panics where the system clock stands before 1970.
#[verifier::external_body]
fn utc_now() -> (t: Timestamp)
    ensures
        t.wf(),
        t.secs >= 0,
        !t.in_leap_second(),
{
    let now = Utc::now();
    Timestamp { secs: now.timestamp(), nanos: now.timestamp_subsec_nanos() }
}

/// Whether an instant is one that the system clock gave.
pub closed spec fn clock_gave(t: Timestamp) -> bool {
    call_ensures(utc_now, (), t)
}

/// Whether an instant is a reading of the system clock.
pub open spec fn is_reading(t: Timestamp) -> bool {
    &&& clock_gave(t)
    &&& t.wf()
    &&& t.secs >= 0
    &&& !t.in_leap_second()
}

/// Reads the system clock.
pub(crate) fn read_clock() -> (t: Timestamp)
    ensures
        is_reading(t),
{
    calls::call_plain(&utc_now)
}

/// The time between two instants: `chrono::DateTime::signed_duration_since`, with its whole
/// seconds and its remaining nanoseconds, both rounded towards zero.
#[verifier::external_body]
fn signed_duration_since(later: &Timestamp, earlier: &Timestamp) -> (d: (i64, i32))
    requires
        later.wf(),
        earlier.wf(),
    ensures
        d.0 == trunc_div(later.nanos_since(*earlier), 1_000_000_000),
        d.1 == later.nanos_since(*earlier) - d.0 * 1_000_000_000,
{
    let end = DateTime::<Utc>::from_timestamp(later.secs, later.nanos).unwrap();
    let start = DateTime::<Utc>::from_timestamp(earlier.secs, earlier.nanos).unwrap();
    let delta = end.signed_duration_since(start);
    (delta.num_seconds(), delta.subsec_nanos())
}

/// Moves an instant by milliseconds: `chrono::DateTime::checked_add_signed`. The result is
/// `None` exactly where the date that it would have does not exist.
#[verifier::external_body]
fn checked_add_signed(start: &Timestamp, ms: i64) -> (r: Option<Timestamp>)
    requires
        start.wf(),
    ensures
        r == start.plus_millis_spec(ms as int),
{
    let from = DateTime::<Utc>::from_timestamp(start.secs, start.nanos).unwrap();
    let delta = TimeDelta::try_milliseconds(ms)?;
    let moved = from.checked_add_signed(delta)?;
    Some(Timestamp { secs: moved.timestamp(), nanos: moved.timestamp_subsec_nanos() })
}

/// A calendar date and a time of day, as a clock face shows them.
#[derive(Clone, Copy, Debug, PartialEq, Eq, Structural)]
pub struct CivilTime {
    pub year: i32,
    pub month: u32,
    pub day: u32,
    pub hour: u32,
    pub minute: u32,
    pub second: u32,
    pub nanosecond: u32,
}

/// Whether a year has a 29 February.
pub open spec fn is_leap_year(year: int) -> bool {
    year % 4 == 0 && (year % 100 != 0 || year % 400 == 0)
}

/// Days from 1 January of a year to the first of a month.
pub open spec fn days_before_month(year: int, month: int) -> int {
    let common: int = if month <= 1 { 0 } else if month == 2 { 31 } else if month == 3 { 59 }
        else if month == 4 { 90 } else if month == 5 { 120 } else if month == 6 { 151 }
        else if month == 7 { 181 } else if month == 8 { 212 } else if month == 9 { 243 }
        else if month == 10 { 273 } else if month == 11 { 304 } else if month == 12 { 334 }
        else { 365 };
    if month > 2 && is_leap_year(year) { common + 1 } else { common }
}

/// Days from 1 January 1970 to a date of the Gregorian calendar.
pub open spec fn days_from_epoch(year: int, month: int, day: int) -> int {
    let before = year - 1;
    365 * before + before / 4 - before / 100 + before / 400 + days_before_month(year, month) + day
        - 719_163
}

impl CivilTime {
    /// Whether the date and the time of day exist.
    pub open spec fn exists_spec(self) -> bool {
        let (year, month) = (self.year as int, self.month as int);
        &&& -262_143 <= year <= 262_142
        &&& 1 <= month <= 12
        &&& 1 <= self.day <= days_before_month(year, month + 1) - days_before_month(year, month)
        &&& self.hour < 24 && self.minute < 60 && self.second < 60
        &&& self.nanosecond < 2_000_000_000
        &&& self.nanosecond >= 1_000_000_000 ==> self.second == 59
    }

    /// The instant that this names in UTC, where it exists.
    pub open spec fn instant(self) -> Option<Timestamp> {
        if self.exists_spec() {
            let days = days_from_epoch(self.year as int, self.month as int, self.day as int);
            let secs = days * 86_400 + self.hour * 3600 + self.minute * 60 + self.second;
            Some(Timestamp { secs: secs as i64, nanos: self.nanosecond })
        } else {
            None
        }
    }

    /// The instant that this names in UTC, or `None` where the date or the time of day does not
    /// exist.
    pub fn to_utc(&self) -> (r: Option<Timestamp>)
        ensures
            r == self.instant(),
            r matches Some(t) ==> t.wf(),
    {
        utc_from_civil(self)
    }
}

/// Joins a date and a time of day: `chrono::NaiveDate::from_ymd_opt`, then
/// `chrono::NaiveDate::and_hms_nano_opt`, read as UTC. The result is `None` exactly where the
/// date or the time of day does not exist.
#[verifier::external_body]
fn utc_from_civil(civil: &CivilTime) -> (r: Option<Timestamp>)
    ensures
        r == civil.instant(),
{
    let date = NaiveDate::from_ymd_opt(civil.year, civil.month, civil.day)?;
    let naive = date.and_hms_nano_opt(civil.hour, civil.minute, civil.second, civil.nanosecond)?;
    let utc = naive.and_utc();
    Some(Timestamp { secs: utc.timestamp(), nanos: utc.timestamp_subsec_nanos() })
}

/// The civil time that names an instant.
pub open spec fn civil_of(t: Timestamp) -> CivilTime {
    choose|c: CivilTime| c.instant() == Some(t)
}

/// A year with at least four digits, and with its sign where it is negative or has more.
pub open spec fn year_text(year: int) -> Seq<char> {
    if year < 0 {
        "-"@ + text::padded_decimal((-year) as nat, 4)
    } else if year > 9999 {
        "+"@ + text::padded_decimal(year as nat, 4)
    } else {
        text::padded_decimal(year as nat, 4)
    }
}

/// A civil time as year, month, day, hour, minute, second and millisecond without separators.
/// Inside a leap second the second is one higher than that of the minute's last.
pub open spec fn compact_text(c: CivilTime) -> Seq<char> {
    year_text(c.year as int) + text::padded_decimal(c.month as nat, 2) + text::padded_decimal(
        c.day as nat,
        2,
    ) + text::padded_decimal(c.hour as nat, 2) + text::padded_decimal(c.minute as nat, 2)
        + text::padded_decimal((c.second + c.nanosecond / 1_000_000_000) as nat, 2)
        + text::padded_decimal((c.nanosecond / 1_000_000 % 1000) as nat, 3)
}

/// Writes an instant: `chrono::DateTime::format` with `%Y%m%d%H%M%S%3f`. The text is that of
/// its civil time.
#[verifier::external_body]
pub(crate) fn format_compact(t: &Timestamp) -> (text: String)
    requires
        t.wf(),
    ensures
        text@ == compact_text(civil_of(*t)),
{
    let instant = DateTime::<Utc>::from_timestamp(t.secs, t.nanos).unwrap();
    instant.format("%Y%m%d%H%M%S%3f").to_string()
}

/// The days of a month.
spec fn month_len(year: int, month: int) -> int {
    days_before_month(year, month + 1) - days_before_month(year, month)
}

/// A later year begins after the end of an earlier one.
proof fn lemma_years_ascend(a: int, b: int)
    requires
        a < b,
    ensures
        days_from_epoch(a, 13, 1) <= days_from_epoch(b, 1, 1),
{
    let (x, y) = (a, b - 1);
    assert(days_from_epoch(a, 13, 1) == 365 * x + x / 4 - x / 100 + x / 400 + 1 - 719_163) by {
        let before = a - 1;
        assert(is_leap_year(a) ==> a / 4 == before / 4 + 1);
    }
}

/// Dates that exist have different numbers of days.
proof fn lemma_dates_differ(a: CivilTime, b: CivilTime)
    requires
        a.exists_spec(),
        b.exists_spec(),
        days_from_epoch(a.year as int, a.month as int, a.day as int) == days_from_epoch(
            b.year as int,
            b.month as int,
            b.day as int,
        ),
    ensures
        a.year == b.year && a.month == b.month && a.day == b.day,
{
    if a.year < b.year {
        lemma_years_ascend(a.year as int, b.year as int);
    } else if b.year < a.year {
        lemma_years_ascend(b.year as int, a.year as int);
    }
}

/// A number of days from the first date on belongs to a date.
proof fn lemma_date_of_days(days: int) -> (date: (int, int, int))
    requires
        days_from_epoch(-262_143, 1, 1) <= days <= days_from_epoch(262_142, 12, 31),
    ensures
        -262_143 <= date.0 <= 262_142,
        1 <= date.1 <= 12,
        1 <= date.2 <= month_len(date.0, date.1),
        days_from_epoch(date.0, date.1, date.2) == days,
    decreases days - days_from_epoch(-262_143, 1, 1),
{
    if days == days_from_epoch(-262_143, 1, 1) {
        (-262_143, 1, 1)
    } else {
        let (y, m, d) = lemma_date_of_days(days - 1);
        if d < month_len(y, m) {
            (y, m, d + 1)
        } else if m < 12 {
            (y, m + 1, 1)
        } else {
            let before = y - 1;
            assert(is_leap_year(y) ==> y / 4 == before / 4 + 1);
            (y + 1, 1, 1)
        }
    }
}

/// The days and the time of day of an instant are those of its civil time.
proof fn lemma_instant_parts(c: CivilTime, t: Timestamp)
    requires
        c.instant() == Some(t),
    ensures
        c.exists_spec(),
        days_from_epoch(c.year as int, c.month as int, c.day as int) == t.secs as int / 86_400,
        c.hour * 3600 + c.minute * 60 + c.second == t.secs as int % 86_400,
        c.nanosecond == t.nanos,
{
    let days = days_from_epoch(c.year as int, c.month as int, c.day as int);
    let rest = c.hour * 3600 + c.minute * 60 + c.second;
    assert(-100_000_000 <= days <= 100_000_000);
    assert(t.secs == days * 86_400 + rest);
}

/// Every instant has a civil time.
proof fn lemma_instant_is_named(t: Timestamp) -> (c: CivilTime)
    requires
        t.wf(),
    ensures
        c.instant() == Some(t),
{
    let days = t.secs as int / 86_400;
    let rest = t.secs as int % 86_400;
    let (y, m, d) = lemma_date_of_days(days);
    let c = CivilTime {
        year: y as i32,
        month: m as u32,
        day: d as u32,
        hour: (rest / 3600) as u32,
        minute: (rest / 60 % 60) as u32,
        second: (rest % 60) as u32,
        nanosecond: t.nanos,
    };
    assert(c.hour * 3600 + c.minute * 60 + c.second == rest);
    assert(t.secs as int % 60 == rest % 60);
    c
}

/// Every instant has exactly one civil time.
#[verifier::spinoff_prover]
#[verifier::rlimit(50)]
pub proof fn law_instants_have_one_civil_time(t: Timestamp, c: CivilTime)
    requires
        t.wf(),
    ensures
        civil_of(t).instant() == Some(t),
        c.instant() == Some(t) ==> c == civil_of(t),
{
    let found = lemma_instant_is_named(t);
    let chosen = civil_of(t);
    assert(chosen.instant() == Some(t));
    if c.instant() == Some(t) {
        lemma_instant_parts(c, t);
        lemma_instant_parts(chosen, t);
        lemma_dates_differ(c, chosen);
    }
}

/// The instant that a civil time names is in range.
pub proof fn lemma_instant_fits(c: CivilTime, t: Timestamp)
    requires
        c.instant() == Some(t),
    ensures
        t.wf(),
{
    lemma_instant_parts(c, t);
    let (year, month) = (c.year as int, c.month as int);
    let days = days_from_epoch(year, month, c.day as int);
    assert(-96_465_293 <= days <= 95_026_236);
    assert(t.secs as int == days * 86_400 + c.hour * 3600 + c.minute * 60 + c.second);
    if t.nanos >= 1_000_000_000 {
        assert(t.secs as int % 60 == 59);
    }
}

/// Elapsed time is cut off towards zero and never short by a whole unit: the seconds and the
/// milliseconds between two instants, in either direction. Outside leap seconds the time between
/// them is the plain difference.
pub proof fn law_elapsed_time_is_cut_off(
    later: &Timestamp,
    earlier: &Timestamp,
    secs: i64,
    ms: i64,
)
    requires
        call_ensures(Timestamp::seconds_since, (later, earlier), secs),
        call_ensures(Timestamp::millis_since, (later, earlier), ms),
    ensures
        ({
            let between = later.nanos_since(*earlier);
            &&& between >= 0 ==> 0 <= between - secs * 1_000_000_000 < 1_000_000_000
            &&& between >= 0 ==> 0 <= between - ms * 1_000_000 < 1_000_000
            &&& between <= 0 ==> 0 <= secs * 1_000_000_000 - between < 1_000_000_000
            &&& between <= 0 ==> 0 <= ms * 1_000_000 - between < 1_000_000
            &&& !later.in_leap_second() && !earlier.in_leap_second() ==> between == (later.secs
                - earlier.secs) * 1_000_000_000 + later.nanos - earlier.nanos
        }),
{
}

/// An instant moved on by milliseconds is that much later: outside leap seconds the time between
/// the two is exactly the move, and there is no such instant exactly where it would be out of
/// range.
pub proof fn law_moving_an_instant_adds_the_time(
    start: &Timestamp,
    ms: i64,
    moved: Option<Timestamp>,
)
    requires
        start.wf(),
        !start.in_leap_second(),
        call_ensures(Timestamp::plus_millis, (start, ms), moved),
    ensures
        ({
            let total = start.secs * 1_000_000_000 + start.nanos + ms * 1_000_000;
            &&& moved matches Some(t) ==> t.secs * 1_000_000_000 + t.nanos == total && t.nanos
                < 1_000_000_000
            &&& moved is Some <==> MIN_SECS * 1_000_000_000 <= total < (MAX_SECS + 1)
                * 1_000_000_000
        }),
{
    let total = start.secs * 1_000_000_000 + start.nanos + ms * 1_000_000;
    assert(start.moved(ms as int) == (total / 1_000_000_000, total % 1_000_000_000));
}

} // verus!
