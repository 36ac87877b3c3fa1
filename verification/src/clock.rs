//! Time: a monotonic clock anchored at the start of the agent, and the wall
//! clock in the user's own zone.
//!
//! Wall-clock time can drift during a long meeting, so everything that is
//! ordered is stamped by the monotonic clock.

use chrono::TimeZone;
use vstd::prelude::*;

use crate::text::{option_text, padded};

verus! {

// ---------------------------------------------------------------------------
// The monotonic clock
// ---------------------------------------------------------------------------

/// A performance counter: how many ticks it makes in a second, and where it
/// stood when the agent started.
#[derive(Debug, Clone, Copy, PartialEq, Eq, Structural)]
pub struct Clock {
    pub frequency: i64,
    pub start: i64,
}

/// The ticks per second that are taken where the clock was never set.
pub const DEFAULT_FREQUENCY: i64 = 10_000_000;

/// The clock of a counter that stands at `counter` now.
pub fn init(frequency: i64, counter: i64) -> (r: Clock)
    ensures
        r == (Clock { frequency, start: counter }),
{
    Clock { frequency, start: counter }
}

/// The clock in force: the one that was set, or the default one.
pub open spec fn in_force(clock: Option<Clock>) -> Clock {
    match clock {
        Some(c) => c,
        None => Clock { frequency: DEFAULT_FREQUENCY, start: 0 },
    }
}

/// How many parts of a second, `per_second` of them making one, have passed
/// since the start when the counter stands at `counter`: none before the
/// start, and none where the counter does not tick.
pub open spec fn elapsed(clock: Clock, counter: i64, per_second: int) -> int {
    if clock.frequency <= 0 || counter <= clock.start {
        0
    } else {
        (counter - clock.start) * per_second / clock.frequency as int
    }
}

/// The values that a 64-bit counter goes through before it starts again.
pub open spec fn wrap64(n: int) -> int {
    n % 0x1_0000_0000_0000_0000
}

fn elapsed_since(clock: &Option<Clock>, counter: i64, per_second: u64) -> (r: u64)
    requires
        i64::MIN <= counter - in_force(*clock).start <= i64::MAX,
        0 < per_second <= 1_000_000,
    ensures
        r == wrap64(elapsed(in_force(*clock), counter, per_second as int)),
{
    let c = match clock {
        Some(c) => *c,
        None => Clock { frequency: DEFAULT_FREQUENCY, start: 0 },
    };
    let delta: i64 = counter - c.start;
    if c.frequency <= 0 || delta <= 0 {
        return 0;
    }
    let ticks: u128 = delta as u128;
    let scale: u128 = per_second as u128;
    let frequency: u128 = c.frequency as u128;
    assert(0 <= ticks * scale <= 0x7fff_ffff_ffff_ffff * 1_000_000) by (nonlinear_arith)
        requires
            0 <= ticks <= 0x7fff_ffff_ffff_ffff,
            0 <= scale <= 1_000_000,
    ;
    let whole: u128 = ticks * scale / frequency;
    (whole % 0x1_0000_0000_0000_0000) as u64
}

/// Milliseconds since the clock was set.
pub fn now_ms(clock: &Option<Clock>, counter: i64) -> (r: u64)
    requires
        i64::MIN <= counter - in_force(*clock).start <= i64::MAX,
    ensures
        r == wrap64(elapsed(in_force(*clock), counter, 1000)),
{
    elapsed_since(clock, counter, 1000)
}

/// Microseconds since the clock was set.
pub fn now_us(clock: &Option<Clock>, counter: i64) -> (r: u64)
    requires
        i64::MIN <= counter - in_force(*clock).start <= i64::MAX,
    ensures
        r == wrap64(elapsed(in_force(*clock), counter, 1_000_000)),
{
    elapsed_since(clock, counter, 1_000_000)
}

/// The clock never runs back: a counter that stands no lower shows no earlier
/// time.
pub proof fn law_clock_is_monotonic(clock: Clock, earlier: i64, later: i64, per_second: int)
    requires
        earlier <= later,
        0 <= per_second,
    ensures
        0 <= elapsed(clock, earlier, per_second) <= elapsed(clock, later, per_second),
{
    if clock.frequency > 0 && later > clock.start {
        let f = clock.frequency as int;
        let b = later - clock.start;
        assert(0 <= b * per_second) by (nonlinear_arith)
            requires
                0 <= b,
                0 <= per_second,
        ;
        vstd::arithmetic::div_mod::lemma_div_pos_is_pos(b * per_second, f);
        if earlier > clock.start {
            let a = earlier - clock.start;
            assert(0 <= a * per_second <= b * per_second) by (nonlinear_arith)
                requires
                    0 <= a <= b,
                    0 <= per_second,
            ;
            vstd::arithmetic::div_mod::lemma_div_pos_is_pos(a * per_second, f);
            vstd::arithmetic::div_mod::lemma_div_is_ordered(a * per_second, b * per_second, f);
        }
    }
}

/// The milliseconds are the whole thousands of the microseconds.
pub proof fn law_units_agree(clock: Clock, counter: i64)
    ensures
        elapsed(clock, counter, 1000) == elapsed(clock, counter, 1_000_000) / 1000,
{
    if clock.frequency > 0 && counter > clock.start {
        let f = clock.frequency as int;
        let d = counter - clock.start;
        vstd::arithmetic::div_mod::lemma_div_denominator(d * 1_000_000, f, 1000);
        assert(f * 1000 == 1000 * f);
        vstd::arithmetic::div_mod::lemma_div_denominator(d * 1_000_000, 1000, f);
        assert(d * 1_000_000 / 1000 == d * 1000);
    }
}

// ---------------------------------------------------------------------------
// The wall clock
// ---------------------------------------------------------------------------

/// A moment on the user's wall clock, and how far that clock is ahead of UTC.
#[derive(Debug, Clone, Copy, PartialEq, Eq, Structural)]
pub struct WallTime {
    pub year: i32,
    pub month: u32,
    pub day: u32,
    pub hour: u32,
    pub minute: u32,
    pub second: u32,
    /// A billion and more within a leap second.
    pub nanosecond: u32,
    pub offset_seconds: i32,
}

/// A leap year of the Gregorian calendar.
pub open spec fn leap_year(year: int) -> bool {
    year % 4 == 0 && (year % 100 != 0 || year % 400 == 0)
}

/// The days of a month.
pub open spec fn days_in_month(year: int, month: int) -> int {
    if month == 2 {
        if leap_year(year) {
            29
        } else {
            28
        }
    } else if month == 4 || month == 6 || month == 9 || month == 11 {
        30
    } else {
        31
    }
}

/// A date that the calendar has and a time that the clock shows.
pub open spec fn on_the_calendar(w: WallTime) -> bool {
    &&& -262143 <= w.year <= 262142
    &&& 1 <= w.month <= 12
    &&& 1 <= w.day <= days_in_month(w.year as int, w.month as int)
    &&& w.hour < 24
    &&& w.minute < 60
    &&& w.second < 60
    &&& w.nanosecond < 2_000_000_000
    &&& w.nanosecond >= 1_000_000_000 ==> w.second == 59
}

/// A year of at least four digits, with a sign where it has more than four or
/// lies before the year zero.
pub open spec fn year_text(year: int) -> Seq<char> {
    if 0 <= year <= 9999 {
        padded(year as nat, 4)
    } else if year < 0 {
        seq!['-'] + padded((-year) as nat, 4)
    } else {
        seq!['+'] + padded(year as nat, 4)
    }
}

/// A moment as `YYYY-MM-DD_HHMMSS`.
pub open spec fn stamp_text(w: WallTime) -> Seq<char> {
    year_text(w.year as int) + seq!['-'] + padded(w.month as nat, 2) + seq!['-'] + padded(
        w.day as nat,
        2,
    ) + seq!['_'] + padded(w.hour as nat, 2) + padded(w.minute as nat, 2) + padded(
        (w.second + w.nanosecond / 1_000_000_000) as nat,
        2,
    )
}

/// `chrono::NaiveDateTime::format` writes year, month, day, hour, minute and
/// second as the pattern asks: the year with four digits or more, the others
/// with two, a leap second as the sixtieth. `chrono` takes no date that the
/// calendar does not have.
#[verifier::external_body]
fn format_local(w: &WallTime, pattern: &str) -> (r: Option<String>)
    requires
        pattern@ == "%Y-%m-%d_%H%M%S"@,
    ensures
        match r {
            Some(t) => on_the_calendar(*w) && t@ == stamp_text(*w),
            None => !on_the_calendar(*w),
        },
{
    let date = chrono::NaiveDate::from_ymd_opt(w.year, w.month, w.day)?;
    let moment = date.and_hms_nano_opt(w.hour, w.minute, w.second, w.nanosecond)?;
    Some(moment.format(pattern).to_string())
}

/// The fraction of a second, with as many digits as it needs out of three, six
/// and nine; a whole second has none.
pub open spec fn fraction_text(nanosecond: int) -> Seq<char> {
    if nanosecond == 0 {
        Seq::empty()
    } else if nanosecond % 1_000_000 == 0 {
        seq!['.'] + padded((nanosecond / 1_000_000) as nat, 3)
    } else if nanosecond % 1_000 == 0 {
        seq!['.'] + padded((nanosecond / 1_000) as nat, 6)
    } else {
        seq!['.'] + padded(nanosecond as nat, 9)
    }
}

/// How far a clock is ahead of UTC, as `+HH:MM` or `-HH:MM`, rounded to minutes.
pub open spec fn offset_text(seconds: int) -> Seq<char> {
    let size = if seconds < 0 {
        -seconds
    } else {
        seconds
    };
    let minutes = (size + 30) / 60;
    let sign = if seconds < 0 {
        '-'
    } else {
        '+'
    };
    seq![sign] + padded((minutes / 60) as nat, 2) + seq![':'] + padded((minutes % 60) as nat, 2)
}

/// A moment in the format of RFC 3339: date, `T`, time, fraction and offset.
pub open spec fn rfc3339_text(w: WallTime) -> Seq<char> {
    year_text(w.year as int) + seq!['-'] + padded(w.month as nat, 2) + seq!['-'] + padded(
        w.day as nat,
        2,
    ) + seq!['T'] + padded(w.hour as nat, 2) + seq![':'] + padded(w.minute as nat, 2) + seq![':']
        + padded((w.second + w.nanosecond / 1_000_000_000) as nat, 2) + fraction_text(
        w.nanosecond as int % 1_000_000_000,
    ) + offset_text(w.offset_seconds as int)
}

/// A moment that the calendar has in local time and in UTC, on a clock that is
/// less than a day from UTC.
pub open spec fn has_utc(w: WallTime) -> bool {
    let seconds = w.hour * 3600 + w.minute * 60 + w.second - w.offset_seconds;
    &&& on_the_calendar(w)
    &&& -86_400 < w.offset_seconds < 86_400
    &&& seconds < 0 ==> !(w.year == -262143 && w.month == 1 && w.day == 1)
    &&& seconds >= 86_400 ==> !(w.year == 262142 && w.month == 12 && w.day == 31)
}

/// `chrono::DateTime::to_rfc3339` writes a moment in the format of RFC 3339.
/// `chrono` takes no date that the calendar does not have, no offset of a day or
/// more, and no moment whose date in UTC lies outside of its calendar.
#[verifier::external_body]
fn to_rfc3339(w: &WallTime) -> (r: Option<String>)
    ensures
        match r {
            Some(t) => has_utc(*w) && t@ == rfc3339_text(*w),
            None => !has_utc(*w),
        },
{
    let date = chrono::NaiveDate::from_ymd_opt(w.year, w.month, w.day)?;
    let moment = date.and_hms_nano_opt(w.hour, w.minute, w.second, w.nanosecond)?;
    let zone = chrono::FixedOffset::east_opt(w.offset_seconds)?;
    Some(zone.from_local_datetime(&moment).single()?.to_rfc3339())
}

/// A moment as `YYYY-MM-DD_HHMMSS`, if the calendar has it.
pub fn local_stamp(w: &WallTime) -> (r: Option<String>)
    ensures
        match r {
            Some(t) => on_the_calendar(*w) && t@ == stamp_text(*w),
            None => !on_the_calendar(*w),
        },
{
    format_local(w, "%Y-%m-%d_%H%M%S")
}

/// The wall clock as it is written into the timeline: local time with its
/// offset, in the format of RFC 3339.
pub fn now_local(w: &WallTime) -> (r: Option<String>)
    ensures
        match r {
            Some(t) => has_utc(*w) && t@ == rfc3339_text(*w),
            None => !has_utc(*w),
        },
{
    to_rfc3339(w)
}

/// Time is what the ticks since the start make of it: `per_second` parts for each
/// `frequency` of them, rounded down. Before the start, and where the counter does
/// not tick, none has passed. A clock that was never set makes ten million ticks in
/// a second and starts at zero.
pub proof fn law_ticks_make_time(clock: Clock, counter: i64, per_second: int)
    requires
        0 < per_second,
    ensures
        clock.frequency > 0 && counter >= clock.start ==> elapsed(clock, counter, per_second)
            * clock.frequency <= (counter - clock.start) * per_second < (elapsed(
            clock,
            counter,
            per_second,
        ) + 1) * clock.frequency,
        clock.frequency <= 0 || counter <= clock.start ==> elapsed(clock, counter, per_second) == 0,
        in_force(None) == (Clock { frequency: 10_000_000, start: 0 }),
        in_force(Some(clock)) == clock,
{
    if clock.frequency > 0 && counter >= clock.start {
        let f = clock.frequency as int;
        let n = (counter - clock.start) * per_second;
        assert(n >= 0) by (nonlinear_arith)
            requires
                n == (counter - clock.start) * per_second,
                counter >= clock.start,
                per_second > 0,
        ;
        if counter == clock.start {
            assert(n == 0) by (nonlinear_arith)
                requires
                    n == (counter - clock.start) * per_second,
                    counter == clock.start,
            ;
        }
        vstd::arithmetic::div_mod::lemma_fundamental_div_mod(n, f);
        assert(n / f * f <= n < (n / f + 1) * f) by (nonlinear_arith)
            requires
                n == f * (n / f) + n % f,
                0 <= n % f < f,
        ;
    }
}

/// A number that a counter of sixty-four bits can show is shown as it is, and one
/// that is larger by what the counter holds is shown as the same.
pub proof fn law_counter_starts_again(n: int)
    ensures
        0 <= n <= u64::MAX ==> wrap64(n) == n,
        wrap64(n + 0x1_0000_0000_0000_0000) == wrap64(n),
        0 <= wrap64(n) <= u64::MAX,
{
}

} // verus!
