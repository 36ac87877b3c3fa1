use meeting_agent::clock::{init, local_stamp, now_local, now_ms, now_us, Clock, WallTime};
use meeting_agent::output::session_name;
use meeting_agent::timeline::event::now_event_stamps;

fn moment() -> WallTime {
    WallTime {
        year: 2026,
        month: 4,
        day: 22,
        hour: 10,
        minute: 45,
        second: 3,
        nanosecond: 250_000_000,
        offset_seconds: 9 * 3600,
    }
}

#[test]
fn time_is_counted_from_the_start() {
    let clock = Some(init(10_000_000, 5_000));
    assert_eq!(clock, Some(Clock { frequency: 10_000_000, start: 5_000 }));
    assert_eq!(now_ms(&clock, 5_000), 0);
    assert_eq!(now_ms(&clock, 15_000), 1);
    assert_eq!(now_us(&clock, 15_000), 1_000);
    assert_eq!(now_us(&clock, 5_009), 0);
    assert_eq!(now_us(&clock, 5_010), 1);
}

#[test]
fn a_clock_that_was_not_set_ticks_ten_million_times_a_second() {
    assert_eq!(now_ms(&None, 25_000_000), 2_500);
    assert_eq!(now_us(&None, 25_000_000), 2_500_000);
}

#[test]
fn a_clock_that_does_not_tick_stands_still() {
    let stopped = Some(Clock { frequency: 0, start: 0 });
    assert_eq!(now_ms(&stopped, 1_000_000), 0);
    let backwards = Some(Clock { frequency: -1, start: 0 });
    assert_eq!(now_us(&backwards, 1_000_000), 0);
    let later = Some(Clock { frequency: 1_000, start: 100 });
    assert_eq!(now_ms(&later, 50), 0);
}

#[test]
fn the_clock_never_runs_back() {
    let clock = Some(Clock { frequency: 3_579_545, start: -17 });
    let mut last = 0;
    for counter in (-100..20_000_000).step_by(54_321) {
        let now = now_ms(&clock, counter);
        assert!(now >= last);
        last = now;
    }
}

#[test]
fn milliseconds_are_whole_thousands_of_microseconds() {
    let clock = Some(Clock { frequency: 3_579_545, start: 12 });
    for counter in (0..40_000_000).step_by(777_777) {
        assert_eq!(now_ms(&clock, counter), now_us(&clock, counter) / 1000);
    }
}

#[test]
fn a_moment_is_written_in_digits() {
    assert_eq!(local_stamp(&moment()), Some("2026-04-22_104503".to_string()));
    let leap = WallTime { second: 59, nanosecond: 1_500_000_000, ..moment() };
    assert_eq!(local_stamp(&leap), Some("2026-04-22_104560".to_string()));
    let early = WallTime { year: 7, ..moment() };
    assert_eq!(local_stamp(&early), Some("0007-04-22_104503".to_string()));
    let far = WallTime { year: 12345, ..moment() };
    assert_eq!(local_stamp(&far), Some("+12345-04-22_104503".to_string()));
    let before = WallTime { year: -5, ..moment() };
    assert_eq!(local_stamp(&before), Some("-0005-04-22_104503".to_string()));
}

#[test]
fn a_date_that_the_calendar_does_not_have_is_refused() {
    assert_eq!(local_stamp(&WallTime { month: 2, day: 30, ..moment() }), None);
    assert_eq!(local_stamp(&WallTime { year: 2023, month: 2, day: 29, ..moment() }), None);
    assert!(local_stamp(&WallTime { year: 2024, month: 2, day: 29, ..moment() }).is_some());
    assert_eq!(local_stamp(&WallTime { hour: 24, ..moment() }), None);
    assert_eq!(local_stamp(&WallTime { year: 300_000, ..moment() }), None);
    assert_eq!(local_stamp(&WallTime { nanosecond: 2_000_000_000, ..moment() }), None);
}

#[test]
fn the_wall_clock_is_written_with_its_zone() {
    assert_eq!(now_local(&moment()), Some("2026-04-22T10:45:03.250+09:00".to_string()));
    let utc = WallTime { nanosecond: 0, offset_seconds: 0, ..moment() };
    assert_eq!(now_local(&utc), Some("2026-04-22T10:45:03+00:00".to_string()));
    let west = WallTime { nanosecond: 0, offset_seconds: -12_600, ..moment() };
    assert_eq!(now_local(&west), Some("2026-04-22T10:45:03-03:30".to_string()));
    let odd = WallTime { nanosecond: 1_500, offset_seconds: 19_800 + 29, ..moment() };
    assert_eq!(now_local(&odd), Some("2026-04-22T10:45:03.000001500+05:30".to_string()));
    let micro = WallTime { nanosecond: 7_000, offset_seconds: 19_800 + 30, ..moment() };
    assert_eq!(now_local(&micro), Some("2026-04-22T10:45:03.000007+05:31".to_string()));
    let leap = WallTime { second: 59, nanosecond: 1_000_000_000, offset_seconds: 0, ..moment() };
    assert_eq!(now_local(&leap), Some("2026-04-22T10:45:60+00:00".to_string()));
    let far = WallTime { year: 12345, nanosecond: 0, offset_seconds: -86_399, ..moment() };
    assert_eq!(now_local(&far), Some("+12345-04-22T10:45:03-24:00".to_string()));
    assert_eq!(now_local(&WallTime { offset_seconds: 86_400, ..moment() }), None);
    assert_eq!(now_local(&WallTime { day: 31, ..moment() }), None);
}

#[test]
fn an_event_has_both_stamps() {
    let clock = Some(Clock { frequency: 1_000, start: 0 });
    let (t, wall) = now_event_stamps(&clock, 1_234, &moment());
    assert_eq!(t, 1_234);
    assert_eq!(wall, Some("2026-04-22T10:45:03.250+09:00".to_string()));
}

#[test]
fn a_session_is_named_after_its_start() {
    assert_eq!(session_name(&moment()), Some("session-2026-04-22_104503".to_string()));
    assert_eq!(session_name(&WallTime { month: 13, ..moment() }), None);
}

#[test]
fn a_moment_needs_a_date_in_utc() {
    let first = WallTime {
        year: -262_143,
        month: 1,
        day: 1,
        hour: 0,
        minute: 0,
        second: 0,
        nanosecond: 0,
        offset_seconds: 0,
    };
    assert!(now_local(&first).is_some());
    assert!(now_local(&WallTime { offset_seconds: 1, ..first }).is_none());
    assert!(now_local(&WallTime { offset_seconds: -1, ..first }).is_some());
    let last = WallTime {
        year: 262_142,
        month: 12,
        day: 31,
        hour: 23,
        minute: 59,
        second: 59,
        ..first
    };
    assert!(now_local(&last).is_some());
    assert!(now_local(&WallTime { offset_seconds: -1, ..last }).is_none());
    assert!(now_local(&WallTime { offset_seconds: 1, ..last }).is_some());
    assert!(now_local(&WallTime { day: 30, offset_seconds: -1, ..last }).is_some());
}
