use mission_core::clock::ClockError;
use mission_core::clock::VirtualClock;
use mission_core::double::Double;
use mission_core::timestamp::CivilTime;
use mission_core::timestamp::Timestamp;
use mission_core::timestamp::MAX_SECS;
use mission_core::timestamp::MIN_SECS;

fn num(x: f64) -> Double {
    Double::from_bits(x.to_bits())
}

fn scale(ms: i64, factor: Double) -> i64 {
    (ms as f64 * f64::from_bits(factor.bits)) as i64
}

fn at(secs: i64, nanos: u32) -> Timestamp {
    Timestamp { secs, nanos }
}

fn later(a: Timestamp, b: Timestamp) -> bool {
    (a.secs, a.nanos) > (b.secs, b.nanos)
}

fn wait_millis(ms: u128) {
    let start = std::time::Instant::now();
    while start.elapsed().as_millis() < ms {}
}

fn instant(t: Timestamp) -> chrono::DateTime<chrono::Utc> {
    chrono::DateTime::from_timestamp(t.secs, t.nanos).unwrap()
}

#[test]
fn test_virtual_clock_real_time() {
    let clock = VirtualClock::real_time();
    let t1 = clock.now(&scale).unwrap();
    wait_millis(50);
    let t2 = clock.now(&scale).unwrap();
    assert!(later(t2, t1), "Virtual clock should advance in real-time");
}

#[test]
fn test_virtual_clock_warp() {
    let mut clock = VirtualClock::real_time();
    clock.set_warp_factor(num(100.0), &scale).expect("set warp");
    let t1 = clock.now(&scale).unwrap();
    wait_millis(100);
    let t2 = clock.now(&scale).unwrap();
    let elapsed = t2.seconds_since(&t1);
    // At 100x warp, 100ms wall time → ~10s virtual time
    assert!(elapsed >= 5, "Warped clock should advance ~10s, got {elapsed}s");
}

#[test]
fn test_virtual_clock_pause_resume() {
    let mut clock = VirtualClock::real_time();
    clock.pause(&scale).unwrap();
    let t1 = clock.now(&scale).unwrap();
    wait_millis(100);
    let t2 = clock.now(&scale).unwrap();
    assert_eq!(t1, t2, "Paused clock should not advance");

    clock.resume();
    wait_millis(50);
    let t3 = clock.now(&scale).unwrap();
    assert!(later(t3, t2), "Resumed clock should advance");
}

#[test]
fn clock_reads_its_epoch_plus_the_scaled_time() {
    let mut clock = VirtualClock::new_at(at(1_000, 0), at(50, 0));
    assert_eq!(clock.now_at(at(51, 250_000_000), &scale), Some(at(1_001, 250_000_000)));
    clock.set_warp_factor_at(num(4.0), at(60, 0), &scale).unwrap();
    assert_eq!(clock.now_at(at(60, 0), &scale), Some(at(1_010, 0)));
    assert_eq!(clock.now_at(at(61, 500_000_000), &scale), Some(at(1_016, 0)));
    assert_eq!(clock.now_at(at(59, 0), &scale), Some(at(1_006, 0)));
}

#[test]
fn warp_factor_must_be_positive() {
    let mut clock = VirtualClock::new_at(at(0, 0), at(0, 0));
    for factor in [0.0, -0.0, -1.0, f64::NAN, f64::NEG_INFINITY] {
        assert_eq!(
            clock.set_warp_factor_at(num(factor), at(5, 0), &scale),
            Err(ClockError::WarpNotPositive),
        );
        assert_eq!(clock.set_warp_factor(num(factor), &scale), Err(ClockError::WarpNotPositive));
    }
    assert_eq!(clock.now_at(at(5, 0), &scale), Some(at(5, 0)));
    assert_eq!(clock.set_warp_factor_at(num(5e-324), at(5, 0), &scale), Ok(()));
}

#[test]
fn paused_clock_resumes_where_it_stood() {
    let mut clock = VirtualClock::new_at(at(100, 0), at(0, 0));
    clock.pause_at(at(10, 0), &scale).unwrap();
    assert_eq!(clock.now_at(at(99, 0), &scale), Some(at(110, 0)));
    clock.resume_at(at(200, 0));
    assert_eq!(clock.now_at(at(200, 0), &scale), Some(at(110, 0)));
    assert_eq!(clock.now_at(at(203, 0), &scale), Some(at(113, 0)));
}

#[test]
fn clock_never_goes_back() {
    let mut clock = VirtualClock::new_at(at(59, 1_500_000_000), at(10, 0));
    clock.set_warp_factor_at(num(0.75), at(10, 0), &scale).unwrap();
    let mut last = clock.now_at(at(0, 0), &scale).unwrap();
    for ms in 0..30_000u32 {
        let wall = at((ms / 1_000) as i64, ms % 1_000 * 1_000_000);
        let time = clock.now_at(wall, &scale).unwrap();
        assert!(!later(last, time));
        last = time;
    }
}

#[test]
fn clock_jumps_and_keeps_its_pace() {
    let mut clock = VirtualClock::new_at(at(0, 0), at(0, 0));
    clock.set_warp_factor_at(num(2.0), at(0, 0), &scale).unwrap();
    clock.jump_to_at(at(9_000, 0), at(7, 0));
    assert_eq!(clock.now_at(at(8, 0), &scale), Some(at(9_002, 0)));
    clock.pause_at(at(8, 0), &scale).unwrap();
    clock.jump_to_at(at(5, 0), at(9, 0));
    assert_eq!(clock.now_at(at(100, 0), &scale), Some(at(5, 0)));
}

#[test]
fn synced_clock_follows_the_wall() {
    let mut clock = VirtualClock::new_at(at(0, 0), at(0, 0));
    clock.set_warp_factor_at(num(50.0), at(0, 0), &scale).unwrap();
    clock.pause_at(at(1, 0), &scale).unwrap();
    clock.sync_to_utc_at(at(1_700_000_000, 123_456_789));
    let wall = at(1_700_000_010, 123_999_999);
    assert_eq!(clock.now_at(wall, &scale), Some(at(1_700_000_010, 123_456_789)));
}

#[test]
fn clock_methods_read_the_wall_clock() {
    let mut clock = VirtualClock::new(at(0, 0));
    assert!(clock.now(&scale).unwrap().secs <= 1);
    clock.jump_to(at(1_000, 0));
    let t = clock.now(&scale).unwrap();
    assert!(t.secs >= 1_000 && t.secs <= 1_001);
    clock.sync_to_utc();
    let drift = chrono::Utc::now() - instant(clock.now(&scale).unwrap());
    assert!(drift.num_seconds().abs() <= 1);
}

#[test]
fn clock_past_the_last_date_reads_nothing() {
    let mut clock = VirtualClock::new_at(at(MAX_SECS, 999_999_999), at(0, 0));
    assert_eq!(clock.now_at(at(0, 0), &scale), Some(at(MAX_SECS, 999_999_999)));
    assert_eq!(clock.now_at(at(0, 1_000_000), &scale), None);
    assert_eq!(clock.pause_at(at(1, 0), &scale), Err(ClockError::OutOfRange));
    assert_eq!(
        clock.set_warp_factor_at(num(2.0), at(1, 0), &scale),
        Err(ClockError::OutOfRange),
    );
    let early = VirtualClock::new_at(at(MIN_SECS, 0), at(10, 0));
    assert_eq!(early.now_at(at(9, 0), &scale), None);
}

#[test]
fn differences_match_the_calendar_library() {
    let instants = [
        at(0, 0),
        at(0, 1),
        at(-1, 999_999_999),
        at(59, 1_500_000_000),
        at(60, 0),
        at(86_399, 1_999_999_999),
        at(86_400, 0),
        at(86_340 + 59, 1_000_000_000),
        at(200_000, 7),
        at(-86_401, 5),
        at(MIN_SECS, 0),
        at(MAX_SECS, 999_999_999),
        at(1_700_000_000, 123_456_789),
    ];
    for a in instants {
        for b in instants {
            let delta = instant(a).signed_duration_since(instant(b));
            assert_eq!(a.seconds_since(&b), delta.num_seconds(), "{a:?} {b:?}");
            assert_eq!(a.millis_since(&b), delta.num_milliseconds(), "{a:?} {b:?}");
        }
    }
}

#[test]
fn known_differences_are_exact() {
    assert_eq!(at(10, 0).seconds_since(&at(8, 500_000_000)), 1);
    assert_eq!(at(8, 500_000_000).seconds_since(&at(10, 0)), -1);
    assert_eq!(at(10, 0).millis_since(&at(8, 999_999_999)), 1_000);
    assert_eq!(at(8, 999_999_999).millis_since(&at(10, 0)), -1_000);
    assert_eq!(at(59, 1_500_000_000).millis_since(&at(59, 500_000_000)), 1_000);
    assert_eq!(at(60, 0).millis_since(&at(59, 1_500_000_000)), 500);
}

#[test]
fn moves_match_the_calendar_library() {
    let instants = [
        at(0, 0),
        at(-1, 999_999_999),
        at(59, 1_500_000_000),
        at(86_399, 1_999_999_999),
        at(MIN_SECS, 0),
        at(MAX_SECS, 999_999_999),
        at(1_700_000_000, 123_456_789),
    ];
    let moves = [0, 1, -1, 400, -400, 499, 500, 600, -600, 999, 1_000, -1_000, 1_500, -1_500, 86_400_000,
        -86_400_000, i64::MAX, i64::MIN, 10_000_000_000_000_000];
    for t in instants {
        for ms in moves {
            let expected = chrono::TimeDelta::try_milliseconds(ms)
                .and_then(|d| instant(t).checked_add_signed(d))
                .map(|d| at(d.timestamp(), d.timestamp_subsec_nanos()));
            assert_eq!(t.plus_millis(ms), expected, "{t:?} {ms}");
        }
    }
    assert_eq!(at(10, 0).plus_millis(-1), Some(at(9, 999_000_000)));
}

#[test]
fn civil_times_match_the_calendar_library() {
    let base = CivilTime {
        year: 2024,
        month: 2,
        day: 29,
        hour: 12,
        minute: 30,
        second: 59,
        nanosecond: 5,
    };
    assert_eq!(base.to_utc(), Some(at(1_709_209_859, 5)));
    for year in [-262_144, -262_143, -1, 0, 1, 1900, 1969, 1970, 2000, 2023, 2024, 2100, 262_142, 262_143] {
        for month in 0..=13u32 {
            for day in [0u32, 1, 28, 29, 30, 31, 32] {
                let civil = CivilTime { year, month, day, ..base };
                let expected = chrono::NaiveDate::from_ymd_opt(year, month, day)
                    .and_then(|d| d.and_hms_nano_opt(12, 30, 59, 5))
                    .map(|d| at(d.and_utc().timestamp(), 5));
                assert_eq!(civil.to_utc(), expected, "{civil:?}");
            }
        }
    }
}

#[test]
fn times_of_day_that_do_not_exist_are_refused() {
    let noon = CivilTime {
        year: 1970,
        month: 1,
        day: 1,
        hour: 12,
        minute: 0,
        second: 0,
        nanosecond: 0,
    };
    assert_eq!(noon.to_utc(), Some(at(43_200, 0)));
    assert_eq!(CivilTime { hour: 24, ..noon }.to_utc(), None);
    assert_eq!(CivilTime { minute: 60, ..noon }.to_utc(), None);
    assert_eq!(CivilTime { second: 60, ..noon }.to_utc(), None);
    assert_eq!(CivilTime { nanosecond: 1_000_000_000, ..noon }.to_utc(), None);
    assert_eq!(CivilTime { second: 59, nanosecond: 2_000_000_000, ..noon }.to_utc(), None);
    assert_eq!(
        CivilTime { second: 59, nanosecond: 1_999_999_999, ..noon }.to_utc(),
        Some(at(43_259, 1_999_999_999)),
    );
}
