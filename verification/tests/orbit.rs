use mission_core::double::Double;
use mission_core::orbit::full_year;
use mission_core::orbit::OrbitError;
use mission_core::orbit::OrbitalPropagator;
use mission_core::orbit::StateVector;
use mission_core::orbit::TleFacts;
use mission_core::orbit::ISS_TLE_LINE1;
use mission_core::orbit::ISS_TLE_LINE2;
use mission_core::timestamp::CivilTime;
use mission_core::timestamp::Timestamp;

fn num(x: f64) -> Double {
    Double::from_bits(x.to_bits())
}

fn val(d: Double) -> f64 {
    f64::from_bits(d.bits)
}

fn vector(v: [f64; 3]) -> [Double; 3] {
    [num(v[0]), num(v[1]), num(v[2])]
}

fn predict(constants: &sgp4::Constants, ms: i64) -> Result<StateVector, sgp4::Error> {
    let p = constants.propagate(ms as f64 / 60_000.0)?;
    Ok(StateVector { position_km: vector(p.position), velocity_km_s: vector(p.velocity) })
}

fn altitude_of(p: [Double; 3]) -> Double {
    num((val(p[0]).powi(2) + val(p[1]).powi(2) + val(p[2]).powi(2)).sqrt() - 6371.0)
}

fn period_of(mean_motion: Double) -> Double {
    num(1440.0 / val(mean_motion))
}

/// 1 January 2024, 12:00.
const ISS_EPOCH: i64 = 1_704_110_400;

fn with_check_digit(line: &str) -> String {
    let body = &line[..68];
    let sum: u32 = body
        .chars()
        .map(|c| if c == '-' { 1 } else { c.to_digit(10).unwrap_or(0) })
        .sum();
    format!("{body}{}", sum % 10)
}

fn iss() -> OrbitalPropagator<&'static str> {
    let line1 = with_check_digit(ISS_TLE_LINE1);
    let line2 = with_check_digit(ISS_TLE_LINE2);
    OrbitalPropagator::from_tle(&line1, &line2, "clock").unwrap()
}

#[test]
fn tle_is_read_into_its_facts() {
    let propagator = iss();
    let facts = propagator.facts();
    assert_eq!(facts.norad_id, 25544);
    assert_eq!(val(facts.mean_motion), 15.49560532);
    assert_eq!(
        facts.epoch,
        CivilTime {
            year: 2024,
            month: 1,
            day: 1,
            hour: 12,
            minute: 0,
            second: 0,
            nanosecond: 0,
        },
    );
    assert_eq!(
        propagator.tle_epoch_as_datetime().unwrap(),
        Timestamp { secs: ISS_EPOCH, nanos: 0 },
    );
    assert_eq!(*propagator.clock(), "clock");
}

#[test]
fn propagation_hands_on_the_prediction() {
    let propagator = iss();
    let now = Timestamp { secs: ISS_EPOCH + 90 * 60, nanos: 0 };
    let state = propagator.propagate(now, &predict, &altitude_of, &period_of).unwrap();
    assert_eq!(state.epoch, now);
    let line1 = with_check_digit(ISS_TLE_LINE1);
    let line2 = with_check_digit(ISS_TLE_LINE2);
    let elements = sgp4::Elements::from_tle(None, line1.as_bytes(), line2.as_bytes()).unwrap();
    let expected = sgp4::Constants::from_elements(&elements).unwrap().propagate(90.0).unwrap();
    for i in 0..3 {
        assert_eq!(val(state.position_km[i]), expected.position[i]);
        assert_eq!(val(state.velocity_km_s[i]), expected.velocity[i]);
    }
    assert_eq!(val(state.period_minutes), 1440.0 / 15.49560532);
    let altitude = val(altitude_of(state.position_km));
    assert!(altitude > 300.0 && altitude < 500.0);
    assert_eq!(state.in_eclipse, expected.position[2] < 0.0);
}

#[test]
fn elapsed_time_counts_from_the_epoch_of_the_tle() {
    let propagator = iss();
    let seen = |_: &sgp4::Constants, ms: i64| {
        Ok(StateVector { position_km: vector([ms as f64, 0.0, 0.0]), velocity_km_s: vector([0.0; 3]) })
    };
    for (secs, nanos, ms) in [(0, 0, 0.0), (1, 500_000_000, 1_500.0), (-2, 0, -2_000.0)] {
        let now = Timestamp { secs: ISS_EPOCH + secs, nanos };
        let state = propagator.propagate(now, &seen, &altitude_of, &period_of).unwrap();
        assert_eq!(val(state.position_km[0]), ms);
    }
}

#[test]
fn eclipse_is_below_the_equator_and_below_the_shadow_altitude() {
    let propagator = iss();
    let now = Timestamp { secs: ISS_EPOCH, nanos: 0 };
    let cases = [
        (-1.0, 400.0, true),
        (1.0, 400.0, false),
        (0.0, 400.0, false),
        (-0.0, 400.0, false),
        (-1.0, 2000.0, false),
        (-1.0, 1999.999, true),
        (-1.0, f64::NAN, false),
        (f64::NAN, 400.0, false),
    ];
    for (z, altitude, in_eclipse) in cases {
        let placed = |_: &sgp4::Constants, _: i64| {
            Ok(StateVector { position_km: vector([1.0, 2.0, z]), velocity_km_s: vector([0.0; 3]) })
        };
        let state = propagator.propagate(now, &placed, &|_| num(altitude), &period_of).unwrap();
        assert_eq!(state.in_eclipse, in_eclipse, "{z} {altitude}");
    }
}

#[test]
fn failed_prediction_is_an_error() {
    let propagator = iss();
    let now = Timestamp { secs: ISS_EPOCH, nanos: 0 };
    let refused = |_: &sgp4::Constants, _: i64| Err(sgp4::Error::NegativeKozaiMeanMotion);
    assert!(matches!(
        propagator.propagate(now, &refused, &altitude_of, &period_of),
        Err(OrbitError::Propagation(sgp4::Error::NegativeKozaiMeanMotion)),
    ));
}

#[test]
fn lines_that_are_no_tle_are_refused() {
    let line1 = with_check_digit(ISS_TLE_LINE1);
    let line2 = with_check_digit(ISS_TLE_LINE2);
    for (a, b) in [("", ""), ("1 25544U", line2.as_str()), (line2.as_str(), line1.as_str())] {
        assert!(matches!(OrbitalPropagator::from_tle(a, b, ()), Err(OrbitError::Parse(_))));
    }
    let wrong = format!("{}{}", &line1[..68], if line1.ends_with('0') { '1' } else { '0' });
    assert!(matches!(
        OrbitalPropagator::from_tle(&wrong, &line2, ()),
        Err(OrbitError::Parse(sgp4::Error::Tle { what: sgp4::ErrorTleWhat::BadChecksum, .. })),
    ));
}

#[test]
fn check_digit_below_zero_is_refused() {
    let line1 = with_check_digit(ISS_TLE_LINE1);
    let line2 = with_check_digit(ISS_TLE_LINE2);
    let spaced = format!("{} ", &line2[..68]);
    assert!(matches!(
        OrbitalPropagator::from_tle(&line1, &spaced, ()),
        Err(OrbitError::CheckDigit),
    ));
    let spaced = format!("{}-", &line1[..68]);
    assert!(matches!(
        OrbitalPropagator::from_tle(&spaced, &line2, ()),
        Err(OrbitError::CheckDigit),
    ));
}

#[test]
fn orbit_without_constants_is_refused() {
    let line1 = with_check_digit(ISS_TLE_LINE1);
    let still = ISS_TLE_LINE2.replace("15.49560532", "00.00000000");
    let line2 = with_check_digit(&still);
    assert!(matches!(
        OrbitalPropagator::from_tle(&line1, &line2, ()),
        Err(OrbitError::Constants(sgp4::Error::NegativeKozaiMeanMotion)),
    ));
}

#[test]
fn assembled_propagator_holds_its_parts() {
    let facts = TleFacts {
        norad_id: 7,
        epoch: CivilTime {
            year: 2024,
            month: 13,
            day: 1,
            hour: 0,
            minute: 0,
            second: 0,
            nanosecond: 0,
        },
        mean_motion: num(-1.0),
    };
    let line1 = with_check_digit(ISS_TLE_LINE1);
    let line2 = with_check_digit(ISS_TLE_LINE2);
    let elements = sgp4::Elements::from_tle(None, line1.as_bytes(), line2.as_bytes()).unwrap();
    let constants = sgp4::Constants::from_elements(&elements);
    let propagator = OrbitalPropagator::assemble(facts, constants, 5u8).unwrap();
    assert_eq!(propagator.facts().norad_id, 7);
    assert!(matches!(propagator.tle_epoch_as_datetime(), Err(OrbitError::InvalidEpoch)));
    let now = Timestamp { secs: 0, nanos: 0 };
    assert!(matches!(
        propagator.propagate(now, &predict, &altitude_of, &period_of),
        Err(OrbitError::InvalidEpoch),
    ));
    let good = TleFacts { epoch: CivilTime { month: 12, ..facts.epoch }, ..facts };
    let refused = Err(sgp4::Error::NegativeBrouwerMeanMotion);
    assert!(matches!(
        OrbitalPropagator::assemble(good, refused, ()),
        Err(OrbitError::Constants(sgp4::Error::NegativeBrouwerMeanMotion)),
    ));
}

#[test]
fn orbit_without_motion_has_no_period() {
    let line1 = with_check_digit(ISS_TLE_LINE1);
    let line2 = with_check_digit(ISS_TLE_LINE2);
    let elements = sgp4::Elements::from_tle(None, line1.as_bytes(), line2.as_bytes()).unwrap();
    for (motion, period) in [(0.0, 0.0), (-3.0, 0.0), (16.0, 90.0)] {
        let facts = TleFacts { mean_motion: num(motion), ..iss().facts() };
        let constants = sgp4::Constants::from_elements(&elements);
        let propagator = OrbitalPropagator::assemble(facts, constants, ()).unwrap();
        let now = Timestamp { secs: ISS_EPOCH, nanos: 0 };
        let state = propagator.propagate(now, &predict, &altitude_of, &period_of).unwrap();
        assert_eq!(val(state.period_minutes), period);
    }
}

#[test]
fn two_digit_years_turn_over_at_fifty_seven() {
    assert_eq!(full_year(24, true), 2024);
    assert_eq!(full_year(56, true), 2056);
    assert_eq!(full_year(57, true), 1957);
    assert_eq!(full_year(99, true), 1999);
    assert_eq!(full_year(24, false), 24);
    assert_eq!(full_year(2024, false), 2024);
}
