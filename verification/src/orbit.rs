//! Orbital propagation from two-line element sets (TLE), on the `sgp4` crate.

use crate::calls;
use crate::double::Double;
use crate::double::ZERO_BITS;
use crate::timestamp;
use crate::timestamp::CivilTime;
use crate::timestamp::Timestamp;
use chrono::Datelike;
use chrono::Timelike;
use vstd::prelude::*;
use vstd::utf8;

verus! {

/// Default ISS TLE for exhibition demonstrations: first line.
pub const ISS_TLE_LINE1: &'static str = "1 25544U 98067A   24001.50000000  .00016717  00000-0  10270-3 0  9003";

/// Default ISS TLE for exhibition demonstrations: second line.
pub const ISS_TLE_LINE2: &'static str = "2 25544  51.6400 208.9163 0006703 300.3486  59.7145 15.49560532484199";

/// The bits of 2000.0, the altitude in kilometres below which the satellite can be in shadow.
pub const SHADOW_ALTITUDE_BITS: u64 = 0x409F_4000_0000_0000;

/// The length of a TLE line.
pub const TLE_LINE_LEN: usize = 69;

/// The byte of the digit 0.
pub const DIGIT_ZERO: u8 = 48;

/// The propagator of the `sgp4` crate, with the constants of one orbit.
#[verifier::external_type_specification]
#[verifier::external_body]
pub struct ExSgp4Constants(sgp4::Constants);

/// An error of the `sgp4` crate.
#[verifier::external_type_specification]
#[verifier::external_body]
pub struct ExSgp4Error(sgp4::Error);

/// Why there is no propagator or no orbital state.
#[derive(Debug)]
pub enum OrbitError {
    /// The check digit of a TLE line is a character below 0.
    CheckDigit,
    /// The TLE cannot be parsed.
    Parse(sgp4::Error),
    /// The orbit has no SGP4 constants.
    Constants(sgp4::Error),
    /// The date of the TLE does not exist.
    InvalidEpoch,
    /// The orbit cannot be propagated.
    Propagation(sgp4::Error),
}

/// What the library reads of a parsed TLE.
#[derive(Clone, Copy, Debug)]
pub struct TleFacts {
    /// The catalog number of the satellite.
    pub norad_id: u64,
    /// The date and time of the elements, in UTC.
    pub epoch: CivilTime,
    /// The revolutions per day.
    pub mean_motion: Double,
}

/// What `sgp4` reads out of two TLE lines, where it can parse them.
pub uninterp spec fn tle_facts(line1: Seq<char>, line2: Seq<char>) -> Option<TleFacts>;

/// Whether the check digit of a line of full length is no character below 0.
pub open spec fn check_digit_fits(line: Seq<char>) -> bool {
    let bytes = utf8::encode_utf8(line);
    bytes.len() == TLE_LINE_LEN ==> bytes[TLE_LINE_LEN - 1] >= DIGIT_ZERO
}

/// Parses a TLE: `sgp4::Elements::from_tle`, without a title. The result is a function of the
/// two lines. What is taken out of the elements is the catalog number, the date and time, and
/// the mean motion. The parser subtracts the byte of 0 from that of the check digit, so the
/// latter must not be smaller.
#[verifier::external_body]
fn parse_tle(line1: &str, line2: &str) -> (r: Result<TleFacts, sgp4::Error>)
    requires
        check_digit_fits(line1@),
        check_digit_fits(line2@),
    ensures
        r is Ok <==> tle_facts(line1@, line2@) is Some,
        r matches Ok(facts) ==> tle_facts(line1@, line2@) == Some(facts),
{
    let e = sgp4::Elements::from_tle(None, line1.as_bytes(), line2.as_bytes())?;
    let d = e.datetime;
    let epoch = CivilTime {
        year: d.year(),
        month: d.month(),
        day: d.day(),
        hour: d.hour(),
        minute: d.minute(),
        second: d.second(),
        nanosecond: d.nanosecond(),
    };
    let mean_motion = Double { bits: e.mean_motion.to_bits() };
    Ok(TleFacts { norad_id: e.norad_id, epoch, mean_motion })
}

/// Computes the constants of an orbit: `sgp4::Constants::from_elements`, on the elements of two
/// TLE lines. There are none where the lines cannot be parsed or the mean motion is zero or
/// negative. Other orbits can be refused too, by computations whose rounding the machine
/// decides, so it is not said which. The constants stay inside their type.
#[verifier::external_body]
fn tle_constants(line1: &str, line2: &str) -> (r: Result<sgp4::Constants, sgp4::Error>)
    requires
        check_digit_fits(line1@),
        check_digit_fits(line2@),
    ensures
        r is Ok ==> tle_facts(line1@, line2@) is Some,
        r is Ok ==> !tle_facts(line1@, line2@)->0.mean_motion.le_spec(Double { bits: ZERO_BITS }),
{
    let elements = sgp4::Elements::from_tle(None, line1.as_bytes(), line2.as_bytes())?;
    sgp4::Constants::from_elements(&elements)
}

/// Whether `sgp4` may give this error when it is asked to parse two TLE lines.
pub closed spec fn parse_may_fail(line1: &str, line2: &str, e: sgp4::Error) -> bool {
    call_ensures(parse_tle, (line1, line2), Err(e))
}

/// Whether `sgp4` may give this when it is asked for the constants of two TLE lines.
pub closed spec fn constants_may_be(
    line1: &str,
    line2: &str,
    r: Result<sgp4::Constants, sgp4::Error>,
) -> bool {
    call_ensures(tle_constants, (line1, line2), r)
}

/// Whether the check digit of a line of full length is no character below 0.
fn has_fitting_check_digit(line: &str) -> (r: bool)
    ensures
        r == check_digit_fits(line@),
{
    let bytes = line.as_bytes();
    bytes.len() != TLE_LINE_LEN || bytes[TLE_LINE_LEN - 1] >= DIGIT_ZERO
}

/// A predicted position and velocity.
#[derive(Clone, Copy, Debug)]
pub struct StateVector {
    /// Position [km] (x, y, z) in TEME.
    pub position_km: [Double; 3],
    /// Velocity [km/s] (vx, vy, vz) in TEME.
    pub velocity_km_s: [Double; 3],
}

/// Position and velocity state vector in the TEME frame.
#[derive(Clone, Debug)]
pub struct OrbitalState {
    /// Virtual epoch at which this state was computed.
    pub epoch: Timestamp,
    /// Position vector [km] (x, y, z) in TEME.
    pub position_km: [Double; 3],
    /// Velocity vector [km/s] (vx, vy, vz) in TEME.
    pub velocity_km_s: [Double; 3],
    /// Orbital period (minutes).
    pub period_minutes: Double,
    /// Whether the satellite is in eclipse (below the equator and low enough).
    pub in_eclipse: bool,
}

impl OrbitalState {
    /// The position and velocity.
    pub open spec fn vector(self) -> StateVector {
        StateVector { position_km: self.position_km, velocity_km_s: self.velocity_km_s }
    }
}

/// The year that a two-digit year stands for: 57 and above are in the twentieth century. A
/// year in full stands for itself.
pub open spec fn full_year_of(year: int, two_digits: bool) -> int {
    if !two_digits {
        year
    } else if year < 57 {
        2000 + year
    } else {
        1900 + year
    }
}

/// The year that a two-digit year stands for.
pub fn full_year(year: i32, two_digits: bool) -> (full: i32)
    requires
        two_digits ==> year <= i32::MAX - 1900,
    ensures
        full == full_year_of(year as int, two_digits),
{
    if !two_digits {
        year
    } else if year < 57 {
        2000 + year
    } else {
        1900 + year
    }
}

/// Whether a satellite at a position and an altitude is in eclipse: below the equator, and low
/// enough for the shadow.
pub open spec fn is_in_eclipse(position_km: [Double; 3], altitude_km: Double) -> bool {
    &&& position_km@[2].lt_spec(Double { bits: ZERO_BITS })
    &&& altitude_km.lt_spec(Double { bits: SHADOW_ALTITUDE_BITS })
}

/// Whether a satellite at a position is found to be in eclipse, or not to be, by its altitude.
pub open spec fn eclipse_found<A: Fn([Double; 3]) -> Double>(
    altitude_of: A,
    position_km: [Double; 3],
    in_eclipse: bool,
) -> bool {
    exists|altitude: Double| #[trigger]
        call_ensures(altitude_of, (position_km,), altitude) && in_eclipse == is_in_eclipse(
            position_km,
            altitude,
        )
}

/// SGP4 orbital propagator, with a handle of the virtual clock that it is read with.
pub struct OrbitalPropagator<C> {
    facts: TleFacts,
    constants: sgp4::Constants,
    clock: C,
}

impl<C> OrbitalPropagator<C> {
    /// What was read of the TLE.
    pub closed spec fn facts_spec(&self) -> TleFacts {
        self.facts
    }

    /// The constants of the orbit.
    pub closed spec fn constants_spec(&self) -> sgp4::Constants {
        self.constants
    }

    /// The handle of the clock.
    pub closed spec fn clock_spec(&self) -> C {
        self.clock
    }

    /// Milliseconds from the epoch of the TLE to a time.
    pub open spec fn millis_to(&self, now: Timestamp) -> i64 {
        now.millis_since_spec(self.facts_spec().epoch.instant()->0) as i64
    }

    /// Initializes the propagator from the two lines of a TLE.
    pub fn from_tle(tle_line1: &str, tle_line2: &str, clock: C) -> (r: Result<
        OrbitalPropagator<C>,
        OrbitError,
    >)
        ensures
            match r {
                Ok(p) => {
                    &&& check_digit_fits(tle_line1@) && check_digit_fits(tle_line2@)
                    &&& tle_facts(tle_line1@, tle_line2@) == Some(p.facts_spec())
                    &&& constants_may_be(tle_line1, tle_line2, Ok(p.constants_spec()))
                    &&& !p.facts_spec().mean_motion.le_spec(Double { bits: ZERO_BITS })
                    &&& p.clock_spec() == clock
                },
                Err(OrbitError::CheckDigit) => {
                    !check_digit_fits(tle_line1@) || !check_digit_fits(tle_line2@)
                },
                Err(OrbitError::Parse(e)) => {
                    &&& check_digit_fits(tle_line1@) && check_digit_fits(tle_line2@)
                    &&& tle_facts(tle_line1@, tle_line2@) is None
                    &&& parse_may_fail(tle_line1, tle_line2, e)
                },
                Err(OrbitError::Constants(e)) => {
                    &&& check_digit_fits(tle_line1@) && check_digit_fits(tle_line2@)
                    &&& tle_facts(tle_line1@, tle_line2@) is Some
                    &&& constants_may_be(tle_line1, tle_line2, Err(e))
                },
                Err(_) => false,
            },
    {
        if !has_fitting_check_digit(tle_line1) || !has_fitting_check_digit(tle_line2) {
            return Err(OrbitError::CheckDigit);
        }
        let facts = match calls::call_on_texts(&parse_tle, tle_line1, tle_line2) {
            Ok(facts) => facts,
            Err(e) => return Err(OrbitError::Parse(e)),
        };
        let constants = calls::call_on_texts(&tle_constants, tle_line1, tle_line2);
        OrbitalPropagator::assemble(facts, constants, clock)
    }

    /// Puts the propagator together of what was read of the TLE and of the constants, if there
    /// are any.
    pub fn assemble(
        facts: TleFacts,
        constants: Result<sgp4::Constants, sgp4::Error>,
        clock: C,
    ) -> (r: Result<OrbitalPropagator<C>, OrbitError>)
        ensures
            match constants {
                Ok(c) => {
                    &&& r is Ok
                    &&& r->Ok_0.facts_spec() == facts
                    &&& r->Ok_0.constants_spec() == c
                    &&& r->Ok_0.clock_spec() == clock
                },
                Err(e) => r == Err::<OrbitalPropagator<C>, OrbitError>(OrbitError::Constants(e)),
            },
    {
        match constants {
            Ok(constants) => Ok(OrbitalPropagator { facts, constants, clock }),
            Err(e) => Err(OrbitError::Constants(e)),
        }
    }

    /// Propagates to a virtual time. `predict` computes the state vector so many milliseconds
    /// after the epoch of the TLE, `altitude_of` the altitude of a position, and `period_of`
    /// the period of a mean motion.
    pub fn propagate<
        S: Fn(&sgp4::Constants, i64) -> Result<StateVector, sgp4::Error>,
        A: Fn([Double; 3]) -> Double,
        P: Fn(Double) -> Double,
    >(&self, virtual_now: Timestamp, predict: &S, altitude_of: &A, period_of: &P) -> (r: Result<
        OrbitalState,
        OrbitError,
    >)
        requires
            virtual_now.wf(),
            forall|c: &sgp4::Constants, ms: i64| call_requires(*predict, (c, ms)),
            forall|p: [Double; 3]| call_requires(*altitude_of, (p,)),
            forall|m: Double| call_requires(*period_of, (m,)),
        ensures
            r matches Err(e) ==> e is InvalidEpoch || e is Propagation,
            (r matches Err(e) && e is InvalidEpoch) <==> self.facts_spec().epoch.instant() is None,
            r matches Err(OrbitError::Propagation(e)) ==> call_ensures(
                *predict,
                (&self.constants_spec(), self.millis_to(virtual_now)),
                Err(e),
            ),
            r matches Ok(state) ==> call_ensures(
                *predict,
                (&self.constants_spec(), self.millis_to(virtual_now)),
                Ok(state.vector()),
            ),
            r matches Ok(state) ==> state.epoch == virtual_now,
            r matches Ok(state) ==> eclipse_found(
                *altitude_of,
                state.position_km,
                state.in_eclipse,
            ),
            r matches Ok(state) ==> if (Double { bits: ZERO_BITS }).lt_spec(
                self.facts_spec().mean_motion,
            ) {
                call_ensures(*period_of, (self.facts_spec().mean_motion,), state.period_minutes)
            } else {
                state.period_minutes.bits == ZERO_BITS
            },
    {
        let tle_epoch = match self.tle_epoch_as_datetime() {
            Ok(t) => t,
            Err(e) => return Err(e),
        };
        let elapsed: i64 = virtual_now.millis_since(&tle_epoch);
        let prediction = match predict(&self.constants, elapsed) {
            Ok(p) => p,
            Err(e) => return Err(OrbitError::Propagation(e)),
        };
        let altitude = altitude_of(prediction.position_km);
        let zero = Double::from_bits(ZERO_BITS);
        let shadow = Double::from_bits(SHADOW_ALTITUDE_BITS);
        let in_eclipse = prediction.position_km[2].lt(&zero) && altitude.lt(&shadow);
        let mean_motion = self.facts.mean_motion;
        let period_minutes = if zero.lt(&mean_motion) { period_of(mean_motion) } else { zero };
        assert(eclipse_found(*altitude_of, prediction.position_km, in_eclipse)) by {
            assert(call_ensures(*altitude_of, (prediction.position_km,), altitude) && in_eclipse
                == is_in_eclipse(prediction.position_km, altitude));
        }
        Ok(
            OrbitalState {
                epoch: virtual_now,
                position_km: prediction.position_km,
                velocity_km_s: prediction.velocity_km_s,
                period_minutes,
                in_eclipse,
            },
        )
    }

    /// The epoch of the TLE as an instant. The parser gives its year in full.
    pub fn tle_epoch_as_datetime(&self) -> (r: Result<Timestamp, OrbitError>)
        ensures
            match r {
                Ok(t) => self.facts_spec().epoch.instant() == Some(t) && t.wf(),
                Err(e) => e is InvalidEpoch && self.facts_spec().epoch.instant() is None,
            },
    {
        let epoch = CivilTime { year: full_year(self.facts.epoch.year, false), ..self.facts.epoch };
        match epoch.to_utc() {
            Some(t) => Ok(t),
            None => Err(OrbitError::InvalidEpoch),
        }
    }

    /// What was read of the TLE.
    pub fn facts(&self) -> (facts: TleFacts)
        ensures
            facts == self.facts_spec(),
    {
        self.facts
    }

    /// The handle of the virtual clock.
    pub fn clock(&self) -> (clock: &C)
        ensures
            *clock == self.clock_spec(),
    {
        &self.clock
    }
}

/// The prediction is asked for the full time since the epoch of the elements. The milliseconds
/// differ from the time between them by less than one, cut off towards zero, for any distance
/// and on either side of the epoch. Outside leap seconds that time is the plain difference of the
/// two instants.
pub proof fn law_prediction_spans_the_time_since_the_epoch<C>(
    propagator: OrbitalPropagator<C>,
    now: Timestamp,
)
    requires
        now.wf(),
        propagator.facts_spec().epoch.instant() is Some,
    ensures
        ({
            let epoch = propagator.facts_spec().epoch.instant()->0;
            let ms = propagator.millis_to(now);
            let since = now.nanos_since(epoch);
            &&& since >= 0 ==> 0 <= since - ms * 1_000_000 < 1_000_000
            &&& since < 0 ==> -1_000_000 < since - ms * 1_000_000 <= 0
            &&& !now.in_leap_second() && !epoch.in_leap_second() ==> since == (now.secs
                - epoch.secs) * 1_000_000_000 + now.nanos - epoch.nanos
        }),
{
    let epoch = propagator.facts_spec().epoch.instant()->0;
    timestamp::lemma_instant_fits(propagator.facts_spec().epoch, epoch);
    let ms = now.millis_since_spec(epoch);
    assert(i64::MIN <= ms <= i64::MAX);
}

/// From the epoch on, outside leap seconds, the epoch moved on by the milliseconds that the
/// prediction is asked for is an instant that is not after now, and less than a millisecond
/// before it.
pub proof fn law_epoch_moved_on_reaches_now<C>(
    propagator: OrbitalPropagator<C>,
    now: Timestamp,
    epoch: Timestamp,
)
    requires
        now.wf(),
        !now.in_leap_second(),
        propagator.facts_spec().epoch.instant() == Some(epoch),
        !epoch.in_leap_second(),
        now.nanos_since(epoch) >= 0,
    ensures
        epoch.plus_millis_spec(propagator.millis_to(now) as int) is Some,
        0 <= now.nanos_since(epoch.plus_millis_spec(propagator.millis_to(now) as int)->0)
            < 1_000_000,
{
    timestamp::lemma_instant_fits(propagator.facts_spec().epoch, epoch);
    law_prediction_spans_the_time_since_the_epoch(propagator, now);
    let ms = propagator.millis_to(now) as int;
    let total = epoch.secs * 1_000_000_000 + epoch.nanos + ms * 1_000_000;
    let moved = epoch.plus_millis_spec(ms);
    assert(epoch.moved(ms) == (total / 1_000_000_000, total % 1_000_000_000));
    assert(moved is Some);
    assert(moved->0.secs * 1_000_000_000 + moved->0.nanos == total);
}

/// Whatever state a call of `propagate` gives, the prediction that it rests on was asked for a
/// time that differs from the time since the epoch by less than a millisecond. The position and
/// the velocity are those of the prediction, the eclipse goes by that position, the period by the
/// mean motion, and the state is dated with the time that was asked for.
pub proof fn law_state_is_predicted_for_now<
    C,
    S: Fn(&sgp4::Constants, i64) -> Result<StateVector, sgp4::Error>,
    A: Fn([Double; 3]) -> Double,
    P: Fn(Double) -> Double,
>(
    propagator: &OrbitalPropagator<C>,
    now: Timestamp,
    predict: &S,
    altitude_of: &A,
    period_of: &P,
    state: OrbitalState,
)
    requires
        now.wf(),
        call_ensures(
            OrbitalPropagator::<C>::propagate::<S, A, P>,
            (propagator, now, predict, altitude_of, period_of),
            Ok(state),
        ),
    ensures
        propagator.facts_spec().epoch.instant() is Some,
        exists|ms: i64, vector: StateVector|
            {
                let since = now.nanos_since(propagator.facts_spec().epoch.instant()->0);
                &&& #[trigger] call_ensures(
                    *predict,
                    (&propagator.constants_spec(), ms),
                    Ok(vector),
                )
                &&& since >= 0 ==> 0 <= since - ms * 1_000_000 < 1_000_000
                &&& since < 0 ==> -1_000_000 < since - ms * 1_000_000 <= 0
                &&& state.position_km == vector.position_km
                &&& state.velocity_km_s == vector.velocity_km_s
            },
        state.epoch == now,
        exists|altitude: Double| #[trigger]
            call_ensures(*altitude_of, (state.position_km,), altitude) && (state.in_eclipse
                <==> state.position_km@[2].lt_spec(Double { bits: 0 }) && altitude.lt_spec(
                Double { bits: 0x409F_4000_0000_0000 },
            )),
        (Double { bits: 0 }).lt_spec(propagator.facts_spec().mean_motion) ==> call_ensures(
            *period_of,
            (propagator.facts_spec().mean_motion,),
            state.period_minutes,
        ),
{
    law_prediction_spans_the_time_since_the_epoch(*propagator, now);
    assert(call_ensures(
        *predict,
        (&propagator.constants_spec(), propagator.millis_to(now)),
        Ok(state.vector()),
    ));
}

/// The spacecraft is in eclipse exactly where it is on the negative side of the equatorial plane
/// and below 2000 km.
pub proof fn law_eclipse_is_low_and_negative(position_km: [Double; 3], altitude_km: Double)
    ensures
        is_in_eclipse(position_km, altitude_km) <==> position_km@[2].lt_spec(
            Double { bits: ZERO_BITS },
        ) && altitude_km.lt_spec(Double { bits: 0x409F_4000_0000_0000 }),
{
}

/// A year in full stays as it is. A year in two digits becomes the one year from 1957 to 2056
/// that ends in them.
pub proof fn law_two_digit_years_end_in_their_digits(year: int)
    ensures
        full_year_of(year, false) == year,
        0 <= year < 100 ==> 1957 <= full_year_of(year, true) <= 2056 && full_year_of(year, true)
            % 100 == year,
{
}

/// The check digit is looked at only in lines of 69 bytes, and stops a line only where its last
/// byte is below the digit zero.
pub proof fn law_only_low_check_digits_are_refused(line: Seq<char>)
    ensures
        !check_digit_fits(line) <==> utf8::encode_utf8(line).len() == 69 && utf8::encode_utf8(
            line,
        )[68] < 48,
{
}

} // verus!
