//! The virtual epoch clock, which decouples mission time from the hardware clock.

use crate::double::Double;
use crate::double::ZERO_BITS;
use crate::priority::ONE_BITS;
use crate::timestamp;
use crate::timestamp::Timestamp;
use vstd::prelude::*;

verus! {

/// Why the clock refuses a change.
#[derive(Clone, Copy, Debug, PartialEq, Eq, Structural)]
pub enum ClockError {
    /// The warp factor is not above zero.
    WarpNotPositive,
    /// The virtual time has run past the last date, or before the first.
    OutOfRange,
}

/// What a virtual clock holds.
pub struct ClockState {
    /// The virtual time at the anchor.
    pub epoch: Timestamp,
    /// The wall-clock time when the clock was last set.
    pub anchor_wall: Timestamp,
    /// How many virtual seconds pass in a second.
    pub warp_factor: Double,
    /// Whether the clock is running.
    pub running: bool,
}

impl ClockState {
    /// The virtual time when so many virtual milliseconds have passed since the anchor, where
    /// such a date exists. A clock that is not running stands at its epoch.
    pub open spec fn reading(self, elapsed: int) -> Option<Timestamp> {
        if self.running {
            self.epoch.plus_millis_spec(elapsed)
        } else {
            Some(self.epoch)
        }
    }

    /// Whether a clock may read so at a wall-clock time, where `scale` turns the milliseconds
    /// since the anchor and the warp factor into virtual milliseconds.
    pub open spec fn reads<F: Fn(i64, Double) -> i64>(
        self,
        wall: Timestamp,
        scale: F,
        time: Option<Timestamp>,
    ) -> bool {
        if self.running {
            exists|elapsed: i64| #[trigger]
                call_ensures(
                    scale,
                    (wall.millis_since_spec(self.anchor_wall) as i64, self.warp_factor),
                    elapsed,
                ) && time == self.reading(elapsed as int)
        } else {
            time == Some(self.epoch)
        }
    }

    /// The clock set to a time, at a wall-clock time.
    pub open spec fn set_to(self, epoch: Timestamp, wall: Timestamp) -> ClockState {
        ClockState { epoch, anchor_wall: wall, ..self }
    }

    /// The clock stopped at a time.
    pub open spec fn stopped_at(self, epoch: Timestamp) -> ClockState {
        ClockState { epoch, running: false, ..self }
    }

    /// The clock set going again at a wall-clock time.
    pub open spec fn resumed_at(self, wall: Timestamp) -> ClockState {
        ClockState { anchor_wall: wall, running: true, ..self }
    }

    /// The clock with another warp factor.
    pub open spec fn warped(self, factor: Double) -> ClockState {
        ClockState { warp_factor: factor, ..self }
    }
}

/// A virtual clock that starts at a time, at a wall-clock time, and keeps pace with it.
pub open spec fn started(epoch: Timestamp, wall: Timestamp) -> ClockState {
    ClockState { epoch, anchor_wall: wall, warp_factor: Double { bits: ONE_BITS }, running: true }
}

/// A virtual epoch clock. It tracks the wall clock at its own pace, and can be set to any time,
/// paused and resumed.
#[derive(Debug)]
pub struct VirtualClock {
    epoch: Timestamp,
    anchor_wall: Timestamp,
    warp_factor: Double,
    running: bool,
}

impl View for VirtualClock {
    type V = ClockState;

    closed spec fn view(&self) -> ClockState {
        ClockState {
            epoch: self.epoch,
            anchor_wall: self.anchor_wall,
            warp_factor: self.warp_factor,
            running: self.running,
        }
    }
}

impl VirtualClock {
    #[verifier::type_invariant]
    spec fn inv(self) -> bool {
        self.epoch.wf() && self.anchor_wall.wf()
    }

    /// Creates a new virtual clock that starts at the given epoch now.
    pub fn new(start_epoch: Timestamp) -> (clock: VirtualClock)
        requires
            start_epoch.wf(),
        ensures
            exists|wall: Timestamp|
                timestamp::is_reading(wall) && clock@ == #[trigger] started(start_epoch, wall),
    {
        let wall = timestamp::read_clock();
        VirtualClock::new_at(start_epoch, wall)
    }

    /// Creates a new virtual clock that starts at the given epoch at a wall-clock time.
    pub fn new_at(start_epoch: Timestamp, wall: Timestamp) -> (clock: VirtualClock)
        requires
            start_epoch.wf(),
            wall.wf(),
        ensures
            clock@ == started(start_epoch, wall),
    {
        VirtualClock {
            epoch: start_epoch,
            anchor_wall: wall,
            warp_factor: Double::from_bits(ONE_BITS),
            running: true,
        }
    }

    /// Creates a clock that starts at the current wall-clock time.
    pub fn real_time() -> (clock: VirtualClock)
        ensures
            exists|wall: Timestamp| timestamp::is_reading(wall) && clock@ == #[trigger] started(wall, wall),
    {
        let wall = timestamp::read_clock();
        VirtualClock::new_at(wall, wall)
    }

    /// The current virtual time, or `None` where no such date exists.
    pub fn now<F: Fn(i64, Double) -> i64>(&self, scale: &F) -> (time: Option<Timestamp>)
        requires
            forall|ms: i64, factor: Double| call_requires(*scale, (ms, factor)),
        ensures
            exists|wall: Timestamp| timestamp::is_reading(wall) && #[trigger] self@.reads(wall, *scale, time),
            time matches Some(t) ==> t.wf(),
    {
        let wall = timestamp::read_clock();
        self.now_at(wall, scale)
    }

    /// The virtual time at a wall-clock time, or `None` where no such date exists.
    pub fn now_at<F: Fn(i64, Double) -> i64>(
        &self,
        wall: Timestamp,
        scale: &F,
    ) -> (time: Option<Timestamp>)
        requires
            wall.wf(),
            forall|ms: i64, factor: Double| call_requires(*scale, (ms, factor)),
        ensures
            self@.reads(wall, *scale, time),
            time matches Some(t) ==> t.wf(),
    {
        proof {
            use_type_invariant(self);
        }
        if !self.running {
            return Some(self.epoch);
        }
        let wall_elapsed: i64 = wall.millis_since(&self.anchor_wall);
        let virtual_elapsed: i64 = scale(wall_elapsed, self.warp_factor);
        assert(call_ensures(
            *scale,
            (wall.millis_since_spec(self@.anchor_wall) as i64, self@.warp_factor),
            virtual_elapsed,
        ));
        self.epoch.plus_millis(virtual_elapsed)
    }

    /// Sets how many virtual seconds pass in a second, from now on.
    pub fn set_warp_factor<F: Fn(i64, Double) -> i64>(
        &mut self,
        factor: Double,
        scale: &F,
    ) -> (r: Result<(), ClockError>)
        requires
            forall|ms: i64, factor: Double| call_requires(*scale, (ms, factor)),
        ensures
            r == Err::<(), ClockError>(ClockError::WarpNotPositive) <==> !(Double {
                bits: ZERO_BITS,
            }).lt_spec(factor),
            r is Err ==> final(self)@ == old(self)@,
            r is Ok ==> exists|wall: Timestamp, current: Timestamp|
                #![trigger old(self)@.reads(wall, *scale, Some(current))]
                timestamp::is_reading(wall) && old(self)@.reads(wall, *scale, Some(current)) && final(self)@ == old(
                    self,
                )@.set_to(current, wall).warped(factor),
            r == Err::<(), ClockError>(ClockError::OutOfRange) ==> exists|wall: Timestamp|
                timestamp::is_reading(wall) && #[trigger] old(self)@.reads(wall, *scale, None),
    {
        let wall = timestamp::read_clock();
        self.set_warp_factor_at(factor, wall, scale)
    }

    /// Sets how many virtual seconds pass in a second, from a wall-clock time on.
    pub fn set_warp_factor_at<F: Fn(i64, Double) -> i64>(
        &mut self,
        factor: Double,
        wall: Timestamp,
        scale: &F,
    ) -> (r: Result<(), ClockError>)
        requires
            wall.wf(),
            forall|ms: i64, factor: Double| call_requires(*scale, (ms, factor)),
        ensures
            r == Err::<(), ClockError>(ClockError::WarpNotPositive) <==> !(Double {
                bits: ZERO_BITS,
            }).lt_spec(factor),
            r is Err ==> final(self)@ == old(self)@,
            r is Ok ==> exists|current: Timestamp|
                #![trigger old(self)@.reads(wall, *scale, Some(current))]
                old(self)@.reads(wall, *scale, Some(current)) && final(self)@ == old(self)@.set_to(
                    current,
                    wall,
                ).warped(factor),
            r == Err::<(), ClockError>(ClockError::OutOfRange) ==> old(self)@.reads(
                wall,
                *scale,
                None,
            ),
    {
        proof {
            use_type_invariant(&*self);
        }
        let zero = Double::from_bits(ZERO_BITS);
        if !zero.lt(&factor) {
            return Err(ClockError::WarpNotPositive);
        }
        match self.now_at(wall, scale) {
            Some(current) => {
                self.epoch = current;
                self.anchor_wall = wall;
                self.warp_factor = factor;
                Ok(())
            },
            None => Err(ClockError::OutOfRange),
        }
    }

    /// Jumps to an arbitrary epoch now.
    pub fn jump_to(&mut self, epoch: Timestamp)
        requires
            epoch.wf(),
        ensures
            exists|wall: Timestamp|
                timestamp::is_reading(wall) && final(self)@ == #[trigger] old(self)@.set_to(epoch, wall),
    {
        let wall = timestamp::read_clock();
        self.jump_to_at(epoch, wall);
    }

    /// Jumps to an arbitrary epoch at a wall-clock time.
    pub fn jump_to_at(&mut self, epoch: Timestamp, wall: Timestamp)
        requires
            epoch.wf(),
            wall.wf(),
        ensures
            final(self)@ == old(self)@.set_to(epoch, wall),
    {
        proof {
            use_type_invariant(&*self);
        }
        self.epoch = epoch;
        self.anchor_wall = wall;
    }

    /// Pauses the clock now.
    pub fn pause<F: Fn(i64, Double) -> i64>(&mut self, scale: &F) -> (r: Result<(), ClockError>)
        requires
            forall|ms: i64, factor: Double| call_requires(*scale, (ms, factor)),
        ensures
            r matches Err(e) ==> e == ClockError::OutOfRange && final(self)@ == old(self)@,
            r is Ok ==> exists|wall: Timestamp, current: Timestamp|
                #![trigger old(self)@.reads(wall, *scale, Some(current))]
                timestamp::is_reading(wall) && old(self)@.reads(wall, *scale, Some(current)) && final(self)@ == old(
                    self,
                )@.stopped_at(current),
            r is Err ==> exists|wall: Timestamp|
                timestamp::is_reading(wall) && #[trigger] old(self)@.reads(wall, *scale, None),
    {
        let wall = timestamp::read_clock();
        self.pause_at(wall, scale)
    }

    /// Pauses the clock at a wall-clock time.
    pub fn pause_at<F: Fn(i64, Double) -> i64>(
        &mut self,
        wall: Timestamp,
        scale: &F,
    ) -> (r: Result<(), ClockError>)
        requires
            wall.wf(),
            forall|ms: i64, factor: Double| call_requires(*scale, (ms, factor)),
        ensures
            r matches Err(e) ==> e == ClockError::OutOfRange && final(self)@ == old(self)@,
            r is Ok ==> exists|current: Timestamp|
                #![trigger old(self)@.reads(wall, *scale, Some(current))]
                old(self)@.reads(wall, *scale, Some(current)) && final(self)@ == old(
                    self,
                )@.stopped_at(current),
            r is Err ==> old(self)@.reads(wall, *scale, None),
    {
        proof {
            use_type_invariant(&*self);
        }
        match self.now_at(wall, scale) {
            Some(current) => {
                self.epoch = current;
                self.running = false;
                Ok(())
            },
            None => Err(ClockError::OutOfRange),
        }
    }

    /// Resumes the clock now.
    pub fn resume(&mut self)
        ensures
            exists|wall: Timestamp|
                timestamp::is_reading(wall) && final(self)@ == #[trigger] old(self)@.resumed_at(wall),
    {
        let wall = timestamp::read_clock();
        self.resume_at(wall);
    }

    /// Resumes the clock at a wall-clock time.
    pub fn resume_at(&mut self, wall: Timestamp)
        requires
            wall.wf(),
        ensures
            final(self)@ == old(self)@.resumed_at(wall),
    {
        proof {
            use_type_invariant(&*self);
        }
        self.anchor_wall = wall;
        self.running = true;
    }

    /// Sets the clock to the wall clock, at its pace.
    pub fn sync_to_utc(&mut self)
        ensures
            exists|wall: Timestamp| timestamp::is_reading(wall) && final(self)@ == #[trigger] started(wall, wall),
    {
        let wall = timestamp::read_clock();
        self.sync_to_utc_at(wall);
    }

    /// Sets the clock to a wall-clock time, at the wall clock's pace.
    pub fn sync_to_utc_at(&mut self, wall: Timestamp)
        requires
            wall.wf(),
        ensures
            final(self)@ == started(wall, wall),
    {
        proof {
            use_type_invariant(&*self);
        }
        self.epoch = wall;
        self.anchor_wall = wall;
        self.warp_factor = Double::from_bits(ONE_BITS);
        self.running = true;
    }
}

/// A paused clock does not advance: it reads the same at every wall-clock time.
pub proof fn law_paused_clock_stands_still<F: Fn(i64, Double) -> i64>(
    clock: ClockState,
    current: Timestamp,
    wall: Timestamp,
    scale: F,
    time: Option<Timestamp>,
)
    requires
        clock.stopped_at(current).reads(wall, scale, time),
    ensures
        time == Some(current),
{
}

/// Whether a scale makes nothing out of no time at a pace.
pub open spec fn keeps_zero<F: Fn(i64, Double) -> i64>(scale: F, factor: Double) -> bool {
    forall|elapsed: i64| #[trigger]
        call_ensures(scale, (0i64, factor), elapsed) ==> elapsed == 0
}

/// Moving an instant by no time leaves it.
proof fn lemma_moved_by_nothing(t: Timestamp)
    requires
        t.wf(),
    ensures
        t.plus_millis_spec(0) == Some(t),
{
}

/// A clock that is set to a time, whether by a jump or to change its pace, reads that time at
/// that moment: changing the pace loses no time and adds none.
pub proof fn law_clock_goes_on_from_where_it_was_set<F: Fn(i64, Double) -> i64>(
    clock: ClockState,
    epoch: Timestamp,
    wall: Timestamp,
    factor: Double,
    scale: F,
    time: Option<Timestamp>,
)
    requires
        epoch.wf(),
        wall.wf(),
        keeps_zero(scale, factor),
        clock.set_to(epoch, wall).warped(factor).reads(wall, scale, time),
    ensures
        time == Some(epoch),
{
    lemma_moved_by_nothing(epoch);
    assert(wall.millis_since_spec(wall) == 0);
}

/// A clock that was paused resumes with the time that it was paused at.
pub proof fn law_resumed_clock_goes_on<F: Fn(i64, Double) -> i64>(
    clock: ClockState,
    current: Timestamp,
    wall: Timestamp,
    scale: F,
    time: Option<Timestamp>,
)
    requires
        current.wf(),
        wall.wf(),
        keeps_zero(scale, clock.warp_factor),
        clock.stopped_at(current).resumed_at(wall).reads(wall, scale, time),
    ensures
        time == Some(current),
{
    lemma_moved_by_nothing(current);
    assert(wall.millis_since_spec(wall) == 0);
}

/// Whether a scale leaves a time as it is at the pace of the wall clock.
pub open spec fn keeps_pace<F: Fn(i64, Double) -> i64>(scale: F, ms: i64) -> bool {
    forall|elapsed: i64| #[trigger]
        call_ensures(scale, (ms, Double { bits: ONE_BITS }), elapsed) ==> elapsed == ms
}

/// A clock in real time follows the wall clock: it reads the wall-clock time to within the
/// millisecond, and is never ahead. Instants inside leap seconds are left out.
pub proof fn law_real_time_clock_follows_the_wall<F: Fn(i64, Double) -> i64>(
    start: Timestamp,
    wall: Timestamp,
    scale: F,
    time: Option<Timestamp>,
)
    requires
        start.wf() && !start.in_leap_second(),
        wall.wf() && !wall.in_leap_second(),
        start.secs < wall.secs || (start.secs == wall.secs && start.nanos <= wall.nanos),
        keeps_pace(scale, wall.millis_since_spec(start) as i64),
        started(start, start).reads(wall, scale, time),
    ensures
        time is Some,
        time->0.wf(),
        0 <= wall.nanos_since(time->0) < 1_000_000,
{
    let ms = wall.millis_since_spec(start);
    assert(0 <= ms * 1_000_000 <= wall.nanos_since(start) < ms * 1_000_000 + 1_000_000);
    assert(ms == ms as i64);
}

/// Whether an instant is not after another.
pub open spec fn not_after(a: Timestamp, b: Timestamp) -> bool {
    a.secs < b.secs || (a.secs == b.secs && a.nanos <= b.nanos)
}

/// Whether a scale makes no less out of more time at a pace.
pub open spec fn is_monotone<F: Fn(i64, Double) -> i64>(scale: F, factor: Double) -> bool {
    forall|less: i64, more: i64, a: i64, b: i64|
        #![trigger call_ensures(scale, (less, factor), a), call_ensures(scale, (more, factor), b)]
        less <= more && call_ensures(scale, (less, factor), a) && call_ensures(
            scale,
            (more, factor),
            b,
        ) ==> a <= b
}

/// Moving an instant by more time does not bring it to an earlier one.
proof fn lemma_moves_ascend(t: Timestamp, less: int, more: int)
    requires
        t.wf(),
        less <= more,
        t.plus_millis_spec(less) is Some,
        t.plus_millis_spec(more) is Some,
    ensures
        not_after(t.plus_millis_spec(less)->0, t.plus_millis_spec(more)->0),
{
    let (s1, n1) = t.moved(less);
    let (s2, n2) = t.moved(more);
    assert(0 <= n1 < 2_000_000_000 && 0 <= n2 < 2_000_000_000);
}

/// A clock never goes back: at a later wall-clock time it does not read an earlier time.
/// Wall-clock times inside leap seconds are left out.
pub proof fn law_clock_never_goes_back<F: Fn(i64, Double) -> i64>(
    clock: ClockState,
    wall: Timestamp,
    later: Timestamp,
    scale: F,
    time: Timestamp,
    later_time: Timestamp,
)
    requires
        clock.epoch.wf(),
        clock.anchor_wall.wf() && !clock.anchor_wall.in_leap_second(),
        wall.wf() && !wall.in_leap_second(),
        later.wf() && !later.in_leap_second(),
        not_after(wall, later),
        is_monotone(scale, clock.warp_factor),
        clock.reads(wall, scale, Some(time)),
        clock.reads(later, scale, Some(later_time)),
    ensures
        not_after(time, later_time),
{
    if clock.running {
        let less = wall.millis_since_spec(clock.anchor_wall);
        let more = later.millis_since_spec(clock.anchor_wall);
        assert(i64::MIN <= less <= more <= i64::MAX);
        let a = choose|a: i64| #[trigger]
            call_ensures(scale, (less as i64, clock.warp_factor), a) && Some(time)
                == clock.reading(a as int);
        let b = choose|b: i64| #[trigger]
            call_ensures(scale, (more as i64, clock.warp_factor), b) && Some(later_time)
                == clock.reading(b as int);
        assert(a <= b);
        lemma_moves_ascend(clock.epoch, a as int, b as int);
    }
}

/// A running clock shows its epoch moved on by what scaling gives for the milliseconds on the
/// wall since the anchor, all of them, and for the warp factor. A clock that does not run shows
/// its epoch. Outside leap seconds the move is plain addition, and a clock shows no time exactly
/// where that leaves the range of instants.
pub proof fn law_clock_runs_at_its_pace<F: Fn(i64, Double) -> i64>(
    clock: &VirtualClock,
    wall: Timestamp,
    scale: &F,
    time: Option<Timestamp>,
)
    requires
        clock@.epoch.wf(),
        clock@.anchor_wall.wf(),
        wall.wf(),
        call_ensures(VirtualClock::now_at::<F>, (clock, wall, scale), time),
    ensures
        !clock@.running ==> time == Some(clock@.epoch),
        clock@.running ==> exists|ms: i64, elapsed: i64|
            {
                let since = wall.nanos_since(clock@.anchor_wall);
                let shown = clock@.epoch.secs * 1_000_000_000 + clock@.epoch.nanos + elapsed
                    * 1_000_000;
                &&& #[trigger] call_ensures(*scale, (ms, clock@.warp_factor), elapsed)
                &&& since >= 0 ==> 0 <= since - ms * 1_000_000 < 1_000_000
                &&& since < 0 ==> -1_000_000 < since - ms * 1_000_000 <= 0
                &&& !clock@.epoch.in_leap_second() ==> {
                    &&& time is Some <==> timestamp::MIN_SECS * 1_000_000_000 <= shown < (timestamp::MAX_SECS + 1)
                        * 1_000_000_000
                    &&& time matches Some(t) ==> t.secs * 1_000_000_000 + t.nanos == shown
                }
            },
{
    if clock@.running {
        let ms = wall.millis_since_spec(clock@.anchor_wall);
        assert(i64::MIN <= ms <= i64::MAX);
        let elapsed = choose|elapsed: i64| #[trigger]
            call_ensures(
                *scale,
                (wall.millis_since_spec(clock@.anchor_wall) as i64, clock@.warp_factor),
                elapsed,
            ) && time == clock@.reading(elapsed as int);
        assert(call_ensures(*scale, (ms as i64, clock@.warp_factor), elapsed));
        let since = wall.nanos_since(clock@.anchor_wall);
        assert(since >= 0 ==> 0 <= since - ms * 1_000_000 < 1_000_000);
        assert(since < 0 ==> -1_000_000 < since - ms * 1_000_000 <= 0);
        let shown = clock@.epoch.secs * 1_000_000_000 + clock@.epoch.nanos + elapsed * 1_000_000;
        if !clock@.epoch.in_leap_second() {
            assert(clock@.epoch.moved(elapsed as int) == (
                shown / 1_000_000_000,
                shown % 1_000_000_000,
            ));
        }
    }
}

/// Each command changes what it is about and nothing else. A jump keeps the pace and keeps a
/// paused clock paused; pausing keeps the pace; resuming keeps the time and the pace; a change of
/// pace keeps the time that is shown. A clock that starts runs at pace one.
pub proof fn law_commands_change_one_thing(
    clock: ClockState,
    epoch: Timestamp,
    wall: Timestamp,
    factor: Double,
)
    ensures
        clock.set_to(epoch, wall).epoch == epoch,
        clock.set_to(epoch, wall).anchor_wall == wall,
        clock.set_to(epoch, wall).warp_factor == clock.warp_factor,
        clock.set_to(epoch, wall).running == clock.running,
        clock.stopped_at(epoch).epoch == epoch,
        !clock.stopped_at(epoch).running,
        clock.stopped_at(epoch).warp_factor == clock.warp_factor,
        clock.resumed_at(wall).running,
        clock.resumed_at(wall).epoch == clock.epoch,
        clock.resumed_at(wall).anchor_wall == wall,
        clock.resumed_at(wall).warp_factor == clock.warp_factor,
        clock.warped(factor).warp_factor == factor,
        clock.warped(factor).epoch == clock.epoch,
        clock.warped(factor).anchor_wall == clock.anchor_wall,
        clock.warped(factor).running == clock.running,
        started(epoch, wall).epoch == epoch,
        started(epoch, wall).anchor_wall == wall,
        started(epoch, wall).warp_factor.bits == 0x3FF0_0000_0000_0000,
        started(epoch, wall).running,
{
}

/// A change of pace keeps the time: it is refused exactly for a pace that is not above zero, and
/// else the clock goes on, from the time it showed, at the new pace, running or paused as it was.
pub proof fn law_change_of_pace_keeps_the_time<F: Fn(i64, Double) -> i64>(
    clock: &mut VirtualClock,
    factor: Double,
    wall: Timestamp,
    scale: &F,
    r: Result<(), ClockError>,
)
    requires
        wall.wf(),
        call_ensures(
            VirtualClock::set_warp_factor_at::<F>,
            (clock, factor, wall, scale),
            r,
        ),
    ensures
        r == Err::<(), ClockError>(ClockError::WarpNotPositive) <==> !(Double {
            bits: 0,
        }).lt_spec(factor),
        r is Err ==> final(clock)@ == old(clock)@,
        r is Ok ==> final(clock)@.warp_factor == factor,
        r is Ok ==> final(clock)@.running == old(clock)@.running,
        r is Ok ==> final(clock)@.anchor_wall == wall,
        r is Ok ==> old(clock)@.reads(wall, *scale, Some(final(clock)@.epoch)),
        r is Ok && !old(clock)@.running ==> final(clock)@.epoch == old(clock)@.epoch,
{
}

/// Pausing stops the clock at the time it showed, and keeps its pace for later.
pub proof fn law_pause_stops_at_the_shown_time<F: Fn(i64, Double) -> i64>(
    clock: &mut VirtualClock,
    wall: Timestamp,
    scale: &F,
    r: Result<(), ClockError>,
)
    requires
        wall.wf(),
        call_ensures(VirtualClock::pause_at::<F>, (clock, wall, scale), r),
    ensures
        r is Err ==> final(clock)@ == old(clock)@,
        r is Ok ==> !final(clock)@.running,
        r is Ok ==> final(clock)@.warp_factor == old(clock)@.warp_factor,
        r is Ok ==> old(clock)@.reads(wall, *scale, Some(final(clock)@.epoch)),
        !old(clock)@.running ==> r is Ok && final(clock)@.epoch == old(clock)@.epoch,
{
}

/// A jump sets the time and keeps the pace, and keeps a paused clock paused.
pub proof fn law_jump_sets_the_time(clock: &mut VirtualClock, epoch: Timestamp, wall: Timestamp)
    requires
        call_ensures(VirtualClock::jump_to_at, (clock, epoch, wall), ()),
    ensures
        final(clock)@.epoch == epoch,
        final(clock)@.anchor_wall == wall,
        final(clock)@.warp_factor == old(clock)@.warp_factor,
        final(clock)@.running == old(clock)@.running,
{
}

/// Resuming goes on from the time the clock stands at, at its pace; synchronising sets it to the
/// wall, running at pace one, whatever it was.
pub proof fn law_resume_and_sync(clock: &mut VirtualClock, wall: Timestamp)
    ensures
        call_ensures(VirtualClock::resume_at, (clock, wall), ()) ==> {
            &&& final(clock)@.running
            &&& final(clock)@.epoch == old(clock)@.epoch
            &&& final(clock)@.anchor_wall == wall
            &&& final(clock)@.warp_factor == old(clock)@.warp_factor
        },
        call_ensures(VirtualClock::sync_to_utc_at, (clock, wall), ()) ==> {
            &&& final(clock)@.running
            &&& final(clock)@.epoch == wall
            &&& final(clock)@.anchor_wall == wall
            &&& final(clock)@.warp_factor.bits == 0x3FF0_0000_0000_0000
        },
{
}

} // verus!
