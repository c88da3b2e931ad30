//! Clocks: what paces the sequencer.

use vstd::prelude::*;

verus! {

/// Why a clock failed.
#[derive(Copy, Clone, Debug, PartialEq, Eq, Structural)]
pub enum ClockError {
    /// The time source could not be read; the field is its error number.
    Unavailable(i32),
    /// The time does not fit its 64 bits: the nanoseconds that a time
    /// source gave, or the microseconds that a simulated clock has reached.
    OutOfRange,
}

/// A clock that keeps a target time.
///
/// The simulated clocks of this library are modelled: the result of a call
/// and the clock after it are functions of the clock before, which lets a
/// contract say what a sequence of calls leaves behind. A clock that reads
/// a time source outside the program leaves `modelled` at `false` and
/// promises nothing.
pub trait Timer: Sized {
    /// Whether `waited` and `reset_done` say what the calls do.
    open spec fn modelled(&self) -> bool {
        false
    }

    /// Whether this clock is known never to fail.
    open spec fn never_fails(&self) -> bool {
        false
    }

    /// The result of a wait of `duration` microseconds and the clock after
    /// it, where the clock is modelled.
    open spec fn waited(&self, duration: u64) -> (Result<(), ClockError>, Self) {
        (Ok(()), *self)
    }

    /// The result of `reset` and the clock after it, where the clock is
    /// modelled.
    open spec fn reset_done(&self) -> (Result<(), ClockError>, Self) {
        (Ok(()), *self)
    }

    /// Advance the target time by `duration` microseconds, then wait until
    /// the target time. Waiting from the target rather than from the moment
    /// of the call keeps a long run of waits from drifting: many calls
    /// together take the sum of their durations.
    fn wait_microseconds(&mut self, duration: u64) -> (r: Result<(), ClockError>)
        ensures
            old(self).never_fails() ==> r is Ok && final(self).never_fails(),
            old(self).modelled() ==> final(self).modelled() && (r, *final(self)) == old(
                self,
            ).waited(duration),
    ;

    /// Reset the target time to the current time.
    fn reset(&mut self) -> (r: Result<(), ClockError>)
        ensures
            old(self).never_fails() ==> r is Ok && final(self).never_fails(),
            old(self).modelled() ==> final(self).modelled() && (r, *final(self)) == old(
                self,
            ).reset_done(),
    ;
}

/// The clock after `waits` waits of `duration` microseconds each.
pub open spec fn clock_after<T: Timer>(timer: T, duration: u64, waits: nat) -> T
    decreases waits,
{
    if waits == 0 {
        timer
    } else {
        clock_after(timer, duration, (waits - 1) as nat).waited(duration).1
    }
}

/// The result of the wait that follows `waits` waits of `duration`
/// microseconds each.
pub open spec fn next_wait<T: Timer>(timer: T, duration: u64, waits: nat) -> Result<
    (),
    ClockError,
> {
    clock_after(timer, duration, waits).waited(duration).0
}

/// Of at most `limit` waits of `duration` microseconds each, the number that
/// succeed before one fails.
pub open spec fn good_waits<T: Timer>(timer: T, duration: u64, limit: nat) -> nat
    decreases limit,
{
    if limit == 0 {
        0
    } else {
        let before: nat = good_waits(timer, duration, (limit - 1) as nat);
        if before == limit - 1 && next_wait(timer, duration, before) is Ok {
            limit
        } else {
            before
        }
    }
}

/// The waits that succeed are no more than the waits that are made, and the
/// wait after them fails if it is made at all.
pub proof fn lemma_good_waits<T: Timer>(timer: T, duration: u64, limit: nat)
    ensures
        good_waits(timer, duration, limit) <= limit,
        good_waits(timer, duration, limit) < limit ==> next_wait(
            timer,
            duration,
            good_waits(timer, duration, limit),
        ) is Err,
        forall|k: nat|
            k < good_waits(timer, duration, limit) ==> (#[trigger] next_wait(timer, duration, k))
                is Ok,
    decreases limit,
{
    if limit > 0 {
        lemma_good_waits(timer, duration, (limit - 1) as nat);
    }
}

/// Once a wait has failed, further waits are not made: the number of waits
/// that succeed stays what it was.
pub proof fn lemma_good_waits_end_at_failure<T: Timer>(
    timer: T,
    duration: u64,
    good: nat,
    limit: nat,
)
    requires
        good_waits(timer, duration, good) == good,
        next_wait(timer, duration, good) is Err,
        good <= limit,
    ensures
        good_waits(timer, duration, limit) == good,
    decreases limit,
{
    if limit > good {
        lemma_good_waits_end_at_failure(timer, duration, good, (limit - 1) as nat);
    }
}

/// What a clock makes of a reset and the waits that follow it.
pub struct ClockRun<T> {
    /// The number of waits that succeeded.
    pub good: nat,
    /// The error of the call that failed, if one did.
    pub result: Result<(), ClockError>,
    /// The clock after the last call that was made.
    pub timer: T,
}

/// A reset and then at most `limit` waits of `duration` microseconds each,
/// none of them after a call that failed.
pub open spec fn clock_run<T: Timer>(timer: T, duration: u64, limit: nat) -> ClockRun<T> {
    let (reset, start) = timer.reset_done();
    let good: nat = good_waits(start, duration, limit);
    if reset is Err {
        ClockRun { good: 0, result: reset, timer: start }
    } else if good == limit {
        ClockRun { good, result: Ok(()), timer: clock_after(start, duration, limit) }
    } else {
        ClockRun {
            good,
            result: next_wait(start, duration, good),
            timer: clock_after(start, duration, good + 1),
        }
    }
}

/// A clock that never waits and never fails.
pub struct DummyTimer {}

impl Timer for DummyTimer {
    open spec fn modelled(&self) -> bool {
        true
    }

    open spec fn never_fails(&self) -> bool {
        true
    }

    fn wait_microseconds(&mut self, _duration: u64) -> (r: Result<(), ClockError>) {
        Ok(())
    }

    fn reset(&mut self) -> (r: Result<(), ClockError>) {
        Ok(())
    }
}

/// Nanoseconds in a second.
pub const NANOS_PER_SECOND: i64 = 1_000_000_000;

/// Nanoseconds in a microsecond.
pub const NANOS_PER_MICROSECOND: i64 = 1_000;

/// Microseconds in a second.
pub const MICROS_PER_SECOND: u64 = 1_000_000;

/// Reads the system's monotonic clock with `nix::time::clock_gettime`. On
/// success the result is the `tv_sec` and `tv_nsec` of what the clock gave,
/// on failure the number of the `Errno`. Nothing is claimed of the values:
/// they are whatever the clock gives at the moment of the call.
#[verifier::external_body]
fn monotonic_clock() -> (r: Result<(i64, i64), i32>) {
    match nix::time::clock_gettime(nix::time::ClockId::CLOCK_MONOTONIC) {
        Ok(t) => Ok((t.tv_sec() as i64, t.tv_nsec() as i64)),
        Err(e) => Err(e as i32),
    }
}

/// The time in nanoseconds that a clock reading stands for.
pub open spec fn reading_nanoseconds(secs: i64, nanos: i64) -> int {
    secs * NANOS_PER_SECOND + nanos
}

/// Turn a reading of the clock into nanoseconds, or into the reason why
/// there is no such time.
pub fn time_of_reading(reading: Result<(i64, i64), i32>) -> (r: Result<i64, ClockError>)
    ensures
        match reading {
            Ok((secs, nanos)) => if i64::MIN <= reading_nanoseconds(secs, nanos) <= i64::MAX {
                r == Ok::<i64, ClockError>(reading_nanoseconds(secs, nanos) as i64)
            } else {
                r == Err::<i64, ClockError>(ClockError::OutOfRange)
            },
            Err(code) => r == Err::<i64, ClockError>(ClockError::Unavailable(code)),
        },
{
    match reading {
        Ok((secs, nanos)) => {
            assert(-0x8000_0000_0000_0000 * 1_000_000_000 <= secs * NANOS_PER_SECOND
                <= 0x8000_0000_0000_0000 * 1_000_000_000) by (nonlinear_arith)
                requires
                    NANOS_PER_SECOND == 1_000_000_000,
                    -0x8000_0000_0000_0000 <= secs < 0x8000_0000_0000_0000,
            ;
            let total: i128 = secs as i128 * NANOS_PER_SECOND as i128 + nanos as i128;
            if total < i64::MIN as i128 || total > i64::MAX as i128 {
                Err(ClockError::OutOfRange)
            } else {
                Ok(total as i64)
            }
        },
        Err(code) => Err(ClockError::Unavailable(code)),
    }
}

/// The current time of the monotonic clock in nanoseconds.
fn now() -> (r: Result<i64, ClockError>) {
    time_of_reading(monotonic_clock())
}

/// How long to block at time `now` to reach `next_time`, both in
/// nanoseconds: the time that is left, or nothing once the target is past.
pub open spec fn pause(next_time: i64, now: i64) -> int {
    if next_time > now {
        next_time - now
    } else {
        0
    }
}

/// Nanoseconds to block at time `now` to reach `next_time`.
pub fn pause_until(next_time: i64, now: i64) -> (nanos: u64)
    ensures
        nanos == pause(next_time, now),
{
    if next_time > now {
        (next_time as i128 - now as i128) as u64
    } else {
        0
    }
}

/// The target time of a timer on the monotonic clock. It decides how long
/// each wait has to block; the blocking itself is left to the caller.
pub struct NixTimer {
    /// The target time in nanoseconds.
    pub next_time: i64,
}

impl NixTimer {
    /// A timer whose target is time zero.
    pub fn new() -> (t: NixTimer)
        ensures
            t.next_time == 0,
    {
        NixTimer { next_time: 0 }
    }

    /// Whether the target can move `duration` microseconds on.
    pub open spec fn can_advance(&self, duration: u64) -> bool {
        self.next_time + duration * NANOS_PER_MICROSECOND <= i64::MAX
    }

    /// Whether the target can move `duration` microseconds on.
    pub fn fits(&self, duration: u64) -> (ok: bool)
        ensures
            ok == self.can_advance(duration),
    {
        assert(0 <= duration * NANOS_PER_MICROSECOND <= 0xffff_ffff_ffff_ffff * 1_000)
            by (nonlinear_arith)
            requires
                NANOS_PER_MICROSECOND == 1_000,
                0 <= duration <= 0xffff_ffff_ffff_ffff,
        ;
        self.next_time as i128 + duration as i128 * NANOS_PER_MICROSECOND as i128
            <= i64::MAX as i128
    }

    /// Move the target `duration` microseconds on.
    pub fn advance(&mut self, duration: u64)
        requires
            old(self).can_advance(duration),
        ensures
            final(self).next_time == old(self).next_time + duration * NANOS_PER_MICROSECOND,
    {
        assert(0 <= duration * NANOS_PER_MICROSECOND <= 0xffff_ffff_ffff_ffff * 1_000)
            by (nonlinear_arith)
            requires
                NANOS_PER_MICROSECOND == 1_000,
                0 <= duration <= 0xffff_ffff_ffff_ffff,
        ;
        let target: i128 = self.next_time as i128 + duration as i128
            * NANOS_PER_MICROSECOND as i128;
        self.next_time = target as i64;
    }

    /// Move the target `duration` microseconds on and return the
    /// nanoseconds to block until the target, given what the clock read. The
    /// target moves whether or not the clock could be read.
    pub fn wait_at(&mut self, duration: u64, reading: Result<i64, ClockError>) -> (r: Result<
        u64,
        ClockError,
    >)
        requires
            old(self).can_advance(duration),
        ensures
            final(self).next_time == old(self).next_time + duration * NANOS_PER_MICROSECOND,
            match reading {
                Ok(now) => r == Ok::<u64, ClockError>(pause(final(self).next_time, now) as u64),
                Err(e) => r == Err::<u64, ClockError>(e),
            },
    {
        self.advance(duration);
        match reading {
            Ok(now) => Ok(pause_until(self.next_time, now)),
            Err(e) => Err(e),
        }
    }

    /// Set the target to the time that the clock read. A clock that could
    /// not be read leaves the target as it was.
    pub fn reset_at(&mut self, reading: Result<i64, ClockError>) -> (r: Result<(), ClockError>)
        ensures
            match reading {
                Ok(now) => r is Ok && final(self).next_time == now,
                Err(e) => r == Err::<(), ClockError>(e) && final(self).next_time == old(
                    self,
                ).next_time,
            },
    {
        match reading {
            Ok(now) => {
                self.next_time = now;
                Ok(())
            },
            Err(e) => Err(e),
        }
    }

    /// Move the target `duration` microseconds on, read the clock, and
    /// return the nanoseconds to block until the target: the time that is
    /// left at some moment of the clock. The target moves whether or not the
    /// clock can be read.
    pub fn wait_microseconds(&mut self, duration: u64) -> (r: Result<u64, ClockError>)
        requires
            old(self).can_advance(duration),
        ensures
            final(self).next_time == old(self).next_time + duration * NANOS_PER_MICROSECOND,
            r matches Ok(nanos) ==> exists|now: i64| nanos == pause(final(self).next_time, now),
    {
        self.wait_at(duration, now())
    }

    /// Set the target to the current time. A clock that cannot be read
    /// leaves the target as it was.
    pub fn reset(&mut self) -> (r: Result<(), ClockError>)
        ensures
            r is Err ==> final(self).next_time == old(self).next_time,
    {
        self.reset_at(now())
    }
}

/// The clock of a sampled recording: simulated time in microseconds, and the
/// sample rate that turns it into a number of samples.
pub struct SampleClock {
    /// Samples per second.
    pub sample_rate: u32,
    /// Simulated time since the start in microseconds.
    pub time_mcs: u64,
}

/// The number of whole samples that fit into `time_mcs` microseconds.
pub open spec fn samples_at(sample_rate: u32, time_mcs: u64) -> int {
    sample_rate * time_mcs / (MICROS_PER_SECOND as int)
}

impl SampleClock {
    /// A clock at time zero.
    pub fn new(sample_rate: u32) -> (c: SampleClock)
        ensures
            c.sample_rate == sample_rate,
            c.time_mcs == 0,
    {
        SampleClock { sample_rate, time_mcs: 0 }
    }

    /// Whether the time can move `duration` microseconds on with a sample
    /// count that still fits 64 bits.
    pub open spec fn can_advance(&self, duration: u64) -> bool {
        &&& self.time_mcs + duration <= u64::MAX
        &&& self.sample_rate * (self.time_mcs + duration) <= u64::MAX
    }

    /// The clock `duration` microseconds later.
    pub open spec fn advanced(&self, duration: u64) -> SampleClock {
        SampleClock {
            sample_rate: self.sample_rate,
            time_mcs: (self.time_mcs + duration) as u64,
        }
    }

    /// The number of whole samples up to now.
    pub open spec fn samples(&self) -> int {
        samples_at(self.sample_rate, self.time_mcs)
    }

    /// Whether the time can move `duration` microseconds on.
    pub fn fits(&self, duration: u64) -> (ok: bool)
        ensures
            ok == self.can_advance(duration),
    {
        match self.time_mcs.checked_add(duration) {
            Some(time) => {
                assert(self.sample_rate * time <= 0xffff_ffff * 0xffff_ffff_ffff_ffff)
                    by (nonlinear_arith)
                    requires
                        self.sample_rate <= 0xffff_ffff,
                        time <= 0xffff_ffff_ffff_ffff,
                ;
                self.sample_rate as u128 * time as u128 <= u64::MAX as u128
            },
            None => false,
        }
    }

    /// Move the time `duration` microseconds on, and return the number of
    /// samples that the move adds to the recording.
    pub fn advance(&mut self, duration: u64) -> (samples_to_add: u64)
        requires
            old(self).can_advance(duration),
        ensures
            *final(self) == old(self).advanced(duration),
            samples_to_add == final(self).samples() - old(self).samples(),
    {
        proof {
            lemma_samples_fit(self.sample_rate, self.time_mcs, duration);
        }
        let old_sample_count: u64 = (self.sample_rate as u64) * self.time_mcs / 1_000_000;
        self.time_mcs += duration;
        let new_sample_count: u64 = (self.sample_rate as u64) * self.time_mcs / 1_000_000;

        new_sample_count - old_sample_count
    }
}

impl Timer for SampleClock {
    open spec fn modelled(&self) -> bool {
        true
    }

    open spec fn waited(&self, duration: u64) -> (Result<(), ClockError>, Self) {
        if self.can_advance(duration) {
            (Ok(()), self.advanced(duration))
        } else {
            (Err(ClockError::OutOfRange), *self)
        }
    }

    /// Simulated time passes without waiting. A time that does not fit is
    /// refused and leaves the clock as it was.
    fn wait_microseconds(&mut self, duration: u64) -> (r: Result<(), ClockError>) {
        if self.fits(duration) {
            let _ = self.advance(duration);
            Ok(())
        } else {
            Err(ClockError::OutOfRange)
        }
    }

    /// The simulated time is the target time already.
    fn reset(&mut self) -> (r: Result<(), ClockError>) {
        Ok(())
    }
}

/// A simulated clock keeps time exactly: waits whose sum still fits all
/// succeed, and move the time on by their sum.
pub proof fn lemma_sample_clock_keeps_time(clock: SampleClock, duration: u64, waits: nat)
    requires
        clock.time_mcs + waits * duration <= u64::MAX,
        clock.sample_rate * (clock.time_mcs + waits * duration) <= u64::MAX,
    ensures
        good_waits(clock, duration, waits) == waits,
        clock_after(clock, duration, waits) == (SampleClock {
            sample_rate: clock.sample_rate,
            time_mcs: (clock.time_mcs + waits * duration) as u64,
        }),
    decreases waits,
{
    if waits > 0 {
        let before: nat = (waits - 1) as nat;
        assert(before * duration == waits * duration - duration) by (nonlinear_arith)
            requires
                before == waits - 1,
        ;
        assert(clock.sample_rate * (clock.time_mcs + before * duration) <= clock.sample_rate * (
        clock.time_mcs + waits * duration)) by (nonlinear_arith)
            requires
                before * duration <= waits * duration,
        ;
        lemma_sample_clock_keeps_time(clock, duration, before);
    } else {
        assert(waits * duration == 0) by (nonlinear_arith)
            requires
                waits == 0,
        ;
    }
}

/// A sample count that fits after a move fits before it, and does not
/// shrink.
proof fn lemma_samples_fit(sample_rate: u32, time_mcs: u64, duration: u64)
    requires
        sample_rate * (time_mcs + duration) <= u64::MAX,
    ensures
        sample_rate * time_mcs <= sample_rate * (time_mcs + duration),
        samples_at(sample_rate, time_mcs) <= (sample_rate * (time_mcs + duration)) / (
        MICROS_PER_SECOND as int),
{
    assert(sample_rate * time_mcs <= sample_rate * (time_mcs + duration)) by (nonlinear_arith);
}

} // verus!
