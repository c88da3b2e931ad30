use motor_melody::timer::{
    pause_until, time_of_reading, ClockError, DummyTimer, NixTimer, SampleClock, Timer,
};

#[test]
fn the_dummy_timer_never_fails() {
    let mut timer: DummyTimer = DummyTimer {};
    assert_eq!(timer.reset(), Ok(()));
    assert_eq!(timer.wait_microseconds(0), Ok(()));
    assert_eq!(timer.wait_microseconds(u64::MAX), Ok(()));
}

#[test]
fn a_reading_is_seconds_and_nanoseconds() {
    assert_eq!(time_of_reading(Ok((0, 0))), Ok(0));
    assert_eq!(time_of_reading(Ok((12, 345_678_901))), Ok(12_345_678_901));
    assert_eq!(time_of_reading(Ok((-1, 999_999_999))), Ok(-1));
    assert_eq!(time_of_reading(Ok((0, -5))), Ok(-5));
}

#[test]
fn a_reading_at_the_limits_fits() {
    assert_eq!(time_of_reading(Ok((9_223_372_036, 854_775_807))), Ok(i64::MAX));
    assert_eq!(time_of_reading(Ok((-9_223_372_036, -854_775_808))), Ok(i64::MIN));
}

#[test]
fn a_reading_beyond_the_limits_is_out_of_range() {
    assert_eq!(time_of_reading(Ok((9_223_372_036, 854_775_808))), Err(ClockError::OutOfRange));
    assert_eq!(time_of_reading(Ok((-9_223_372_036, -854_775_809))), Err(ClockError::OutOfRange));
    assert_eq!(time_of_reading(Ok((i64::MAX, i64::MAX))), Err(ClockError::OutOfRange));
    assert_eq!(time_of_reading(Ok((i64::MIN, i64::MIN))), Err(ClockError::OutOfRange));
}

#[test]
fn a_failed_reading_keeps_its_error_number() {
    assert_eq!(time_of_reading(Err(22)), Err(ClockError::Unavailable(22)));
    assert_eq!(time_of_reading(Err(-1)), Err(ClockError::Unavailable(-1)));
}

#[test]
fn the_pause_is_the_time_left() {
    assert_eq!(pause_until(1_000_000, 400_000), 600_000);
    assert_eq!(pause_until(1_000_000, 999_999), 1);
    assert_eq!(pause_until(-5, -25), 20);
}

#[test]
fn the_pause_is_zero_once_the_target_is_past() {
    assert_eq!(pause_until(1_000_000, 1_000_000), 0);
    assert_eq!(pause_until(1_000_000, 1_000_001), 0);
    assert_eq!(pause_until(i64::MIN, i64::MAX), 0);
}

#[test]
fn the_longest_pause_fits() {
    assert_eq!(pause_until(i64::MAX, i64::MIN), u64::MAX);
}

#[test]
fn a_new_timer_targets_time_zero() {
    let timer: NixTimer = NixTimer::new();
    assert_eq!(timer.next_time, 0);
}

#[test]
fn advancing_adds_microseconds_as_nanoseconds() {
    let mut timer: NixTimer = NixTimer::new();
    timer.advance(20);
    assert_eq!(timer.next_time, 20_000);
    timer.advance(0);
    assert_eq!(timer.next_time, 20_000);
    timer.advance(9_223_372_036_854_755);
    assert_eq!(timer.next_time, 9_223_372_036_854_775_000);
}

#[test]
fn advancing_from_a_negative_target() {
    let mut timer: NixTimer = NixTimer { next_time: i64::MIN };
    timer.advance(18_446_744_073_709_551);
    assert_eq!(timer.next_time, 9_223_372_036_854_775_192);
}

#[test]
fn a_hundred_waits_move_the_target_by_their_sum() {
    let mut timer: NixTimer = NixTimer::new();
    for _ in 0..100 {
        let pause: Result<u64, ClockError> = timer.wait_microseconds(10_000);
        // The target lies at most the sum of the waits after time zero.
        match pause {
            Ok(nanos) => assert!(nanos <= 1_000_000_000),
            Err(_) => {}
        }
    }
    assert_eq!(timer.next_time, 1_000_000_000);
}

#[test]
fn waits_of_different_lengths_move_the_target_by_their_sum() {
    let mut one_by_one: NixTimer = NixTimer::new();
    for d in [1u64, 10, 100, 1_000, 8_889] {
        let _ = one_by_one.wait_microseconds(d);
    }
    let mut at_once: NixTimer = NixTimer::new();
    let _ = at_once.wait_microseconds(10_000);
    assert_eq!(one_by_one.next_time, at_once.next_time);
    assert_eq!(at_once.next_time, 10_000_000);
}

#[test]
fn the_monotonic_clock_can_be_read() {
    let mut timer: NixTimer = NixTimer::new();
    assert_eq!(timer.reset(), Ok(()));
    let first: i64 = timer.next_time;
    assert_eq!(timer.reset(), Ok(()));
    assert!(timer.next_time >= first);
}

#[test]
fn a_wait_after_a_reset_pauses_no_longer_than_asked() {
    let mut timer: NixTimer = NixTimer::new();
    assert_eq!(timer.reset(), Ok(()));
    let start: i64 = timer.next_time;
    let pause: Result<u64, ClockError> = timer.wait_microseconds(10_000);
    assert_eq!(timer.next_time, start + 10_000_000);
    match pause {
        Ok(nanos) => assert!(nanos <= 10_000_000),
        Err(e) => panic!("the clock failed: {:?}", e),
    }
}

#[test]
fn a_sample_clock_starts_at_zero() {
    let clock: SampleClock = SampleClock::new(44100);
    assert_eq!(clock.sample_rate, 44100);
    assert_eq!(clock.time_mcs, 0);
}

#[test]
fn a_tick_at_cd_rate_adds_one_sample_or_none() {
    let mut clock: SampleClock = SampleClock::new(44100);
    // 20 us are 0.882 samples.
    assert_eq!(clock.advance(20), 0);
    assert_eq!(clock.advance(20), 1);
    assert_eq!(clock.advance(20), 1);
    assert_eq!(clock.advance(20), 1);
    assert_eq!(clock.advance(20), 1);
    assert_eq!(clock.advance(20), 1);
    assert_eq!(clock.advance(20), 1);
    assert_eq!(clock.advance(20), 1);
    assert_eq!(clock.advance(20), 0);
    assert_eq!(clock.time_mcs, 180);
}

#[test]
fn a_second_of_ticks_adds_a_second_of_samples() {
    let mut clock: SampleClock = SampleClock::new(44100);
    let mut samples: u64 = 0;
    for _ in 0..50_000 {
        samples += clock.advance(20);
    }
    assert_eq!(samples, 44100);
    assert_eq!(clock.time_mcs, 1_000_000);
}

#[test]
fn a_hundred_waits_advance_the_simulated_time_by_their_sum() {
    let mut clock: SampleClock = SampleClock::new(48000);
    assert_eq!(clock.reset(), Ok(()));
    for _ in 0..100 {
        assert_eq!(clock.wait_microseconds(10_000), Ok(()));
    }
    assert_eq!(clock.time_mcs, 1_000_000);
    assert_eq!(clock.reset(), Ok(()));
    assert_eq!(clock.time_mcs, 1_000_000);
}

#[test]
fn waits_in_any_portions_advance_the_simulated_time_alike() {
    let mut in_ticks: SampleClock = SampleClock::new(44100);
    for _ in 0..50_000 {
        assert_eq!(in_ticks.wait_microseconds(20), Ok(()));
    }
    let mut at_once: SampleClock = SampleClock::new(44100);
    assert_eq!(at_once.wait_microseconds(1_000_000), Ok(()));
    assert_eq!(in_ticks.time_mcs, 1_000_000);
    assert_eq!(at_once.time_mcs, 1_000_000);
}

#[test]
fn a_clock_without_samples_still_keeps_time() {
    let mut clock: SampleClock = SampleClock::new(0);
    assert!(clock.fits(u64::MAX));
    assert_eq!(clock.advance(u64::MAX), 0);
    assert_eq!(clock.time_mcs, u64::MAX);
    assert!(clock.fits(0));
    assert!(!clock.fits(1));
}

#[test]
fn the_sample_count_may_fill_64_bits() {
    let mut clock: SampleClock = SampleClock::new(u32::MAX);
    // u32::MAX * 4_294_967_297 == u64::MAX
    assert!(clock.fits(4_294_967_297));
    assert!(!clock.fits(4_294_967_298));
    assert_eq!(clock.advance(4_294_967_297), 18_446_744_073_709);
    assert_eq!(clock.time_mcs, 4_294_967_297);
    assert!(clock.fits(0));
    assert!(!clock.fits(1));
}

#[test]
fn a_simulated_time_that_does_not_fit_is_refused() {
    let mut clock: SampleClock = SampleClock::new(44100);
    // 44100 * 418_293_516_410_647 is the last product below 2^64.
    assert_eq!(clock.wait_microseconds(418_293_516_410_647), Ok(()));
    assert_eq!(clock.wait_microseconds(1), Err(ClockError::OutOfRange));
    assert_eq!(clock.time_mcs, 418_293_516_410_647);
    assert_eq!(clock.wait_microseconds(0), Ok(()));
    let mut other: SampleClock = SampleClock::new(1);
    assert_eq!(other.wait_microseconds(u64::MAX), Ok(()));
    assert_eq!(other.wait_microseconds(1), Err(ClockError::OutOfRange));
    assert_eq!(other.time_mcs, u64::MAX);
}

#[test]
fn a_wait_blocks_for_the_time_left() {
    let mut timer: NixTimer = NixTimer { next_time: 5_000_000 };
    assert_eq!(timer.wait_at(20, Ok(5_004_000)), Ok(16_000));
    assert_eq!(timer.next_time, 5_020_000);
    assert_eq!(timer.wait_at(20, Ok(5_040_000)), Ok(0));
    assert_eq!(timer.next_time, 5_040_000);
    assert_eq!(timer.wait_at(20, Ok(5_090_000)), Ok(0));
    assert_eq!(timer.next_time, 5_060_000);
}

#[test]
fn a_wait_moves_the_target_though_the_clock_fails() {
    let mut timer: NixTimer = NixTimer { next_time: 5_000_000 };
    assert_eq!(timer.wait_at(20, Err(ClockError::Unavailable(22))), Err(ClockError::Unavailable(22)));
    assert_eq!(timer.next_time, 5_020_000);
    assert_eq!(timer.wait_at(1, Err(ClockError::OutOfRange)), Err(ClockError::OutOfRange));
    assert_eq!(timer.next_time, 5_021_000);
}

#[test]
fn a_reset_takes_the_time_of_the_clock() {
    let mut timer: NixTimer = NixTimer::new();
    assert_eq!(timer.reset_at(Ok(123_456_789)), Ok(()));
    assert_eq!(timer.next_time, 123_456_789);
    assert_eq!(timer.reset_at(Ok(-1)), Ok(()));
    assert_eq!(timer.next_time, -1);
}

#[test]
fn a_failed_reset_keeps_the_target() {
    let mut timer: NixTimer = NixTimer { next_time: 77 };
    assert_eq!(timer.reset_at(Err(ClockError::Unavailable(1))), Err(ClockError::Unavailable(1)));
    assert_eq!(timer.next_time, 77);
    assert_eq!(timer.reset_at(Err(ClockError::OutOfRange)), Err(ClockError::OutOfRange));
    assert_eq!(timer.next_time, 77);
}

#[test]
fn a_hundred_waits_on_a_simulated_clock_take_their_sum() {
    // The simulated clock jumps to the target at once: sleeping costs nothing.
    let mut timer: NixTimer = NixTimer::new();
    assert_eq!(timer.reset_at(Ok(3_000_000_000)), Ok(()));
    let mut now: i64 = 3_000_000_000;
    let mut slept: u64 = 0;
    for _ in 0..100 {
        let pause: u64 = timer.wait_at(10_000, Ok(now)).unwrap();
        slept += pause;
        now += pause as i64;
    }
    assert_eq!(timer.next_time - 3_000_000_000, 1_000_000_000);
    assert_eq!(slept, 1_000_000_000);
    assert_eq!(now, timer.next_time);
}

#[test]
fn late_waits_do_not_move_the_target_off_its_grid() {
    // Every call comes 3 ms late, one comes 25 ms late: the target does not care.
    let mut timer: NixTimer = NixTimer::new();
    assert_eq!(timer.reset_at(Ok(0)), Ok(()));
    let mut now: i64 = 0;
    let mut pauses: Vec<u64> = vec![];
    for i in 0..100 {
        now += if i == 50 { 25_000_000 } else { 3_000_000 };
        let pause: u64 = timer.wait_at(10_000, Ok(now)).unwrap();
        pauses.push(pause);
        now += pause as i64;
    }
    assert_eq!(timer.next_time, 1_000_000_000);
    assert_eq!(pauses[0], 7_000_000);
    assert_eq!(pauses[49], 7_000_000);
    assert_eq!(pauses[50], 0);
    assert_eq!(pauses[51], 0);
    assert_eq!(pauses[52], 0);
    assert_eq!(pauses[53], 6_000_000);
    assert_eq!(pauses[54], 7_000_000);
    assert_eq!(now, 1_000_000_000);
}

#[test]
fn a_target_fits_up_to_the_last_nanosecond() {
    let timer: NixTimer = NixTimer { next_time: i64::MAX - 20_000 };
    assert!(timer.fits(0));
    assert!(timer.fits(20));
    assert!(!timer.fits(21));
    assert!(!timer.fits(u64::MAX));
    let early: NixTimer = NixTimer { next_time: i64::MIN };
    assert!(early.fits(18_446_744_073_709_551));
    assert!(!early.fits(18_446_744_073_709_552));
}
