use motor_melody::notes::{voice, NoteInfo, Voice};

fn tone(frequency_mchz: u64) -> Vec<NoteInfo> {
    vec![NoteInfo {
        next_note_index: 0,
        motor_id: 0,
        exit: false,
        frequency_mchz,
        length_mcs: u64::MAX,
        rearticulate: false,
    }]
}

fn asserted_ticks(phase: u64, frequency_mchz: u64, ticks: u64) -> u64 {
    let notes: Vec<NoteInfo> = tone(frequency_mchz);
    let mut v: Voice = Voice { note_index: 0, microseconds: 0, phase };
    let mut asserted: u64 = 0;
    for _ in 0..ticks {
        if v.tick(&notes) {
            asserted += 1;
        }
    }
    asserted
}

#[test]
fn concert_pitch_is_asserted_half_of_every_period() {
    // 440 Hz advance the phase by 8.8e9 a tick: 1250 ticks make 11 cycles.
    assert_eq!(asserted_ticks(500_000_000_000, 440_000_000, 1250), 625);
    assert_eq!(asserted_ticks(0, 440_000_000, 1250), 625);
    assert_eq!(asserted_ticks(123_456_789_012, 440_000_000, 125_000), 62_500);
}

#[test]
fn the_share_of_asserted_ticks_nears_one_half() {
    // 261.625565 Hz: an odd number of micro-hertz.
    let frequency: u64 = 261_625_565;
    let mut ticks: u64 = 1_000;
    while ticks <= 1_000_000 {
        let asserted: u64 = asserted_ticks(500_000_000_000, frequency, ticks);
        let twice: i64 = 2 * asserted as i64 - ticks as i64;
        // Within one half wave of the tone, which lasts 96 ticks.
        assert!(twice.abs() <= 192, "{} of {} ticks", asserted, ticks);
        ticks *= 10;
    }
}

#[test]
fn the_level_half_a_period_later_is_the_other_one() {
    // At 25 kHz one tick is half a cycle.
    let notes: Vec<NoteInfo> = tone(25_000_000_000);
    let mut v: Voice = voice(0);
    let mut levels: Vec<bool> = vec![];
    for _ in 0..6 {
        levels.push(v.tick(&notes));
    }
    assert_eq!(levels, vec![true, false, true, false, true, false]);
}

#[test]
fn a_tone_of_ten_kilohertz_is_not_balanced() {
    // Five ticks make one cycle, and five ticks cannot be shared equally.
    assert_eq!(asserted_ticks(500_000_000_000, 10_000_000_000, 5), 2);
    assert_eq!(asserted_ticks(500_000_000_000, 10_000_000_000, 5_000), 2_000);
    assert_eq!(asserted_ticks(0, 10_000_000_000, 5_000), 3_000);
}

#[test]
fn a_rest_never_changes_its_level() {
    assert_eq!(asserted_ticks(500_000_000_000, 0, 1_000), 0);
    assert_eq!(asserted_ticks(499_999_999_999, 0, 1_000), 1_000);
}
