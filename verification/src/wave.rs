//! The square wave that the phase accumulator draws at one frequency, and
//! why its two levels take equal time.

use vstd::arithmetic::div_mod::lemma_add_mod_noop_right;
use vstd::prelude::*;

use crate::notes::phase_after_tick;
use crate::notes::phase_flipped;
use crate::notes::tick_exits;
use crate::notes::voice_after_tick;
use crate::notes::voices_after;
use crate::notes::NoteInfo;
use crate::notes::Voice;
use crate::notes::CYCLE;
use crate::notes::HALF_CYCLE;
use crate::notes::TICK_DURATION_MCS;

verus! {

/// The phase after `ticks` ticks at one frequency.
pub open spec fn phase_after_ticks(phase: u64, frequency: u64, ticks: nat) -> u64
    decreases ticks,
{
    if ticks == 0 {
        phase
    } else {
        phase_after_tick(phase_after_ticks(phase, frequency, (ticks - 1) as nat), frequency)
    }
}

/// Of the `count` ticks that follow the first `from` ticks, the number
/// during which the actuator is asserted.
pub open spec fn asserted_ticks_between(phase: u64, frequency: u64, from: nat, count: nat) -> nat
    decreases count,
{
    if count == 0 {
        0
    } else {
        asserted_ticks_between(phase, frequency, from, (count - 1) as nat) + if phase_after_ticks(
            phase,
            frequency,
            from + count,
        ) < HALF_CYCLE {
            1nat
        } else {
            0nat
        }
    }
}

/// Of the first `ticks` ticks, the number during which the actuator is
/// asserted.
pub open spec fn asserted_ticks(phase: u64, frequency: u64, ticks: nat) -> nat {
    asserted_ticks_between(phase, frequency, 0, ticks)
}

/// A number of ticks that carries the phase exactly half a cycle on, for a
/// frequency that is no multiple of 1024 micro-hertz; 0 for one that is.
/// Such a frequency is an odd number times a power of two below 1024, and
/// the complementary power of two times 5^12 ticks make an odd number of
/// half cycles.
pub open spec fn half_period(frequency: u64) -> nat {
    if frequency % 2 == 1 {
        125_000_000_000
    } else if frequency % 4 == 2 {
        62_500_000_000
    } else if frequency % 8 == 4 {
        31_250_000_000
    } else if frequency % 16 == 8 {
        15_625_000_000
    } else if frequency % 32 == 16 {
        7_812_500_000
    } else if frequency % 64 == 32 {
        3_906_250_000
    } else if frequency % 128 == 64 {
        1_953_125_000
    } else if frequency % 256 == 128 {
        976_562_500
    } else if frequency % 512 == 256 {
        488_281_250
    } else if frequency % 1024 == 512 {
        244_140_625
    } else {
        0
    }
}

/// The phase that `ticks` ticks at `frequency` add, within one cycle.
pub open spec fn swept(frequency: u64, ticks: nat) -> int
    decreases ticks,
{
    if ticks == 0 {
        0
    } else {
        (swept(frequency, (ticks - 1) as nat) + frequency * TICK_DURATION_MCS) % (CYCLE as int)
    }
}

/// After the first tick the phase stays below one cycle.
pub proof fn lemma_phase_in_cycle(phase: u64, frequency: u64, ticks: nat)
    requires
        ticks > 0,
    ensures
        phase_after_ticks(phase, frequency, ticks) < CYCLE,
{
}

/// Half a cycle on, the level is the other one.
pub proof fn lemma_flip_inverts_level(phase: u64)
    requires
        phase < CYCLE,
    ensures
        (phase_flipped(phase) < HALF_CYCLE) == !(phase < HALF_CYCLE),
        phase_flipped(phase) < CYCLE,
{
}

/// What `ticks` ticks add to the phase is the product of their number, the
/// frequency and the tick length, within one cycle.
pub proof fn lemma_swept_is_product(frequency: u64, ticks: nat)
    ensures
        swept(frequency, ticks) == (ticks * (frequency * TICK_DURATION_MCS)) % (CYCLE as int),
    decreases ticks,
{
    let step: int = frequency * TICK_DURATION_MCS;
    if ticks > 0 {
        lemma_swept_is_product(frequency, (ticks - 1) as nat);
        assert(ticks * step == (ticks - 1) * step + step) by (nonlinear_arith);
    } else {
        assert(ticks * step == 0) by (nonlinear_arith)
            requires
                ticks == 0,
        ;
    }
}

/// The phase `count` ticks later is the phase now plus what those ticks add.
pub proof fn lemma_phase_shift(phase: u64, frequency: u64, from: nat, count: nat)
    requires
        count > 0,
    ensures
        phase_after_ticks(phase, frequency, from + count) == (phase_after_ticks(
            phase,
            frequency,
            from,
        ) + swept(frequency, count)) % (CYCLE as int),
    decreases count,
{
    let cycle: int = CYCLE as int;
    let step: int = frequency * TICK_DURATION_MCS;
    let start: int = phase_after_ticks(phase, frequency, from) as int;
    let before: int = phase_after_ticks(phase, frequency, (from + count - 1) as nat) as int;
    let swept_before: int = swept(frequency, (count - 1) as nat);
    assert(phase_after_ticks(phase, frequency, from + count) == (before + step) % cycle);
    assert(swept(frequency, count) == (swept_before + step) % cycle);
    if count > 1 {
        lemma_phase_shift(phase, frequency, from, (count - 1) as nat);
        assert(before == (start + swept_before) % cycle);
        lemma_add_mod_noop_right(step, start + swept_before, cycle);
    }
    lemma_add_mod_noop_right(start, swept_before + step, cycle);
}

/// An odd multiple of two and a half cycles is half a cycle, within one
/// cycle.
proof fn lemma_odd_multiple_sweeps_half_cycle(
    frequency: u64,
    ticks: nat,
    power: int,
    odd_half: int,
)
    requires
        frequency == power * (2 * odd_half + 1),
        ticks * 20 * power == 2_500_000_000_000,
    ensures
        swept(frequency, ticks) == HALF_CYCLE,
{
    let f: int = frequency as int;
    lemma_swept_is_product(frequency, ticks);
    assert(ticks * (f * 20) == (ticks * 20 * power) * (2 * odd_half + 1)) by (nonlinear_arith)
        requires
            f == power * (2 * odd_half + 1),
    ;
    assert(ticks * (f * 20) == 1_000_000_000_000 * (5 * odd_half + 2) + 500_000_000_000);
}

/// For a frequency that is no multiple of 1024 micro-hertz, `half_period`
/// ticks add exactly half a cycle.
pub proof fn lemma_half_period_sweeps_half_cycle(frequency: u64)
    requires
        frequency % 1024 != 0,
    ensures
        0 < half_period(frequency) <= 125_000_000_000,
        swept(frequency, half_period(frequency)) == HALF_CYCLE,
{
    let f: int = frequency as int;
    assert(f % 2 == 0 ==> f % 4 == 0 || f % 4 == 2);
    assert(f % 4 == 0 ==> f % 8 == 0 || f % 8 == 4);
    assert(f % 8 == 0 ==> f % 16 == 0 || f % 16 == 8);
    assert(f % 16 == 0 ==> f % 32 == 0 || f % 32 == 16);
    assert(f % 32 == 0 ==> f % 64 == 0 || f % 64 == 32);
    assert(f % 64 == 0 ==> f % 128 == 0 || f % 128 == 64);
    assert(f % 128 == 0 ==> f % 256 == 0 || f % 256 == 128);
    assert(f % 256 == 0 ==> f % 512 == 0 || f % 512 == 256);
    assert(f % 512 == 0 ==> f % 1024 == 0 || f % 1024 == 512);
    if f % 2 == 1 {
        lemma_odd_multiple_sweeps_half_cycle(frequency, 125_000_000_000, 1, f / 2);
    } else if f % 4 == 2 {
        lemma_odd_multiple_sweeps_half_cycle(frequency, 62_500_000_000, 2, f / 4);
    } else if f % 8 == 4 {
        lemma_odd_multiple_sweeps_half_cycle(frequency, 31_250_000_000, 4, f / 8);
    } else if f % 16 == 8 {
        lemma_odd_multiple_sweeps_half_cycle(frequency, 15_625_000_000, 8, f / 16);
    } else if f % 32 == 16 {
        lemma_odd_multiple_sweeps_half_cycle(frequency, 7_812_500_000, 16, f / 32);
    } else if f % 64 == 32 {
        lemma_odd_multiple_sweeps_half_cycle(frequency, 3_906_250_000, 32, f / 64);
    } else if f % 128 == 64 {
        lemma_odd_multiple_sweeps_half_cycle(frequency, 1_953_125_000, 64, f / 128);
    } else if f % 256 == 128 {
        lemma_odd_multiple_sweeps_half_cycle(frequency, 976_562_500, 128, f / 256);
    } else if f % 512 == 256 {
        lemma_odd_multiple_sweeps_half_cycle(frequency, 488_281_250, 256, f / 512);
    } else if f % 1024 == 512 {
        lemma_odd_multiple_sweeps_half_cycle(frequency, 244_140_625, 512, f / 1024);
    }
}

/// Where `half` ticks add exactly half a cycle, the phase `half` ticks later
/// is the phase now, half a cycle on.
pub proof fn lemma_half_period_flips_phase(phase: u64, frequency: u64, half: nat, from: nat)
    requires
        half > 0,
        swept(frequency, half) == HALF_CYCLE,
    ensures
        phase_after_ticks(phase, frequency, from + half) == phase_flipped(
            phase_after_ticks(phase, frequency, from),
        ),
{
    lemma_phase_shift(phase, frequency, from, half);
}

/// No more ticks are asserted than there are.
pub proof fn lemma_asserted_ticks_bound(phase: u64, frequency: u64, from: nat, count: nat)
    ensures
        asserted_ticks_between(phase, frequency, from, count) <= count,
    decreases count,
{
    if count > 0 {
        lemma_asserted_ticks_bound(phase, frequency, from, (count - 1) as nat);
    }
}

/// The asserted ticks of two stretches that follow each other add up.
pub proof fn lemma_asserted_ticks_add(
    phase: u64,
    frequency: u64,
    from: nat,
    first: nat,
    second: nat,
)
    ensures
        asserted_ticks_between(phase, frequency, from, first + second) == asserted_ticks_between(
            phase,
            frequency,
            from,
            first,
        ) + asserted_ticks_between(phase, frequency, from + first, second),
    decreases second,
{
    if second > 0 {
        lemma_asserted_ticks_add(phase, frequency, from, first, (second - 1) as nat);
        assert(from + (first + second) == (from + first) + second);
    }
}

/// Of a tick and the tick `half` later, exactly one is asserted: so of two
/// stretches that lie `half` apart, the asserted ticks number as many as
/// either stretch has ticks.
proof fn lemma_asserted_ticks_pair(phase: u64, frequency: u64, half: nat, from: nat, count: nat)
    requires
        half > 0,
        swept(frequency, half) == HALF_CYCLE,
    ensures
        asserted_ticks_between(phase, frequency, from, count) + asserted_ticks_between(
            phase,
            frequency,
            from + half,
            count,
        ) == count,
    decreases count,
{
    if count > 0 {
        lemma_asserted_ticks_pair(phase, frequency, half, from, (count - 1) as nat);
        lemma_half_period_flips_phase(phase, frequency, half, from + count);
        lemma_phase_in_cycle(phase, frequency, from + count);
        lemma_flip_inverts_level(phase_after_ticks(phase, frequency, from + count));
        assert(from + count + half == from + half + count);
    }
}

/// Where `half` ticks add exactly half a cycle, the actuator is asserted
/// during exactly half of any `2 * half` ticks in a row.
pub proof fn lemma_full_period_is_balanced(phase: u64, frequency: u64, half: nat, from: nat)
    requires
        half > 0,
        swept(frequency, half) == HALF_CYCLE,
    ensures
        asserted_ticks_between(phase, frequency, from, 2 * half) == half,
{
    lemma_asserted_ticks_add(phase, frequency, from, half, half);
    lemma_asserted_ticks_pair(phase, frequency, half, from, half);
}

/// Where `half` ticks add exactly half a cycle, twice the number of
/// asserted ticks differs from the number of ticks by less than `2 * half`,
/// however many ticks there are.
pub proof fn lemma_duty_cycle_within_a_period(phase: u64, frequency: u64, half: nat, ticks: nat)
    requires
        half > 0,
        swept(frequency, half) == HALF_CYCLE,
    ensures
        ticks - 2 * half < 2 * asserted_ticks(phase, frequency, ticks) < ticks + 2 * half,
    decreases ticks,
{
    if ticks < 2 * half {
        lemma_asserted_ticks_bound(phase, frequency, 0, ticks);
    } else {
        let rest: nat = (ticks - 2 * half) as nat;
        lemma_duty_cycle_within_a_period(phase, frequency, half, rest);
        lemma_asserted_ticks_add(phase, frequency, 0, rest, 2 * half);
        lemma_full_period_is_balanced(phase, frequency, half, rest);
    }
}

/// The duty cycle: at a frequency that is no multiple of 1024 micro-hertz,
/// twice the number of asserted ticks differs from the number of ticks by
/// less than `2 * half_period`, however many ticks there are. The share of
/// asserted ticks is therefore within `half_period / ticks` of one half, and
/// tends to one half as the ticks go on.
///
/// At a multiple of 1024 micro-hertz the phase returns to its start after
/// an odd number of ticks, and the two levels cannot share them equally: at
/// frequency 0 the level never changes at all.
pub proof fn lemma_duty_cycle_is_half(phase: u64, frequency: u64, ticks: nat)
    requires
        frequency % 1024 != 0,
    ensures
        0 < half_period(frequency) <= 125_000_000_000,
        ticks - 2 * half_period(frequency) < 2 * asserted_ticks(phase, frequency, ticks) < ticks
            + 2 * half_period(frequency),
{
    lemma_half_period_sweeps_half_cycle(frequency);
    lemma_duty_cycle_within_a_period(phase, frequency, half_period(frequency), ticks);
}

/// The cursor after `ticks` ticks of its own.
pub open spec fn voice_after_ticks(notes: Seq<NoteInfo>, v: Voice, ticks: nat) -> Voice
    decreases ticks,
{
    if ticks == 0 {
        v
    } else {
        voice_after_tick(notes, voice_after_ticks(notes, v, (ticks - 1) as nat))
    }
}

/// While its note goes on, a cursor stays on it, gains a tick length of
/// elapsed time with every tick, and draws the wave of the note's
/// frequency.
pub proof fn lemma_held_note(notes: Seq<NoteInfo>, v: Voice, ticks: nat)
    requires
        v.note_index < notes.len(),
        v.microseconds + ticks * TICK_DURATION_MCS < notes[v.note_index as int].length_mcs,
    ensures
        voice_after_ticks(notes, v, ticks) == (Voice {
            note_index: v.note_index,
            microseconds: (v.microseconds + ticks * TICK_DURATION_MCS) as u64,
            phase: phase_after_ticks(v.phase, notes[v.note_index as int].frequency_mchz, ticks),
        }),
    decreases ticks,
{
    if ticks > 0 {
        assert((ticks - 1) * TICK_DURATION_MCS == ticks * TICK_DURATION_MCS - TICK_DURATION_MCS)
            by (nonlinear_arith);
        lemma_held_note(notes, v, (ticks - 1) as nat);
    } else {
        assert(ticks * TICK_DURATION_MCS == 0) by (nonlinear_arith)
            requires
                ticks == 0,
        ;
    }
}

/// Until a tick finds an exit marker, every voice ticks on its own: the
/// voices after `ticks` ticks are each voice after `ticks` ticks.
pub proof fn lemma_voices_tick_on_their_own(
    notes: Seq<NoteInfo>,
    voices: Seq<Voice>,
    ticks: nat,
    index: int,
)
    requires
        forall|k: nat| k < ticks ==> !tick_exits(notes, #[trigger] voices_after(notes, voices, k)),
        0 <= index < voices.len(),
    ensures
        voices_after(notes, voices, ticks).len() == voices.len(),
        voices_after(notes, voices, ticks)[index] == voice_after_ticks(
            notes,
            voices[index],
            ticks,
        ),
    decreases ticks,
{
    if ticks > 0 {
        lemma_voices_tick_on_their_own(notes, voices, (ticks - 1) as nat, index);
        assert(!tick_exits(notes, voices_after(notes, voices, (ticks - 1) as nat)));
    }
}

} // verus!
