//! Notes, voice cursors, and the tick that advances them.

use vstd::prelude::*;

use crate::motor::Motor;
use crate::timer::clock_after;
use crate::timer::clock_run;
use crate::timer::good_waits;
use crate::timer::lemma_good_waits_end_at_failure;
use crate::timer::ClockError;
use crate::timer::Timer;

verus! {

/// Ticks per second.
pub const TICK_FREQUENCY_HZ: u64 = 50000;

/// Length of one tick in microseconds.
pub const TICK_DURATION_MCS: u64 = 1000000 / TICK_FREQUENCY_HZ;

/// One full waveform cycle in phase units. A frequency in micro-hertz times a
/// duration in microseconds is a number of cycles scaled by this constant.
pub const CYCLE: u64 = 1_000_000_000_000;

/// Half a waveform cycle in phase units.
pub const HALF_CYCLE: u64 = 500_000_000_000;

/// One state of a voice's playback graph.
#[derive(Copy, Clone, Debug, PartialEq, Eq, Structural)]
pub struct NoteInfo {
    /// Index of the note that follows when this one has run its length.
    pub next_note_index: u32,
    /// The actuator that sounds this note.
    pub motor_id: u8,
    /// A cursor that stands on this note ends the whole performance.
    pub exit: bool,
    /// Frequency in micro-hertz; 0 is a rest.
    pub frequency_mchz: u64,
    /// Length in microseconds.
    pub length_mcs: u64,
    /// Whether arriving at this note jumps the phase by half a cycle.
    pub rearticulate: bool,
}

impl NoteInfo {
    /// The same note, entered without a phase jump.
    pub fn slur(self) -> (r: NoteInfo)
        ensures
            r == (NoteInfo { rearticulate: false, ..self }),
    {
        NoteInfo { rearticulate: false, ..self }
    }

    /// The same note, entered with a phase jump.
    pub fn kick(self) -> (r: NoteInfo)
        ensures
            r == (NoteInfo { rearticulate: true, ..self }),
    {
        NoteInfo { rearticulate: true, ..self }
    }

    /// The same note as a silence of equal length.
    pub fn rest(self) -> (r: NoteInfo)
        ensures
            r == (NoteInfo { frequency_mchz: 0, ..self }),
    {
        NoteInfo { frequency_mchz: 0, ..self }
    }

    /// The same note as an exit marker.
    pub fn exit(self) -> (r: NoteInfo)
        ensures
            r == (NoteInfo { exit: true, ..self }),
    {
        NoteInfo { exit: true, ..self }
    }
}

/// A legato note from a frequency in hundredths of a hertz and a length in
/// hundredths of a second.
pub fn note(next_note_index: u32, motor_id: u8, frequency: u32, length: u32) -> (r: NoteInfo)
    ensures
        r == (NoteInfo {
            next_note_index,
            motor_id,
            exit: false,
            frequency_mchz: (frequency * 10000) as u64,
            length_mcs: (length * 10000) as u64,
            rearticulate: false,
        }),
{
    NoteInfo {
        next_note_index,
        motor_id,
        exit: false,
        frequency_mchz: (frequency as u64) * 10000,
        length_mcs: (length as u64) * 10000,
        rearticulate: false,
    }
}

/// The playback cursor of one voice.
#[derive(Copy, Clone, Debug, PartialEq, Eq, Structural)]
pub struct Voice {
    /// The note being played.
    pub note_index: u32,
    /// Microseconds already spent on that note.
    pub microseconds: u64,
    /// Position within the waveform cycle.
    pub phase: u64,
}

/// A cursor at the start of the note `note_index`, half way through a cycle.
pub fn voice(note_index: u32) -> (v: Voice)
    ensures
        v == (Voice { note_index, microseconds: 0, phase: HALF_CYCLE }),
{
    Voice { note_index, microseconds: 0, phase: 500_000_000_000 }
}

/// The phase one tick later, at `frequency` micro-hertz.
pub open spec fn phase_after_tick(phase: u64, frequency: u64) -> u64 {
    ((phase + frequency * TICK_DURATION_MCS) % (CYCLE as int)) as u64
}

/// The phase half a cycle further on.
pub open spec fn phase_flipped(phase: u64) -> u64 {
    ((phase + HALF_CYCLE) % (CYCLE as int)) as u64
}

/// Whether the cursor stands on an exit marker.
pub open spec fn on_exit(notes: Seq<NoteInfo>, v: Voice) -> bool {
    v.note_index < notes.len() && notes[v.note_index as int].exit
}

/// Whether the voice's actuator is asserted during the coming tick: the
/// phase, once advanced, lies in the first half of the cycle.
pub open spec fn level_after_tick(notes: Seq<NoteInfo>, v: Voice) -> bool {
    phase_after_tick(v.phase, notes[v.note_index as int].frequency_mchz) < HALF_CYCLE
}

/// Whether the coming tick completes the voice's current note.
pub open spec fn note_ends(notes: Seq<NoteInfo>, v: Voice) -> bool {
    v.microseconds + TICK_DURATION_MCS >= notes[v.note_index as int].length_mcs
}

/// The cursor one tick later. The phase advances by frequency times tick
/// length. A note that has run its length is left for its successor, the
/// time beyond its length is carried over, and a rearticulated successor
/// starts half a cycle on.
pub open spec fn voice_after_tick(notes: Seq<NoteInfo>, v: Voice) -> Voice {
    let note = notes[v.note_index as int];
    let phase: u64 = phase_after_tick(v.phase, note.frequency_mchz);
    if note_ends(notes, v) {
        Voice {
            note_index: note.next_note_index,
            microseconds: (v.microseconds + TICK_DURATION_MCS - note.length_mcs) as u64,
            phase: if notes[note.next_note_index as int].rearticulate {
                phase_flipped(phase)
            } else {
                phase
            },
        }
    } else {
        Voice {
            note_index: v.note_index,
            microseconds: (v.microseconds + TICK_DURATION_MCS) as u64,
            phase,
        }
    }
}

/// Whether a tick of this cursor stays within the note array and leaves an
/// elapsed time that fits its field.
pub open spec fn cursor_can_tick(notes: Seq<NoteInfo>, v: Voice) -> bool {
    &&& v.note_index < notes.len()
    &&& note_ends(notes, v) ==> {
        &&& notes[v.note_index as int].next_note_index < notes.len()
        &&& v.microseconds + TICK_DURATION_MCS - notes[v.note_index as int].length_mcs <= u64::MAX
    }
}

/// Whether a tick of this voice is within bounds: the cursor can tick, and
/// its note addresses one of `motors` actuators.
pub open spec fn voice_can_tick(notes: Seq<NoteInfo>, v: Voice, motors: nat) -> bool {
    &&& cursor_can_tick(notes, v)
    &&& notes[v.note_index as int].motor_id < motors
}

impl Voice {
    /// Advance this voice by one tick and return the level for its actuator.
    pub fn tick(&mut self, notes: &Vec<NoteInfo>) -> (level: bool)
        requires
            cursor_can_tick(notes@, *old(self)),
        ensures
            *final(self) == voice_after_tick(notes@, *old(self)),
            level == level_after_tick(notes@, *old(self)),
            final(self).phase < CYCLE,
    {
        let note: NoteInfo = notes[self.note_index as usize];
        assert(0 <= note.frequency_mchz * TICK_DURATION_MCS <= 0xffff_ffff_ffff_ffff * 20)
            by (nonlinear_arith)
            requires
                TICK_DURATION_MCS == 20,
                0 <= note.frequency_mchz <= 0xffff_ffff_ffff_ffff,
        ;
        let increment: u128 = note.frequency_mchz as u128 * TICK_DURATION_MCS as u128;
        let phase: u64 = ((self.phase as u128 + increment) % (CYCLE as u128)) as u64;
        let level: bool = phase < HALF_CYCLE;
        self.phase = phase;

        let elapsed: u128 = self.microseconds as u128 + TICK_DURATION_MCS as u128;
        if elapsed >= note.length_mcs as u128 {
            self.note_index = note.next_note_index;
            self.microseconds = (elapsed - note.length_mcs as u128) as u64;
            if notes[self.note_index as usize].rearticulate {
                self.phase = (self.phase + HALF_CYCLE) % CYCLE;
            }
        } else {
            self.microseconds = elapsed as u64;
        }
        level
    }
}

/// The level and the phase of a tick depend on nothing but the phase before
/// it and the frequency of the note: cursors that agree on these are given
/// the same level and reach the same phase, whatever else differs between
/// them. Replaying the same frequencies from the same phase therefore
/// replays the same levels.
pub proof fn lemma_level_follows_phase_and_frequency(
    notes_a: Seq<NoteInfo>,
    a: Voice,
    notes_b: Seq<NoteInfo>,
    b: Voice,
)
    requires
        a.phase == b.phase,
        notes_a[a.note_index as int].frequency_mchz == notes_b[b.note_index as int].frequency_mchz,
    ensures
        level_after_tick(notes_a, a) == level_after_tick(notes_b, b),
        !note_ends(notes_a, a) && !note_ends(notes_b, b) ==> voice_after_tick(notes_a, a).phase
            == voice_after_tick(notes_b, b).phase,
{
}

/// A note that ends hands the time beyond its length to its successor: the
/// successor starts with the overshoot, and starts at zero only when the
/// note ended exactly on the tick.
pub proof fn lemma_transition_carries_overshoot(notes: Seq<NoteInfo>, v: Voice)
    requires
        cursor_can_tick(notes, v),
        note_ends(notes, v),
    ensures
        voice_after_tick(notes, v).note_index == notes[v.note_index as int].next_note_index,
        voice_after_tick(notes, v).microseconds == v.microseconds + TICK_DURATION_MCS
            - notes[v.note_index as int].length_mcs,
{
}

/// A note that goes on keeps its cursor on it and adds the tick to its
/// elapsed time.
pub proof fn lemma_held_note_gains_a_tick(notes: Seq<NoteInfo>, v: Voice)
    requires
        cursor_can_tick(notes, v),
        !note_ends(notes, v),
    ensures
        voice_after_tick(notes, v).note_index == v.note_index,
        voice_after_tick(notes, v).microseconds == v.microseconds + TICK_DURATION_MCS,
        voice_after_tick(notes, v).phase == phase_after_tick(
            v.phase,
            notes[v.note_index as int].frequency_mchz,
        ),
{
}

/// Where no note is shorter than a tick, the elapsed time stays below the
/// length of the note: a cursor that is within its note before a tick is
/// within its note, the same or the next, after it.
pub proof fn lemma_elapsed_stays_within_note(notes: Seq<NoteInfo>, v: Voice)
    requires
        cursor_can_tick(notes, v),
        v.microseconds < notes[v.note_index as int].length_mcs,
        notes[notes[v.note_index as int].next_note_index as int].length_mcs >= TICK_DURATION_MCS,
    ensures
        voice_after_tick(notes, v).microseconds < notes[voice_after_tick(
            notes,
            v,
        ).note_index as int].length_mcs,
{
}

/// Arriving at a rearticulated note moves the phase exactly half a cycle on,
/// which inverts the level; arriving at any other note leaves the phase as
/// the tick made it.
pub proof fn lemma_rearticulation_flips_phase(notes: Seq<NoteInfo>, v: Voice)
    requires
        cursor_can_tick(notes, v),
        note_ends(notes, v),
    ensures
        ({
            let note = notes[v.note_index as int];
            let advanced: u64 = phase_after_tick(v.phase, note.frequency_mchz);
            let after: u64 = voice_after_tick(notes, v).phase;
            if notes[note.next_note_index as int].rearticulate {
                &&& after == (advanced + HALF_CYCLE) % (CYCLE as int)
                &&& (after < HALF_CYCLE) == !(advanced < HALF_CYCLE)
            } else {
                after == advanced
            }
        }),
{
}

/// Index of the first voice at or after `from` that stands on an exit
/// marker; the number of voices if there is none.
pub open spec fn exit_index_from(notes: Seq<NoteInfo>, voices: Seq<Voice>, from: nat) -> nat
    decreases voices.len() - from,
{
    if from >= voices.len() {
        voices.len()
    } else if on_exit(notes, voices[from as int]) {
        from
    } else {
        exit_index_from(notes, voices, from + 1)
    }
}

/// Index of the first voice that stands on an exit marker; the number of
/// voices if there is none. A tick updates the voices before this index and
/// no other.
pub open spec fn exit_index(notes: Seq<NoteInfo>, voices: Seq<Voice>) -> nat {
    exit_index_from(notes, voices, 0)
}

/// Whether the coming tick finds a voice on an exit marker.
pub open spec fn tick_exits(notes: Seq<NoteInfo>, voices: Seq<Voice>) -> bool {
    exit_index(notes, voices) < voices.len()
}

/// Whether every voice that the coming tick updates is within bounds.
pub open spec fn tick_is_sound(notes: Seq<NoteInfo>, voices: Seq<Voice>, motors: nat) -> bool {
    forall|j: int|
        0 <= j < exit_index(notes, voices) ==> voice_can_tick(notes, #[trigger] voices[j], motors)
}

/// The voices one tick later: those before the first exit marker have
/// advanced, the others are as they were.
pub open spec fn voices_after_tick(notes: Seq<NoteInfo>, voices: Seq<Voice>) -> Seq<Voice> {
    Seq::new(
        voices.len(),
        |j: int|
            if j < exit_index(notes, voices) {
                voice_after_tick(notes, voices[j])
            } else {
                voices[j]
            },
    )
}

/// Whether every actuator is modelled.
pub open spec fn all_modelled<M: Motor>(pins: Seq<M>) -> bool {
    forall|i: int| 0 <= i < pins.len() ==> (#[trigger] pins[i]).modelled()
}

/// The actuator after one command: `advance` for an asserted level, `reset`
/// for a deasserted one.
pub open spec fn commanded<M: Motor>(pin: M, level: bool) -> M {
    if level {
        pin.advanced()
    } else {
        pin.released()
    }
}

/// The actuators once the first `upto` voices have each sent their level for
/// the coming tick to the actuator of their note, in voice order.
pub open spec fn pins_after_voices<M: Motor>(
    notes: Seq<NoteInfo>,
    voices: Seq<Voice>,
    pins: Seq<M>,
    upto: nat,
) -> Seq<M>
    decreases upto,
{
    if upto == 0 {
        pins
    } else {
        let before = pins_after_voices(notes, voices, pins, (upto - 1) as nat);
        let v = voices[upto - 1];
        let m: int = notes[v.note_index as int].motor_id as int;
        before.update(m, commanded(before[m], level_after_tick(notes, v)))
    }
}

/// The actuators one tick later.
pub open spec fn pins_after_tick<M: Motor>(
    notes: Seq<NoteInfo>,
    voices: Seq<Voice>,
    pins: Seq<M>,
) -> Seq<M> {
    pins_after_voices(notes, voices, pins, exit_index(notes, voices))
}

/// The first exit marker is where the voices before it stand on none and
/// the voice at it stands on one.
pub proof fn lemma_exit_index_is_first(notes: Seq<NoteInfo>, voices: Seq<Voice>, index: int)
    requires
        0 <= index <= voices.len(),
        forall|j: int| 0 <= j < index ==> !on_exit(notes, #[trigger] voices[j]),
        index < voices.len() ==> on_exit(notes, voices[index]),
    ensures
        exit_index(notes, voices) == index,
{
    lemma_exit_index_from_reaches(notes, voices, 0, index as nat);
}

/// Voices that stand on no exit marker are passed over in the search for
/// the first one.
proof fn lemma_exit_index_from_reaches(
    notes: Seq<NoteInfo>,
    voices: Seq<Voice>,
    from: nat,
    index: nat,
)
    requires
        from <= index <= voices.len(),
        forall|j: int| from <= j < index ==> !on_exit(notes, #[trigger] voices[j]),
        index < voices.len() ==> on_exit(notes, voices[index as int]),
    ensures
        exit_index_from(notes, voices, from) == index,
    decreases index - from,
{
    if from < index {
        lemma_exit_index_from_reaches(notes, voices, from + 1, index);
    }
}

/// The exit index is at most the number of voices, no voice before it
/// stands on an exit marker, and the voice at it does.
pub proof fn lemma_exit_index(notes: Seq<NoteInfo>, voices: Seq<Voice>)
    ensures
        exit_index(notes, voices) <= voices.len(),
        forall|j: int| 0 <= j < exit_index(notes, voices) ==> !on_exit(notes, #[trigger] voices[j]),
        tick_exits(notes, voices) ==> on_exit(notes, voices[exit_index(notes, voices) as int]),
{
    lemma_exit_index_from(notes, voices, 0);
}

/// From `from` on, no voice before the first exit marker stands on one, and
/// the voice at it does.
proof fn lemma_exit_index_from(notes: Seq<NoteInfo>, voices: Seq<Voice>, from: nat)
    requires
        from <= voices.len(),
    ensures
        from <= exit_index_from(notes, voices, from) <= voices.len(),
        forall|j: int|
            from <= j < exit_index_from(notes, voices, from) ==> !on_exit(
                notes,
                #[trigger] voices[j],
            ),
        exit_index_from(notes, voices, from) < voices.len() ==> on_exit(
            notes,
            voices[exit_index_from(notes, voices, from) as int],
        ),
    decreases voices.len() - from,
{
    if from < voices.len() && !on_exit(notes, voices[from as int]) {
        lemma_exit_index_from(notes, voices, from + 1);
    }
}

/// Exit propagation: when a voice stands on an exit marker and none before
/// it does, the tick ends the performance, has advanced the voices before
/// that one, and leaves that voice and every later one exactly as it was.
pub proof fn lemma_exit_stops_later_voices(notes: Seq<NoteInfo>, voices: Seq<Voice>, index: int)
    requires
        0 <= index < voices.len(),
        on_exit(notes, voices[index]),
        forall|j: int| 0 <= j < index ==> !on_exit(notes, #[trigger] voices[j]),
    ensures
        tick_exits(notes, voices),
        voices_after_tick(notes, voices).len() == voices.len(),
        forall|j: int|
            0 <= j < index ==> voices_after_tick(notes, voices)[j] == voice_after_tick(
                notes,
                #[trigger] voices[j],
            ),
        forall|j: int|
            index <= j < voices.len() ==> voices_after_tick(notes, voices)[j]
                == #[trigger] voices[j],
{
    lemma_exit_index_is_first(notes, voices, index);
}

/// Run one tick: in ascending voice order, stop at the first voice that
/// stands on an exit marker, and until then advance each voice and send its
/// level to the actuator of its note. Returns whether an exit marker was
/// found.
pub fn tick<M: Motor>(pins: &mut Vec<M>, notes: &Vec<NoteInfo>, voices: &mut Vec<Voice>) -> (exited:
    bool)
    requires
        tick_is_sound(notes@, old(voices)@, old(pins)@.len()),
    ensures
        exited == tick_exits(notes@, old(voices)@),
        final(voices)@ == voices_after_tick(notes@, old(voices)@),
        final(voices)@.len() == old(voices)@.len(),
        final(pins)@.len() == old(pins)@.len(),
        all_modelled(old(pins)@) ==> all_modelled(final(pins)@) && final(pins)@ == pins_after_tick(
            notes@,
            old(voices)@,
            old(pins)@,
        ),
{
    let ghost before = voices@;
    let ghost pins_before = pins@;
    let mut i: usize = 0;
    while i < voices.len()
        invariant
            before == old(voices)@,
            pins_before == old(pins)@,
            i <= voices.len(),
            voices@.len() == before.len(),
            pins@.len() == pins_before.len(),
            tick_is_sound(notes@, before, pins_before.len()),
            exit_index(notes@, before) == exit_index_from(notes@, before, i as nat),
            i <= exit_index(notes@, before),
            forall|j: int| 0 <= j < i ==> voices@[j] == voice_after_tick(notes@, before[j]),
            forall|j: int| i <= j < before.len() ==> voices@[j] == before[j],
            all_modelled(pins_before) ==> all_modelled(pins@) && pins@ == pins_after_voices(
                notes@,
                before,
                pins_before,
                i as nat,
            ),
        decreases voices.len() - i,
    {
        proof {
            lemma_exit_index_from(notes@, before, (i + 1) as nat);
            if !on_exit(notes@, before[i as int]) {
                assert(voice_can_tick(notes@, before[i as int], pins_before.len()));
            }
        }
        let note: NoteInfo = notes[voices[i].note_index as usize];
        if note.exit {
            proof {
                assert(voices@ =~= voices_after_tick(notes@, before));
            }
            return true;
        }
        let level: bool = voices[i].tick(notes);
        if level {
            pins[note.motor_id as usize].advance();
        } else {
            pins[note.motor_id as usize].reset();
        }
        i += 1;
    }
    proof {
        assert(voices@ =~= voices_after_tick(notes@, before));
    }
    false
}

/// The voices after `ticks` ticks.
pub open spec fn voices_after(notes: Seq<NoteInfo>, voices: Seq<Voice>, ticks: nat) -> Seq<Voice>
    decreases ticks,
{
    if ticks == 0 {
        voices
    } else {
        voices_after_tick(notes, voices_after(notes, voices, (ticks - 1) as nat))
    }
}

/// The actuators after `ticks` ticks.
pub open spec fn pins_after<M: Motor>(
    notes: Seq<NoteInfo>,
    voices: Seq<Voice>,
    pins: Seq<M>,
    ticks: nat,
) -> Seq<M>
    decreases ticks,
{
    if ticks == 0 {
        pins
    } else {
        pins_after_tick(
            notes,
            voices_after(notes, voices, (ticks - 1) as nat),
            pins_after(notes, voices, pins, (ticks - 1) as nat),
        )
    }
}

/// Every actuator after `reset`.
pub open spec fn all_released<M: Motor>(pins: Seq<M>) -> Seq<M> {
    Seq::new(pins.len(), |i: int| pins[i].released())
}

/// Whether the performance runs `ticks` full ticks and ends on the tick after
/// them: that tick is the first to find a voice on an exit marker.
pub open spec fn ends_after(notes: Seq<NoteInfo>, voices: Seq<Voice>, ticks: nat) -> bool {
    &&& tick_exits(notes, voices_after(notes, voices, ticks))
    &&& forall|k: nat| k < ticks ==> !tick_exits(notes, #[trigger] voices_after(notes, voices, k))
}

/// Whether every tick up to and including the one after `ticks` full ticks
/// is within bounds.
pub open spec fn sound_through(
    notes: Seq<NoteInfo>,
    voices: Seq<Voice>,
    motors: nat,
    ticks: nat,
) -> bool {
    forall|k: nat|
        k <= ticks ==> tick_is_sound(notes, #[trigger] voices_after(notes, voices, k), motors)
}

/// Whether the performance is well defined and finite: it ends after `ticks`
/// full ticks, and until then no tick leaves the note array, addresses an
/// actuator that is not there, or overflows an elapsed time.
pub open spec fn plays_out(
    notes: Seq<NoteInfo>,
    voices: Seq<Voice>,
    motors: nat,
    ticks: nat,
) -> bool {
    ends_after(notes, voices, ticks) && sound_through(notes, voices, motors, ticks)
}

/// The number of full ticks of a performance that plays out.
pub open spec fn performance_ticks(notes: Seq<NoteInfo>, voices: Seq<Voice>, motors: nat) -> nat {
    choose|ticks: nat| plays_out(notes, voices, motors, ticks)
}

/// A performance ends at one tick only.
pub proof fn lemma_performance_ticks_unique(
    notes: Seq<NoteInfo>,
    voices: Seq<Voice>,
    motors: nat,
    ticks: nat,
)
    requires
        plays_out(notes, voices, motors, ticks),
    ensures
        performance_ticks(notes, voices, motors) == ticks,
{
    let chosen: nat = performance_ticks(notes, voices, motors);
    assert(plays_out(notes, voices, motors, chosen));
    assert(tick_exits(notes, voices_after(notes, voices, chosen)));
    assert(tick_exits(notes, voices_after(notes, voices, ticks)));
}

/// The tick that ends a performance leaves the voice on the exit marker,
/// and every voice after it, as the tick before left them.
pub proof fn lemma_last_tick_stops_at_exit(notes: Seq<NoteInfo>, voices: Seq<Voice>, ticks: nat)
    requires
        ends_after(notes, voices, ticks),
    ensures
        ({
            let before = voices_after(notes, voices, ticks);
            let after = voices_after(notes, voices, ticks + 1);
            let index: int = exit_index(notes, before) as int;
            &&& index < before.len()
            &&& on_exit(notes, before[index])
            &&& after.len() == before.len()
            &&& forall|j: int| index <= j < before.len() ==> after[j] == #[trigger] before[j]
        }),
{
    lemma_exit_index(notes, voices_after(notes, voices, ticks));
}

/// Whether every cursor stands on a note of the array, and every note that
/// is no exit marker names a successor in the array and one of `motors`
/// actuators.
pub open spec fn song_in_range(notes: Seq<NoteInfo>, voices: Seq<Voice>, motors: nat) -> bool {
    &&& forall|v: int| 0 <= v < voices.len() ==> (#[trigger] voices[v]).note_index < notes.len()
    &&& forall|i: int|
        0 <= i < notes.len() && !(#[trigger] notes[i]).exit ==> {
            &&& notes[i].next_note_index < notes.len()
            &&& notes[i].motor_id < motors
        }
}

/// Check once, before playing, that the indices of a song are in range.
pub fn check_song(notes: &Vec<NoteInfo>, voices: &Vec<Voice>, motors: usize) -> (ok: bool)
    ensures
        ok == song_in_range(notes@, voices@, motors as nat),
{
    let mut v: usize = 0;
    while v < voices.len()
        invariant
            v <= voices.len(),
            forall|j: int| 0 <= j < v ==> (#[trigger] voices@[j]).note_index < notes@.len(),
        decreases voices.len() - v,
    {
        if voices[v].note_index as usize >= notes.len() {
            return false;
        }
        v += 1;
    }
    let mut i: usize = 0;
    while i < notes.len()
        invariant
            i <= notes.len(),
            forall|j: int|
                0 <= j < i && !(#[trigger] notes@[j]).exit ==> {
                    &&& notes@[j].next_note_index < notes@.len()
                    &&& notes@[j].motor_id < motors
                },
        decreases notes.len() - i,
    {
        let note: NoteInfo = notes[i];
        if !note.exit && (note.next_note_index as usize >= notes.len() || note.motor_id as usize
            >= motors) {
            return false;
        }
        i += 1;
    }
    true
}

/// Whether every voice can take `ticks` more ticks without its elapsed time
/// leaving 64 bits, however short its notes are.
pub open spec fn elapsed_has_room(voices: Seq<Voice>, ticks: nat) -> bool {
    forall|v: int|
        0 <= v < voices.len() ==> (#[trigger] voices[v]).microseconds + ticks * TICK_DURATION_MCS
            <= u64::MAX
}

/// A tick of a song whose indices are in range is within bounds, keeps the
/// indices in range, and adds at most one tick to any elapsed time.
proof fn lemma_checked_tick(notes: Seq<NoteInfo>, voices: Seq<Voice>, motors: nat, room: nat)
    requires
        song_in_range(notes, voices, motors),
        elapsed_has_room(voices, room + 1),
    ensures
        tick_is_sound(notes, voices, motors),
        song_in_range(notes, voices_after_tick(notes, voices), motors),
        elapsed_has_room(voices_after_tick(notes, voices), room),
{
    lemma_exit_index(notes, voices);
    let after = voices_after_tick(notes, voices);
    assert forall|j: int| 0 <= j < exit_index(notes, voices) implies voice_can_tick(
        notes,
        #[trigger] voices[j],
        motors,
    ) by {
        assert(!on_exit(notes, voices[j]));
    }
    assert forall|v: int| 0 <= v < after.len() implies (#[trigger] after[v]).note_index
        < notes.len() && after[v].microseconds + room * TICK_DURATION_MCS <= u64::MAX by {
        assert(voices[v].note_index < notes.len());
        if v < exit_index(notes, voices) {
            assert(!on_exit(notes, voices[v]));
            assert(voice_can_tick(notes, voices[v], motors));
        }
    }
}

/// A song whose indices are in range plays within bounds for as many ticks
/// as its elapsed times have room for.
pub proof fn lemma_checked_song_is_sound(
    notes: Seq<NoteInfo>,
    voices: Seq<Voice>,
    motors: nat,
    ticks: nat,
)
    requires
        song_in_range(notes, voices, motors),
        elapsed_has_room(voices, ticks + 1),
    ensures
        sound_through(notes, voices, motors, ticks),
{
    assert forall|k: nat| k <= ticks implies tick_is_sound(
        notes,
        #[trigger] voices_after(notes, voices, k),
        motors,
    ) by {
        lemma_checked_song_stays_in_range(notes, voices, motors, ticks, k);
        lemma_checked_tick(notes, voices_after(notes, voices, k), motors, (ticks - k) as nat);
    }
}

/// After `done` of the ticks that its elapsed times have room for, a song
/// whose indices are in range still has them in range, and has room for the
/// ticks that remain.
proof fn lemma_checked_song_stays_in_range(
    notes: Seq<NoteInfo>,
    voices: Seq<Voice>,
    motors: nat,
    ticks: nat,
    done: nat,
)
    requires
        song_in_range(notes, voices, motors),
        elapsed_has_room(voices, ticks + 1),
        done <= ticks,
    ensures
        song_in_range(notes, voices_after(notes, voices, done), motors),
        elapsed_has_room(voices_after(notes, voices, done), (ticks + 1 - done) as nat),
    decreases done,
{
    if done > 0 {
        lemma_checked_song_stays_in_range(notes, voices, motors, ticks, (done - 1) as nat);
        lemma_checked_tick(
            notes,
            voices_after(notes, voices, (done - 1) as nat),
            motors,
            (ticks + 1 - done) as nat,
        );
    }
}

/// Run one tick on the cursors alone, checking each step before it is
/// taken. `None` says that the tick is not within bounds; otherwise the
/// result says whether the tick found an exit marker, and a tick that found
/// none has advanced every cursor.
fn rehearse_tick(notes: &Vec<NoteInfo>, voices: &mut Vec<Voice>, motors: usize) -> (r: Option<bool>)
    ensures
        r is Some <==> tick_is_sound(notes@, old(voices)@, motors as nat),
        r matches Some(exited) ==> exited == tick_exits(notes@, old(voices)@),
        r == Some(false) ==> final(voices)@ == voices_after_tick(notes@, old(voices)@),
        final(voices)@.len() == old(voices)@.len(),
{
    let ghost before = voices@;
    let mut i: usize = 0;
    while i < voices.len()
        invariant
            before == old(voices)@,
            i <= voices.len(),
            voices@.len() == before.len(),
            exit_index(notes@, before) == exit_index_from(notes@, before, i as nat),
            i <= exit_index(notes@, before),
            forall|j: int| 0 <= j < i ==> voice_can_tick(notes@, #[trigger] before[j], motors as nat),
            forall|j: int| 0 <= j < i ==> voices@[j] == voice_after_tick(notes@, before[j]),
            forall|j: int| i <= j < before.len() ==> voices@[j] == before[j],
        decreases voices.len() - i,
    {
        proof {
            lemma_exit_index_from(notes@, before, (i + 1) as nat);
        }
        let cursor: Voice = voices[i];
        if cursor.note_index as usize >= notes.len() {
            assert(!voice_can_tick(notes@, before[i as int], motors as nat));
            return None;
        }
        let note: NoteInfo = notes[cursor.note_index as usize];
        if note.exit {
            return Some(true);
        }
        let ends: bool = cursor.microseconds as u128 + TICK_DURATION_MCS as u128
            >= note.length_mcs as u128;
        if note.motor_id as usize >= motors || (ends && (note.next_note_index as usize
            >= notes.len() || cursor.microseconds as u128 + TICK_DURATION_MCS as u128
            - note.length_mcs as u128 > u64::MAX as u128)) {
            assert(!voice_can_tick(notes@, before[i as int], motors as nat));
            return None;
        }
        let _ = voices[i].tick(notes);
        i += 1;
    }
    proof {
        assert(voices@ =~= voices_after_tick(notes@, before));
    }
    Some(false)
}

/// Go through a performance without clock or actuators, for at most
/// `max_ticks` full ticks, and return the number of full ticks after which
/// it ends. `None` says that it does not play out within that many ticks:
/// some tick is not within bounds, or no exit marker is found in time.
pub fn rehearse(notes: &Vec<NoteInfo>, voices: &Vec<Voice>, motors: usize, max_ticks: u64) -> (r:
    Option<u64>)
    ensures
        match r {
            Some(ticks) => ticks <= max_ticks && plays_out(
                notes@,
                voices@,
                motors as nat,
                ticks as nat,
            ),
            None => forall|ticks: nat|
                ticks <= max_ticks ==> !plays_out(notes@, voices@, motors as nat, ticks),
        },
{
    let mut cursors: Vec<Voice> = Vec::new();
    let mut i: usize = 0;
    while i < voices.len()
        invariant
            i <= voices.len(),
            cursors@ == voices@.take(i as int),
        decreases voices.len() - i,
    {
        cursors.push(voices[i]);
        assert(cursors@ =~= voices@.take(i + 1));
        i += 1;
    }
    assert(cursors@ =~= voices@);

    let mut done: u64 = 0;
    loop
        invariant
            done <= max_ticks,
            cursors@ == voices_after(notes@, voices@, done as nat),
            forall|k: nat|
                k < done ==> !tick_exits(notes@, #[trigger] voices_after(notes@, voices@, k)),
            forall|k: nat|
                k < done ==> tick_is_sound(
                    notes@,
                    #[trigger] voices_after(notes@, voices@, k),
                    motors as nat,
                ),
        decreases max_ticks - done,
    {
        match rehearse_tick(notes, &mut cursors, motors) {
            None => {
                return None;
            },
            Some(true) => {
                return Some(done);
            },
            Some(false) => {},
        }
        if done == max_ticks {
            return None;
        }
        done += 1;
    }
}

/// Whether the voices and the actuators are what `played` ticks make of
/// those before the performance. Of actuators that are not modelled nothing
/// is said.
pub open spec fn performed<M: Motor>(
    notes: Seq<NoteInfo>,
    voices_before: Seq<Voice>,
    pins_before: Seq<M>,
    voices: Seq<Voice>,
    pins: Seq<M>,
    played: nat,
) -> bool {
    &&& voices == voices_after(notes, voices_before, played)
    &&& all_modelled(pins_before) ==> pins == pins_after(
        notes,
        voices_before,
        all_released(pins_before),
        played,
    )
}

/// Play the song. Every actuator is reset, then the clock. After that each
/// round waits one tick length on the clock and runs one tick, until a tick
/// finds a voice on an exit marker. A clock that fails ends the performance
/// at once, with its error.
///
/// The song has to play out: it must reach an exit marker, and stay within
/// bounds until it does. [`rehearse`] finds out whether it does.
pub fn play_note_info_array<M: Motor, T: Timer>(
    pins: &mut Vec<M>,
    notes: &Vec<NoteInfo>,
    voices: &mut Vec<Voice>,
    timer: &mut T,
) -> (r: Result<(), ClockError>)
    requires
        exists|ticks: nat| plays_out(notes@, old(voices)@, old(pins)@.len(), ticks),
    ensures
        final(voices)@.len() == old(voices)@.len(),
        final(pins)@.len() == old(pins)@.len(),
        old(timer).never_fails() ==> r is Ok,
        r is Ok ==> performed(
            notes@,
            old(voices)@,
            old(pins)@,
            final(voices)@,
            final(pins)@,
            performance_ticks(notes@, old(voices)@, old(pins)@.len()) + 1,
        ),
        r is Err ==> exists|done: nat|
            done <= performance_ticks(notes@, old(voices)@, old(pins)@.len()) && #[trigger] performed(
                notes@,
                old(voices)@,
                old(pins)@,
                final(voices)@,
                final(pins)@,
                done,
            ),
        old(timer).modelled() ==> {
            let run = clock_run(
                *old(timer),
                TICK_DURATION_MCS,
                performance_ticks(notes@, old(voices)@, old(pins)@.len()) + 1,
            );
            &&& r == run.result
            &&& *final(timer) == run.timer
            &&& performed(
                notes@,
                old(voices)@,
                old(pins)@,
                final(voices)@,
                final(pins)@,
                run.good,
            )
        },
{
    let ghost start = voices@;
    let ghost pins_before = pins@;
    let ghost motors: nat = pins@.len();
    let ghost total: nat = performance_ticks(notes@, start, motors);
    let ghost released = all_released(pins@);
    let ghost clock_before = *timer;
    let ghost clock = clock_before.reset_done().1;

    let mut i: usize = 0;
    while i < pins.len()
        invariant
            i <= pins.len(),
            pins_before == old(pins)@,
            pins@.len() == pins_before.len(),
            all_modelled(pins_before) ==> all_modelled(pins@),
            all_modelled(pins_before) ==> forall|j: int|
                0 <= j < i ==> pins@[j] == pins_before[j].released(),
            forall|j: int| i <= j < pins@.len() ==> pins@[j] == pins_before[j],
        decreases pins.len() - i,
    {
        pins[i].reset();
        i += 1;
    }
    assert(all_modelled(pins_before) ==> pins@ =~= released);
    assert(plays_out(notes@, start, motors, total));

    match timer.reset() {
        Err(e) => {
            assert(performed(notes@, start, pins_before, voices@, pins@, 0));
            return Err(e);
        },
        Ok(()) => {},
    }

    let ghost mut done: nat = 0;
    loop
        invariant
            start == old(voices)@,
            pins_before == old(pins)@,
            motors == pins_before.len(),
            released == all_released(pins_before),
            clock_before == *old(timer),
            clock == clock_before.reset_done().1,
            total == performance_ticks(notes@, start, motors),
            plays_out(notes@, start, motors, total),
            clock_before.never_fails() ==> timer.never_fails(),
            clock_before.modelled() ==> {
                &&& timer.modelled()
                &&& clock_before.reset_done().0 is Ok
                &&& good_waits(clock, TICK_DURATION_MCS, done) == done
                &&& *timer == clock_after(clock, TICK_DURATION_MCS, done)
            },
            done <= total,
            voices@ == voices_after(notes@, start, done),
            voices@.len() == start.len(),
            all_modelled(pins_before) ==> all_modelled(pins@) && pins@ == pins_after(
                notes@,
                start,
                released,
                done,
            ),
            pins@.len() == motors,
        decreases total - done,
    {
        match timer.wait_microseconds(TICK_DURATION_MCS) {
            Err(e) => {
                proof {
                    assert(performed(notes@, start, pins_before, voices@, pins@, done));
                    if clock_before.modelled() {
                        lemma_good_waits_end_at_failure(
                            clock,
                            TICK_DURATION_MCS,
                            done,
                            total + 1,
                        );
                    }
                }
                return Err(e);
            },
            Ok(()) => {},
        }
        let exited: bool = tick(pins, notes, voices);
        proof {
            done = done + 1;
        }
        if exited {
            assert(done == total + 1);
            return Ok(());
        }
    }
}

} // verus!
