//! Compiles a score, written as "append this note to that voice", into a
//! note array in which every voice is a chain of indices.

use vstd::prelude::*;

use crate::notes::lemma_checked_song_is_sound;
use crate::notes::song_in_range;
use crate::notes::sound_through;
use crate::notes::voice;
use crate::notes::NoteInfo;
use crate::notes::Voice;
use crate::notes::HALF_CYCLE;
use crate::notes::TICK_DURATION_MCS;

verus! {

/// Where a voice begins and where it currently ends.
#[derive(Copy, Clone, Debug, PartialEq, Eq, Structural)]
pub struct VoiceInfo {
    /// Index of the first note of the voice: its entry point.
    pub first_note_index: u32,
    /// Index of the note most recently appended to the voice.
    pub last_note_index: u32,
}

/// A song under construction.
pub struct SongBuilder {
    /// The notes of all voices, in the order in which they were appended.
    pub notes: Vec<NoteInfo>,
    /// One entry per voice, by voice id.
    pub voices: Vec<VoiceInfo>,
}

/// The mathematical content of a [`SongBuilder`].
pub struct Song {
    /// The notes of all voices, in the order in which they were appended.
    pub notes: Seq<NoteInfo>,
    /// One entry per voice, by voice id.
    pub voices: Seq<VoiceInfo>,
}

impl Song {
    /// The song without notes or voices.
    pub open spec fn empty() -> Song {
        Song { notes: Seq::empty(), voices: Seq::empty() }
    }

    /// Whether `voice` may receive a note: it is a voice of the song, or the
    /// next one to be introduced.
    pub open spec fn accepts(self, voice: u8) -> bool {
        voice <= self.voices.len()
    }

    /// Whether every voice ends on a note of the song.
    pub open spec fn wf(self) -> bool {
        forall|v: int|
            0 <= v < self.voices.len() ==> (#[trigger] self.voices[v]).last_note_index
                < self.notes.len()
    }

    /// The song with `note` appended to `voice`. The note is bound to the
    /// actuator of the same number as the voice. It becomes the entry point
    /// of a new voice, and the successor of the last note of an old one.
    pub open spec fn added(self, voice: u8, note: NoteInfo) -> Song {
        let index: u32 = self.notes.len() as u32;
        let placed = NoteInfo { motor_id: voice, ..note };
        if voice == self.voices.len() {
            Song {
                notes: self.notes.push(placed),
                voices: self.voices.push(
                    VoiceInfo { first_note_index: index, last_note_index: index },
                ),
            }
        } else {
            let last: int = self.voices[voice as int].last_note_index as int;
            Song {
                notes: self.notes.update(
                    last,
                    NoteInfo { next_note_index: index, ..self.notes[last] },
                ).push(placed),
                voices: self.voices.update(
                    voice as int,
                    VoiceInfo {
                        first_note_index: self.voices[voice as int].first_note_index,
                        last_note_index: index,
                    },
                ),
            }
        }
    }

    /// The voice that note `i` belongs to.
    pub open spec fn voice_of(self, i: int) -> int {
        self.notes[i].motor_id as int
    }

    /// Whether note `i` names as its successor the next note of its own
    /// voice: a later note of that voice, with none of that voice between.
    pub open spec fn links(self, i: int) -> bool {
        let next: int = self.notes[i].next_note_index as int;
        &&& i < next < self.notes.len()
        &&& self.voice_of(next) == self.voice_of(i)
        &&& forall|j: int| i < j < next ==> #[trigger] self.voice_of(j) != self.voice_of(i)
    }

    /// Whether the song is what appending builds: every note belongs to a
    /// voice; every voice begins and ends on notes of its own, with all its
    /// notes between them; and every note but the last of its voice names
    /// the next note of its voice as its successor. The last note of a voice
    /// names what its author wrote.
    pub open spec fn chained(self) -> bool {
        &&& self.voices.len() <= 256
        &&& forall|v: int|
            0 <= v < self.voices.len() ==> {
                let info = #[trigger] self.voices[v];
                &&& info.first_note_index <= info.last_note_index < self.notes.len()
                &&& self.voice_of(info.first_note_index as int) == v
                &&& self.voice_of(info.last_note_index as int) == v
            }
        &&& forall|i: int|
            0 <= i < self.notes.len() ==> {
                let v: int = #[trigger] self.voice_of(i);
                &&& 0 <= v < self.voices.len()
                &&& self.voices[v].first_note_index <= i <= self.voices[v].last_note_index
                &&& i != self.voices[v].last_note_index ==> self.links(i)
            }
    }

    /// One cursor per voice, at the start of its entry note.
    pub open spec fn cursors(self) -> Seq<Voice> {
        Seq::new(
            self.voices.len(),
            |v: int|
                Voice {
                    note_index: self.voices[v].first_note_index,
                    microseconds: 0,
                    phase: HALF_CYCLE,
                },
        )
    }

    /// Whether every voice ends on an exit marker or on a note whose
    /// successor is a note of the song.
    pub open spec fn closed(self) -> bool {
        forall|v: int|
            0 <= v < self.voices.len() ==> {
                let last = self.notes[(#[trigger] self.voices[v]).last_note_index as int];
                last.exit || last.next_note_index < self.notes.len()
            }
    }
}

/// A chained song whose voices are closed can be played on as many
/// actuators as it has voices: its cursors and all its indices are in
/// range.
pub proof fn lemma_closed_song_is_in_range(song: Song)
    requires
        song.chained(),
        song.closed(),
    ensures
        song_in_range(song.notes, song.cursors(), song.voices.len()),
{
    assert forall|i: int| 0 <= i < song.notes.len() && !(#[trigger] song.notes[i]).exit implies {
        &&& song.notes[i].next_note_index < song.notes.len()
        &&& song.notes[i].motor_id < song.voices.len()
    } by {
        let v: int = song.voice_of(i);
        if i != song.voices[v].last_note_index {
            assert(song.links(i));
        }
    }
}

/// A chained song whose voices are closed plays within bounds from its
/// entry points, on as many actuators as it has voices, for any number of
/// ticks whose total length fits 64 bits of microseconds.
pub proof fn lemma_closed_song_is_sound(song: Song, ticks: nat)
    requires
        song.chained(),
        song.closed(),
        (ticks + 1) * TICK_DURATION_MCS <= u64::MAX,
    ensures
        sound_through(song.notes, song.cursors(), song.voices.len(), ticks),
{
    lemma_closed_song_is_in_range(song);
    lemma_checked_song_is_sound(song.notes, song.cursors(), song.voices.len(), ticks);
}

/// Appending to the empty song the notes `a` to voice 0, `b` to voice 1 and
/// `c` to voice 0 gives three notes and two voices. Voice 0 enters at `a`,
/// whose successor has become `c`; voice 1 enters at `b`, whose successor is
/// still what its author wrote. Each note is bound to the actuator of its
/// voice and is otherwise as given.
pub proof fn lemma_appended_note_is_linked(a: NoteInfo, b: NoteInfo, c: NoteInfo)
    ensures
        ({
            let song = Song::empty().added(0, a).added(1, b).added(0, c);
            &&& song.notes.len() == 3
            &&& song.voices.len() == 2
            &&& song.voices[0].first_note_index == 0
            &&& song.voices[1].first_note_index == 1
            &&& song.notes[0] == (NoteInfo { next_note_index: 2, motor_id: 0, ..a })
            &&& song.notes[1] == (NoteInfo { motor_id: 1, ..b })
            &&& song.notes[2] == (NoteInfo { motor_id: 0, ..c })
        }),
{
}

/// Appending keeps a song chained. The empty song is chained, so every song
/// that a builder has made by appending is.
pub proof fn lemma_added_stays_chained(song: Song, voice: u8, note: NoteInfo)
    requires
        song.chained(),
        song.accepts(voice),
        song.notes.len() <= u32::MAX,
    ensures
        song.added(voice, note).chained(),
{
    let after = song.added(voice, note);
    let index: int = song.notes.len() as int;
    assert forall|i: int| 0 <= i < index implies after.voice_of(i) == #[trigger] song.voice_of(i) by {}
    assert(after.voice_of(index) == voice);
    assert forall|v: int| 0 <= v < after.voices.len() implies {
        let info = #[trigger] after.voices[v];
        &&& info.first_note_index <= info.last_note_index < after.notes.len()
        &&& after.voice_of(info.first_note_index as int) == v
        &&& after.voice_of(info.last_note_index as int) == v
    } by {
        if v < song.voices.len() {
            let before = song.voices[v];
            assert(song.voice_of(before.first_note_index as int) == v);
            assert(song.voice_of(before.last_note_index as int) == v);
        }
    }
    assert forall|i: int| 0 <= i < after.notes.len() implies {
        let v: int = #[trigger] after.voice_of(i);
        &&& 0 <= v < after.voices.len()
        &&& after.voices[v].first_note_index <= i <= after.voices[v].last_note_index
        &&& i != after.voices[v].last_note_index ==> after.links(i)
    } by {
        if i < index {
            let v: int = song.voice_of(i);
            assert(after.voice_of(i) == v);
            if v == voice && i == song.voices[v].last_note_index {
                assert forall|j: int| i < j < index implies #[trigger] after.voice_of(j)
                    != after.voice_of(i) by {
                    assert(song.voice_of(j) == after.voice_of(j));
                }
                assert(after.links(i));
            } else if i != song.voices[v].last_note_index {
                assert(song.links(i));
                let next: int = song.notes[i].next_note_index as int;
                assert(after.notes[i].next_note_index == next);
                assert(after.voice_of(next) == song.voice_of(next));
                assert forall|j: int| i < j < next implies #[trigger] after.voice_of(j)
                    != after.voice_of(i) by {
                    assert(song.voice_of(j) == after.voice_of(j));
                }
                assert(after.links(i));
            }
        }
    }
}

impl View for SongBuilder {
    type V = Song;

    open spec fn view(&self) -> Song {
        Song { notes: self.notes@, voices: self.voices@ }
    }
}

impl SongBuilder {
    /// A builder without notes or voices.
    pub fn new() -> (b: SongBuilder)
        ensures
            b@ == Song::empty(),
            b@.wf(),
            b@.chained(),
    {
        SongBuilder { notes: Vec::<NoteInfo>::new(), voices: Vec::<VoiceInfo>::new() }
    }

    /// One cursor per voice, at the start of its entry note.
    pub fn cursors(&self) -> (cursors: Vec<Voice>)
        ensures
            cursors@ == self@.cursors(),
    {
        let mut cursors: Vec<Voice> = Vec::new();
        let mut v: usize = 0;
        while v < self.voices.len()
            invariant
                v <= self.voices.len(),
                cursors@ == self@.cursors().take(v as int),
            decreases self.voices.len() - v,
        {
            cursors.push(voice(self.voices[v].first_note_index));
            assert(cursors@ =~= self@.cursors().take(v + 1));
            v += 1;
        }
        assert(cursors@ =~= self@.cursors());
        cursors
    }

    /// Append `note` to `voice`, which is a voice of the song or the next
    /// one to be introduced.
    pub fn add(&mut self, voice: u8, note: NoteInfo)
        requires
            old(self)@.wf(),
            old(self)@.accepts(voice),
            old(self)@.notes.len() <= u32::MAX,
        ensures
            final(self)@ == old(self)@.added(voice, note),
            final(self)@.wf(),
            old(self)@.chained() ==> final(self)@.chained(),
    {
        let new_note_index: u32 = self.notes.len() as u32;

        let new_voice: bool = voice as usize == self.voices.len();

        if new_voice {
            let new_voice = VoiceInfo {
                first_note_index: new_note_index,
                last_note_index: new_note_index,
            };

            self.voices.push(new_voice);
        }

        let last_note_index: u32 = self.voices[voice as usize].last_note_index;

        if !new_voice {
            self.notes[last_note_index as usize].next_note_index = new_note_index;
        }

        self.notes.push(NoteInfo { motor_id: voice, ..note });

        self.voices[voice as usize].last_note_index = new_note_index;

        proof {
            let song = old(self)@.added(voice, note);
            assert(self.notes@ =~= song.notes);
            assert(self.voices@ =~= song.voices);
            if old(self)@.chained() {
                lemma_added_stays_chained(old(self)@, voice, note);
            }
        }
    }
}

} // verus!
