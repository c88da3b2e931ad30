//! A tick-driven tone sequencer. Every voice of a song is a square wave
//! whose fixed-point phase is advanced once per tick and whose level is sent
//! to an actuator; a clock paces the ticks, and an exit marker in the song
//! ends the performance.
//!
//! - [`notes`]: notes, voice cursors, the tick, and the performance.
//! - [`songbuilder`]: compiles a score into the note array of a song.
//! - [`motor`]: the actuators.
//! - [`timer`]: the clocks.
//! - [`wave`]: why the square wave of a note is asserted half of the time.

pub mod motor;
pub mod notes;
pub mod songbuilder;
pub mod timer;
pub mod wave;
