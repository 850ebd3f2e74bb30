//! A beat-synchronised sequencer core.
//!
//! The crate holds the decisions of a groovebox: when a tick is due, which
//! patterns fire on it, what each of them asks of the audio and MIDI outputs,
//! and how the pattern and asset collections are kept. Clocks, threads, audio
//! devices and MIDI ports stay with the caller; every quantity that crosses
//! the boundary is an integer:
//!
//! * positions on the beat grid are counted in steps (`steps_per_beat` to a
//!   beat) and in ticks (`ticks_per_beat` to a beat),
//! * wall-clock time is counted in microseconds,
//! * velocities and durations are counted in thousandths.
//!
//! The modules, leaves first:
//!
//! * [`timing`]: tempo, grid and the drift-corrected schedule of ticks;
//! * [`model`]: patterns and their triggers;
//! * [`config`]: the settings;
//! * [`assets`]: the samples and loops, by label;
//! * [`chunks`]: which bytes can be handed to the MIDI decoder;
//! * [`midi`]: patterns from the notes of a MIDI file;
//! * [`generate`]: the built-in patterns, and all patterns put together;
//! * [`store`]: the collection of patterns that is played;
//! * [`dispatch`]: what the patterns that fire on a tick ask of the outputs;
//! * [`scheduler`]: the scheduling loop as a state machine;
//! * [`grid`]: what a visualiser shows.

pub mod timing;
pub mod model;
pub mod config;
pub mod assets;
pub mod chunks;
pub mod midi;
pub mod generate;
pub mod store;
pub mod dispatch;
pub mod scheduler;
pub mod grid;
