//! The settings a groovebox is started with.

use vstd::prelude::*;

verus! {

/// Where the MIDI-derived patterns come from.
#[derive(Debug, Clone, PartialEq, Eq)]
pub struct MidiTrackConfig {
    /// Path of the MIDI file.
    pub midi_file: String,
    /// Name of the track to take the notes from.
    pub track_name: String,
    /// End of the window of notes to take, in steps of the beat grid.
    pub limit_beats: u32,
}

/// Where the audio assets are.
#[derive(Debug, Clone, PartialEq, Eq)]
pub struct SoundConfig {
    /// Directory of the one-shot samples.
    pub samples: String,
    /// Directory of the loops.
    pub loops: String,
}

/// All settings.
#[derive(Debug, Clone, PartialEq, Eq)]
pub struct Config {
    /// Name of the MIDI output port.
    pub midi_port: String,
    pub midi_track: MidiTrackConfig,
    pub sounds: SoundConfig,
}

} // verus!
