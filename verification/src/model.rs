//! The event model: a pattern names what to trigger and the steps of the
//! beat grid on which to trigger it.

use vstd::prelude::*;

verus! {

/// Velocity of a pattern that sets none: one hundred percent, in
/// thousandths of a percent.
pub const DEFAULT_VELOCITY: u32 = 100_000;

/// Duration of a pattern that sets none: a quarter, in thousandths.
pub const DEFAULT_DURATION: u32 = 250;

/// One scheduled event.
///
/// A pattern may carry a sample label, a loop label and a MIDI pitch at
/// once; only one of them takes effect, see [`Pattern::trigger`].
#[derive(Debug, PartialEq, Eq)]
pub struct Pattern {
    /// Label of a one-shot sample.
    pub sound: Option<String>,
    /// Label of a tempo-stretched loop.
    pub loop_name: Option<String>,
    /// Pitch of a MIDI note.
    pub midi_note: Option<u8>,
    /// Offsets from the start of the cycle on which the pattern fires, in
    /// steps of the beat grid. The order and repetitions do not matter.
    pub beats: Vec<u32>,
    /// Loudness in thousandths of a percent.
    pub velocity: u32,
    /// Length in thousandths: of a second for a MIDI note, of a beat for a
    /// loop. Samples play to their end.
    pub duration: u32,
}

/// The mathematical content of a [`Pattern`].
pub struct PatternView {
    pub sound: Option<Seq<char>>,
    pub loop_name: Option<Seq<char>>,
    pub midi_note: Option<u8>,
    pub beats: Seq<u32>,
    pub velocity: u32,
    pub duration: u32,
}

/// The action a pattern causes when one of its beats is reached.
#[derive(Debug, Clone, PartialEq, Eq)]
pub enum Trigger {
    /// Send a MIDI note of this pitch.
    MidiNote(u8),
    /// Play the one-shot sample of this label.
    Sample(String),
    /// Play the loop of this label.
    Loop(String),
    /// Do nothing.
    Silent,
}

/// The mathematical content of a [`Trigger`].
pub enum TriggerView {
    MidiNote(u8),
    Sample(Seq<char>),
    Loop(Seq<char>),
    Silent,
}

/// The characters of an optional label.
pub open spec fn label_view(label: Option<String>) -> Option<Seq<char>> {
    match label {
        Some(s) => Some(s@),
        None => None,
    }
}

/// The contents of a list of patterns.
pub open spec fn patterns_view(patterns: Seq<Pattern>) -> Seq<PatternView> {
    patterns.map_values(|p: Pattern| p@)
}

impl View for Trigger {
    type V = TriggerView;

    open spec fn view(&self) -> TriggerView {
        match *self {
            Trigger::MidiNote(note) => TriggerView::MidiNote(note),
            Trigger::Sample(label) => TriggerView::Sample(label@),
            Trigger::Loop(label) => TriggerView::Loop(label@),
            Trigger::Silent => TriggerView::Silent,
        }
    }
}

impl View for Pattern {
    type V = PatternView;

    open spec fn view(&self) -> PatternView {
        PatternView {
            sound: label_view(self.sound),
            loop_name: label_view(self.loop_name),
            midi_note: self.midi_note,
            beats: self.beats@,
            velocity: self.velocity,
            duration: self.duration,
        }
    }
}

impl PatternView {
    /// The one trigger of a pattern: the MIDI note where there is one, else
    /// the sample, else the loop, else nothing.
    pub open spec fn trigger(self) -> TriggerView {
        match self.midi_note {
            Some(note) => TriggerView::MidiNote(note),
            None => match self.sound {
                Some(label) => TriggerView::Sample(label),
                None => match self.loop_name {
                    Some(label) => TriggerView::Loop(label),
                    None => TriggerView::Silent,
                },
            },
        }
    }

    /// The pattern of a builder that has been told nothing.
    pub open spec fn empty() -> PatternView {
        PatternView {
            sound: None,
            loop_name: None,
            midi_note: None,
            beats: Seq::empty(),
            velocity: DEFAULT_VELOCITY,
            duration: DEFAULT_DURATION,
        }
    }
}

/// A copy of an optional label.
pub fn clone_label(label: &Option<String>) -> (copy: Option<String>)
    ensures
        copy == *label,
{
    match label {
        Some(s) => Some(s.clone()),
        None => None,
    }
}

impl Clone for Pattern {
    fn clone(&self) -> (copy: Pattern)
        ensures
            copy@ == self@,
    {
        let beats = self.beats.clone();
        Pattern {
            sound: clone_label(&self.sound),
            loop_name: clone_label(&self.loop_name),
            midi_note: self.midi_note,
            beats,
            velocity: self.velocity,
            duration: self.duration,
        }
    }
}

impl Pattern {
    /// The one trigger of this pattern. Where several are set the MIDI note
    /// wins over the sample, and the sample over the loop.
    pub fn trigger(&self) -> (t: Trigger)
        ensures
            t@ == self@.trigger(),
    {
        match self.midi_note {
            Some(note) => Trigger::MidiNote(note),
            None => match &self.sound {
                Some(label) => Trigger::Sample(label.clone()),
                None => match &self.loop_name {
                    Some(label) => Trigger::Loop(label.clone()),
                    None => Trigger::Silent,
                },
            },
        }
    }

    /// Whether `step` is one of the pattern's beats.
    pub fn has_beat(&self, step: u32) -> (found: bool)
        ensures
            found == self@.beats.contains(step),
    {
        let mut i: usize = 0;
        while i < self.beats.len()
            invariant
                i <= self.beats.len(),
                forall|k: int| 0 <= k < i ==> self.beats@[k] != step,
            decreases self.beats.len() - i,
        {
            if self.beats[i] == step {
                return true;
            }
            i += 1;
        }
        false
    }
}

/// A copy of a list of patterns.
pub fn clone_patterns(patterns: &Vec<Pattern>) -> (copy: Vec<Pattern>)
    ensures
        patterns_view(copy@) == patterns_view(patterns@),
{
    let mut copy: Vec<Pattern> = Vec::new();
    let mut i: usize = 0;
    while i < patterns.len()
        invariant
            i <= patterns.len(),
            copy.len() == i,
            forall|k: int| 0 <= k < i ==> copy@[k]@ == patterns@[k]@,
        decreases patterns.len() - i,
    {
        copy.push(patterns[i].clone());
        i += 1;
    }
    copy
}

/// Builds a [`Pattern`] field by field.
pub struct PatternBuilder {
    sound: Option<String>,
    loop_name: Option<String>,
    beats: Vec<u32>,
    midi_note: Option<u8>,
    velocity: u32,
    duration: u32,
}

impl View for PatternBuilder {
    type V = PatternView;

    /// The pattern that [`PatternBuilder::build`] would return.
    closed spec fn view(&self) -> PatternView {
        PatternView {
            sound: label_view(self.sound),
            loop_name: label_view(self.loop_name),
            midi_note: self.midi_note,
            beats: self.beats@,
            velocity: self.velocity,
            duration: self.duration,
        }
    }
}

impl PatternBuilder {
    /// A builder for a silent pattern without beats, at full velocity and
    /// with the default duration.
    pub fn new() -> (b: PatternBuilder)
        ensures
            b@ == PatternView::empty(),
    {
        PatternBuilder {
            sound: None,
            loop_name: None,
            beats: Vec::new(),
            midi_note: None,
            velocity: DEFAULT_VELOCITY,
            duration: DEFAULT_DURATION,
        }
    }

    /// Sets the sample label.
    pub fn sound(self, sound: &str) -> (b: PatternBuilder)
        ensures
            b@ == (PatternView { sound: Some(sound@), ..self@ }),
    {
        let mut b = self;
        b.sound = Some(sound.to_owned());
        b
    }

    /// Sets the loop label.
    pub fn loop_name(self, loop_name: &str) -> (b: PatternBuilder)
        ensures
            b@ == (PatternView { loop_name: Some(loop_name@), ..self@ }),
    {
        let mut b = self;
        b.loop_name = Some(loop_name.to_owned());
        b
    }

    /// Sets the beats, in steps of the beat grid.
    pub fn beats(self, beats: Vec<u32>) -> (b: PatternBuilder)
        ensures
            b@ == (PatternView { beats: beats@, ..self@ }),
    {
        let mut b = self;
        b.beats = beats;
        b
    }

    /// Sets the MIDI pitch.
    pub fn midi_note(self, note: u8) -> (b: PatternBuilder)
        ensures
            b@ == (PatternView { midi_note: Some(note), ..self@ }),
    {
        let mut b = self;
        b.midi_note = Some(note);
        b
    }

    /// Sets the velocity, in thousandths of a percent.
    pub fn velocity(self, velocity: u32) -> (b: PatternBuilder)
        ensures
            b@ == (PatternView { velocity, ..self@ }),
    {
        let mut b = self;
        b.velocity = velocity;
        b
    }

    /// Sets the duration, in thousandths.
    pub fn duration(self, duration: u32) -> (b: PatternBuilder)
        ensures
            b@ == (PatternView { duration, ..self@ }),
    {
        let mut b = self;
        b.duration = duration;
        b
    }

    /// The pattern that was described.
    pub fn build(self) -> (p: Pattern)
        ensures
            p@ == self@,
    {
        Pattern {
            sound: self.sound,
            loop_name: self.loop_name,
            beats: self.beats,
            midi_note: self.midi_note,
            velocity: self.velocity,
            duration: self.duration,
        }
    }
}

} // verus!
