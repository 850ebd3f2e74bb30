//! Patterns from a Standard MIDI File: the notes of one named track that
//! start inside a window of beats, each as a pattern of its own.
//!
//! The file is decoded by the `midly` crate, after a look at its chunks
//! that keeps from `midly` the bytes it cannot take. What the extraction
//! reads of the decoded file is copied into [`MidiFile`], a plain value, and
//! the extraction itself works on that.

use std::collections::HashMap;
use vstd::prelude::*;
use vstd::string::StringSliceAdditionalSpecFns;
use vstd::std_specs::hash::group_hash_axioms;
use vstd::arithmetic::div_mod::lemma_div_is_ordered;
use vstd::arithmetic::div_mod::lemma_div_multiples_vanish;
use crate::chunks::find_unreadable_header;
use crate::chunks::has_unreadable_header;
use crate::model::Pattern;
use crate::model::PatternView;
use crate::model::patterns_view;
use crate::timing::Meter;
use crate::timing::quantize;
use crate::timing::quantize_spec;

verus! {

/// What a track event is, as far as the extraction cares.
#[derive(Debug, Clone, PartialEq, Eq)]
pub enum MidiEventKind {
    /// A key goes down with a velocity. By convention a velocity of zero
    /// releases the key.
    NoteOn { key: u8, vel: u8 },
    /// A key is released.
    NoteOff { key: u8 },
    /// The track's name, as the bytes found in the file.
    TrackName(Vec<u8>),
    /// Any other event. It only moves the clock.
    Other,
}

/// A track event: a waiting time and what happens after it.
#[derive(Debug, Clone, PartialEq, Eq)]
pub struct MidiEvent {
    /// MIDI ticks since the previous event of the track.
    pub delta: u32,
    pub kind: MidiEventKind,
}

/// A decoded MIDI file.
#[derive(Debug, Clone, PartialEq, Eq)]
pub struct MidiFile {
    /// MIDI ticks in a beat, or `None` where the file counts time in
    /// frames per second.
    pub ticks_per_beat: Option<u16>,
    /// The events of each track, in file order.
    pub tracks: Vec<Vec<MidiEvent>>,
}

/// The mathematical content of a [`MidiEventKind`].
pub enum MidiEventKindView {
    NoteOn { key: u8, vel: u8 },
    NoteOff { key: u8 },
    TrackName(Seq<u8>),
    Other,
}

/// The mathematical content of a [`MidiEvent`].
pub struct MidiEventView {
    pub delta: u32,
    pub kind: MidiEventKindView,
}

/// The mathematical content of a [`MidiFile`].
pub struct MidiFileView {
    pub ticks_per_beat: Option<u16>,
    pub tracks: Seq<Seq<MidiEventView>>,
}

impl View for MidiEventKind {
    type V = MidiEventKindView;

    open spec fn view(&self) -> MidiEventKindView {
        match *self {
            MidiEventKind::NoteOn { key, vel } => MidiEventKindView::NoteOn { key, vel },
            MidiEventKind::NoteOff { key } => MidiEventKindView::NoteOff { key },
            MidiEventKind::TrackName(name) => MidiEventKindView::TrackName(name@),
            MidiEventKind::Other => MidiEventKindView::Other,
        }
    }
}

impl View for MidiEvent {
    type V = MidiEventView;

    open spec fn view(&self) -> MidiEventView {
        MidiEventView { delta: self.delta, kind: self.kind@ }
    }
}

/// The contents of a list of events.
pub open spec fn events_view(events: Seq<MidiEvent>) -> Seq<MidiEventView> {
    events.map_values(|e: MidiEvent| e@)
}

/// The contents of a list of tracks.
pub open spec fn tracks_view(tracks: Seq<Vec<MidiEvent>>) -> Seq<Seq<MidiEventView>> {
    tracks.map_values(|t: Vec<MidiEvent>| events_view(t@))
}

impl View for MidiFile {
    type V = MidiFileView;

    open spec fn view(&self) -> MidiFileView {
        MidiFileView { ticks_per_beat: self.ticks_per_beat, tracks: tracks_view(self.tracks@) }
    }
}

/// Why no patterns came out of a MIDI file.
#[derive(Debug, PartialEq, Eq, Clone, Copy)]
pub enum MidiError {
    /// The bytes are not a MIDI file that `midly` can decode: it reports
    /// an error, or its walk over them comes to a header that is kept from
    /// it, see [`has_unreadable_header`].
    Parse,
    /// The file does not count time in ticks per beat.
    UnsupportedTiming,
}

/// `midly::Smf`, a decoded MIDI file. Nothing is known of what it holds but
/// through [`smf_ticks_per_beat`] and [`smf_tracks`].
#[verifier::external_type_specification]
#[verifier::external_body]
pub struct ExSmf<'a>(midly::Smf<'a>);

/// `midly::Error`, the reason why `midly` could not decode a file. It is
/// not looked into.
#[verifier::external_type_specification]
#[verifier::external_body]
pub struct ExSmfError(midly::Error);

/// The file that `midly::Smf::parse` decodes from the bytes `raw`, or `None`
/// where it reports an error. Nothing more is said of it: what `midly`
/// makes of which bytes is not stated here.
pub uninterp spec fn smf_parse(raw: Seq<u8>) -> Option<MidiFileView>;

/// What the field `header.timing` of a `midly::Smf` holds: the ticks per
/// beat of `Timing::Metrical`, and `None` for `Timing::Timecode`.
pub uninterp spec fn smf_ticks_per_beat(smf: midly::Smf) -> Option<u16>;

/// What the field `tracks` of a `midly::Smf` holds: the events of each track
/// in order, each event with its `delta` and reduced to what
/// [`MidiEventKind`] tells apart.
pub uninterp spec fn smf_tracks(smf: midly::Smf) -> Seq<Seq<MidiEventView>>;

/// Calls `midly::Smf::parse`. Believed of it: on bytes without a header
/// that it cannot read it returns, and the outcome depends on the bytes
/// alone, so that [`smf_parse`] can name it; the name stands for what
/// [`smf_ticks_per_beat`] and [`smf_tracks`] read of the decoded file, and
/// for `None` where `midly` reports an error.
#[verifier::external_body]
fn parse_smf(raw: &[u8]) -> (r: Result<midly::Smf<'_>, midly::Error>)
    requires
        !has_unreadable_header(raw@),
    ensures
        match r {
            Ok(smf) => smf_parse(raw@) == Some(
                MidiFileView { ticks_per_beat: smf_ticks_per_beat(smf), tracks: smf_tracks(smf) },
            ),
            Err(_) => smf_parse(raw@) is None,
        },
{
    midly::Smf::parse(raw)
}

/// Reads the field `header.timing` of a `midly::Smf` and tells the two
/// variants of `midly::Timing` apart; `as_int` of `midly::num::u15` gives
/// the number. Believed of it: this is what [`smf_ticks_per_beat`] names.
#[verifier::external_body]
fn ticks_per_beat_of(smf: &midly::Smf) -> (t: Option<u16>)
    ensures
        t == smf_ticks_per_beat(*smf),
{
    match smf.header.timing {
        midly::Timing::Metrical(ticks) => Some(ticks.as_int()),
        midly::Timing::Timecode(..) => None,
    }
}

/// Calls `Vec::len` on the field `tracks` of a `midly::Smf`. Believed of it:
/// this is the length of what [`smf_tracks`] names.
#[verifier::external_body]
fn track_count(smf: &midly::Smf) -> (n: usize)
    ensures
        n == smf_tracks(*smf).len(),
{
    smf.tracks.len()
}

/// Calls `Vec::len` on track `track` of the field `tracks` of a
/// `midly::Smf`. Believed of it: this is the length of that track in what
/// [`smf_tracks`] names. The track must exist.
#[verifier::external_body]
fn event_count(smf: &midly::Smf, track: usize) -> (n: usize)
    requires
        track < smf_tracks(*smf).len(),
    ensures
        n == smf_tracks(*smf)[track as int].len(),
{
    smf.tracks[track].len()
}

/// Whether an event keeps to the ranges of a MIDI file: the waiting time is
/// below 2^28, and keys and velocities are at most 127.
pub open spec fn in_midi_range(e: MidiEventView) -> bool {
    &&& e.delta < 0x1000_0000
    &&& match e.kind {
        MidiEventKindView::NoteOn { key, vel } => key <= 127 && vel <= 127,
        MidiEventKindView::NoteOff { key } => key <= 127,
        _ => true,
    }
}

/// Whether every event of every track keeps to the ranges of a MIDI file.
pub open spec fn all_in_midi_range(tracks: Seq<Seq<MidiEventView>>) -> bool {
    forall|t: int, k: int|
        0 <= t < tracks.len() && 0 <= k < tracks[t].len() ==> in_midi_range(
            #[trigger] tracks[t][k],
        )
}

/// Reads the `midly::TrackEvent` at place `index` of track `track` of a
/// `midly::Smf`: its `delta`, and of its `kind` the key and velocity of a
/// `MidiMessage::NoteOn`, the key of a `MidiMessage::NoteOff` and the bytes
/// of a `MetaMessage::TrackName`; every other kind reads as
/// [`MidiEventKind::Other`]. Believed of it: this is the event at that place
/// in what [`smf_tracks`] names; and `as_int` of `midly::num::u28` gives a
/// number below 2^28, `as_int` of `midly::num::u7` one of at most 127, as
/// `midly` masks or checks every such number that it makes. The event must
/// exist.
#[verifier::external_body]
fn event_at(smf: &midly::Smf, track: usize, index: usize) -> (e: MidiEvent)
    requires
        track < smf_tracks(*smf).len(),
        index < smf_tracks(*smf)[track as int].len(),
    ensures
        e@ == smf_tracks(*smf)[track as int][index as int],
        in_midi_range(e@),
{
    let event = &smf.tracks[track][index];
    let kind = match event.kind {
        midly::TrackEventKind::Midi { message: midly::MidiMessage::NoteOn { key, vel }, .. } => {
            MidiEventKind::NoteOn { key: key.as_int(), vel: vel.as_int() }
        },
        midly::TrackEventKind::Midi { message: midly::MidiMessage::NoteOff { key, .. }, .. } => {
            MidiEventKind::NoteOff { key: key.as_int() }
        },
        midly::TrackEventKind::Meta(midly::MetaMessage::TrackName(name)) => {
            MidiEventKind::TrackName(name.to_vec())
        },
        _ => MidiEventKind::Other,
    };
    MidiEvent { delta: event.delta.as_int(), kind }
}

impl MidiFile {
    /// Copies out of a decoded file what the extraction reads.
    fn from_smf(smf: &midly::Smf) -> (file: MidiFile)
        ensures
            file@ == (MidiFileView {
                ticks_per_beat: smf_ticks_per_beat(*smf),
                tracks: smf_tracks(*smf),
            }),
            all_in_midi_range(file@.tracks),
    {
        let mut tracks: Vec<Vec<MidiEvent>> = Vec::new();
        let n: usize = track_count(smf);
        let mut t: usize = 0;
        while t < n
            invariant
                t <= n,
                n == smf_tracks(*smf).len(),
                tracks.len() == t,
                forall|i: int| 0 <= i < t ==> events_view(#[trigger] tracks@[i]@) == smf_tracks(*smf)[i],
                forall|i: int, j: int|
                    0 <= i < t && 0 <= j < smf_tracks(*smf)[i].len() ==> in_midi_range(
                        #[trigger] smf_tracks(*smf)[i][j],
                    ),
            decreases n - t,
        {
            let mut events: Vec<MidiEvent> = Vec::new();
            let len: usize = event_count(smf, t);
            let mut k: usize = 0;
            while k < len
                invariant
                    k <= len,
                    t < smf_tracks(*smf).len(),
                    len == smf_tracks(*smf)[t as int].len(),
                    events.len() == k,
                    forall|i: int| 0 <= i < k ==> (#[trigger] events@[i])@ == smf_tracks(*smf)[t as int][i],
                    forall|i: int|
                        0 <= i < k ==> in_midi_range(#[trigger] smf_tracks(*smf)[t as int][i]),
                decreases len - k,
            {
                events.push(event_at(smf, t, k));
                k += 1;
            }
            tracks.push(events);
            t += 1;
        }
        assert(tracks_view(tracks@) =~= smf_tracks(*smf));
        MidiFile { ticks_per_beat: ticks_per_beat_of(smf), tracks }
    }

    /// Decodes a MIDI file from its bytes. Bytes with a header that `midly`
    /// cannot read are refused before `midly` sees them. Every event of a
    /// decoded file keeps to the ranges of a MIDI file.
    pub fn parse(raw: &[u8]) -> (r: Result<MidiFile, MidiError>)
        ensures
            has_unreadable_header(raw@) ==> r == Err::<MidiFile, MidiError>(MidiError::Parse),
            !has_unreadable_header(raw@) ==> match smf_parse(raw@) {
                Some(file) => r matches Ok(f) && f@ == file,
                None => r == Err::<MidiFile, MidiError>(MidiError::Parse),
            },
            r matches Ok(f) ==> all_in_midi_range(f@.tracks),
    {
        if find_unreadable_header(raw) {
            return Err(MidiError::Parse);
        }
        match parse_smf(raw) {
            Ok(smf) => Ok(MidiFile::from_smf(&smf)),
            Err(_) => Err(MidiError::Parse),
        }
    }
}

/// The grid against which notes are measured.
pub struct Window {
    /// MIDI ticks in a beat.
    pub ticks_per_beat: int,
    /// Beats per minute.
    pub bpm: int,
    /// Steps of the beat grid in a beat.
    pub steps_per_beat: int,
    /// First step of the window.
    pub start: int,
    /// First step after the window.
    pub end: int,
}

/// A key that is down: since which MIDI tick, and how hard it was struck.
pub struct Held {
    pub since: int,
    pub vel: u8,
}

/// Where the extraction stands.
pub struct Extraction {
    /// MIDI ticks since the start of the current track.
    pub time: int,
    /// The keys that are down.
    pub held: Map<u8, Held>,
    /// The patterns found so far.
    pub found: Seq<PatternView>,
}

/// The velocity of a note struck with MIDI velocity `vel`, in thousandths of
/// a percent of the hardest strike, 127.
pub open spec fn note_velocity(vel: u8) -> u32 {
    ((vel as int * 100_000) / 127) as u32
}

/// The length of a note of `ticks` MIDI ticks in milliseconds, rounded to
/// the nearest and kept within 32 bits. A note that ends before it starts
/// has no length.
pub open spec fn note_duration(ticks: int, w: Window) -> u32 {
    let per_minute = w.bpm * w.ticks_per_beat;
    let millis = (2 * ticks * 60_000 + per_minute) / (2 * per_minute);
    if ticks <= 0 {
        0
    } else if millis > u32::MAX {
        u32::MAX
    } else {
        millis as u32
    }
}

/// The step of the beat grid nearest to MIDI tick `since`.
pub open spec fn note_step(since: int, w: Window) -> int {
    quantize_spec(since, w.ticks_per_beat, w.steps_per_beat)
}

/// Whether a note struck at MIDI tick `since` starts inside the window.
pub open spec fn in_window(since: int, w: Window) -> bool {
    w.start <= note_step(since, w) < w.end
}

/// The pattern of a note on `key` that was struck as `held` says and is
/// released at MIDI tick `now`: one beat, counted from the start of the
/// window.
pub open spec fn note_pattern(key: u8, held: Held, now: int, w: Window) -> PatternView {
    PatternView {
        sound: None,
        loop_name: None,
        midi_note: Some(key),
        beats: seq![(note_step(held.since, w) - w.start) as u32],
        velocity: note_velocity(held.vel),
        duration: note_duration(now - held.since, w),
    }
}

/// Releases `key` now. A key that is down comes up, and its note is kept
/// where it started inside the window; a key that is up stays up.
pub open spec fn release(x: Extraction, key: u8, w: Window) -> Extraction {
    if x.held.contains_key(key) {
        let held = x.held[key];
        Extraction {
            time: x.time,
            held: x.held.remove(key),
            found: if in_window(held.since, w) {
                x.found.push(note_pattern(key, held, x.time, w))
            } else {
                x.found
            },
        }
    } else {
        x
    }
}

/// The extraction after one more event.
pub open spec fn after_event(x: Extraction, e: MidiEventView, w: Window) -> Extraction {
    let now = x.time + e.delta;
    let moved = Extraction { time: now, held: x.held, found: x.found };
    match e.kind {
        MidiEventKindView::NoteOn { key, vel } => if vel > 0 {
            Extraction {
                time: now,
                held: x.held.insert(key, Held { since: now, vel }),
                found: x.found,
            }
        } else {
            release(moved, key, w)
        },
        MidiEventKindView::NoteOff { key } => release(moved, key, w),
        _ => moved,
    }
}

/// The extraction after a run of events.
pub open spec fn after_events(x: Extraction, events: Seq<MidiEventView>, w: Window) -> Extraction
    decreases events.len(),
{
    if events.len() == 0 {
        x
    } else {
        after_event(after_events(x, events.drop_last(), w), events.last(), w)
    }
}

/// Whether one of the events names the track `name`.
pub open spec fn is_named(events: Seq<MidiEventView>, name: Seq<u8>) -> bool {
    exists|i: int| 0 <= i < events.len() && (#[trigger] events[i]).kind == MidiEventKindView::TrackName(name)
}

/// The extraction after a whole track: a track of another name is passed
/// over; in a track of this name the clock starts at zero, and keys that an
/// earlier track left down are still down.
pub open spec fn after_track(
    x: Extraction,
    events: Seq<MidiEventView>,
    name: Seq<u8>,
    w: Window,
) -> Extraction {
    if is_named(events, name) {
        after_events(Extraction { time: 0, held: x.held, found: x.found }, events, w)
    } else {
        x
    }
}

/// The extraction after a run of tracks.
pub open spec fn after_tracks(
    x: Extraction,
    tracks: Seq<Seq<MidiEventView>>,
    name: Seq<u8>,
    w: Window,
) -> Extraction
    decreases tracks.len(),
{
    if tracks.len() == 0 {
        x
    } else {
        after_track(after_tracks(x, tracks.drop_last(), name, w), tracks.last(), name, w)
    }
}

/// The extraction before the first track.
pub open spec fn extraction_start() -> Extraction {
    Extraction { time: 0, held: Map::empty(), found: Seq::empty() }
}

/// The patterns of the notes of the tracks called `name` that start in the
/// steps `start_beat..end_beat`, in the order in which the notes end. A
/// file that counts zero ticks to the beat has no place on the beat grid
/// for any note, and gives no pattern.
pub open spec fn extract_spec(
    file: MidiFileView,
    name: Seq<u8>,
    meter: Meter,
    start_beat: u32,
    end_beat: u32,
) -> Result<Seq<PatternView>, MidiError> {
    match file.ticks_per_beat {
        Some(ticks) => if ticks > 0 {
            Ok(
                after_tracks(
                    extraction_start(),
                    file.tracks,
                    name,
                    Window {
                        ticks_per_beat: ticks as int,
                        bpm: meter.bpm as int,
                        steps_per_beat: meter.steps_per_beat as int,
                        start: start_beat as int,
                        end: end_beat as int,
                    },
                ).found,
            )
        } else {
            Ok(Seq::empty())
        },
        None => Err(MidiError::UnsupportedTiming),
    }
}

/// What comes out of the bytes of a MIDI file.
pub open spec fn read_spec(
    parsed: Option<MidiFileView>,
    name: Seq<u8>,
    meter: Meter,
    start_beat: u32,
    end_beat: u32,
) -> Result<Seq<PatternView>, MidiError> {
    match parsed {
        Some(file) => extract_spec(file, name, meter, start_beat, end_beat),
        None => Err(MidiError::Parse),
    }
}

/// The contents of a list of patterns or the reason why there is none.
pub open spec fn outcome_view(r: Result<Vec<Pattern>, MidiError>) -> Result<
    Seq<PatternView>,
    MidiError,
> {
    match r {
        Ok(patterns) => Ok(patterns_view(patterns@)),
        Err(e) => Err(e),
    }
}

/// Tracks of another name, and tracks without a name, give nothing: where
/// no track of a file that counts in ticks per beat is called `name`, the
/// list of patterns is empty.
pub proof fn lemma_other_names_give_nothing(
    file: MidiFileView,
    name: Seq<u8>,
    meter: Meter,
    start_beat: u32,
    end_beat: u32,
)
    requires
        file.ticks_per_beat is Some,
        forall|t: int| 0 <= t < file.tracks.len() ==> !is_named(#[trigger] file.tracks[t], name),
    ensures
        extract_spec(file, name, meter, start_beat, end_beat) == Ok::<
            Seq<PatternView>,
            MidiError,
        >(Seq::empty()),
{
    if file.ticks_per_beat->0 > 0 {
        let w = Window {
            ticks_per_beat: file.ticks_per_beat->0 as int,
            bpm: meter.bpm as int,
            steps_per_beat: meter.steps_per_beat as int,
            start: start_beat as int,
            end: end_beat as int,
        };
        lemma_unnamed_tracks_are_passed_over(extraction_start(), file.tracks, name, w);
    }
}

/// Tracks that are not called `name` leave the extraction as it is.
proof fn lemma_unnamed_tracks_are_passed_over(
    x: Extraction,
    tracks: Seq<Seq<MidiEventView>>,
    name: Seq<u8>,
    w: Window,
)
    requires
        forall|t: int| 0 <= t < tracks.len() ==> !is_named(#[trigger] tracks[t], name),
    ensures
        after_tracks(x, tracks, name, w) == x,
    decreases tracks.len(),
{
    if tracks.len() > 0 {
        lemma_unnamed_tracks_are_passed_over(x, tracks.drop_last(), name, w);
        assert(!is_named(tracks[tracks.len() - 1], name));
    }
}

/// Whether no key is held with a velocity above 127 and no pattern found
/// is louder than one hundred percent.
pub open spec fn velocities_in_range(x: Extraction) -> bool {
    &&& forall|k: u8| #[trigger] x.held.contains_key(k) ==> x.held[k].vel <= 127
    &&& forall|i: int| 0 <= i < x.found.len() ==> (#[trigger] x.found[i]).velocity <= 100_000
}

/// The notes of a file that keeps to the ranges of a MIDI file are never
/// louder than one hundred percent.
pub proof fn lemma_velocities_stay_in_range(
    x: Extraction,
    tracks: Seq<Seq<MidiEventView>>,
    name: Seq<u8>,
    w: Window,
)
    requires
        velocities_in_range(x),
        all_in_midi_range(tracks),
    ensures
        velocities_in_range(after_tracks(x, tracks, name, w)),
    decreases tracks.len(),
{
    if tracks.len() > 0 {
        let before = tracks.drop_last();
        assert(all_in_midi_range(before)) by {
            assert forall|t: int, k: int|
                0 <= t < before.len() && 0 <= k < before[t].len() implies in_midi_range(
                #[trigger] before[t][k],
            ) by {
                assert(before[t] == tracks[t]);
                assert(in_midi_range(tracks[t][k]));
            }
        }
        lemma_velocities_stay_in_range(x, before, name, w);
        let at = after_tracks(x, before, name, w);
        let restarted = Extraction { time: 0, held: at.held, found: at.found };
        assert forall|k: int| 0 <= k < tracks.last().len() implies in_midi_range(
            #[trigger] tracks.last()[k],
        ) by {
            assert(in_midi_range(tracks[tracks.len() - 1][k]));
        }
        lemma_events_keep_velocities(restarted, tracks.last(), w);
    }
}

/// A run of events in range keeps the velocities in range.
proof fn lemma_events_keep_velocities(x: Extraction, events: Seq<MidiEventView>, w: Window)
    requires
        velocities_in_range(x),
        forall|k: int| 0 <= k < events.len() ==> in_midi_range(#[trigger] events[k]),
    ensures
        velocities_in_range(after_events(x, events, w)),
    decreases events.len(),
{
    if events.len() > 0 {
        lemma_events_keep_velocities(x, events.drop_last(), w);
        assert(in_midi_range(events[events.len() - 1]));
        assert forall|v: u8| v <= 127 implies note_velocity(v) <= 100_000 by {
            assert((v as int * 100_000) / 127 <= 100_000);
        }
    }
}

/// Whether a pattern is a note of the window: nothing but a MIDI pitch and
/// one beat, which lies less than the window's length after its start.
pub open spec fn is_note_of(pattern: PatternView, w: Window) -> bool {
    &&& pattern.sound is None
    &&& pattern.loop_name is None
    &&& pattern.midi_note is Some
    &&& pattern.beats.len() == 1
    &&& pattern.beats[0] < w.end - w.start
}

/// Whether every pattern found so far is a note of the window.
pub open spec fn all_notes_of(x: Extraction, w: Window) -> bool {
    forall|i: int| 0 <= i < x.found.len() ==> is_note_of(#[trigger] x.found[i], w)
}

/// The extraction keeps to the window: whatever the tracks hold, every
/// pattern that comes out is a single MIDI note on a single beat inside the
/// window.
pub proof fn lemma_extraction_keeps_to_window(
    x: Extraction,
    tracks: Seq<Seq<MidiEventView>>,
    name: Seq<u8>,
    w: Window,
)
    requires
        all_notes_of(x, w),
        0 <= w.start,
        w.end <= u32::MAX,
    ensures
        all_notes_of(after_tracks(x, tracks, name, w), w),
    decreases tracks.len(),
{
    if tracks.len() > 0 {
        lemma_extraction_keeps_to_window(x, tracks.drop_last(), name, w);
        let before = after_tracks(x, tracks.drop_last(), name, w);
        let restarted = Extraction { time: 0, held: before.held, found: before.found };
        lemma_events_keep_to_window(restarted, tracks.last(), w);
    }
}

/// A run of events keeps to the window.
proof fn lemma_events_keep_to_window(x: Extraction, events: Seq<MidiEventView>, w: Window)
    requires
        all_notes_of(x, w),
        0 <= w.start,
        w.end <= u32::MAX,
    ensures
        all_notes_of(after_events(x, events, w), w),
    decreases events.len(),
{
    if events.len() > 0 {
        lemma_events_keep_to_window(x, events.drop_last(), w);
    }
}

/// No clock of a track reaches this many MIDI ticks.
pub open spec fn time_limit() -> int {
    0x1_0000_0000_0000_0000_0000_0000
}

/// The numbers of a [`Window`] as the machine holds them.
struct Grid {
    ticks_per_beat: u16,
    bpm: u32,
    steps_per_beat: u32,
    start: u32,
    end: u32,
}

impl View for Grid {
    type V = Window;

    closed spec fn view(&self) -> Window {
        Window {
            ticks_per_beat: self.ticks_per_beat as int,
            bpm: self.bpm as int,
            steps_per_beat: self.steps_per_beat as int,
            start: self.start as int,
            end: self.end as int,
        }
    }
}

impl Grid {
    spec fn wf(&self) -> bool {
        self.ticks_per_beat > 0 && self.bpm > 0 && self.steps_per_beat > 0
    }

    /// The step of a note struck at `since`, counted from the start of the
    /// window, where the note starts inside the window.
    fn offset(&self, since: u128) -> (step: Option<u32>)
        requires
            self.wf(),
            since < time_limit(),
        ensures
            step == if in_window(since as int, self@) {
                Some((note_step(since as int, self@) - self.start) as u32)
            } else {
                None
            },
    {
        if since > 0xffff_ffff_ffff_ffff {
            proof {
                lemma_far_notes_are_late(since as int, self@);
            }
            None
        } else {
            match quantize(since as u64, self.ticks_per_beat as u32, self.steps_per_beat) {
                Some(step) => if self.start <= step && step < self.end {
                    Some(step - self.start)
                } else {
                    None
                },
                None => None,
            }
        }
    }

    /// The length in milliseconds of a note struck at `since` and released
    /// at `now`.
    fn duration(&self, since: u128, now: u128) -> (millis: u32)
        requires
            self.wf(),
            since < time_limit(),
            now < time_limit(),
        ensures
            millis == note_duration(now - since, self@),
    {
        if now <= since {
            0
        } else {
            let ticks: u128 = now - since;
            assert(0 < self.bpm * self.ticks_per_beat <= 0xffff_ffff * 0xffff) by (nonlinear_arith)
                requires
                    0 < self.bpm <= 0xffff_ffff,
                    0 < self.ticks_per_beat <= 0xffff,
            ;
            let per_minute: u128 = (self.bpm as u128) * (self.ticks_per_beat as u128);
            let millis: u128 = (2 * ticks * 60_000 + per_minute) / (2 * per_minute);
            if millis > 0xffff_ffff {
                0xffff_ffff
            } else {
                millis as u32
            }
        }
    }
}

/// A note struck after 2^64 MIDI ticks lies beyond every window.
proof fn lemma_far_notes_are_late(since: int, w: Window)
    requires
        since > 0xffff_ffff_ffff_ffff,
        0 < w.ticks_per_beat <= 0xffff,
        w.steps_per_beat >= 1,
        w.end <= u32::MAX,
    ensures
        !in_window(since, w),
{
    let d = 2 * w.ticks_per_beat;
    let x = 2 * w.steps_per_beat * since + w.ticks_per_beat;
    let big: int = 0x1_0000_0000_0000;
    assert(x >= d * big) by (nonlinear_arith)
        requires
            x == 2 * w.steps_per_beat * since + w.ticks_per_beat,
            d == 2 * w.ticks_per_beat,
            w.steps_per_beat >= 1,
            since > 0xffff_ffff_ffff_ffff,
            0 < w.ticks_per_beat <= 0xffff,
            big == 0x1_0000_0000_0000,
    ;
    lemma_div_is_ordered(d * big, x, d);
    lemma_div_multiples_vanish(big, d);
}

/// The extraction as the machine holds it: the clock, the keys that are
/// down, each with the tick and the velocity of its strike, and the patterns
/// found.
struct Tracker {
    time: u128,
    held: HashMap<u8, (u128, u8)>,
    found: Vec<Pattern>,
}

impl Tracker {
    /// The tracker holds the extraction `x`.
    spec fn models(&self, x: Extraction) -> bool {
        &&& self.time == x.time
        &&& self.time < time_limit()
        &&& forall|k: u8| #[trigger] self.held@.contains_key(k) <==> x.held.contains_key(k)
        &&& forall|k: u8| #[trigger]
            self.held@.contains_key(k) ==> self.held@[k].0 < time_limit() && x.held[k] == Held {
                since: self.held@[k].0 as int,
                vel: self.held@[k].1,
            }
        &&& patterns_view(self.found@) == x.found
    }

    fn new() -> (t: Tracker)
        ensures
            t.models(extraction_start()),
    {
        let t = Tracker { time: 0, held: HashMap::new(), found: Vec::new() };
        assert(patterns_view(t.found@) =~= extraction_start().found);
        t
    }

    /// Releases `key` at the present time.
    fn release(&mut self, key: u8, grid: &Grid, Ghost(x): Ghost<Extraction>)
        requires
            old(self).models(x),
            grid.wf(),
        ensures
            final(self).models(release(x, key, grid@)),
    {
        broadcast use group_hash_axioms;

        let ghost before = self.found@;
        match self.held.remove(&key) {
            Some((since, vel)) => {
                match grid.offset(since) {
                    Some(step) => {
                        let mut beats: Vec<u32> = Vec::new();
                        beats.push(step);
                        let note = Pattern {
                            sound: None,
                            loop_name: None,
                            midi_note: Some(key),
                            beats,
                            velocity: ((vel as u32) * 100_000) / 127,
                            duration: grid.duration(since, self.time),
                        };
                        self.found.push(note);
                        assert(patterns_view(self.found@) =~= patterns_view(before).push(
                            note_pattern(key, Held { since: since as int, vel }, x.time, grid@),
                        ));
                    },
                    None => {},
                }
            },
            None => {},
        }
    }

    /// Takes in one event.
    fn feed(&mut self, event: &MidiEvent, grid: &Grid, Ghost(x): Ghost<Extraction>)
        requires
            old(self).models(x),
            old(self).time + 0xffff_ffff < time_limit(),
            grid.wf(),
        ensures
            final(self).models(after_event(x, event@, grid@)),
            final(self).time == old(self).time + event.delta,
    {
        broadcast use group_hash_axioms;

        self.time = self.time + (event.delta as u128);
        let ghost moved = Extraction { time: x.time + event.delta, held: x.held, found: x.found };
        match &event.kind {
            MidiEventKind::NoteOn { key, vel } => {
                if *vel > 0 {
                    self.held.insert(*key, (self.time, *vel));
                } else {
                    self.release(*key, grid, Ghost(moved));
                }
            },
            MidiEventKind::NoteOff { key } => {
                self.release(*key, grid, Ghost(moved));
            },
            MidiEventKind::TrackName(_) => {},
            MidiEventKind::Other => {},
        }
    }
}

/// Whether two runs of bytes are the same.
fn same_bytes(a: &Vec<u8>, b: &[u8]) -> (same: bool)
    ensures
        same == (a@ == b@),
{
    if a.len() != b.len() {
        return false;
    }
    let mut i: usize = 0;
    while i < a.len()
        invariant
            i <= a.len(),
            a.len() == b.len(),
            forall|k: int| 0 <= k < i ==> a@[k] == b@[k],
        decreases a.len() - i,
    {
        if a[i] != b[i] {
            return false;
        }
        i += 1;
    }
    assert(a@ =~= b@);
    true
}

/// Whether one of the events names the track `name`.
fn names_track(events: &Vec<MidiEvent>, name: &[u8]) -> (named: bool)
    ensures
        named == is_named(events_view(events@), name@),
{
    let mut i: usize = 0;
    while i < events.len()
        invariant
            i <= events.len(),
            forall|k: int|
                0 <= k < i ==> (#[trigger] events_view(events@)[k]).kind
                    != MidiEventKindView::TrackName(name@),
        decreases events.len() - i,
    {
        match &events[i].kind {
            MidiEventKind::TrackName(found) => {
                if same_bytes(found, name) {
                    assert(events_view(events@)[i as int].kind == MidiEventKindView::TrackName(
                        name@,
                    ));
                    return true;
                }
            },
            _ => {},
        }
        i += 1;
    }
    false
}

/// The patterns of the notes of `file` that lie on the tracks called
/// `track_name` and start in the steps `start_beat..end_beat` of the beat
/// grid of `meter`.
///
/// A track is called `track_name` where one of its name events holds the
/// UTF-8 bytes of `track_name`. Time is counted in MIDI ticks from the start
/// of each such track. A note lasts from a note-on with a velocity above
/// zero to the next note-off, or note-on with velocity zero, on the same
/// key; where a key is struck twice the later strike counts. The note's
/// start is rounded to the nearest step; a note that starts inside the
/// window gives one pattern with the MIDI pitch of the key, one beat (the
/// step, counted from `start_beat`), the velocity as a share of 127 and the
/// length in milliseconds at the tempo of `meter`.
pub fn extract_patterns(
    file: &MidiFile,
    track_name: &str,
    meter: &Meter,
    start_beat: u32,
    end_beat: u32,
) -> (r: Result<Vec<Pattern>, MidiError>)
    requires
        meter.wf(),
    ensures
        outcome_view(r) == extract_spec(
            file@,
            track_name.spec_bytes(),
            *meter,
            start_beat,
            end_beat,
        ),
        r is Ok <==> file.ticks_per_beat is Some,
{
    let ticks_per_beat: u16 = match file.ticks_per_beat {
        Some(ticks) => ticks,
        None => {
            return Err(MidiError::UnsupportedTiming);
        },
    };
    if ticks_per_beat == 0 {
        let none: Vec<Pattern> = Vec::new();
        assert(patterns_view(none@) =~= Seq::<PatternView>::empty());
        return Ok(none);
    }
    let grid = Grid {
        ticks_per_beat,
        bpm: meter.bpm,
        steps_per_beat: meter.steps_per_beat,
        start: start_beat,
        end: end_beat,
    };
    let name = track_name.as_bytes();
    let mut tracker = Tracker::new();
    let ghost mut x = extraction_start();
    let mut t: usize = 0;
    while t < file.tracks.len()
        invariant
            t <= file.tracks.len(),
            grid.wf(),
            name@ == track_name.spec_bytes(),
            tracker.models(x),
            x == after_tracks(
                extraction_start(),
                tracks_view(file.tracks@).take(t as int),
                name@,
                grid@,
            ),
        decreases file.tracks.len() - t,
    {
        let events = &file.tracks[t];
        let ghost done = tracks_view(file.tracks@).take(t as int);
        proof {
            let next = tracks_view(file.tracks@).take(t as int + 1);
            assert(next.drop_last() =~= done);
        }
        if names_track(events, name) {
            tracker.time = 0;
            let ghost start = Extraction { time: 0, held: x.held, found: x.found };
            proof {
                x = start;
            }
            let mut k: usize = 0;
            while k < events.len()
                invariant
                    k <= events.len(),
                    grid.wf(),
                    tracker.models(x),
                    tracker.time <= k * 0xffff_ffff,
                    x == after_events(start, events_view(events@).take(k as int), grid@),
                decreases events.len() - k,
            {
                proof {
                    let next = events_view(events@).take(k as int + 1);
                    assert(next.drop_last() =~= events_view(events@).take(k as int));
                    assert(k * 0xffff_ffff + 0xffff_ffff < time_limit()) by (nonlinear_arith)
                        requires
                            k < 0x1_0000_0000_0000_0000,
                            time_limit() == 0x1_0000_0000_0000_0000_0000_0000,
                    ;
                }
                tracker.feed(&events[k], &grid, Ghost(x));
                proof {
                    x = after_event(x, events@[k as int]@, grid@);
                }
                k += 1;
            }
            assert(events_view(events@).take(events.len() as int) =~= events_view(events@));
        }
        t += 1;
    }
    assert(tracks_view(file.tracks@).take(file.tracks.len() as int) =~= tracks_view(file.tracks@));
    Ok(tracker.found)
}

/// Decodes the MIDI file held in `raw` and extracts patterns from it as
/// [`extract_patterns`] does. Bytes with a header that `midly` cannot read
/// are refused before `midly` sees them.
pub fn read_midi_and_extract_pattern(
    raw: &[u8],
    track_name: &str,
    meter: &Meter,
    start_beat: u32,
    end_beat: u32,
) -> (r: Result<Vec<Pattern>, MidiError>)
    requires
        meter.wf(),
    ensures
        has_unreadable_header(raw@) ==> outcome_view(r) == Err::<Seq<PatternView>, MidiError>(
            MidiError::Parse,
        ),
        !has_unreadable_header(raw@) ==> outcome_view(r) == read_spec(
            smf_parse(raw@),
            track_name.spec_bytes(),
            *meter,
            start_beat,
            end_beat,
        ),
        r is Ok <==> !has_unreadable_header(raw@) && smf_parse(raw@) is Some && smf_parse(
            raw@,
        )->0.ticks_per_beat is Some,
        r matches Ok(patterns) ==> forall|i: int|
            0 <= i < patterns.len() ==> (#[trigger] patterns[i]).velocity <= 100_000,
{
    match MidiFile::parse(raw) {
        Ok(file) => {
            let r = extract_patterns(&file, track_name, meter, start_beat, end_beat);
            proof {
                if r is Ok {
                    let found = r->Ok_0;
                    let w = Window {
                        ticks_per_beat: file.ticks_per_beat->0 as int,
                        bpm: meter.bpm as int,
                        steps_per_beat: meter.steps_per_beat as int,
                        start: start_beat as int,
                        end: end_beat as int,
                    };
                    let name = track_name.spec_bytes();
                    let end = after_tracks(extraction_start(), file@.tracks, name, w);
                    lemma_velocities_stay_in_range(extraction_start(), file@.tracks, name, w);
                    assert forall|i: int| 0 <= i < found.len() implies (#[trigger] found[i]).velocity
                        <= 100_000 by {
                        assert(patterns_view(found@).len() == found@.len());
                        assert(patterns_view(found@)[i].velocity == found@[i].velocity);
                        if file.ticks_per_beat->0 > 0 {
                            assert(end.found[i].velocity <= 100_000);
                        } else {
                            assert(patterns_view(found@) == Seq::<PatternView>::empty());
                        }
                    }
                }
            }
            r
        },
        Err(e) => Err(e),
    }
}

} // verus!
