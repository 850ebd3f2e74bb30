//! The trigger dispatcher: what a tick asks of the outputs.
//!
//! A pattern that fires is resolved against the asset repository into a
//! [`Job`], a complete description of one output operation. Performing the
//! job is the caller's business, and so is handing it to a worker: nothing
//! here blocks. A pattern whose label the repository does not know gives a
//! [`DispatchError`] and no job; its siblings are not affected.

use vstd::prelude::*;
use crate::assets::AssetView;
use crate::assets::LoopBank;
use crate::assets::SoundBank;
use crate::model::Pattern;
use crate::model::PatternView;
use crate::model::TriggerView;
use crate::model::patterns_view;
use crate::timing::Meter;
use crate::timing::beats_to_millis;
use crate::timing::beats_to_millis_spec;
use crate::timing::lemma_whole_beat_on_tick;

verus! {

/// The number of workers that perform jobs side by side.
pub const DISPATCH_WORKERS: usize = 4;

/// Status byte of a note-on message on the first MIDI channel.
pub const NOTE_ON: u8 = 0x90;

/// Status byte of a note-off message on the first MIDI channel.
pub const NOTE_OFF: u8 = 0x80;

/// The hardest strike a MIDI note can have.
pub const MAX_MIDI_VELOCITY: u8 = 127;

/// One output operation.
#[derive(Debug, Clone, PartialEq, Eq)]
pub enum Job {
    /// Play the sample `label` to its end, at `gain` thousandths of a
    /// percent of its volume.
    Sample { label: String, gain: u32 },
    /// Play `play_millis` milliseconds of the loop `label`, at `gain`
    /// thousandths of a percent of its volume and at `project_bpm /
    /// native_tempo` times its speed.
    Loop { label: String, gain: u32, play_millis: u64, project_bpm: u32, native_tempo: u32 },
    /// Send the message `on`, wait `hold_millis` milliseconds, send the
    /// message `off`.
    MidiNote { on: [u8; 3], hold_millis: u32, off: [u8; 3] },
}

/// The mathematical content of a [`Job`].
pub enum JobView {
    Sample { label: Seq<char>, gain: u32 },
    Loop { label: Seq<char>, gain: u32, play_millis: u64, project_bpm: u32, native_tempo: u32 },
    MidiNote { on: Seq<u8>, hold_millis: u32, off: Seq<u8> },
}

impl View for Job {
    type V = JobView;

    open spec fn view(&self) -> JobView {
        match *self {
            Job::Sample { label, gain } => JobView::Sample { label: label@, gain },
            Job::Loop { label, gain, play_millis, project_bpm, native_tempo } => JobView::Loop {
                label: label@,
                gain,
                play_millis,
                project_bpm,
                native_tempo,
            },
            Job::MidiNote { on, hold_millis, off } => JobView::MidiNote {
                on: on@,
                hold_millis,
                off: off@,
            },
        }
    }
}

/// Why a pattern that fired gave no job.
#[derive(Debug, Clone, PartialEq, Eq)]
pub enum DispatchError {
    /// The sound bank has no sample of this label.
    SampleNotFound(String),
    /// The loop bank has no loop of this label.
    LoopNotFound(String),
}

/// The mathematical content of a [`DispatchError`].
pub enum DispatchErrorView {
    SampleNotFound(Seq<char>),
    LoopNotFound(Seq<char>),
}

impl View for DispatchError {
    type V = DispatchErrorView;

    open spec fn view(&self) -> DispatchErrorView {
        match *self {
            DispatchError::SampleNotFound(label) => DispatchErrorView::SampleNotFound(label@),
            DispatchError::LoopNotFound(label) => DispatchErrorView::LoopNotFound(label@),
        }
    }
}

/// The velocity of a MIDI note for a pattern velocity in thousandths of a
/// percent: the whole percents, and no more than 127.
pub open spec fn midi_velocity_spec(velocity: u32) -> u8 {
    if velocity / 1000 > MAX_MIDI_VELOCITY as int {
        MAX_MIDI_VELOCITY
    } else {
        (velocity / 1000) as u8
    }
}

/// The velocity of a MIDI note for a pattern velocity.
pub fn midi_velocity(velocity: u32) -> (v: u8)
    ensures
        v == midi_velocity_spec(velocity),
        v <= MAX_MIDI_VELOCITY,
{
    let percent: u32 = velocity / 1000;
    if percent > 127 {
        MAX_MIDI_VELOCITY
    } else {
        percent as u8
    }
}

/// The bytes of the message that starts a note.
pub open spec fn note_on_spec(pitch: u8, velocity: u32) -> Seq<u8> {
    seq![NOTE_ON, pitch, midi_velocity_spec(velocity)]
}

/// The bytes of the message that ends a note.
pub open spec fn note_off_spec(pitch: u8) -> Seq<u8> {
    seq![NOTE_OFF, pitch, 0u8]
}

/// The message that starts a note of `pitch` at a pattern velocity.
pub fn note_on(pitch: u8, velocity: u32) -> (message: [u8; 3])
    ensures
        message@ == note_on_spec(pitch, velocity),
{
    let message: [u8; 3] = [NOTE_ON, pitch, midi_velocity(velocity)];
    message
}

/// The message that ends a note of `pitch`.
pub fn note_off(pitch: u8) -> (message: [u8; 3])
    ensures
        message@ == note_off_spec(pitch),
{
    let message: [u8; 3] = [NOTE_OFF, pitch, 0];
    message
}

/// The job of a MIDI note: the note starts, is held for `duration`
/// thousandths of a second, and ends.
pub open spec fn midi_job(note: u8, velocity: u32, duration: u32) -> JobView {
    JobView::MidiNote {
        on: note_on_spec(note, velocity),
        hold_millis: duration,
        off: note_off_spec(note),
    }
}

/// The job of a sample: the whole sample at the pattern's velocity.
pub open spec fn sample_job(label: Seq<char>, velocity: u32) -> JobView {
    JobView::Sample { label, gain: velocity }
}

/// The job of a loop: `duration` thousandths of a beat of it at the project
/// tempo, sped up or slowed down from its native tempo to the project
/// tempo.
pub open spec fn loop_job(
    label: Seq<char>,
    duration: u32,
    velocity: u32,
    asset: AssetView,
    project_bpm: u32,
) -> JobView {
    JobView::Loop {
        label,
        gain: velocity,
        play_millis: beats_to_millis_spec(duration, project_bpm) as u64,
        project_bpm,
        native_tempo: asset.native_tempo->0,
    }
}

/// The contents of a job or of the reason why there is none.
pub open spec fn job_view(r: Result<Job, DispatchError>) -> Result<JobView, DispatchErrorView> {
    match r {
        Ok(job) => Ok(job@),
        Err(e) => Err(e@),
    }
}

/// What playing the sample `label` comes to.
pub open spec fn play_sound_spec(
    label: Seq<char>,
    velocity: u32,
    sounds: Map<Seq<char>, AssetView>,
) -> Result<JobView, DispatchErrorView> {
    if sounds.contains_key(label) {
        Ok(sample_job(label, velocity))
    } else {
        Err(DispatchErrorView::SampleNotFound(label))
    }
}

/// What playing the loop `label` comes to.
pub open spec fn play_loop_spec(
    label: Seq<char>,
    duration: u32,
    velocity: u32,
    loops: Map<Seq<char>, AssetView>,
    project_bpm: u32,
) -> Result<JobView, DispatchErrorView> {
    if loops.contains_key(label) {
        Ok(loop_job(label, duration, velocity, loops[label], project_bpm))
    } else {
        Err(DispatchErrorView::LoopNotFound(label))
    }
}

/// The job that plays the sample `label`, or the complaint that there is no
/// such sample.
pub fn play_sound(label: &str, velocity: u32, sound_bank: &SoundBank) -> (r: Result<
    Job,
    DispatchError,
>)
    ensures
        job_view(r) == play_sound_spec(label@, velocity, sound_bank@),
{
    match sound_bank.get(label) {
        Some(_) => Ok(Job::Sample { label: label.to_owned(), gain: velocity }),
        None => Err(DispatchError::SampleNotFound(label.to_owned())),
    }
}

/// The job that plays the loop `label`, or the complaint that there is no
/// such loop.
pub fn play_loop(
    label: &str,
    duration: u32,
    velocity: u32,
    loop_bank: &LoopBank,
    project_bpm: u32,
) -> (r: Result<Job, DispatchError>)
    ensures
        job_view(r) == play_loop_spec(label@, duration, velocity, loop_bank@, project_bpm),
{
    match loop_bank.get(label) {
        Some(entry) => {
            let native_tempo: u32 = match entry.native_tempo {
                Some(tempo) => tempo,
                None => 0,
            };
            Ok(
                Job::Loop {
                    label: label.to_owned(),
                    gain: velocity,
                    play_millis: beats_to_millis(duration, project_bpm),
                    project_bpm,
                    native_tempo,
                },
            )
        },
        None => Err(DispatchError::LoopNotFound(label.to_owned())),
    }
}

/// The job that plays a MIDI note.
pub fn play_midi_note(note: u8, velocity: u32, duration: u32) -> (job: Job)
    ensures
        job@ == midi_job(note, velocity, duration),
{
    Job::MidiNote { on: note_on(note, velocity), hold_millis: duration, off: note_off(note) }
}

/// What a pattern that fires comes to: the job of its trigger, no job for
/// a silent pattern, or the complaint that its label is unknown.
pub open spec fn dispatch_spec(
    pattern: PatternView,
    sounds: Map<Seq<char>, AssetView>,
    loops: Map<Seq<char>, AssetView>,
    bpm: u32,
) -> Result<Option<JobView>, DispatchErrorView> {
    match pattern.trigger() {
        TriggerView::MidiNote(note) => Ok(
            Some(midi_job(note, pattern.velocity, pattern.duration)),
        ),
        TriggerView::Sample(label) => match play_sound_spec(label, pattern.velocity, sounds) {
            Ok(job) => Ok(Some(job)),
            Err(e) => Err(e),
        },
        TriggerView::Loop(label) => match play_loop_spec(
            label,
            pattern.duration,
            pattern.velocity,
            loops,
            bpm,
        ) {
            Ok(job) => Ok(Some(job)),
            Err(e) => Err(e),
        },
        TriggerView::Silent => Ok(None),
    }
}

/// The contents of the result of [`dispatch`].
pub open spec fn dispatch_view(r: Result<Option<Job>, DispatchError>) -> Result<
    Option<JobView>,
    DispatchErrorView,
> {
    match r {
        Ok(Some(job)) => Ok(Some(job@)),
        Ok(None) => Ok(None),
        Err(e) => Err(e@),
    }
}

/// Resolves a pattern that fires.
pub fn dispatch(pattern: &Pattern, sound_bank: &SoundBank, loop_bank: &LoopBank, bpm: u32) -> (r:
    Result<Option<Job>, DispatchError>)
    ensures
        dispatch_view(r) == dispatch_spec(pattern@, sound_bank@, loop_bank@, bpm),
{
    match pattern.midi_note {
        Some(note) => Ok(Some(play_midi_note(note, pattern.velocity, pattern.duration))),
        None => match &pattern.sound {
            Some(label) => match play_sound(label.as_str(), pattern.velocity, sound_bank) {
                Ok(job) => Ok(Some(job)),
                Err(e) => Err(e),
            },
            None => match &pattern.loop_name {
                Some(label) => match play_loop(
                    label.as_str(),
                    pattern.duration,
                    pattern.velocity,
                    loop_bank,
                    bpm,
                ) {
                    Ok(job) => Ok(Some(job)),
                    Err(e) => Err(e),
                },
                None => Ok(None),
            },
        },
    }
}

/// Whether a pattern fires on tick `tick`: one of its beats falls on the
/// tick exactly.
pub open spec fn fires(pattern: PatternView, tick: int, meter: Meter) -> bool {
    exists|i: int| 0 <= i < pattern.beats.len() && meter.on_tick(#[trigger] pattern.beats[i] as int, tick)
}

/// Whether a pattern fires on tick `tick`.
pub fn is_due(pattern: &Pattern, tick: u64, meter: &Meter) -> (due: bool)
    ensures
        due == fires(pattern@, tick as int, *meter),
{
    let mut i: usize = 0;
    while i < pattern.beats.len()
        invariant
            i <= pattern.beats.len(),
            forall|k: int| 0 <= k < i ==> !meter.on_tick(#[trigger] pattern.beats@[k] as int, tick as int),
        decreases pattern.beats.len() - i,
    {
        if meter.is_on_tick(pattern.beats[i], tick) {
            assert(meter.on_tick(pattern@.beats[i as int] as int, tick as int));
            return true;
        }
        i += 1;
    }
    false
}

/// What one pattern adds to a tick: its job, where it fires and resolves
/// to one.
pub open spec fn pattern_jobs(
    pattern: PatternView,
    tick: int,
    meter: Meter,
    sounds: Map<Seq<char>, AssetView>,
    loops: Map<Seq<char>, AssetView>,
) -> Seq<JobView> {
    if fires(pattern, tick, meter) {
        match dispatch_spec(pattern, sounds, loops, meter.bpm) {
            Ok(Some(job)) => seq![job],
            _ => Seq::empty(),
        }
    } else {
        Seq::empty()
    }
}

/// What one pattern drops on a tick: a complaint, where it fires and does
/// not resolve.
pub open spec fn pattern_drops(
    pattern: PatternView,
    tick: int,
    meter: Meter,
    sounds: Map<Seq<char>, AssetView>,
    loops: Map<Seq<char>, AssetView>,
) -> Seq<DispatchErrorView> {
    if fires(pattern, tick, meter) {
        match dispatch_spec(pattern, sounds, loops, meter.bpm) {
            Err(e) => seq![e],
            _ => Seq::empty(),
        }
    } else {
        Seq::empty()
    }
}

/// The jobs of a tick: those of each pattern, in the order of the patterns.
pub open spec fn tick_jobs(
    patterns: Seq<PatternView>,
    tick: int,
    meter: Meter,
    sounds: Map<Seq<char>, AssetView>,
    loops: Map<Seq<char>, AssetView>,
) -> Seq<JobView>
    decreases patterns.len(),
{
    if patterns.len() == 0 {
        Seq::empty()
    } else {
        tick_jobs(patterns.drop_last(), tick, meter, sounds, loops) + pattern_jobs(
            patterns.last(),
            tick,
            meter,
            sounds,
            loops,
        )
    }
}

/// The complaints of a tick: those of each pattern, in the order of the
/// patterns.
pub open spec fn tick_drops(
    patterns: Seq<PatternView>,
    tick: int,
    meter: Meter,
    sounds: Map<Seq<char>, AssetView>,
    loops: Map<Seq<char>, AssetView>,
) -> Seq<DispatchErrorView>
    decreases patterns.len(),
{
    if patterns.len() == 0 {
        Seq::empty()
    } else {
        tick_drops(patterns.drop_last(), tick, meter, sounds, loops) + pattern_drops(
            patterns.last(),
            tick,
            meter,
            sounds,
            loops,
        )
    }
}

/// What a tick comes to.
#[derive(Debug, Clone, PartialEq, Eq)]
pub struct TickOutput {
    /// The jobs to hand to the workers.
    pub jobs: Vec<Job>,
    /// The events that were dropped, for the log.
    pub dropped: Vec<DispatchError>,
}

/// The contents of a list of jobs.
pub open spec fn jobs_view(jobs: Seq<Job>) -> Seq<JobView> {
    jobs.map_values(|j: Job| j@)
}

/// The contents of a list of complaints.
pub open spec fn drops_view(drops: Seq<DispatchError>) -> Seq<DispatchErrorView> {
    drops.map_values(|e: DispatchError| e@)
}

/// Resolves every pattern that fires on tick `tick`.
pub fn dispatch_tick(
    patterns: &Vec<Pattern>,
    tick: u64,
    meter: &Meter,
    sound_bank: &SoundBank,
    loop_bank: &LoopBank,
) -> (out: TickOutput)
    ensures
        jobs_view(out.jobs@) == tick_jobs(
            patterns_view(patterns@),
            tick as int,
            *meter,
            sound_bank@,
            loop_bank@,
        ),
        drops_view(out.dropped@) == tick_drops(
            patterns_view(patterns@),
            tick as int,
            *meter,
            sound_bank@,
            loop_bank@,
        ),
{
    let mut jobs: Vec<Job> = Vec::new();
    let mut dropped: Vec<DispatchError> = Vec::new();
    let mut i: usize = 0;
    while i < patterns.len()
        invariant
            i <= patterns.len(),
            jobs_view(jobs@) == tick_jobs(
                patterns_view(patterns@).take(i as int),
                tick as int,
                *meter,
                sound_bank@,
                loop_bank@,
            ),
            drops_view(dropped@) == tick_drops(
                patterns_view(patterns@).take(i as int),
                tick as int,
                *meter,
                sound_bank@,
                loop_bank@,
            ),
        decreases patterns.len() - i,
    {
        proof {
            let longer = patterns_view(patterns@).take(i as int + 1);
            assert(longer.drop_last() =~= patterns_view(patterns@).take(i as int));
        }
        if is_due(&patterns[i], tick, meter) {
            match dispatch(&patterns[i], sound_bank, loop_bank, meter.bpm) {
                Ok(Some(job)) => {
                    jobs.push(job);
                },
                Ok(None) => {},
                Err(e) => {
                    dropped.push(e);
                },
            }
        }
        i += 1;
    }
    assert(patterns_view(patterns@).take(patterns.len() as int) =~= patterns_view(patterns@));
    TickOutput { jobs, dropped }
}

/// A pattern whose beats are beat one and nothing else fires on the tick
/// that stands one beat into the cycle and on no other tick, whatever the
/// resolutions of the pattern grid and of the scheduler; in a cycle of two
/// beats or more that tick exists, so the pattern fires exactly once per
/// cycle.
pub proof fn lemma_beat_one_fires_once(pattern: PatternView, meter: Meter)
    requires
        meter.wf(),
        meter.loop_beats >= 2,
        pattern.beats.len() > 0,
        forall|i: int|
            0 <= i < pattern.beats.len() ==> #[trigger] pattern.beats[i] == meter.steps_per_beat,
    ensures
        0 <= meter.ticks_per_beat < meter.total_ticks_spec(),
        forall|tick: int|
            #[trigger] fires(pattern, tick, meter) <==> tick == meter.ticks_per_beat,
{
    let n = meter.ticks_per_beat as int;
    assert(n < meter.loop_beats * n) by (nonlinear_arith)
        requires
            meter.loop_beats >= 2,
            n >= 1,
    ;
    assert forall|tick: int| #[trigger] fires(pattern, tick, meter) <==> tick == n by {
        lemma_whole_beat_on_tick(meter, 1, tick);
        if tick == n {
            assert(meter.on_tick(pattern.beats[0] as int, tick));
        }
    }
}

/// A pattern fires on a tick at most once, however many of its beats fall
/// on the tick, and a pattern on a beat that falls between two ticks never
/// fires: what one pattern adds to a tick is one job at most.
pub proof fn lemma_one_job_per_pattern(
    pattern: PatternView,
    tick: int,
    meter: Meter,
    sounds: Map<Seq<char>, AssetView>,
    loops: Map<Seq<char>, AssetView>,
)
    ensures
        pattern_jobs(pattern, tick, meter, sounds, loops).len() + pattern_drops(
            pattern,
            tick,
            meter,
            sounds,
            loops,
        ).len() <= 1,
{
}

/// The jobs and complaints of a tick are those of the patterns one by one:
/// what a pattern adds does not depend on the patterns around it.
pub proof fn lemma_tick_of_concat(
    front: Seq<PatternView>,
    back: Seq<PatternView>,
    tick: int,
    meter: Meter,
    sounds: Map<Seq<char>, AssetView>,
    loops: Map<Seq<char>, AssetView>,
)
    ensures
        tick_jobs(front + back, tick, meter, sounds, loops) == tick_jobs(
            front,
            tick,
            meter,
            sounds,
            loops,
        ) + tick_jobs(back, tick, meter, sounds, loops),
        tick_drops(front + back, tick, meter, sounds, loops) == tick_drops(
            front,
            tick,
            meter,
            sounds,
            loops,
        ) + tick_drops(back, tick, meter, sounds, loops),
    decreases back.len(),
{
    if back.len() > 0 {
        lemma_tick_of_concat(front, back.drop_last(), tick, meter, sounds, loops);
        assert((front + back).drop_last() =~= front + back.drop_last());
    }
}

/// A pattern whose label is unknown is skipped, and its siblings are not
/// affected: with or without it among them, the same jobs come out of the
/// tick.
pub proof fn lemma_unresolved_pattern_is_skipped(
    front: Seq<PatternView>,
    pattern: PatternView,
    back: Seq<PatternView>,
    tick: int,
    meter: Meter,
    sounds: Map<Seq<char>, AssetView>,
    loops: Map<Seq<char>, AssetView>,
)
    requires
        dispatch_spec(pattern, sounds, loops, meter.bpm) is Err,
    ensures
        tick_jobs(front + seq![pattern] + back, tick, meter, sounds, loops) == tick_jobs(
            front + back,
            tick,
            meter,
            sounds,
            loops,
        ),
{
    let one = seq![pattern];
    lemma_tick_of_concat(front + one, back, tick, meter, sounds, loops);
    lemma_tick_of_concat(front, one, tick, meter, sounds, loops);
    lemma_tick_of_concat(front, back, tick, meter, sounds, loops);
    assert(one.drop_last() =~= Seq::<PatternView>::empty());
    assert(tick_jobs(Seq::<PatternView>::empty(), tick, meter, sounds, loops)
        =~= Seq::<JobView>::empty());
}

} // verus!
