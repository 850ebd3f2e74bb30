//! The patterns that are built in, and how they are put together with the
//! patterns that come from outside.
//!
//! The built-in patterns are written on the quarter-beat grid: their beats
//! count quarters of a beat.

use vstd::prelude::*;
use crate::model::DEFAULT_VELOCITY;
use crate::model::Pattern;
use crate::model::PatternBuilder;
use crate::model::PatternView;
use crate::model::clone_patterns;
use crate::model::patterns_view;

verus! {

/// Velocity of the chord notes: one hundred percent.
pub const CHORD_VELOCITY: u32 = 100_000;

/// Length of the chord notes: a tenth of a second.
pub const CHORD_DURATION: u32 = 100;

/// The pattern of one note of a chord on one beat.
pub open spec fn chord_note(note: u8, beat: u32, velocity: u32, duration: u32) -> PatternView {
    PatternView {
        sound: None,
        loop_name: None,
        midi_note: Some(note),
        beats: seq![beat],
        velocity,
        duration,
    }
}

/// One note of a chord on each of the chord's beats.
pub open spec fn chord_row(note: u8, beats: Seq<u32>, velocity: u32, duration: u32) -> Seq<
    PatternView,
> {
    beats.map_values(|beat: u32| chord_note(note, beat, velocity, duration))
}

/// A chord: for each note in turn, the note on each beat in turn.
pub open spec fn chord_spec(notes: Seq<u8>, beats: Seq<u32>, velocity: u32, duration: u32) -> Seq<
    PatternView,
>
    decreases notes.len(),
{
    if notes.len() == 0 {
        Seq::empty()
    } else {
        chord_spec(notes.drop_last(), beats, velocity, duration) + chord_row(
            notes.last(),
            beats,
            velocity,
            duration,
        )
    }
}

/// Adds a chord to a list of patterns.
pub fn add_chord_pattern(
    patterns: &mut Vec<Pattern>,
    chord_notes: &Vec<u8>,
    chord_beats: &Vec<u32>,
    velocity: u32,
    duration: u32,
)
    ensures
        patterns_view(final(patterns)@) == patterns_view(old(patterns)@) + chord_spec(
            chord_notes@,
            chord_beats@,
            velocity,
            duration,
        ),
{
    let ghost before = patterns_view(patterns@);
    let mut i: usize = 0;
    while i < chord_notes.len()
        invariant
            i <= chord_notes.len(),
            patterns_view(patterns@) == before + chord_spec(
                chord_notes@.take(i as int),
                chord_beats@,
                velocity,
                duration,
            ),
        decreases chord_notes.len() - i,
    {
        let note: u8 = chord_notes[i];
        let ghost rows = patterns_view(patterns@);
        let mut j: usize = 0;
        while j < chord_beats.len()
            invariant
                j <= chord_beats.len(),
                patterns_view(patterns@) =~= rows + chord_row(
                    note,
                    chord_beats@,
                    velocity,
                    duration,
                ).take(j as int),
            decreases chord_beats.len() - j,
        {
            let mut beats: Vec<u32> = Vec::new();
            beats.push(chord_beats[j]);
            let pattern = Pattern {
                sound: None,
                loop_name: None,
                midi_note: Some(note),
                beats,
                velocity,
                duration,
            };
            let ghost so_far = patterns_view(patterns@);
            patterns.push(pattern);
            assert(patterns_view(patterns@) =~= so_far.push(pattern@));
            j += 1;
        }
        proof {
            let longer = chord_notes@.take(i as int + 1);
            assert(longer.drop_last() =~= chord_notes@.take(i as int));
        }
        i += 1;
    }
    assert(chord_notes@.take(chord_notes.len() as int) =~= chord_notes@);
}

/// The built-in chord progression: C sharp minor, F sharp minor, A major
/// and B major, two beats each, struck three or four times.
pub open spec fn chord_patterns_spec() -> Seq<PatternView> {
    chord_spec(seq![61u8, 64u8, 68u8], seq![1u32, 5u32, 7u32], CHORD_VELOCITY, CHORD_DURATION)
        + chord_spec(
        seq![66u8, 69u8, 73u8],
        seq![9u32, 13u32, 15u32],
        CHORD_VELOCITY,
        CHORD_DURATION,
    ) + chord_spec(
        seq![69u8, 73u8, 76u8],
        seq![17u32, 21u32, 23u32],
        CHORD_VELOCITY,
        CHORD_DURATION,
    ) + chord_spec(
        seq![71u8, 75u8, 78u8],
        seq![25u32, 26u32, 29u32, 31u32],
        CHORD_VELOCITY,
        CHORD_DURATION,
    )
}

/// The built-in chord progression, one pattern for each note on each beat.
pub fn generate_chord_patterns() -> (patterns: Vec<Pattern>)
    ensures
        patterns_view(patterns@) == chord_patterns_spec(),
{
    let mut patterns: Vec<Pattern> = Vec::new();
    let c_sharp_m: Vec<u8> = vec![61, 64, 68];
    let f_sharp_m: Vec<u8> = vec![66, 69, 73];
    let a_maj: Vec<u8> = vec![69, 73, 76];
    let b_maj: Vec<u8> = vec![71, 75, 78];
    let c_sharp_beats: Vec<u32> = vec![1, 5, 7];
    let f_sharp_beats: Vec<u32> = vec![9, 13, 15];
    let a_beats: Vec<u32> = vec![17, 21, 23];
    let b_beats: Vec<u32> = vec![25, 26, 29, 31];
    add_chord_pattern(&mut patterns, &c_sharp_m, &c_sharp_beats, CHORD_VELOCITY, CHORD_DURATION);
    add_chord_pattern(&mut patterns, &f_sharp_m, &f_sharp_beats, CHORD_VELOCITY, CHORD_DURATION);
    add_chord_pattern(&mut patterns, &a_maj, &a_beats, CHORD_VELOCITY, CHORD_DURATION);
    add_chord_pattern(&mut patterns, &b_maj, &b_beats, CHORD_VELOCITY, CHORD_DURATION);
    patterns
}

/// The beats of a figure played `times` times over, each time `size` steps
/// after the time before. A figure is played once at least.
pub open spec fn repeat_spec(beats: Seq<u32>, size: int, times: int) -> Seq<int>
    decreases times,
{
    if times <= 1 {
        beats.map_values(|b: u32| b as int)
    } else {
        repeat_spec(beats, size, times - 1) + beats.map_values(
            |b: u32| b as int + size * (times - 1),
        )
    }
}

/// Whether every beat of a repeated figure can be counted in 32 bits.
pub open spec fn repeat_fits(beats: Seq<u32>, size: int, times: int) -> bool {
    forall|i: int|
        0 <= i < repeat_spec(beats, size, times).len() ==> #[trigger] repeat_spec(
            beats,
            size,
            times,
        )[i] <= u32::MAX
}

/// The numbers of a list of beats.
pub open spec fn beats_view(beats: Seq<u32>) -> Seq<int> {
    beats.map_values(|b: u32| b as int)
}

/// The beats of a figure played `times` times over, each time `size` steps
/// after the time before; `None` where one of them cannot be counted in 32
/// bits.
pub fn repeat(beats: &Vec<u32>, size: usize, times: usize) -> (repeated: Option<Vec<u32>>)
    ensures
        match repeated {
            Some(all) => beats_view(all@) == repeat_spec(beats@, size as int, times as int),
            None => !repeat_fits(beats@, size as int, times as int),
        },
{
    let mut all: Vec<u32> = beats.clone();
    let mut i: usize = 1;
    while i < times
        invariant
            1 <= i,
            i <= times || i == 1,
            beats_view(all@) == repeat_spec(beats@, size as int, i as int),
        decreases times - i,
    {
        assert(size * i <= 0xffff_ffff_ffff_ffff * 0xffff_ffff_ffff_ffff) by (nonlinear_arith)
            requires
                0 <= size <= 0xffff_ffff_ffff_ffff,
                0 <= i <= 0xffff_ffff_ffff_ffff,
        ;
        let offset: u128 = (size as u128) * (i as u128);
        let ghost round = beats@.map_values(|b: u32| b as int + size * ((i + 1) - 1));
        let ghost rounds = beats_view(all@);
        let mut j: usize = 0;
        while j < beats.len()
            invariant
                j <= beats.len(),
                1 <= i < times,
                offset == size * i,
                offset <= 0xffff_ffff_ffff_ffff * 0xffff_ffff_ffff_ffff,
                round == beats@.map_values(|b: u32| b as int + size * ((i + 1) - 1)),
                rounds == repeat_spec(beats@, size as int, i as int),
                beats_view(all@) =~= rounds + round.take(j as int),
            decreases beats.len() - j,
        {
            let beat: u128 = beats[j] as u128 + offset;
            if beat > 0xffff_ffff {
                proof {
                    lemma_repeat_grows(beats@, size as int, i as int + 1, times as int);
                    assert(repeat_spec(beats@, size as int, times as int)[rounds.len() + j]
                        > u32::MAX);
                }
                return None;
            }
            let ghost so_far = beats_view(all@);
            all.push(beat as u32);
            assert(beats_view(all@) =~= so_far.push(beat as int));
            j += 1;
        }
        i += 1;
    }
    Some(all)
}

/// Playing a figure more often only adds beats.
proof fn lemma_repeat_grows(beats: Seq<u32>, size: int, fewer: int, more: int)
    requires
        1 <= fewer <= more,
    ensures
        repeat_spec(beats, size, fewer).len() <= repeat_spec(beats, size, more).len(),
        forall|k: int|
            0 <= k < repeat_spec(beats, size, fewer).len() ==> #[trigger] repeat_spec(
                beats,
                size,
                more,
            )[k] == repeat_spec(beats, size, fewer)[k],
    decreases more,
{
    if fewer < more {
        lemma_repeat_grows(beats, size, fewer, more - 1);
    }
}

/// The first built-in loop pattern: the loop `dl-ethnic` for two beats, on
/// beats 0 and 4.
pub open spec fn first_loop_spec() -> PatternView {
    PatternView {
        sound: None,
        loop_name: Some("dl-ethnic"@),
        midi_note: None,
        beats: seq![0u32, 16u32],
        velocity: DEFAULT_VELOCITY,
        duration: 2000,
    }
}

/// The second built-in loop pattern: the loop `dl-ethnic` for two and a
/// half beats, on beats 1.25 and 5.25.
pub open spec fn second_loop_spec() -> PatternView {
    PatternView {
        sound: None,
        loop_name: Some("dl-ethnic"@),
        midi_note: None,
        beats: seq![5u32, 21u32],
        velocity: DEFAULT_VELOCITY,
        duration: 2500,
    }
}

/// All patterns of a groovebox: the patterns of the pattern source, the two
/// built-in loop patterns, the built-in chords, and the patterns taken from
/// the MIDI file, in this order.
pub open spec fn combined_spec(midi_pattern: Seq<PatternView>, json_patterns: Seq<PatternView>) -> Seq<
    PatternView,
> {
    json_patterns + seq![first_loop_spec(), second_loop_spec()] + chord_patterns_spec()
        + midi_pattern
}

/// Puts all patterns of a groovebox together.
pub fn generate_combined_patterns(midi_pattern: Vec<Pattern>, json_patterns: Vec<Pattern>) -> (combined:
    Vec<Pattern>)
    ensures
        patterns_view(combined@) == combined_spec(
            patterns_view(midi_pattern@),
            patterns_view(json_patterns@),
        ),
{
    let mut combined: Vec<Pattern> = json_patterns;
    let first = PatternBuilder::new().loop_name("dl-ethnic").beats(vec![0, 16]).duration(
        2000,
    ).build();
    let second = PatternBuilder::new().loop_name("dl-ethnic").beats(vec![5, 21]).duration(
        2500,
    ).build();
    combined.push(first);
    combined.push(second);
    let mut chords = generate_chord_patterns();
    let mut midi = midi_pattern;
    combined.append(&mut chords);
    combined.append(&mut midi);
    combined
}

/// All patterns of a groovebox, where the pattern source may have failed.
pub open spec fn load_spec(parsed: Option<Seq<PatternView>>, midi_pattern: Seq<PatternView>) -> Seq<
    PatternView,
> {
    match parsed {
        Some(json_patterns) => combined_spec(midi_pattern, json_patterns),
        None => combined_spec(midi_pattern, Seq::empty()),
    }
}

/// The contents of what was read of the pattern source.
pub open spec fn parsed_view(parsed: Option<Vec<Pattern>>) -> Option<Seq<PatternView>> {
    match parsed {
        Some(patterns) => Some(patterns_view(patterns@)),
        None => None,
    }
}

/// Puts all patterns of a groovebox together from what was read of the
/// pattern source: `parsed` holds its patterns, or `None` where it could
/// not be read or understood, and then the groovebox starts without them.
pub fn load_and_combine_patterns_from_content(
    parsed: Option<Vec<Pattern>>,
    midi_pattern: &Vec<Pattern>,
) -> (combined: Vec<Pattern>)
    ensures
        patterns_view(combined@) == load_spec(parsed_view(parsed), patterns_view(midi_pattern@)),
{
    match parsed {
        Some(json_patterns) => generate_combined_patterns(
            clone_patterns(midi_pattern),
            json_patterns,
        ),
        None => {
            let none: Vec<Pattern> = Vec::new();
            generate_combined_patterns(clone_patterns(midi_pattern), none)
        },
    }
}

} // verus!
