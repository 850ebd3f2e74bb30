use groovebox::generate::add_chord_pattern;
use groovebox::generate::generate_chord_patterns;
use groovebox::generate::generate_combined_patterns;
use groovebox::generate::load_and_combine_patterns_from_content;
use groovebox::generate::repeat;
use groovebox::model::Pattern;
use groovebox::model::PatternBuilder;
use groovebox::model::Trigger;

fn chord_note(note: u8, beat: u32) -> Pattern {
    Pattern {
        sound: None,
        loop_name: None,
        midi_note: Some(note),
        beats: vec![beat],
        velocity: 100_000,
        duration: 100,
    }
}

fn hat() -> Pattern {
    PatternBuilder::new().sound("hh").beats(vec![2, 6]).build()
}

fn bass() -> Pattern {
    PatternBuilder::new().midi_note(36).beats(vec![0]).duration(400).build()
}

#[test]
fn chord_is_each_note_on_each_beat() {
    let mut patterns = vec![hat()];
    add_chord_pattern(&mut patterns, &vec![60, 64], &vec![0, 3, 5], 90_000, 200);
    let note = |n: u8, b: u32| Pattern {
        sound: None,
        loop_name: None,
        midi_note: Some(n),
        beats: vec![b],
        velocity: 90_000,
        duration: 200,
    };
    assert_eq!(
        patterns,
        vec![hat(), note(60, 0), note(60, 3), note(60, 5), note(64, 0), note(64, 3), note(64, 5)]
    );
}

#[test]
fn chord_without_notes_or_beats_adds_nothing() {
    let mut patterns = vec![hat()];
    add_chord_pattern(&mut patterns, &Vec::new(), &vec![0, 1], 1, 1);
    add_chord_pattern(&mut patterns, &vec![60, 61], &Vec::new(), 1, 1);
    assert_eq!(patterns, vec![hat()]);
}

#[test]
fn chord_progression_has_39_patterns() {
    let chords = generate_chord_patterns();
    assert_eq!(chords.len(), 39);
    for p in &chords {
        assert_eq!(p.velocity, 100_000);
        assert_eq!(p.duration, 100);
        assert_eq!(p.sound, None);
        assert_eq!(p.loop_name, None);
        assert_eq!(p.beats.len(), 1);
        assert!(matches!(p.trigger(), Trigger::MidiNote(_)));
    }
}

#[test]
fn chord_progression_in_full() {
    let mut expected = Vec::new();
    let chords: [(&[u8], &[u32]); 4] = [
        (&[61, 64, 68], &[1, 5, 7]),
        (&[66, 69, 73], &[9, 13, 15]),
        (&[69, 73, 76], &[17, 21, 23]),
        (&[71, 75, 78], &[25, 26, 29, 31]),
    ];
    for (notes, beats) in chords {
        for &note in notes {
            for &beat in beats {
                expected.push(chord_note(note, beat));
            }
        }
    }
    assert_eq!(generate_chord_patterns(), expected);
}

#[test]
fn chord_progression_first_and_last() {
    let chords = generate_chord_patterns();
    // C sharp on beat 0.25.
    assert_eq!(chords[0], chord_note(61, 1));
    assert_eq!(chords[8], chord_note(68, 7));
    assert_eq!(chords[9], chord_note(66, 9));
    // F sharp on beat 7.75.
    assert_eq!(chords[38], chord_note(78, 31));
}

#[test]
fn repeat_shifts_each_round() {
    assert_eq!(repeat(&vec![0, 2], 4, 3), Some(vec![0, 2, 4, 6, 8, 10]));
    assert_eq!(repeat(&vec![1, 0, 1], 16, 2), Some(vec![1, 0, 1, 17, 16, 17]));
    assert_eq!(repeat(&vec![5], 0, 3), Some(vec![5, 5, 5]));
}

#[test]
fn repeat_once_or_never_is_the_figure() {
    assert_eq!(repeat(&vec![0, 2], 4, 1), Some(vec![0, 2]));
    assert_eq!(repeat(&vec![0, 2], 4, 0), Some(vec![0, 2]));
    assert_eq!(repeat(&Vec::new(), 4, 5), Some(Vec::new()));
    assert_eq!(repeat(&Vec::new(), usize::MAX, usize::MAX.min(1000)), Some(Vec::new()));
}

#[test]
fn repeat_refuses_beats_beyond_32_bits() {
    assert_eq!(repeat(&vec![0, 1], u32::MAX as usize, 2), None);
    assert_eq!(repeat(&vec![0], u32::MAX as usize, 2), Some(vec![0, u32::MAX]));
    assert_eq!(repeat(&vec![u32::MAX], 1, 2), None);
    assert_eq!(repeat(&vec![7], usize::MAX, 3), None);
    assert_eq!(repeat(&vec![u32::MAX], 1, 1), Some(vec![u32::MAX]));
}

#[test]
fn combined_patterns_come_in_order() {
    let combined = generate_combined_patterns(vec![bass()], vec![hat(), hat()]);
    assert_eq!(combined.len(), 2 + 2 + 39 + 1);
    assert_eq!(combined[0], hat());
    assert_eq!(combined[1], hat());
    assert_eq!(
        combined[2],
        Pattern {
            sound: None,
            loop_name: Some("dl-ethnic".to_string()),
            midi_note: None,
            beats: vec![0, 16],
            velocity: 100_000,
            duration: 2_000,
        }
    );
    assert_eq!(
        combined[3],
        Pattern {
            sound: None,
            loop_name: Some("dl-ethnic".to_string()),
            midi_note: None,
            beats: vec![5, 21],
            velocity: 100_000,
            duration: 2_500,
        }
    );
    assert_eq!(combined[4..43].to_vec(), generate_chord_patterns());
    assert_eq!(combined[43], bass());
}

#[test]
fn combined_patterns_without_input_are_the_built_in_ones() {
    let combined = generate_combined_patterns(Vec::new(), Vec::new());
    assert_eq!(combined.len(), 41);
    assert_eq!(combined[2..].to_vec(), generate_chord_patterns());
}

#[test]
fn content_that_was_read_is_combined() {
    let midi = vec![bass()];
    assert_eq!(
        load_and_combine_patterns_from_content(Some(vec![hat()]), &midi),
        generate_combined_patterns(vec![bass()], vec![hat()])
    );
    // The MIDI patterns are left with the caller.
    assert_eq!(midi, vec![bass()]);
}

#[test]
fn content_that_failed_counts_as_empty() {
    let midi = vec![bass(), bass()];
    assert_eq!(
        load_and_combine_patterns_from_content(None, &midi),
        generate_combined_patterns(vec![bass(), bass()], Vec::new())
    );
    assert_eq!(load_and_combine_patterns_from_content(None, &midi).len(), 43);
}
