use groovebox::grid::cell_state;
use groovebox::grid::grid_columns;
use groovebox::grid::repaint_delay_micros;
use groovebox::grid::visible_rows;
use groovebox::grid::CellState;
use groovebox::grid::FRAME_COST_MICROS;
use groovebox::model::PatternBuilder;
use groovebox::timing::Meter;

#[test]
fn grid_has_a_column_for_each_step() {
    assert_eq!(grid_columns(&Meter::new(120, 8).unwrap()), 32);
    assert_eq!(grid_columns(&Meter::with_resolution(120, 3, 8, 6).unwrap()), 18);
}

#[test]
fn cell_shows_beat_and_playhead() {
    let meter = Meter::new(120, 8).unwrap();
    let p = PatternBuilder::new().sound("bd").beats(vec![0, 4, 5]).build();
    // The playhead stands on tick 8: beat 1, step 4.
    assert_eq!(cell_state(&p, 0, 8, &meter), CellState::Active);
    assert_eq!(cell_state(&p, 4, 8, &meter), CellState::Playing);
    assert_eq!(cell_state(&p, 5, 8, &meter), CellState::Active);
    assert_eq!(cell_state(&p, 3, 8, &meter), CellState::Empty);
    // The playhead stands on a step without a beat.
    assert_eq!(cell_state(&p, 2, 4, &meter), CellState::Empty);
}

#[test]
fn playhead_between_two_steps_lights_no_cell() {
    let meter = Meter::new(120, 8).unwrap();
    let p = PatternBuilder::new().sound("bd").beats(vec![0, 1, 2, 3, 4, 5]).build();
    // Tick 9 is one eighth after beat 1: between steps 4 and 5.
    for column in 0..6 {
        assert_eq!(cell_state(&p, column, 9, &meter), CellState::Active);
    }
}

#[test]
fn one_cell_at_most_plays_in_a_row() {
    let meter = Meter::new(120, 2).unwrap();
    let p = PatternBuilder::new().sound("bd").beats((0..8).collect()).build();
    for tick in 0..16u64 {
        let playing: Vec<u32> =
            (0..8).filter(|&c| cell_state(&p, c, tick, &meter) == CellState::Playing).collect();
        if tick % 2 == 0 {
            assert_eq!(playing, vec![(tick / 2) as u32]);
        } else {
            assert!(playing.is_empty());
        }
    }
}

#[test]
fn rows_are_the_patterns_with_a_sample() {
    let patterns = vec![
        PatternBuilder::new().midi_note(60).build(),
        PatternBuilder::new().sound("bd").build(),
        PatternBuilder::new().loop_name("groove").build(),
        PatternBuilder::new().sound("sn").midi_note(61).build(),
        PatternBuilder::new().build(),
        PatternBuilder::new().sound("").build(),
    ];
    assert_eq!(visible_rows(&patterns), vec![1, 3, 5]);
    assert_eq!(visible_rows(&Vec::new()), Vec::<usize>::new());
}

#[test]
fn repaint_waits_a_step_less_the_cost_of_a_frame() {
    assert_eq!(FRAME_COST_MICROS, 150_000);
    // At 60 bpm a quarter of a beat lasts 250 ms.
    assert_eq!(repaint_delay_micros(&Meter::new(60, 8).unwrap()), 100_000);
    // At 100 bpm it lasts exactly 150 ms.
    assert_eq!(repaint_delay_micros(&Meter::new(100, 8).unwrap()), 0);
    // At 120 bpm it lasts 125 ms, less than a frame.
    assert_eq!(repaint_delay_micros(&Meter::new(120, 8).unwrap()), 0);
    assert_eq!(repaint_delay_micros(&Meter::new(7, 8).unwrap()), 1_992_857);
}
