//! What a visualiser shows of the playback: a grid with one row for each
//! pattern that plays a sample and one column for each step of the cycle.
//!
//! Drawing the grid is the visualiser's business. Here is what it draws.

use vstd::prelude::*;
use crate::model::Pattern;
use crate::model::PatternView;
use crate::model::patterns_view;
use crate::timing::MICROS_PER_MINUTE;
use crate::timing::Meter;

verus! {

/// Microseconds that drawing one frame is taken to cost.
pub const FRAME_COST_MICROS: u64 = 150_000;

/// What a cell of the grid shows.
#[derive(Clone, Copy, Debug, PartialEq, Eq)]
pub enum CellState {
    /// The pattern has no beat on the step.
    Empty,
    /// The pattern has a beat on the step.
    Active,
    /// The pattern has a beat on the step, and the playhead stands on it.
    Playing,
}

/// What the cell of `pattern` in column `column` shows while the playhead
/// stands on tick `playhead`.
pub open spec fn cell_state_spec(
    pattern: PatternView,
    column: u32,
    playhead: int,
    meter: Meter,
) -> CellState {
    if !pattern.beats.contains(column) {
        CellState::Empty
    } else if meter.on_tick(column as int, playhead) {
        CellState::Playing
    } else {
        CellState::Active
    }
}

/// What the cell of `pattern` in column `column` shows while the playhead
/// stands on tick `playhead`.
pub fn cell_state(pattern: &Pattern, column: u32, playhead: u64, meter: &Meter) -> (state: CellState)
    ensures
        state == cell_state_spec(pattern@, column, playhead as int, *meter),
{
    if !pattern.has_beat(column) {
        CellState::Empty
    } else if meter.is_on_tick(column, playhead) {
        CellState::Playing
    } else {
        CellState::Active
    }
}

/// The number of columns of the grid: the steps of one cycle.
pub fn grid_columns(meter: &Meter) -> (columns: u64)
    ensures
        columns == meter.loop_beats * meter.steps_per_beat,
{
    meter.total_steps()
}

/// Whether a pattern has a row in the grid: it carries a sample label.
pub open spec fn has_row(pattern: PatternView) -> bool {
    pattern.sound is Some
}

/// The places of the patterns that have a row, in order.
pub open spec fn rows_spec(patterns: Seq<PatternView>) -> Seq<int>
    decreases patterns.len(),
{
    if patterns.len() == 0 {
        Seq::empty()
    } else if has_row(patterns.last()) {
        rows_spec(patterns.drop_last()).push(patterns.len() - 1)
    } else {
        rows_spec(patterns.drop_last())
    }
}

/// The places of a list of rows.
pub open spec fn rows_view(rows: Seq<usize>) -> Seq<int> {
    rows.map_values(|r: usize| r as int)
}

/// The places in `patterns` of the patterns that have a row, in order.
pub fn visible_rows(patterns: &Vec<Pattern>) -> (rows: Vec<usize>)
    ensures
        rows_view(rows@) == rows_spec(patterns_view(patterns@)),
{
    let mut rows: Vec<usize> = Vec::new();
    let mut i: usize = 0;
    while i < patterns.len()
        invariant
            i <= patterns.len(),
            rows_view(rows@) == rows_spec(patterns_view(patterns@).take(i as int)),
        decreases patterns.len() - i,
    {
        proof {
            let longer = patterns_view(patterns@).take(i as int + 1);
            assert(longer.drop_last() =~= patterns_view(patterns@).take(i as int));
        }
        if patterns[i].sound.is_some() {
            rows.push(i);
        }
        i += 1;
    }
    assert(patterns_view(patterns@).take(patterns.len() as int) =~= patterns_view(patterns@));
    rows
}

/// Microseconds to wait before the next frame: the length of a step less
/// the cost of a frame, and nothing where a step is shorter than a frame.
pub open spec fn repaint_delay_spec(meter: Meter) -> int {
    let step = MICROS_PER_MINUTE as int / (meter.bpm * meter.steps_per_beat);
    if step > FRAME_COST_MICROS {
        step - FRAME_COST_MICROS
    } else {
        0
    }
}

/// Microseconds to wait before the next frame.
pub fn repaint_delay_micros(meter: &Meter) -> (micros: u64)
    requires
        meter.wf(),
    ensures
        micros == repaint_delay_spec(*meter),
{
    assert(0 < meter.bpm * meter.steps_per_beat <= 0xffff_ffff * 0xffff_ffff) by (nonlinear_arith)
        requires
            0 < meter.bpm <= 0xffff_ffff,
            0 < meter.steps_per_beat <= 0xffff_ffff,
    ;
    let steps_per_minute: u64 = (meter.bpm as u64) * (meter.steps_per_beat as u64);
    let step: u64 = MICROS_PER_MINUTE / steps_per_minute;
    if step > FRAME_COST_MICROS {
        step - FRAME_COST_MICROS
    } else {
        0
    }
}

} // verus!
