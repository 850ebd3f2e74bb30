//! The beat clock: tempo, grid resolution and the drift-corrected tick
//! schedule.
//!
//! A cycle of `loop_beats` beats is cut into `loop_beats * ticks_per_beat`
//! ticks. Tick `i` is due to end `(i + 1) * 60 s / (bpm * ticks_per_beat)`
//! after the cycle started; the sleep that follows a tick is measured against
//! that absolute target, never against the previous tick, so that lateness in
//! one tick is absorbed by the next sleeps instead of adding up.

use vstd::prelude::*;
use vstd::arithmetic::div_mod::lemma_fundamental_div_mod;
use vstd::arithmetic::div_mod::lemma_div_is_ordered;
use vstd::arithmetic::div_mod::lemma_mod_bound;

verus! {

/// Microseconds in one minute.
pub const MICROS_PER_MINUTE: u64 = 60_000_000;

/// Length in beats of the cycle that a groovebox plays.
pub const DEFAULT_LOOP_BEATS: u32 = 8;

/// Ticks per beat of a meter made by [`Meter::new`].
pub const DEFAULT_TICKS_PER_BEAT: u32 = 8;

/// Steps per beat of a meter made by [`Meter::new`]: patterns are written on
/// a quarter-beat grid.
pub const DEFAULT_STEPS_PER_BEAT: u32 = 4;

/// Tempo and grid of a loop.
#[derive(Clone, Copy, Debug, PartialEq, Eq)]
pub struct Meter {
    /// Beats per minute.
    pub bpm: u32,
    /// Length of one cycle, in beats.
    pub loop_beats: u32,
    /// Scheduler ticks in a beat.
    pub ticks_per_beat: u32,
    /// Pattern steps in a beat: the resolution to which beat offsets are
    /// quantised.
    pub steps_per_beat: u32,
}

impl Meter {
    /// A meter is well formed when none of its four numbers is zero.
    pub open spec fn wf(&self) -> bool {
        &&& self.bpm > 0
        &&& self.loop_beats > 0
        &&& self.ticks_per_beat > 0
        &&& self.steps_per_beat > 0
    }

    /// Ticks in one cycle.
    pub open spec fn total_ticks_spec(&self) -> int {
        self.loop_beats * self.ticks_per_beat
    }

    /// Ticks in one minute.
    pub open spec fn ticks_per_minute(&self) -> int {
        self.bpm * self.ticks_per_beat
    }

    /// Length of one tick in whole microseconds.
    pub open spec fn tick_duration_spec(&self) -> int {
        MICROS_PER_MINUTE as int / self.ticks_per_minute()
    }

    /// Microseconds after the start of the cycle at which tick `tick` is due
    /// to end.
    pub open spec fn target_spec(&self, tick: int) -> int {
        ((tick + 1) * MICROS_PER_MINUTE as int) / self.ticks_per_minute()
    }

    /// Length of one cycle in whole microseconds.
    pub open spec fn cycle_spec(&self) -> int {
        (self.loop_beats * MICROS_PER_MINUTE as int) / (self.bpm as int)
    }

    /// The sleep that follows tick `tick` when the clock reads `elapsed`.
    pub open spec fn sleep_spec(&self, tick: int, elapsed: int) -> int {
        if self.target_spec(tick) > elapsed {
            self.target_spec(tick) - elapsed
        } else {
            0
        }
    }

    /// Whether step `step` of the pattern grid and tick `tick` of the
    /// scheduler are the same point of the cycle: `step / steps_per_beat`
    /// beats are `tick / ticks_per_beat` beats, exactly.
    pub open spec fn on_tick(&self, step: int, tick: int) -> bool {
        step * self.ticks_per_beat == tick * self.steps_per_beat
    }

    /// Whether step `step` of the pattern grid falls on tick `tick`.
    pub fn is_on_tick(&self, step: u32, tick: u64) -> (on: bool)
        ensures
            on == self.on_tick(step as int, tick as int),
    {
        assert(step * self.ticks_per_beat <= 0xffff_ffff * 0xffff_ffff) by (nonlinear_arith)
            requires
                0 <= step <= 0xffff_ffff,
                0 <= self.ticks_per_beat <= 0xffff_ffff,
        ;
        assert(tick * self.steps_per_beat <= 0xffff_ffff_ffff_ffff * 0xffff_ffff)
            by (nonlinear_arith)
            requires
                0 <= tick <= 0xffff_ffff_ffff_ffff,
                0 <= self.steps_per_beat <= 0xffff_ffff,
        ;
        (step as u128) * (self.ticks_per_beat as u128) == (tick as u128) * (
        self.steps_per_beat as u128)
    }

    /// A meter on the default grid, or `None` where the tempo or the length
    /// is zero.
    pub fn new(bpm: u32, loop_beats: u32) -> (m: Option<Meter>)
        ensures
            m == Meter::with_resolution_spec(
                bpm,
                loop_beats,
                DEFAULT_TICKS_PER_BEAT,
                DEFAULT_STEPS_PER_BEAT,
            ),
    {
        Meter::with_resolution(bpm, loop_beats, DEFAULT_TICKS_PER_BEAT, DEFAULT_STEPS_PER_BEAT)
    }

    /// What [`Meter::with_resolution`] returns.
    pub open spec fn with_resolution_spec(
        bpm: u32,
        loop_beats: u32,
        ticks_per_beat: u32,
        steps_per_beat: u32,
    ) -> Option<Meter> {
        let m = Meter { bpm, loop_beats, ticks_per_beat, steps_per_beat };
        if m.wf() {
            Some(m)
        } else {
            None
        }
    }

    /// A meter with the given numbers, or `None` where one of them is zero.
    pub fn with_resolution(
        bpm: u32,
        loop_beats: u32,
        ticks_per_beat: u32,
        steps_per_beat: u32,
    ) -> (m: Option<Meter>)
        ensures
            m == Meter::with_resolution_spec(bpm, loop_beats, ticks_per_beat, steps_per_beat),
            m matches Some(meter) ==> meter.wf(),
    {
        if bpm == 0 || loop_beats == 0 || ticks_per_beat == 0 || steps_per_beat == 0 {
            None
        } else {
            Some(Meter { bpm, loop_beats, ticks_per_beat, steps_per_beat })
        }
    }

    /// Ticks in one cycle.
    pub fn total_ticks(&self) -> (n: u64)
        ensures
            n == self.total_ticks_spec(),
    {
        assert(self.loop_beats * self.ticks_per_beat <= 0xffff_ffff * 0xffff_ffff)
            by (nonlinear_arith)
            requires
                self.loop_beats <= 0xffff_ffff,
                self.ticks_per_beat <= 0xffff_ffff,
        ;
        (self.loop_beats as u64) * (self.ticks_per_beat as u64)
    }

    /// Pattern steps in one cycle.
    pub fn total_steps(&self) -> (n: u64)
        ensures
            n == self.loop_beats * self.steps_per_beat,
    {
        assert(self.loop_beats * self.steps_per_beat <= 0xffff_ffff * 0xffff_ffff)
            by (nonlinear_arith)
            requires
                self.loop_beats <= 0xffff_ffff,
                self.steps_per_beat <= 0xffff_ffff,
        ;
        (self.loop_beats as u64) * (self.steps_per_beat as u64)
    }

    /// Length of one tick in whole microseconds.
    pub fn tick_duration_micros(&self) -> (d: u64)
        requires
            self.wf(),
        ensures
            d == self.tick_duration_spec(),
    {
        assert(0 < self.bpm * self.ticks_per_beat <= 0xffff_ffff * 0xffff_ffff)
            by (nonlinear_arith)
            requires
                0 < self.bpm <= 0xffff_ffff,
                0 < self.ticks_per_beat <= 0xffff_ffff,
        ;
        let per_minute: u64 = (self.bpm as u64) * (self.ticks_per_beat as u64);
        MICROS_PER_MINUTE / per_minute
    }

    /// Length of one cycle in whole microseconds.
    pub fn cycle_micros(&self) -> (c: u64)
        requires
            self.wf(),
        ensures
            c == self.cycle_spec(),
    {
        assert(self.loop_beats * MICROS_PER_MINUTE <= 0xffff_ffff * 60_000_000)
            by (nonlinear_arith)
            requires
                self.loop_beats <= 0xffff_ffff,
                MICROS_PER_MINUTE == 60_000_000,
        ;
        (self.loop_beats as u64) * MICROS_PER_MINUTE / (self.bpm as u64)
    }

    /// Microseconds after the start of the cycle at which tick `tick` is due
    /// to end.
    pub fn target_micros(&self, tick: u64) -> (t: u64)
        requires
            self.wf(),
            tick < self.total_ticks_spec(),
        ensures
            t == self.target_spec(tick as int),
            t <= self.cycle_spec(),
    {
        proof {
            lemma_target_bounded(*self, tick as int);
            assert(0 < self.bpm * self.ticks_per_beat <= 0xffff_ffff * 0xffff_ffff)
                by (nonlinear_arith)
                requires
                    0 < self.bpm <= 0xffff_ffff,
                    0 < self.ticks_per_beat <= 0xffff_ffff,
            ;
            assert(self.loop_beats * self.ticks_per_beat <= 0xffff_ffff * 0xffff_ffff)
                by (nonlinear_arith)
                requires
                    self.loop_beats <= 0xffff_ffff,
                    self.ticks_per_beat <= 0xffff_ffff,
            ;
            assert((tick + 1) * MICROS_PER_MINUTE <= 0xffff_ffff * 0xffff_ffff * 60_000_000)
                by (nonlinear_arith)
                requires
                    tick + 1 <= 0xffff_ffff * 0xffff_ffff,
                    MICROS_PER_MINUTE == 60_000_000,
            ;
            lemma_cycle_bounded(*self);
        }
        let per_minute: u128 = (self.bpm as u128) * (self.ticks_per_beat as u128);
        let due: u128 = (tick as u128 + 1) * (MICROS_PER_MINUTE as u128) / per_minute;
        due as u64
    }

    /// The sleep that follows tick `tick` when `elapsed` microseconds have
    /// passed since the cycle started: what is left until the tick's target,
    /// and nothing where the target has passed.
    pub fn sleep_micros(&self, tick: u64, elapsed: u64) -> (s: u64)
        requires
            self.wf(),
            tick < self.total_ticks_spec(),
        ensures
            s == self.sleep_spec(tick as int, elapsed as int),
            elapsed + s == if elapsed >= self.target_spec(tick as int) {
                elapsed as int
            } else {
                self.target_spec(tick as int)
            },
    {
        let target: u64 = self.target_micros(tick);
        if target > elapsed {
            target - elapsed
        } else {
            0
        }
    }
}

/// Milliseconds that `beats` thousandths of a beat last at `bpm` beats per
/// minute, rounded to the nearest millisecond with halves rounded up. At a
/// tempo of zero a beat never ends: the length is `u64::MAX`, but for no
/// beats at all, which last no time.
pub open spec fn beats_to_millis_spec(beats: u32, bpm: u32) -> int {
    if bpm == 0 {
        if beats == 0 {
            0
        } else {
            u64::MAX as int
        }
    } else {
        (beats * 120 + bpm) / (2 * bpm)
    }
}

/// Milliseconds that `beats` thousandths of a beat last at `bpm` beats per
/// minute.
pub fn beats_to_millis(beats: u32, bpm: u32) -> (millis: u64)
    ensures
        millis == beats_to_millis_spec(beats, bpm),
        bpm > 0 ==> 2 * millis * bpm - bpm <= beats * 120 < 2 * millis * bpm + bpm,
{
    if bpm == 0 {
        if beats == 0 {
            0
        } else {
            u64::MAX
        }
    } else {
        let doubled: u64 = (beats as u64) * 120 + (bpm as u64);
        let divisor: u64 = 2 * (bpm as u64);
        proof {
            lemma_fundamental_div_mod(doubled as int, divisor as int);
            lemma_mod_bound(doubled as int, divisor as int);
            let q = doubled as int / divisor as int;
            assert(divisor * q == 2 * q * bpm) by (nonlinear_arith)
                requires
                    divisor == 2 * bpm,
            ;
        }
        doubled / divisor
    }
}

/// Rounds `numerator / denominator` beats to the nearest step of a grid with
/// `steps_per_beat` steps to the beat; a position half way between two steps
/// goes to the later one.
pub open spec fn quantize_spec(numerator: int, denominator: int, steps_per_beat: int) -> int {
    (2 * steps_per_beat * numerator + denominator) / (2 * denominator)
}

/// Rounds `numerator / denominator` beats to the nearest step of a grid with
/// `steps_per_beat` steps to the beat, or gives `None` where the step does
/// not fit in 32 bits.
pub fn quantize(numerator: u64, denominator: u32, steps_per_beat: u32) -> (step: Option<u32>)
    requires
        denominator > 0,
    ensures
        step == if quantize_spec(numerator as int, denominator as int, steps_per_beat as int)
            <= u32::MAX {
            Some(
                quantize_spec(numerator as int, denominator as int, steps_per_beat as int) as u32,
            )
        } else {
            None
        },
{
    assert(2 * steps_per_beat * numerator <= 2 * 0xffff_ffff * 0xffff_ffff_ffff_ffff)
        by (nonlinear_arith)
        requires
            0 <= steps_per_beat <= 0xffff_ffff,
            0 <= numerator <= 0xffff_ffff_ffff_ffff,
    ;
    let doubled: u128 = 2 * (steps_per_beat as u128) * (numerator as u128) + (denominator as u128);
    let step: u128 = doubled / (2 * (denominator as u128));
    if step > 0xffff_ffff {
        None
    } else {
        Some(step as u32)
    }
}

/// A position of whole beats is rounded to itself.
pub proof fn lemma_quantize_whole_beats(beats: int, denominator: int, steps_per_beat: int)
    requires
        denominator > 0,
    ensures
        quantize_spec(beats * denominator, denominator, steps_per_beat) == steps_per_beat * beats,
{
    let d = 2 * denominator;
    let k = steps_per_beat * beats;
    assert(2 * steps_per_beat * (beats * denominator) + denominator == d * k + denominator)
        by (nonlinear_arith)
        requires
            d == 2 * denominator,
            k == steps_per_beat * beats,
    ;
    vstd::arithmetic::div_mod::lemma_fundamental_div_mod_converse_div(
        d * k + denominator,
        d,
        k,
        denominator,
    );
}

/// A tick never ends later than the cycle does.
pub proof fn lemma_target_bounded(m: Meter, tick: int)
    requires
        m.wf(),
        0 <= tick < m.total_ticks_spec(),
    ensures
        0 <= m.target_spec(tick) <= m.cycle_spec(),
{
    let k = MICROS_PER_MINUTE as int;
    let n = m.ticks_per_beat as int;
    let b = m.bpm as int;
    let l = m.loop_beats as int;
    assert(b * n > 0) by (nonlinear_arith)
        requires
            b > 0,
            n > 0,
    ;
    assert((tick + 1) * k <= (l * n) * k) by (nonlinear_arith)
        requires
            tick + 1 <= l * n,
            k >= 0,
    ;
    assert((tick + 1) * k >= 0) by (nonlinear_arith)
        requires
            tick >= 0,
            k >= 0,
    ;
    lemma_div_is_ordered((tick + 1) * k, (l * n) * k, b * n);
    lemma_div_is_ordered(0, (tick + 1) * k, b * n);
    lemma_last_target_is_cycle(m);
}

/// A cycle lasts at most `loop_beats` minutes.
pub proof fn lemma_cycle_bounded(m: Meter)
    requires
        m.wf(),
    ensures
        0 <= m.cycle_spec() <= m.loop_beats * MICROS_PER_MINUTE,
        m.cycle_spec() <= u64::MAX,
{
    let x = m.loop_beats * MICROS_PER_MINUTE as int;
    let b = m.bpm as int;
    assert(0 <= x <= 0xffff_ffff * 60_000_000) by (nonlinear_arith)
        requires
            x == m.loop_beats * MICROS_PER_MINUTE as int,
            MICROS_PER_MINUTE == 60_000_000,
            0 <= m.loop_beats <= 0xffff_ffff,
    ;
    lemma_fundamental_div_mod(x, b);
    lemma_mod_bound(x, b);
    assert(0 <= x / b <= x) by (nonlinear_arith)
        requires
            x == b * (x / b) + x % b,
            0 <= x % b < b,
            b >= 1,
            x >= 0,
    ;
}

/// The last tick of a cycle ends when the cycle does.
pub proof fn lemma_last_target_is_cycle(m: Meter)
    requires
        m.wf(),
    ensures
        m.target_spec(m.total_ticks_spec() - 1) == m.cycle_spec(),
{
    let k = MICROS_PER_MINUTE as int;
    let n = m.ticks_per_beat as int;
    let b = m.bpm as int;
    let l = m.loop_beats as int;
    let x = l * k;
    assert((l * n) * k == x * n) by (nonlinear_arith)
        requires
            x == l * k,
    ;
    assert(x >= 0) by (nonlinear_arith)
        requires
            x == l * k,
            l >= 0,
            k >= 0,
    ;
    lemma_div_cancel(x, b, n);
}

/// A common factor of numerator and denominator cancels.
proof fn lemma_div_cancel(x: int, b: int, n: int)
    requires
        x >= 0,
        b > 0,
        n > 0,
    ensures
        (x * n) / (b * n) == x / b,
{
    let q = x / b;
    let r = x % b;
    lemma_fundamental_div_mod(x, b);
    lemma_mod_bound(x, b);
    assert(x * n == q * (b * n) + r * n) by (nonlinear_arith)
        requires
            x == b * q + r,
    ;
    assert(0 <= r * n < b * n) by (nonlinear_arith)
        requires
            0 <= r < b,
            n > 0,
    ;
    assert(b * n > 0) by (nonlinear_arith)
        requires
            b > 0,
            n > 0,
    ;
    vstd::arithmetic::div_mod::lemma_fundamental_div_mod_converse_div(x * n, b * n, q, r * n);
}

/// A step falls on one tick at most.
pub proof fn lemma_on_one_tick_only(m: Meter, step: int, a: int, b: int)
    requires
        m.wf(),
        m.on_tick(step, a),
        m.on_tick(step, b),
    ensures
        a == b,
{
    let q = m.steps_per_beat as int;
    assert(a == b) by (nonlinear_arith)
        requires
            a * q == b * q,
            q > 0,
    ;
}

/// The step that stands `beat` whole beats into the cycle falls on the tick
/// that stands `beat` whole beats into the cycle, and on no other, whatever
/// the resolutions of the two grids.
pub proof fn lemma_whole_beat_on_tick(m: Meter, beat: int, tick: int)
    requires
        m.wf(),
    ensures
        m.on_tick(beat * m.steps_per_beat, tick) <==> tick == beat * m.ticks_per_beat,
{
    let q = m.steps_per_beat as int;
    let n = m.ticks_per_beat as int;
    assert((beat * q) * n == (beat * n) * q) by (nonlinear_arith);
    if m.on_tick(beat * q, tick) {
        lemma_on_one_tick_only(m, beat * q, tick, beat * n);
    }
}

/// From one tick to the next the target moves on by a tick's length at
/// least.
pub proof fn lemma_target_step(m: Meter, tick: int)
    requires
        m.wf(),
        tick >= 1,
    ensures
        m.target_spec(tick) >= m.target_spec(tick - 1) + m.tick_duration_spec(),
{
    let k = MICROS_PER_MINUTE as int;
    let d = m.ticks_per_minute();
    assert(d > 0) by (nonlinear_arith)
        requires
            d == m.bpm * m.ticks_per_beat,
            m.bpm > 0,
            m.ticks_per_beat > 0,
    ;
    let a = tick * k;
    assert((tick + 1) * k == a + k) by (nonlinear_arith)
        requires
            a == tick * k,
    ;
    assert((tick - 1 + 1) * k == a) by (nonlinear_arith)
        requires
            a == tick * k,
    ;
    lemma_fundamental_div_mod(a, d);
    lemma_fundamental_div_mod(k, d);
    lemma_mod_bound(a, d);
    lemma_mod_bound(k, d);
    let whole = a / d + k / d;
    assert(d * whole == d * (a / d) + d * (k / d)) by (nonlinear_arith)
        requires
            whole == a / d + k / d,
    ;
    lemma_div_is_ordered(d * whole, a + k, d);
    vstd::arithmetic::div_mod::lemma_div_multiples_vanish(whole, d);
}

/// The clock reading at which the sleep after tick `tick` ends, where the
/// clock read `elapsed` when the sleep began and the sleep lasts as long as
/// was asked: the later of the reading and the tick's target.
pub open spec fn wake_spec(m: Meter, tick: int, elapsed: int) -> int {
    elapsed + m.sleep_spec(tick, elapsed)
}

/// The time tick `i` took apart from its sleep, where `readings[i]` is the
/// clock reading from which the sleep after tick `i` was measured: what
/// passed between the end of the previous tick's sleep, or the start of the
/// cycle, and that reading.
pub open spec fn overhead(m: Meter, readings: Seq<int>, i: int) -> int {
    if i == 0 {
        readings[0]
    } else {
        readings[i] - wake_spec(m, i - 1, readings[i - 1])
    }
}

/// The sleeps of the first `n` ticks, added up.
pub open spec fn total_sleep(m: Meter, readings: Seq<int>, n: int) -> int
    decreases n,
{
    if n <= 0 {
        0
    } else {
        total_sleep(m, readings, n - 1) + m.sleep_spec(n - 1, readings[n - 1])
    }
}

/// The overheads of the first `n` ticks, added up.
pub open spec fn total_overhead(m: Meter, readings: Seq<int>, n: int) -> int
    decreases n,
{
    if n <= 0 {
        0
    } else {
        total_overhead(m, readings, n - 1) + overhead(m, readings, n - 1)
    }
}

/// Sleeps and overheads of the first `n` ticks add up to the time at which
/// the last of these ticks ends.
pub proof fn lemma_time_telescopes(m: Meter, readings: Seq<int>, n: int)
    requires
        1 <= n <= readings.len(),
    ensures
        total_sleep(m, readings, n) + total_overhead(m, readings, n) == wake_spec(
            m,
            n - 1,
            readings[n - 1],
        ),
    decreases n,
{
    if n > 1 {
        lemma_time_telescopes(m, readings, n - 1);
    } else {
        assert(total_sleep(m, readings, 0) == 0);
        assert(total_overhead(m, readings, 0) == 0);
    }
}

/// How late tick `i` ends: the time between its target and the end of its
/// sleep.
pub open spec fn lateness(m: Meter, readings: Seq<int>, i: int) -> int {
    wake_spec(m, i, readings[i]) - m.target_spec(i)
}

/// Lateness does not add up. A tick ends late by what the tick before it
/// was late plus what its own overhead is longer than the time between the
/// two targets, and on time where that comes to nothing or less: time that
/// one tick loses is taken out of the sleeps of the ticks that follow.
pub proof fn lemma_lateness_is_made_up_for(m: Meter, readings: Seq<int>, i: int)
    requires
        1 <= i < readings.len(),
    ensures
        lateness(m, readings, i) == if lateness(m, readings, i - 1) + overhead(m, readings, i) > (
        m.target_spec(i) - m.target_spec(i - 1)) {
            lateness(m, readings, i - 1) + overhead(m, readings, i) - (m.target_spec(i)
                - m.target_spec(i - 1))
        } else {
            0
        },
        lateness(m, readings, i) >= 0,
{
}

/// However the overheads fall, the sleeps and overheads of a whole cycle
/// add up to the length of the cycle, unless the last tick's own overhead
/// runs past the end of the cycle: lateness is made up for, not passed on.
pub proof fn lemma_cycle_time(m: Meter, readings: Seq<int>)
    requires
        m.wf(),
        readings.len() == m.total_ticks_spec(),
    ensures
        total_sleep(m, readings, readings.len() as int) + total_overhead(
            m,
            readings,
            readings.len() as int,
        ) == if readings.last() > m.cycle_spec() {
            readings.last()
        } else {
            m.cycle_spec()
        },
{
    let n = readings.len() as int;
    assert(n >= 1) by (nonlinear_arith)
        requires
            n == m.loop_beats * m.ticks_per_beat,
            m.loop_beats >= 1,
            m.ticks_per_beat >= 1,
    ;
    lemma_time_telescopes(m, readings, n);
    lemma_last_target_is_cycle(m);
}

/// Where no tick's overhead is longer than a tick, every tick ends on its
/// target, and the sleeps and overheads of a cycle add up to the length of
/// the cycle exactly, however many ticks the cycle has.
pub proof fn lemma_no_drift(m: Meter, readings: Seq<int>)
    requires
        m.wf(),
        readings.len() == m.total_ticks_spec(),
        forall|i: int|
            0 <= i < readings.len() ==> #[trigger] overhead(m, readings, i)
                <= m.tick_duration_spec(),
    ensures
        forall|i: int|
            0 <= i < readings.len() ==> #[trigger] wake_spec(m, i, readings[i]) == m.target_spec(i),
        total_sleep(m, readings, readings.len() as int) + total_overhead(
            m,
            readings,
            readings.len() as int,
        ) == m.cycle_spec(),
{
    let n = readings.len() as int;
    assert forall|i: int| 0 <= i < n implies #[trigger] wake_spec(m, i, readings[i])
        == m.target_spec(i) by {
        lemma_ticks_end_on_target(m, readings, i);
    }
    lemma_cycle_time(m, readings);
    lemma_last_target_is_cycle(m);
    assert(n >= 1) by (nonlinear_arith)
        requires
            n == m.loop_beats * m.ticks_per_beat,
            m.loop_beats >= 1,
            m.ticks_per_beat >= 1,
    ;
    assert(wake_spec(m, n - 1, readings[n - 1]) == m.target_spec(n - 1));
}

/// Where no tick up to `i` has an overhead longer than a tick, tick `i`
/// ends on its target.
proof fn lemma_ticks_end_on_target(m: Meter, readings: Seq<int>, i: int)
    requires
        m.wf(),
        0 <= i < readings.len(),
        forall|k: int|
            0 <= k < readings.len() ==> #[trigger] overhead(m, readings, k)
                <= m.tick_duration_spec(),
    ensures
        wake_spec(m, i, readings[i]) == m.target_spec(i),
    decreases i,
{
    assert(overhead(m, readings, i) <= m.tick_duration_spec());
    if i > 0 {
        lemma_ticks_end_on_target(m, readings, i - 1);
        lemma_target_step(m, i);
    }
}

} // verus!
