//! The scheduling loop as a state machine.
//!
//! The scheduler decides; the caller waits, reads the clock and the flags,
//! and reports back. One call of [`Scheduler::step`] takes what happened and
//! answers with what to do next:
//!
//! * [`Action::AwaitReady`]: poll the observer's readiness flag again after
//!   the given time, then report [`Event::Start`];
//! * [`Action::Fire`]: where the tick is 0, restart the cycle clock; publish
//!   the tick as the playhead, take a snapshot of the patterns, dispatch
//!   what fires on the tick, read the clock, then report
//!   [`Event::Dispatched`];
//! * [`Action::Sleep`]: sleep for the given time, read the cancellation
//!   flag, then report [`Event::Slept`];
//! * [`Action::Halt`]: the scheduler is idle, stop;
//! * [`Action::Ignore`]: the event has no place in the present state and
//!   changed nothing.
//!
//! Cancellation is looked at between ticks only, and acted upon between
//! cycles only: a cycle that has begun is played to its last tick.

use vstd::prelude::*;
use crate::timing::Meter;

verus! {

/// Milliseconds between two looks at the observer's readiness flag.
pub const READY_POLL_MILLIS: u64 = 100;

/// Whether the scheduler plays.
#[derive(Clone, Copy, Debug, PartialEq, Eq)]
pub enum Phase {
    /// Not playing.
    Idle,
    /// Playing cycle after cycle.
    Running,
    /// Playing the present cycle to its end.
    Stopping,
}

/// Where in a tick the scheduler is.
#[derive(Clone, Copy, Debug, PartialEq, Eq)]
pub enum Stage {
    /// The tick was fired; its dispatch is not reported yet.
    Firing,
    /// The tick's sleep was asked for; its end is not reported yet.
    Sleeping,
}

/// What happened.
#[derive(Clone, Copy, Debug, PartialEq, Eq)]
pub enum Event {
    /// Playing is asked for. `ready` is the observer's readiness flag and
    /// `cancel` the cancellation flag, both as read now.
    Start { ready: bool, cancel: bool },
    /// The tick's events were dispatched, and the clock now reads
    /// `elapsed_micros` microseconds since the cycle started.
    Dispatched { elapsed_micros: u64 },
    /// The tick's sleep has ended. `cancel` is the cancellation flag as read
    /// now.
    Slept { cancel: bool },
}

/// What to do next.
#[derive(Clone, Copy, Debug, PartialEq, Eq)]
pub enum Action {
    /// Look at the readiness flag again after this many milliseconds.
    AwaitReady { poll_millis: u64 },
    /// Play this tick of the cycle.
    Fire { tick: u64 },
    /// Sleep for this many microseconds.
    Sleep { micros: u64 },
    /// Stop: the scheduler is idle.
    Halt,
    /// Nothing: the event was out of place.
    Ignore,
}

/// A scheduler's state.
pub struct SchedulerView {
    pub meter: Meter,
    pub phase: Phase,
    pub stage: Stage,
    /// The tick that was fired last in the present cycle.
    pub tick: int,
}

impl SchedulerView {
    /// The meter is well formed and the tick lies in the cycle.
    pub open spec fn wf(self) -> bool {
        &&& self.meter.wf()
        &&& 0 <= self.tick < self.meter.total_ticks_spec()
    }

    /// An idle scheduler.
    pub open spec fn idle(meter: Meter) -> SchedulerView {
        SchedulerView { meter, phase: Phase::Idle, stage: Stage::Firing, tick: 0 }
    }

    /// The state in which tick `tick` has just been fired.
    pub open spec fn firing(self, phase: Phase, tick: int) -> SchedulerView {
        SchedulerView { meter: self.meter, phase, stage: Stage::Firing, tick }
    }

    /// The state after `event`.
    pub open spec fn next(self, event: Event) -> SchedulerView {
        step_spec(self, event).0
    }

    /// The answer to `event`.
    pub open spec fn answer(self, event: Event) -> Action {
        step_spec(self, event).1
    }
}

/// The state after an event and the answer to it.
pub open spec fn step_spec(s: SchedulerView, event: Event) -> (SchedulerView, Action) {
    match s.phase {
        Phase::Idle => match event {
            Event::Start { ready, cancel } => if cancel {
                (s, Action::Halt)
            } else if !ready {
                (s, Action::AwaitReady { poll_millis: READY_POLL_MILLIS })
            } else {
                (s.firing(Phase::Running, 0), Action::Fire { tick: 0 })
            },
            _ => (s, Action::Ignore),
        },
        _ => match (s.stage, event) {
            (Stage::Firing, Event::Dispatched { elapsed_micros }) => (
                SchedulerView { stage: Stage::Sleeping, ..s },
                Action::Sleep { micros: s.meter.sleep_spec(s.tick, elapsed_micros as int) as u64 },
            ),
            (Stage::Sleeping, Event::Slept { cancel }) => {
                let phase = if cancel {
                    Phase::Stopping
                } else {
                    s.phase
                };
                if s.tick + 1 < s.meter.total_ticks_spec() {
                    (s.firing(phase, s.tick + 1), Action::Fire { tick: (s.tick + 1) as u64 })
                } else if phase == Phase::Stopping {
                    (SchedulerView::idle(s.meter), Action::Halt)
                } else {
                    (s.firing(phase, 0), Action::Fire { tick: 0 })
                }
            },
            _ => (s, Action::Ignore),
        },
    }
}

/// The scheduling loop's decisions.
#[derive(Clone, Copy, Debug)]
pub struct Scheduler {
    meter: Meter,
    phase: Phase,
    stage: Stage,
    tick: u64,
}

impl View for Scheduler {
    type V = SchedulerView;

    closed spec fn view(&self) -> SchedulerView {
        SchedulerView {
            meter: self.meter,
            phase: self.phase,
            stage: self.stage,
            tick: self.tick as int,
        }
    }
}

impl Scheduler {
    #[verifier::type_invariant]
    spec fn inv(&self) -> bool {
        self@.wf()
    }

    /// An idle scheduler for the given meter.
    pub fn new(meter: Meter) -> (s: Scheduler)
        requires
            meter.wf(),
        ensures
            s@ == SchedulerView::idle(meter),
            s@.wf(),
    {
        assert(meter.total_ticks_spec() > 0) by (nonlinear_arith)
            requires
                meter.loop_beats > 0,
                meter.ticks_per_beat > 0,
                meter.total_ticks_spec() == meter.loop_beats * meter.ticks_per_beat,
        ;
        Scheduler { meter, phase: Phase::Idle, stage: Stage::Firing, tick: 0 }
    }

    /// The meter the scheduler was made for.
    pub fn meter(&self) -> (m: Meter)
        ensures
            m == self@.meter,
            m.wf(),
    {
        proof {
            use_type_invariant(self);
        }
        self.meter
    }

    /// Whether the scheduler plays.
    pub fn phase(&self) -> (p: Phase)
        ensures
            p == self@.phase,
    {
        self.phase
    }

    /// Where in a tick the scheduler is.
    pub fn stage(&self) -> (s: Stage)
        ensures
            s == self@.stage,
    {
        self.stage
    }

    /// The playhead: the tick that was fired last, counted from the start
    /// of the cycle. It stands `playhead / ticks_per_beat` beats into the
    /// cycle.
    pub fn playhead(&self) -> (tick: u64)
        ensures
            tick == self@.tick,
            tick < self@.meter.total_ticks_spec(),
    {
        proof {
            use_type_invariant(self);
        }
        self.tick
    }

    /// Takes in what happened and says what to do next.
    pub fn step(&mut self, event: Event) -> (action: Action)
        ensures
            final(self)@ == old(self)@.next(event),
            action == old(self)@.answer(event),
            final(self)@.wf(),
    {
        proof {
            use_type_invariant(&*self);
        }
        let total: u64 = self.meter.total_ticks();
        match self.phase {
            Phase::Idle => match event {
                Event::Start { ready, cancel } => {
                    if cancel {
                        Action::Halt
                    } else if !ready {
                        Action::AwaitReady { poll_millis: READY_POLL_MILLIS }
                    } else {
                        self.phase = Phase::Running;
                        self.stage = Stage::Firing;
                        self.tick = 0;
                        Action::Fire { tick: 0 }
                    }
                },
                _ => Action::Ignore,
            },
            _ => match (self.stage, event) {
                (Stage::Firing, Event::Dispatched { elapsed_micros }) => {
                    let micros: u64 = self.meter.sleep_micros(self.tick, elapsed_micros);
                    self.stage = Stage::Sleeping;
                    Action::Sleep { micros }
                },
                (Stage::Sleeping, Event::Slept { cancel }) => {
                    if cancel {
                        self.phase = Phase::Stopping;
                    }
                    if self.tick + 1 < total {
                        self.stage = Stage::Firing;
                        self.tick = self.tick + 1;
                        Action::Fire { tick: self.tick }
                    } else {
                        self.stage = Stage::Firing;
                        self.tick = 0;
                        match self.phase {
                            Phase::Stopping => {
                                self.phase = Phase::Idle;
                                Action::Halt
                            },
                            _ => Action::Fire { tick: 0 },
                        }
                    }
                },
                _ => Action::Ignore,
            },
        }
    }
}

/// The state after a run of events.
pub open spec fn run(s: SchedulerView, events: Seq<Event>) -> SchedulerView
    decreases events.len(),
{
    if events.len() == 0 {
        s
    } else {
        run(s, events.drop_last()).next(events.last())
    }
}

/// The ticks that a run of events fires, in order.
pub open spec fn fired(s: SchedulerView, events: Seq<Event>) -> Seq<int>
    decreases events.len(),
{
    if events.len() == 0 {
        Seq::empty()
    } else {
        match run(s, events.drop_last()).answer(events.last()) {
            Action::Fire { tick } => fired(s, events.drop_last()).push(tick as int),
            _ => fired(s, events.drop_last()),
        }
    }
}

/// A run of events as a well-behaved caller reports them from a tick that
/// was just fired: dispatch, sleep, dispatch, sleep, and so on.
pub open spec fn orderly(events: Seq<Event>) -> bool {
    forall|i: int|
        0 <= i < events.len() ==> if i % 2 == 0 {
            #[trigger] events[i] is Dispatched
        } else {
            events[i] is Slept
        }
}

/// The ticks of a cycle can be counted in 64 bits.
pub proof fn lemma_ticks_fit(m: Meter)
    ensures
        0 <= m.total_ticks_spec() <= u64::MAX,
{
    assert(0 <= m.loop_beats * m.ticks_per_beat <= 0xffff_ffff * 0xffff_ffff) by (nonlinear_arith)
        requires
            0 <= m.loop_beats <= 0xffff_ffff,
            0 <= m.ticks_per_beat <= 0xffff_ffff,
    ;
}

/// Every step keeps the state well formed, and the playhead only moves
/// forward by one tick or back to the start of the cycle, and back to the
/// start only from the last tick.
pub proof fn lemma_playhead_advances_or_wraps(s: SchedulerView, event: Event)
    requires
        s.wf(),
    ensures
        s.next(event).wf(),
        s.answer(event) matches Action::Fire { tick } ==> s.next(event).tick == tick && (tick
            == s.tick + 1 || (tick == 0 && (s.phase == Phase::Idle || s.tick + 1
            == s.meter.total_ticks_spec()))),
        !(s.answer(event) is Fire) ==> s.next(event).tick == s.tick || s.next(event).phase
            == Phase::Idle,
{
    lemma_ticks_fit(s.meter);
}

/// Cancellation is taken between ticks: a sleep that ends with the flag
/// raised leaves the scheduler stopping, and on the next tick of the same
/// cycle; after the last tick of the cycle it leaves it idle, and no tick
/// is fired.
pub proof fn lemma_cancel_ends_after_the_cycle(s: SchedulerView)
    requires
        s.wf(),
        s.phase != Phase::Idle,
        s.stage == Stage::Sleeping,
    ensures
        s.tick + 1 < s.meter.total_ticks_spec() ==> s.next(Event::Slept { cancel: true })
            == s.firing(Phase::Stopping, s.tick + 1) && s.answer(Event::Slept { cancel: true })
            == (Action::Fire { tick: (s.tick + 1) as u64 }),
        s.tick + 1 == s.meter.total_ticks_spec() ==> s.next(Event::Slept { cancel: true })
            == SchedulerView::idle(s.meter) && s.answer(Event::Slept { cancel: true })
            == Action::Halt,
{
    lemma_ticks_fit(s.meter);
}

/// A scheduler that is stopping never starts another cycle: whatever is
/// reported to it, short of a new request to start, it fires only ticks of
/// the present cycle, each once and in order, and never runs again.
pub proof fn lemma_stopping_plays_no_further_cycle(s: SchedulerView, events: Seq<Event>)
    requires
        s.wf(),
        s.phase == Phase::Stopping,
        forall|i: int| 0 <= i < events.len() ==> !(#[trigger] events[i] is Start),
    ensures
        run(s, events).wf(),
        run(s, events).phase != Phase::Running,
        run(s, events).phase == Phase::Stopping ==> run(s, events).tick == s.tick + fired(
            s,
            events,
        ).len(),
        s.tick + fired(s, events).len() < s.meter.total_ticks_spec(),
        forall|k: int|
            0 <= k < fired(s, events).len() ==> #[trigger] fired(s, events)[k] == s.tick + 1 + k,
    decreases events.len(),
{
    if events.len() > 0 {
        lemma_stopping_plays_no_further_cycle(s, events.drop_last());
        lemma_run_keeps_meter(s, events.drop_last());
        lemma_ticks_fit(s.meter);
    }
}

/// The meter never changes.
pub proof fn lemma_run_keeps_meter(s: SchedulerView, events: Seq<Event>)
    ensures
        run(s, events).meter == s.meter,
    decreases events.len(),
{
    if events.len() > 0 {
        lemma_run_keeps_meter(s, events.drop_last());
    }
}

/// A scheduler that is stopping plays the present cycle to its end: when
/// the dispatch and the sleep of each remaining tick are reported in turn,
/// it fires every remaining tick of the cycle, and is idle after the last.
pub proof fn lemma_stopping_completes_the_cycle(s: SchedulerView, events: Seq<Event>)
    requires
        s.wf(),
        s.phase == Phase::Stopping,
        s.stage == Stage::Firing,
        orderly(events),
        events.len() == 2 * (s.meter.total_ticks_spec() - s.tick),
    ensures
        run(s, events) == SchedulerView::idle(s.meter),
        fired(s, events) =~= Seq::new(
            (s.meter.total_ticks_spec() - s.tick - 1) as nat,
            |k: int| s.tick + 1 + k,
        ),
{
    let last = s.meter.total_ticks_spec() - s.tick - 1;
    lemma_ticks_fit(s.meter);
    lemma_stopping_plays_ticks(s, events, last);
    // What is left is the last tick: its dispatch, then its sleep.
    let sleeping = events.drop_last();
    assert(sleeping.drop_last() =~= events.take(2 * last));
    assert(fired(s, events) == fired(s, sleeping));
}

/// After the reports of `done` ticks a stopping scheduler has fired the
/// next `done` ticks and is waiting for the dispatch of the last of them.
proof fn lemma_stopping_plays_ticks(s: SchedulerView, events: Seq<Event>, done: int)
    requires
        s.wf(),
        s.phase == Phase::Stopping,
        s.stage == Stage::Firing,
        orderly(events),
        0 <= done,
        s.tick + done < s.meter.total_ticks_spec(),
        2 * done <= events.len(),
    ensures
        run(s, events.take(2 * done)) == s.firing(Phase::Stopping, s.tick + done),
        fired(s, events.take(2 * done)) =~= Seq::new(done as nat, |k: int| s.tick + 1 + k),
    decreases done,
{
    if done > 0 {
        lemma_stopping_plays_ticks(s, events, done - 1);
        lemma_ticks_fit(s.meter);
        // One more tick: its dispatch, then its sleep.
        let slept = events.take(2 * done);
        let sleeping = events.take(2 * done - 1);
        assert(sleeping.drop_last() =~= events.take(2 * (done - 1)));
        assert(slept.drop_last() =~= sleeping);
        assert(fired(s, slept) == fired(s, sleeping).push(s.tick + done));
    }
}

} // verus!
