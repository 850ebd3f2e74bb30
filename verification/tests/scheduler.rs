use groovebox::scheduler::Action;
use groovebox::scheduler::Event;
use groovebox::scheduler::Phase;
use groovebox::scheduler::Scheduler;
use groovebox::scheduler::Stage;
use groovebox::scheduler::READY_POLL_MILLIS;
use groovebox::timing::Meter;

fn one_beat() -> Scheduler {
    Scheduler::new(Meter::new(120, 1).unwrap())
}

fn started() -> Scheduler {
    let mut s = one_beat();
    assert_eq!(s.step(Event::Start { ready: true, cancel: false }), Action::Fire { tick: 0 });
    s
}

/// Plays one tick of an on-time caller and returns the answer to the end of the sleep.
fn play_tick(s: &mut Scheduler, cancel: bool) -> Action {
    let answer = s.step(Event::Dispatched { elapsed_micros: 0 });
    assert!(matches!(answer, Action::Sleep { .. }));
    s.step(Event::Slept { cancel })
}

#[test]
fn new_scheduler_is_idle() {
    let s = one_beat();
    assert_eq!(s.phase(), Phase::Idle);
    assert_eq!(s.playhead(), 0);
    assert_eq!(s.meter(), Meter::new(120, 1).unwrap());
}

#[test]
fn start_waits_for_the_observer() {
    let mut s = one_beat();
    for _ in 0..5 {
        assert_eq!(
            s.step(Event::Start { ready: false, cancel: false }),
            Action::AwaitReady { poll_millis: 100 }
        );
        assert_eq!(s.phase(), Phase::Idle);
    }
    assert_eq!(READY_POLL_MILLIS, 100);
    assert_eq!(s.step(Event::Start { ready: true, cancel: false }), Action::Fire { tick: 0 });
    assert_eq!(s.phase(), Phase::Running);
    assert_eq!(s.stage(), Stage::Firing);
}

#[test]
fn start_after_cancellation_halts() {
    let mut s = one_beat();
    assert_eq!(s.step(Event::Start { ready: true, cancel: true }), Action::Halt);
    assert_eq!(s.step(Event::Start { ready: false, cancel: true }), Action::Halt);
    assert_eq!(s.phase(), Phase::Idle);
}

#[test]
fn idle_scheduler_ignores_ticks() {
    let mut s = one_beat();
    assert_eq!(s.step(Event::Dispatched { elapsed_micros: 5 }), Action::Ignore);
    assert_eq!(s.step(Event::Slept { cancel: false }), Action::Ignore);
    assert_eq!(s.step(Event::Slept { cancel: true }), Action::Ignore);
    assert_eq!(s.phase(), Phase::Idle);
    assert_eq!(s.playhead(), 0);
}

#[test]
fn running_scheduler_ignores_events_out_of_turn() {
    let mut s = started();
    assert_eq!(s.step(Event::Start { ready: true, cancel: false }), Action::Ignore);
    assert_eq!(s.step(Event::Slept { cancel: true }), Action::Ignore);
    assert_eq!(s.phase(), Phase::Running);
    assert_eq!(s.stage(), Stage::Firing);
    assert_eq!(s.step(Event::Dispatched { elapsed_micros: 0 }), Action::Sleep { micros: 62_500 });
    assert_eq!(s.stage(), Stage::Sleeping);
    assert_eq!(s.step(Event::Dispatched { elapsed_micros: 0 }), Action::Ignore);
    assert_eq!(s.step(Event::Start { ready: true, cancel: true }), Action::Ignore);
    assert_eq!(s.stage(), Stage::Sleeping);
    assert_eq!(s.playhead(), 0);
}

#[test]
fn sleep_is_measured_from_the_start_of_the_cycle() {
    let mut s = started();
    // Tick 0 took 2.5 ms: sleep what is left of 62.5 ms.
    assert_eq!(
        s.step(Event::Dispatched { elapsed_micros: 2_500 }),
        Action::Sleep { micros: 60_000 }
    );
    assert_eq!(s.step(Event::Slept { cancel: false }), Action::Fire { tick: 1 });
    // The sleep overran by 10 ms and tick 1 took 1 ms: the target of tick 1 is 125 ms.
    assert_eq!(
        s.step(Event::Dispatched { elapsed_micros: 73_500 }),
        Action::Sleep { micros: 51_500 }
    );
    assert_eq!(s.step(Event::Slept { cancel: false }), Action::Fire { tick: 2 });
    // Tick 2 is reported after its target, 187.5 ms: no sleep, and no catching up.
    assert_eq!(s.step(Event::Dispatched { elapsed_micros: 200_000 }), Action::Sleep { micros: 0 });
    assert_eq!(s.step(Event::Slept { cancel: false }), Action::Fire { tick: 3 });
    assert_eq!(
        s.step(Event::Dispatched { elapsed_micros: 200_100 }),
        Action::Sleep { micros: 49_900 }
    );
}

#[test]
fn cycle_wraps_to_tick_zero() {
    let mut s = started();
    let mut fired = vec![0];
    for _ in 0..20 {
        match play_tick(&mut s, false) {
            Action::Fire { tick } => {
                assert_eq!(s.playhead(), tick);
                fired.push(tick);
            }
            other => panic!("{:?}", other),
        }
    }
    assert_eq!(fired, vec![0, 1, 2, 3, 4, 5, 6, 7, 0, 1, 2, 3, 4, 5, 6, 7, 0, 1, 2, 3, 4]);
    assert_eq!(s.phase(), Phase::Running);
}

#[test]
fn cancellation_mid_cycle_plays_the_cycle_out() {
    let mut s = started();
    assert_eq!(play_tick(&mut s, false), Action::Fire { tick: 1 });
    assert_eq!(play_tick(&mut s, false), Action::Fire { tick: 2 });
    // Cancellation is seen after tick 2.
    assert_eq!(play_tick(&mut s, true), Action::Fire { tick: 3 });
    assert_eq!(s.phase(), Phase::Stopping);
    // The flag may drop again; the scheduler keeps stopping.
    assert_eq!(play_tick(&mut s, false), Action::Fire { tick: 4 });
    assert_eq!(s.phase(), Phase::Stopping);
    assert_eq!(play_tick(&mut s, true), Action::Fire { tick: 5 });
    assert_eq!(play_tick(&mut s, false), Action::Fire { tick: 6 });
    assert_eq!(play_tick(&mut s, false), Action::Fire { tick: 7 });
    // After the last tick the scheduler halts: tick 0 of a next cycle is never fired.
    assert_eq!(play_tick(&mut s, false), Action::Halt);
    assert_eq!(s.phase(), Phase::Idle);
    assert_eq!(s.playhead(), 0);
    assert_eq!(s.step(Event::Dispatched { elapsed_micros: 0 }), Action::Ignore);
    assert_eq!(s.step(Event::Slept { cancel: false }), Action::Ignore);
}

#[test]
fn cancellation_after_the_last_tick_halts_at_once() {
    let mut s = started();
    for tick in 1..8 {
        assert_eq!(play_tick(&mut s, false), Action::Fire { tick });
    }
    assert_eq!(s.phase(), Phase::Running);
    assert_eq!(play_tick(&mut s, true), Action::Halt);
    assert_eq!(s.phase(), Phase::Idle);
}

#[test]
fn cancellation_in_the_first_tick_plays_one_cycle() {
    let mut s = started();
    let mut fired = vec![0];
    let mut answer = play_tick(&mut s, true);
    while let Action::Fire { tick } = answer {
        fired.push(tick);
        answer = play_tick(&mut s, false);
    }
    assert_eq!(answer, Action::Halt);
    assert_eq!(fired, vec![0, 1, 2, 3, 4, 5, 6, 7]);
}

#[test]
fn halted_scheduler_can_be_started_again() {
    let mut s = started();
    let mut answer = play_tick(&mut s, true);
    while let Action::Fire { .. } = answer {
        answer = play_tick(&mut s, false);
    }
    assert_eq!(s.phase(), Phase::Idle);
    assert_eq!(s.step(Event::Start { ready: true, cancel: false }), Action::Fire { tick: 0 });
    assert_eq!(s.phase(), Phase::Running);
}

#[test]
fn cycle_of_a_single_tick() {
    let mut s = Scheduler::new(Meter::with_resolution(60, 1, 1, 4).unwrap());
    assert_eq!(s.step(Event::Start { ready: true, cancel: false }), Action::Fire { tick: 0 });
    assert_eq!(
        s.step(Event::Dispatched { elapsed_micros: 1 }),
        Action::Sleep { micros: 999_999 }
    );
    assert_eq!(s.step(Event::Slept { cancel: false }), Action::Fire { tick: 0 });
    assert_eq!(
        s.step(Event::Dispatched { elapsed_micros: 0 }),
        Action::Sleep { micros: 1_000_000 }
    );
    assert_eq!(s.step(Event::Slept { cancel: true }), Action::Halt);
}

#[test]
fn cycle_takes_its_length_whatever_the_overheads() {
    // A caller whose sleeps are exact and whose ticks cost what `costs` says.
    let meter = Meter::new(7, 3).unwrap();
    let costs: [u64; 5] = [0, 1_000, 700_000, 1_071_428, 3];
    let mut s = Scheduler::new(meter);
    let mut clock = 0u64;
    let mut slept = 0u64;
    let mut spent = 0u64;
    let mut answer = s.step(Event::Start { ready: true, cancel: false });
    let mut ticks = 0usize;
    loop {
        match answer {
            Action::Fire { tick } => {
                if tick == 0 && ticks > 0 {
                    break;
                }
                let cost = costs[ticks % costs.len()];
                ticks += 1;
                clock += cost;
                spent += cost;
                answer = s.step(Event::Dispatched { elapsed_micros: clock });
            }
            Action::Sleep { micros } => {
                clock += micros;
                slept += micros;
                answer = s.step(Event::Slept { cancel: false });
            }
            other => panic!("{:?}", other),
        }
    }
    assert_eq!(ticks as u64, meter.total_ticks());
    assert_eq!(slept + spent, meter.cycle_micros());
    assert_eq!(clock, 25_714_285);
}

#[test]
fn lateness_is_made_up_for() {
    // One tick costs three ticks' time; the cycle still ends on time.
    let meter = Meter::new(120, 2).unwrap();
    let mut s = Scheduler::new(meter);
    let mut clock = 0u64;
    let mut answer = s.step(Event::Start { ready: true, cancel: false });
    let mut sleeps = Vec::new();
    let mut ticks = 0u64;
    while ticks < 16 {
        match answer {
            Action::Fire { tick } => {
                if tick == 3 {
                    clock += 190_000;
                }
                answer = s.step(Event::Dispatched { elapsed_micros: clock });
            }
            Action::Sleep { micros } => {
                sleeps.push(micros);
                clock += micros;
                ticks += 1;
                answer = s.step(Event::Slept { cancel: false });
            }
            other => panic!("{:?}", other),
        }
    }
    assert_eq!(
        sleeps,
        vec![
            62_500, 62_500, 62_500, 0, 0, 0, 60_000, 62_500, 62_500, 62_500, 62_500, 62_500,
            62_500, 62_500, 62_500, 62_500
        ]
    );
    assert_eq!(clock, 1_000_000);
    assert_eq!(clock, meter.cycle_micros());
}
