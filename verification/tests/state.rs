use wakeup_herdr::state::{Action, Input, State, StateMachine};
use wakeup_herdr::time::{Duration, Instant};

fn secs(n: u64) -> Duration {
    Duration::from_secs(n)
}

fn start() -> Instant {
    Instant { nanos: 7_000_000_123 }
}

fn feed(sm: &mut StateMachine, t0: Instant, timeline: &[(u64, bool)]) -> Vec<Action> {
    timeline
        .iter()
        .map(|(offset_secs, working)| {
            sm.step(
                Input {
                    available: true,
                    working: *working,
                },
                t0.after(secs(*offset_secs)),
            )
        })
        .collect()
}

#[test]
fn starts_off() {
    let sm = StateMachine::new(secs(5), secs(30));
    assert_eq!(sm.state(), State::Off);
    assert!(!sm.holding());
}

/// A one-second `working` flicker does not acquire a wake assertion.
#[test]
fn short_working_flicker_never_acquires() {
    let mut sm = StateMachine::new(secs(5), secs(30));
    let t0 = start();
    let actions = feed(&mut sm, t0, &[(0, true), (1, false), (2, false)]);
    assert!(actions.iter().all(|a| *a == Action::Nothing));
    assert_eq!(sm.state(), State::Off);
    assert!(!sm.holding());
}

/// Sustained `working` acquires after the start grace.
#[test]
fn sustained_working_acquires_after_start_grace() {
    let mut sm = StateMachine::new(secs(5), secs(30));
    let t0 = start();
    let actions = feed(
        &mut sm,
        t0,
        &[(0, true), (1, true), (3, true), (5, true), (6, true)],
    );
    assert_eq!(
        actions,
        vec![
            Action::Nothing,
            Action::Nothing,
            Action::Nothing,
            Action::Acquire,
            Action::Nothing,
        ]
    );
    assert_eq!(sm.state(), State::Awake);
    assert!(sm.holding());
}

/// A short idle flicker does not release before the stop grace.
#[test]
fn short_idle_flicker_during_awake_does_not_release() {
    let mut sm = StateMachine::new(secs(5), secs(30));
    let t0 = start();
    feed(&mut sm, t0, &[(0, true), (5, true)]);
    assert_eq!(sm.state(), State::Awake);

    let actions = feed(&mut sm, t0, &[(6, false), (10, false), (15, true)]);
    assert!(actions.iter().all(|a| *a == Action::Nothing));
    assert_eq!(sm.state(), State::Awake);
    assert!(sm.holding());
}

/// Sustained idleness releases after the stop grace.
#[test]
fn sustained_idle_releases_after_stop_grace() {
    let mut sm = StateMachine::new(secs(5), secs(30));
    let t0 = start();
    feed(&mut sm, t0, &[(0, true), (5, true)]);
    assert_eq!(sm.state(), State::Awake);

    let actions = feed(&mut sm, t0, &[(6, false), (20, false), (36, false)]);
    assert_eq!(
        actions,
        vec![Action::Nothing, Action::Nothing, Action::Release]
    );
    assert_eq!(sm.state(), State::Off);
    assert!(!sm.holding());
}

#[test]
fn pending_wake_resets_grace_window_after_returning_to_off() {
    let mut sm = StateMachine::new(secs(5), secs(30));
    let t0 = start();
    // The first attempt flickers away.
    feed(&mut sm, t0, &[(0, true), (2, false)]);
    assert_eq!(sm.state(), State::Off);

    // The second one needs a whole window of its own.
    let actions = feed(&mut sm, t0, &[(3, true), (7, true), (8, true), (9, true)]);
    assert_eq!(
        actions,
        vec![
            Action::Nothing,
            Action::Nothing,
            Action::Acquire,
            Action::Nothing
        ]
    );
    assert_eq!(sm.state(), State::Awake);
}

#[test]
fn unavailable_snapshot_holds_and_recovers_to_awake() {
    let mut sm = StateMachine::new(secs(5), secs(30));
    let t0 = start();
    feed(&mut sm, t0, &[(0, true), (5, true)]);
    assert_eq!(sm.state(), State::Awake);

    // While Herdr is unreachable nothing is released.
    let a1 = sm.step(
        Input {
            available: false,
            working: false,
        },
        t0.after(secs(10)),
    );
    assert_eq!(a1, Action::Nothing);
    assert_eq!(sm.state(), State::Error);
    assert!(sm.holding());
    assert!(sm.last_error().is_some());
    assert_eq!(sm.last_error(), Some("snapshot unavailable"));

    // Once it is back, nothing has to be acquired again.
    let a2 = sm.step(
        Input {
            available: true,
            working: true,
        },
        t0.after(secs(15)),
    );
    assert_eq!(a2, Action::Nothing);
    assert_eq!(sm.state(), State::Awake);
    assert!(sm.last_error().is_none());
}

#[test]
fn unavailable_snapshot_from_off_recovers_to_pending_wake() {
    let mut sm = StateMachine::new(secs(5), secs(30));
    let t0 = start();
    assert_eq!(sm.state(), State::Off);

    sm.step(
        Input {
            available: false,
            working: false,
        },
        t0,
    );
    assert_eq!(sm.state(), State::Error);
    assert!(!sm.holding());

    // Work has to last for the whole start grace from here on.
    let action = sm.step(
        Input {
            available: true,
            working: true,
        },
        t0.after(secs(1)),
    );
    assert_eq!(action, Action::Nothing);
    assert_eq!(sm.state(), State::PendingWake);
}

#[test]
fn recovery_from_a_held_error_can_begin_to_sleep() {
    let mut sm = StateMachine::new(secs(5), secs(30));
    let t0 = start();
    feed(&mut sm, t0, &[(0, true), (5, true)]);
    sm.note_unavailable("socket closed".to_string());
    assert_eq!(sm.last_error(), Some("socket closed"));
    sm.note_unavailable("still closed".to_string());
    assert_eq!(sm.last_error(), Some("still closed"));
    assert!(sm.holding());
    assert_eq!(feed(&mut sm, t0, &[(40, false)]), vec![Action::Nothing]);
    assert_eq!(sm.state(), State::PendingSleep);
    assert!(sm.holding());
}

#[test]
fn deadline_is_the_end_of_the_open_window() {
    let mut sm = StateMachine::new(secs(5), secs(30));
    let t0 = start();
    assert_eq!(sm.deadline(), None);
    feed(&mut sm, t0, &[(2, true)]);
    assert_eq!(sm.deadline(), Some(t0.after(secs(7))));
    feed(&mut sm, t0, &[(7, true)]);
    assert_eq!(sm.state(), State::Awake);
    assert_eq!(sm.deadline(), None);
    feed(&mut sm, t0, &[(8, false)]);
    assert_eq!(sm.deadline(), Some(t0.after(secs(38))));
    sm.note_unavailable("gone".to_string());
    assert_eq!(sm.deadline(), None);
}

#[test]
fn machine_acts_exactly_when_its_deadline_has_come() {
    let mut sm = StateMachine::new(secs(5), secs(30));
    let work = Input {
        available: true,
        working: true,
    };
    sm.step(work, Instant { nanos: 10 });
    assert_eq!(
        sm.step(work, Instant { nanos: 5_000_000_009 }),
        Action::Nothing
    );
    assert_eq!(
        sm.step(work, Instant { nanos: 5_000_000_010 }),
        Action::Acquire
    );
}

#[test]
fn zero_graces_need_a_second_look() {
    let mut sm = StateMachine::new(secs(0), secs(0));
    let t0 = start();
    assert_eq!(
        feed(&mut sm, t0, &[(0, true), (0, true), (1, false), (1, false)]),
        vec![
            Action::Nothing,
            Action::Acquire,
            Action::Nothing,
            Action::Release
        ]
    );
}

#[test]
fn a_clock_that_goes_back_counts_as_standing_still() {
    let mut sm = StateMachine::new(secs(5), secs(30));
    let work = Input {
        available: true,
        working: true,
    };
    sm.step(work, Instant { nanos: 9_000_000_000 });
    assert_eq!(sm.step(work, Instant { nanos: 0 }), Action::Nothing);
    assert_eq!(sm.state(), State::PendingWake);
}

#[test]
fn failed_snapshots_neither_acquire_nor_release() {
    let mut sm = StateMachine::new(secs(0), secs(0));
    let t0 = start();
    feed(&mut sm, t0, &[(0, true), (0, true), (1, false)]);
    assert_eq!(sm.state(), State::PendingSleep);
    for n in 2..200 {
        let action = sm.step(
            Input {
                available: false,
                working: true,
            },
            t0.after(secs(n)),
        );
        assert_eq!(action, Action::Nothing);
        assert!(sm.holding());
    }
}

#[test]
fn disarming_lets_go_once_and_forgets() {
    let mut sm = StateMachine::new(secs(5), secs(30));
    let t0 = start();
    feed(&mut sm, t0, &[(0, true), (5, true)]);
    assert_eq!(sm.disarm(), Action::Release);
    assert_eq!(sm.state(), State::Off);
    assert_eq!(sm.disarm(), Action::Nothing);
    assert_eq!(
        feed(&mut sm, t0, &[(6, true), (10, true), (11, true)]),
        vec![Action::Nothing, Action::Nothing, Action::Acquire]
    );
    assert_eq!(sm.start_grace(), secs(5));
    assert_eq!(sm.stop_grace(), secs(30));
}

#[test]
fn lasting_work_and_idleness_count_from_any_state() {
    let t0 = start();
    let prefixes: [&[(u64, bool)]; 4] = [
        &[],
        &[(0, true)],
        &[(0, true), (5, true)],
        &[(0, true), (5, true), (6, false)],
    ];
    for prefix in prefixes {
        for failing in [false, true] {
            let mut sm = StateMachine::new(secs(5), secs(30));
            feed(&mut sm, t0, prefix);
            if failing {
                sm.note_unavailable("gone".to_string());
            }
            feed(&mut sm, t0, &[(7, true), (12, true)]);
            assert!(sm.holding());

            let mut sm = StateMachine::new(secs(5), secs(30));
            feed(&mut sm, t0, prefix);
            if failing {
                sm.note_unavailable("gone".to_string());
            }
            feed(&mut sm, t0, &[(7, false), (37, false)]);
            assert!(!sm.holding());
        }
    }
}

#[test]
fn names_of_states_and_actions() {
    let states = [
        State::Off,
        State::PendingWake,
        State::Awake,
        State::PendingSleep,
        State::Error,
    ];
    let names: Vec<String> = states.iter().map(|s| s.to_string()).collect();
    assert_eq!(
        names,
        vec!["Off", "PendingWake", "Awake", "PendingSleep", "Error"]
    );
    assert_eq!(Action::Nothing.to_string(), "None");
    assert_eq!(Action::Acquire.to_string(), "Acquire");
    assert_eq!(Action::Release.to_string(), "Release");
}
