use wakeup_herdr::agents::{herdr_agents, unavailable, Panes, Snapshot};
use wakeup_herdr::opts::Opts;
use wakeup_herdr::persist::{Config, Env, RuntimeState};
use wakeup_herdr::state::{Action, State};
use wakeup_herdr::time::{Duration, Instant};
use wakeup_herdr::watch::{
    announce, keeper_args, toast, Deed, Effect, Event, Reason, Task, Verdict, Watcher,
};
use wakeup_herdr::wire::Poll;

fn opts() -> Opts {
    let env = Env {
        home: Some("/home/bob".to_string()),
        socket_path: None,
        config_dir: None,
        state_dir: None,
        herdr_bin_path: None,
        wakeup_herdr_bin: None,
        wakeup_bin: None,
    };
    Opts::defaults(&env, &Config::default())
}

fn at(seconds: u64) -> Instant {
    Instant { nanos: 0 }.after(Duration::from_secs(seconds))
}

fn watcher() -> Watcher {
    Watcher::new(opts(), at(0))
}

fn panes(ids: &[&str]) -> Panes {
    ids.iter()
        .fold(Panes::new(), |p, id| p.insert(id.to_string()))
}

fn snap(status: &str) -> Snapshot {
    let reply = format!(
        r#"{{"result": {{"agents": [{{"agent": "coder", "agent_status": "{status}", "pane_id": "p1"}}]}}}}"#
    );
    herdr_agents(Some(&reply), &vec!["working".to_string()])
}

fn effects(w: &mut Watcher, timeline: &[(u64, &str, bool)]) -> Vec<Effect> {
    timeline
        .iter()
        .map(|(t, status, armed)| {
            let s = if status.is_empty() {
                unavailable()
            } else {
                snap(status)
            };
            w.evaluate(&s, at(*t), *armed).effect
        })
        .collect()
}

fn done(changed: bool) -> Event {
    Event::Evaluated { changed }
}

/// A watcher that waits for messages about the pane `p1`, since `t`.
fn subscribed(t: u64) -> Watcher {
    let mut w = watcher();
    assert_eq!(w.advance(Event::Begin, at(t), false), Task::Connect);
    assert_eq!(
        w.advance(Event::Subscribed(panes(&["p1"])), at(t), false),
        Task::Evaluate(Reason::Connected)
    );
    assert_eq!(
        w.advance(done(false), at(t), false),
        Task::Wait(Duration::from_secs(1))
    );
    w
}

#[test]
fn work_is_held_and_let_go_after_its_graces() {
    let mut w = watcher();
    assert_eq!(
        effects(
            &mut w,
            &[
                (0, "working", true),
                (4, "working", true),
                (5, "working", true),
                (6, "working", true),
                (7, "idle", true),
                (36, "idle", true),
                (37, "idle", true),
                (38, "idle", true),
            ]
        ),
        vec![
            Effect::Nothing,
            Effect::Nothing,
            Effect::Hold,
            Effect::Renew,
            Effect::Renew,
            Effect::Renew,
            Effect::Drop,
            Effect::Nothing,
        ]
    );
}

#[test]
fn disarming_lets_go_at_the_next_evaluation() {
    let mut w = watcher();
    assert_eq!(
        effects(
            &mut w,
            &[
                (0, "working", true),
                (5, "working", true),
                (6, "working", false),
                (20, "working", false),
                (21, "working", true),
                (25, "working", true),
                (26, "working", true),
            ]
        ),
        vec![
            Effect::Nothing,
            Effect::Hold,
            Effect::Drop,
            Effect::Nothing,
            Effect::Nothing,
            Effect::Nothing,
            Effect::Hold,
        ]
    );
}

#[test]
fn failed_snapshots_keep_the_assertion() {
    let mut w = watcher();
    assert_eq!(
        effects(
            &mut w,
            &[
                (0, "working", true),
                (5, "working", true),
                (6, "", true),
                (100, "", true),
                (101, "working", true),
            ]
        ),
        vec![
            Effect::Nothing,
            Effect::Hold,
            Effect::Renew,
            Effect::Renew,
            Effect::Renew,
        ]
    );
    assert_eq!(w.state(), State::Awake);
}

#[test]
fn long_absence_makes_the_watcher_leave() {
    let mut w = watcher();
    assert_eq!(
        effects(
            &mut w,
            &[(0, "", true), (100, "idle", true), (150, "", true), (269, "", true)]
        ),
        vec![Effect::Nothing; 4]
    );
    let verdict = w.evaluate(&unavailable(), at(270), true);
    assert_eq!(
        verdict,
        Verdict {
            effect: Effect::Leave(Duration::from_secs(120)),
            action: Action::Nothing,
            changed: false,
        }
    );
}

#[test]
fn without_a_tolerance_the_watcher_stays() {
    let mut w = Watcher::new(
        Opts {
            exit_after: Duration::from_secs(0),
            ..opts()
        },
        at(0),
    );
    assert_eq!(
        effects(&mut w, &[(0, "", true), (100_000, "", true)]),
        vec![Effect::Nothing; 2]
    );
    assert_eq!(w.last_error(), Some("snapshot unavailable"));

    // Nor does it hurry to try again.
    w.advance(Event::Begin, at(0), false);
    w.advance(Event::Unsubscribed, at(0), false);
    w.advance(done(false), at(100_000), false);
    assert_eq!(
        w.advance(Event::Slept, at(100_059), false),
        Task::Sleep(Duration::from_millis(500))
    );
    assert_eq!(
        w.advance(Event::Slept, at(100_060), false),
        Task::Sleep(Duration::from_millis(200))
    );
}

#[test]
fn changed_panes_are_noticed() {
    let mut w = subscribed(0);
    assert!(!w.evaluate(&snap("idle"), at(1), true).changed);
    assert!(!w.evaluate(&unavailable(), at(1), true).changed);
    let none = herdr_agents(
        Some(r#"{"result": {"agents": []}}"#),
        &vec!["working".to_string()],
    );
    assert!(w.evaluate(&none, at(1), true).changed);
    assert!(w.evaluate(&none, at(1), false).changed);
}

#[test]
fn holder_is_started_again_when_it_has_ended() {
    assert_eq!(Effect::Hold.deed(false), Deed::Start);
    assert_eq!(Effect::Renew.deed(false), Deed::Restart);
    assert_eq!(Effect::Renew.deed(true), Deed::Nothing);
    assert_eq!(Effect::Drop.deed(true), Deed::Stop);
    assert_eq!(Effect::Nothing.deed(false), Deed::Nothing);
    assert_eq!(
        Effect::Leave(Duration::from_secs(1)).deed(true),
        Deed::Nothing
    );
}

#[test]
fn messages_lead_to_one_evaluation() {
    let mut w = subscribed(0);
    assert_eq!(
        w.advance(Event::Polled(Poll::Activity), at(3), false),
        Task::Drain(Duration::from_millis(400))
    );
    assert_eq!(
        w.advance(Event::Drained, at(4), false),
        Task::Evaluate(Reason::Event)
    );
    assert_eq!(
        w.advance(done(false), at(4), false),
        Task::Wait(Duration::from_secs(1))
    );
    assert_eq!(w.until_deadline(at(4)), Duration::from_secs(60));
}

#[test]
fn changed_panes_lead_to_a_new_subscription() {
    let mut w = subscribed(0);
    w.advance(Event::Polled(Poll::Activity), at(3), false);
    w.advance(Event::Drained, at(3), false);
    assert_eq!(
        w.advance(done(true), at(3), false),
        Task::Sleep(Duration::from_millis(200))
    );
    assert_eq!(w.advance(Event::Slept, at(4), false), Task::Connect);
}

#[test]
fn panes_that_changed_unnoticed_lead_to_a_new_subscription() {
    // On a deadline, with the socket silent.
    let mut w = subscribed(0);
    assert_eq!(
        w.advance(Event::Polled(Poll::Timeout), at(60), false),
        Task::Evaluate(Reason::Tick)
    );
    assert_eq!(
        w.advance(done(true), at(60), false),
        Task::Sleep(Duration::from_millis(200))
    );
    assert_eq!(w.advance(Event::Slept, at(61), false), Task::Connect);

    // Right after the subscription.
    assert_eq!(
        w.advance(Event::Subscribed(panes(&["p2"])), at(61), false),
        Task::Evaluate(Reason::Connected)
    );
    let verdict = w.evaluate(&snap("idle"), at(61), true);
    assert!(verdict.changed);
    assert_eq!(
        w.advance(done(verdict.changed), at(61), false),
        Task::Sleep(Duration::from_millis(200))
    );
    assert_eq!(w.advance(Event::Slept, at(62), false), Task::Connect);
}

#[test]
fn evaluations_come_by_themselves() {
    let mut w = subscribed(0);
    for t in 1..59 {
        assert_eq!(
            w.advance(Event::Polled(Poll::Timeout), at(t), false),
            Task::Wait(Duration::from_secs(1))
        );
    }
    assert!(!w.deadline_passed(at(59)));
    assert_eq!(
        w.advance(
            Event::Polled(Poll::Timeout),
            Instant {
                nanos: 59_500_000_000
            },
            false
        ),
        Task::Wait(Duration::from_millis(500))
    );
    assert!(w.deadline_passed(at(60)));
    assert_eq!(
        w.advance(Event::Polled(Poll::Timeout), at(60), false),
        Task::Evaluate(Reason::Tick)
    );
    assert_eq!(
        w.advance(done(false), at(60), false),
        Task::Wait(Duration::from_secs(1))
    );
    assert_eq!(w.until_deadline(at(60)), Duration::from_secs(60));
}

#[test]
fn grace_windows_end_the_wait() {
    let mut w = subscribed(0);
    w.evaluate(&snap("working"), at(1), true);
    assert_eq!(w.until_deadline(at(2)), Duration::from_secs(4));
    assert!(!w.deadline_passed(at(5)));
    assert!(w.deadline_passed(at(6)));
    assert_eq!(
        w.advance(Event::Polled(Poll::Timeout), at(6), false),
        Task::Evaluate(Reason::Tick)
    );
}

#[test]
fn closed_socket_leads_to_a_new_connection() {
    let mut w = subscribed(0);
    assert_eq!(
        w.advance(Event::Polled(Poll::Closed), at(1), false),
        Task::Sleep(Duration::from_millis(200))
    );
    assert_eq!(w.advance(Event::Slept, at(1), false), Task::Connect);
}

#[test]
fn without_a_subscription_the_watcher_polls() {
    let mut w = watcher();
    w.advance(Event::Begin, at(0), false);
    assert_eq!(
        w.advance(Event::Unsubscribed, at(0), false),
        Task::Evaluate(Reason::Poll)
    );
    w.evaluate(&unavailable(), at(0), true);
    assert_eq!(
        w.advance(done(false), at(0), false),
        Task::Sleep(Duration::from_millis(500))
    );
    assert_eq!(
        w.advance(
            Event::Slept,
            Instant {
                nanos: 4_900_000_000
            },
            false
        ),
        Task::Sleep(Duration::from_millis(100))
    );
    assert_eq!(
        w.advance(Event::Slept, at(5), false),
        Task::Sleep(Duration::from_millis(200))
    );
    assert_eq!(w.advance(Event::Slept, at(5), false), Task::Connect);

    // With Herdr at hand, the next attempt comes a backstop later.
    w.advance(Event::Unsubscribed, at(5), false);
    w.evaluate(&snap("idle"), at(5), true);
    assert_eq!(
        w.advance(done(true), at(5), false),
        Task::Sleep(Duration::from_millis(500))
    );
    assert_eq!(
        w.advance(Event::Slept, at(64), false),
        Task::Sleep(Duration::from_millis(500))
    );
    assert_eq!(
        w.advance(Event::Slept, at(65), false),
        Task::Sleep(Duration::from_millis(200))
    );
}

#[test]
fn leaving_ends_the_watch() {
    let mut w = watcher();
    w.advance(Event::Begin, at(0), false);
    w.advance(Event::Unsubscribed, at(0), false);
    w.evaluate(&unavailable(), at(0), true);
    let verdict = w.evaluate(&unavailable(), at(120), true);
    assert_eq!(
        verdict.effect,
        Effect::Leave(Duration::from_secs(120))
    );
    assert_eq!(w.advance(done(false), at(120), false), Task::Shutdown);
}

#[test]
fn stopping_ends_the_watch() {
    let mut w = watcher();
    assert_eq!(w.advance(Event::Begin, at(0), true), Task::Shutdown);

    let mut w = subscribed(0);
    assert_eq!(
        w.advance(Event::Polled(Poll::Timeout), at(60), true),
        Task::Shutdown
    );

    // A message that is there already is still acted on.
    let mut w = subscribed(0);
    w.advance(Event::Polled(Poll::Activity), at(1), true);
    assert_eq!(
        w.advance(Event::Drained, at(1), true),
        Task::Evaluate(Reason::Event)
    );
    assert_eq!(w.advance(done(true), at(1), true), Task::Shutdown);

    let mut w = subscribed(0);
    assert_eq!(
        w.advance(Event::Polled(Poll::Closed), at(1), true),
        Task::Shutdown
    );
}

#[test]
fn clock_has_room() {
    let w = watcher();
    assert!(w.has_room(at(u64::MAX)));
    assert!(!w.has_room(Instant { nanos: u128::MAX }));
    assert_eq!(w.opts().backstop, Duration::from_secs(60));
}

#[test]
fn holder_is_told_what_to_hold_and_for_whom() {
    assert_eq!(keeper_args(false, 77), vec!["-i", "-w", "77"]);
    assert_eq!(keeper_args(true, u32::MAX), vec!["-di", "-w", "4294967295"]);
}

#[test]
fn notifications_can_be_kept_back() {
    assert_eq!(toast(true, "t", "b"), None);
    assert_eq!(
        toast(false, "t", "b").unwrap(),
        vec!["notification", "show", "t", "--body", "b", "--sound", "none"]
    );
}

#[test]
fn changes_are_announced() {
    let working = vec!["coder@repo".to_string()];
    let held = announce(Effect::Hold, true, &working).unwrap();
    assert_eq!(held.log, "AWAKE   -> 1 working: coder@repo");
    assert_eq!(held.title, "☕ Keeping awake");
    assert_eq!(held.body, "1 working: coder@repo");
    let dropped = announce(Effect::Drop, true, &working).unwrap();
    assert_eq!(dropped.log, "SLEEP-OK <- all agents idle/blocked");
    assert_eq!(dropped.title, "💤 Sleep allowed");
    assert_eq!(dropped.body, "no agents working");
    let disarmed = announce(Effect::Drop, false, &working).unwrap();
    assert_eq!(disarmed.log, "SLEEP-OK <- disarmed");
    assert_eq!(disarmed.title, "💤 Sleep allowed");
    assert_eq!(disarmed.body, "disarmed");
    assert!(announce(Effect::Renew, true, &working).is_none());
    assert!(announce(Effect::Nothing, false, &working).is_none());
    assert!(announce(Effect::Leave(Duration::from_secs(9)), true, &working).is_none());
}

#[test]
fn evaluations_are_logged() {
    let mut w = watcher();
    let s = snap("working");
    let v = w.evaluate(&s, at(0), true);
    assert_eq!(
        w.evaluation_line(Reason::Connected, &s, v.action),
        "[connected] working=[coder] state=PendingWake action=None"
    );
    let v = w.evaluate(&s, at(5), true);
    assert_eq!(
        w.evaluation_line(Reason::Tick, &s, v.action),
        "[tick] working=[coder] state=Awake action=Acquire"
    );
    let v = w.evaluate(&unavailable(), at(6), true);
    assert_eq!(
        w.evaluation_line(Reason::Event, &unavailable(), v.action),
        "[event] working=[] state=Error action=None last_error=\"snapshot unavailable\""
    );
    assert_eq!(Reason::Poll.to_string(), "poll");
}

#[test]
fn evaluations_are_recorded() {
    let mut w = watcher();
    let s = snap("working");
    w.evaluate(&s, at(0), true);
    let v = w.evaluate(&s, at(5), true);
    let rt = w.record(&s, v, true, true, 42, 11, 99, "key".to_string());
    assert_eq!(
        rt,
        RuntimeState {
            state: "Awake".to_string(),
            armed: true,
            watcher_pid: 42,
            assertion_active: true,
            working_agents: vec!["coder".to_string()],
            agent_count: 1,
            last_transition_unix: 99,
            last_error: None,
            checked_at_unix: 99,
            session_key: "key".to_string(),
        }
    );
    let v = w.evaluate(&unavailable(), at(6), true);
    let rt = w.record(&unavailable(), v, true, true, 42, 99, 100, "key".to_string());
    assert_eq!(rt.state, "Error");
    assert_eq!(rt.last_error.as_deref(), Some("snapshot unavailable"));
    assert_eq!(rt.last_transition_unix, 99);
    assert_eq!(rt.checked_at_unix, 100);
    let v = w.evaluate(&s, at(7), false);
    let rt = w.record(&s, v, false, false, 42, 99, 101, "key".to_string());
    assert_eq!((rt.state.as_str(), rt.armed), ("Off", false));
    assert_eq!(rt.last_transition_unix, 101);
}
