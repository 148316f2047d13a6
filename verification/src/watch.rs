//! The watcher: what it does with each snapshot, and what it does next.
//!
//! The watcher fetches no snapshot, waits for nothing and starts no program.
//! It names the next task, is told what came of it, and names the one after.

use vstd::prelude::*;
use vstd::string::*;
use crate::agents::{summarize, summary, Panes, Scene, Snapshot};
use crate::opts::{Options, Opts};
use crate::persist::{RuntimeState, Status};
use crate::state::{
    idle_seen, in_order, law_acquire_needs_sustained_work, law_lasting_idleness_is_let_go,
    law_lasting_work_is_held, law_release_needs_sustained_idleness, work_seen, Action, Input,
    Machine, State, StateMachine, Tick,
};
use crate::text::{
    copy_texts, decimal, decimal_text, join, joined, law_decimal_reads_back, number_in, quote,
    quoted, texts,
};
use crate::time::{elapsed, Duration, Instant, NANOS_PER_MILLI, NANOS_PER_SEC};
use crate::wire::Poll;

verus! {

/// Why an evaluation is made.
#[derive(Clone, Copy, Debug, PartialEq, Eq, Structural)]
pub enum Reason {
    /// The subscription has started.
    Connected,
    /// There is no subscription.
    Poll,
    /// A deadline has come.
    Tick,
    /// Herdr has sent something.
    Event,
}

impl Reason {
    pub open spec fn label(self) -> Seq<char> {
        match self {
            Reason::Connected => "connected"@,
            Reason::Poll => "poll"@,
            Reason::Tick => "tick"@,
            Reason::Event => "event"@,
        }
    }

    /// The name of the reason, for logs.
    pub fn to_string(&self) -> (s: String)
        ensures
            s@ == self.label(),
    {
        match self {
            Reason::Connected => "connected".to_string(),
            Reason::Poll => "poll".to_string(),
            Reason::Tick => "tick".to_string(),
            Reason::Event => "event".to_string(),
        }
    }
}

/// What the watcher is in the middle of.
#[derive(Clone, Copy, Debug, PartialEq, Eq, Structural)]
pub enum Phase {
    /// It has not begun.
    Fresh,
    /// It connects and subscribes.
    Connecting,
    /// It evaluates for the first time since it has subscribed.
    Connected,
    /// It evaluates without a subscription.
    Polled,
    /// It sleeps until it tries again to subscribe.
    Napping { until: Instant },
    /// It catches its breath before it connects.
    Pausing,
    /// It waits for a message.
    Waiting,
    /// It evaluates because a deadline has come.
    Ticked,
    /// It swallows the messages that follow the first one.
    Draining,
    /// It evaluates because of a message.
    Reacted,
    /// It has ended.
    Ended,
}

/// What is to be done next.
#[derive(Clone, Copy, Debug, PartialEq, Eq, Structural)]
pub enum Task {
    /// Fetch a snapshot, connect, and subscribe to what concerns its panes.
    Connect,
    /// Fetch a snapshot and evaluate it.
    Evaluate(Reason),
    /// Wait for a message, at most so long.
    Wait(Duration),
    /// Swallow what follows, until it is quiet for so long.
    Drain(Duration),
    /// Sleep.
    Sleep(Duration),
    /// Let go of the assertion and end.
    Shutdown,
}

/// What came of the last task.
#[derive(Debug)]
pub enum Event {
    /// There was none: the watcher begins.
    Begin,
    /// The subscription to these panes has started.
    Subscribed(Panes),
    /// There is no subscription.
    Unsubscribed,
    /// The evaluation was made; whether it found other panes than those that
    /// are subscribed to.
    Evaluated { changed: bool },
    /// What waiting came to.
    Polled(Poll),
    /// The messages were swallowed.
    Drained,
    /// The sleep is over.
    Slept,
}

/// What an evaluation asks to be done with the assertion.
#[derive(Clone, Copy, Debug, PartialEq, Eq, Structural)]
pub enum Effect {
    /// Leave: Herdr has been unreachable for so long.
    Leave(Duration),
    /// Start to hold it.
    Hold,
    /// Let go of it.
    Drop,
    /// It is to be held: if what holds it has ended, start that again.
    Renew,
    /// It is not held, and stays so.
    Nothing,
}

/// What to do with the program that holds the assertion.
#[derive(Clone, Copy, Debug, PartialEq, Eq, Structural)]
pub enum Deed {
    /// Start it.
    Start,
    /// Start it again: it has ended by itself.
    Restart,
    /// Stop it.
    Stop,
    /// Leave it alone.
    Nothing,
}

impl Effect {
    /// What the effect means for the program that holds the assertion.
    pub open spec fn asks(self, running: bool) -> Deed {
        match self {
            Effect::Hold => Deed::Start,
            Effect::Drop => Deed::Stop,
            Effect::Renew if !running => Deed::Restart,
            _ => Deed::Nothing,
        }
    }

    /// What to do with the program that holds the assertion, which is running
    /// or not.
    pub fn deed(self, running: bool) -> (deed: Deed)
        ensures
            deed == self.asks(running),
    {
        match self {
            Effect::Hold => Deed::Start,
            Effect::Drop => Deed::Stop,
            Effect::Renew => if running {
                Deed::Nothing
            } else {
                Deed::Restart
            },
            _ => Deed::Nothing,
        }
    }
}

impl Deed {
    /// Whether the program is running once this has succeeded.
    pub open spec fn done(self, running: bool) -> bool {
        match self {
            Deed::Start | Deed::Restart => true,
            Deed::Stop => false,
            Deed::Nothing => running,
        }
    }
}

/// What an evaluation comes to.
#[derive(Clone, Copy, Debug, PartialEq, Eq, Structural)]
pub struct Verdict {
    pub effect: Effect,
    /// What the state machine asked for.
    pub action: Action,
    /// Whether the panes are others than those that are subscribed to.
    pub changed: bool,
}

/// How long the watcher sleeps while it has noted that Herdr is unreachable.
pub const RETRY_SECS: u64 = 5;

/// The longest wait for a message, so that a signal is noticed soon.
pub const WAIT_MILLIS: u64 = 1000;

/// The longest stretch of a sleep, so that a signal is noticed soon.
pub const NAP_MILLIS: u64 = 500;

/// The pause before the watcher connects again.
pub const PAUSE_MILLIS: u64 = 200;

/// A span of whole seconds.
pub open spec fn seconds(n: u64) -> Duration {
    Duration { nanos: (n * NANOS_PER_SEC) as u128 }
}

/// A span of whole milliseconds.
pub open spec fn millis(n: u64) -> Duration {
    Duration { nanos: (n * NANOS_PER_MILLI) as u128 }
}

/// The shorter of two spans.
pub open spec fn shorter(a: Duration, b: Duration) -> Duration {
    if a.nanos <= b.nanos {
        a
    } else {
        b
    }
}

/// The span of time until `deadline`, which is over if it has come.
pub open spec fn left(now: Instant, deadline: Instant) -> Duration {
    Duration { nanos: elapsed(now, deadline) as u128 }
}

/// What a [`Watcher`] amounts to.
pub struct Watch {
    pub options: Options,
    pub machine: Machine,
    /// When the next evaluation comes by itself.
    pub next_eval: Instant,
    /// The panes that are subscribed to.
    pub subscribed: Set<Seq<char>>,
    /// Since when Herdr has been unreachable. Without a tolerance for that,
    /// this is not noted.
    pub unavailable_since: Option<Instant>,
    /// Herdr has been unreachable for too long.
    pub gone: bool,
    pub phase: Phase,
}

impl Watch {
    /// The watcher at the start.
    pub open spec fn initial(options: Options, now: Instant) -> Watch {
        Watch {
            options,
            machine: Machine::initial(options.start_grace, options.grace),
            next_eval: now,
            subscribed: Set::empty(),
            unavailable_since: None,
            gone: false,
            phase: Phase::Fresh,
        }
    }

    /// The clock can still show every deadline that is set at `now`.
    pub open spec fn room(self, now: Instant) -> bool {
        &&& now.nanos + self.options.backstop.nanos <= u128::MAX
        &&& now.nanos + self.machine.start_grace.nanos <= u128::MAX
        &&& now.nanos + self.machine.stop_grace.nanos <= u128::MAX
        &&& now.nanos + seconds(RETRY_SECS).nanos <= u128::MAX
    }

    /// The clock can show the deadline of the state machine.
    pub open spec fn wf(self) -> bool {
        self.machine.deadline() matches Some(d) ==> d <= u128::MAX
    }

    /// Since when Herdr has been unreachable, with a snapshot at `now`, as far
    /// as that is noted.
    pub open spec fn unreachable_since(self, available: bool, now: Instant) -> Option<Instant> {
        if available {
            None
        } else if self.options.exit_after.nanos == 0 {
            self.unavailable_since
        } else {
            match self.unavailable_since {
                Some(t) => Some(t),
                None => Some(now),
            }
        }
    }

    /// Whether a snapshot at `now` shows that Herdr has been unreachable for
    /// too long.
    pub open spec fn too_long(self, available: bool, now: Instant) -> bool {
        !available && self.options.exit_after.nanos > 0 && elapsed(
            self.unreachable_since(available, now)->Some_0,
            now,
        ) >= self.options.exit_after.nanos
    }

    /// What the state machine makes of a snapshot.
    pub open spec fn decided(self, scene: Scene, now: Instant, armed: bool) -> (Machine, Action) {
        if armed {
            self.machine.step(
                Input { available: scene.available, working: scene.working.len() > 0 },
                now,
            )
        } else {
            self.machine.disarmed()
        }
    }

    /// One evaluation.
    pub open spec fn evaluated(self, scene: Scene, now: Instant, armed: bool) -> (Watch, Verdict) {
        let since = self.unreachable_since(scene.available, now);
        if self.too_long(scene.available, now) {
            (
                Watch { unavailable_since: since, gone: true, ..self },
                Verdict {
                    effect: Effect::Leave(left(since->Some_0, now)),
                    action: Action::Nothing,
                    changed: false,
                },
            )
        } else {
            let (machine, action) = self.decided(scene, now, armed);
            (
                Watch { unavailable_since: since, machine, ..self },
                Verdict {
                    effect: match action {
                        Action::Acquire => Effect::Hold,
                        Action::Release => Effect::Drop,
                        Action::Nothing => if machine.holding() {
                            Effect::Renew
                        } else {
                            Effect::Nothing
                        },
                    },
                    action,
                    changed: scene.available && scene.panes != self.subscribed,
                },
            )
        }
    }

    /// How long it is until the next evaluation that comes by itself, or the
    /// end of the open grace window.
    pub open spec fn until_deadline(self, now: Instant) -> Duration {
        let d = left(now, self.next_eval);
        match self.machine.deadline() {
            Some(t) => shorter(d, left(now, Instant { nanos: t as u128 })),
            None => d,
        }
    }

    /// Whether one of these has come.
    pub open spec fn deadline_passed(self, now: Instant) -> bool {
        self.next_eval.nanos <= now.nanos || (self.machine.deadline() matches Some(t) && t
            <= now.nanos)
    }

    /// In the phase `phase`, with the task that goes with it.
    pub open spec fn doing(self, phase: Phase, task: Task) -> (Watch, Task) {
        (Watch { phase, ..self }, task)
    }

    /// At its end.
    pub open spec fn ended(self) -> (Watch, Task) {
        self.doing(Phase::Ended, Task::Shutdown)
    }

    /// Before a connection.
    pub open spec fn before_connection(self, stopping: bool) -> (Watch, Task) {
        if stopping || self.gone {
            self.ended()
        } else {
            self.doing(Phase::Connecting, Task::Connect)
        }
    }

    /// After a connection, or after a nap without one.
    pub open spec fn after_connection(self, stopping: bool) -> (Watch, Task) {
        if stopping || self.gone {
            self.ended()
        } else {
            self.doing(Phase::Pausing, Task::Sleep(millis(PAUSE_MILLIS)))
        }
    }

    /// Ready for a message.
    pub open spec fn listening(self, now: Instant, stopping: bool) -> (Watch, Task) {
        if stopping {
            self.after_connection(stopping)
        } else {
            self.doing(
                Phase::Waiting,
                Task::Wait(shorter(millis(WAIT_MILLIS), self.until_deadline(now))),
            )
        }
    }

    /// Asleep until `until`.
    pub open spec fn napping(self, until: Instant, now: Instant, stopping: bool) -> (Watch, Task) {
        if !stopping && !self.gone && now.nanos < until.nanos {
            self.doing(
                Phase::Napping { until },
                Task::Sleep(shorter(millis(NAP_MILLIS), left(now, until))),
            )
        } else {
            self.after_connection(stopping)
        }
    }

    /// With the next evaluation a backstop away.
    pub open spec fn rescheduled(self, now: Instant) -> Watch {
        Watch {
            next_eval: Instant { nanos: (now.nanos + self.options.backstop.nanos) as u128 },
            ..self
        }
    }

    /// How long to sleep without a subscription.
    pub open spec fn nap(self) -> Duration {
        if self.unavailable_since is Some {
            seconds(RETRY_SECS)
        } else {
            self.options.backstop
        }
    }

    /// Whether `event` can come of what the watcher is in the middle of.
    pub open spec fn expects(self, event: Event) -> bool {
        match self.phase {
            Phase::Fresh => event is Begin,
            Phase::Connecting => event is Subscribed || event is Unsubscribed,
            Phase::Connected | Phase::Polled | Phase::Ticked | Phase::Reacted => event is Evaluated,
            Phase::Napping { .. } | Phase::Pausing => event is Slept,
            Phase::Waiting => event is Polled,
            Phase::Draining => event is Drained,
            Phase::Ended => false,
        }
    }

    /// What is next after `event`.
    pub open spec fn advanced(self, event: Event, now: Instant, stopping: bool) -> (Watch, Task) {
        match (self.phase, event) {
            (Phase::Connecting, Event::Subscribed(panes)) => Watch {
                subscribed: panes@.to_set(),
                ..self
            }.doing(Phase::Connected, Task::Evaluate(Reason::Connected)),
            (Phase::Connecting, _) => self.doing(Phase::Polled, Task::Evaluate(Reason::Poll)),
            (Phase::Polled, _) => if self.gone {
                self.ended()
            } else {
                self.napping(
                    Instant { nanos: (now.nanos + self.nap().nanos) as u128 },
                    now,
                    stopping,
                )
            },
            (Phase::Napping { until }, _) => self.napping(until, now, stopping),
            (Phase::Waiting, Event::Polled(Poll::Closed)) => self.after_connection(stopping),
            (Phase::Waiting, Event::Polled(Poll::Activity)) => self.doing(
                Phase::Draining,
                Task::Drain(self.options.debounce),
            ),
            (Phase::Waiting, _) => if !stopping && self.deadline_passed(now) {
                self.doing(Phase::Ticked, Task::Evaluate(Reason::Tick))
            } else {
                self.listening(now, stopping)
            },
            (Phase::Draining, _) => self.doing(Phase::Reacted, Task::Evaluate(Reason::Event)),
            (
                Phase::Connected | Phase::Ticked | Phase::Reacted,
                Event::Evaluated { changed },
            ) => if self.gone {
                self.ended()
            } else if changed {
                self.rescheduled(now).after_connection(stopping)
            } else {
                self.rescheduled(now).listening(now, stopping)
            },
            (Phase::Fresh, _) | (Phase::Pausing, _) => self.before_connection(stopping),
            _ => self.ended(),
        }
    }
}

/// The watcher.
pub struct Watcher {
    o: Opts,
    sm: StateMachine,
    next_eval: Instant,
    subscribed: Panes,
    unavailable_since: Option<Instant>,
    herdr_gone: bool,
    phase: Phase,
}

impl View for Watcher {
    type V = Watch;

    closed spec fn view(&self) -> Watch {
        Watch {
            options: self.o@,
            machine: self.sm@,
            next_eval: self.next_eval,
            subscribed: self.subscribed@.to_set(),
            unavailable_since: self.unavailable_since,
            gone: self.herdr_gone,
            phase: self.phase,
        }
    }
}

impl Watcher {
    /// A watcher that has not begun.
    pub fn new(o: Opts, now: Instant) -> (w: Watcher)
        ensures
            w@ == Watch::initial(o@, now),
            w@.wf(),
    {
        let sm = StateMachine::new(o.start_grace, o.grace);
        let subscribed = Panes::new();
        assert(subscribed@.to_set() =~= Set::empty());
        Watcher {
            o,
            sm,
            next_eval: now,
            subscribed,
            unavailable_since: None,
            herdr_gone: false,
            phase: Phase::Fresh,
        }
    }

    /// The options of the watcher.
    pub fn opts(&self) -> (o: &Opts)
        ensures
            o@ == self@.options,
    {
        &self.o
    }

    /// The state of the state machine.
    pub fn state(&self) -> (s: State)
        ensures
            s == self@.machine.state,
    {
        self.sm.state()
    }

    /// Why the last snapshot failed.
    pub fn last_error(&self) -> (e: Option<&str>)
        ensures
            match self@.machine.last_error {
                Some(reason) => e matches Some(text) && text@ == reason,
                None => e is None,
            },
    {
        self.sm.last_error()
    }

    /// Whether the clock can still show every deadline that is set at `now`.
    pub fn has_room(&self, now: Instant) -> (r: bool)
        ensures
            r == self@.room(now),
    {
        let most: u128 = u128::MAX - now.nanos;
        self.o.backstop.nanos <= most && self.sm.start_grace().nanos <= most
            && self.sm.stop_grace().nanos <= most && Duration::from_secs(RETRY_SECS).nanos <= most
    }

    /// Evaluates a snapshot: says what to do with the assertion, and whether
    /// to subscribe anew.
    ///
    /// The watcher's life is tied to Herdr's: once Herdr has been unreachable
    /// for longer than the tolerance, the watcher leaves.
    pub fn evaluate(&mut self, snap: &Snapshot, now: Instant, armed: bool) -> (verdict: Verdict)
        requires
            old(self)@.room(now),
            old(self)@.wf(),
        ensures
            (final(self)@, verdict) == old(self)@.evaluated(snap@, now, armed),
            final(self)@.wf(),
    {
        if snap.available {
            self.unavailable_since = None;
        } else if !self.o.exit_after.is_zero() {
            let since = *self.unavailable_since.get_or_insert(now);
            let gap = now.saturating_duration_since(since);
            if gap.nanos >= self.o.exit_after.nanos {
                self.herdr_gone = true;
                return Verdict {
                    effect: Effect::Leave(gap),
                    action: Action::Nothing,
                    changed: false,
                };
            }
        }
        let action = if armed {
            let working = snap.working.len() > 0;
            self.sm.step(Input { available: snap.available, working }, now)
        } else {
            self.sm.disarm()
        };
        let effect = match action {
            Action::Acquire => Effect::Hold,
            Action::Release => Effect::Drop,
            Action::Nothing => if self.sm.holding() {
                Effect::Renew
            } else {
                Effect::Nothing
            },
        };
        Verdict { effect, action, changed: snap.available && !snap.panes.same(&self.subscribed) }
    }

    /// How long it is until the next evaluation that comes by itself, or the
    /// end of the open grace window.
    pub fn until_deadline(&self, now: Instant) -> (d: Duration)
        requires
            self@.wf(),
        ensures
            d == self@.until_deadline(now),
    {
        let d = self.next_eval.saturating_duration_since(now);
        match self.sm.deadline() {
            Some(t) => d.shorter(t.saturating_duration_since(now)),
            None => d,
        }
    }

    /// Whether one of these has come.
    pub fn deadline_passed(&self, now: Instant) -> (p: bool)
        requires
            self@.wf(),
        ensures
            p == self@.deadline_passed(now),
    {
        now.reached(self.next_eval) || match self.sm.deadline() {
            Some(t) => now.reached(t),
            None => false,
        }
    }

    fn end(&mut self) -> (task: Task)
        ensures
            (final(self)@, task) == old(self)@.ended(),
    {
        self.phase = Phase::Ended;
        Task::Shutdown
    }

    fn before_connection(&mut self, stopping: bool) -> (task: Task)
        ensures
            (final(self)@, task) == old(self)@.before_connection(stopping),
    {
        if stopping || self.herdr_gone {
            self.end()
        } else {
            self.phase = Phase::Connecting;
            Task::Connect
        }
    }

    fn after_connection(&mut self, stopping: bool) -> (task: Task)
        ensures
            (final(self)@, task) == old(self)@.after_connection(stopping),
    {
        if stopping || self.herdr_gone {
            self.end()
        } else {
            self.phase = Phase::Pausing;
            Task::Sleep(Duration::from_millis(PAUSE_MILLIS))
        }
    }

    fn listen(&mut self, now: Instant, stopping: bool) -> (task: Task)
        requires
            old(self)@.wf(),
        ensures
            (final(self)@, task) == old(self)@.listening(now, stopping),
    {
        if stopping {
            self.after_connection(stopping)
        } else {
            let wait = Duration::from_millis(WAIT_MILLIS).shorter(self.until_deadline(now));
            self.phase = Phase::Waiting;
            Task::Wait(wait)
        }
    }

    fn nap(&mut self, until: Instant, now: Instant, stopping: bool) -> (task: Task)
        ensures
            (final(self)@, task) == old(self)@.napping(until, now, stopping),
    {
        if !stopping && !self.herdr_gone && !now.reached(until) {
            let stretch = Duration::from_millis(NAP_MILLIS).shorter(
                until.saturating_duration_since(now),
            );
            self.phase = Phase::Napping { until };
            Task::Sleep(stretch)
        } else {
            self.after_connection(stopping)
        }
    }

    /// Takes note of what came of the last task, and names the next one.
    pub fn advance(&mut self, event: Event, now: Instant, stopping: bool) -> (task: Task)
        requires
            old(self)@.expects(event),
            old(self)@.room(now),
            old(self)@.wf(),
        ensures
            (final(self)@, task) == old(self)@.advanced(event, now, stopping),
            final(self)@.wf(),
    {
        match self.phase {
            Phase::Fresh | Phase::Pausing => self.before_connection(stopping),
            Phase::Connecting => match event {
                Event::Subscribed(panes) => {
                    self.subscribed = panes;
                    self.phase = Phase::Connected;
                    Task::Evaluate(Reason::Connected)
                },
                _ => {
                    self.phase = Phase::Polled;
                    Task::Evaluate(Reason::Poll)
                },
            },
            Phase::Polled => {
                if self.herdr_gone {
                    return self.end();
                }
                let nap = if self.unavailable_since.is_some() {
                    Duration::from_secs(RETRY_SECS)
                } else {
                    self.o.backstop
                };
                self.nap(now.after(nap), now, stopping)
            },
            Phase::Napping { until } => self.nap(until, now, stopping),
            Phase::Waiting => match event {
                Event::Polled(Poll::Closed) => self.after_connection(stopping),
                Event::Polled(Poll::Activity) => {
                    self.phase = Phase::Draining;
                    Task::Drain(self.o.debounce)
                },
                _ => {
                    if !stopping && self.deadline_passed(now) {
                        self.phase = Phase::Ticked;
                        Task::Evaluate(Reason::Tick)
                    } else {
                        self.listen(now, stopping)
                    }
                },
            },
            Phase::Draining => {
                self.phase = Phase::Reacted;
                Task::Evaluate(Reason::Event)
            },
            Phase::Connected | Phase::Ticked | Phase::Reacted => {
                if self.herdr_gone {
                    return self.end();
                }
                self.next_eval = now.after(self.o.backstop);
                match event {
                    Event::Evaluated { changed: true } => self.after_connection(stopping),
                    _ => self.listen(now, stopping),
                }
            },
            Phase::Ended => self.end(),
        }
    }
}

/// The arguments of the program that holds the assertion: also for the display
/// or not, and until the process `pid` ends.
pub open spec fn holder_arguments(display: bool, pid: u32) -> Seq<Seq<char>> {
    seq![
        if display {
            "-di"@
        } else {
            "-i"@
        },
        "-w"@,
        decimal(pid as nat),
    ]
}

/// The arguments of the program that holds the assertion.
pub fn keeper_args(display: bool, pid: u32) -> (args: Vec<String>)
    ensures
        texts(args@) == holder_arguments(display, pid),
{
    let mut args: Vec<String> = Vec::new();
    if display {
        args.push("-di".to_string());
    } else {
        args.push("-i".to_string());
    }
    args.push("-w".to_string());
    args.push(decimal_text(pid as u64));
    assert(texts(args@) =~= holder_arguments(display, pid));
    args
}

/// The arguments with which `herdr` shows a notification.
pub open spec fn notification_arguments(title: Seq<char>, body: Seq<char>) -> Seq<Seq<char>> {
    seq!["notification"@, "show"@, title, "--body"@, body, "--sound"@, "none"@]
}

/// The arguments with which `herdr` shows a notification, unless none are
/// wanted.
pub fn toast(no_notify: bool, title: &str, body: &str) -> (args: Option<Vec<String>>)
    ensures
        no_notify ==> args is None,
        !no_notify ==> (args matches Some(a) && texts(a@) == notification_arguments(title@, body@)),
{
    if no_notify {
        return None;
    }
    let mut args: Vec<String> = Vec::new();
    args.push("notification".to_string());
    args.push("show".to_string());
    args.push(title.to_string());
    args.push("--body".to_string());
    args.push(body.to_string());
    args.push("--sound".to_string());
    args.push("none".to_string());
    assert(texts(args@) =~= notification_arguments(title@, body@));
    Some(args)
}

/// What is said about a change of the assertion.
#[derive(Debug)]
pub struct Announcement {
    /// In the log.
    pub log: String,
    /// As the title of a notification.
    pub title: String,
    /// As its text.
    pub body: String,
}

/// What is said about the effect of an evaluation that changes the assertion,
/// as log line, title and text.
pub open spec fn announced(effect: Effect, armed: bool, working: Seq<Seq<char>>) -> Option<
    (Seq<char>, Seq<char>, Seq<char>),
> {
    match effect {
        Effect::Hold => Some(
            ("AWAKE   -> "@ + summary(working), "☕ Keeping awake"@, summary(working)),
        ),
        Effect::Drop => if armed {
            Some(
                (
                    "SLEEP-OK <- all agents idle/blocked"@,
                    "💤 Sleep allowed"@,
                    "no agents working"@,
                ),
            )
        } else {
            Some(("SLEEP-OK <- disarmed"@, "💤 Sleep allowed"@, "disarmed"@))
        },
        _ => None,
    }
}

/// What is said about the effect of an evaluation, if it changes the
/// assertion.
pub fn announce(effect: Effect, armed: bool, working: &Vec<String>) -> (a: Option<Announcement>)
    ensures
        match announced(effect, armed, texts(working@)) {
            Some((log, title, body)) => a matches Some(x) && x.log@ == log && x.title@ == title
                && x.body@ == body,
            None => a is None,
        },
{
    match effect {
        Effect::Hold => {
            let body = summarize(working);
            Some(
                Announcement {
                    log: "AWAKE   -> ".to_string().concat(body.as_str()),
                    title: "☕ Keeping awake".to_string(),
                    body,
                },
            )
        },
        Effect::Drop => {
            if armed {
                Some(
                    Announcement {
                        log: "SLEEP-OK <- all agents idle/blocked".to_string(),
                        title: "💤 Sleep allowed".to_string(),
                        body: "no agents working".to_string(),
                    },
                )
            } else {
                Some(
                    Announcement {
                        log: "SLEEP-OK <- disarmed".to_string(),
                        title: "💤 Sleep allowed".to_string(),
                        body: "disarmed".to_string(),
                    },
                )
            }
        },
        _ => None,
    }
}

/// The log line on an evaluation.
pub open spec fn evaluation_entry(
    reason: Reason,
    working: Seq<Seq<char>>,
    machine: Machine,
    action: Action,
) -> Seq<char> {
    let line = "["@ + reason.label() + "] working=["@ + joined(working, ", "@) + "] state="@
        + machine.state.label() + " action="@ + action.label();
    match machine.last_error {
        Some(e) => line + " last_error="@ + quoted(e),
        None => line,
    }
}

impl Watcher {
    /// The log line on an evaluation that was just made.
    pub fn evaluation_line(&self, reason: Reason, snap: &Snapshot, action: Action) -> (line: String)
        ensures
            line@ == evaluation_entry(reason, snap@.working, self@.machine, action),
    {
        let mut line = "[".to_string();
        line.append(reason.to_string().as_str());
        line.append("] working=[");
        line.append(join(&snap.working, ", ").as_str());
        line.append("] state=");
        line.append(self.sm.state().to_string().as_str());
        line.append(" action=");
        line.append(action.to_string().as_str());
        if let Some(e) = self.sm.last_error() {
            line.append(" last_error=");
            line.append(quote(e).as_str());
        }
        line
    }

    /// What to record after an evaluation at `unix_now` with this verdict.
    /// `active` says whether the assertion is held, `since` when it last
    /// changed before.
    pub fn record(
        &self,
        snap: &Snapshot,
        verdict: Verdict,
        armed: bool,
        active: bool,
        pid: u32,
        since: u64,
        unix_now: u64,
        session_key: String,
    ) -> (rt: RuntimeState)
        ensures
            rt@ == (Status {
                state: self@.machine.state.label(),
                armed,
                watcher_pid: pid,
                assertion_active: active,
                working_agents: snap@.working,
                agent_count: snap.total,
                last_transition_unix: if verdict.effect is Hold || verdict.effect is Drop {
                    unix_now
                } else {
                    since
                },
                last_error: self@.machine.last_error,
                checked_at_unix: unix_now,
                session_key: session_key@,
            }),
    {
        let last_error = match self.sm.last_error() {
            Some(e) => Some(e.to_string()),
            None => None,
        };
        let last_transition_unix: u64 = match verdict.effect {
            Effect::Hold | Effect::Drop => unix_now,
            _ => since,
        };
        RuntimeState {
            state: self.sm.state().to_string(),
            armed,
            watcher_pid: pid,
            assertion_active: active,
            working_agents: copy_texts(&snap.working),
            agent_count: snap.total,
            last_transition_unix,
            last_error,
            checked_at_unix: unix_now,
            session_key,
        }
    }
}

/// An evaluation asks to hold only what was not held, and to let go only of
/// what was held; where it asks for neither, what should be held stays, and is
/// renewed if it is held.
pub proof fn law_effects_track_holding(w: Watch, scene: Scene, now: Instant, armed: bool)
    ensures
        ({
            let (after, verdict) = w.evaluated(scene, now, armed);
            match verdict.effect {
                Effect::Hold => !w.machine.holding() && after.machine.holding(),
                Effect::Drop => w.machine.holding() && !after.machine.holding(),
                Effect::Renew => w.machine.holding() && after.machine.holding(),
                Effect::Nothing => !w.machine.holding() && !after.machine.holding(),
                Effect::Leave(_) => after.machine == w.machine && after.gone,
            }
        }),
{
}

/// The program that holds the assertion follows the state machine: after every
/// evaluation that does not have the watcher leave, it runs exactly while the
/// assertion should be held, also where it had ended by itself before.
pub proof fn law_holder_follows_the_machine(
    w: Watch,
    scene: Scene,
    now: Instant,
    armed: bool,
    running: bool,
)
    requires
        running ==> w.machine.holding(),
    ensures
        ({
            let (after, verdict) = w.evaluated(scene, now, armed);
            verdict.effect is Leave || verdict.effect.asks(running).done(running)
                == after.machine.holding()
        }),
{
}

/// Disarming lets go of the assertion at the next evaluation, whatever it
/// sees, and nothing is held while the watcher is disarmed.
pub proof fn law_disarmed_watcher_lets_go(w: Watch, scene: Scene, now: Instant)
    ensures
        ({
            let (after, verdict) = w.evaluated(scene, now, false);
            verdict.effect is Leave || {
                &&& !after.machine.holding()
                &&& verdict.effect == if w.machine.holding() {
                    Effect::Drop
                } else {
                    Effect::Nothing
                }
            }
        }),
{
}

/// Armed again, the watcher starts as if it had seen nothing: work has to last
/// for the whole start grace.
pub proof fn law_arming_starts_anew(w: Watch, scene: Scene, now: Instant)
    ensures
        ({
            let (after, verdict) = w.evaluated(scene, now, false);
            verdict.effect is Leave || after.machine == Machine::initial(
                w.machine.start_grace,
                w.machine.stop_grace,
            )
        }),
{
}

/// A failed snapshot changes nothing about the assertion, unless Herdr has
/// been unreachable for too long.
pub proof fn law_failed_snapshot_keeps_the_assertion(w: Watch, scene: Scene, now: Instant)
    requires
        !scene.available,
        !w.too_long(false, now),
    ensures
        ({
            let (after, verdict) = w.evaluated(scene, now, true);
            &&& after.machine.holding() == w.machine.holding()
            &&& verdict.effect == if w.machine.holding() {
                Effect::Renew
            } else {
                Effect::Nothing
            }
            &&& !verdict.changed
        }),
{
}

/// One evaluation of a run.
pub struct Evaluation {
    pub scene: Scene,
    pub now: Instant,
    pub armed: bool,
}

impl Watch {
    /// The watcher after all of `evals`.
    pub open spec fn after_all(self, evals: Seq<Evaluation>) -> Watch
        decreases evals.len(),
    {
        if evals.len() == 0 {
            self
        } else {
            let e = evals.last();
            self.after_all(evals.drop_last()).evaluated(e.scene, e.now, e.armed).0
        }
    }

    /// The effect of the `k`-th of `evals`.
    pub open spec fn effect_at(self, evals: Seq<Evaluation>, k: int) -> Effect {
        let e = evals[k];
        self.after_all(evals.take(k)).evaluated(e.scene, e.now, e.armed).1.effect
    }
}

/// What happens between evaluations leaves alone what evaluations go by.
pub proof fn law_advancing_decides_nothing(w: Watch, event: Event, now: Instant, stopping: bool)
    ensures
        ({
            let after = w.advanced(event, now, stopping).0;
            &&& after.machine == w.machine
            &&& after.unavailable_since == w.unavailable_since
            &&& after.gone == w.gone
            &&& after.options == w.options
        }),
{
}

/// No option changes while the watcher runs: of the settings, only `armed` is
/// looked at again.
pub proof fn law_options_never_change(w: Watch, evals: Seq<Evaluation>)
    ensures
        w.after_all(evals).options == w.options,
        w.after_all(evals).machine.start_grace == w.machine.start_grace,
        w.after_all(evals).machine.stop_grace == w.machine.stop_grace,
    decreases evals.len(),
{
    if evals.len() > 0 {
        law_options_never_change(w, evals.drop_last());
    }
}

impl Evaluation {
    /// What the state machine gets to see of this evaluation.
    pub open spec fn tick(self) -> Tick {
        Tick {
            armed: self.armed,
            input: Input {
                available: self.scene.available,
                working: self.scene.working.len() > 0,
            },
            now: self.now,
        }
    }
}

/// What the state machine gets to see of evaluations.
pub open spec fn ticks_of(evals: Seq<Evaluation>) -> Seq<Tick> {
    evals.map_values(|e: Evaluation| e.tick())
}

/// As long as the watcher does not leave, its evaluations are those of the
/// state machine, so that all that holds of runs of the machine holds of them.
pub proof fn law_evaluations_run_the_machine(w: Watch, evals: Seq<Evaluation>)
    requires
        !w.after_all(evals).gone,
    ensures
        w.after_all(evals).machine == w.machine.run(ticks_of(evals)),
    decreases evals.len(),
{
    if evals.len() > 0 {
        law_evaluations_run_the_machine(w, evals.drop_last());
        assert(ticks_of(evals).drop_last() =~= ticks_of(evals.drop_last()));
        assert(ticks_of(evals).last() == evals.last().tick());
    } else {
        assert(ticks_of(evals).len() == 0);
    }
}

/// An evaluation of an armed watcher that sees an agent work.
pub open spec fn counts_as_work(e: Evaluation) -> bool {
    e.armed && e.scene.available && e.scene.working.len() > 0
}

/// An evaluation of an armed watcher that sees no agent work.
pub open spec fn counts_as_idle(e: Evaluation) -> bool {
    e.armed && e.scene.available && e.scene.working.len() == 0
}

/// The assertion is taken only after an agent has been seen working in every
/// evaluation of a stretch as long as the start grace, with the watcher armed
/// all the while.
pub proof fn law_holding_needs_sustained_work(
    options: Options,
    start: Instant,
    evals: Seq<Evaluation>,
    k: int,
)
    requires
        0 <= k < evals.len(),
        !Watch::initial(options, start).after_all(evals.take(k)).gone,
        Watch::initial(options, start).effect_at(evals, k) is Hold,
    ensures
        exists|j: int|
            #![trigger evals[j]]
            0 <= j < k && elapsed(evals[j].now, evals[k].now) >= options.start_grace.nanos
                && forall|i: int| j <= i <= k ==> counts_as_work(#[trigger] evals[i]),
{
    let ticks = ticks_of(evals);
    law_evaluations_run_the_machine(Watch::initial(options, start), evals.take(k));
    assert(ticks.take(k) =~= ticks_of(evals.take(k)));
    law_acquire_needs_sustained_work(options.start_grace, options.grace, ticks, k);
    let j = choose|j: int|
        #![trigger ticks[j]]
        0 <= j < k && elapsed(ticks[j].now, ticks[k].now) >= options.start_grace.nanos && forall|
            i: int,
        | j <= i <= k ==> work_seen(#[trigger] ticks[i]);
    assert forall|i: int| j <= i <= k implies counts_as_work(#[trigger] evals[i]) by {
        assert(work_seen(ticks[i]));
    }
    assert(ticks[j] == evals[j].tick());
}

/// The assertion is given up only when the watcher is disarmed, or after no
/// agent has been seen working in any evaluation of a stretch as long as the
/// stop grace.
pub proof fn law_dropping_needs_sustained_idleness(
    options: Options,
    start: Instant,
    evals: Seq<Evaluation>,
    k: int,
)
    requires
        0 <= k < evals.len(),
        !Watch::initial(options, start).after_all(evals.take(k)).gone,
        Watch::initial(options, start).effect_at(evals, k) is Drop,
        evals[k].armed,
    ensures
        exists|j: int|
            #![trigger evals[j]]
            0 <= j < k && elapsed(evals[j].now, evals[k].now) >= options.grace.nanos
                && forall|i: int| j <= i <= k ==> counts_as_idle(#[trigger] evals[i]),
{
    let ticks = ticks_of(evals);
    law_evaluations_run_the_machine(Watch::initial(options, start), evals.take(k));
    assert(ticks.take(k) =~= ticks_of(evals.take(k)));
    law_release_needs_sustained_idleness(options.start_grace, options.grace, ticks, k);
    let j = choose|j: int|
        #![trigger ticks[j]]
        0 <= j < k && elapsed(ticks[j].now, ticks[k].now) >= options.grace.nanos && forall|i: int|
            j <= i <= k ==> idle_seen(#[trigger] ticks[i]);
    assert forall|i: int| j <= i <= k implies counts_as_idle(#[trigger] evals[i]) by {
        assert(idle_seen(ticks[i]));
    }
    assert(ticks[j] == evals[j].tick());
}

/// With a clock that never goes back, work that an armed watcher sees for as
/// long as the start grace has the assertion held, however the stretch began.
pub proof fn law_sustained_work_is_held(
    options: Options,
    start: Instant,
    evals: Seq<Evaluation>,
    j: int,
    k: int,
)
    requires
        in_order(ticks_of(evals)),
        0 <= j < k < evals.len(),
        !Watch::initial(options, start).after_all(evals.take(k + 1)).gone,
        forall|i: int| j <= i <= k ==> counts_as_work(#[trigger] evals[i]),
        elapsed(evals[j].now, evals[k].now) >= options.start_grace.nanos,
    ensures
        Watch::initial(options, start).after_all(evals.take(k + 1)).machine.holding(),
{
    let ticks = ticks_of(evals);
    law_evaluations_run_the_machine(Watch::initial(options, start), evals.take(k + 1));
    assert(ticks.take(k + 1) =~= ticks_of(evals.take(k + 1)));
    assert forall|i: int| j <= i <= k implies work_seen(#[trigger] ticks[i]) by {
        assert(counts_as_work(evals[i]));
    }
    law_lasting_work_is_held(options.start_grace, options.grace, ticks, j, k);
}

/// With a clock that never goes back, idleness that an armed watcher sees for
/// as long as the stop grace has nothing held, however the stretch began.
pub proof fn law_sustained_idleness_is_let_go(
    options: Options,
    start: Instant,
    evals: Seq<Evaluation>,
    j: int,
    k: int,
)
    requires
        in_order(ticks_of(evals)),
        0 <= j < k < evals.len(),
        !Watch::initial(options, start).after_all(evals.take(k + 1)).gone,
        forall|i: int| j <= i <= k ==> counts_as_idle(#[trigger] evals[i]),
        elapsed(evals[j].now, evals[k].now) >= options.grace.nanos,
    ensures
        !Watch::initial(options, start).after_all(evals.take(k + 1)).machine.holding(),
{
    let ticks = ticks_of(evals);
    law_evaluations_run_the_machine(Watch::initial(options, start), evals.take(k + 1));
    assert(ticks.take(k + 1) =~= ticks_of(evals.take(k + 1)));
    assert forall|i: int| j <= i <= k implies idle_seen(#[trigger] ticks[i]) by {
        assert(counts_as_idle(evals[i]));
    }
    law_lasting_idleness_is_let_go(options.start_grace, options.grace, ticks, j, k);
}

/// With a tolerance for it, the watcher notes at every evaluation whether Herdr
/// is unreachable. Without one it never does.
pub proof fn law_unreachability_is_noted(w: Watch, scene: Scene, now: Instant, armed: bool)
    ensures
        ({
            let after = w.evaluated(scene, now, armed).0;
            if w.options.exit_after.nanos > 0 {
                after.unavailable_since is Some <==> !scene.available
            } else {
                w.unavailable_since is None ==> after.unavailable_since is None
            }
        }),
{
}

/// Where a watcher has it from that Herdr is unreachable.
proof fn lemma_unavailable_stretch(w: Watch, evals: Seq<Evaluation>)
    requires
        w.unavailable_since is None,
    ensures
        w.after_all(evals).options == w.options,
        w.after_all(evals).unavailable_since matches Some(t) ==> exists|j: int|
            #![trigger evals[j]]
            0 <= j < evals.len() && evals[j].now == t && forall|i: int|
                j <= i < evals.len() ==> !(#[trigger] evals[i]).scene.available,
    decreases evals.len(),
{
    if evals.len() > 0 {
        let before = evals.drop_last();
        let last = evals.len() - 1;
        lemma_unavailable_stretch(w, before);
        let w0 = w.after_all(before);
        let w1 = w.after_all(evals);
        if w1.unavailable_since is Some {
            assert(!evals[last].scene.available);
            if w0.unavailable_since is Some {
                let t = w0.unavailable_since->Some_0;
                let j = choose|j: int|
                    #![trigger before[j]]
                    0 <= j < before.len() && before[j].now == t && forall|i: int|
                        j <= i < before.len() ==> !(#[trigger] before[i]).scene.available;
                assert(before[j] == evals[j]);
                assert forall|i: int| j <= i < evals.len() implies !(
                #[trigger] evals[i]).scene.available by {
                    if i < last {
                        assert(before[i] == evals[i]);
                    }
                }
            } else {
                assert(evals[last].now == w1.unavailable_since->Some_0);
            }
        }
    }
}

/// The watcher leaves only when Herdr has been unreachable in every evaluation
/// of a stretch as long as the tolerance. With a tolerance of zero it never
/// leaves.
pub proof fn law_leaving_needs_a_long_absence(w: Watch, evals: Seq<Evaluation>, k: int)
    requires
        w.unavailable_since is None,
        0 <= k < evals.len(),
        w.effect_at(evals, k) is Leave,
    ensures
        w.options.exit_after.nanos > 0,
        exists|j: int|
            #![trigger evals[j]]
            0 <= j <= k && elapsed(evals[j].now, evals[k].now) >= w.options.exit_after.nanos
                && forall|i: int| j <= i <= k ==> !(#[trigger] evals[i]).scene.available,
{
    let before = evals.take(k);
    lemma_unavailable_stretch(w, before);
    let w0 = w.after_all(before);
    if w0.unavailable_since is Some {
        let t = w0.unavailable_since->Some_0;
        let j = choose|j: int|
            #![trigger before[j]]
            0 <= j < before.len() && before[j].now == t && forall|i: int|
                j <= i < before.len() ==> !(#[trigger] before[i]).scene.available;
        assert(before[j] == evals[j]);
        assert forall|i: int| j <= i <= k implies !(#[trigger] evals[i]).scene.available by {
            if i < k {
                assert(before[i] == evals[i]);
            }
        }
    } else {
        assert(evals[k].now == evals[k].now);
    }
}

/// An absence that lasts makes the watcher leave: in a stretch of evaluations
/// without Herdr, the first that comes the tolerance after the start of the
/// stretch has the watcher leave.
pub proof fn law_long_absence_ends_the_watch(w: Watch, evals: Seq<Evaluation>)
    requires
        w.unavailable_since is None,
        !w.gone,
        evals.len() > 0,
        w.options.exit_after.nanos > 0,
        forall|i: int| 0 <= i < evals.len() ==> !(#[trigger] evals[i]).scene.available,
    ensures
        w.after_all(evals).options == w.options,
        w.after_all(evals).unavailable_since == Some(evals[0].now),
        w.after_all(evals).gone <==> exists|k: int|
            0 <= k < evals.len() && elapsed(evals[0].now, (#[trigger] evals[k]).now)
                >= w.options.exit_after.nanos,
    decreases evals.len(),
{
    let before = evals.drop_last();
    let last = evals.len() - 1;
    assert(!evals[last].scene.available);
    if before.len() > 0 {
        assert forall|i: int| 0 <= i < before.len() implies !(
        #[trigger] before[i]).scene.available by {
            assert(before[i] == evals[i]);
        }
        law_long_absence_ends_the_watch(w, before);
        assert(before[0] == evals[0]);
        if exists|k: int|
            0 <= k < before.len() && elapsed(before[0].now, (#[trigger] before[k]).now)
                >= w.options.exit_after.nanos {
            let k = choose|k: int|
                0 <= k < before.len() && elapsed(before[0].now, (#[trigger] before[k]).now)
                    >= w.options.exit_after.nanos;
            assert(before[k] == evals[k]);
        }
        if exists|k: int|
            0 <= k < evals.len() && elapsed(evals[0].now, (#[trigger] evals[k]).now)
                >= w.options.exit_after.nanos {
            let k = choose|k: int|
                0 <= k < evals.len() && elapsed(evals[0].now, (#[trigger] evals[k]).now)
                    >= w.options.exit_after.nanos;
            if k < last {
                assert(before[k] == evals[k]);
            }
        }
    } else {
        assert(w.after_all(before) == w);
    }
}

/// Once an evaluation has the watcher leave, it ends, and so lets go of the
/// assertion.
pub proof fn law_leaving_ends_the_watch(w: Watch, event: Event, now: Instant, stopping: bool)
    requires
        w.gone,
        event is Evaluated,
        w.expects(event),
    ensures
        w.advanced(event, now, stopping).1 is Shutdown,
{
}

/// How many tasks a watcher that is to stop may still name before its last.
pub open spec fn steps_to_end(phase: Phase) -> nat {
    match phase {
        Phase::Ended => 0,
        Phase::Waiting => 3,
        Phase::Connecting | Phase::Draining => 2,
        _ => 1,
    }
}

/// A watcher that is to stop ends soon: each task brings it nearer to its
/// last, which lets go of the assertion.
pub proof fn law_stopping_ends_the_watch(w: Watch, event: Event, now: Instant)
    requires
        w.expects(event),
    ensures
        ({
            let (after, task) = w.advanced(event, now, true);
            &&& steps_to_end(after.phase) < steps_to_end(w.phase)
            &&& task is Shutdown <==> after.phase is Ended
        }),
{
}

/// A signal is noticed soon: no wait for a message takes more than a second,
/// and no sleep more than half of one.
pub proof fn law_waits_are_short(w: Watch, event: Event, now: Instant, stopping: bool)
    ensures
        match w.advanced(event, now, stopping).1 {
            Task::Wait(d) => d.nanos <= NANOS_PER_SEC,
            Task::Sleep(d) => 2 * d.nanos <= NANOS_PER_SEC,
            _ => true,
        },
{
}

/// Whatever Herdr sends leads to an evaluation, once the burst that it belongs
/// to is over.
pub proof fn law_messages_lead_to_an_evaluation(w: Watch, now: Instant, later: Instant)
    requires
        w.phase is Waiting,
    ensures
        ({
            let (draining, task) = w.advanced(Event::Polled(Poll::Activity), now, false);
            &&& task == Task::Drain(w.options.debounce)
            &&& draining.advanced(Event::Drained, later, false).1 == Task::Evaluate(Reason::Event)
        }),
{
}

/// Evaluations come again: after each one that a subscribed watcher makes, the
/// next is due a backstop later at most. The watcher does not wait beyond that,
/// and a wait that ends when it is due, or when a grace window is over, leads
/// to it.
pub proof fn law_evaluations_recur(w: Watch, event: Event, now: Instant, later: Instant)
    requires
        w.room(now),
        event is Evaluated,
        w.expects(event),
        w.advanced(event, now, false).1 is Wait,
    ensures
        ({
            let (after, task) = w.advanced(event, now, false);
            &&& after.next_eval.nanos == now.nanos + w.options.backstop.nanos
            &&& task->Wait_0.nanos <= w.options.backstop.nanos
            &&& after.deadline_passed(later) ==> after.advanced(
                Event::Polled(Poll::Timeout),
                later,
                false,
            ).1 == Task::Evaluate(Reason::Tick)
        }),
{
}

/// Without a subscription the watcher tries again, and evaluates again: after
/// a few seconds while it has noted that Herdr is unreachable, and otherwise
/// after a backstop.
pub proof fn law_without_a_subscription_the_watcher_tries_again(
    w: Watch,
    event: Event,
    now: Instant,
    later: Instant,
)
    requires
        w.phase is Polled,
        w.room(now),
        w.nap().nanos > 0,
        !w.gone,
        later.nanos >= now.nanos + w.nap().nanos,
    ensures
        w.nap() == if w.unavailable_since is Some {
            seconds(RETRY_SECS)
        } else {
            w.options.backstop
        },
        ({
            let asleep = w.advanced(event, now, false).0;
            let rested = asleep.advanced(Event::Slept, later, false).0;
            let ready = rested.advanced(Event::Slept, later, false);
            &&& asleep.phase is Napping
            &&& ready.1 is Connect
            &&& ready.0.advanced(Event::Unsubscribed, later, false).1 == Task::Evaluate(
                Reason::Poll,
            )
        }),
{
}

/// The watcher subscribes anew when the panes have changed: whatever a
/// subscribed watcher evaluates for, finding other panes than those subscribed
/// to has it leave the connection.
pub proof fn law_changed_panes_lead_to_a_new_subscription(w: Watch, now: Instant)
    requires
        w.phase is Connected || w.phase is Ticked || w.phase is Reacted,
        !w.gone,
    ensures
        ({
            let (paused, task) = w.advanced(Event::Evaluated { changed: true }, now, false);
            &&& task is Sleep
            &&& paused.advanced(Event::Slept, now, false).1 is Connect
        }),
{
}

/// A watcher starts with the graces of its options, subscribed to nothing, with
/// an evaluation due at once and Herdr not given up.
pub proof fn law_watchers_start_fresh(options: Options, now: Instant, id: Seq<char>)
    ensures
        ({
            let w = Watch::initial(options, now);
            &&& w.options == options
            &&& w.machine.start_grace == options.start_grace
            &&& w.machine.stop_grace == options.grace
            &&& w.machine.state is Off
            &&& !w.subscribed.contains(id)
            &&& w.next_eval == now
            &&& w.unavailable_since is None
            &&& !w.gone
            &&& w.phase is Fresh
        }),
{
}

/// An evaluation of a snapshot finds other panes exactly if some pane is among
/// those of the snapshot or those subscribed to and not among both: one that is
/// new as well as one that is gone. Without a snapshot it finds none.
pub proof fn law_changed_means_other_panes(w: Watch, scene: Scene, now: Instant, armed: bool)
    ensures
        scene.available ==> (w.evaluated(scene, now, armed).1.changed <==> exists|id: Seq<char>|
            #[trigger] scene.panes.contains(id) != w.subscribed.contains(id)),
        !scene.available ==> !w.evaluated(scene, now, armed).1.changed,
{
    if scene.available {
        if scene.panes == w.subscribed {
        } else if !(exists|id: Seq<char>| #[trigger]
            scene.panes.contains(id) != w.subscribed.contains(id)) {
            assert(scene.panes =~= w.subscribed);
        }
    }
}

/// A pane that an agent has and that is not subscribed to is noticed, and so is
/// one that is subscribed to and that no agent has any more.
pub proof fn law_every_other_pane_is_noticed(
    w: Watch,
    scene: Scene,
    now: Instant,
    armed: bool,
    id: Seq<char>,
)
    requires
        scene.available,
        scene.panes.contains(id) != w.subscribed.contains(id),
    ensures
        w.evaluated(scene, now, armed).1.changed,
{
    law_changed_means_other_panes(w, scene, now, armed);
}

/// What an evaluation asks for is what the state machine asks for.
pub proof fn law_effects_are_those_of_the_machine(w: Watch, scene: Scene, now: Instant, armed: bool)
    ensures
        ({
            let verdict = w.evaluated(scene, now, armed).1;
            &&& verdict.effect is Hold <==> verdict.action is Acquire
            &&& verdict.effect is Drop <==> verdict.action is Release
            &&& verdict.effect is Leave ==> verdict.action is Nothing
        }),
{
}

/// An evaluation changes neither the subscription nor what the loop is at.
pub proof fn law_evaluating_keeps_the_loop(w: Watch, scene: Scene, now: Instant, armed: bool)
    ensures
        ({
            let after = w.evaluated(scene, now, armed).0;
            &&& after.options == w.options
            &&& after.subscribed == w.subscribed
            &&& after.next_eval == w.next_eval
            &&& after.phase == w.phase
            &&& after.gone <==> w.gone || w.evaluated(scene, now, armed).1.effect is Leave
        }),
{
}

/// A watcher that leaves says for how long Herdr has been unreachable: since
/// it was first found so. It leaves once that is as long as the tolerance.
pub proof fn law_leaving_tells_how_long(
    w: Watch,
    scene: Scene,
    now: Instant,
    armed: bool,
    since: Instant,
)
    requires
        !scene.available,
        w.unavailable_since == Some(since),
        since.nanos <= now.nanos,
        w.options.exit_after.nanos > 0,
    ensures
        ({
            let (after, verdict) = w.evaluated(scene, now, armed);
            &&& after.unavailable_since == Some(since)
            &&& verdict.effect is Leave <==> now.nanos - since.nanos >= w.options.exit_after.nanos
            &&& verdict.effect matches Effect::Leave(d) ==> d.nanos == now.nanos - since.nanos
        }),
{
}

/// What an effect means for the program that holds the assertion.
pub proof fn law_deeds_follow_effects(effect: Effect, running: bool)
    ensures
        effect.asks(running) is Start <==> effect is Hold,
        effect.asks(running) is Stop <==> effect is Drop,
        effect.asks(running) is Restart <==> effect is Renew && !running,
{
}

/// The clock has room for every deadline exactly if none of them overflows.
pub proof fn law_room_is_what_deadlines_need(w: Watch, now: Instant)
    ensures
        w.room(now) <==> {
            &&& now.nanos + w.options.backstop.nanos <= u128::MAX
            &&& now.nanos + w.machine.start_grace.nanos <= u128::MAX
            &&& now.nanos + w.machine.stop_grace.nanos <= u128::MAX
            &&& now.nanos + 5_000_000_000 <= u128::MAX
        },
{
}

/// A deadline has come exactly if the next evaluation is due or the open
/// window is over.
pub proof fn law_deadlines_are_the_next_evaluation_or_the_window(w: Watch, now: Instant)
    ensures
        w.deadline_passed(now) <==> w.next_eval.nanos <= now.nanos || {
            &&& w.machine.deadline() is Some
            &&& w.machine.deadline()->Some_0 <= now.nanos
        },
{
}

/// The time until a deadline is the time after which one has come, and not
/// before.
pub proof fn law_until_deadline_is_the_time_to_the_next(w: Watch, now: Instant, later: Instant)
    requires
        w.wf(),
        now.nanos <= later.nanos,
    ensures
        w.deadline_passed(later) <==> later.nanos - now.nanos >= w.until_deadline(now).nanos,
{
}

/// A watcher that begins, or has paused, connects, unless it is to stop or has
/// given Herdr up.
pub proof fn law_watch_begins_with_a_connection(
    w: Watch,
    event: Event,
    now: Instant,
    stopping: bool,
)
    requires
        w.phase is Fresh || w.phase is Pausing,
    ensures
        ({
            let (after, task) = w.advanced(event, now, stopping);
            &&& stopping || w.gone ==> task is Shutdown && after.phase is Ended
            &&& !stopping && !w.gone ==> task is Connect && after.phase is Connecting
            &&& after.subscribed == w.subscribed
            &&& after.next_eval == w.next_eval
        }),
{
}

/// A subscription is remembered with its panes, and an evaluation follows;
/// without one an evaluation follows too.
pub proof fn law_subscriptions_are_remembered(
    w: Watch,
    panes: Panes,
    now: Instant,
    stopping: bool,
    id: Seq<char>,
)
    requires
        w.phase is Connecting,
    ensures
        ({
            let (after, task) = w.advanced(Event::Subscribed(panes), now, stopping);
            &&& task == Task::Evaluate(Reason::Connected)
            &&& after.phase is Connected
            &&& after.subscribed.contains(id) <==> panes@.contains(id)
        }),
        ({
            let (after, task) = w.advanced(Event::Unsubscribed, now, stopping);
            &&& task == Task::Evaluate(Reason::Poll)
            &&& after.phase is Polled
            &&& after.subscribed == w.subscribed
        }),
{
}

/// Once subscribed to the panes of a snapshot, a watcher finds no others in it.
pub proof fn law_a_subscription_settles_the_panes(
    w: Watch,
    snap: Snapshot,
    now: Instant,
    armed: bool,
)
    requires
        w.phase is Connecting,
    ensures
        !w.advanced(Event::Subscribed(snap.panes), now, false).0.evaluated(
            snap@,
            now,
            armed,
        ).1.changed,
{
}

/// After an evaluation on a connection that finds no other panes the watcher
/// waits for a message, with the next evaluation a backstop away.
pub proof fn law_after_an_evaluation_the_watcher_listens(w: Watch, now: Instant)
    requires
        w.phase is Connected || w.phase is Ticked || w.phase is Reacted,
        w.room(now),
        !w.gone,
    ensures
        ({
            let (after, task) = w.advanced(Event::Evaluated { changed: false }, now, false);
            &&& task is Wait
            &&& after.phase is Waiting
            &&& after.subscribed == w.subscribed
            &&& after.next_eval.nanos == now.nanos + w.options.backstop.nanos
        }),
{
}

/// A wait takes a second, or ends when the first deadline comes if that is
/// sooner.
pub proof fn law_waits_end_at_a_deadline(
    w: Watch,
    event: Event,
    now: Instant,
    stopping: bool,
    later: Instant,
)
    requires
        w.wf(),
        now.nanos <= later.nanos,
        w.advanced(event, now, stopping).1 is Wait,
    ensures
        ({
            let (after, task) = w.advanced(event, now, stopping);
            let d = task->Wait_0.nanos;
            &&& d <= 1_000_000_000
            &&& later.nanos - now.nanos < d ==> !after.deadline_passed(later)
            &&& d < 1_000_000_000 && later.nanos - now.nanos >= d ==> after.deadline_passed(later)
        }),
{
}

/// A wait that brought nothing leads to an evaluation if a deadline has come,
/// and to a further wait if not.
pub proof fn law_quiet_waits_lead_on(w: Watch, now: Instant)
    requires
        w.phase is Waiting,
    ensures
        ({
            let (after, task) = w.advanced(Event::Polled(Poll::Timeout), now, false);
            &&& w.deadline_passed(now) ==> task == Task::Evaluate(Reason::Tick)
                && after.phase is Ticked
            &&& !w.deadline_passed(now) ==> task is Wait && after.phase is Waiting
            &&& after.subscribed == w.subscribed
            &&& after.next_eval == w.next_eval
        }),
        w.advanced(Event::Polled(Poll::Timeout), now, true).1 is Shutdown,
{
}

/// A message is acted on even by a watcher that is to stop.
pub proof fn law_messages_are_always_acted_on(
    w: Watch,
    now: Instant,
    later: Instant,
    stopping: bool,
    then_stopping: bool,
)
    requires
        w.phase is Waiting,
    ensures
        ({
            let (draining, task) = w.advanced(Event::Polled(Poll::Activity), now, stopping);
            let (reacted, next) = draining.advanced(Event::Drained, later, then_stopping);
            &&& task == Task::Drain(w.options.debounce)
            &&& next == Task::Evaluate(Reason::Event)
            &&& reacted.phase is Reacted
            &&& reacted.subscribed == w.subscribed
        }),
{
}

/// A closed connection is made anew after a short pause.
pub proof fn law_closed_connections_are_made_anew(w: Watch, now: Instant, later: Instant)
    requires
        w.phase is Waiting,
        !w.gone,
    ensures
        ({
            let (paused, task) = w.advanced(Event::Polled(Poll::Closed), now, false);
            &&& task matches Task::Sleep(d) && d.nanos == 200_000_000
            &&& paused.advanced(Event::Slept, later, false).1 is Connect
        }),
        w.advanced(Event::Polled(Poll::Closed), now, true).1 is Shutdown,
{
}

/// Without a subscription the watcher sleeps for the retry time or a backstop.
pub proof fn law_naps_are_as_long_as_they_should_be(w: Watch, event: Event, now: Instant)
    requires
        w.phase is Polled,
        w.room(now),
        !w.gone,
    ensures
        ({
            let length = if w.unavailable_since is Some {
                5_000_000_000
            } else {
                w.options.backstop.nanos
            };
            let asleep = w.advanced(event, now, false).0;
            &&& length > 0 ==> asleep.phase == (Phase::Napping {
                until: Instant { nanos: (now.nanos + length) as u128 },
            })
            &&& length == 0 ==> asleep.phase is Pausing
        }),
{
}

/// A nap goes on, in stretches of half a second at most, until it is over or
/// the watcher is to stop.
pub proof fn law_naps_last_until_they_are_over(w: Watch, until: Instant, now: Instant)
    requires
        w.phase == (Phase::Napping { until }),
        !w.gone,
    ensures
        ({
            let (after, task) = w.advanced(Event::Slept, now, false);
            &&& now.nanos < until.nanos ==> after.phase == w.phase && {
                &&& task matches Task::Sleep(d)
                &&& 0 < d.nanos <= 500_000_000
                &&& now.nanos + d.nanos <= until.nanos
                &&& d.nanos == 500_000_000 || now.nanos + d.nanos == until.nanos
            }
            &&& now.nanos >= until.nanos ==> after.phase is Pausing
        }),
        w.advanced(Event::Slept, now, true).1 is Shutdown,
{
}

/// What is said about a change: on holding, who works; on letting go, why. Of
/// anything else nothing is said.
pub proof fn law_changes_are_announced(effect: Effect, armed: bool, working: Seq<Seq<char>>)
    ensures
        announced(effect, armed, working) is Some <==> effect is Hold || effect is Drop,
        effect is Hold ==> announced(effect, armed, working) == Some(
            ("AWAKE   -> "@ + summary(working), "☕ Keeping awake"@, summary(working)),
        ),
        effect is Drop && armed ==> announced(effect, armed, working) == Some(
            ("SLEEP-OK <- all agents idle/blocked"@, "💤 Sleep allowed"@, "no agents working"@),
        ),
        effect is Drop && !armed ==> announced(effect, armed, working) == Some(
            ("SLEEP-OK <- disarmed"@, "💤 Sleep allowed"@, "disarmed"@),
        ),
{
}

/// The log line on an evaluation says why it was made, who works, where the
/// state machine stands, what it asked for, and why the last snapshot failed if
/// it did.
pub proof fn law_evaluations_are_logged_in_full(
    reason: Reason,
    working: Seq<Seq<char>>,
    machine: Machine,
    action: Action,
)
    ensures
        ({
            let told = "["@ + reason.label() + "] working=["@ + joined(working, ", "@) + "] state="@
                + machine.state.label() + " action="@ + action.label();
            let line = evaluation_entry(reason, working, machine, action);
            &&& machine.last_error is None ==> line == told
            &&& machine.last_error matches Some(e) ==> line == told + " last_error="@ + quoted(e)
        }),
{
}

/// The holder is told what to hold and the number of the process for which it
/// does.
pub proof fn law_holder_is_told_for_whom(display: bool, pid: u32)
    ensures
        holder_arguments(display, pid).len() == 3,
        holder_arguments(display, pid)[0] == if display {
            "-di"@
        } else {
            "-i"@
        },
        holder_arguments(display, pid)[1] == "-w"@,
        number_in(holder_arguments(display, pid)[2], 10) == pid,
{
    law_decimal_reads_back(pid as nat);
}

/// A notification is shown with its title and its text, without a sound.
pub proof fn law_notifications_show_title_and_text(title: Seq<char>, body: Seq<char>)
    ensures
        ({
            let a = notification_arguments(title, body);
            &&& a.len() == 7
            &&& a[0] == "notification"@ && a[1] == "show"@
            &&& a[2] == title
            &&& a[3] == "--body"@ && a[4] == body
            &&& a[5] == "--sound"@ && a[6] == "none"@
        }),
{
}

} // verus!
