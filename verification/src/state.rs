//! The state machine behind the decision to hold or to drop the wake
//! assertion.
//!
//! ```text
//! Off          -- working --> PendingWake
//! PendingWake  -- idle    --> Off
//! PendingWake  -- sustained working past start_grace --> Awake
//! Awake        -- idle    --> PendingSleep
//! PendingSleep -- working --> Awake
//! PendingSleep -- sustained idle past stop_grace --> Off
//! Error        -- recovered --> Off, PendingWake, Awake or PendingSleep
//! ```
//!
//! A step depends on its input and on a clock reading alone. It says what the
//! caller should do and does nothing itself.

use vstd::prelude::*;
use crate::time::{elapsed, Duration, Instant};

verus! {

/// Where the watcher stands between sleep and wake.
#[derive(Clone, Copy, Debug, PartialEq, Eq, Structural)]
pub enum State {
    /// The assertion is not held, and no agent has been working recently.
    Off,
    /// An agent has just started working. The assertion is taken once the
    /// work has lasted through the start grace.
    PendingWake,
    /// The assertion is held.
    Awake,
    /// No agent is working, but the assertion is still held through the stop
    /// grace.
    PendingSleep,
    /// The last snapshot could not be fetched. What was held before is held
    /// until a snapshot succeeds again.
    Error,
}

impl State {
    /// The name of the state.
    pub open spec fn label(self) -> Seq<char> {
        match self {
            State::Off => "Off"@,
            State::PendingWake => "PendingWake"@,
            State::Awake => "Awake"@,
            State::PendingSleep => "PendingSleep"@,
            State::Error => "Error"@,
        }
    }

    /// The name of the state, for logs and for the state file.
    pub fn to_string(&self) -> (s: String)
        ensures
            s@ == self.label(),
    {
        match self {
            State::Off => "Off".to_string(),
            State::PendingWake => "PendingWake".to_string(),
            State::Awake => "Awake".to_string(),
            State::PendingSleep => "PendingSleep".to_string(),
            State::Error => "Error".to_string(),
        }
    }
}

/// What one evaluation hands to the machine.
#[derive(Clone, Copy, Debug, PartialEq, Eq, Structural)]
pub struct Input {
    /// Whether the snapshot was fetched at all.
    pub available: bool,
    /// Whether some agent has one of the statuses that count as working.
    /// Without meaning when `available` is false.
    pub working: bool,
}

/// What the caller should do after a step.
#[derive(Clone, Copy, Debug, PartialEq, Eq, Structural)]
pub enum Action {
    /// Leave things as they are.
    Nothing,
    /// Start to hold the assertion.
    Acquire,
    /// Stop holding the assertion.
    Release,
}

impl Action {
    /// The name of the action.
    pub open spec fn label(self) -> Seq<char> {
        match self {
            Action::Nothing => "None"@,
            Action::Acquire => "Acquire"@,
            Action::Release => "Release"@,
        }
    }

    /// The name of the action, for logs.
    pub fn to_string(&self) -> (s: String)
        ensures
            s@ == self.label(),
    {
        match self {
            Action::Nothing => "None".to_string(),
            Action::Acquire => "Acquire".to_string(),
            Action::Release => "Release".to_string(),
        }
    }
}

/// What a [`StateMachine`] amounts to.
pub struct Machine {
    pub state: State,
    pub start_grace: Duration,
    pub stop_grace: Duration,
    /// When the current grace window began.
    pub pending_since: Option<Instant>,
    /// Whether the assertion was held when the machine fell into `Error`.
    pub held_before_error: bool,
    /// Why the last snapshot failed.
    pub last_error: Option<Seq<char>>,
}

impl Machine {
    /// The machine at the start: nothing held, no window open, no error.
    pub open spec fn initial(start_grace: Duration, stop_grace: Duration) -> Machine {
        Machine {
            state: State::Off,
            start_grace,
            stop_grace,
            pending_since: None,
            held_before_error: false,
            last_error: None,
        }
    }

    /// A grace window is open exactly in the two pending states, and an error
    /// is on record exactly in `Error`.
    pub open spec fn wf(self) -> bool {
        &&& self.pending_since is Some <==> (self.state is PendingWake || self.state
            is PendingSleep)
        &&& self.last_error is Some <==> self.state is Error
    }

    /// Whether the assertion should be held.
    pub open spec fn holding(self) -> bool {
        match self.state {
            State::Off | State::PendingWake => false,
            State::Awake | State::PendingSleep => true,
            State::Error => self.held_before_error,
        }
    }

    /// The length of the window that is open in this state.
    pub open spec fn grace(self) -> Duration {
        if self.state is PendingWake {
            self.start_grace
        } else {
            self.stop_grace
        }
    }

    /// When the open window closes, in nanoseconds; `None` without a window.
    pub open spec fn deadline(self) -> Option<nat> {
        match (self.state, self.pending_since) {
            (State::PendingWake, Some(t)) => Some((t.nanos + self.start_grace.nanos) as nat),
            (State::PendingSleep, Some(t)) => Some((t.nanos + self.stop_grace.nanos) as nat),
            _ => None,
        }
    }

    /// In `state`, with a window open since `since`.
    pub open spec fn at(self, state: State, since: Option<Instant>) -> Machine {
        Machine { state, pending_since: since, ..self }
    }

    /// After a failed snapshot. Only the first failure in a row looks at what
    /// is held.
    pub open spec fn failed(self, reason: Seq<char>) -> Machine {
        if self.state is Error {
            Machine { last_error: Some(reason), ..self }
        } else {
            Machine {
                state: State::Error,
                pending_since: None,
                held_before_error: self.holding(),
                last_error: Some(reason),
                ..self
            }
        }
    }

    /// The machine that a successful snapshot is applied to: out of `Error`
    /// it is the one that held the same before.
    pub open spec fn recovered(self) -> Machine {
        if self.state is Error {
            Machine {
                state: if self.held_before_error {
                    State::Awake
                } else {
                    State::Off
                },
                pending_since: None,
                last_error: None,
                ..self
            }
        } else {
            self
        }
    }

    /// Whether the window that is open (or opens at `now`) has lasted for its
    /// whole grace.
    pub open spec fn window_over(self, now: Instant) -> bool {
        match self.pending_since {
            Some(t) => elapsed(t, now) >= self.grace().nanos,
            None => self.grace().nanos == 0,
        }
    }

    /// When the window that is open at `now` began.
    pub open spec fn window_start(self, now: Instant) -> Instant {
        match self.pending_since {
            Some(t) => t,
            None => now,
        }
    }

    /// The response of a machine that is not in `Error` to a successful
    /// snapshot.
    pub open spec fn observed(self, working: bool, now: Instant) -> (Machine, Action) {
        match (self.state, working) {
            (State::Off, true) => (self.at(State::PendingWake, Some(now)), Action::Nothing),
            (State::PendingWake, false) => (self.at(State::Off, None), Action::Nothing),
            (State::PendingWake, true) => if self.window_over(now) {
                (self.at(State::Awake, None), Action::Acquire)
            } else {
                (self.at(State::PendingWake, Some(self.window_start(now))), Action::Nothing)
            },
            (State::Awake, false) => (self.at(State::PendingSleep, Some(now)), Action::Nothing),
            (State::PendingSleep, true) => (self.at(State::Awake, None), Action::Nothing),
            (State::PendingSleep, false) => if self.window_over(now) {
                (self.at(State::Off, None), Action::Release)
            } else {
                (self.at(State::PendingSleep, Some(self.window_start(now))), Action::Nothing)
            },
            _ => (self, Action::Nothing),
        }
    }

    /// Kept from acting: what is held is released at once, and nothing of what
    /// was seen before counts any more.
    pub open spec fn disarmed(self) -> (Machine, Action) {
        (
            Machine::initial(self.start_grace, self.stop_grace),
            if self.holding() {
                Action::Release
            } else {
                Action::Nothing
            },
        )
    }

    /// One evaluation.
    pub open spec fn step(self, input: Input, now: Instant) -> (Machine, Action) {
        if input.available {
            self.recovered().observed(input.working, now)
        } else {
            (self.failed("snapshot unavailable"@), Action::Nothing)
        }
    }
}

/// The state machine of the watcher.
pub struct StateMachine {
    state: State,
    start_grace: Duration,
    stop_grace: Duration,
    pending_since: Option<Instant>,
    held_before_error: bool,
    last_error: Option<String>,
}

impl View for StateMachine {
    type V = Machine;

    closed spec fn view(&self) -> Machine {
        Machine {
            state: self.state,
            start_grace: self.start_grace,
            stop_grace: self.stop_grace,
            pending_since: self.pending_since,
            held_before_error: self.held_before_error,
            last_error: match self.last_error {
                Some(e) => Some(e@),
                None => None,
            },
        }
    }
}

impl StateMachine {
    /// A machine that holds nothing.
    pub fn new(start_grace: Duration, stop_grace: Duration) -> (sm: Self)
        ensures
            sm@ == Machine::initial(start_grace, stop_grace),
    {
        StateMachine {
            state: State::Off,
            start_grace,
            stop_grace,
            pending_since: None,
            held_before_error: false,
            last_error: None,
        }
    }

    /// How long work has to last before the assertion is acquired.
    pub fn start_grace(&self) -> (d: Duration)
        ensures
            d == self@.start_grace,
    {
        self.start_grace
    }

    /// How long idleness has to last before the assertion is released.
    pub fn stop_grace(&self) -> (d: Duration)
        ensures
            d == self@.stop_grace,
    {
        self.stop_grace
    }

    /// The state that the machine is in.
    pub fn state(&self) -> (s: State)
        ensures
            s == self@.state,
    {
        self.state
    }

    /// Why the last snapshot failed, while the machine is in `Error`.
    pub fn last_error(&self) -> (e: Option<&str>)
        ensures
            match self@.last_error {
                Some(reason) => e matches Some(text) && text@ == reason,
                None => e is None,
            },
    {
        match &self.last_error {
            Some(e) => Some(e.as_str()),
            None => None,
        }
    }

    /// Whether the assertion should be held now.
    pub fn holding(&self) -> (h: bool)
        ensures
            h == self@.holding(),
    {
        match self.state {
            State::Off => false,
            State::PendingWake => false,
            State::Awake => true,
            State::PendingSleep => true,
            State::Error => self.held_before_error,
        }
    }

    /// When the open grace window closes, so that a caller can size its wait.
    pub fn deadline(&self) -> (d: Option<Instant>)
        requires
            self@.deadline() matches Some(t) ==> t <= u128::MAX,
        ensures
            match self@.deadline() {
                Some(t) => d matches Some(i) && i.nanos == t,
                None => d is None,
            },
    {
        match self.pending_since {
            Some(since) => match self.state {
                State::PendingWake => Some(since.after(self.start_grace)),
                State::PendingSleep => Some(since.after(self.stop_grace)),
                _ => None,
            },
            None => None,
        }
    }

    /// Records that a snapshot failed. What is held stays held.
    pub fn note_unavailable(&mut self, reason: String)
        ensures
            final(self)@ == old(self)@.failed(reason@),
            final(self)@.holding() == old(self)@.holding(),
            final(self)@.wf() || !old(self)@.wf(),
    {
        if self.state != State::Error {
            self.held_before_error = self.state == State::Awake || self.state
                == State::PendingSleep;
            self.state = State::Error;
            self.pending_since = None;
        }
        self.last_error = Some(reason);
    }

    /// Lets go of what is held and starts anew, for an evaluation while the
    /// watcher is not allowed to act.
    pub fn disarm(&mut self) -> (action: Action)
        ensures
            (final(self)@, action) == old(self)@.disarmed(),
    {
        let action = if self.holding() {
            Action::Release
        } else {
            Action::Nothing
        };
        self.state = State::Off;
        self.pending_since = None;
        self.held_before_error = false;
        self.last_error = None;
        action
    }

    /// Advances the machine by one evaluation.
    pub fn step(&mut self, input: Input, now: Instant) -> (action: Action)
        ensures
            (final(self)@, action) == old(self)@.step(input, now),
            final(self)@.wf() || !old(self)@.wf(),
    {
        if !input.available {
            self.note_unavailable("snapshot unavailable".to_string());
            return Action::Nothing;
        }
        if self.state == State::Error {
            self.last_error = None;
            self.state = if self.held_before_error {
                State::Awake
            } else {
                State::Off
            };
            self.pending_since = None;
        }
        match self.state {
            State::Off => {
                if input.working {
                    self.state = State::PendingWake;
                    self.pending_since = Some(now);
                }
                Action::Nothing
            },
            State::PendingWake => {
                if !input.working {
                    self.state = State::Off;
                    self.pending_since = None;
                    return Action::Nothing;
                }
                let since = *self.pending_since.get_or_insert(now);
                if now.saturating_duration_since(since).nanos >= self.start_grace.nanos {
                    self.state = State::Awake;
                    self.pending_since = None;
                    Action::Acquire
                } else {
                    Action::Nothing
                }
            },
            State::Awake => {
                if !input.working {
                    self.state = State::PendingSleep;
                    self.pending_since = Some(now);
                }
                Action::Nothing
            },
            State::PendingSleep => {
                if input.working {
                    self.state = State::Awake;
                    self.pending_since = None;
                    return Action::Nothing;
                }
                let since = *self.pending_since.get_or_insert(now);
                if now.saturating_duration_since(since).nanos >= self.stop_grace.nanos {
                    self.state = State::Off;
                    self.pending_since = None;
                    Action::Release
                } else {
                    Action::Nothing
                }
            },
            State::Error => Action::Nothing,
        }
    }
}

/// One evaluation in a run of the machine: whether it is allowed to act, its
/// input and its clock reading.
pub struct Tick {
    pub armed: bool,
    pub input: Input,
    pub now: Instant,
}

/// A successful snapshot with some agent working, which may be acted on.
pub open spec fn work_seen(t: Tick) -> bool {
    t.armed && t.input.available && t.input.working
}

/// A successful snapshot with no agent working, which may be acted on.
pub open spec fn idle_seen(t: Tick) -> bool {
    t.armed && t.input.available && !t.input.working
}

/// The clock never goes back.
pub open spec fn in_order(ticks: Seq<Tick>) -> bool {
    forall|i: int, j: int|
        0 <= i <= j < ticks.len() ==> (#[trigger] ticks[i]).now.nanos <= (
        #[trigger] ticks[j]).now.nanos
}

impl Machine {
    /// One evaluation, armed or not.
    pub open spec fn ticked(self, t: Tick) -> (Machine, Action) {
        if t.armed {
            self.step(t.input, t.now)
        } else {
            self.disarmed()
        }
    }

    /// The machine after all of `ticks`.
    pub open spec fn run(self, ticks: Seq<Tick>) -> Machine
        decreases ticks.len(),
    {
        if ticks.len() == 0 {
            self
        } else {
            self.run(ticks.drop_last()).ticked(ticks.last()).0
        }
    }

    /// What the `k`-th of `ticks` asks for.
    pub open spec fn action_at(self, ticks: Seq<Tick>, k: int) -> Action {
        self.run(ticks.take(k)).ticked(ticks[k]).1
    }
}

/// The machine asks to acquire only what it does not hold and to release only
/// what it holds; what should be held changes at these two actions alone.
pub proof fn law_actions_track_holding(m: Machine, t: Tick)
    ensures
        match m.ticked(t).1 {
            Action::Acquire => !m.holding() && m.ticked(t).0.holding(),
            Action::Release => m.holding() && !m.ticked(t).0.holding(),
            Action::Nothing => m.ticked(t).0.holding() == m.holding(),
        },
{
}

/// From the start on, a window is open exactly while the machine is pending,
/// and an error is on record exactly while the machine is in `Error`.
pub proof fn law_runs_are_well_formed(
    start_grace: Duration,
    stop_grace: Duration,
    ticks: Seq<Tick>,
)
    ensures
        Machine::initial(start_grace, stop_grace).run(ticks).wf(),
    decreases ticks.len(),
{
    if ticks.len() > 0 {
        law_runs_are_well_formed(start_grace, stop_grace, ticks.drop_last());
    }
}

/// The grace periods are those that the machine was made with.
pub proof fn law_graces_never_change(m: Machine, ticks: Seq<Tick>)
    ensures
        m.run(ticks).start_grace == m.start_grace,
        m.run(ticks).stop_grace == m.stop_grace,
    decreases ticks.len(),
{
    if ticks.len() > 0 {
        law_graces_never_change(m, ticks.drop_last());
    }
}

/// While snapshots fail and the machine is armed, nothing is acquired or
/// released, and the assertion stays as it was. The first snapshot that
/// succeeds again finds the machine holding what it held before, with no window
/// open.
pub proof fn law_failed_snapshots_preserve_holding(m: Machine, ticks: Seq<Tick>)
    requires
        ticks.len() > 0,
        forall|i: int|
            0 <= i < ticks.len() ==> (#[trigger] ticks[i]).armed && !ticks[i].input.available,
    ensures
        forall|k: int| 0 <= k < ticks.len() ==> #[trigger] m.action_at(ticks, k) is Nothing,
        m.run(ticks).state is Error,
        m.run(ticks).holding() == m.holding(),
        m.run(ticks).recovered().holding() == m.holding(),
        m.run(ticks).recovered().state == if m.holding() {
            State::Awake
        } else {
            State::Off
        },
    decreases ticks.len(),
{
    let before = ticks.drop_last();
    if before.len() > 0 {
        assert forall|i: int| 0 <= i < before.len() implies (#[trigger] before[i]).armed
            && !before[i].input.available by {
            assert(before[i] == ticks[i]);
        }
        law_failed_snapshots_preserve_holding(m, before);
    } else {
        assert(m.run(before) == m);
    }
    assert(ticks[ticks.len() - 1].armed);
}

/// Where a pending machine has its window from.
proof fn lemma_window_has_a_start(start_grace: Duration, stop_grace: Duration, ticks: Seq<Tick>)
    ensures
        ({
            let m = Machine::initial(start_grace, stop_grace).run(ticks);
            &&& m.state is PendingWake ==> exists|j: int|
                #![trigger ticks[j]]
                0 <= j < ticks.len() && m.pending_since == Some(ticks[j].now) && forall|i: int|
                    j <= i < ticks.len() ==> work_seen(#[trigger] ticks[i])
            &&& m.state is PendingSleep ==> exists|j: int|
                #![trigger ticks[j]]
                0 <= j < ticks.len() && m.pending_since == Some(ticks[j].now) && forall|i: int|
                    j <= i < ticks.len() ==> idle_seen(#[trigger] ticks[i])
        }),
    decreases ticks.len(),
{
    if ticks.len() > 0 {
        let before = ticks.drop_last();
        let last = ticks.len() - 1;
        lemma_window_has_a_start(start_grace, stop_grace, before);
        law_runs_are_well_formed(start_grace, stop_grace, before);
        let m0 = Machine::initial(start_grace, stop_grace).run(before);
        let m1 = Machine::initial(start_grace, stop_grace).run(ticks);
        assert(forall|i: int| 0 <= i < before.len() ==> before[i] == ticks[i]);
        if m1.state is PendingWake {
            if m0.state is PendingWake {
                let j = choose|j: int|
                    #![trigger before[j]]
                    0 <= j < before.len() && m0.pending_since == Some(before[j].now) && forall|
                        i: int,
                    | j <= i < before.len() ==> work_seen(#[trigger] before[i]);
                assert forall|i: int| j <= i < ticks.len() implies work_seen(
                    #[trigger] ticks[i],
                ) by {
                    if i < last {
                        assert(work_seen(before[i]));
                    }
                }
                assert(m1.pending_since == Some(ticks[j].now));
            } else {
                assert(m1.pending_since == Some(ticks[last].now));
            }
        }
        if m1.state is PendingSleep {
            if m0.state is PendingSleep {
                let j = choose|j: int|
                    #![trigger before[j]]
                    0 <= j < before.len() && m0.pending_since == Some(before[j].now) && forall|
                        i: int,
                    | j <= i < before.len() ==> idle_seen(#[trigger] before[i]);
                assert forall|i: int| j <= i < ticks.len() implies idle_seen(
                    #[trigger] ticks[i],
                ) by {
                    if i < last {
                        assert(idle_seen(before[i]));
                    }
                }
                assert(m1.pending_since == Some(ticks[j].now));
            } else {
                assert(m1.pending_since == Some(ticks[last].now));
            }
        }
    }
}

/// Work that flickers acquires nothing: when a run acquires, every snapshot of
/// an unbroken stretch up to that moment saw work, and the stretch has lasted
/// for the start grace.
pub proof fn law_acquire_needs_sustained_work(
    start_grace: Duration,
    stop_grace: Duration,
    ticks: Seq<Tick>,
    k: int,
)
    requires
        0 <= k < ticks.len(),
        Machine::initial(start_grace, stop_grace).action_at(ticks, k) is Acquire,
    ensures
        exists|j: int|
            #![trigger ticks[j]]
            0 <= j < k && elapsed(ticks[j].now, ticks[k].now) >= start_grace.nanos && forall|i: int|
                j <= i <= k ==> work_seen(#[trigger] ticks[i]),
{
    let before = ticks.take(k);
    lemma_window_has_a_start(start_grace, stop_grace, before);
    law_runs_are_well_formed(start_grace, stop_grace, before);
    law_graces_never_change(Machine::initial(start_grace, stop_grace), before);
    let m0 = Machine::initial(start_grace, stop_grace).run(before);
    let j = choose|j: int|
        #![trigger before[j]]
        0 <= j < before.len() && m0.pending_since == Some(before[j].now) && forall|i: int|
            j <= i < before.len() ==> work_seen(#[trigger] before[i]);
    assert forall|i: int| j <= i <= k implies work_seen(#[trigger] ticks[i]) by {
        if i < k {
            assert(work_seen(before[i]));
        }
    }
    assert(before[j] == ticks[j]);
}

/// Idleness that flickers releases nothing: when an armed run releases, every
/// snapshot of an unbroken stretch up to that moment saw no work, and the
/// stretch has lasted for the stop grace.
pub proof fn law_release_needs_sustained_idleness(
    start_grace: Duration,
    stop_grace: Duration,
    ticks: Seq<Tick>,
    k: int,
)
    requires
        0 <= k < ticks.len(),
        Machine::initial(start_grace, stop_grace).action_at(ticks, k) is Release,
        ticks[k].armed,
    ensures
        exists|j: int|
            #![trigger ticks[j]]
            0 <= j < k && elapsed(ticks[j].now, ticks[k].now) >= stop_grace.nanos && forall|i: int|
                j <= i <= k ==> idle_seen(#[trigger] ticks[i]),
{
    let before = ticks.take(k);
    lemma_window_has_a_start(start_grace, stop_grace, before);
    law_runs_are_well_formed(start_grace, stop_grace, before);
    law_graces_never_change(Machine::initial(start_grace, stop_grace), before);
    let m0 = Machine::initial(start_grace, stop_grace).run(before);
    let j = choose|j: int|
        #![trigger before[j]]
        0 <= j < before.len() && m0.pending_since == Some(before[j].now) && forall|i: int|
            j <= i < before.len() ==> idle_seen(#[trigger] before[i]);
    assert forall|i: int| j <= i <= k implies idle_seen(#[trigger] ticks[i]) by {
        if i < k {
            assert(idle_seen(before[i]));
        }
    }
    assert(before[j] == ticks[j]);
}

/// Work that lasts is acted on: from `Off`, an unbroken stretch of work has
/// the machine awake once one of its later snapshots comes the start grace
/// after the first, and pending until then.
pub proof fn law_sustained_work_acquires(m: Machine, ticks: Seq<Tick>)
    requires
        m.state is Off,
        ticks.len() > 0,
        forall|i: int| 0 <= i < ticks.len() ==> work_seen(#[trigger] ticks[i]),
    ensures
        ({
            let over = exists|k: int|
                0 < k < ticks.len() && elapsed(ticks[0].now, (#[trigger] ticks[k]).now)
                    >= m.start_grace.nanos;
            &&& over ==> m.run(ticks).state is Awake
            &&& !over ==> m.run(ticks).state is PendingWake && m.run(ticks).pending_since == Some(
                ticks[0].now,
            )
        }),
    decreases ticks.len(),
{
    let before = ticks.drop_last();
    let last = ticks.len() - 1;
    if before.len() > 0 {
        assert forall|i: int| 0 <= i < before.len() implies work_seen(#[trigger] before[i]) by {
            assert(before[i] == ticks[i]);
        }
        law_sustained_work_acquires(m, before);
        law_graces_never_change(m, before);
        assert(before[0] == ticks[0]);
        assert(work_seen(ticks[last]));
        if exists|k: int|
            0 < k < before.len() && elapsed(before[0].now, (#[trigger] before[k]).now)
                >= m.start_grace.nanos {
            let k = choose|k: int|
                0 < k < before.len() && elapsed(before[0].now, (#[trigger] before[k]).now)
                    >= m.start_grace.nanos;
            assert(before[k] == ticks[k]);
        } else if elapsed(ticks[0].now, ticks[last].now) >= m.start_grace.nanos {
        } else {
            assert forall|k: int| 0 < k < ticks.len() implies !(elapsed(
                ticks[0].now,
                (#[trigger] ticks[k]).now,
            ) >= m.start_grace.nanos) by {
                if k < last {
                    assert(before[k] == ticks[k]);
                }
            }
        }
    } else {
        assert(work_seen(ticks[0]));
        assert(m.run(before) == m);
    }
}

/// Idleness that lasts is acted on: from `Awake`, an unbroken stretch without
/// work has the assertion released once one of its later snapshots comes the
/// stop grace after the first, and held until then.
pub proof fn law_sustained_idleness_releases(m: Machine, ticks: Seq<Tick>)
    requires
        m.state is Awake,
        ticks.len() > 0,
        forall|i: int| 0 <= i < ticks.len() ==> idle_seen(#[trigger] ticks[i]),
    ensures
        ({
            let over = exists|k: int|
                0 < k < ticks.len() && elapsed(ticks[0].now, (#[trigger] ticks[k]).now)
                    >= m.stop_grace.nanos;
            &&& over ==> m.run(ticks).state is Off
            &&& !over ==> m.run(ticks).state is PendingSleep && m.run(ticks).pending_since == Some(
                ticks[0].now,
            )
        }),
    decreases ticks.len(),
{
    let before = ticks.drop_last();
    let last = ticks.len() - 1;
    if before.len() > 0 {
        assert forall|i: int| 0 <= i < before.len() implies idle_seen(#[trigger] before[i]) by {
            assert(before[i] == ticks[i]);
        }
        law_sustained_idleness_releases(m, before);
        law_graces_never_change(m, before);
        assert(before[0] == ticks[0]);
        assert(idle_seen(ticks[last]));
        if exists|k: int|
            0 < k < before.len() && elapsed(before[0].now, (#[trigger] before[k]).now)
                >= m.stop_grace.nanos {
            let k = choose|k: int|
                0 < k < before.len() && elapsed(before[0].now, (#[trigger] before[k]).now)
                    >= m.stop_grace.nanos;
            assert(before[k] == ticks[k]);
        } else if elapsed(ticks[0].now, ticks[last].now) >= m.stop_grace.nanos {
        } else {
            assert forall|k: int| 0 < k < ticks.len() implies !(elapsed(
                ticks[0].now,
                (#[trigger] ticks[k]).now,
            ) >= m.stop_grace.nanos) by {
                if k < last {
                    assert(before[k] == ticks[k]);
                }
            }
        }
    } else {
        assert(idle_seen(ticks[0]));
        assert(m.run(before) == m);
    }
}

/// Work that lasts is held, whatever the machine was at when it began: in a run
/// whose clock never goes back, an unbroken stretch of work from one snapshot
/// to a later one, as long as the start grace, leaves the machine holding.
pub proof fn law_lasting_work_is_held(
    start_grace: Duration,
    stop_grace: Duration,
    ticks: Seq<Tick>,
    j: int,
    k: int,
)
    requires
        in_order(ticks),
        0 <= j < k < ticks.len(),
        forall|i: int| j <= i <= k ==> work_seen(#[trigger] ticks[i]),
        elapsed(ticks[j].now, ticks[k].now) >= start_grace.nanos,
    ensures
        Machine::initial(start_grace, stop_grace).run(ticks.take(k + 1)).holding(),
{
    let m = Machine::initial(start_grace, stop_grace);
    lemma_after_work(start_grace, stop_grace, ticks, j, k - 1);
    law_graces_never_change(m, ticks.take(k));
    assert(ticks.take(k + 1).drop_last() =~= ticks.take(k));
    assert(work_seen(ticks[k]));
}

/// In a stretch of work, the machine is awake or has been pending since the
/// stretch began, or for longer.
proof fn lemma_after_work(
    start_grace: Duration,
    stop_grace: Duration,
    ticks: Seq<Tick>,
    j: int,
    i: int,
)
    requires
        in_order(ticks),
        0 <= j <= i < ticks.len(),
        forall|x: int| j <= x <= i ==> work_seen(#[trigger] ticks[x]),
    ensures
        ({
            let m = Machine::initial(start_grace, stop_grace).run(ticks.take(i + 1));
            m.state is Awake || (m.state is PendingWake && (m.pending_since matches Some(t)
                && t.nanos <= ticks[j].now.nanos))
        }),
    decreases i,
{
    let before = ticks.take(i);
    assert(ticks.take(i + 1).drop_last() =~= before);
    assert(ticks.take(i + 1).last() == ticks[i]);
    assert(work_seen(ticks[i]));
    law_runs_are_well_formed(start_grace, stop_grace, before);
    if j < i {
        lemma_after_work(start_grace, stop_grace, ticks, j, i - 1);
    } else {
        lemma_window_has_a_start(start_grace, stop_grace, before);
        let m0 = Machine::initial(start_grace, stop_grace).run(before);
        if m0.state is PendingWake {
            let x = choose|x: int|
                #![trigger before[x]]
                0 <= x < before.len() && m0.pending_since == Some(before[x].now) && forall|y: int|
                    x <= y < before.len() ==> work_seen(#[trigger] before[y]);
            assert(before[x] == ticks[x]);
        }
    }
}

/// Idleness that lasts is let go of, whatever the machine was at when it
/// began: in a run whose clock never goes back, an unbroken stretch without
/// work from one snapshot to a later one, as long as the stop grace, leaves the
/// machine holding nothing.
pub proof fn law_lasting_idleness_is_let_go(
    start_grace: Duration,
    stop_grace: Duration,
    ticks: Seq<Tick>,
    j: int,
    k: int,
)
    requires
        in_order(ticks),
        0 <= j < k < ticks.len(),
        forall|i: int| j <= i <= k ==> idle_seen(#[trigger] ticks[i]),
        elapsed(ticks[j].now, ticks[k].now) >= stop_grace.nanos,
    ensures
        !Machine::initial(start_grace, stop_grace).run(ticks.take(k + 1)).holding(),
{
    let m = Machine::initial(start_grace, stop_grace);
    lemma_after_idleness(start_grace, stop_grace, ticks, j, k - 1);
    law_graces_never_change(m, ticks.take(k));
    assert(ticks.take(k + 1).drop_last() =~= ticks.take(k));
    assert(idle_seen(ticks[k]));
}

/// In a stretch without work, the machine is off or has been pending since the
/// stretch began, or for longer.
proof fn lemma_after_idleness(
    start_grace: Duration,
    stop_grace: Duration,
    ticks: Seq<Tick>,
    j: int,
    i: int,
)
    requires
        in_order(ticks),
        0 <= j <= i < ticks.len(),
        forall|x: int| j <= x <= i ==> idle_seen(#[trigger] ticks[x]),
    ensures
        ({
            let m = Machine::initial(start_grace, stop_grace).run(ticks.take(i + 1));
            m.state is Off || (m.state is PendingSleep && (m.pending_since matches Some(t)
                && t.nanos <= ticks[j].now.nanos))
        }),
    decreases i,
{
    let before = ticks.take(i);
    assert(ticks.take(i + 1).drop_last() =~= before);
    assert(ticks.take(i + 1).last() == ticks[i]);
    assert(idle_seen(ticks[i]));
    law_runs_are_well_formed(start_grace, stop_grace, before);
    if j < i {
        lemma_after_idleness(start_grace, stop_grace, ticks, j, i - 1);
    } else {
        lemma_window_has_a_start(start_grace, stop_grace, before);
        let m0 = Machine::initial(start_grace, stop_grace).run(before);
        if m0.state is PendingSleep {
            let x = choose|x: int|
                #![trigger before[x]]
                0 <= x < before.len() && m0.pending_since == Some(before[x].now) && forall|y: int|
                    x <= y < before.len() ==> idle_seen(#[trigger] before[y]);
            assert(before[x] == ticks[x]);
        }
    }
}

/// The deadline is the moment of the next action: with a clock that has not
/// gone back behind the start of the window, a pending machine whose window is
/// not cut short acts at a step exactly if its deadline has come.
pub proof fn law_deadline_is_when_the_machine_acts(m: Machine, now: Instant)
    requires
        m.wf(),
        m.pending_since matches Some(t) && t.nanos <= now.nanos,
    ensures
        m.deadline() matches Some(d) && ({
            let input = Input { available: true, working: m.state is PendingWake };
            let action = m.step(input, now).1;
            &&& now.nanos >= d ==> action == if m.state is PendingWake {
                Action::Acquire
            } else {
                Action::Release
            }
            &&& now.nanos < d ==> action is Nothing && m.step(input, now).0 == m
        }),
{
}

/// A machine starts off, with the graces that it is given and nothing held.
pub proof fn law_machines_start_off(start_grace: Duration, stop_grace: Duration)
    ensures
        ({
            let m = Machine::initial(start_grace, stop_grace);
            &&& m.state is Off
            &&& !m.holding()
            &&& m.deadline() is None
            &&& m.last_error is None
            &&& m.start_grace == start_grace
            &&& m.stop_grace == stop_grace
        }),
{
}

/// The assertion is held awake and on the way to sleep, not off and on the way
/// to wake.
pub proof fn law_states_tell_what_is_held(m: Machine)
    ensures
        m.state is Off || m.state is PendingWake ==> !m.holding(),
        m.state is Awake || m.state is PendingSleep ==> m.holding(),
{
}

/// A failure is on record with its latest reason, holds what was held, and
/// ends any window.
pub proof fn law_failures_are_on_record(m: Machine, reason: Seq<char>, now: Instant)
    ensures
        m.failed(reason).state is Error,
        m.failed(reason).last_error == Some(reason),
        m.failed(reason).holding() == m.holding(),
        m.failed(reason).deadline() is None,
        m.step(Input { available: false, working: true }, now).0 == m.failed(
            "snapshot unavailable"@,
        ),
        m.step(Input { available: false, working: false }, now).0 == m.failed(
            "snapshot unavailable"@,
        ),
        m.step(Input { available: false, working: true }, now).1 is Nothing,
        m.step(Input { available: false, working: false }, now).1 is Nothing,
{
}

/// Each state goes where work or its absence takes it. Only a pending state
/// can go two ways, as its window is over or not.
pub proof fn law_states_follow_work(m: Machine, now: Instant)
    ensures
        ({
            let worked = m.step(Input { available: true, working: true }, now).0;
            let idled = m.step(Input { available: true, working: false }, now).0;
            match m.state {
                State::Off => {
                    &&& worked.state is PendingWake && worked.pending_since == Some(now)
                    &&& idled.state is Off
                },
                State::PendingWake => {
                    &&& worked.state is PendingWake || worked.state is Awake
                    &&& worked.state is PendingWake && m.pending_since is Some
                        ==> worked.pending_since == m.pending_since
                    &&& idled.state is Off
                },
                State::Awake => {
                    &&& worked.state is Awake
                    &&& idled.state is PendingSleep && idled.pending_since == Some(now)
                },
                State::PendingSleep => {
                    &&& worked.state is Awake
                    &&& idled.state is PendingSleep || idled.state is Off
                    &&& idled.state is PendingSleep && m.pending_since is Some
                        ==> idled.pending_since == m.pending_since
                },
                State::Error => if m.holding() {
                    &&& worked.state is Awake
                    &&& idled.state is PendingSleep && idled.pending_since == Some(now)
                } else {
                    &&& worked.state is PendingWake && worked.pending_since == Some(now)
                    &&& idled.state is Off
                },
            }
        }),
{
}

/// A deadline is there exactly while a window is open: the time at which it
/// opened and the grace that goes with it.
pub proof fn law_deadlines_lie_a_grace_after_the_start(m: Machine, since: Instant)
    ensures
        m.deadline() is Some <==> m.pending_since is Some && (m.state is PendingWake || m.state
            is PendingSleep),
        m.state is PendingWake && m.pending_since == Some(since) ==> m.deadline() == Some(
            (since.nanos + m.start_grace.nanos) as nat,
        ),
        m.state is PendingSleep && m.pending_since == Some(since) ==> m.deadline() == Some(
            (since.nanos + m.stop_grace.nanos) as nat,
        ),
{
}

/// Disarmed, the machine lets go of what it holds, and is as at the start.
pub proof fn law_disarmed_machines_start_anew(m: Machine, t: Tick)
    requires
        !t.armed,
    ensures
        m.ticked(t).0.state is Off,
        m.ticked(t).0.pending_since is None,
        m.ticked(t).0.last_error is None,
        m.ticked(t).0.start_grace == m.start_grace,
        m.ticked(t).0.stop_grace == m.stop_grace,
        m.ticked(t).1 == if m.holding() {
            Action::Release
        } else {
            Action::Nothing
        },
{
}

} // verus!
