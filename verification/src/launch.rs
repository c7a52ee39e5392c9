//! One launch of the backend, as a sequence of decisions.
//!
//! The host does the work that only it can do: it resolves the bundled
//! executable, spawns it, and schedules the relay of its output. After each
//! piece of work it reports what happened, and [`launch_step`] decides what
//! comes next. A launch spawns at most one process, and it is over as soon
//! as the process is spawned: it never waits for output of the backend.

use crate::env::EnvOverlay;
use crate::relay::{tag_line, tagged, LogRecord, LogRecordView, LogStream};
use vstd::prelude::*;
use vstd::string::*;

verus! {

/// Why a launch failed: the host's message, unchanged.
#[derive(Debug, Clone, PartialEq, Eq)]
pub struct LaunchError {
    message: String,
}

impl View for LaunchError {
    type V = Seq<char>;

    closed spec fn view(&self) -> Seq<char> {
        self.message@
    }
}

impl LaunchError {
    /// The error that carries the given message.
    pub fn new(message: String) -> (error: LaunchError)
        ensures
            error@ == message@,
    {
        LaunchError { message }
    }

    /// The message.
    pub fn message(&self) -> (message: &str)
        ensures
            message@ == self@,
    {
        self.message.as_str()
    }

    /// The message as a string of its own.
    pub fn to_string(&self) -> (message: String)
        ensures
            message@ == self@,
    {
        self.message.clone()
    }

    /// Gives up the error for its message.
    pub fn into_message(self) -> (message: String)
        ensures
            message@ == self@,
    {
        self.message
    }
}

/// The record with which the caller of a failed launch reports it: the tag
/// and the error's message, in the error log.
pub open spec fn failure_record(message: Seq<char>) -> LogRecordView {
    LogRecordView { stream: LogStream::Error, text: tagged("launch failed: "@ + message) }
}

/// Writes the record that reports a failed launch.
pub fn report_failure(error: &LaunchError) -> (record: LogRecord)
    ensures
        record@ == failure_record(error@),
{
    let mut words = String::from_str("launch failed: ");
    words.append(error.message());
    LogRecord { stream: LogStream::Error, text: tag_line(words.as_str()) }
}

/// The name under which the host finds the bundled backend executable.
pub open spec fn backend_program() -> Seq<char> {
    "backend"@
}

/// The variables that the backend is spawned with: the port it is to serve
/// on, and nothing else.
pub open spec fn backend_variables() -> Map<Seq<char>, Seq<char>> {
    Map::<Seq<char>, Seq<char>>::empty().insert("BACKEND_PORT"@, "8787"@)
}

/// Builds the environment overlay of the backend.
pub fn backend_env() -> (env: EnvOverlay)
    ensures
        env@ == backend_variables(),
{
    let mut env = EnvOverlay::new();
    env.insert(String::from_str("BACKEND_PORT"), String::from_str("8787"));
    env
}

/// How far a launch has come.
#[derive(Debug, Clone, Copy, PartialEq, Eq, Structural)]
pub enum LaunchState {
    /// Nothing has been asked of the host yet.
    NotStarted,
    /// The host has been asked to resolve the executable.
    Resolving,
    /// The host has been asked to spawn the process.
    Spawning,
    /// The process is spawned and the relay is scheduled: the launch succeeded.
    Started,
    /// The launch failed. No process runs.
    Failed,
}

/// What the host reports to the launch.
#[derive(Debug, Clone, PartialEq, Eq)]
pub enum LaunchEvent {
    /// A launch is asked for.
    Requested,
    /// The executable is resolved.
    Resolved,
    /// The process is spawned.
    Spawned,
    /// The work last asked for failed, with this message.
    Failed(String),
}

/// The mathematical value of a [`LaunchEvent`].
pub enum LaunchEventView {
    Requested,
    Resolved,
    Spawned,
    Failed(Seq<char>),
}

impl View for LaunchEvent {
    type V = LaunchEventView;

    open spec fn view(&self) -> LaunchEventView {
        match *self {
            LaunchEvent::Requested => LaunchEventView::Requested,
            LaunchEvent::Resolved => LaunchEventView::Resolved,
            LaunchEvent::Spawned => LaunchEventView::Spawned,
            LaunchEvent::Failed(message) => LaunchEventView::Failed(message@),
        }
    }
}

impl DeepView for LaunchEvent {
    type V = LaunchEventView;

    open spec fn deep_view(&self) -> LaunchEventView {
        self@
    }
}

/// What the launch asks of the host.
#[derive(Debug)]
pub enum LaunchAction {
    /// Resolve the bundled executable of this name.
    Resolve(String),
    /// Spawn the resolved executable with these variables added to its
    /// environment.
    Spawn(EnvOverlay),
    /// Schedule the relay of the process's output, and report success to the
    /// caller without waiting for the relay.
    StartRelay,
    /// Report this error to the caller.
    Fail(LaunchError),
    /// The event has no place in the launch's state: do nothing.
    Nothing,
}

/// The mathematical value of a [`LaunchAction`].
pub enum LaunchActionView {
    Resolve(Seq<char>),
    Spawn(Map<Seq<char>, Seq<char>>),
    StartRelay,
    Fail(Seq<char>),
    Nothing,
}

impl View for LaunchAction {
    type V = LaunchActionView;

    open spec fn view(&self) -> LaunchActionView {
        match *self {
            LaunchAction::Resolve(program) => LaunchActionView::Resolve(program@),
            LaunchAction::Spawn(env) => LaunchActionView::Spawn(env@),
            LaunchAction::StartRelay => LaunchActionView::StartRelay,
            LaunchAction::Fail(error) => LaunchActionView::Fail(error@),
            LaunchAction::Nothing => LaunchActionView::Nothing,
        }
    }
}

/// The state that follows an event.
pub open spec fn next_state(state: LaunchState, event: LaunchEventView) -> LaunchState {
    match (state, event) {
        (LaunchState::NotStarted, LaunchEventView::Requested) => LaunchState::Resolving,
        (LaunchState::Resolving, LaunchEventView::Resolved) => LaunchState::Spawning,
        (LaunchState::Resolving, LaunchEventView::Failed(_)) => LaunchState::Failed,
        (LaunchState::Spawning, LaunchEventView::Spawned) => LaunchState::Started,
        (LaunchState::Spawning, LaunchEventView::Failed(_)) => LaunchState::Failed,
        _ => state,
    }
}

/// What an event makes the launch ask of the host.
pub open spec fn next_action(state: LaunchState, event: LaunchEventView) -> LaunchActionView {
    match (state, event) {
        (LaunchState::NotStarted, LaunchEventView::Requested) => LaunchActionView::Resolve(
            backend_program(),
        ),
        (LaunchState::Resolving, LaunchEventView::Resolved) => LaunchActionView::Spawn(
            backend_variables(),
        ),
        (LaunchState::Resolving, LaunchEventView::Failed(message)) => LaunchActionView::Fail(
            message,
        ),
        (LaunchState::Spawning, LaunchEventView::Spawned) => LaunchActionView::StartRelay,
        (LaunchState::Spawning, LaunchEventView::Failed(message)) => LaunchActionView::Fail(
            message,
        ),
        _ => LaunchActionView::Nothing,
    }
}

/// Decides, from the state of a launch and what the host reports, the next
/// state and what to ask of the host.
pub fn launch_step(state: LaunchState, event: LaunchEvent) -> (next: (LaunchState, LaunchAction))
    ensures
        next.0 == next_state(state, event@),
        next.1@ == next_action(state, event@),
{
    match state {
        LaunchState::NotStarted => match event {
            LaunchEvent::Requested => (
                LaunchState::Resolving,
                LaunchAction::Resolve(String::from_str("backend")),
            ),
            _ => (state, LaunchAction::Nothing),
        },
        LaunchState::Resolving => match event {
            LaunchEvent::Resolved => (LaunchState::Spawning, LaunchAction::Spawn(backend_env())),
            LaunchEvent::Failed(message) => (
                LaunchState::Failed,
                LaunchAction::Fail(LaunchError::new(message)),
            ),
            _ => (state, LaunchAction::Nothing),
        },
        LaunchState::Spawning => match event {
            LaunchEvent::Spawned => (LaunchState::Started, LaunchAction::StartRelay),
            LaunchEvent::Failed(message) => (
                LaunchState::Failed,
                LaunchAction::Fail(LaunchError::new(message)),
            ),
            _ => (state, LaunchAction::Nothing),
        },
        LaunchState::Started => (state, LaunchAction::Nothing),
        LaunchState::Failed => (state, LaunchAction::Nothing),
    }
}

/// The state of a launch that was in `state` when the host reported
/// `events`, in this order.
pub open spec fn run_state(state: LaunchState, events: Seq<LaunchEventView>) -> LaunchState
    decreases events.len(),
{
    if events.len() == 0 {
        state
    } else {
        next_state(run_state(state, events.drop_last()), events.last())
    }
}

/// What such a launch asked of the host: one action for each event.
pub open spec fn run_actions(state: LaunchState, events: Seq<LaunchEventView>) -> Seq<
    LaunchActionView,
>
    decreases events.len(),
{
    if events.len() == 0 {
        Seq::empty()
    } else {
        run_actions(state, events.drop_last()).push(
            next_action(run_state(state, events.drop_last()), events.last()),
        )
    }
}

/// How many of the actions ask the host to spawn a process.
pub open spec fn spawn_requests(actions: Seq<LaunchActionView>) -> nat
    decreases actions.len(),
{
    if actions.len() == 0 {
        0
    } else {
        spawn_requests(actions.drop_last()) + (if actions.last() is Spawn {
            1nat
        } else {
            0nat
        })
    }
}

/// A launch answers each event with one action, and the action that answers
/// event `n` is decided by the state that the events before it led to.
pub proof fn lemma_run_prefix(state: LaunchState, events: Seq<LaunchEventView>, n: int)
    requires
        0 <= n <= events.len(),
    ensures
        run_actions(state, events).len() == events.len(),
        run_actions(state, events.take(n)) == run_actions(state, events).take(n),
        n < events.len() ==> run_actions(state, events)[n] == next_action(
            run_state(state, events.take(n)),
            events[n],
        ),
    decreases events.len(),
{
    if events.len() == 0 {
        assert(events.take(n) == events);
        assert(run_actions(state, events).take(n) == run_actions(state, events));
    } else {
        let earlier = events.drop_last();
        lemma_run_prefix(state, earlier, earlier.len() as int);
        if n == events.len() {
            assert(events.take(n) == events);
            assert(run_actions(state, events).take(n) == run_actions(state, events));
        } else {
            lemma_run_prefix(state, earlier, n);
            assert(earlier.take(n) == events.take(n));
            assert(run_actions(state, events).take(n) == run_actions(state, earlier).take(n));
            if n == earlier.len() {
                assert(events.take(n) == earlier);
            }
        }
    }
}

/// Before the host has resolved the executable no spawn was asked for, and
/// once one was asked for no second one is.
proof fn lemma_spawn_requests_by_state(events: Seq<LaunchEventView>)
    ensures
        ({
            let state = run_state(LaunchState::NotStarted, events);
            let requests = spawn_requests(run_actions(LaunchState::NotStarted, events));
            &&& requests <= 1
            &&& state == LaunchState::NotStarted || state == LaunchState::Resolving ==> requests
                == 0
            &&& state == LaunchState::Spawning || state == LaunchState::Started ==> requests == 1
        }),
    decreases events.len(),
{
    if events.len() > 0 {
        lemma_spawn_requests_by_state(events.drop_last());
        let actions = run_actions(LaunchState::NotStarted, events);
        assert(actions.drop_last() == run_actions(LaunchState::NotStarted, events.drop_last()));
    }
}

/// A launch spawns one process at most, and a launch that has started has
/// spawned exactly one. Whenever it asks for a spawn it hands over the
/// backend's variables, and the executable it asks the host to resolve is
/// the backend.
pub proof fn lemma_one_spawn_per_launch(events: Seq<LaunchEventView>)
    ensures
        spawn_requests(run_actions(LaunchState::NotStarted, events)) <= 1,
        run_state(LaunchState::NotStarted, events) == LaunchState::Started ==> spawn_requests(
            run_actions(LaunchState::NotStarted, events),
        ) == 1,
        forall|k: int|
            0 <= k < events.len() && #[trigger] run_actions(
                LaunchState::NotStarted,
                events,
            )[k] is Spawn ==> run_actions(LaunchState::NotStarted, events)[k]
                == LaunchActionView::Spawn(backend_variables()),
        forall|k: int|
            0 <= k < events.len() && #[trigger] run_actions(
                LaunchState::NotStarted,
                events,
            )[k] is Resolve ==> run_actions(LaunchState::NotStarted, events)[k]
                == LaunchActionView::Resolve(backend_program()),
{
    lemma_spawn_requests_by_state(events);
    assert forall|k: int| 0 <= k < events.len() implies (#[trigger] run_actions(
        LaunchState::NotStarted,
        events,
    )[k] is Spawn ==> run_actions(LaunchState::NotStarted, events)[k]
        == LaunchActionView::Spawn(backend_variables())) && (run_actions(
        LaunchState::NotStarted,
        events,
    )[k] is Resolve ==> run_actions(LaunchState::NotStarted, events)[k]
        == LaunchActionView::Resolve(backend_program())) by {
        lemma_run_prefix(LaunchState::NotStarted, events, k);
    }
}

/// A launch that has started or failed is over: it stays as it is, answers
/// with nothing, and asks for no spawn, whatever the host reports.
proof fn lemma_ended_stays_ended(events: Seq<LaunchEventView>, ended: int, n: int)
    requires
        0 <= ended <= n <= events.len(),
        run_state(LaunchState::NotStarted, events.take(ended)) == LaunchState::Started
            || run_state(LaunchState::NotStarted, events.take(ended)) == LaunchState::Failed,
    ensures
        run_state(LaunchState::NotStarted, events.take(n)) == run_state(
            LaunchState::NotStarted,
            events.take(ended),
        ),
        spawn_requests(run_actions(LaunchState::NotStarted, events.take(n))) == spawn_requests(
            run_actions(LaunchState::NotStarted, events.take(ended)),
        ),
        forall|j: int|
            ended <= j < n ==> #[trigger] run_actions(LaunchState::NotStarted, events)[j]
                == LaunchActionView::Nothing,
    decreases n - ended,
{
    if ended < n {
        lemma_ended_stays_ended(events, ended, n - 1);
        lemma_run_prefix(LaunchState::NotStarted, events, n - 1);
        assert(events.take(n).drop_last() == events.take(n - 1));
        assert(events.take(n).last() == events[n - 1]);
        let actions = run_actions(LaunchState::NotStarted, events.take(n));
        assert(actions.drop_last() == run_actions(LaunchState::NotStarted, events.take(n - 1)));
    }
}

/// Where the host reports the spawn that the launch asked for, the launch
/// has started: it asks for the relay to be scheduled and is over. It has
/// spawned exactly one process, and whatever the host reports afterwards, it
/// stays started and asks for nothing more.
pub proof fn lemma_spawn_ends_launch(events: Seq<LaunchEventView>, k: int)
    requires
        0 <= k < events.len(),
        events[k] is Spawned,
        run_state(LaunchState::NotStarted, events.take(k)) == LaunchState::Spawning,
    ensures
        run_actions(LaunchState::NotStarted, events)[k] == LaunchActionView::StartRelay,
        run_state(LaunchState::NotStarted, events) == LaunchState::Started,
        forall|j: int|
            k < j < events.len() ==> #[trigger] run_actions(LaunchState::NotStarted, events)[j]
                == LaunchActionView::Nothing,
        spawn_requests(run_actions(LaunchState::NotStarted, events)) == 1,
{
    let start = LaunchState::NotStarted;
    lemma_run_prefix(start, events, k);
    assert(events.take(k + 1).drop_last() == events.take(k));
    assert(events.take(k + 1).last() == events[k]);
    lemma_ended_stays_ended(events, k + 1, events.len() as int);
    assert(events.take(events.len() as int) == events);
    lemma_spawn_requests_by_state(events);
}

/// Where the host reports that the work asked of it failed, the launch fails
/// with the host's message, unchanged, so with a message that is not empty
/// where the host's is not. It ends there: whatever the host reports
/// afterwards, the launch stays failed and asks for nothing more. Where the
/// failure was in resolving the executable, no spawn is ever asked for.
pub proof fn lemma_failure_ends_launch(events: Seq<LaunchEventView>, k: int)
    requires
        0 <= k < events.len(),
        events[k] is Failed,
        run_state(LaunchState::NotStarted, events.take(k)) == LaunchState::Resolving || run_state(
            LaunchState::NotStarted,
            events.take(k),
        ) == LaunchState::Spawning,
    ensures
        run_actions(LaunchState::NotStarted, events)[k] == LaunchActionView::Fail(
            events[k]->Failed_0,
        ),
        events[k]->Failed_0.len() > 0 ==> run_actions(
            LaunchState::NotStarted,
            events,
        )[k]->Fail_0.len() > 0,
        run_state(LaunchState::NotStarted, events) == LaunchState::Failed,
        forall|j: int|
            k < j < events.len() ==> #[trigger] run_actions(LaunchState::NotStarted, events)[j]
                == LaunchActionView::Nothing,
        run_state(LaunchState::NotStarted, events.take(k)) == LaunchState::Resolving
            ==> spawn_requests(run_actions(LaunchState::NotStarted, events)) == 0,
{
    let start = LaunchState::NotStarted;
    lemma_run_prefix(start, events, k);
    assert(events.take(k + 1).drop_last() == events.take(k));
    assert(events.take(k + 1).last() == events[k]);
    lemma_ended_stays_ended(events, k + 1, events.len() as int);
    assert(events.take(events.len() as int) == events);
    lemma_spawn_requests_by_state(events.take(k));
    let actions = run_actions(start, events.take(k + 1));
    assert(actions.drop_last() == run_actions(start, events.take(k)));
}

} // verus!
