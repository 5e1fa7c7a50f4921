//! How the program ends: which signals ask for it, and what waiting for background tasks comes to.

use std::time::Duration;
use vstd::prelude::*;
use vstd::string::*;

verus! {

/// Seconds that background tasks get to finish in.
pub const GRACE_SECS: u64 = 30;

/// Seconds after a first interrupt in which a second one forces the shutdown.
pub const FORCE_WINDOW_SECS: u64 = 10;

/// A length of time: whole seconds and nanoseconds.
#[derive(Clone, Copy, Debug, PartialEq, Eq, Structural)]
pub struct Timeout {
    pub secs: u64,
    pub nanos: u32,
}

impl Timeout {
    /// The nanoseconds make up less than one second.
    pub open spec fn wf(self) -> bool {
        self.nanos < 1_000_000_000
    }
}

/// How `std::time::Duration` is shown for debugging.
pub uninterp spec fn duration_text(secs: u64, nanos: u32) -> Seq<char>;

/// Shows a `std::time::Duration` in the form for debugging. `Duration::new` takes any number of
/// seconds together with less than one second of nanoseconds.
#[verifier::external_body]
fn show_duration(secs: u64, nanos: u32) -> (r: String)
    requires
        nanos < 1_000_000_000,
    ensures
        r@ == duration_text(secs, nanos),
{
    format!("{:?}", Duration::new(secs, nanos))
}

/// Why background tasks did not end as they should.
#[derive(Debug)]
pub enum ShutdownError {
    /// A task panicked, with what the runtime says of it.
    Panic(String),
    /// Tasks were still running after the timeout.
    Timeout(Timeout),
}

/// The text for a task that panicked.
pub const TASK_PANICKED: &'static str = "A background task panicked during shutdown";

/// The start of the text for tasks that were still running after the timeout.
pub const TIMED_OUT: &'static str = "Graceful shutdown timed out after ";

/// The text for tasks that were still running after a timeout that is shown as `shown`.
pub fn timeout_message(shown: &String) -> (r: String)
    ensures
        r@ == TIMED_OUT@ + shown@,
{
    TIMED_OUT.to_owned().concat(shown.as_str())
}

impl ShutdownError {
    /// The text that stands for this error.
    pub open spec fn text(self) -> Seq<char> {
        match self {
            ShutdownError::Panic(_) => TASK_PANICKED@,
            ShutdownError::Timeout(timeout) => TIMED_OUT@ + duration_text(
                timeout.secs,
                timeout.nanos,
            ),
        }
    }

    /// The text that stands for this error.
    pub fn message(&self) -> (r: String)
        requires
            self matches ShutdownError::Timeout(timeout) ==> timeout.wf(),
        ensures
            r@ == self.text(),
    {
        match self {
            ShutdownError::Panic(_) => TASK_PANICKED.to_owned(),
            ShutdownError::Timeout(timeout) => {
                let shown = show_duration(timeout.secs, timeout.nanos);
                timeout_message(&shown)
            },
        }
    }
}

/// What can happen while background tasks are waited for.
#[derive(Debug)]
pub enum TaskEvent {
    /// A task ended.
    Finished,
    /// A task panicked or was cancelled, with what the runtime says of it.
    Failed(String),
    /// All tasks have ended.
    NoneLeft,
    /// The time to wait is over.
    TimedOut,
}

/// What is done while background tasks are waited for.
#[derive(Debug)]
pub enum TaskAction {
    /// Wait for the next event.
    Wait,
    /// Stop waiting.
    Stop(Result<(), ShutdownError>),
    /// Abort the tasks that are left and stop waiting.
    Abort(ShutdownError),
}

/// What is done on `event` while background tasks are waited for, at most as long as `timeout`.
pub open spec fn task_action(event: TaskEvent, timeout: Timeout) -> TaskAction {
    match event {
        TaskEvent::Finished => TaskAction::Wait,
        TaskEvent::Failed(shown) => TaskAction::Stop(Err(ShutdownError::Panic(shown))),
        TaskEvent::NoneLeft => TaskAction::Stop(Ok(())),
        TaskEvent::TimedOut => TaskAction::Abort(ShutdownError::Timeout(timeout)),
    }
}

/// What is done on `event` while background tasks are waited for, at most as long as `timeout`.
pub fn on_task_event(event: TaskEvent, timeout: Timeout) -> (r: TaskAction)
    ensures
        r == task_action(event, timeout),
{
    match event {
        TaskEvent::Finished => TaskAction::Wait,
        TaskEvent::Failed(shown) => TaskAction::Stop(Err(ShutdownError::Panic(shown))),
        TaskEvent::NoneLeft => TaskAction::Stop(Ok(())),
        TaskEvent::TimedOut => TaskAction::Abort(ShutdownError::Timeout(timeout)),
    }
}

/// What can happen while the program waits to be told to end.
#[derive(Clone, Copy, Debug, PartialEq, Eq, Structural)]
pub enum SignalEvent {
    /// An interrupt from the terminal.
    Interrupt,
    /// A request to terminate.
    Terminate,
    /// The time in which a second interrupt forces the shutdown is over.
    WindowClosed,
}

/// What the program has been told.
#[derive(Clone, Copy, Debug, PartialEq, Eq, Structural)]
pub enum SignalState {
    /// Nothing yet.
    Running,
    /// It was interrupted once.
    Interrupted,
    /// It is to end, at once if forced.
    Ending { force: bool },
}

impl SignalState {
    /// What the program has been told once `event` happened. An interrupt opens the window for a
    /// second one; nothing else counts until the window is closed.
    pub open spec fn next(self, event: SignalEvent) -> SignalState {
        match (self, event) {
            (SignalState::Running, SignalEvent::Interrupt) => SignalState::Interrupted,
            (SignalState::Running, SignalEvent::Terminate) => SignalState::Ending { force: false },
            (SignalState::Interrupted, SignalEvent::Interrupt) => SignalState::Ending {
                force: true,
            },
            (SignalState::Interrupted, SignalEvent::WindowClosed) => SignalState::Ending {
                force: false,
            },
            (state, _) => state,
        }
    }

    /// What the program has been told once `event` happened.
    pub fn on_signal(self, event: SignalEvent) -> (r: SignalState)
        ensures
            r == self.next(event),
    {
        match (self, event) {
            (SignalState::Running, SignalEvent::Interrupt) => SignalState::Interrupted,
            (SignalState::Running, SignalEvent::Terminate) => SignalState::Ending { force: false },
            (SignalState::Interrupted, SignalEvent::Interrupt) => SignalState::Ending {
                force: true,
            },
            (SignalState::Interrupted, SignalEvent::WindowClosed) => SignalState::Ending {
                force: false,
            },
            (state, _) => state,
        }
    }
}

} // verus!
