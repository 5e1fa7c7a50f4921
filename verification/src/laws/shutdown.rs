//! How the program ends.

use vstd::prelude::*;

use crate::shutdown::{
    duration_text, on_task_event, task_action, ShutdownError, SignalEvent, SignalState, TaskAction,
    TaskEvent, Timeout,
};

verus! {

/// What waiting for background tasks comes to when `events` happen one after the other; nothing
/// yet if they leave it waiting.
pub open spec fn shutdown_result(events: Seq<TaskEvent>, timeout: Timeout) -> Option<
    Result<(), ShutdownError>,
>
    decreases events.len(),
{
    if events.len() == 0 {
        None
    } else {
        match task_action(events.first(), timeout) {
            TaskAction::Wait => shutdown_result(events.drop_first(), timeout),
            TaskAction::Stop(result) => Some(result),
            TaskAction::Abort(err) => Some(Err(err)),
        }
    }
}

/// The first of `events` that is not the end of a task is the `k`th.
pub open spec fn decided_at(events: Seq<TaskEvent>, k: int) -> bool {
    &&& 0 <= k < events.len()
    &&& !(events[k] is Finished)
    &&& forall|i: int| 0 <= i < k ==> #[trigger] events[i] is Finished
}

/// A shutdown is clean exactly if all tasks end before the time is over and before any of them
/// panics. A panic and the timeout are told apart by which comes first.
pub proof fn law_shutdown_result(events: Seq<TaskEvent>, timeout: Timeout, k: int)
    requires
        decided_at(events, k),
    ensures
        shutdown_result(events, timeout) == Some(Ok::<(), ShutdownError>(()))
            <==> events[k] is NoneLeft,
        shutdown_result(events, timeout) == Some(
            Err::<(), ShutdownError>(ShutdownError::Timeout(timeout)),
        ) <==> events[k] is TimedOut,
        (shutdown_result(events, timeout) matches Some(Err(ShutdownError::Panic(_))))
            <==> events[k] is Failed,
    decreases events.len(),
{
    if k > 0 {
        assert(events[0] is Finished);
        assert forall|i: int| 0 <= i < k - 1 implies #[trigger] events.drop_first()[i]
            is Finished by {
            assert(events[i + 1] is Finished);
        }
        law_shutdown_result(events.drop_first(), timeout, k - 1);
    }
}

/// As long as tasks only end one by one, they are waited for.
pub proof fn law_shutdown_waits(events: Seq<TaskEvent>, timeout: Timeout)
    requires
        forall|i: int| 0 <= i < events.len() ==> #[trigger] events[i] is Finished,
    ensures
        shutdown_result(events, timeout) is None,
    decreases events.len(),
{
    if events.len() > 0 {
        assert(events[0] is Finished);
        assert forall|i: int| 0 <= i < events.len() - 1 implies #[trigger] events.drop_first()[i]
            is Finished by {
            assert(events[i + 1] is Finished);
        }
        law_shutdown_waits(events.drop_first(), timeout);
    }
}

/// What the program has been told once `events` happened one after the other.
pub open spec fn told(state: SignalState, events: Seq<SignalEvent>) -> SignalState
    decreases events.len(),
{
    if events.len() == 0 {
        state
    } else {
        told(state, events.drop_last()).next(events.last())
    }
}

/// None of the first `i` events told the program anything.
pub open spec fn idle_until(events: Seq<SignalEvent>, i: int) -> bool {
    &&& 0 <= i <= events.len()
    &&& forall|k: int| 0 <= k < i ==> #[trigger] events[k] is WindowClosed
}

/// The first signal is the interrupt at `i`, and its window is still open before `j`: there are
/// only requests to terminate in between, which do not count then.
pub open spec fn open_window(events: Seq<SignalEvent>, i: int, j: int) -> bool {
    &&& 0 <= i < j <= events.len()
    &&& idle_until(events, i)
    &&& events[i] is Interrupt
    &&& forall|k: int| i < k < j ==> #[trigger] events[k] is Terminate
}

/// A second interrupt comes at `j`, while the window that the interrupt at `i` opened is open.
pub open spec fn forced_at(events: Seq<SignalEvent>, i: int, j: int) -> bool {
    open_window(events, i, j) && j < events.len() && events[j] is Interrupt
}

/// The window that the interrupt at `i` opened is closed at `j` without a second interrupt.
pub open spec fn window_closed_at(events: Seq<SignalEvent>, i: int, j: int) -> bool {
    open_window(events, i, j) && j < events.len() && events[j] is WindowClosed
}

/// The first signal is the request to terminate at `i`.
pub open spec fn terminated_at(events: Seq<SignalEvent>, i: int) -> bool {
    idle_until(events, i) && i < events.len() && events[i] is Terminate
}

/// The shutdown is forced exactly if the first signal is an interrupt and a second one comes while
/// its window is open. It is graceful exactly if the first signal is a request to terminate, or an
/// interrupt whose window closes without a second one. Once the program is to end, nothing changes
/// how.
pub proof fn law_how_the_program_ends(events: Seq<SignalEvent>, more: SignalEvent)
    ensures
        told(SignalState::Running, events) == (SignalState::Ending { force: true }) <==> exists|
            i: int,
            j: int,
        | #[trigger]
            forced_at(events, i, j),
        told(SignalState::Running, events) == (SignalState::Ending { force: false }) <==> (exists|
            i: int,
            j: int,
        | #[trigger]
            window_closed_at(events, i, j)) || (exists|i: int| #[trigger]
            terminated_at(events, i)),
        told(SignalState::Running, events) is Ending ==> told(SignalState::Running, events).next(
            more,
        ) == told(SignalState::Running, events),
{
    lemma_told(events);
}

proof fn lemma_told(events: Seq<SignalEvent>)
    ensures
        told(SignalState::Running, events) is Running <==> idle_until(
            events,
            events.len() as int,
        ),
        told(SignalState::Running, events) is Interrupted <==> exists|i: int| #[trigger]
            open_window(events, i, events.len() as int),
        told(SignalState::Running, events) == (SignalState::Ending { force: true }) <==> exists|
            i: int,
            j: int,
        | #[trigger]
            forced_at(events, i, j),
        told(SignalState::Running, events) == (SignalState::Ending { force: false }) <==> (exists|
            i: int,
            j: int,
        | #[trigger]
            window_closed_at(events, i, j)) || (exists|i: int| #[trigger]
            terminated_at(events, i)),
    decreases events.len(),
{
    if events.len() == 0 {
        assert(idle_until(events, 0));
    } else {
        let shorter = events.drop_last();
        let n = events.len() - 1;
        lemma_told(shorter);
        assert(events[n] == events.last());
        lemma_idle_prefix(events, n);
        assert(idle_until(events, n + 1) <==> idle_until(shorter, n) && events[n] is WindowClosed);
        assert(terminated_at(events, n) <==> idle_until(shorter, n) && events[n] is Terminate);
        assert forall|i: int| #[trigger] open_window(events, i, n + 1) <==> (open_window(
            shorter,
            i,
            n,
        ) && events[n] is Terminate) || (i == n && idle_until(shorter, n) && events[n] is Interrupt) by {
            lemma_window_prefix(events, i, n);
            if i < n && open_window(events, i, n + 1) {
                assert(events[n] is Terminate);
                assert(open_window(events, i, n));
            }
        }
        assert forall|i: int, j: int| j < n implies #[trigger] forced_at(events, i, j) == forced_at(
            shorter,
            i,
            j,
        ) && window_closed_at(events, i, j) == window_closed_at(shorter, i, j) by {
            lemma_window_prefix(events, i, j);
        }
        assert forall|i: int| #[trigger] open_window(shorter, i, n) implies open_window(
            events,
            i,
            n,
        ) by {
            lemma_window_prefix(events, i, n);
        }
        assert forall|i: int| #[trigger] open_window(events, i, n) implies open_window(
            shorter,
            i,
            n,
        ) by {
            lemma_window_prefix(events, i, n);
        }
        assert forall|i: int| i < n implies #[trigger] terminated_at(events, i) == terminated_at(
            shorter,
            i,
        ) by {
            if 0 <= i {
                lemma_idle_prefix(events, i);
            }
        }
        let before = told(SignalState::Running, shorter);
        let after = told(SignalState::Running, events);
        match before {
            SignalState::Interrupted => {
                let i = choose|i: int| #[trigger] open_window(shorter, i, n);
                assert(open_window(events, i, n));
                if events[n] is Interrupt {
                    assert(forced_at(events, i, n));
                } else if events[n] is WindowClosed {
                    assert(window_closed_at(events, i, n));
                } else {
                    assert(open_window(events, i, n + 1));
                }
            },
            SignalState::Ending { force } => {
                if force {
                    let (i, j) = choose|i: int, j: int| #[trigger] forced_at(shorter, i, j);
                    assert(forced_at(events, i, j));
                } else if exists|i: int, j: int| #[trigger] window_closed_at(shorter, i, j) {
                    let (i, j) = choose|i: int, j: int| #[trigger] window_closed_at(shorter, i, j);
                    assert(forced_at(events, i, j) == forced_at(shorter, i, j));
                    assert(window_closed_at(events, i, j));
                } else {
                    let i = choose|i: int| #[trigger] terminated_at(shorter, i);
                    assert(terminated_at(events, i));
                }
            },
            SignalState::Running => {
                if events[n] is Interrupt {
                    assert(open_window(events, n, n + 1));
                }
            },
        }
        if exists|i: int, j: int| #[trigger] forced_at(events, i, j) {
            let (i, j) = choose|i: int, j: int| #[trigger] forced_at(events, i, j);
            if j < n {
                assert(forced_at(shorter, i, j));
            } else {
                assert(open_window(shorter, i, n));
            }
            assert(after == (SignalState::Ending { force: true }));
        }
        if exists|i: int, j: int| #[trigger] window_closed_at(events, i, j) {
            let (i, j) = choose|i: int, j: int| #[trigger] window_closed_at(events, i, j);
            if j < n {
                assert(forced_at(events, i, j) == forced_at(shorter, i, j));
                assert(window_closed_at(shorter, i, j));
            } else {
                assert(open_window(shorter, i, n));
            }
            assert(after == (SignalState::Ending { force: false }));
        }
        if exists|i: int| #[trigger] terminated_at(events, i) {
            let i = choose|i: int| #[trigger] terminated_at(events, i);
            if i < n {
                assert(terminated_at(shorter, i));
            }
            assert(after == (SignalState::Ending { force: false }));
        }
        if exists|i: int| #[trigger] open_window(events, i, n + 1) {
            let i = choose|i: int| #[trigger] open_window(events, i, n + 1);
            assert(after is Interrupted);
        }
    }
}

proof fn lemma_idle_prefix(events: Seq<SignalEvent>, i: int)
    requires
        events.len() > 0,
        0 <= i < events.len(),
    ensures
        idle_until(events.drop_last(), i) == idle_until(events, i),
{
    let shorter = events.drop_last();
    if idle_until(shorter, i) {
        assert forall|k: int| 0 <= k < i implies #[trigger] events[k] is WindowClosed by {
            assert(shorter[k] is WindowClosed);
        }
    }
    if idle_until(events, i) {
        assert forall|k: int| 0 <= k < i implies #[trigger] shorter[k] is WindowClosed by {
            assert(events[k] is WindowClosed);
        }
    }
}

proof fn lemma_window_prefix(events: Seq<SignalEvent>, i: int, j: int)
    requires
        events.len() > 0,
        j < events.len(),
    ensures
        open_window(events.drop_last(), i, j) == open_window(events, i, j),
{
    let shorter = events.drop_last();
    if 0 <= i < j {
        lemma_idle_prefix(events, i);
        assert(shorter[i] == events[i]);
        if open_window(shorter, i, j) {
            assert forall|k: int| i < k < j implies #[trigger] events[k] is Terminate by {
                assert(shorter[k] is Terminate);
            }
        }
        if open_window(events, i, j) {
            assert forall|k: int| i < k < j implies #[trigger] shorter[k] is Terminate by {
                assert(events[k] is Terminate);
            }
        }
    }
}

/// What is done on each event: the end of one task is no reason to stop; the end of all is success;
/// a task that panics stops the waiting, with what the runtime says; and the end of the time, and
/// nothing else, has the tasks that are left aborted. So says what [`on_task_event`] returns.
pub proof fn law_task_events(event: TaskEvent, timeout: Timeout, r: TaskAction)
    requires
        call_ensures(on_task_event, (event, timeout), r),
    ensures
        event is Finished <==> r is Wait,
        event is NoneLeft <==> r == TaskAction::Stop(Ok::<(), ShutdownError>(())),
        event is TimedOut <==> r is Abort,
        event is TimedOut ==> r == TaskAction::Abort(ShutdownError::Timeout(timeout)),
        event matches TaskEvent::Failed(shown) ==> r == TaskAction::Stop(
            Err::<(), ShutdownError>(ShutdownError::Panic(shown)),
        ),
{
}

/// The text of a shutdown error says whether a task panicked or the time was over, and in the
/// latter case how long it was.
pub proof fn law_shutdown_error_shown(err: ShutdownError, shown: String)
    requires
        call_ensures(ShutdownError::message, (&err,), shown),
    ensures
        err is Panic ==> shown@ == "A background task panicked during shutdown"@,
        err matches ShutdownError::Timeout(timeout) ==> shown@
            == "Graceful shutdown timed out after "@ + duration_text(timeout.secs, timeout.nanos),
{
}

} // verus!
