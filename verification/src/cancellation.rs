//! Waiting for auto-analysis in a way that can be cancelled.

use crate::error::ToolError;
use vstd::prelude::*;

verus! {

/// How often the watcher looks for a cancellation, in milliseconds.
pub const WATCH_INTERVAL_MILLIS: u64 = 25;

/// What the watcher does next.
#[derive(Debug, Clone, Copy, PartialEq, Eq, Structural)]
pub enum WatchAction {
    /// The wait is over; nothing is left to watch.
    Stop,
    /// Tell IDA to give up, and stop watching.
    SignalCancel,
    /// Look again after the watch interval.
    Sleep,
}

/// What the watcher does: a finished wait is never signalled.
pub fn watch_step(wait_done: bool, cancelled: bool) -> (action: WatchAction)
    ensures
        action == if wait_done {
            WatchAction::Stop
        } else if cancelled {
            WatchAction::SignalCancel
        } else {
            WatchAction::Sleep
        },
{
    if wait_done {
        WatchAction::Stop
    } else if cancelled {
        WatchAction::SignalCancel
    } else {
        WatchAction::Sleep
    }
}

/// How a wait for auto-analysis went.
pub enum AutoWait {
    /// The request was cancelled before the wait began.
    CancelledBefore(ToolError),
    /// The wait is over: a cancellation seen after it, and whether analysis was completed.
    Waited { cancelled: Option<ToolError>, completed: bool },
}

/// The outcome of a wait: it succeeds only when analysis was completed and no cancellation
/// came before or during it.
pub fn cancellable_auto_wait(wait: AutoWait) -> (r: Result<bool, ToolError>)
    ensures
        match wait {
            AutoWait::CancelledBefore(error) => r == Err::<bool, ToolError>(error),
            AutoWait::Waited { cancelled: Some(error), .. } => r == Err::<bool, ToolError>(error),
            AutoWait::Waited { cancelled: None, completed: false } => r is Err && r->Err_0@
                == ToolError::Cancelled("IDA auto-analysis was cancelled"@),
            AutoWait::Waited { cancelled: None, completed: true } => r == Ok::<bool, ToolError>(
                true,
            ),
        },
{
    match wait {
        AutoWait::CancelledBefore(error) => Err(error),
        AutoWait::Waited { cancelled: Some(error), .. } => Err(error),
        AutoWait::Waited { cancelled: None, completed } => if completed {
            Ok(true)
        } else {
            Err(ToolError::Cancelled("IDA auto-analysis was cancelled".to_owned()))
        },
    }
}

} // verus!
