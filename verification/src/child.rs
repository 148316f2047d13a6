//! Waiting for a program whose output is wanted.

use vstd::prelude::*;
use crate::time::Duration;

verus! {

/// How a program is getting on.
#[derive(Clone, Copy, Debug, PartialEq, Eq, Structural)]
pub enum Progress {
    /// It has ended, with success or without.
    Ended { success: bool },
    /// It is still running.
    Running,
    /// That cannot be told.
    Unknown,
}

/// What to do about it.
#[derive(Clone, Copy, Debug, PartialEq, Eq, Structural)]
pub enum Handling {
    /// Take its output.
    Take,
    /// Do without its output.
    Drop,
    /// Kill it, and do without its output.
    Kill,
    /// Look again after so long.
    LookAgain(Duration),
}

/// How long to wait before looking again.
pub const LOOK_MILLIS: u64 = 30;

/// What to do about a program that was started `since` ago and is given
/// `timeout`: its output counts only if it ends with success in time.
pub fn handling(progress: Progress, since: Duration, timeout: Duration) -> (h: Handling)
    ensures
        match progress {
            Progress::Ended { success } => h == if success {
                Handling::Take
            } else {
                Handling::Drop
            },
            Progress::Running => if since.nanos > timeout.nanos {
                h == Handling::Kill
            } else {
                h matches Handling::LookAgain(d) && d.nanos == 30_000_000
            },
            Progress::Unknown => h == Handling::Drop,
        },
{
    match progress {
        Progress::Ended { success } => if success {
            Handling::Take
        } else {
            Handling::Drop
        },
        Progress::Running => if since.nanos > timeout.nanos {
            Handling::Kill
        } else {
            Handling::LookAgain(Duration::from_millis(LOOK_MILLIS))
        },
        Progress::Unknown => Handling::Drop,
    }
}

} // verus!
