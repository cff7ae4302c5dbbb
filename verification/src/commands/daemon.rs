//! The background recorder: what to do with the process that the marker names.

use vstd::prelude::*;
use crate::text::{decimal, lemma_parse_decimal, parse_u32, parsed_u32, render_u32, trimmed};

verus! {

/// The exit code that the system reports for a process that still runs.
pub const STILL_ACTIVE: u32 = 259;

/// Why a start or a stop could not be carried out.
#[derive(Clone, Copy, Debug, PartialEq, Eq, Structural)]
pub enum DaemonError {
    /// The marker holds no process id.
    InvalidPid,
    /// The recorder with this process id runs already.
    AlreadyRunning(u32),
    /// The process with this id could not be opened.
    CannotAccess(u32),
    /// The process with this id could not be ended.
    TerminateFailed(u32),
    /// The platform has no background mode.
    Unsupported,
}

/// What starting the recorder in the background comes to.
#[derive(Clone, Copy, Debug, PartialEq, Eq, Structural)]
pub enum StartPlan {
    /// The marker names a process that is gone: remove it, then start.
    ReplaceStale,
    /// There is no marker: start.
    Start,
}

/// What stopping the recorder in the background comes to.
#[derive(Clone, Copy, Debug, PartialEq, Eq, Structural)]
pub enum StopPlan {
    /// There is no marker: nothing runs.
    NotRunning,
    /// The marker names a process that is gone: remove it; nothing runs.
    ForgetStale,
    /// The process with this id runs: end it, then remove the marker.
    Terminate(u32),
}

/// The process id that a marker holds. No marker holds none; a marker whose
/// text, the surrounding white space apart, is no number of 32 bits is invalid.
pub open spec fn marker_pid(contents: Option<Seq<char>>) -> Result<Option<u32>, DaemonError> {
    match contents {
        None => Ok(None),
        Some(text) => match parsed_u32(trimmed(text)) {
            Some(pid) => Ok(Some(pid)),
            None => Err(DaemonError::InvalidPid),
        },
    }
}

/// Reads the process id from the contents of the marker, if there is a marker.
pub fn read_pid(contents: Option<&str>) -> (r: Result<Option<u32>, DaemonError>)
    ensures
        r == marker_pid(
            match contents {
                Some(text) => Some(text@),
                None => None,
            },
        ),
{
    match contents {
        None => Ok(None),
        Some(text) => match parse_u32(text) {
            Some(pid) => Ok(Some(pid)),
            None => Err(DaemonError::InvalidPid),
        },
    }
}

/// The contents of the marker of the process `pid`: its decimal text.
pub fn write_pid(pid: u32) -> (r: String)
    ensures
        r@ == decimal(pid as nat),
{
    render_u32(pid)
}

/// The marker that is written for a process is read back as that process.
pub proof fn lemma_marker_round_trip(pid: u32)
    ensures
        marker_pid(Some(decimal(pid as nat))) == Ok::<Option<u32>, DaemonError>(Some(pid)),
{
    lemma_parse_decimal(pid);
}

/// Decides a start. `recorded` is the process id in the marker, if there is a
/// marker; `running` says whether that process runs. A recorder that runs
/// already is not started again.
pub fn start_daemon(recorded: Option<u32>, running: bool) -> (r: Result<StartPlan, DaemonError>)
    ensures
        r == (match recorded {
            None => Ok::<StartPlan, DaemonError>(StartPlan::Start),
            Some(pid) => if running {
                Err(DaemonError::AlreadyRunning(pid))
            } else {
                Ok(StartPlan::ReplaceStale)
            },
        }),
{
    match recorded {
        None => Ok(StartPlan::Start),
        Some(pid) => if running {
            Err(DaemonError::AlreadyRunning(pid))
        } else {
            Ok(StartPlan::ReplaceStale)
        },
    }
}

/// Decides a stop. `recorded` is the process id in the marker, if there is a
/// marker; `running` says whether that process runs.
pub fn stop_daemon(recorded: Option<u32>, running: bool) -> (r: StopPlan)
    ensures
        r == (match recorded {
            None => StopPlan::NotRunning,
            Some(pid) => if running {
                StopPlan::Terminate(pid)
            } else {
                StopPlan::ForgetStale
            },
        }),
{
    match recorded {
        None => StopPlan::NotRunning,
        Some(pid) => if running {
            StopPlan::Terminate(pid)
        } else {
            StopPlan::ForgetStale
        },
    }
}

/// Whether a process runs, from what the system said of it: whether it could
/// be opened, whether its exit code could be read, and the exit code.
pub fn is_process_running(opened: bool, queried: bool, exit_code: u32) -> (r: bool)
    ensures
        r == (opened && queried && exit_code == STILL_ACTIVE),
{
    opened && queried && exit_code == STILL_ACTIVE
}

/// Whether the process `pid` was ended, from what the system said: whether it
/// could be opened, and whether ending it succeeded.
pub fn terminate_process(pid: u32, opened: bool, ended: bool) -> (r: Result<(), DaemonError>)
    ensures
        r == (if !opened {
            Err::<(), DaemonError>(DaemonError::CannotAccess(pid))
        } else if !ended {
            Err(DaemonError::TerminateFailed(pid))
        } else {
            Ok(())
        }),
{
    if !opened {
        Err(DaemonError::CannotAccess(pid))
    } else if !ended {
        Err(DaemonError::TerminateFailed(pid))
    } else {
        Ok(())
    }
}

/// The words of a failure.
pub open spec fn error_text(error: DaemonError) -> Seq<char> {
    match error {
        DaemonError::InvalidPid => "PID file contains invalid data"@,
        DaemonError::AlreadyRunning(pid) => "Keyboard recorder is already running (PID "@
            + decimal(pid as nat) + ")."@,
        DaemonError::CannotAccess(pid) => "Cannot access process "@ + decimal(pid as nat) + "."@,
        DaemonError::TerminateFailed(pid) => "Failed to terminate process "@ + decimal(
            pid as nat,
        ) + "."@,
        DaemonError::Unsupported => "Background mode is only supported on Windows."@,
    }
}

/// `head`, the decimal text of `pid`, then `tail`.
fn with_pid(head: &str, pid: u32, tail: &str) -> (r: String)
    ensures
        r@ == head@ + decimal(pid as nat) + tail@,
{
    let mut r = String::from_str(head);
    let digits = render_u32(pid);
    r.append(digits.as_str());
    r.append(tail);
    r
}

impl DaemonError {
    /// The words of the failure.
    pub fn message(&self) -> (r: String)
        ensures
            r@ == error_text(*self),
    {
        match self {
            DaemonError::InvalidPid => String::from_str("PID file contains invalid data"),
            DaemonError::AlreadyRunning(pid) => with_pid(
                "Keyboard recorder is already running (PID ",
                *pid,
                ").",
            ),
            DaemonError::CannotAccess(pid) => with_pid("Cannot access process ", *pid, "."),
            DaemonError::TerminateFailed(pid) => with_pid(
                "Failed to terminate process ",
                *pid,
                ".",
            ),
            DaemonError::Unsupported => String::from_str(
                "Background mode is only supported on Windows.",
            ),
        }
    }
}

/// What is reported once the recorder was started as the process `pid`.
pub fn started_message(pid: u32) -> (r: String)
    ensures
        r@ == "Keyboard recorder started (PID "@ + decimal(pid as nat) + ")."@,
{
    with_pid("Keyboard recorder started (PID ", pid, ").")
}

impl StopPlan {
    /// What is reported once the plan is carried out: that the recorder was
    /// stopped where a process was ended, else that none runs.
    pub fn message(&self) -> (r: String)
        ensures
            r@ == (match *self {
                StopPlan::Terminate(_) => "Keyboard recorder stopped."@,
                _ => "Keyboard recorder is not running."@,
            }),
    {
        match self {
            StopPlan::Terminate(_) => String::from_str("Keyboard recorder stopped."),
            _ => String::from_str("Keyboard recorder is not running."),
        }
    }
}

} // verus!
