//! Decisions taken when the program starts: how much to log, and whether the
//! device bridge's server has to be started first.

use vstd::prelude::*;

verus! {

/// The user's wish about starting the bridge server.
#[derive(Clone, Copy, Debug, PartialEq, Eq, Structural)]
pub enum AdbServerChoice {
    Auto,
    Always,
    Never,
}

/// How an attempt to start the bridge server ended.
#[derive(Clone, Copy, Debug, PartialEq, Eq, Structural)]
pub enum StartOutcome {
    /// The program could not be run at all.
    NotRun,
    /// The program ran and exited; `success` is its exit status.
    Exited { success: bool },
}

/// Why the bridge server is not known to run.
#[derive(Clone, Copy, Debug, PartialEq, Eq, Structural)]
pub enum BootstrapError {
    StartFailed,
    ExitedWithFailure,
}

/// The log filter for a verbosity count.
pub open spec fn log_filter_for(verbose: u8) -> Seq<char> {
    if verbose == 0 {
        "info"@
    } else if verbose == 1 {
        "spytrap_engine=debug,info"@
    } else if verbose == 2 {
        "spytrap_engine=trace,debug"@
    } else {
        "trace"@
    }
}

/// Picks the log filter: each repetition of the verbosity flag opens up more.
pub fn log_filter(verbose: u8) -> (r: &'static str)
    ensures
        r@ == log_filter_for(verbose),
{
    match verbose {
        0 => "info",
        1 => "spytrap_engine=debug,info",
        2 => "spytrap_engine=trace,debug",
        _ => "trace",
    }
}

/// The server is started unless the user said never.
pub fn needs_server_start(choice: AdbServerChoice) -> (r: bool)
    ensures
        r == (choice != AdbServerChoice::Never),
{
    match choice {
        AdbServerChoice::Never => false,
        _ => true,
    }
}

/// Judges the attempt to start the server: only a run that exited with
/// success counts.
pub fn judge_server_start(outcome: StartOutcome) -> (r: Result<(), BootstrapError>)
    ensures
        r == match outcome {
            StartOutcome::NotRun => Err::<(), BootstrapError>(BootstrapError::StartFailed),
            StartOutcome::Exited { success } => if success {
                Ok::<(), BootstrapError>(())
            } else {
                Err::<(), BootstrapError>(BootstrapError::ExitedWithFailure)
            },
        },
{
    match outcome {
        StartOutcome::NotRun => Err(BootstrapError::StartFailed),
        StartOutcome::Exited { success } => if success {
            Ok(())
        } else {
            Err(BootstrapError::ExitedWithFailure)
        },
    }
}

} // verus!
