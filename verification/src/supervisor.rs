//! The decisions of the loop that waits for a one-shot command.
//!
//! The wait is a poll: the embedding program asks the process without
//! blocking whether it has exited, hands the answer and the time spent so
//! far to `wait_step`, and does what the step says.

use vstd::prelude::*;

use crate::error::SessionError;

verus! {

/// The time limit of a command for which the caller names none, in seconds.
pub const DEFAULT_TIMEOUT_SECS: u64 = 300;

/// The pause between two polls, in milliseconds.
pub const POLL_INTERVAL_MILLIS: u64 = 50;

/// What one non-blocking wait on the process reported.
#[derive(Debug, PartialEq, Eq)]
pub enum PollOutcome {
    /// The process has exited with this code.
    Exited { exit_code: u32 },
    /// The process is still running.
    Running,
    /// The wait itself failed.
    Failed { detail: String },
}

/// What the waiting loop does next.
#[derive(Debug, PartialEq, Eq)]
pub enum WaitStep {
    /// Stop: the command has ended with this exit code.
    Done { exit_code: u32 },
    /// Sleep for this many milliseconds, then poll again.
    Sleep { millis: u64 },
    /// Kill the process, then report the error.
    Abort { error: SessionError },
}

/// The time limit in force: the one given, else the default.
pub open spec fn timeout_in_force(timeout_secs: Option<u64>) -> u64 {
    match timeout_secs {
        Some(secs) => secs,
        None => DEFAULT_TIMEOUT_SECS,
    }
}

/// Whether the time spent has reached the limit.
pub open spec fn limit_reached(elapsed_nanos: u128, timeout_secs: u64) -> bool {
    elapsed_nanos >= timeout_secs * 1_000_000_000
}

/// The step that follows a poll.
pub open spec fn step_after(
    outcome: PollOutcome,
    elapsed_nanos: u128,
    timeout_secs: u64,
) -> WaitStep {
    match outcome {
        PollOutcome::Exited { exit_code } => WaitStep::Done { exit_code },
        PollOutcome::Running => if limit_reached(elapsed_nanos, timeout_secs) {
            WaitStep::Abort { error: SessionError::TimedOut { timeout_secs } }
        } else {
            WaitStep::Sleep { millis: POLL_INTERVAL_MILLIS }
        },
        PollOutcome::Failed { detail } => WaitStep::Abort { error: SessionError::Wait { detail } },
    }
}

/// The time limit in force for a command.
pub fn effective_timeout(timeout_secs: Option<u64>) -> (secs: u64)
    ensures
        secs == timeout_in_force(timeout_secs),
{
    match timeout_secs {
        Some(secs) => secs,
        None => DEFAULT_TIMEOUT_SECS,
    }
}

/// Decides what follows one poll of the process, `elapsed_nanos` after the
/// wait began under a limit of `timeout_secs`. An exit ends the wait
/// whatever the time; a process still running is given up once the limit is
/// reached; a failed wait is given up at once.
pub fn wait_step(outcome: PollOutcome, elapsed_nanos: u128, timeout_secs: u64) -> (step: WaitStep)
    ensures
        step == step_after(outcome, elapsed_nanos, timeout_secs),
{
    match outcome {
        PollOutcome::Exited { exit_code } => WaitStep::Done { exit_code },
        PollOutcome::Running => {
            let limit: u128 = (timeout_secs as u128) * 1_000_000_000;
            if elapsed_nanos >= limit {
                WaitStep::Abort { error: SessionError::TimedOut { timeout_secs } }
            } else {
                WaitStep::Sleep { millis: POLL_INTERVAL_MILLIS }
            }
        },
        PollOutcome::Failed { detail } => WaitStep::Abort { error: SessionError::Wait { detail } },
    }
}

/// A running process is never waited for past its limit, and never given up
/// before it.
pub proof fn lemma_running_until_limit(elapsed_nanos: u128, timeout_secs: u64)
    ensures
        step_after(PollOutcome::Running, elapsed_nanos, timeout_secs) is Abort <==> elapsed_nanos
            >= timeout_secs * 1_000_000_000,
        step_after(PollOutcome::Running, elapsed_nanos, timeout_secs) is Sleep <==> elapsed_nanos
            < timeout_secs * 1_000_000_000,
{
}

} // verus!
