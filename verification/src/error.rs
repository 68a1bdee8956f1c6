//! The failures that session operations report.

use vstd::prelude::*;
use vstd::string::StringExecFns;

use crate::render::{decimal_text, push_decimal};

verus! {

/// The step of bringing up a terminal that failed.
#[derive(Clone, Copy, Debug, PartialEq, Eq, Structural)]
pub enum PtyStep {
    /// Opening the terminal pair.
    Open,
    /// Starting the shell of an interactive session.
    SpawnShell,
    /// Taking the writer of an interactive session.
    TakeWriter,
    /// Taking the reader of an interactive session.
    CloneReader,
    /// Starting a one-shot command.
    SpawnCommand,
    /// Taking the reader of a one-shot command.
    CloneCommandReader,
}

/// The step of sending input that failed.
#[derive(Clone, Copy, Debug, PartialEq, Eq, Structural)]
pub enum IoStep {
    Write,
    Flush,
}

/// Why a session operation failed.
#[derive(Debug, PartialEq, Eq)]
pub enum SessionError {
    /// No session of this identifier is registered.
    NotFound { session_id: String },
    /// The identifier drawn for a new session is registered already.
    IdentifierInUse { session_id: String },
    /// A terminal could not be opened, or a process not attached to it.
    Pty { stage: PtyStep, detail: String },
    /// Writing to a live terminal failed.
    Io { step: IoStep, detail: String },
    /// A one-shot command outlived its time limit and was killed.
    TimedOut { timeout_secs: u64 },
    /// Waiting for a one-shot command failed for another reason than time.
    Wait { detail: String },
}

/// How the message of a failed terminal step begins.
pub open spec fn pty_step_text(step: PtyStep) -> Seq<char> {
    match step {
        PtyStep::Open => "Failed to open PTY: "@,
        PtyStep::SpawnShell => "Failed to spawn shell: "@,
        PtyStep::TakeWriter => "Failed to get PTY writer: "@,
        PtyStep::CloneReader => "Failed to get PTY reader: "@,
        PtyStep::SpawnCommand => "Failed to spawn command: "@,
        PtyStep::CloneCommandReader => "Failed to get reader: "@,
    }
}

/// How the message of a failed input step begins.
pub open spec fn io_step_text(step: IoStep) -> Seq<char> {
    match step {
        IoStep::Write => "Failed to write to PTY: "@,
        IoStep::Flush => "Failed to flush PTY: "@,
    }
}

/// The one-line description of an error.
pub open spec fn message_text(error: SessionError) -> Seq<char> {
    match error {
        SessionError::NotFound { session_id } => "Session "@ + session_id@ + " not found"@,
        SessionError::IdentifierInUse { session_id } => "Session "@ + session_id@
            + " already exists"@,
        SessionError::Pty { stage, detail } => pty_step_text(stage) + detail@,
        SessionError::Io { step, detail } => io_step_text(step) + detail@,
        SessionError::TimedOut { timeout_secs } => "Command timed out after "@ + decimal_text(
            timeout_secs as nat,
        ) + "s: Timeout"@,
        SessionError::Wait { detail } => "Wait error: "@ + detail@,
    }
}

fn pty_step_prefix(step: PtyStep) -> (prefix: &'static str)
    ensures
        prefix@ == pty_step_text(step),
{
    match step {
        PtyStep::Open => "Failed to open PTY: ",
        PtyStep::SpawnShell => "Failed to spawn shell: ",
        PtyStep::TakeWriter => "Failed to get PTY writer: ",
        PtyStep::CloneReader => "Failed to get PTY reader: ",
        PtyStep::SpawnCommand => "Failed to spawn command: ",
        PtyStep::CloneCommandReader => "Failed to get reader: ",
    }
}

fn io_step_prefix(step: IoStep) -> (prefix: &'static str)
    ensures
        prefix@ == io_step_text(step),
{
    match step {
        IoStep::Write => "Failed to write to PTY: ",
        IoStep::Flush => "Failed to flush PTY: ",
    }
}

impl SessionError {
    /// The error for a session identifier that is not registered.
    pub fn not_found(session_id: &str) -> (error: SessionError)
        ensures
            error matches SessionError::NotFound { session_id: id } && id@ == session_id@,
    {
        SessionError::NotFound { session_id: String::from_str(session_id) }
    }

    /// States that this is the error for the unknown identifier `session_id`.
    pub open spec fn is_not_found(self, session_id: Seq<char>) -> bool {
        self matches SessionError::NotFound { session_id: id } && id@ == session_id
    }

    /// States that this is the error for the identifier `session_id` that
    /// is registered already.
    pub open spec fn is_in_use(self, session_id: Seq<char>) -> bool {
        self matches SessionError::IdentifierInUse { session_id: id } && id@ == session_id
    }

    /// The one-line description of the error.
    pub fn message(&self) -> (text: String)
        ensures
            text@ == message_text(*self),
    {
        match self {
            SessionError::NotFound { session_id } => {
                let mut text = String::from_str("Session ");
                text.append(session_id.as_str());
                text.append(" not found");
                text
            },
            SessionError::IdentifierInUse { session_id } => {
                let mut text = String::from_str("Session ");
                text.append(session_id.as_str());
                text.append(" already exists");
                text
            },
            SessionError::Pty { stage, detail } => {
                let mut text = String::from_str(pty_step_prefix(*stage));
                text.append(detail.as_str());
                text
            },
            SessionError::Io { step, detail } => {
                let mut text = String::from_str(io_step_prefix(*step));
                text.append(detail.as_str());
                text
            },
            SessionError::TimedOut { timeout_secs } => {
                let mut text = String::from_str("Command timed out after ");
                push_decimal(&mut text, *timeout_secs);
                text.append("s: Timeout");
                text
            },
            SessionError::Wait { detail } => {
                let mut text = String::from_str("Wait error: ");
                text.append(detail.as_str());
                text
            },
        }
    }
}

} // verus!
