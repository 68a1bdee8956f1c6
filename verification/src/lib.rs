//! Registry and text handling for interactive terminal sessions.
//!
//! The library holds everything about terminal sessions that can be decided
//! from plain values: the bounded output buffer of a session, the pass that
//! removes terminal control sequences from captured output, the registry of
//! live sessions, and the decisions of the loops that drain a terminal and
//! wait for a command. Opening terminals and moving bytes is left to the
//! program that embeds the library.
//!
//! * `buffer`: the bounded output buffer, what a drain loop does with a
//!   read, and the inbox in which it leaves what it captured.
//! * `sanitize`: the filter for control sequences and carriage returns.
//! * `lines`: cutting a text into lines and keeping the last few.
//! * `output`: from captured bytes to the text that a caller is shown.
//! * `session`: the registry of sessions.
//! * `launch`: what to start on a terminal, and the result of a command.
//! * `supervisor`: waiting for a command under a time limit.
//! * `error`: the failures and their messages.
//! * `protocol`: the requests and the wording of the answers.
//! * `render`: numbers and flags as text.
//! * `text`: what is taken from the standard library's strings on trust.

pub mod buffer;
pub mod error;
pub mod launch;
pub mod lines;
pub mod output;
pub mod protocol;
pub mod render;
pub mod sanitize;
pub mod session;
pub mod supervisor;
pub mod text;
