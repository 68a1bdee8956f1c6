//! The requests that callers make, and the text of the answers.
//!
//! Each request type offers the part of its handling that needs no
//! terminal; each operation has a function that words its outcome.

use vstd::prelude::*;
use vstd::string::StringExecFns;
use vstd::utf8::encode_utf8;

use crate::error::{message_text, SessionError};
use crate::launch::{
    cwd_choice, plan_session, shell_choice, Environment, ExecPlan, ExecResult, LaunchPlan,
    PTY_COLS, PTY_ROWS,
};
use crate::lines::texts;
use crate::output::{captured_text, shown_text};
use crate::render::{decimal_text, flag_text, push_decimal, push_flag};
use crate::session::{
    drained, has_session, is_lower_hex, listed, session_of, slice_text_of, text_of,
    well_formed_identifier, without, SessionInfo, SessionManager, SessionState,
};
use crate::supervisor::timeout_in_force;

verus! {

/// Request to run one command to completion.
#[derive(Debug)]
pub struct ExecuteParams {
    /// The shell command to run.
    pub command: String,
    /// The directory to run it in.
    pub cwd: Option<String>,
    /// The time limit in seconds.
    pub timeout_secs: Option<u64>,
}

/// Request to open an interactive session.
#[derive(Debug)]
pub struct CreateSessionParams {
    /// The directory in which the shell starts.
    pub cwd: Option<String>,
    /// The shell to start.
    pub shell: Option<String>,
    /// A project name to tag the session with.
    pub project: Option<String>,
}

/// Request to send text to a session.
#[derive(Debug)]
pub struct SendInputParams {
    pub session_id: String,
    /// The text to send; a newline is sent only if it is part of it.
    pub input: String,
}

/// Request to read what a session has put out.
#[derive(Debug)]
pub struct ReadOutputParams {
    pub session_id: String,
    /// How many lines to return, counted from the end.
    pub lines: Option<u32>,
}

/// Request to close a session.
#[derive(Debug)]
pub struct CloseSessionParams {
    pub session_id: String,
}

/// Request to list the sessions.
#[derive(Debug)]
pub struct ListSessionsParams {
    /// The project whose sessions to list.
    pub project: Option<String>,
}

/// Whether JSON writes the text between quotes as it stands: it holds no
/// double quote, no backslash and no character below U+0020.
pub open spec fn needs_no_escape(text: Seq<char>) -> bool {
    forall|i: int|
        0 <= i < text.len() ==> text[i] != '"' && text[i] != '\\' && text[i] >= ' '
}

/// The compact JSON document that `serde_json` writes for an object with
/// one member, whose value is a string.
pub uninterp spec fn member_document(key: Seq<char>, value: Seq<char>) -> Seq<char>;

/// The document of an object with one member where neither the key nor
/// the value needs an escape.
pub open spec fn plain_member_document(key: Seq<char>, value: Seq<char>) -> Seq<char> {
    seq!['{', '"'] + key + seq!['"', ':', '"'] + value + seq!['"', '}']
}

/// Puts the member into a `serde_json::Map` with `insert` and writes the
/// object through the `Display` of `serde_json::Value`. Believed, not
/// proved: the document is a function of key and value alone, named
/// `member_document`, and where neither needs an escape it is the key and
/// the value, each between double quotes, with a colon between them and
/// braces around.
#[verifier::external_body]
fn member_json(key: &str, value: &str) -> (document: String)
    ensures
        document@ == member_document(key@, value@),
        needs_no_escape(key@) && needs_no_escape(value@) ==> document@ == plain_member_document(
            key@,
            value@,
        ),
{
    let mut object = serde_json::Map::new();
    object.insert(String::from(key), serde_json::Value::String(String::from(value)));
    serde_json::Value::Object(object).to_string()
}

/// The answer that tells a new session's identifier: the object with the
/// single member `session_id`.
pub open spec fn session_id_document(session_id: Seq<char>) -> Seq<char> {
    member_document("session_id"@, session_id)
}

/// A generated identifier needs no escape.
pub proof fn lemma_identifier_needs_no_escape(id: Seq<char>)
    requires
        well_formed_identifier(id),
    ensures
        needs_no_escape(id),
{
    assert forall|i: int| 0 <= i < id.len() implies id[i] != '"' && id[i] != '\\' && id[i]
        >= ' ' by {
        if !(i == 8 || i == 13 || i == 18 || i == 23) {
            assert(is_lower_hex(id[i]));
        }
    }
}

/// The answer for an unknown session, word by word and as one text.
proof fn lemma_not_found_answer(session_id: Seq<char>)
    ensures
        "ERROR: "@ + ("Session "@ + session_id + " not found"@) == "ERROR: Session "@ + session_id
            + " not found"@,
{
    reveal_strlit("ERROR: ");
    reveal_strlit("Session ");
    reveal_strlit("ERROR: Session ");
    assert("ERROR: "@ + ("Session "@ + session_id + " not found"@) =~= "ERROR: Session "@
        + session_id + " not found"@);
}

/// The answer that reports an error.
pub open spec fn error_text(error: SessionError) -> Seq<char> {
    "ERROR: "@ + message_text(error)
}

/// The answer to a one-shot command: its exit code, a blank line, its output.
pub open spec fn execute_text(result: Result<ExecResult, SessionError>) -> Seq<char> {
    match result {
        Ok(done) => "Exit code: "@ + decimal_text(done.exit_code as nat) + "\n\n"@ + done.stdout@,
        Err(error) => error_text(error),
    }
}

/// The answer to opening a session.
pub open spec fn create_session_text(result: Result<String, SessionError>) -> Seq<char> {
    match result {
        Ok(session_id) => session_id_document(session_id@),
        Err(error) => error_text(error),
    }
}

/// The answer to sending input.
pub open spec fn send_input_text(result: Result<(), SessionError>) -> Seq<char> {
    match result {
        Ok(_) => "Input sent"@,
        Err(error) => error_text(error),
    }
}

/// The answer to a read: the liveness flag, then the text, or a note in
/// its place where the text is empty.
pub open spec fn output_text(text: Seq<char>, is_alive: bool) -> Seq<char> {
    "alive: "@ + flag_text(is_alive) + "\n\n"@ + if text.len() == 0 {
        "(no new output)"@
    } else {
        text
    }
}

/// The answer to reading output.
pub open spec fn read_output_text(result: Result<(String, bool), SessionError>) -> Seq<char> {
    match result {
        Ok((text, is_alive)) => output_text(text@, is_alive),
        Err(error) => error_text(error),
    }
}

/// The answer to closing a session.
pub open spec fn close_session_text(result: Result<(), SessionError>) -> Seq<char> {
    match result {
        Ok(_) => "Session closed"@,
        Err(error) => error_text(error),
    }
}

/// The answer to a listing of `count` sessions, of which `rendered` is the
/// document or the reason why there is none.
pub open spec fn list_sessions_text(count: nat, rendered: Result<String, String>) -> Seq<char> {
    if count == 0 {
        "No active sessions"@
    } else {
        match rendered {
            Ok(document) => document@,
            Err(reason) => "ERROR: "@ + reason@,
        }
    }
}

fn error_response(error: &SessionError) -> (text: String)
    ensures
        text@ == error_text(*error),
{
    let mut text = String::from_str("ERROR: ");
    let message = error.message();
    text.append(message.as_str());
    text
}

/// Words the outcome of a one-shot command.
pub fn execute_response(result: &Result<ExecResult, SessionError>) -> (text: String)
    ensures
        text@ == execute_text(*result),
{
    match result {
        Ok(done) => {
            let mut text = String::from_str("Exit code: ");
            push_decimal(&mut text, done.exit_code as u64);
            text.append("\n\n");
            text.append(done.stdout.as_str());
            text
        },
        Err(error) => error_response(error),
    }
}

/// Words the outcome of opening a session.
pub fn create_session_response(result: &Result<String, SessionError>) -> (text: String)
    ensures
        text@ == create_session_text(*result),
        match *result {
            Ok(session_id) => needs_no_escape(session_id@) ==> text@ == plain_member_document(
                "session_id"@,
                session_id@,
            ),
            Err(_) => true,
        },
{
    match result {
        Ok(session_id) => {
            proof {
                reveal_strlit("session_id");
            }
            member_json("session_id", session_id.as_str())
        },
        Err(error) => error_response(error),
    }
}

/// Words the outcome of sending input.
pub fn send_input_response(result: &Result<(), SessionError>) -> (text: String)
    ensures
        text@ == send_input_text(*result),
{
    match result {
        Ok(_) => String::from_str("Input sent"),
        Err(error) => error_response(error),
    }
}

/// Words the outcome of reading output.
pub fn read_output_response(result: &Result<(String, bool), SessionError>) -> (text: String)
    ensures
        text@ == read_output_text(*result),
{
    match result {
        Ok((output, is_alive)) => {
            let mut text = String::from_str("alive: ");
            push_flag(&mut text, *is_alive);
            text.append("\n\n");
            if output.as_str().is_empty() {
                text.append("(no new output)");
            } else {
                text.append(output.as_str());
            }
            text
        },
        Err(error) => error_response(error),
    }
}

/// Words the outcome of closing a session.
pub fn close_session_response(result: &Result<(), SessionError>) -> (text: String)
    ensures
        text@ == close_session_text(*result),
{
    match result {
        Ok(_) => String::from_str("Session closed"),
        Err(error) => error_response(error),
    }
}

/// Words a listing: a fixed note where it is empty, else the document that
/// the embedding program rendered of it, or the reason why it could not.
pub fn list_sessions_response(
    sessions: &Vec<SessionInfo>,
    rendered: Result<String, String>,
) -> (text: String)
    ensures
        text@ == list_sessions_text(sessions@.len(), rendered),
{
    if sessions.len() == 0 {
        String::from_str("No active sessions")
    } else {
        match rendered {
            Ok(document) => document,
            Err(reason) => {
                let mut text = String::from_str("ERROR: ");
                text.append(reason.as_str());
                text
            },
        }
    }
}

fn copy_of(value: &Option<String>) -> (copy: Option<String>)
    ensures
        text_of(copy) == text_of(*value),
{
    match value {
        Some(text) => Some(text.clone()),
        None => None,
    }
}

impl ExecuteParams {
    /// The plan of the command that the request asks for: see
    /// `SessionManager::execute`.
    pub fn plan<H>(&self, manager: &SessionManager<H>, env: &Environment) -> (plan: ExecPlan)
        ensures
            plan.launch.program@ == shell_choice(None, *env),
            texts(plan.launch.args@) == seq!["-c"@, self.command@],
            plan.launch.cwd@ == cwd_choice(text_of(self.cwd), *env),
            plan.launch.rows == PTY_ROWS,
            plan.launch.cols == PTY_COLS,
            plan.timeout_secs == timeout_in_force(self.timeout_secs),
    {
        manager.execute(self.command.as_str(), copy_of(&self.cwd), self.timeout_secs, env)
    }
}

impl CreateSessionParams {
    /// The plan of the shell that the request asks for.
    pub fn plan(&self, env: &Environment) -> (plan: LaunchPlan)
        ensures
            plan.program@ == shell_choice(text_of(self.shell), *env),
            plan.args@.len() == 0,
            plan.cwd@ == cwd_choice(text_of(self.cwd), *env),
            plan.rows == PTY_ROWS,
            plan.cols == PTY_COLS,
    {
        plan_session(copy_of(&self.cwd), copy_of(&self.shell), env)
    }
}

impl SendInputParams {
    /// Where the input of the request goes: see `SessionManager::send_input`.
    pub fn target<'a, 'b, H>(&'b self, manager: &'a SessionManager<H>) -> (result: Result<
        (&'a H, &'b [u8]),
        SessionError,
    >)
        ensures
            match result {
                Ok((handle, bytes)) => {
                    &&& has_session(manager@, self.session_id@)
                    &&& *handle == session_of(manager@, self.session_id@).handle
                    &&& bytes@ == encode_utf8(self.input@)
                },
                Err(error) => !has_session(manager@, self.session_id@) && error.is_not_found(
                    self.session_id@,
                ),
            },
    {
        manager.send_input(self.session_id.as_str(), self.input.as_str())
    }
}

/// The answer to a read request on the registry `sessions`.
pub open spec fn read_answer<H>(
    sessions: Seq<SessionState<H>>,
    session_id: Seq<char>,
    lines: Option<u32>,
) -> Seq<char> {
    if has_session(sessions, session_id) {
        output_text(
            shown_text(captured_text(session_of(sessions, session_id).output), lines),
            session_of(sessions, session_id).is_alive,
        )
    } else {
        "ERROR: Session "@ + session_id + " not found"@
    }
}

/// The answer to a close request on the registry `sessions`.
pub open spec fn close_answer<H>(sessions: Seq<SessionState<H>>, session_id: Seq<char>) -> Seq<
    char,
> {
    if has_session(sessions, session_id) {
        "Session closed"@
    } else {
        "ERROR: Session "@ + session_id + " not found"@
    }
}

impl ReadOutputParams {
    /// Carries out the request on `manager` and words the outcome.
    pub fn respond<H>(&self, manager: &mut SessionManager<H>) -> (text: String)
        ensures
            text@ == read_answer(old(manager)@, self.session_id@, self.lines),
            final(manager)@ == drained(old(manager)@, self.session_id@),
    {
        let result = manager.read_output(self.session_id.as_str(), self.lines);
        let text = read_output_response(&result);
        proof {
            lemma_not_found_answer(self.session_id@);
        }
        text
    }
}

impl CloseSessionParams {
    /// Carries out the request on `manager` and words the outcome.
    pub fn respond<H>(&self, manager: &mut SessionManager<H>) -> (text: String)
        ensures
            text@ == close_answer(old(manager)@, self.session_id@),
            final(manager)@ == without(old(manager)@, self.session_id@),
            !has_session(final(manager)@, self.session_id@),
    {
        let result = manager.close_session(self.session_id.as_str());
        let text = close_session_response(&result);
        proof {
            lemma_not_found_answer(self.session_id@);
        }
        text
    }
}

impl ListSessionsParams {
    /// The sessions that the request asks for: see
    /// `SessionManager::list_sessions`.
    pub fn select<H>(&self, manager: &SessionManager<H>) -> (infos: Vec<SessionInfo>)
        ensures
            infos@.len() == listed(manager@, text_of(self.project)).len(),
            forall|k: int|
                0 <= k < infos@.len() ==> (#[trigger] infos@[k]).describes(
                    listed(manager@, text_of(self.project))[k],
                ),
    {
        let project: Option<&str> = match &self.project {
            Some(name) => Some(name.as_str()),
            None => None,
        };
        assert(slice_text_of(project) == text_of(self.project));
        manager.list_sessions(project)
    }
}

} // verus!
