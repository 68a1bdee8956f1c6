//! What to start on a terminal, and where.

use vstd::prelude::*;
use vstd::utf8::{decode_utf8, valid_utf8};
use vstd::string::StringExecFns;

use crate::lines::texts;
use crate::output::{captured_text, show_output};
use crate::sanitize::sanitized;
use crate::session::{text_of, SessionManager};
use crate::supervisor::{effective_timeout, timeout_in_force};

verus! {

/// Rows of every terminal that is opened.
pub const PTY_ROWS: u16 = 24;

/// Columns of every terminal that is opened.
pub const PTY_COLS: u16 = 200;

/// What the embedding program read from its environment.
#[derive(Debug)]
pub struct Environment {
    /// The value of the `SHELL` variable, if it is set and readable.
    pub shell: Option<String>,
    /// The current directory of the process, if it can be told.
    pub current_dir: Option<String>,
}

/// A process to start on a fresh terminal.
#[derive(Debug, PartialEq, Eq)]
pub struct LaunchPlan {
    pub program: String,
    pub args: Vec<String>,
    pub cwd: String,
    pub rows: u16,
    pub cols: u16,
}

/// A one-shot command to run, with its time limit in seconds.
#[derive(Debug, PartialEq, Eq)]
pub struct ExecPlan {
    pub launch: LaunchPlan,
    pub timeout_secs: u64,
}

/// Result of a one-shot command: its sanitized output and its exit code.
#[derive(Debug, PartialEq, Eq)]
pub struct ExecResult {
    pub stdout: String,
    pub exit_code: u32,
}

/// The shell to start: the one given, else the one of the environment,
/// else `/bin/bash`.
pub open spec fn shell_choice(given: Option<Seq<char>>, env: Environment) -> Seq<char> {
    match given {
        Some(shell) => shell,
        None => match env.shell {
            Some(shell) => shell@,
            None => "/bin/bash"@,
        },
    }
}

/// The directory to start in: the one given, else the current directory,
/// else `/tmp`.
pub open spec fn cwd_choice(given: Option<Seq<char>>, env: Environment) -> Seq<char> {
    match given {
        Some(cwd) => cwd,
        None => match env.current_dir {
            Some(cwd) => cwd@,
            None => "/tmp"@,
        },
    }
}

/// Chooses the shell to start.
pub fn resolve_shell(given: Option<String>, env: &Environment) -> (shell: String)
    ensures
        shell@ == shell_choice(text_of(given), *env),
{
    match given {
        Some(shell) => shell,
        None => match &env.shell {
            Some(shell) => shell.clone(),
            None => String::from_str("/bin/bash"),
        },
    }
}

/// Chooses the directory to start in.
pub fn resolve_cwd(given: Option<String>, env: &Environment) -> (cwd: String)
    ensures
        cwd@ == cwd_choice(text_of(given), *env),
{
    match given {
        Some(cwd) => cwd,
        None => match &env.current_dir {
            Some(cwd) => cwd.clone(),
            None => String::from_str("/tmp"),
        },
    }
}

/// The plan of an interactive session: the shell alone, without arguments.
pub fn plan_session(cwd: Option<String>, shell: Option<String>, env: &Environment) -> (plan:
    LaunchPlan)
    ensures
        plan.program@ == shell_choice(text_of(shell), *env),
        plan.args@.len() == 0,
        plan.cwd@ == cwd_choice(text_of(cwd), *env),
        plan.rows == PTY_ROWS,
        plan.cols == PTY_COLS,
{
    LaunchPlan {
        program: resolve_shell(shell, env),
        args: Vec::new(),
        cwd: resolve_cwd(cwd, env),
        rows: PTY_ROWS,
        cols: PTY_COLS,
    }
}

/// The result of a command that exited: everything captured, decoded and
/// sanitized, with the exit code.
pub fn exec_result(raw: &[u8], exit_code: u32) -> (result: ExecResult)
    ensures
        result.stdout@ == sanitized(captured_text(raw@)),
        valid_utf8(raw@) ==> result.stdout@ == sanitized(decode_utf8(raw@)),
        result.exit_code == exit_code,
{
    ExecResult { stdout: show_output(raw, None), exit_code }
}

impl<H> SessionManager<H> {
    /// Plans a one-shot command: the shell of the environment, run as
    /// `<shell> -c <command>`, under the time limit given or the default.
    /// The command does not become a session: the registry is neither read
    /// nor changed.
    pub fn execute(
        &self,
        command: &str,
        cwd: Option<String>,
        timeout_secs: Option<u64>,
        env: &Environment,
    ) -> (plan: ExecPlan)
        ensures
            plan.launch.program@ == shell_choice(None, *env),
            texts(plan.launch.args@) == seq!["-c"@, command@],
            plan.launch.cwd@ == cwd_choice(text_of(cwd), *env),
            plan.launch.rows == PTY_ROWS,
            plan.launch.cols == PTY_COLS,
            plan.timeout_secs == timeout_in_force(timeout_secs),
    {
        let mut args: Vec<String> = Vec::new();
        args.push(String::from_str("-c"));
        args.push(String::from_str(command));
        assert(texts(args@) =~= seq!["-c"@, command@]);
        ExecPlan {
            launch: LaunchPlan {
                program: resolve_shell(None, env),
                args,
                cwd: resolve_cwd(cwd, env),
                rows: PTY_ROWS,
                cols: PTY_COLS,
            },
            timeout_secs: effective_timeout(timeout_secs),
        }
    }
}

} // verus!
