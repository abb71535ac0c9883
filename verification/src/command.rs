//! A user-supplied shell command and the decisions around one execution of it.
//!
//! A [`Command`] is an opaque piece of text handed verbatim to `sh -c`,
//! together with one flag derived at construction: a trailing `" &"` marker
//! makes the command non-blocking (fire-and-forget) and is stripped from the
//! text. The functions here compute what an execution hands to the operating
//! system and what its observed result means; the spawning itself is done by
//! the caller outside this crate.

use vstd::prelude::*;

verus! {

/// Why a command execution failed.
#[derive(Debug, PartialEq)]
pub enum Error {
    /// The child process could not be created; carries the reason's text.
    Spawn(String),
    /// The process exited with a non-zero status; carries the captured
    /// error-stream text as the message.
    Execution(String),
    /// The captured output bytes are not valid UTF-8.
    Decode,
}

/// What the caller observed from the operating system for one `execute` run:
/// either the spawn failed, or a non-blocking command was launched and not
/// awaited, or a blocking command ran to completion with the given exit
/// status and captured error-stream text.
pub enum RunReport {
    SpawnFailed(String),
    Launched,
    Completed { success: bool, stderr: String },
}

/// True when the raw command text carries the exact two-character
/// background marker `" &"` at its end.
pub open spec fn ends_with_marker(raw: Seq<char>) -> bool {
    raw.len() >= 2 && raw[raw.len() - 2] == ' ' && raw[raw.len() - 1] == '&'
}

/// A shell command: its text and whether the caller waits for it.
#[derive(Clone)]
pub struct Command {
    pub command: String,
    is_blocking: bool,
}

/// The exact data one execution hands to the operating system: the program
/// and arguments to spawn, and the value of the selected-lines environment
/// variable when one is supplied.
pub struct ShellInvocation {
    pub program: String,
    pub args: Vec<String>,
    pub lines_env: Option<String>,
}

/// Name of the environment variable through which the selected lines are
/// exposed to the child process.
pub const LINES_ENV_VAR: &'static str = "LINES";

/// The result `execute` owes for each observed run report.
pub open spec fn spec_execute_result(report: RunReport) -> Result<(), Error> {
    match report {
        RunReport::SpawnFailed(m) => Err(Error::Spawn(m)),
        RunReport::Launched => Ok(()),
        RunReport::Completed { success, stderr } => if success {
            Ok(())
        } else {
            Err(Error::Execution(stderr))
        },
    }
}

impl Command {
    /// Whether the caller waits for this command to finish.
    pub closed spec fn blocking(&self) -> bool {
        self.is_blocking
    }

    /// The text handed to the shell, as a sequence of characters.
    pub closed spec fn text(&self) -> Seq<char> {
        self.command@
    }

    /// Builds a command from raw configuration text: one trailing `" &"`
    /// marks the command as non-blocking and is stripped; any other text is
    /// kept verbatim and the command blocks.
    pub fn new(command: String) -> (r: Command)
        ensures
            ends_with_marker(command@) ==> !r.blocking() && r.text() == command@.take(
                command@.len() - 2,
            ),
            !ends_with_marker(command@) ==> r.blocking() && r.text() == command@,
    {
        let n = command.as_str().unicode_len();
        if n >= 2 && command.as_str().get_char(n - 2) == ' ' && command.as_str().get_char(n - 1)
            == '&' {
            let text = command.as_str().substring_char(0, n - 2).to_owned();
            proof {
                assert(text@ =~= command@.take(command@.len() - 2));
            }
            Command { command: text, is_blocking: false }
        } else {
            Command { command, is_blocking: true }
        }
    }

    pub fn is_blocking(&self) -> (r: bool)
        ensures
            r == self.blocking(),
    {
        self.is_blocking
    }

    /// The invocation an execution hands to the operating system: the
    /// command text is passed verbatim to a POSIX shell as `sh -c <text>`,
    /// and the selected-lines value, when present, rides along for the
    /// caller to place in the `LINES` environment variable.
    pub fn shell_cmd(&self, lines: Option<String>) -> (r: ShellInvocation)
        ensures
            r.program@ == "sh"@,
            r.args@.len() == 2,
            r.args@[0]@ == "-c"@,
            r.args@[1]@ == self.text(),
            r.lines_env == lines,
    {
        let program = String::from_str("sh");
        let args = vec![String::from_str("-c"), self.command.clone()];
        ShellInvocation { program, args, lines_env: lines }
    }

    /// Turns the observed result of one run into this command's outcome: a
    /// failed spawn and a non-zero exit are errors (the latter carrying the
    /// error-stream text), a launch without waiting and a clean completion
    /// succeed. Blocking commands run to completion, so they never report
    /// `Launched`; non-blocking ones are never awaited, so they never
    /// report `Completed`.
    pub fn execute(&self, report: RunReport) -> (r: Result<(), Error>)
        requires
            self.blocking() ==> !(report is Launched),
            !self.blocking() ==> !(report is Completed),
        ensures
            r == spec_execute_result(report),
    {
        match report {
            RunReport::SpawnFailed(m) => Err(Error::Spawn(m)),
            RunReport::Launched => Ok(()),
            RunReport::Completed { success, stderr } => check_stderr(success, stderr),
        }
    }
}

/// Only the exit status governs success: a non-zero status fails with the
/// captured error-stream text as the message, whatever was printed where.
pub fn check_stderr(success: bool, stderr: String) -> (r: Result<(), Error>)
    ensures
        success ==> r == Ok::<(), Error>(()),
        !success ==> r == Err::<(), Error>(Error::Execution(stderr)),
{
    if success {
        Ok(())
    } else {
        Err(Error::Execution(stderr))
    }
}

} // verus!
