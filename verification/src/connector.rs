//! Running shell commands.

use vstd::prelude::*;

use crate::bundled::BundledError;
use crate::discovery::option_view;
use crate::provider::{Command, ProviderError};
use crate::text;
use crate::text::{joined, views};

verus! {

/// Result from a shell command execution.
#[derive(Debug)]
pub struct ExecResult {
    /// Exit code from the command (0 typically indicates success).
    pub exit_code: i32,
    /// Captured standard output.
    pub stdout: String,
    /// Captured standard error.
    pub stderr: String,
}

/// A connector that executes commands via the local shell.
#[derive(Debug)]
pub struct ShellConnector {
    /// Working directory for commands.
    pub working_dir: Option<String>,
    /// Timeout in seconds.
    pub timeout_secs: u64,
}

/// The exit code of a process that may have been ended by a signal.
pub open spec fn code_of(code: Option<i32>) -> i32 {
    match code {
        Some(c) => c,
        None => (-1) as i32,
    }
}

impl ShellConnector {
    /// Creates a new shell connector: in the current working directory, with
    /// a timeout of an hour.
    pub fn new() -> (r: Self)
        ensures
            r.working_dir is None,
            r.timeout_secs == 3600,
    {
        ShellConnector { working_dir: None, timeout_secs: 3600 }
    }

    /// Sets the working directory for command execution.
    pub fn with_working_dir(self, dir: &str) -> (r: Self)
        ensures
            option_view(r.working_dir) == Some(dir@),
            r.timeout_secs == self.timeout_secs,
    {
        ShellConnector { working_dir: Some(dir.to_owned()), timeout_secs: self.timeout_secs }
    }

    /// Sets the command timeout in seconds.
    pub fn with_timeout(self, secs: u64) -> (r: Self)
        ensures
            r.working_dir == self.working_dir,
            r.timeout_secs == secs,
    {
        ShellConnector { working_dir: self.working_dir, timeout_secs: secs }
    }

    /// The process that runs a command.
    pub fn process(&self, command: &str) -> (r: Command)
        ensures
            r.words() == seq!["sh"@, "-c"@, command@],
            option_view(r.working_dir) == option_view(self.working_dir),
            r.timeout_secs == Some(self.timeout_secs),
            r.env@.len() == 0,
            r.prepend_path@.len() == 0,
    {
        let cmd = Command::new("sh").arg("-c").arg(command).timeout(self.timeout_secs);
        proof {
            assert(cmd.words() =~= seq!["sh"@, "-c"@, command@]);
        }
        match &self.working_dir {
            Some(dir) => cmd.working_dir(dir.as_str()),
            None => cmd,
        }
    }

    /// The error of a command that cannot be expanded, buffered or streamed.
    pub fn expansion_error(&self, e: &BundledError, streamed: bool) -> (r: ProviderError)
        ensures
            r matches ProviderError::ExecFailed(m) && m@ == (if streamed {
                "Failed to expand command: "@
            } else {
                "Offload error when expanding command: "@
            }) + e.message_view(),
    {
        let mut m = if streamed {
            "Failed to expand command: ".to_owned()
        } else {
            "Offload error when expanding command: ".to_owned()
        };
        let said = e.message();
        m.append(said.as_str());
        ProviderError::ExecFailed(m)
    }

    /// The result of a command that ended in time: its lines joined, and `-1`
    /// for an exit code that it does not have.
    pub fn collect(&self, code: Option<i32>, stdout: &Vec<String>, stderr: &Vec<String>) -> (r:
        ExecResult)
        ensures
            r.exit_code == code_of(code),
            r.stdout@ == joined(views(stdout@), "\n"@),
            r.stderr@ == joined(views(stderr@), "\n"@),
    {
        ExecResult {
            exit_code: match code {
                Some(c) => c,
                None => -1,
            },
            stdout: text::join(stdout, "\n"),
            stderr: text::join(stderr, "\n"),
        }
    }
}

impl Default for ShellConnector {
    fn default() -> (r: Self)
        ensures
            r.working_dir is None,
            r.timeout_secs == 3600,
    {
        Self::new()
    }
}

} // verus!
