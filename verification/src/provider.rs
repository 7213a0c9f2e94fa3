//! Commands that run in a sandbox and what comes back from them.

use vstd::prelude::*;

use crate::text::views;

verus! {

/// A command to run in a sandbox.
#[derive(Debug)]
pub struct Command {
    /// The program.
    pub program: String,
    /// Its arguments.
    pub args: Vec<String>,
    /// The environment variables to set.
    pub env: Vec<(String, String)>,
    /// The directories to put in front of the search path.
    pub prepend_path: Vec<String>,
    /// The directory to run in.
    pub working_dir: Option<String>,
    /// The time limit in seconds.
    pub timeout_secs: Option<u64>,
}

impl Command {
    /// The program followed by its arguments.
    pub open spec fn words(self) -> Seq<Seq<char>> {
        seq![self.program@] + views(self.args@)
    }

    /// Everything but the program and its arguments is as in `other`.
    pub open spec fn same_setting(self, other: Command) -> bool {
        &&& self.env == other.env
        &&& self.prepend_path == other.prepend_path
        &&& self.working_dir == other.working_dir
        &&& self.timeout_secs == other.timeout_secs
    }

    /// No directory, search path or time limit is set.
    pub open spec fn runs_anywhere(self) -> bool {
        &&& self.prepend_path@.len() == 0
        &&& self.working_dir is None
        &&& self.timeout_secs is None
    }

    /// A command without arguments.
    pub fn new(program: &str) -> (r: Self)
        ensures
            r.words() == seq![program@],
            r.program@ == program@,
            r.args@.len() == 0,
            r.env@.len() == 0,
            r.prepend_path@.len() == 0,
            r.working_dir is None,
            r.timeout_secs is None,
    {
        let r = Command {
            program: program.to_owned(),
            args: Vec::new(),
            env: Vec::new(),
            prepend_path: Vec::new(),
            working_dir: None,
            timeout_secs: None,
        };
        assert(r.words() =~= seq![program@]);
        r
    }

    /// Adds an argument.
    pub fn arg(self, a: &str) -> (r: Self)
        ensures
            r.words() == self.words().push(a@),
            r.program == self.program,
            r.same_setting(self),
    {
        let mut cmd = self;
        let ghost before = cmd.args@;
        cmd.args.push(a.to_owned());
        proof {
            assert(views(cmd.args@) =~= views(before).push(a@));
            assert(cmd.words() =~= self.words().push(a@));
        }
        cmd
    }

    /// Adds arguments.
    pub fn args(self, list: &Vec<String>) -> (r: Self)
        ensures
            r.words() == self.words() + views(list@),
            r.program == self.program,
            r.same_setting(self),
    {
        let mut cmd = self;
        let mut i: usize = 0;
        proof {
            assert(cmd.words() =~= self.words() + views(list@).take(0));
        }
        while i < list.len()
            invariant
                0 <= i <= list@.len(),
                cmd.words() == self.words() + views(list@).take(i as int),
                cmd.program == self.program,
                cmd.same_setting(self),
            decreases list@.len() - i,
        {
            let ghost before = cmd;
            cmd.args.push(list[i].clone());
            proof {
                assert(views(cmd.args@) =~= views(before.args@).push(list@[i as int]@));
                assert(cmd.words() =~= before.words().push(list@[i as int]@));
                assert(views(list@).take(i + 1) =~= views(list@).take(i as int).push(
                    list@[i as int]@,
                ));
                assert(cmd.words() =~= self.words() + views(list@).take(i + 1));
            }
            i = i + 1;
        }
        proof {
            assert(views(list@).take(list@.len() as int) =~= views(list@));
        }
        cmd
    }

    /// Sets the directory to run in.
    pub fn working_dir(self, dir: &str) -> (r: Self)
        ensures
            r.words() == self.words(),
            r.working_dir matches Some(d) && d@ == dir@,
            r.env == self.env,
            r.prepend_path == self.prepend_path,
            r.timeout_secs == self.timeout_secs,
    {
        let mut cmd = self;
        cmd.working_dir = Some(dir.to_owned());
        cmd
    }

    /// Sets the time limit.
    pub fn timeout(self, secs: u64) -> (r: Self)
        ensures
            r.words() == self.words(),
            r.timeout_secs == Some(secs),
            r.env == self.env,
            r.prepend_path == self.prepend_path,
            r.working_dir == self.working_dir,
    {
        let mut cmd = self;
        cmd.timeout_secs = Some(secs);
        cmd
    }
}

/// What a command that ran in a sandbox gave back.
#[derive(Debug)]
pub struct ExecResult {
    /// The exit code.
    pub exit_code: i32,
    /// The standard output.
    pub stdout: String,
    /// The standard error.
    pub stderr: String,
    /// The time it took, in nanoseconds.
    pub duration_ns: u64,
}

impl ExecResult {
    /// Whether the command succeeded.
    pub fn success(&self) -> (b: bool)
        ensures
            b == (self.exit_code == 0),
    {
        self.exit_code == 0
    }
}

/// A piece of a running command's output.
#[derive(Debug)]
pub enum OutputLine {
    /// A line of standard output.
    Stdout(String),
    /// A line of standard error.
    Stderr(String),
    /// The exit code.
    ExitCode(i32),
}

/// Errors of a provider.
#[derive(Debug)]
pub enum ProviderError {
    /// A command could not be run or failed.
    ExecFailed(String),
    /// A command took too long.
    Timeout(String),
}

} // verus!
