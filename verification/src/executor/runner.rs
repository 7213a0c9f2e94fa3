//! What a test runner makes of the output of a command.

use vstd::prelude::*;

use crate::discovery::{
    option_view, plain_result, result_views, ResultModel, TestCase, TestOutcome, TestResult,
};
use crate::executor::result_of;
use crate::provider::{ExecResult, OutputLine};
use crate::text;
use crate::text::{decimal, is_line, lines_of, listed_lines_return, listing, occurs};

verus! {

/// Runs tests in a sandbox.
#[derive(Debug)]
pub struct TestRunner<S, D> {
    sandbox: S,
    discoverer: D,
    timeout_secs: u64,
    stream_output: bool,
}

impl<S, D> TestRunner<S, D> {
    /// The time limit for one command.
    pub closed spec fn limit(&self) -> u64 {
        self.timeout_secs
    }

    /// Whether output is passed on line by line.
    pub closed spec fn streams(&self) -> bool {
        self.stream_output
    }

    /// The sandbox to run in.
    pub closed spec fn place(&self) -> S {
        self.sandbox
    }

    /// The discoverer that makes commands and reads results.
    pub closed spec fn reader(&self) -> D {
        self.discoverer
    }

    /// Creates a new test runner.
    pub fn new(sandbox: S, discoverer: D, timeout_secs: u64) -> (r: Self)
        ensures
            r.place() == sandbox,
            r.reader() == discoverer,
            r.limit() == timeout_secs,
            !r.streams(),
    {
        TestRunner { sandbox, discoverer, timeout_secs, stream_output: false }
    }

    /// Enables streaming output.
    pub fn with_streaming(self) -> (r: Self)
        ensures
            r.place() == self.place(),
            r.reader() == self.reader(),
            r.limit() == self.limit(),
            r.streams(),
    {
        TestRunner {
            sandbox: self.sandbox,
            discoverer: self.discoverer,
            timeout_secs: self.timeout_secs,
            stream_output: true,
        }
    }

    /// The sandbox.
    pub fn sandbox(&self) -> (r: &S)
        ensures
            *r == self.place(),
    {
        &self.sandbox
    }

    /// The discoverer.
    pub fn discoverer(&self) -> (r: &D)
        ensures
            *r == self.reader(),
    {
        &self.discoverer
    }

    /// The time limit in seconds.
    pub fn timeout_secs(&self) -> (r: u64)
        ensures
            r == self.limit(),
    {
        self.timeout_secs
    }

    /// Whether output is streamed.
    pub fn is_streaming(&self) -> (r: bool)
        ensures
            r == self.streams(),
    {
        self.stream_output
    }
}

/// The result of a test of which only the exit code of its command is known.
pub open spec fn inferred_result(test: TestCase, exec: ExecResult, duration_ns: u64) -> ResultModel {
    ResultModel {
        test: test@,
        outcome: if exec.exit_code == 0 {
            TestOutcome::Passed
        } else {
            TestOutcome::Failed
        },
        duration_ns,
        stdout: exec.stdout@,
        stderr: exec.stderr@,
        error_message: if exec.exit_code == 0 {
            None
        } else {
            Some("Exit code: "@ + decimal(exec.exit_code as int))
        },
        stack_trace: None,
    }
}

/// The result of a test: the first one parsed for it, else what the exit code
/// says.
pub fn select_result(
    results: &Vec<TestResult>,
    test: &TestCase,
    exec: &ExecResult,
    duration_ns: u64,
) -> (r: TestResult)
    ensures
        match result_of(result_views(results@), test.id@, 0) {
            Some(i) => r@ == result_views(results@)[i],
            None => r@ == inferred_result(*test, *exec, duration_ns),
        },
{
    let mut i: usize = 0;
    while i < results.len()
        invariant
            0 <= i <= results@.len(),
            result_of(result_views(results@), test.id@, 0) == result_of(
                result_views(results@),
                test.id@,
                i as int,
            ),
        decreases results@.len() - i,
    {
        if text::same(results[i].test.id.as_str(), test.id.as_str()) {
            return results[i].clone();
        }
        i = i + 1;
    }
    let ok = exec.success();
    let error_message = if ok {
        None
    } else {
        let mut m = "Exit code: ".to_owned();
        let code = text::decimal_i32(exec.exit_code);
        m.append(code.as_str());
        Some(m)
    };
    TestResult {
        test: test.clone(),
        outcome: if ok {
            TestOutcome::Passed
        } else {
            TestOutcome::Failed
        },
        duration_ns,
        stdout: exec.stdout.clone(),
        stderr: exec.stderr.clone(),
        error_message,
        stack_trace: None,
    }
}

/// The results of a batch of which only the exit code is known: every test
/// shares its outcome and an equal part of the time.
pub open spec fn batch_result(test: TestCase, exec: ExecResult, share_ns: u64) -> ResultModel {
    ResultModel {
        duration_ns: share_ns,
        ..plain_result(
            test@,
            if exec.exit_code == 0 {
                TestOutcome::Passed
            } else {
                TestOutcome::Failed
            },
            if exec.exit_code == 0 {
                None
            } else {
                Some("Batch failed with exit code: "@ + decimal(exec.exit_code as int))
            },
        )
    }
}

/// The results of a batch: those parsed, or where there are none what the
/// exit code says.
pub fn batch_results(
    results: Vec<TestResult>,
    tests: &Vec<TestCase>,
    exec: &ExecResult,
    duration_ns: u64,
) -> (r: Vec<TestResult>)
    requires
        tests@.len() <= u32::MAX,
    ensures
        results@.len() > 0 ==> r == results,
        results@.len() == 0 ==> r@.len() == tests@.len() && forall|i: int|
            0 <= i < tests@.len() ==> (#[trigger] r@[i])@ == batch_result(
                tests@[i],
                *exec,
                (duration_ns / (tests@.len() as u64)) as u64,
            ),
{
    if results.len() > 0 {
        return results;
    }
    let mut out: Vec<TestResult> = Vec::new();
    let ok = exec.success();
    let outcome = if ok {
        TestOutcome::Passed
    } else {
        TestOutcome::Failed
    };
    let mut i: usize = 0;
    while i < tests.len()
        invariant
            0 <= i <= tests@.len(),
            tests@.len() <= u32::MAX,
            out@.len() == i,
            ok == (exec.exit_code == 0),
            outcome == (if ok {
                TestOutcome::Passed
            } else {
                TestOutcome::Failed
            }),
            forall|k: int|
                0 <= k < i ==> (#[trigger] out@[k])@ == batch_result(
                    tests@[k],
                    *exec,
                    (duration_ns / (tests@.len() as u64)) as u64,
                ),
        decreases tests@.len() - i,
    {
        let error_message = if ok {
            None
        } else {
            let mut m = "Batch failed with exit code: ".to_owned();
            let code = text::decimal_i32(exec.exit_code);
            m.append(code.as_str());
            Some(m)
        };
        let n: u64 = tests.len() as u64;
        out.push(
            TestResult {
                test: tests[i].clone(),
                outcome,
                duration_ns: duration_ns / n,
                stdout: String::new(),
                stderr: String::new(),
                error_message,
                stack_trace: None,
            },
        );
        i = i + 1;
    }
    out
}

/// The lines of one stream, each with a line feed.
pub open spec fn stream_text(lines: Seq<OutputLine>, stdout: bool) -> Seq<char>
    decreases lines.len(),
{
    if lines.len() == 0 {
        Seq::empty()
    } else {
        let earlier = stream_text(lines.drop_last(), stdout);
        match lines.last() {
            OutputLine::Stdout(s) => if stdout {
                earlier + s@ + "\n"@
            } else {
                earlier
            },
            OutputLine::Stderr(s) => if stdout {
                earlier
            } else {
                earlier + s@ + "\n"@
            },
            OutputLine::ExitCode(_) => earlier,
        }
    }
}

/// The exit code that streamed output suggests.
pub open spec fn suggested_code(stdout: Seq<char>, stderr: Seq<char>) -> i32 {
    if occurs(stdout, "PASSED"@) || occurs(stdout, "passed"@) {
        0
    } else if occurs(stdout, "FAILED"@) || occurs(stdout, "failed"@) || occurs(stderr, "error"@) {
        1
    } else {
        0
    }
}

/// Infers an exit code from streamed output.
pub fn infer_exit_code(stdout: &str, stderr: &str) -> (r: i32)
    ensures
        r == suggested_code(stdout@, stderr@),
{
    if text::contains(stdout, "PASSED") || text::contains(stdout, "passed") {
        0
    } else if text::contains(stdout, "FAILED") || text::contains(stdout, "failed")
        || text::contains(stderr, "error") {
        1
    } else {
        0
    }
}

/// The result of a command whose output was streamed.
pub fn collect_stream(lines: &Vec<OutputLine>, duration_ns: u64) -> (r: ExecResult)
    ensures
        r.stdout@ == stream_text(lines@, true),
        r.stderr@ == stream_text(lines@, false),
        r.exit_code == suggested_code(stream_text(lines@, true), stream_text(lines@, false)),
        r.duration_ns == duration_ns,
{
    let mut stdout = String::new();
    let mut stderr = String::new();
    let mut i: usize = 0;
    proof {
        assert(lines@.take(0) =~= Seq::<OutputLine>::empty());
    }
    while i < lines.len()
        invariant
            0 <= i <= lines@.len(),
            stdout@ == stream_text(lines@.take(i as int), true),
            stderr@ == stream_text(lines@.take(i as int), false),
        decreases lines@.len() - i,
    {
        proof {
            let t = lines@.take(i + 1);
            assert(t.drop_last() =~= lines@.take(i as int));
            assert(t.last() == lines@[i as int]);
        }
        match &lines[i] {
            OutputLine::Stdout(s) => {
                stdout.append(s.as_str());
                stdout.append("\n");
            },
            OutputLine::Stderr(s) => {
                stderr.append(s.as_str());
                stderr.append("\n");
            },
            OutputLine::ExitCode(_) => {},
        }
        i = i + 1;
    }
    proof {
        assert(lines@.take(lines@.len() as int) =~= lines@);
    }
    let exit_code: i32 = infer_exit_code(stdout.as_str(), stderr.as_str());
    ExecResult { exit_code, stdout, stderr, duration_ns }
}

/// Where a sandbox may hold the results of a run.
pub open spec fn result_locations() -> Seq<Seq<char>> {
    seq![
        "/tmp/junit.xml"@,
        "junit.xml"@,
        "test-results/junit.xml"@,
        "target/surefire-reports/TEST-*.xml"@,
    ]
}

/// Where a sandbox may hold the results of a run, in the order of search.
pub fn result_paths() -> (r: Vec<String>)
    ensures
        text::views(r@) == result_locations(),
{
    let mut v: Vec<String> = Vec::new();
    v.push("/tmp/junit.xml".to_owned());
    v.push("junit.xml".to_owned());
    v.push("test-results/junit.xml".to_owned());
    v.push("target/surefire-reports/TEST-*.xml".to_owned());
    assert(text::views(v@) =~= result_locations());
    v
}

/// The first content found that is not empty.
pub fn first_content(found: &Vec<Option<String>>) -> (r: Option<String>)
    ensures
        match r {
            Some(s) => exists|i: int|
                0 <= i < found@.len() && #[trigger] found@[i] == Some(s) && s@.len() > 0
                    && forall|j: int|
                    0 <= j < i ==> option_view(#[trigger] found@[j]) is None || option_view(
                        found@[j],
                    ) == Some(Seq::<char>::empty()),
            None => forall|j: int|
                0 <= j < found@.len() ==> option_view(#[trigger] found@[j]) is None || option_view(
                    found@[j],
                ) == Some(Seq::<char>::empty()),
        },
{
    let mut i: usize = 0;
    while i < found.len()
        invariant
            0 <= i <= found@.len(),
            forall|j: int|
                0 <= j < i ==> option_view(#[trigger] found@[j]) is None || option_view(found@[j])
                    == Some(Seq::<char>::empty()),
        decreases found@.len() - i,
    {
        match &found[i] {
            Some(s) => {
                if !s.as_str().is_empty() {
                    return Some(s.clone());
                }
                proof {
                    assert(s@ =~= Seq::<char>::empty());
                }
            },
            None => {},
        }
        i = i + 1;
    }
    None
}

/// A test of which only the exit code is known passed exactly where the code
/// is zero, and only else is there a message, which tells the code. The same
/// holds of a batch.
pub proof fn exit_code_decides(test: TestCase, exec: ExecResult, duration_ns: u64)
    ensures
        inferred_result(test, exec, duration_ns).test == test@,
        inferred_result(test, exec, duration_ns).duration_ns == duration_ns,
        inferred_result(test, exec, duration_ns).stdout == exec.stdout@,
        inferred_result(test, exec, duration_ns).stderr == exec.stderr@,
        exec.exit_code == 0 ==> inferred_result(test, exec, duration_ns).outcome
            == TestOutcome::Passed && inferred_result(test, exec, duration_ns).error_message is None,
        exec.exit_code != 0 ==> inferred_result(test, exec, duration_ns).outcome
            == TestOutcome::Failed && inferred_result(test, exec, duration_ns).error_message == Some(
            "Exit code: "@ + decimal(exec.exit_code as int),
        ),
        batch_result(test, exec, duration_ns).test == test@,
        batch_result(test, exec, duration_ns).duration_ns == duration_ns,
        exec.exit_code == 0 ==> batch_result(test, exec, duration_ns).outcome == TestOutcome::Passed
            && batch_result(test, exec, duration_ns).error_message is None,
        exec.exit_code != 0 ==> batch_result(test, exec, duration_ns).outcome == TestOutcome::Failed
            && batch_result(test, exec, duration_ns).error_message == Some(
            "Batch failed with exit code: "@ + decimal(exec.exit_code as int),
        ),
{
}

/// What the lines of one stream hold, in their order.
pub open spec fn stream_lines(lines: Seq<OutputLine>, stdout: bool) -> Seq<Seq<char>>
    decreases lines.len(),
{
    if lines.len() == 0 {
        Seq::empty()
    } else {
        let earlier = stream_lines(lines.drop_last(), stdout);
        match lines.last() {
            OutputLine::Stdout(s) => if stdout {
                earlier.push(s@)
            } else {
                earlier
            },
            OutputLine::Stderr(s) => if stdout {
                earlier
            } else {
                earlier.push(s@)
            },
            OutputLine::ExitCode(_) => earlier,
        }
    }
}

/// The text collected from a stream holds the lines of that stream, in their
/// order, and no others: reading it line by line gives them back.
pub proof fn streamed_lines_return(lines: Seq<OutputLine>, stdout: bool)
    requires
        forall|i: int|
            0 <= i < lines.len() ==> match #[trigger] lines[i] {
                OutputLine::Stdout(s) => is_line(s@),
                OutputLine::Stderr(s) => is_line(s@),
                OutputLine::ExitCode(_) => true,
            },
    ensures
        lines_of(stream_text(lines, stdout)) == stream_lines(lines, stdout),
{
    streamed_is_listed(lines, stdout);
    let t = stream_text(lines, stdout);
    listed_lines_return(stream_lines(lines, stdout), Seq::empty());
    assert(t + Seq::<char>::empty() =~= t);
    assert(lines_of(Seq::<char>::empty()) =~= Seq::<Seq<char>>::empty());
    assert(stream_lines(lines, stdout) + Seq::<Seq<char>>::empty() =~= stream_lines(lines, stdout));
}

proof fn streamed_is_listed(lines: Seq<OutputLine>, stdout: bool)
    requires
        forall|i: int|
            0 <= i < lines.len() ==> match #[trigger] lines[i] {
                OutputLine::Stdout(s) => is_line(s@),
                OutputLine::Stderr(s) => is_line(s@),
                OutputLine::ExitCode(_) => true,
            },
    ensures
        stream_text(lines, stdout) == listing(stream_lines(lines, stdout)),
        forall|k: int|
            0 <= k < stream_lines(lines, stdout).len() ==> is_line(
                #[trigger] stream_lines(lines, stdout)[k],
            ),
    decreases lines.len(),
{
    reveal_strlit("\n");
    assert("\n"@ =~= seq!['\n']);
    if lines.len() > 0 {
        let rest = lines.drop_last();
        assert forall|i: int| 0 <= i < rest.len() implies match #[trigger] rest[i] {
            OutputLine::Stdout(s) => is_line(s@),
            OutputLine::Stderr(s) => is_line(s@),
            OutputLine::ExitCode(_) => true,
        } by {
            assert(rest[i] == lines[i]);
        }
        streamed_is_listed(rest, stdout);
        assert(lines[lines.len() - 1] == lines.last());
        let before = stream_lines(rest, stdout);
        let after = stream_lines(lines, stdout);
        if after.len() > before.len() {
            assert(after.drop_last() =~= before);
        }
    }
}

/// The output of a command that says that tests passed suggests success;
/// else one that says that tests failed, or that there was an error, suggests
/// failure; and one that says neither suggests success.
pub proof fn output_suggests_code(stdout: Seq<char>, stderr: Seq<char>)
    ensures
        suggested_code(stdout, stderr) == 0 || suggested_code(stdout, stderr) == 1,
        suggested_code(stdout, stderr) == 1 <==> !occurs(stdout, "PASSED"@) && !occurs(
            stdout,
            "passed"@,
        ) && (occurs(stdout, "FAILED"@) || occurs(stdout, "failed"@) || occurs(stderr, "error"@)),
{
}

} // verus!
