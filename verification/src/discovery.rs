//! Test cases, their results, and the discoverers that find them.

use vstd::prelude::*;

use crate::provider::Command;
use crate::text;
use crate::text::{last_piece_ends_text, occurs, pieces, views};

pub mod generic;
pub mod pytest;

verus! {

/// Result type for discovery operations.
pub type DiscoveryResult<T> = Result<T, DiscoveryError>;

/// Errors that can occur during test discovery.
#[derive(Debug)]
pub enum DiscoveryError {
    /// The discovery command failed.
    DiscoveryFailed(String),
    /// The output could not be parsed.
    ParseError(String),
    /// A command could not be executed.
    ExecFailed(String),
    /// Reading or writing failed.
    Io(String),
    /// Anything else.
    Other(String),
}

impl DiscoveryError {
    /// What is said of the error.
    pub open spec fn message_view(self) -> Seq<char> {
        match self {
            DiscoveryError::DiscoveryFailed(e) => "Failed to discover tests: "@ + e@,
            DiscoveryError::ParseError(e) => "Failed to parse test output: "@ + e@,
            DiscoveryError::ExecFailed(e) => "Command execution failed: "@ + e@,
            DiscoveryError::Io(e) => "IO error: "@ + e@,
            DiscoveryError::Other(e) => "Discovery error: "@ + e@,
        }
    }

    /// What is said of the error.
    pub fn message(&self) -> (r: String)
        ensures
            r@ == self.message_view(),
    {
        let (mut s, e) = match self {
            DiscoveryError::DiscoveryFailed(e) => ("Failed to discover tests: ".to_owned(), e),
            DiscoveryError::ParseError(e) => ("Failed to parse test output: ".to_owned(), e),
            DiscoveryError::ExecFailed(e) => ("Command execution failed: ".to_owned(), e),
            DiscoveryError::Io(e) => ("IO error: ".to_owned(), e),
            DiscoveryError::Other(e) => ("Discovery error: ".to_owned(), e),
        };
        s.append(e.as_str());
        s
    }
}

/// A single test case discovered by a test framework.
#[derive(Debug)]
pub struct TestCase {
    /// Unique identifier for this test (e.g., "tests/test_foo.py::test_bar").
    pub id: String,
    /// Display name for the test.
    pub name: String,
    /// File path where the test is defined (if known).
    pub file: Option<String>,
    /// Line number where the test is defined (if known).
    pub line: Option<u32>,
    /// Test markers/tags/attributes.
    pub markers: Vec<String>,
    /// Whether this test is known to be flaky.
    pub flaky: bool,
    /// Whether this test is marked as skipped.
    pub skipped: bool,
}

/// What a test case is, as a mathematical value.
#[verifier::ext_equal]
pub struct CaseModel {
    pub id: Seq<char>,
    pub name: Seq<char>,
    pub file: Option<Seq<char>>,
    pub line: Option<u32>,
    pub markers: Seq<Seq<char>>,
    pub flaky: bool,
    pub skipped: bool,
}

/// The view of an optional string.
pub open spec fn option_view(s: Option<String>) -> Option<Seq<char>> {
    match s {
        Some(t) => Some(t@),
        None => None,
    }
}

impl View for TestCase {
    type V = CaseModel;

    open spec fn view(&self) -> CaseModel {
        CaseModel {
            id: self.id@,
            name: self.name@,
            file: option_view(self.file),
            line: self.line,
            markers: views(self.markers@),
            flaky: self.flaky,
            skipped: self.skipped,
        }
    }
}

/// The views of a sequence of test cases.
pub open spec fn case_views(v: Seq<TestCase>) -> Seq<CaseModel> {
    Seq::new(v.len(), |i: int| v[i]@)
}

/// The last component of an id, where components are separated by `::`.
pub open spec fn last_component(id: Seq<char>) -> Seq<char> {
    pieces(id, "::"@).last()
}

/// The test case of an id, of which nothing more is known.
pub open spec fn bare_case(id: Seq<char>) -> CaseModel {
    CaseModel {
        id,
        name: last_component(id),
        file: None,
        line: None,
        markers: Seq::empty(),
        flaky: false,
        skipped: false,
    }
}

/// The last component of an id.
pub fn component_name(id: &str) -> (r: String)
    ensures
        r@ == last_component(id@),
{
    proof {
        reveal_strlit("::");
    }
    let parts = text::split(id, "::");
    proof {
        assert(pieces(id@, "::"@).last() == views(parts@)[parts@.len() - 1]);
    }
    parts[parts.len() - 1].clone()
}

impl TestCase {
    /// Creates a new test case with the given ID.
    pub fn new(id: &str) -> (r: Self)
        ensures
            r@ == bare_case(id@),
    {
        let r = TestCase {
            id: id.to_owned(),
            name: component_name(id),
            file: None,
            line: None,
            markers: Vec::new(),
            flaky: false,
            skipped: false,
        };
        assert(r@ =~= bare_case(id@));
        r
    }

    /// Sets the file path.
    pub fn with_file(self, file: &str) -> (r: Self)
        ensures
            r@ == (CaseModel { file: Some(file@), ..self@ }),
    {
        let mut t = self;
        t.file = Some(file.to_owned());
        t
    }

    /// Sets the line number.
    pub fn with_line(self, line: u32) -> (r: Self)
        ensures
            r@ == (CaseModel { line: Some(line), ..self@ }),
    {
        let mut t = self;
        t.line = Some(line);
        t
    }

    /// Adds a marker.
    pub fn with_marker(self, marker: &str) -> (r: Self)
        ensures
            r@ == (CaseModel { markers: self@.markers.push(marker@), ..self@ }),
    {
        let mut t = self;
        let ghost before = t.markers@;
        t.markers.push(marker.to_owned());
        proof {
            assert(views(t.markers@) =~= views(before).push(marker@));
        }
        t
    }

    /// Marks as flaky.
    pub fn flaky(self) -> (r: Self)
        ensures
            r@ == (CaseModel { flaky: true, ..self@ }),
    {
        let mut t = self;
        t.flaky = true;
        t
    }

    /// Marks as skipped.
    pub fn skipped(self) -> (r: Self)
        ensures
            r@ == (CaseModel { skipped: true, ..self@ }),
    {
        let mut t = self;
        t.skipped = true;
        t
    }
}

/// A copy of a list of strings.
pub fn clone_strings(v: &Vec<String>) -> (r: Vec<String>)
    ensures
        r@ == v@,
{
    let mut out: Vec<String> = Vec::new();
    let mut i: usize = 0;
    while i < v.len()
        invariant
            0 <= i <= v@.len(),
            out@ == v@.take(i as int),
        decreases v@.len() - i,
    {
        out.push(v[i].clone());
        proof {
            assert(v@.take(i + 1) =~= v@.take(i as int).push(v@[i as int]));
        }
        i = i + 1;
    }
    proof {
        assert(v@.take(v@.len() as int) =~= v@);
    }
    out
}

/// A copy of an optional string.
pub fn clone_option(s: &Option<String>) -> (r: Option<String>)
    ensures
        r == *s,
{
    match s {
        Some(t) => Some(t.clone()),
        None => None,
    }
}

impl Clone for TestCase {
    fn clone(&self) -> (r: Self)
        ensures
            r@ == self@,
    {
        TestCase {
            id: self.id.clone(),
            name: self.name.clone(),
            file: clone_option(&self.file),
            line: self.line,
            markers: clone_strings(&self.markers),
            flaky: self.flaky,
            skipped: self.skipped,
        }
    }
}

/// Result of a single test execution.
#[derive(Debug)]
pub struct TestResult {
    /// The test case that was run.
    pub test: TestCase,
    /// Outcome of the test.
    pub outcome: TestOutcome,
    /// Test duration in nanoseconds.
    pub duration_ns: u64,
    /// Standard output from the test.
    pub stdout: String,
    /// Standard error from the test.
    pub stderr: String,
    /// Error message (if failed).
    pub error_message: Option<String>,
    /// Stack trace (if failed).
    pub stack_trace: Option<String>,
}

/// What a result is, as a mathematical value.
#[verifier::ext_equal]
pub struct ResultModel {
    pub test: CaseModel,
    pub outcome: TestOutcome,
    pub duration_ns: u64,
    pub stdout: Seq<char>,
    pub stderr: Seq<char>,
    pub error_message: Option<Seq<char>>,
    pub stack_trace: Option<Seq<char>>,
}

impl View for TestResult {
    type V = ResultModel;

    open spec fn view(&self) -> ResultModel {
        ResultModel {
            test: self.test@,
            outcome: self.outcome,
            duration_ns: self.duration_ns,
            stdout: self.stdout@,
            stderr: self.stderr@,
            error_message: option_view(self.error_message),
            stack_trace: option_view(self.stack_trace),
        }
    }
}

/// The views of a sequence of results.
pub open spec fn result_views(v: Seq<TestResult>) -> Seq<ResultModel> {
    Seq::new(v.len(), |i: int| v[i]@)
}

impl Clone for TestResult {
    fn clone(&self) -> (r: Self)
        ensures
            r@ == self@,
    {
        TestResult {
            test: self.test.clone(),
            outcome: self.outcome,
            duration_ns: self.duration_ns,
            stdout: self.stdout.clone(),
            stderr: self.stderr.clone(),
            error_message: clone_option(&self.error_message),
            stack_trace: clone_option(&self.stack_trace),
        }
    }
}

/// The result of a test of which only the outcome and a message are known.
pub open spec fn plain_result(
    test: CaseModel,
    outcome: TestOutcome,
    error_message: Option<Seq<char>>,
) -> ResultModel {
    ResultModel {
        test,
        outcome,
        duration_ns: 0,
        stdout: Seq::empty(),
        stderr: Seq::empty(),
        error_message,
        stack_trace: None,
    }
}

/// Outcome of a test execution.
#[derive(Debug, Clone, Copy, PartialEq, Eq, Structural)]
pub enum TestOutcome {
    /// Test passed.
    Passed,
    /// Test failed.
    Failed,
    /// Test was skipped.
    Skipped,
    /// Test errored (setup/teardown failed).
    Error,
}

impl TestOutcome {
    /// Whether this is a passing outcome.
    pub fn is_success(&self) -> (b: bool)
        ensures
            b == (*self == TestOutcome::Passed || *self == TestOutcome::Skipped),
    {
        match self {
            TestOutcome::Passed => true,
            TestOutcome::Skipped => true,
            TestOutcome::Failed => false,
            TestOutcome::Error => false,
        }
    }
}

/// A test discoverer generates the commands that run the tests it found.
pub trait TestDiscoverer {
    /// The command that runs the given tests, and only those.
    fn run_command(&self, tests: &[TestCase]) -> Command;

    /// The framework name.
    fn name(&self) -> &'static str;
}

/// The name of a test is the part of its id behind the last separator, or the
/// whole id where it has none.
pub proof fn name_is_last_component(id: Seq<char>)
    ensures
        !occurs(last_component(id), "::"@),
        last_component(id) == id || exists|front: Seq<char>|
            id == #[trigger] (front + "::"@) + last_component(id),
        bare_case(id).name == last_component(id),
        bare_case(id).id == id,
        bare_case(id).file is None,
        !bare_case(id).skipped,
        !bare_case(id).flaky,
{
    reveal_strlit("::");
    last_piece_ends_text(id, "::"@);
}

} // verus!
