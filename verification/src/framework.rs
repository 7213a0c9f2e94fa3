//! Test records, their results, and what frameworks have in common.

use vstd::prelude::*;

use crate::discovery::{component_name, last_component, option_view};
use crate::provider::Command;

pub mod cargo;
pub mod default;
pub mod env;
pub mod name_pattern;
pub mod nextest_filter;
pub mod pytest;
pub mod pytest_filter;
pub mod pytest_single_pass;
pub mod vitest;

verus! {

/// Result type for framework operations.
pub type FrameworkResult<T> = Result<T, FrameworkError>;

/// Errors that can occur during test discovery and result parsing.
#[derive(Debug)]
pub enum FrameworkError {
    /// Test discovery command failed or found no tests.
    DiscoveryFailed(String),
    /// Failed to parse test output or result files.
    ParseError(String),
    /// Failed to execute the test discovery or run command.
    ExecFailed(String),
    /// I/O error reading files or directories.
    Io(String),
    /// Other framework-related errors.
    Other(String),
}

impl FrameworkError {
    /// What is said of the error.
    pub open spec fn message_view(self) -> Seq<char> {
        match self {
            FrameworkError::DiscoveryFailed(e) => "Failed to discover tests: "@ + e@,
            FrameworkError::ParseError(e) => "Failed to parse test output: "@ + e@,
            FrameworkError::ExecFailed(e) => "Command execution failed: "@ + e@,
            FrameworkError::Io(e) => "IO error: "@ + e@,
            FrameworkError::Other(e) => "Framework error: "@ + e@,
        }
    }

    /// What is said of the error.
    pub fn message(&self) -> (r: String)
        ensures
            r@ == self.message_view(),
    {
        let (mut s, e) = match self {
            FrameworkError::DiscoveryFailed(e) => ("Failed to discover tests: ".to_owned(), e),
            FrameworkError::ParseError(e) => ("Failed to parse test output: ".to_owned(), e),
            FrameworkError::ExecFailed(e) => ("Command execution failed: ".to_owned(), e),
            FrameworkError::Io(e) => ("IO error: ".to_owned(), e),
            FrameworkError::Other(e) => ("Framework error: ".to_owned(), e),
        };
        s.append(e.as_str());
        s
    }
}

/// A record of a test and its metadata.
#[derive(Debug)]
pub struct TestRecord {
    /// Unique identifier for this test.
    pub id: String,
    /// Human-readable display name.
    pub name: String,
    /// Source file where the test is defined.
    pub file: Option<String>,
    /// Number of times to retry this test if it fails.
    pub retry_count: usize,
    /// Group name this test belongs to.
    pub group: String,
    /// Whether the test runs in a batch of its own.
    pub schedule_individual: bool,
    /// Tests with the same key should run together.
    pub affinity_key: Option<String>,
}

/// What a record is, as a mathematical value.
#[verifier::ext_equal]
pub struct RecordModel {
    pub id: Seq<char>,
    pub name: Seq<char>,
    pub file: Option<Seq<char>>,
    pub retry_count: usize,
    pub group: Seq<char>,
    pub schedule_individual: bool,
    pub affinity_key: Option<Seq<char>>,
}

impl View for TestRecord {
    type V = RecordModel;

    open spec fn view(&self) -> RecordModel {
        RecordModel {
            id: self.id@,
            name: self.name@,
            file: option_view(self.file),
            retry_count: self.retry_count,
            group: self.group@,
            schedule_individual: self.schedule_individual,
            affinity_key: option_view(self.affinity_key),
        }
    }
}

/// The record of an id, of which nothing more is known.
pub open spec fn bare_record(id: Seq<char>, group: Seq<char>) -> RecordModel {
    RecordModel {
        id,
        name: last_component(id),
        file: None,
        retry_count: 0,
        group,
        schedule_individual: false,
        affinity_key: None,
    }
}

/// The views of a sequence of records.
pub open spec fn record_views(v: Seq<TestRecord>) -> Seq<RecordModel> {
    Seq::new(v.len(), |i: int| v[i]@)
}

impl TestRecord {
    /// Creates a new test record with the given ID and group.
    pub fn new(id: &str, group: &str) -> (r: Self)
        ensures
            r@ == bare_record(id@, group@),
    {
        TestRecord {
            id: id.to_owned(),
            name: component_name(id),
            file: None,
            retry_count: 0,
            group: group.to_owned(),
            schedule_individual: false,
            affinity_key: None,
        }
    }

    /// Sets the retry count for this test.
    pub fn with_retry_count(self, count: usize) -> (r: Self)
        ensures
            r@ == (RecordModel { retry_count: count, ..self@ }),
    {
        let mut t = self;
        t.retry_count = count;
        t
    }

    /// Sets the source file path.
    pub fn with_file(self, file: &str) -> (r: Self)
        ensures
            r@ == (RecordModel { file: Some(file@), ..self@ }),
    {
        let mut t = self;
        t.file = Some(file.to_owned());
        t
    }

    /// Sets whether the test runs in a batch of its own.
    pub fn with_schedule_individual(self, individual: bool) -> (r: Self)
        ensures
            r@ == (RecordModel { schedule_individual: individual, ..self@ }),
    {
        let mut t = self;
        t.schedule_individual = individual;
        t
    }

    /// Sets the affinity key.
    pub fn with_affinity_key(self, key: &str) -> (r: Self)
        ensures
            r@ == (RecordModel { affinity_key: Some(key@), ..self@ }),
    {
        let mut t = self;
        t.affinity_key = Some(key.to_owned());
        t
    }

    /// Creates a handle for execution in a sandbox.
    pub fn test(&self) -> (r: TestInstance<'_>)
        ensures
            *r.record == *self,
    {
        TestInstance::new(self)
    }
}

/// A lightweight handle to a test for execution in a sandbox.
#[derive(Debug, Clone, Copy)]
pub struct TestInstance<'a> {
    /// The test.
    pub record: &'a TestRecord,
}

impl<'a> TestInstance<'a> {
    /// A handle to a test.
    pub fn new(record: &'a TestRecord) -> (r: Self)
        ensures
            *r.record == *record,
    {
        TestInstance { record }
    }

    /// The id of the test.
    pub fn id(&self) -> (r: &str)
        ensures
            r@ == self.record.id@,
    {
        self.record.id.as_str()
    }

    /// The group of the test.
    pub fn group(&self) -> (r: &str)
        ensures
            r@ == self.record.group@,
    {
        self.record.group.as_str()
    }
}

/// The ids of a sequence of handles.
pub open spec fn instance_ids(v: Seq<TestInstance>) -> Seq<Seq<char>> {
    Seq::new(v.len(), |i: int| v[i].record.id@)
}

/// The result of executing a single test.
#[derive(Debug)]
pub struct TestResult {
    /// The ID of the test that was executed.
    pub test_id: String,
    /// The outcome of the test execution.
    pub outcome: TestOutcome,
    /// Wall-clock time the test took to execute, in nanoseconds.
    pub duration_ns: u64,
    /// Captured standard output from the test.
    pub stdout: String,
    /// Captured standard error from the test.
    pub stderr: String,
    /// Human-readable error message for failed tests.
    pub error_message: Option<String>,
    /// Full stack trace for failed tests.
    pub stack_trace: Option<String>,
    /// Group name this test belongs to.
    pub group: String,
}

impl TestResult {
    /// Creates a new test result for the given test ID and group.
    pub fn new(test_id: &str, outcome: TestOutcome, group: &str) -> (r: Self)
        ensures
            r.test_id@ == test_id@,
            r.outcome == outcome,
            r.duration_ns == 0,
            r.stdout@.len() == 0,
            r.stderr@.len() == 0,
            r.error_message is None,
            r.stack_trace is None,
            r.group@ == group@,
    {
        TestResult {
            test_id: test_id.to_owned(),
            outcome,
            duration_ns: 0,
            stdout: String::new(),
            stderr: String::new(),
            error_message: None,
            stack_trace: None,
            group: group.to_owned(),
        }
    }
}

/// The outcome status of a test execution.
#[derive(Debug, Clone, Copy, PartialEq, Eq, Structural)]
pub enum TestOutcome {
    /// Test passed successfully.
    Passed,
    /// Test failed due to an assertion.
    Failed,
    /// Test was skipped and not executed.
    Skipped,
    /// Test errored during setup, execution, or teardown.
    Error,
}

/// A framework makes the commands that run its tests and says how they
/// report.
pub trait TestFramework {
    /// The command that runs the given tests and leaves a report at the path.
    fn produce_test_execution_command(
        &self,
        tests: &[TestInstance],
        result_path: &str,
        fail_fast: bool,
    ) -> Command;

    /// The format of the report, which is also its file extension.
    fn report_format(&self) -> (r: String)
        default_ensures
            r@ == "xml"@,
    {
        "xml".to_owned()
    }
}

} // verus!
