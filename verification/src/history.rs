//! Historical test statistics.

use vstd::prelude::*;

pub mod jsonl;
pub mod merge;
pub mod reservoir;
pub mod rounding;
pub mod store;

verus! {

/// Statistics about a single test's historical behavior.
#[derive(Debug)]
pub struct TestStatistics {
    /// Canonical test identifier.
    pub test_id: String,
    /// Configuration file these statistics are from.
    pub config: String,
    /// Total number of attempts recorded.
    pub total_attempts: u64,
    /// Total number of failures recorded.
    pub total_failures: u64,
    /// Duration statistics split by outcome.
    pub duration: OutcomeStats,
    /// Timestamp of most recent attempt (Unix epoch milliseconds).
    pub last_attempt_ms: u64,
    /// Run ID of the most recent run that included this test.
    pub last_run_id: String,
}

/// What statistics are, as a mathematical value.
#[verifier::ext_equal]
pub struct StatisticsModel {
    pub test_id: Seq<char>,
    pub config: Seq<char>,
    pub total_attempts: u64,
    pub total_failures: u64,
    pub duration: OutcomeStats,
    pub last_attempt_ms: u64,
    pub last_run_id: Seq<char>,
}

impl View for TestStatistics {
    type V = StatisticsModel;

    open spec fn view(&self) -> StatisticsModel {
        StatisticsModel {
            test_id: self.test_id@,
            config: self.config@,
            total_attempts: self.total_attempts,
            total_failures: self.total_failures,
            duration: self.duration,
            last_attempt_ms: self.last_attempt_ms,
            last_run_id: self.last_run_id@,
        }
    }
}

/// The views of a sequence of statistics.
pub open spec fn statistics_views(v: Seq<TestStatistics>) -> Seq<StatisticsModel> {
    Seq::new(v.len(), |i: int| v[i]@)
}

/// Duration percentiles of a set of samples.
#[derive(Debug, Clone, Copy, PartialEq, Eq, Structural)]
pub struct DurationStats {
    /// Estimated median duration.
    pub p50: u64,
    /// Estimated 75th percentile duration.
    pub p75: u64,
    /// Estimated 90th percentile duration.
    pub p90: u64,
    /// Estimated 95th percentile duration.
    pub p95: u64,
}

/// Statistics split by outcome: percentiles are computed independently for
/// successes and failures.
#[derive(Debug, Clone, Copy, PartialEq, Eq)]
pub struct OutcomeStats {
    /// Duration statistics of the successes.
    pub success: Option<DurationStats>,
    /// Duration statistics of the failures.
    pub failure: Option<DurationStats>,
}

/// Result of a single test attempt, used for recording.
#[derive(Debug)]
pub struct TestAttemptResult {
    /// Configuration file name.
    pub config: String,
    /// Canonical test identifier.
    pub test_id: String,
    /// Run ID for this attempt.
    pub run_id: String,
    /// Whether the test passed.
    pub passed: bool,
    /// Test duration, as a number that orders durations.
    pub duration: u64,
    /// Timestamp in Unix epoch milliseconds.
    pub timestamp_ms: u64,
}

/// Errors that can occur when working with test history.
#[derive(Debug)]
pub enum HistoryError {
    /// Reading or writing failed.
    Io(String),
    /// Failed to parse history data.
    Parse(String),
    /// History storage is disabled in configuration.
    Disabled,
}

impl HistoryError {
    /// What is said of the error.
    pub open spec fn message_view(self) -> Seq<char> {
        match self {
            HistoryError::Io(e) => "IO error: "@ + e@,
            HistoryError::Parse(e) => "Parse error: "@ + e@,
            HistoryError::Disabled => "History storage is disabled"@,
        }
    }

    /// What is said of the error.
    pub fn message(&self) -> (r: String)
        ensures
            r@ == self.message_view(),
    {
        match self {
            HistoryError::Io(e) => {
                let mut s = "IO error: ".to_owned();
                s.append(e.as_str());
                s
            },
            HistoryError::Parse(e) => {
                let mut s = "Parse error: ".to_owned();
                s.append(e.as_str());
                s
            },
            HistoryError::Disabled => "History storage is disabled".to_owned(),
        }
    }
}

/// What is expected of a test's duration.
#[derive(Debug)]
pub enum ExpectedDuration {
    /// The test's durations of both outcomes, to be weighted by its failures
    /// among its attempts.
    Weighted {
        ok: u64,
        fail: u64,
        failures: u64,
        attempts: u64,
    },
    /// The test's duration of the only outcome with enough samples.
    Known { duration: u64 },
    /// The average of the durations of other tests of the configuration.
    Average { durations: Vec<u64> },
    /// The configured default.
    Default,
}

/// Historical test statistics.
pub trait TestHistoryStore {
    /// Statistics for a specific test, if any.
    fn get_stats(&self, config: &str, test_id: &str) -> Option<TestStatistics>;

    /// Statistics for all tests of a configuration.
    fn get_all_stats(&self, config: &str) -> Vec<TestStatistics>;

    /// The tests with the highest failure rate.
    fn flakiest_tests(&self, config: &str, limit: usize) -> Vec<TestStatistics>;

    /// The slowest tests.
    fn slowest_tests(&self, config: &str, limit: usize) -> Vec<TestStatistics>;

    /// The tests that failed in the most recent run.
    fn last_run_failures(&self, config: &str) -> Vec<String>;

    /// The expected duration for scheduling purposes.
    fn expected_duration(&self, config: &str, test_id: &str) -> ExpectedDuration;
}

} // verus!
