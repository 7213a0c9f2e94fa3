use offload::discovery::{TestCase, TestOutcome, TestResult};
use offload::executor::retry::{
    after_attempt, start_retries, AttemptOutcome, RetryAction, RetryBudget, RetryManager,
};
use offload::executor::runner::{collect_stream, first_content, result_paths, select_result, batch_results};
use offload::executor::scheduler::Scheduler;
use offload::executor::{apply_retries, error_result, failed_tests, summarize, tests_to_run, RunResult};
use offload::provider::{ExecResult, OutputLine};

fn make_test(id: &str) -> TestCase {
    TestCase::new(id)
}

fn result(id: &str, outcome: TestOutcome) -> TestResult {
    let mut r = error_result(&make_test(id), "");
    r.outcome = outcome;
    r
}

#[test]
fn test_retry_manager_basic() {
    let mut manager = RetryManager::new(3);

    assert!(manager.should_retry("test1"));
    manager.record_attempt("test1", false);
    assert!(manager.should_retry("test1"));
    manager.record_attempt("test1", false);
    assert!(manager.should_retry("test1"));
    manager.record_attempt("test1", false);
    assert!(!manager.should_retry("test1"));
}

#[test]
fn test_flaky_detection() {
    let mut manager = RetryManager::new(3);

    manager.record_attempt("test1", false);
    manager.record_attempt("test1", true);

    assert!(manager.is_flaky("test1"));
}

#[test]
fn test_not_flaky_if_always_passes() {
    let mut manager = RetryManager::new(3);

    manager.record_attempt("test1", true);
    manager.record_attempt("test1", true);

    assert!(!manager.is_flaky("test1"));
}

#[test]
fn test_not_flaky_if_always_fails() {
    let mut manager = RetryManager::new(3);

    manager.record_attempt("test1", false);
    manager.record_attempt("test1", false);

    assert!(!manager.is_flaky("test1"));
}

#[test]
fn test_get_flaky_tests() {
    let mut manager = RetryManager::new(3);

    manager.record_attempt("test1", false);
    manager.record_attempt("test1", true);

    manager.record_attempt("test2", true);

    manager.record_attempt("test3", false);
    manager.record_attempt("test3", false);

    let flaky = manager.get_flaky_tests();
    assert_eq!(flaky.len(), 1);
    assert!(flaky.contains(&"test1".to_string()));
}

#[test]
fn retry_statistics_count_attempts_behind_the_first() {
    let mut manager = RetryManager::new(3);
    manager.record_attempt("a", false);
    manager.record_attempt("a", true);
    manager.record_attempt("a", true);
    manager.record_attempt("b", true);
    let stats = manager.stats();
    assert_eq!(stats.total_tests, 2);
    assert_eq!(stats.total_retries, 2);
    assert_eq!(stats.flaky_tests, 1);
    assert_eq!(manager.get_attempts("a"), 3);
    assert_eq!(manager.get_attempts("c"), 0);
}

#[test]
fn retry_loop_goes_on_to_the_next_test_after_a_pass() {
    let mut manager = RetryManager::new(2);
    let ids = vec!["a".to_string(), "b".to_string()];
    let first = start_retries(&manager, &ids, 0);
    assert_eq!(first, RetryAction::Attempt { test: 0, attempt: 0 });
    let next = after_attempt(&mut manager, &ids, 0, 0, AttemptOutcome::Ran { passed: true });
    assert_eq!(next, RetryAction::Attempt { test: 1, attempt: 0 });
    assert_eq!(manager.get_attempts("a"), 1);
}

#[test]
fn test_schedule_empty() {
    let scheduler = Scheduler::new(4);
    let batches = scheduler.schedule(&[]);
    assert!(batches.is_empty());
}

#[test]
fn test_schedule_single() {
    let scheduler = Scheduler::new(4);
    let tests = vec![make_test("test1")];
    let batches = scheduler.schedule(&tests);

    assert_eq!(batches.len(), 1);
    assert_eq!(batches[0].len(), 1);
}

#[test]
fn test_schedule_round_robin() {
    let scheduler = Scheduler::new(2);
    let tests = vec![
        make_test("test1"),
        make_test("test2"),
        make_test("test3"),
        make_test("test4"),
    ];
    let batches = scheduler.schedule(&tests);

    assert_eq!(batches.len(), 2);
    assert_eq!(batches[0].len(), 2);
    assert_eq!(batches[1].len(), 2);
    assert_eq!(batches[0][0].id, "test1");
    assert_eq!(batches[0][1].id, "test3");
    assert_eq!(batches[1][0].id, "test2");
    assert_eq!(batches[1][1].id, "test4");
}

#[test]
fn test_schedule_individual() {
    let scheduler = Scheduler::new(4);
    let tests = vec![make_test("test1"), make_test("test2"), make_test("test3")];
    let batches = scheduler.schedule_individual(&tests);

    assert_eq!(batches.len(), 3);
    assert_eq!(batches[0].len(), 1);
    assert_eq!(batches[1].len(), 1);
    assert_eq!(batches[2].len(), 1);
}

#[test]
fn test_schedule_with_batch_size() {
    let scheduler = Scheduler::new(4);
    let tests: Vec<TestCase> = (0..10).map(|i| make_test(&format!("test{}", i))).collect();
    let batches = scheduler.schedule_with_batch_size(&tests, 3);

    assert_eq!(batches.len(), 4);
    assert_eq!(batches[0].len(), 3);
    assert_eq!(batches[1].len(), 3);
    assert_eq!(batches[2].len(), 3);
    assert_eq!(batches[3].len(), 1);
}

#[test]
fn every_scheduled_test_is_scheduled_once() {
    let scheduler = Scheduler::new(3);
    let tests: Vec<TestCase> = (0..7).map(|i| make_test(&format!("t{}", i))).collect();
    let batches = scheduler.schedule(&tests);
    let mut ids: Vec<String> = batches.iter().flatten().map(|t| t.id.clone()).collect();
    ids.sort();
    let mut expected: Vec<String> = tests.iter().map(|t| t.id.clone()).collect();
    expected.sort();
    assert_eq!(ids, expected);
    assert_eq!(batches.iter().map(|b| b.len()).collect::<Vec<usize>>(), vec![3, 2, 2]);
}

#[test]
fn skipped_tests_do_not_run() {
    let tests = vec![make_test("a"), make_test("b").skipped()];
    let run = tests_to_run(&tests);
    assert_eq!(run.len(), 1);
    assert_eq!(run[0].id, "a");
}

#[test]
fn a_passed_retry_repairs_a_failure_and_counts_as_flaky() {
    let mut results = vec![result("a", TestOutcome::Failed), result("b", TestOutcome::Passed)];
    assert_eq!(failed_tests(&results).len(), 1);
    let flaky = apply_retries(&mut results, &vec![result("a", TestOutcome::Passed)]);
    assert_eq!(flaky, 1);
    assert_eq!(results[0].outcome, TestOutcome::Passed);
    assert_eq!(results[1].outcome, TestOutcome::Passed);
}

#[test]
fn a_failed_retry_changes_nothing() {
    let mut results = vec![result("a", TestOutcome::Failed)];
    let flaky = apply_retries(&mut results, &vec![result("a", TestOutcome::Failed)]);
    assert_eq!(flaky, 0);
    assert_eq!(results[0].outcome, TestOutcome::Failed);
}

#[test]
fn exit_codes_tell_failures_from_flakiness() {
    let base = |failed: usize, not_run: usize, flaky: usize| RunResult {
        total_tests: 3,
        passed: 0,
        failed,
        skipped: 0,
        flaky,
        not_run,
        duration_ns: 0,
        results: Vec::new(),
    };
    assert_eq!(base(0, 0, 0).exit_code(), 0);
    assert_eq!(base(1, 0, 1).exit_code(), 1);
    assert_eq!(base(0, 1, 0).exit_code(), 1);
    assert_eq!(base(0, 0, 1).exit_code(), 2);
    assert!(base(0, 0, 1).success());
    assert!(!base(0, 1, 0).success());
}

#[test]
fn a_summary_counts_outcomes_and_tests_without_a_result() {
    let results = vec![
        result("a", TestOutcome::Passed),
        result("b", TestOutcome::Failed),
        result("c", TestOutcome::Error),
    ];
    let r = summarize(5, 4, 0, results, 7);
    assert_eq!(r.total_tests, 5);
    assert_eq!(r.passed, 1);
    assert_eq!(r.failed, 2);
    assert_eq!(r.not_run, 1);
    assert_eq!(r.duration_ns, 7);
}

fn exec(code: i32) -> ExecResult {
    ExecResult { exit_code: code, stdout: "out".to_string(), stderr: "err".to_string(), duration_ns: 5 }
}

#[test]
fn a_test_without_a_reported_result_goes_by_the_exit_code() {
    let found = select_result(&vec![result("x", TestOutcome::Failed)], &make_test("x"), &exec(0), 9);
    assert_eq!(found.outcome, TestOutcome::Failed);
    let passed = select_result(&Vec::new(), &make_test("x"), &exec(0), 9);
    assert_eq!(passed.outcome, TestOutcome::Passed);
    assert_eq!(passed.duration_ns, 9);
    let failed = select_result(&Vec::new(), &make_test("x"), &exec(3), 9);
    assert_eq!(failed.outcome, TestOutcome::Failed);
    assert_eq!(failed.error_message, Some("Exit code: 3".to_string()));
}

#[test]
fn a_batch_without_reported_results_goes_by_the_exit_code() {
    let tests = vec![make_test("a"), make_test("b")];
    let all = batch_results(Vec::new(), &tests, &exec(0), 10);
    assert_eq!(all.len(), 2);
    assert!(all.iter().all(|r| r.outcome == TestOutcome::Passed));
    let kept = batch_results(vec![result("a", TestOutcome::Skipped)], &tests, &exec(1), 10);
    assert_eq!(kept.len(), 1);
    assert_eq!(kept[0].outcome, TestOutcome::Skipped);
}

#[test]
fn streamed_output_is_collected_by_stream() {
    let lines = vec![
        OutputLine::Stdout("1 passed".to_string()),
        OutputLine::Stderr("warn".to_string()),
    ];
    let r = collect_stream(&lines, 4);
    assert_eq!(r.stdout, "1 passed\n");
    assert_eq!(r.stderr, "warn\n");
    assert_eq!(r.exit_code, 0);
    let bad = collect_stream(&vec![OutputLine::Stdout("1 failed".to_string())], 4);
    assert_eq!(bad.exit_code, 1);
}

#[test]
fn the_first_result_file_with_content_is_read() {
    assert!(result_paths().len() > 0);
    let found = vec![None, Some("a".to_string()), Some("b".to_string())];
    assert_eq!(first_content(&found), Some("a".to_string()));
    assert_eq!(first_content(&vec![None]), None);
}

#[test]
fn a_new_manager_has_nothing_to_count() {
    for manager in [RetryManager::new(3), RetryManager::with_budget(3, RetryBudget::default())] {
        let stats = manager.stats();
        assert_eq!((stats.total_tests, stats.total_retries, stats.flaky_tests), (0, 0, 0));
        assert!(manager.get_flaky_tests().is_empty());
    }
}

#[test]
fn retries_are_the_attempts_less_the_tests() {
    let mut manager = RetryManager::new(9);
    let attempts = ["a", "b", "a", "c", "a", "b"];
    for id in attempts {
        manager.record_attempt(id, false);
    }
    let stats = manager.stats();
    assert_eq!(stats.total_tests, 3);
    assert_eq!(stats.total_retries, attempts.len() - 3);
    assert_eq!(stats.flaky_tests, 0);
}
