//! Test execution: scheduling, running, retrying and the final account.

use vstd::prelude::*;

use crate::discovery::{
    case_views, result_views, CaseModel, ResultModel, TestCase, TestOutcome, TestResult,
};

pub mod retry;
pub mod runner;
pub mod scheduler;

verus! {

/// Result of the entire test run.
#[derive(Debug)]
pub struct RunResult {
    /// Total number of tests discovered.
    pub total_tests: usize,
    /// Number of tests that passed.
    pub passed: usize,
    /// Number of tests that failed.
    pub failed: usize,
    /// Number of tests that were skipped.
    pub skipped: usize,
    /// Number of tests that were flaky (passed after retry).
    pub flaky: usize,
    /// Number of tests that were not run (e.g., sandbox creation failed).
    pub not_run: usize,
    /// Total duration of the test run in nanoseconds.
    pub duration_ns: u64,
    /// Individual test results.
    pub results: Vec<TestResult>,
}

impl RunResult {
    /// Whether the overall run was successful.
    pub fn success(&self) -> (b: bool)
        ensures
            b == (self.failed == 0 && self.not_run == 0),
    {
        self.failed == 0 && self.not_run == 0
    }

    /// The exit code for this run result: 1 where tests failed or were not
    /// run, 2 where all passed but some only on retry, else 0.
    pub fn exit_code(&self) -> (r: i32)
        ensures
            r == 1 <==> self.failed > 0 || self.not_run > 0,
            r == 2 <==> self.failed == 0 && self.not_run == 0 && self.flaky > 0,
            r == 0 <==> self.failed == 0 && self.not_run == 0 && self.flaky == 0,
    {
        if self.failed > 0 || self.not_run > 0 {
            1
        } else if self.flaky > 0 {
            2
        } else {
            0
        }
    }
}

/// The test cases that are not skipped.
pub open spec fn unskipped(tests: Seq<CaseModel>) -> Seq<CaseModel> {
    tests.filter(|t: CaseModel| !t.skipped)
}

/// The tests to run: those that are not skipped, in their order.
pub fn tests_to_run(tests: &Vec<TestCase>) -> (r: Vec<TestCase>)
    ensures
        case_views(r@) == unskipped(case_views(tests@)),
        r@.len() <= tests@.len(),
{
    let mut out: Vec<TestCase> = Vec::new();
    let mut i: usize = 0;
    let ghost keep = |t: CaseModel| !t.skipped;
    proof {
        assert(case_views(tests@).take(0).filter(keep) =~= Seq::<CaseModel>::empty()) by {
            reveal(Seq::filter);
        }
    }
    while i < tests.len()
        invariant
            0 <= i <= tests@.len(),
            out@.len() <= i,
            keep == (|t: CaseModel| !t.skipped),
            case_views(out@) == case_views(tests@).take(i as int).filter(keep),
        decreases tests@.len() - i,
    {
        let ghost before = out@;
        proof {
            let t = case_views(tests@).take(i + 1);
            assert(t.drop_last() =~= case_views(tests@).take(i as int));
            assert(t.last() == tests@[i as int]@);
            reveal(Seq::filter);
        }
        if !tests[i].skipped {
            out.push(tests[i].clone());
            proof {
                assert(case_views(out@) =~= case_views(before).push(tests@[i as int]@));
            }
        }
        i = i + 1;
    }
    proof {
        assert(case_views(tests@).take(tests@.len() as int) =~= case_views(tests@));
    }
    out
}

/// A result that calls for a retry.
pub open spec fn is_failure(r: ResultModel) -> bool {
    r.outcome == TestOutcome::Failed || r.outcome == TestOutcome::Error
}

/// The tests whose results call for a retry, in the order of the results.
pub open spec fn failing(results: Seq<ResultModel>) -> Seq<CaseModel>
    decreases results.len(),
{
    if results.len() == 0 {
        Seq::empty()
    } else if is_failure(results.last()) {
        failing(results.drop_last()).push(results.last().test)
    } else {
        failing(results.drop_last())
    }
}

/// The tests whose results call for a retry.
pub fn failed_tests(results: &Vec<TestResult>) -> (r: Vec<TestCase>)
    ensures
        case_views(r@) == failing(result_views(results@)),
{
    let mut out: Vec<TestCase> = Vec::new();
    let mut i: usize = 0;
    proof {
        assert(result_views(results@).take(0) =~= Seq::<ResultModel>::empty());
        assert(case_views(out@) =~= Seq::<CaseModel>::empty());
    }
    while i < results.len()
        invariant
            0 <= i <= results@.len(),
            case_views(out@) == failing(result_views(results@).take(i as int)),
        decreases results@.len() - i,
    {
        let ghost before = out@;
        proof {
            let t = result_views(results@).take(i + 1);
            assert(t.drop_last() =~= result_views(results@).take(i as int));
            assert(t.last() == results@[i as int]@);
        }
        if results[i].outcome == TestOutcome::Failed || results[i].outcome == TestOutcome::Error {
            out.push(results[i].test.clone());
            proof {
                assert(case_views(out@) =~= case_views(before).push(results@[i as int]@.test));
            }
        }
        i = i + 1;
    }
    proof {
        assert(result_views(results@).take(results@.len() as int) =~= result_views(results@));
    }
    out
}

/// The position of the first result of a test.
pub open spec fn result_of(results: Seq<ResultModel>, id: Seq<char>, i: int) -> Option<int>
    decreases results.len() - i,
{
    if i < 0 || i >= results.len() {
        None
    } else if results[i].test.id == id {
        Some(i)
    } else {
        result_of(results, id, i + 1)
    }
}

/// A result after its test has passed on retry.
pub open spec fn marked_flaky(r: ResultModel) -> ResultModel {
    ResultModel {
        outcome: TestOutcome::Passed,
        error_message: Some("Flaky - passed on retry"@),
        ..r
    }
}

/// The results after a passing retry of a test.
pub open spec fn with_flaky(results: Seq<ResultModel>, id: Seq<char>) -> Seq<ResultModel> {
    match result_of(results, id, 0) {
        Some(i) => results.update(i, marked_flaky(results[i])),
        None => results,
    }
}

/// The results after all retries, of which only those that passed count.
pub open spec fn after_retries(results: Seq<ResultModel>, retries: Seq<ResultModel>) -> Seq<
    ResultModel,
>
    decreases retries.len(),
{
    if retries.len() == 0 {
        results
    } else {
        let earlier = after_retries(results, retries.drop_last());
        if retries.last().outcome == TestOutcome::Passed {
            with_flaky(earlier, retries.last().test.id)
        } else {
            earlier
        }
    }
}

/// The number of results with an outcome.
pub open spec fn outcome_count(results: Seq<ResultModel>, outcome: TestOutcome) -> nat
    decreases results.len(),
{
    if results.len() == 0 {
        0
    } else {
        outcome_count(results.drop_last(), outcome) + (if results.last().outcome == outcome {
            1nat
        } else {
            0nat
        })
    }
}

proof fn outcome_counts_bounded(results: Seq<ResultModel>)
    ensures
        outcome_count(results, TestOutcome::Passed) + outcome_count(results, TestOutcome::Failed)
            + outcome_count(results, TestOutcome::Error) + outcome_count(
            results,
            TestOutcome::Skipped,
        ) == results.len(),
    decreases results.len(),
{
    if results.len() > 0 {
        outcome_counts_bounded(results.drop_last());
    }
}

fn count_outcome(results: &Vec<TestResult>, outcome: TestOutcome) -> (n: usize)
    ensures
        n == outcome_count(result_views(results@), outcome),
        n <= results@.len(),
{
    let mut n: usize = 0;
    let mut i: usize = 0;
    proof {
        assert(result_views(results@).take(0) =~= Seq::<ResultModel>::empty());
    }
    while i < results.len()
        invariant
            0 <= i <= results@.len(),
            n <= i,
            n == outcome_count(result_views(results@).take(i as int), outcome),
        decreases results@.len() - i,
    {
        proof {
            let t = result_views(results@).take(i + 1);
            assert(t.drop_last() =~= result_views(results@).take(i as int));
            assert(t.last() == results@[i as int]@);
        }
        if results[i].outcome == outcome {
            n = n + 1;
        }
        i = i + 1;
    }
    proof {
        assert(result_views(results@).take(results@.len() as int) =~= result_views(results@));
    }
    n
}

fn mark_flaky(results: &mut Vec<TestResult>, id: &str)
    ensures
        result_views(final(results)@) == with_flaky(result_views(old(results)@), id@),
        final(results)@.len() == old(results)@.len(),
{
    let mut i: usize = 0;
    while i < results.len()
        invariant
            0 <= i <= results@.len(),
            results@ == old(results)@,
            result_of(result_views(results@), id@, 0) == result_of(
                result_views(results@),
                id@,
                i as int,
            ),
        decreases results@.len() - i,
    {
        if crate::text::same(results[i].test.id.as_str(), id) {
            let mut r = results[i].clone();
            r.outcome = TestOutcome::Passed;
            r.error_message = Some("Flaky - passed on retry".to_owned());
            results.set(i, r);
            proof {
                assert(result_views(results@) =~= with_flaky(result_views(old(results)@), id@));
            }
            return ;
        }
        i = i + 1;
    }
}

/// Applies the results of retries: a test that passed on retry counts as
/// passed and is remembered as flaky. Returns the number of such retries.
pub fn apply_retries(results: &mut Vec<TestResult>, retries: &Vec<TestResult>) -> (flaky: usize)
    ensures
        result_views(final(results)@) == after_retries(
            result_views(old(results)@),
            result_views(retries@),
        ),
        final(results)@.len() == old(results)@.len(),
        flaky == outcome_count(result_views(retries@), TestOutcome::Passed),
{
    let mut i: usize = 0;
    proof {
        assert(result_views(retries@).take(0) =~= Seq::<ResultModel>::empty());
    }
    while i < retries.len()
        invariant
            0 <= i <= retries@.len(),
            results@.len() == old(results)@.len(),
            result_views(results@) == after_retries(
                result_views(old(results)@),
                result_views(retries@).take(i as int),
            ),
        decreases retries@.len() - i,
    {
        proof {
            let t = result_views(retries@).take(i + 1);
            assert(t.drop_last() =~= result_views(retries@).take(i as int));
            assert(t.last() == retries@[i as int]@);
        }
        if retries[i].outcome == TestOutcome::Passed {
            mark_flaky(results, retries[i].test.id.as_str());
        }
        i = i + 1;
    }
    proof {
        assert(result_views(retries@).take(retries@.len() as int) =~= result_views(retries@));
    }
    count_outcome(retries, TestOutcome::Passed)
}

/// The account of a run: `tests` were discovered, of which `to_run` were not
/// skipped, and `results` came back.
pub fn summarize(
    tests: usize,
    to_run: usize,
    flaky: usize,
    results: Vec<TestResult>,
    duration_ns: u64,
) -> (r: RunResult)
    requires
        to_run <= tests,
    ensures
        r.total_tests == tests,
        r.passed == outcome_count(result_views(results@), TestOutcome::Passed),
        r.failed == outcome_count(result_views(results@), TestOutcome::Failed) + outcome_count(
            result_views(results@),
            TestOutcome::Error,
        ),
        r.skipped == tests - to_run,
        r.flaky == flaky,
        r.not_run == (if to_run > results@.len() {
            to_run - results@.len()
        } else {
            0
        }),
        r.duration_ns == duration_ns,
        r.results == results,
{
    let passed: usize = count_outcome(&results, TestOutcome::Passed);
    let failures: usize = count_outcome(&results, TestOutcome::Failed);
    let errors: usize = count_outcome(&results, TestOutcome::Error);
    let ran: usize = results.len();
    proof {
        outcome_counts_bounded(result_views(results@));
    }
    let not_run: usize = if to_run > ran {
        to_run - ran
    } else {
        0
    };
    RunResult {
        total_tests: tests,
        passed,
        failed: failures + errors,
        skipped: tests - to_run,
        flaky,
        not_run,
        duration_ns,
        results,
    }
}

/// The result of a test that could not be executed.
pub fn error_result(test: &TestCase, message: &str) -> (r: TestResult)
    ensures
        r@ == (ResultModel {
            test: test@,
            outcome: TestOutcome::Error,
            duration_ns: 0,
            stdout: Seq::empty(),
            stderr: message@,
            error_message: Some(message@),
            stack_trace: None,
        }),
{
    TestResult {
        test: test.clone(),
        outcome: TestOutcome::Error,
        duration_ns: 0,
        stdout: String::new(),
        stderr: message.to_owned(),
        error_message: Some(message.to_owned()),
        stack_trace: None,
    }
}

/// No retry takes a passing result away: what passed before the retries
/// passes after them, and a result that was not retried is as it was.
pub proof fn retries_only_repair(results: Seq<ResultModel>, retries: Seq<ResultModel>, i: int)
    requires
        0 <= i < results.len(),
    ensures
        after_retries(results, retries).len() == results.len(),
        after_retries(results, retries)[i].test == results[i].test,
        results[i].outcome == TestOutcome::Passed ==> after_retries(results, retries)[i].outcome
            == TestOutcome::Passed,
        (forall|k: int|
            0 <= k < retries.len() ==> (#[trigger] retries[k]).outcome != TestOutcome::Passed
                || retries[k].test.id != results[i].test.id) ==> after_retries(results, retries)[i]
            == results[i],
    decreases retries.len(),
{
    if retries.len() > 0 {
        retries_only_repair(results, retries.drop_last(), i);
        let earlier = after_retries(results, retries.drop_last());
        let last = retries.last();
        assert(retries[retries.len() - 1] == last);
        if last.outcome == TestOutcome::Passed {
            result_of_finds(earlier, last.test.id, 0);
        }
        if forall|k: int|
            0 <= k < retries.len() ==> (#[trigger] retries[k]).outcome != TestOutcome::Passed
                || retries[k].test.id != results[i].test.id {
            assert forall|k: int| 0 <= k < retries.len() - 1 implies (
            #[trigger] retries.drop_last()[k]).outcome != TestOutcome::Passed
                || retries.drop_last()[k].test.id != results[i].test.id by {
                assert(retries[k] == retries.drop_last()[k]);
            }
        }
    }
}

proof fn result_of_finds(results: Seq<ResultModel>, id: Seq<char>, i: int)
    requires
        0 <= i,
    ensures
        match result_of(results, id, i) {
            Some(k) => i <= k < results.len() && results[k].test.id == id,
            None => true,
        },
    decreases results.len() - i,
{
    if i < results.len() && results[i].test.id != id {
        result_of_finds(results, id, i + 1);
    }
}

/// The tests that run are those given that are not skipped, and only those.
pub proof fn skipped_tests_stay_out(tests: Seq<CaseModel>, t: CaseModel)
    ensures
        unskipped(tests).contains(t) <==> tests.contains(t) && !t.skipped,
        unskipped(tests).len() <= tests.len(),
{
    let keep = |t: CaseModel| !t.skipped;
    tests.lemma_filter_len(keep);
    let kept = tests.filter(keep);
    if kept.contains(t) {
        let i = choose|i: int| 0 <= i < kept.len() && kept[i] == t;
        tests.lemma_filter_contains_rev(keep, t);
        tests.lemma_filter_pred(keep, i);
        assert(keep(kept[i]));
    }
    if tests.contains(t) && !t.skipped {
        let i = choose|i: int| 0 <= i < tests.len() && tests[i] == t;
        tests.lemma_filter_contains(keep, i);
    }
}

/// A test is retried exactly where one of its results failed or is an error,
/// once for each such result.
pub proof fn failures_are_retried(results: Seq<ResultModel>)
    ensures
        forall|t: CaseModel| #[trigger]
            failing(results).contains(t) <==> exists|i: int|
                0 <= i < results.len() && (#[trigger] results[i]).test == t && (results[i].outcome
                    == TestOutcome::Failed || results[i].outcome == TestOutcome::Error),
        failing(results).len() == outcome_count(results, TestOutcome::Failed) + outcome_count(
            results,
            TestOutcome::Error,
        ),
    decreases results.len(),
{
    if results.len() > 0 {
        let rest = results.drop_last();
        let last = results.last();
        failures_are_retried(rest);
        assert(results[results.len() - 1] == last);
        assert forall|t: CaseModel| #[trigger] failing(results).contains(t) <==> exists|i: int|
            0 <= i < results.len() && (#[trigger] results[i]).test == t && (results[i].outcome
                == TestOutcome::Failed || results[i].outcome == TestOutcome::Error) by {
            let before = failing(rest);
            let after = failing(results);
            if after.contains(t) {
                let k = choose|k: int| 0 <= k < after.len() && after[k] == t;
                if k < before.len() {
                    assert(before[k] == t);
                    assert(before.contains(t));
                    let i = choose|i: int|
                        0 <= i < rest.len() && (#[trigger] rest[i]).test == t && (rest[i].outcome
                            == TestOutcome::Failed || rest[i].outcome == TestOutcome::Error);
                    assert(results[i] == rest[i]);
                }
            }
            if exists|i: int|
                0 <= i < results.len() && (#[trigger] results[i]).test == t && (results[i].outcome
                    == TestOutcome::Failed || results[i].outcome == TestOutcome::Error) {
                let i = choose|i: int|
                    0 <= i < results.len() && (#[trigger] results[i]).test == t && (
                    results[i].outcome == TestOutcome::Failed || results[i].outcome
                        == TestOutcome::Error);
                if i < rest.len() {
                    assert(rest[i] == results[i]);
                    assert(before.contains(t));
                    let k = choose|k: int| 0 <= k < before.len() && before[k] == t;
                    assert(after[k] == t);
                } else {
                    assert(after[after.len() - 1] == t);
                }
            }
        }
    }
}

/// The results with an outcome are counted one by one: as many as there are,
/// whatever the others.
pub proof fn outcomes_are_counted(results: Seq<ResultModel>, outcome: TestOutcome)
    ensures
        outcome_count(results, outcome) == results.filter(
            |r: ResultModel| r.outcome == outcome,
        ).len(),
        outcome_count(results, TestOutcome::Passed) + outcome_count(results, TestOutcome::Failed)
            + outcome_count(results, TestOutcome::Error) + outcome_count(
            results,
            TestOutcome::Skipped,
        ) == results.len(),
    decreases results.len(),
{
    reveal(Seq::filter);
    outcome_counts_bounded(results);
    if results.len() > 0 {
        outcomes_are_counted(results.drop_last(), outcome);
    }
}

/// A test that passed on a retry counts as passed, and its first result says
/// that it is flaky and else stays as it was. A further result of the same
/// test stays as it was altogether.
pub proof fn passed_retry_repairs(
    results: Seq<ResultModel>,
    retries: Seq<ResultModel>,
    i: int,
    k: int,
)
    requires
        0 <= i < results.len(),
        0 <= k < retries.len(),
        retries[k].outcome == TestOutcome::Passed,
        retries[k].test.id == results[i].test.id,
    ensures
        (forall|j: int| 0 <= j < i ==> (#[trigger] results[j]).test.id != results[i].test.id)
            ==> after_retries(results, retries)[i] == (ResultModel {
            outcome: TestOutcome::Passed,
            error_message: Some("Flaky - passed on retry"@),
            ..results[i]
        }),
        (exists|j: int| 0 <= j < i && (#[trigger] results[j]).test.id == results[i].test.id)
            ==> after_retries(results, retries)[i] == results[i],
    decreases retries.len(),
{
    let rest = retries.drop_last();
    let earlier = after_retries(results, rest);
    let last = retries.last();
    assert forall|j: int| 0 <= j < results.len() implies (#[trigger] earlier[j]).test
        == results[j].test by {
        retries_only_repair(results, rest, j);
    }
    retries_only_repair(results, rest, i);
    if exists|k: int|
        0 <= k < rest.len() && (#[trigger] rest[k]).outcome == TestOutcome::Passed
            && rest[k].test.id == results[i].test.id {
        let m = choose|k: int|
            0 <= k < rest.len() && (#[trigger] rest[k]).outcome == TestOutcome::Passed
                && rest[k].test.id == results[i].test.id;
        passed_retry_repairs(results, rest, i, m);
    } else if k < retries.len() - 1 {
        assert(rest[k] == retries[k]);
    }
    if last.outcome == TestOutcome::Passed {
        result_of_finds(earlier, last.test.id, 0);
        result_of_first(earlier, last.test.id, 0);
        if exists|j: int| 0 <= j < i && (#[trigger] results[j]).test.id == results[i].test.id {
            let j = choose|j: int|
                0 <= j < i && (#[trigger] results[j]).test.id == results[i].test.id;
            assert(earlier[j].test == results[j].test);
        }
    }
}

proof fn result_of_first(results: Seq<ResultModel>, id: Seq<char>, i: int)
    requires
        0 <= i,
    ensures
        match result_of(results, id, i) {
            Some(k) => forall|j: int| i <= j < k ==> (#[trigger] results[j]).test.id != id,
            None => forall|j: int|
                i <= j < results.len() ==> (#[trigger] results[j]).test.id != id,
        },
    decreases results.len() - i,
{
    if i < results.len() && results[i].test.id != id {
        result_of_first(results, id, i + 1);
    }
}

/// A result is found for a test exactly where there is one, and it is the
/// first of them.
pub proof fn first_result_is_found(results: Seq<ResultModel>, id: Seq<char>)
    ensures
        match result_of(results, id, 0) {
            Some(k) => 0 <= k < results.len() && results[k].test.id == id && forall|j: int|
                0 <= j < k ==> (#[trigger] results[j]).test.id != id,
            None => forall|j: int|
                0 <= j < results.len() ==> (#[trigger] results[j]).test.id != id,
        },
{
    result_of_finds(results, id, 0);
    result_of_first(results, id, 0);
}

} // verus!
