//! Discovery and execution with pytest.

use vstd::prelude::*;

use crate::config::PytestDiscoveryConfig;
use crate::discovery::generic::{
    case_ids, ids_of, plain, reported_views, Reported, ReportedModel,
};
use crate::discovery::{
    bare_case, case_views, option_view, plain_result, CaseModel, DiscoveryError, DiscoveryResult,
    TestCase, TestDiscoverer, TestOutcome,
};
use crate::framework::pytest::{collected, collected_ids};
use crate::patterns;
use crate::patterns::{
    found_views, group, group_text, group_views, match_view, regex_captures, regex_captures_all,
    Found,
};
use crate::provider::{Command, ExecResult};
use crate::text;
use crate::text::{
    chars_of, count_fitting, find_from, find_from_is_least, find_in, fitting, front_fits, joined,
    lines_of, matches_at, occurs, replaced, replaced_separator, string_between, trimmed, utf8_len,
    views,
};

verus! {

/// A module in the tree that pytest prints.
pub const MODULE_PATTERN: &'static str = r"<Module\s+(\S+)>";

/// A class in the tree.
pub const CLASS_PATTERN: &'static str = r"<Class\s+(\S+)>";

/// A test in the tree.
pub const TEST_PATTERN: &'static str = r"<(?:Function|Method)\s+(\S+)>";

/// A reported test case: its name, class name and time.
pub const TESTCASE_PATTERN: &'static str = r#"<testcase[^>]*name="([^"]+)"[^>]*classname="([^"]+)"[^>]*time="([^"]+)"[^>]*>"#;

/// A failure with its message.
pub const FAILURE_PATTERN: &'static str = r#"<failure[^>]*message="([^"]*)"[^>]*>"#;

/// An error with its message.
pub const ERROR_PATTERN: &'static str = r#"<error[^>]*message="([^"]*)"[^>]*>"#;

/// A test id with its outcome.
pub const OUTCOME_PATTERN: &'static str = r"(\S+::\S+)\s+(PASSED|FAILED|SKIPPED|ERROR)";

/// What has been read of the tree: the module and class that tests belong to,
/// and the tests.
#[derive(Debug)]
pub struct Collection {
    /// The current module.
    pub import_path: Option<String>,
    /// The current class.
    pub class: Option<String>,
    /// The tests so far.
    pub tests: Vec<TestCase>,
}

/// What a collection is, as a mathematical value.
#[verifier::ext_equal]
pub struct CollectionModel {
    pub import_path: Option<Seq<char>>,
    pub class: Option<Seq<char>>,
    pub tests: Seq<CaseModel>,
}

impl View for Collection {
    type V = CollectionModel;

    open spec fn view(&self) -> CollectionModel {
        CollectionModel {
            import_path: option_view(self.import_path),
            class: option_view(self.class),
            tests: case_views(self.tests@),
        }
    }
}

/// The id of a test in a module and a class.
pub open spec fn nested_id(
    import_path: Option<Seq<char>>,
    class: Option<Seq<char>>,
    name: Seq<char>,
) -> Seq<char> {
    match (import_path, class) {
        (Some(m), Some(c)) => m + "::"@ + c + "::"@ + name,
        (Some(m), None) => m + "::"@ + name,
        _ => name,
    }
}

/// The collection after a line: a module ends a class, and a test belongs to
/// the module and class before it. The matches are those of a module, a class
/// and a test in the line.
pub open spec fn after_line(
    state: CollectionModel,
    line: Seq<char>,
    in_module: Option<Seq<Option<Seq<char>>>>,
    in_class: Option<Seq<Option<Seq<char>>>>,
    in_test: Option<Seq<Option<Seq<char>>>>,
) -> CollectionModel {
    match in_module {
        Some(m) => CollectionModel {
            import_path: Some(group_text(m, 1)),
            class: None,
            tests: state.tests,
        },
        None => match in_class {
            Some(c) => CollectionModel { class: Some(group_text(c, 1)), ..state },
            None => match in_test {
                Some(t) => CollectionModel {
                    tests: state.tests.push(
                        CaseModel {
                            file: state.import_path,
                            skipped: occurs(line, "skip"@),
                            flaky: occurs(line, "flaky"@),
                            ..bare_case(nested_id(state.import_path, state.class, group_text(t, 1)))
                        },
                    ),
                    ..state
                },
                None => state,
            },
        },
    }
}

/// The collection after lines of the tree.
pub open spec fn after_lines(lines: Seq<Seq<char>>) -> CollectionModel
    decreases lines.len(),
{
    if lines.len() == 0 {
        CollectionModel { import_path: None, class: None, tests: Seq::empty() }
    } else {
        let line = trimmed(lines.last());
        after_line(
            after_lines(lines.drop_last()),
            line,
            regex_captures(MODULE_PATTERN@, line),
            regex_captures(CLASS_PATTERN@, line),
            regex_captures(TEST_PATTERN@, line),
        )
    }
}

impl Collection {
    /// Nothing read so far.
    pub fn new() -> (r: Self)
        ensures
            r@ == (CollectionModel { import_path: None, class: None, tests: Seq::empty() }),
    {
        let r = Collection { import_path: None, class: None, tests: Vec::new() };
        assert(r@.tests =~= Seq::empty());
        r
    }

    /// Reads a line, given the matches of a module, a class and a test in it.
    pub fn read_line(
        &mut self,
        line: &str,
        in_module: &Option<Vec<Option<String>>>,
        in_class: &Option<Vec<Option<String>>>,
        in_test: &Option<Vec<Option<String>>>,
    )
        ensures
            final(self)@ == after_line(
                old(self)@,
                line@,
                match_view(*in_module),
                match_view(*in_class),
                match_view(*in_test),
            ),
    {
        match in_module {
            Some(m) => {
                self.import_path = Some(group(m, 1));
                self.class = None;
                return ;
            },
            None => {},
        }
        match in_class {
            Some(c) => {
                self.class = Some(group(c, 1));
                return ;
            },
            None => {},
        }
        match in_test {
            Some(t) => {
                let name = group(t, 1);
                let id = match &self.import_path {
                    Some(m) => {
                        let mut id = m.clone();
                        id.append("::");
                        match &self.class {
                            Some(c) => {
                                id.append(c.as_str());
                                id.append("::");
                            },
                            None => {},
                        }
                        id.append(name.as_str());
                        id
                    },
                    None => name,
                };
                let mut test = TestCase::new(id.as_str());
                match &self.import_path {
                    Some(m) => {
                        test = test.with_file(m.as_str());
                    },
                    None => {},
                }
                if text::contains(line, "skip") {
                    test = test.skipped();
                }
                if text::contains(line, "flaky") {
                    test = test.flaky();
                }
                let ghost prior = self.tests@;
                self.tests.push(test);
                proof {
                    assert(case_views(self.tests@) =~= case_views(prior).push(test@));
                }
            },
            None => {},
        }
    }
}

/// The outcome of a reported case: that of the first kind of mark found in
/// its content, with the message of the mark.
pub open spec fn reported_outcome(
    content: Seq<char>,
    failure: Option<Seq<Option<Seq<char>>>>,
    error: Option<Seq<Option<Seq<char>>>>,
) -> (TestOutcome, Option<Seq<char>>) {
    match failure {
        Some(f) => (TestOutcome::Failed, Some(group_text(f, 1))),
        None => match error {
            Some(e) => (TestOutcome::Error, Some(group_text(e, 1))),
            None => if occurs(content, "<skipped"@) {
                (TestOutcome::Skipped, None)
            } else {
                (TestOutcome::Passed, None)
            },
        },
    }
}

/// The result of a reported case: its groups are name, class name and time.
pub open spec fn reported_case(
    groups: Seq<Option<Seq<char>>>,
    content: Seq<char>,
    failure: Option<Seq<Option<Seq<char>>>>,
    error: Option<Seq<Option<Seq<char>>>>,
) -> ReportedModel {
    let (outcome, message) = reported_outcome(content, failure, error);
    ReportedModel {
        result: plain_result(
            bare_case(
                replaced(group_text(groups, 2), "."@, "/"@) + "::"@ + group_text(groups, 1),
            ),
            outcome,
            message,
        ),
        seconds: group_text(groups, 3),
    }
}

/// The result of a reported case, from the groups of its match, its content,
/// and the matches of a failure and an error in that.
pub fn read_case(
    groups: &Vec<Option<String>>,
    content: &str,
    failure: &Option<Vec<Option<String>>>,
    error: &Option<Vec<Option<String>>>,
) -> (r: Reported)
    ensures
        r@ == reported_case(
            group_views(groups@),
            content@,
            match_view(*failure),
            match_view(*error),
        ),
{
    let name = group(groups, 1);
    let classname = group(groups, 2);
    proof {
        reveal_strlit(".");
    }
    let mut id = text::replace(classname.as_str(), ".", "/");
    id.append("::");
    id.append(name.as_str());
    let (outcome, message) = match failure {
        Some(f) => (TestOutcome::Failed, Some(group(f, 1))),
        None => match error {
            Some(e) => (TestOutcome::Error, Some(group(e, 1))),
            None => if text::contains(content, "<skipped") {
                (TestOutcome::Skipped, None)
            } else {
                (TestOutcome::Passed, None)
            },
        },
    };
    Reported {
        result: plain(TestCase::new(id.as_str()), outcome, message),
        seconds: group(groups, 3),
    }
}

/// The content of a case: what stands behind the given byte position, up to
/// the end of the case or of the report.
pub open spec fn content_behind(report: Seq<char>, position: nat) -> Seq<char> {
    let start = fitting(report, 0, position as int) as int;
    match find_from(report, "</testcase>"@, start) {
        Some(end) => report.subrange(start, end),
        None => report.subrange(start, report.len() as int),
    }
}

/// The content of a case that starts at a byte position.
pub fn case_content(report: &Vec<char>, position: usize) -> (r: String)
    ensures
        r@ == content_behind(report@, position as nat),
{
    let start: usize = count_fitting(report, position);
    let mark = chars_of("</testcase>");
    match find_in(report, &mark, start) {
        Some(end) => string_between(report, start, end),
        None => string_between(report, start, report.len()),
    }
}

/// The results of a report, from the matches of its cases.
pub open spec fn reported_cases(
    report: Seq<char>,
    all: Seq<(nat, Seq<Option<Seq<char>>>)>,
) -> Seq<ReportedModel> {
    Seq::new(
        all.len(),
        |i: int|
            reported_case(
                all[i].1,
                content_behind(report, all[i].0),
                regex_captures(FAILURE_PATTERN@, content_behind(report, all[i].0)),
                regex_captures(ERROR_PATTERN@, content_behind(report, all[i].0)),
            ),
    )
}

/// Reads the test results of a JUnit report.
pub fn parse_junit_xml(content: &str) -> (r: Vec<Reported>)
    ensures
        reported_views(r@) == reported_cases(
            content@,
            regex_captures_all(TESTCASE_PATTERN@, content@),
        ),
{
    let report = chars_of(content);
    let all = patterns::captures_all(TESTCASE_PATTERN, content);
    let mut out: Vec<Reported> = Vec::new();
    let mut i: usize = 0;
    while i < all.len()
        invariant
            0 <= i <= all@.len(),
            report@ == content@,
            out@.len() == i,
            forall|k: int|
                0 <= k < i ==> (#[trigger] out@[k])@ == reported_cases(
                    content@,
                    found_views(all@),
                )[k],
        decreases all@.len() - i,
    {
        let inner = case_content(&report, all[i].end);
        let failure = patterns::captures(FAILURE_PATTERN, inner.as_str());
        let error = patterns::captures(ERROR_PATTERN, inner.as_str());
        out.push(read_case(&all[i].groups, inner.as_str(), &failure, &error));
        i = i + 1;
    }
    proof {
        assert(reported_views(out@) =~= reported_cases(content@, found_views(all@)));
    }
    out
}

/// The outcome that a word of pytest's output stands for.
pub open spec fn word_outcome(word: Seq<char>) -> Option<TestOutcome> {
    if word == "PASSED"@ {
        Some(TestOutcome::Passed)
    } else if word == "FAILED"@ {
        Some(TestOutcome::Failed)
    } else if word == "SKIPPED"@ {
        Some(TestOutcome::Skipped)
    } else if word == "ERROR"@ {
        Some(TestOutcome::Error)
    } else {
        None
    }
}

/// The outcome that a word of pytest's output stands for.
pub fn outcome_of(word: &str) -> (r: Option<TestOutcome>)
    ensures
        r == word_outcome(word@),
{
    if text::same(word, "PASSED") {
        Some(TestOutcome::Passed)
    } else if text::same(word, "FAILED") {
        Some(TestOutcome::Failed)
    } else if text::same(word, "SKIPPED") {
        Some(TestOutcome::Skipped)
    } else if text::same(word, "ERROR") {
        Some(TestOutcome::Error)
    } else {
        None
    }
}

/// The results that the first `n` matches of ids with outcomes give.
pub open spec fn printed_results(
    all: Seq<(nat, Seq<Option<Seq<char>>>)>,
    n: int,
) -> Seq<ReportedModel>
    decreases n,
{
    if n <= 0 || n > all.len() {
        Seq::empty()
    } else {
        let rest = printed_results(all, n - 1);
        match word_outcome(group_text(all[n - 1].1, 2)) {
            Some(outcome) => rest.push(
                ReportedModel {
                    result: plain_result(bare_case(group_text(all[n - 1].1, 1)), outcome, None),
                    seconds: Seq::empty(),
                },
            ),
            None => rest,
        }
    }
}

/// The results that matches of ids with outcomes give, in order.
pub fn read_outcomes(all: &Vec<Found>) -> (r: Vec<Reported>)
    ensures
        reported_views(r@) == printed_results(found_views(all@), all@.len() as int),
{
    let mut out: Vec<Reported> = Vec::new();
    let mut i: usize = 0;
    let ghost matches = found_views(all@);
    proof {
        assert(reported_views(out@) =~= printed_results(matches, 0));
    }
    while i < all.len()
        invariant
            0 <= i <= all@.len(),
            matches == found_views(all@),
            reported_views(out@) == printed_results(matches, i as int),
        decreases all@.len() - i,
    {
        let ghost prior = out@;
        let word = group(&all[i].groups, 2);
        assert(matches[i as int] == all@[i as int]@);
        match outcome_of(word.as_str()) {
            Some(outcome) => {
                let id = group(&all[i].groups, 1);
                let result = plain(TestCase::new(id.as_str()), outcome, None);
                out.push(Reported { result, seconds: String::new() });
                proof {
                    assert(out@.last()@.seconds =~= Seq::empty());
                    assert(reported_views(out@) =~= reported_views(prior).push(out@.last()@));
                    assert(reported_views(out@) =~= printed_results(matches, i + 1));
                }
            },
            None => {},
        }
        i = i + 1;
    }
    out
}

/// Reads test results from the output of pytest.
pub fn parse_pytest_stdout(stdout: &str) -> (r: Vec<Reported>)
    ensures
        reported_views(r@) == printed_results(
            regex_captures_all(OUTCOME_PATTERN@, stdout@),
            regex_captures_all(OUTCOME_PATTERN@, stdout@).len() as int,
        ),
{
    let all = patterns::captures_all(OUTCOME_PATTERN, stdout);
    proof {
        assert(found_views(all@).len() == all@.len());
    }
    read_outcomes(&all)
}

/// pytest test discoverer.
#[derive(Debug)]
pub struct PytestDiscoverer {
    /// The configuration.
    pub config: PytestDiscoveryConfig,
}

/// The tests of collection output: those of the tree, or those that stand
/// alone on a line where there is no tree.
pub open spec fn collected_cases(output: Seq<char>) -> Seq<CaseModel> {
    let tree = after_lines(lines_of(output)).tests;
    if tree.len() > 0 {
        tree
    } else {
        Seq::new(
            collected(lines_of(output)).len(),
            |i: int| bare_case(collected(lines_of(output))[i]),
        )
    }
}

impl PytestDiscoverer {
    /// Creates a new pytest discoverer with the given configuration.
    pub fn new(config: PytestDiscoveryConfig) -> (r: Self)
        ensures
            r.config == config,
    {
        PytestDiscoverer { config }
    }

    /// Turns collection output into test cases.
    pub fn parse_collect_output(&self, output: &str) -> (r: Vec<TestCase>)
        ensures
            case_views(r@) == collected_cases(output@),
    {
        let all = text::lines(output);
        let ghost lines = lines_of(output@);
        let mut state = Collection::new();
        let mut i: usize = 0;
        proof {
            assert(lines.take(0) =~= Seq::<Seq<char>>::empty());
        }
        while i < all.len()
            invariant
                0 <= i <= all@.len(),
                lines == lines_of(output@),
                views(all@) == lines,
                state@ == after_lines(lines.take(i as int)),
            decreases all@.len() - i,
        {
            proof {
                let t = lines.take(i + 1);
                assert(t.drop_last() =~= lines.take(i as int));
                assert(t.last() == views(all@)[i as int]);
            }
            let line = text::trim(all[i].as_str());
            let in_module = patterns::captures(MODULE_PATTERN, line.as_str());
            let in_class = patterns::captures(CLASS_PATTERN, line.as_str());
            let in_test = patterns::captures(TEST_PATTERN, line.as_str());
            state.read_line(line.as_str(), &in_module, &in_class, &in_test);
            i = i + 1;
        }
        proof {
            assert(lines.take(lines.len() as int) =~= lines);
            assert(views(all@).len() == all@.len());
            assert(state@.tests.len() == state.tests@.len());
        }
        if state.tests.len() > 0 {
            return state.tests;
        }
        let ids = collected_ids(output);
        let mut out: Vec<TestCase> = Vec::new();
        let mut k: usize = 0;
        while k < ids.len()
            invariant
                0 <= k <= ids@.len(),
                out@.len() == k,
                forall|j: int| 0 <= j < k ==> (#[trigger] out@[j])@ == bare_case(ids@[j]@),
            decreases ids@.len() - k,
        {
            out.push(TestCase::new(ids[k].as_str()));
            k = k + 1;
        }
        proof {
            assert(case_views(out@) =~= Seq::new(
                views(ids@).len(),
                |j: int| bare_case(views(ids@)[j]),
            ));
        }
        out
    }

    /// The arguments that select tests by marker.
    pub open spec fn marker_args(self) -> Seq<Seq<char>> {
        match self.config.markers {
            Some(m) => seq!["-m"@, m@],
            None => Seq::empty(),
        }
    }

    /// The command that collects tests in the given paths, or in the
    /// configured ones where none are given.
    pub fn discovery_command(&self, paths: &Vec<String>) -> (r: Command)
        ensures
            r.words() == seq![self.config.python@, "-m"@, "pytest"@, "--collect-only"@, "-q"@]
                + self.marker_args() + views(self.config.extra_args@) + views(
                if paths@.len() == 0 {
                    self.config.paths@
                } else {
                    paths@
                },
            ),
            r.env@.len() == 0,
            r.prepend_path@.len() == 0,
            r.working_dir is None,
            r.timeout_secs is None,
    {
        let mut cmd = Command::new(self.config.python.as_str()).arg("-m").arg("pytest").arg(
            "--collect-only",
        ).arg("-q");
        match &self.config.markers {
            Some(m) => {
                cmd = cmd.arg("-m").arg(m.as_str());
            },
            None => {},
        }
        proof {
            assert(cmd.words() =~= seq![
                self.config.python@,
                "-m"@,
                "pytest"@,
                "--collect-only"@,
                "-q"@,
            ] + self.marker_args());
        }
        cmd = cmd.args(&self.config.extra_args);
        if paths.len() == 0 {
            cmd.args(&self.config.paths)
        } else {
            cmd.args(paths)
        }
    }

    /// The tests that a collection found. A collection that failed counts
    /// where it named tests all the same.
    pub fn read_discovery(&self, success: bool, stdout: &str, stderr: &str) -> (r: DiscoveryResult<
        Vec<TestCase>,
    >)
        ensures
            if success || occurs(stdout@, "::"@) {
                r matches Ok(tests) && case_views(tests@) == collected_cases(stdout@)
            } else {
                r matches Err(DiscoveryError::DiscoveryFailed(e)) && e@
                    == "pytest collection failed: "@ + stderr@
            },
    {
        if !success && !text::contains(stdout, "::") {
            let mut e = "pytest collection failed: ".to_owned();
            e.append(stderr);
            return Err(DiscoveryError::DiscoveryFailed(e));
        }
        Ok(self.parse_collect_output(stdout))
    }

    /// Reads test results: those of the report, or those that were printed
    /// where the report has none.
    pub fn parse_results(&self, output: &ExecResult, result_file: Option<&str>) -> (r: Vec<
        Reported,
    >)
        ensures
            ({
                let printed = regex_captures_all(OUTCOME_PATTERN@, output.stdout@);
                let reported = match result_file {
                    Some(content) => reported_cases(
                        content@,
                        regex_captures_all(TESTCASE_PATTERN@, content@),
                    ),
                    None => Seq::empty(),
                };
                reported_views(r@) == (if reported.len() > 0 {
                    reported
                } else {
                    printed_results(printed, printed.len() as int)
                })
            }),
    {
        match result_file {
            Some(content) => {
                let results = parse_junit_xml(content);
                proof {
                    assert(reported_views(results@).len() == results@.len());
                }
                if results.len() > 0 {
                    return results;
                }
            },
            None => {},
        }
        parse_pytest_stdout(output.stdout.as_str())
    }
}

impl TestDiscoverer for PytestDiscoverer {
    /// The command runs the tests verbosely with a JUnit report.
    fn run_command(&self, tests: &[TestCase]) -> (r: Command)
        ensures
            r.words() == seq![
                self.config.python@,
                "-m"@,
                "pytest"@,
                "-v"@,
                "--tb=short"@,
                "--junitxml=/tmp/junit.xml"@,
            ] + self.marker_args() + case_ids(tests@),
            r.env@.len() == 0,
            r.prepend_path@.len() == 0,
            r.working_dir is None,
            r.timeout_secs is None,
    {
        let mut cmd = Command::new(self.config.python.as_str()).arg("-m").arg("pytest").arg(
            "-v",
        ).arg("--tb=short").arg("--junitxml=/tmp/junit.xml");
        match &self.config.markers {
            Some(m) => {
                cmd = cmd.arg("-m").arg(m.as_str());
            },
            None => {},
        }
        proof {
            assert(cmd.words() =~= seq![
                self.config.python@,
                "-m"@,
                "pytest"@,
                "-v"@,
                "--tb=short"@,
                "--junitxml=/tmp/junit.xml"@,
            ] + self.marker_args());
        }
        let ids = ids_of(tests);
        cmd.args(&ids)
    }

    fn name(&self) -> (r: &'static str)
        ensures
            r@ == "pytest"@,
    {
        "pytest"
    }
}

/// A test in the tree belongs to the last module before it, and to the last
/// class between them where there is one.
pub proof fn tree_gives_ids(
    state: CollectionModel,
    lines: Seq<Seq<char>>,
    import_path: Seq<char>,
    class: Seq<char>,
    name: Seq<char>,
    other: Option<Seq<Option<Seq<char>>>>,
)
    requires
        lines.len() == 3,
    ensures
        ({
            let module_match = Some(seq![None, Some(import_path)]);
            let class_match = Some(seq![None, Some(class)]);
            let test_match = Some(seq![None, Some(name)]);
            let in_module = after_line(state, lines[0], module_match, other, other);
            let in_class = after_line(in_module, lines[1], None, class_match, other);
            let alone = after_line(in_module, lines[2], None, None, test_match);
            let inside = after_line(in_class, lines[2], None, None, test_match);
            let next = after_line(in_class, lines[0], module_match, other, other);
            &&& in_module.tests == state.tests
            &&& in_class.tests == state.tests
            &&& alone.tests == state.tests.push(
                CaseModel {
                    file: Some(import_path),
                    skipped: occurs(lines[2], "skip"@),
                    flaky: occurs(lines[2], "flaky"@),
                    ..bare_case(import_path + "::"@ + name)
                },
            )
            &&& inside.tests == state.tests.push(
                CaseModel {
                    file: Some(import_path),
                    skipped: occurs(lines[2], "skip"@),
                    flaky: occurs(lines[2], "flaky"@),
                    ..bare_case(import_path + "::"@ + class + "::"@ + name)
                },
            )
            &&& next == in_module
            &&& after_line(state, lines[0], None, None, None) == state
        }),
{
}

/// The result of a reported case goes by the path of its class, the dots of
/// which stand for slashes, and its name.
pub proof fn reported_class_is_a_path(
    whole: Option<Seq<char>>,
    name: Seq<char>,
    parts: Seq<Seq<char>>,
    time: Seq<char>,
    content: Seq<char>,
    failure: Option<Seq<Option<Seq<char>>>>,
    error: Option<Seq<Option<Seq<char>>>>,
)
    requires
        forall|k: int| 0 <= k < parts.len() ==> !(#[trigger] parts[k]).contains('.'),
    ensures
        ({
            let groups = seq![whole, Some(name), Some(joined(parts, "."@)), Some(time)];
            let r = reported_case(groups, content, failure, error);
            &&& r.result.test == bare_case(joined(parts, "/"@) + "::"@ + name)
            &&& r.seconds == time
        }),
{
    reveal_strlit(".");
    assert("."@ =~= seq!['.']);
    replaced_separator(parts, '.', "/"@);
}

/// A reported case failed exactly where a failure was found in it, and is an
/// error, skipped or passed by what was found else; a message comes from the
/// failure or the error alone.
pub proof fn marks_decide_outcome(
    groups: Seq<Option<Seq<char>>>,
    content: Seq<char>,
    failure: Option<Seq<Option<Seq<char>>>>,
    error: Option<Seq<Option<Seq<char>>>>,
)
    ensures
        ({
            let r = reported_case(groups, content, failure, error).result;
            &&& r.outcome == TestOutcome::Failed <==> failure is Some
            &&& r.outcome == TestOutcome::Error <==> failure is None && error is Some
            &&& r.outcome == TestOutcome::Skipped <==> failure is None && error is None && occurs(
                content,
                "<skipped"@,
            )
            &&& r.outcome == TestOutcome::Passed <==> failure is None && error is None && !occurs(
                content,
                "<skipped"@,
            )
            &&& failure matches Some(f) ==> r.error_message == Some(group_text(f, 1))
            &&& failure is None ==> (error matches Some(e) ==> r.error_message == Some(
                group_text(e, 1),
            ))
            &&& failure is None && error is None ==> r.error_message is None
        }),
{
}

/// The content of a case is what stands between the byte position behind its
/// tag and the end of the case, or of the report where the case has none.
pub proof fn content_ends_with_case(front: Seq<char>, content: Seq<char>, back: Seq<char>)
    requires
        !occurs(content + "</testcase>"@.drop_last(), "</testcase>"@),
    ensures
        content_behind(front + content + "</testcase>"@ + back, utf8_len(front)) == content,
        content_behind(front + content, utf8_len(front)) == content,
{
    reveal_strlit("</testcase>");
    let mark = "</testcase>"@;
    let n = front.len() as int;
    let m = content.len() as int;
    let s = front + content + mark + back;
    assert(s =~= front + (content + mark + back));
    front_fits(front, content + mark + back);
    find_from_is_least(s, mark, n);
    assert(s.subrange(n + m, n + m + mark.len()) =~= mark);
    assert(matches_at(s, mark, n + m));
    let t = content + mark.drop_last();
    assert forall|k: int| n <= k < n + m implies !matches_at(s, mark, k) by {
        if matches_at(s, mark, k) {
            assert(t.subrange(k - n, k - n + mark.len()) =~= s.subrange(k, k + mark.len()));
            assert(matches_at(t, mark, k - n));
        }
    }
    assert(find_from(s, mark, n) == Some(n + m));
    assert(s.subrange(n, n + m) =~= content);
    let u = front + content;
    front_fits(front, content);
    find_from_is_least(u, mark, n);
    match find_from(u, mark, n) {
        Some(k) => {
            assert(t.subrange(k - n, k - n + mark.len()) =~= u.subrange(k, k + mark.len()));
            assert(matches_at(t, mark, k - n));
        },
        None => {},
    }
    assert(u.subrange(n, u.len() as int) =~= content);
}

/// Every word of pytest's output stands for its own outcome, and no other
/// word stands for one.
pub proof fn each_word_has_its_outcome(word: Seq<char>)
    ensures
        word_outcome(word) == Some(TestOutcome::Passed) <==> word == "PASSED"@,
        word_outcome(word) == Some(TestOutcome::Failed) <==> word == "FAILED"@,
        word_outcome(word) == Some(TestOutcome::Skipped) <==> word == "SKIPPED"@,
        word_outcome(word) == Some(TestOutcome::Error) <==> word == "ERROR"@,
{
    reveal_strlit("PASSED");
    reveal_strlit("FAILED");
    reveal_strlit("SKIPPED");
    reveal_strlit("ERROR");
    assert("PASSED"@[0] == 'P');
    assert("FAILED"@[0] == 'F');
    assert("SKIPPED"@[0] == 'S');
    assert("ERROR"@[0] == 'E');
}

/// Every id printed with an outcome gives one result, in its order, with that
/// id and that outcome.
pub proof fn printed_outcomes_are_read(all: Seq<(nat, Seq<Option<Seq<char>>>)>, n: int, i: int)
    requires
        0 <= i < n <= all.len(),
        forall|k: int|
            0 <= k < all.len() ==> word_outcome(group_text((#[trigger] all[k]).1, 2)) is Some,
    ensures
        printed_results(all, n).len() == n,
        printed_results(all, n)[i].result.test == bare_case(group_text(all[i].1, 1)),
        word_outcome(group_text(all[i].1, 2)) == Some(printed_results(all, n)[i].result.outcome),
        printed_results(all, n)[i].result.error_message is None,
    decreases n,
{
    assert(word_outcome(group_text(all[n - 1].1, 2)) is Some);
    if i < n - 1 {
        printed_outcomes_are_read(all, n - 1, i);
    } else if n > 1 {
        printed_outcomes_are_read(all, n - 1, 0);
    }
}

} // verus!
