//! Discovery and execution with custom commands.

use vstd::prelude::*;

use crate::config::DefaultDiscoveryConfig;
use crate::discovery::{
    bare_case, case_views, option_view, plain_result, DiscoveryError, DiscoveryResult, ResultModel,
    TestCase, TestDiscoverer, TestOutcome, TestResult,
};
use crate::patterns;
use crate::patterns::{
    found_views, group, group_text, group_views, match_view, regex_captures, regex_captures_all,
};
use crate::provider::{Command, ExecResult};
use crate::text;
use crate::text::{
    counting, decimal, is_word, joined, joined_words_return, lines_of, matches_at, occurs,
    replaced, replaced_at_first, views, words_behind, words_in_front, words_of,
};

verus! {

/// A reported test case: its name, class name, time and content.
pub const TESTCASE_PATTERN: &'static str = r#"<testcase[^>]*name="([^"]+)"[^>]*(?:classname="([^"]+)")?[^>]*(?:time="([^"]+)")?[^>]*(?:/>|>([\s\S]*?)</testcase>)"#;

/// A message attribute.
pub const MESSAGE_PATTERN: &'static str = r#"message="([^"]*)""#;

/// A test result from a report, with the time it took as the report gives it.
#[derive(Debug)]
pub struct Reported {
    /// The result, with no duration.
    pub result: TestResult,
    /// The seconds it took, as text; empty where they are not given.
    pub seconds: String,
}

/// What a reported result is, as a mathematical value.
#[verifier::ext_equal]
pub struct ReportedModel {
    pub result: ResultModel,
    pub seconds: Seq<char>,
}

impl View for Reported {
    type V = ReportedModel;

    open spec fn view(&self) -> ReportedModel {
        ReportedModel { result: self.result@, seconds: self.seconds@ }
    }
}

/// The views of a sequence of reported results.
pub open spec fn reported_views(v: Seq<Reported>) -> Seq<ReportedModel> {
    Seq::new(v.len(), |i: int| v[i]@)
}

/// A result with an outcome and a message, and nothing more.
pub fn plain(test: TestCase, outcome: TestOutcome, error_message: Option<String>) -> (r: TestResult)
    ensures
        r@ == plain_result(test@, outcome, option_view(error_message)),
{
    let r = TestResult {
        test,
        outcome,
        duration_ns: 0,
        stdout: String::new(),
        stderr: String::new(),
        error_message,
        stack_trace: None,
    };
    assert(r@ =~= plain_result(test@, outcome, option_view(error_message)));
    r
}

/// The outcome that the content of a reported case tells.
pub open spec fn content_outcome(content: Seq<char>) -> TestOutcome {
    if occurs(content, "<failure"@) {
        TestOutcome::Failed
    } else if occurs(content, "<error"@) {
        TestOutcome::Error
    } else if occurs(content, "<skipped"@) {
        TestOutcome::Skipped
    } else {
        TestOutcome::Passed
    }
}

/// The id of a reported case.
pub open spec fn reported_id(classname: Seq<char>, name: Seq<char>) -> Seq<char> {
    if classname.len() == 0 {
        name
    } else {
        classname + "::"@ + name
    }
}

/// The result of a reported case: its groups are name, class name, time and
/// content; the message is the one found in the content.
pub open spec fn reported_case(
    groups: Seq<Option<Seq<char>>>,
    message: Option<Seq<Option<Seq<char>>>>,
) -> ReportedModel {
    let content = group_text(groups, 4);
    let outcome = content_outcome(content);
    ReportedModel {
        result: plain_result(
            bare_case(reported_id(group_text(groups, 2), group_text(groups, 1))),
            outcome,
            if outcome == TestOutcome::Failed || outcome == TestOutcome::Error {
                match message {
                    Some(m) => Some(group_text(m, 1)),
                    None => None,
                }
            } else {
                None
            },
        ),
        seconds: group_text(groups, 3),
    }
}

/// The result of a reported case, from the groups of its match and those of
/// the match of a message in its content.
pub fn read_case(groups: &Vec<Option<String>>, message: &Option<Vec<Option<String>>>) -> (r:
    Reported)
    ensures
        r@ == reported_case(
            group_views(groups@),
            match_view(*message),
        ),
{
    let name = group(groups, 1);
    let classname = group(groups, 2);
    let content = group(groups, 4);
    let id = if classname.as_str().is_empty() {
        name
    } else {
        let mut id = classname;
        id.append("::");
        id.append(name.as_str());
        id
    };
    let said = match message {
        Some(m) => Some(group(m, 1)),
        None => None,
    };
    let (outcome, said) = if text::contains(content.as_str(), "<failure") {
        (TestOutcome::Failed, said)
    } else if text::contains(content.as_str(), "<error") {
        (TestOutcome::Error, said)
    } else if text::contains(content.as_str(), "<skipped") {
        (TestOutcome::Skipped, None)
    } else {
        (TestOutcome::Passed, None)
    };
    Reported {
        result: plain(TestCase::new(id.as_str()), outcome, said),
        seconds: group(groups, 3),
    }
}

/// The results of a report, from the matches of its cases.
pub open spec fn reported_cases(all: Seq<(nat, Seq<Option<Seq<char>>>)>) -> Seq<ReportedModel> {
    Seq::new(
        all.len(),
        |i: int|
            reported_case(
                all[i].1,
                regex_captures(MESSAGE_PATTERN@, group_text(all[i].1, 4)),
            ),
    )
}

/// Reads the test results of a JUnit report.
pub fn parse_junit_xml(content: &str) -> (r: Vec<Reported>)
    ensures
        reported_views(r@) == reported_cases(
            regex_captures_all(TESTCASE_PATTERN@, content@),
        ),
{
    let all = patterns::captures_all(TESTCASE_PATTERN, content);
    let mut out: Vec<Reported> = Vec::new();
    let mut i: usize = 0;
    while i < all.len()
        invariant
            0 <= i <= all@.len(),
            out@.len() == i,
            forall|k: int|
                0 <= k < i ==> (#[trigger] out@[k])@ == reported_case(
                    all@[k]@.1,
                    regex_captures(MESSAGE_PATTERN@, group_text(all@[k]@.1, 4)),
                ),
        decreases all@.len() - i,
    {
        let inner = group(&all[i].groups, 4);
        let message = patterns::captures(MESSAGE_PATTERN, inner.as_str());
        out.push(read_case(&all[i].groups, &message));
        i = i + 1;
    }
    proof {
        assert(reported_views(out@) =~= reported_cases(found_views(all@)));
    }
    out
}

/// Generic test discoverer that uses user-provided commands.
#[derive(Debug)]
pub struct GenericDiscoverer {
    /// The configuration.
    pub config: DefaultDiscoveryConfig,
}

/// The ids of a sequence of test cases.
pub open spec fn case_ids(tests: Seq<TestCase>) -> Seq<Seq<char>> {
    Seq::new(tests.len(), |i: int| tests[i].id@)
}

/// The ids of test cases.
pub fn ids_of(tests: &[TestCase]) -> (r: Vec<String>)
    ensures
        views(r@) == case_ids(tests@),
{
    let mut ids: Vec<String> = Vec::new();
    let mut i: usize = 0;
    while i < tests.len()
        invariant
            0 <= i <= tests@.len(),
            ids@.len() == i,
            forall|k: int| 0 <= k < i ==> (#[trigger] ids@[k])@ == tests@[k].id@,
        decreases tests@.len() - i,
    {
        ids.push(tests[i].id.clone());
        i = i + 1;
    }
    proof {
        assert(views(ids@) =~= case_ids(tests@));
    }
    ids
}

impl GenericDiscoverer {
    /// Creates a new generic discoverer with the given configuration.
    pub fn new(config: DefaultDiscoveryConfig) -> (r: Self)
        ensures
            r.config == config,
    {
        GenericDiscoverer { config }
    }

    /// Turns the output of the discovery command into test cases: one test ID
    /// per line, without blank lines and comments.
    pub fn parse_discover_output(&self, output: &str) -> (r: Vec<TestCase>)
        ensures
            case_views(r@) == Seq::new(
                counting(lines_of(output@)).len(),
                |i: int| bare_case(counting(lines_of(output@))[i]),
            ),
    {
        let ids = text::significant_lines(output);
        let mut out: Vec<TestCase> = Vec::new();
        let mut i: usize = 0;
        while i < ids.len()
            invariant
                0 <= i <= ids@.len(),
                out@.len() == i,
                forall|k: int| 0 <= k < i ==> (#[trigger] out@[k])@ == bare_case(ids@[k]@),
            decreases ids@.len() - i,
        {
            out.push(TestCase::new(ids[i].as_str()));
            i = i + 1;
        }
        proof {
            assert(case_views(out@) =~= Seq::new(
                views(ids@).len(),
                |i: int| bare_case(views(ids@)[i]),
            ));
        }
        out
    }

    /// The run command for the given tests.
    pub open spec fn run_line(self, ids: Seq<Seq<char>>) -> Seq<char> {
        replaced(self.config.run_command@, "{tests}"@, joined(ids, " "@))
    }

    /// Substitutes the placeholder for tests in the run command.
    pub fn substitute_tests(&self, tests: &[TestCase]) -> (r: String)
        ensures
            r@ == self.run_line(case_ids(tests@)),
    {
        let ids = ids_of(tests);
        let list = text::join(&ids, " ");
        proof {
            reveal_strlit("{tests}");
        }
        text::replace(self.config.run_command.as_str(), "{tests}", list.as_str())
    }

    /// The command that lists the tests.
    pub fn discovery_command(&self) -> (r: Command)
        ensures
            r.words() == seq!["sh"@, "-c"@, self.config.discover_command@],
            option_view(r.working_dir) == option_view(self.config.working_dir),
            r.env@.len() == 0,
            r.prepend_path@.len() == 0,
            r.timeout_secs is None,
    {
        let cmd = Command::new("sh").arg("-c").arg(self.config.discover_command.as_str());
        proof {
            assert(cmd.words() =~= seq!["sh"@, "-c"@, self.config.discover_command@]);
        }
        match &self.config.working_dir {
            Some(dir) => cmd.working_dir(dir.as_str()),
            None => cmd,
        }
    }

    /// The tests that a discovery command found.
    pub fn read_discovery(&self, success: bool, stdout: &str, stderr: &str) -> (r: DiscoveryResult<
        Vec<TestCase>,
    >)
        ensures
            if success {
                r matches Ok(tests) && case_views(tests@) == Seq::new(
                    counting(lines_of(stdout@)).len(),
                    |i: int| bare_case(counting(lines_of(stdout@))[i]),
                )
            } else {
                r matches Err(DiscoveryError::DiscoveryFailed(e)) && e@
                    == "Discovery command failed: "@ + stderr@
            },
    {
        if !success {
            let mut e = "Discovery command failed: ".to_owned();
            e.append(stderr);
            return Err(DiscoveryError::DiscoveryFailed(e));
        }
        Ok(self.parse_discover_output(stdout))
    }

    /// Reads test results: those of the report where there is one, else a
    /// single result for all tests by the exit code.
    pub fn parse_results(&self, output: &ExecResult, result_file: Option<&str>) -> (r: Vec<
        Reported,
    >)
        ensures
            reported_views(r@) == (match result_file {
                Some(content) => reported_cases(
                    regex_captures_all(TESTCASE_PATTERN@, content@),
                ),
                None => seq![
                    ReportedModel {
                        result: ResultModel {
                            test: bare_case("all_tests"@),
                            outcome: if output.exit_code == 0 {
                                TestOutcome::Passed
                            } else {
                                TestOutcome::Failed
                            },
                            duration_ns: output.duration_ns,
                            stdout: output.stdout@,
                            stderr: output.stderr@,
                            error_message: if output.exit_code == 0 {
                                None
                            } else {
                                Some("Exit code: "@ + decimal(output.exit_code as int))
                            },
                            stack_trace: None,
                        },
                        seconds: Seq::empty(),
                    },
                ],
            }),
    {
        match result_file {
            Some(content) => parse_junit_xml(content),
            None => {
                let success = output.success();
                let error_message = if success {
                    None
                } else {
                    let mut e = "Exit code: ".to_owned();
                    let code = text::decimal_i32(output.exit_code);
                    e.append(code.as_str());
                    Some(e)
                };
                let result = TestResult {
                    test: TestCase::new("all_tests"),
                    outcome: if success {
                        TestOutcome::Passed
                    } else {
                        TestOutcome::Failed
                    },
                    duration_ns: output.duration_ns,
                    stdout: output.stdout.clone(),
                    stderr: output.stderr.clone(),
                    error_message,
                    stack_trace: None,
                };
                let mut out: Vec<Reported> = Vec::new();
                out.push(Reported { result, seconds: String::new() });
                proof {
                    assert(out@[0]@.seconds =~= Seq::empty());
                    assert(reported_views(out@) =~= seq![out@[0]@]);
                }
                out
            },
        }
    }
}

impl TestDiscoverer for GenericDiscoverer {
    /// The words of the run command; a command that says so where there is
    /// none.
    fn run_command(&self, tests: &[TestCase]) -> (r: Command)
        ensures
            ({
                let words = words_of(self.run_line(case_ids(tests@)));
                if words.len() == 0 {
                    r.words() == seq!["echo"@, "No command specified"@] && r.working_dir is None
                } else {
                    r.words() == words && option_view(r.working_dir) == option_view(
                        self.config.working_dir,
                    )
                }
            }),
            r.env@.len() == 0,
            r.prepend_path@.len() == 0,
            r.timeout_secs is None,
    {
        let line = self.substitute_tests(tests);
        let parts = text::words(line.as_str());
        proof {
            assert(views(parts@).len() == parts@.len());
        }
        if parts.len() == 0 {
            let cmd = Command::new("echo").arg("No command specified");
            proof {
                assert(cmd.words() =~= seq!["echo"@, "No command specified"@]);
            }
            return cmd;
        }
        let mut rest = parts;
        let ghost all = views(rest@);
        let program = rest.remove(0);
        proof {
            assert(seq![program@] + views(rest@) =~= all);
        }
        let cmd = Command::new(program.as_str()).args(&rest);
        match &self.config.working_dir {
            Some(dir) => cmd.working_dir(dir.as_str()),
            None => cmd,
        }
    }

    fn name(&self) -> (r: &'static str)
        ensures
            r@ == "generic"@,
    {
        "generic"
    }
}

/// A reported case failed exactly where its content holds a failure, and is an
/// error, skipped or passed by what it holds else.
pub proof fn content_decides_outcome(content: Seq<char>)
    ensures
        content_outcome(content) == TestOutcome::Failed <==> occurs(content, "<failure"@),
        content_outcome(content) == TestOutcome::Error <==> !occurs(content, "<failure"@) && occurs(
            content,
            "<error"@,
        ),
        content_outcome(content) == TestOutcome::Skipped <==> !occurs(content, "<failure"@)
            && !occurs(content, "<error"@) && occurs(content, "<skipped"@),
        content_outcome(content) == TestOutcome::Passed <==> !occurs(content, "<failure"@)
            && !occurs(content, "<error"@) && !occurs(content, "<skipped"@),
{
}

/// The result of a reported case goes by its class and name, keeps the time as
/// it is given, and has the message only where the case failed or is an error.
pub proof fn reported_case_stands(
    whole: Option<Seq<char>>,
    name: Seq<char>,
    classname: Option<Seq<char>>,
    time: Option<Seq<char>>,
    content: Option<Seq<char>>,
    message: Seq<char>,
)
    ensures
        ({
            let groups = seq![whole, Some(name), classname, time, content];
            let r = reported_case(groups, Some(seq![None, Some(message)]));
            &&& classname is None ==> r.result.test == bare_case(name)
            &&& classname matches Some(c) ==> c.len() > 0 ==> r.result.test == bare_case(
                c + "::"@ + name,
            )
            &&& time matches Some(t) ==> r.seconds == t
            &&& content is None ==> r.result.outcome == TestOutcome::Passed
            &&& content matches Some(c) ==> r.result.outcome == content_outcome(c)
            &&& r.result.error_message == (if r.result.outcome == TestOutcome::Failed
                || r.result.outcome == TestOutcome::Error {
                Some(message)
            } else {
                None
            })
            &&& reported_case(groups, None).result.error_message is None
        }),
{
    reveal_strlit("<failure");
    reveal_strlit("<error");
    reveal_strlit("<skipped");
}

impl GenericDiscoverer {
    /// A run command that gives the tests a place runs exactly the words around
    /// it with the ids of the tests between them.
    pub proof fn run_line_holds_ids(self, front: Seq<Seq<char>>, back: Seq<Seq<char>>, ids: Seq<
        Seq<char>,
    >)
        requires
            self.config.run_command@ == joined(front, " "@) + " "@ + "{tests}"@ + " "@ + joined(
                back,
                " "@,
            ),
            forall|k: int| 0 <= k < front.len() ==> is_word(#[trigger] front[k]),
            forall|k: int| 0 <= k < back.len() ==> is_word(#[trigger] back[k]),
            forall|k: int| 0 <= k < ids.len() ==> is_word(#[trigger] ids[k]),
            !joined(front, " "@).contains('{'),
            !joined(back, " "@).contains('{'),
        ensures
            words_of(self.run_line(ids)) == front + ids + back,
    {
        reveal_strlit("{tests}");
        reveal_strlit(" ");
        let a = joined(front, " "@) + " "@;
        let b = " "@ + joined(back, " "@);
        let pat = "{tests}"@;
        let list = joined(ids, " "@);
        let s = a + pat + b;
        assert(self.config.run_command@ =~= s);
        assert forall|k: int| 0 <= k < a.len() implies !matches_at(s, pat, k) by {
            if matches_at(s, pat, k) {
                assert(s.subrange(k, k + pat.len())[0] == s[k]);
                assert(s[k] == '{');
                assert(k < joined(front, " "@).len());
                assert(joined(front, " "@)[k] == '{');
            }
        }
        replaced_at_first(a, pat, b, list);
        no_placeholder(b, list);
        let line = a + list + b;
        assert(self.run_line(ids) == line);
        words_in_front(front, " "@ + list + b);
        assert(line =~= joined(front, " "@) + (" "@ + list + b));
        words_behind(" "@, list + b, 0);
        assert(" "@ + list + b =~= " "@ + (list + b));
        words_in_front(ids, b);
        words_behind(" "@, joined(back, " "@), 0);
        joined_words_return(back);
        assert(front + (ids + back) =~= front + ids + back);
    }
}

proof fn no_placeholder(b: Seq<char>, rep: Seq<char>)
    requires
        !b.contains('{'),
    ensures
        replaced(b, "{tests}"@, rep) == b,
{
    reveal_strlit("{tests}");
    if occurs(b, "{tests}"@) {
        let k = choose|k: int| matches_at(b, "{tests}"@, k);
        assert(b.subrange(k, k + "{tests}"@.len())[0] == b[k]);
        assert(b.contains(b[k]));
    }
    text::replaced_without_occurrence(b, "{tests}"@, rep);
}

} // verus!
