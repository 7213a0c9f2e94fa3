use offload::config::{DefaultDiscoveryConfig, PytestDiscoveryConfig};
use offload::discovery::generic::{parse_junit_xml as parse_generic, GenericDiscoverer};
use offload::discovery::pytest::{
    case_content, outcome_of, parse_junit_xml, parse_pytest_stdout, PytestDiscoverer,
};
use offload::discovery::{component_name, DiscoveryError, TestCase, TestDiscoverer, TestOutcome};
use offload::provider::ExecResult;

fn exec(code: i32, stdout: &str) -> ExecResult {
    ExecResult {
        exit_code: code,
        stdout: stdout.to_string(),
        stderr: String::new(),
        duration_ns: 3,
    }
}

#[test]
fn collection_trees_are_read() {
    let discoverer = PytestDiscoverer::new(PytestDiscoveryConfig::default());
    let tree = "<Module tests/test_a.py>\n  <Function test_one>\n  <Class TestX>\n    <Method test_two>\n";
    let tests = discoverer.parse_collect_output(tree);
    let ids: Vec<&str> = tests.iter().map(|t| t.id.as_str()).collect();
    assert_eq!(ids, vec!["tests/test_a.py::test_one", "tests/test_a.py::TestX::test_two"]);
    assert_eq!(tests[0].file.as_deref(), Some("tests/test_a.py"));
    assert_eq!(discoverer.name(), "pytest");
}

#[test]
fn collection_failures_are_errors() {
    let discoverer = PytestDiscoverer::new(PytestDiscoveryConfig::default());
    let err = discoverer.read_discovery(false, "", "boom").unwrap_err();
    assert!(matches!(err, DiscoveryError::DiscoveryFailed(_)));
    assert!(err.message().contains("boom"));
}

#[test]
fn junit_cases_have_outcomes() {
    let report = concat_report();
    let results = parse_junit_xml(&report);
    let outcomes: Vec<TestOutcome> = results.iter().map(|r| r.result.outcome).collect();
    assert_eq!(
        outcomes,
        vec![TestOutcome::Passed, TestOutcome::Failed, TestOutcome::Skipped, TestOutcome::Error]
    );
    assert_eq!(results[1].result.test.id, "tests/test_a::bad");
    assert_eq!(results[1].result.error_message.as_deref(), Some("assert 1"));
    assert_eq!(results[0].seconds, "0.5");
}

fn concat_report() -> String {
    [
        r#"<testcase name="ok" classname="tests.test_a" time="0.5"></testcase>"#,
        r#"<testcase name="bad" classname="tests.test_a" time="1"><failure message="assert 1">x</failure></testcase>"#,
        r#"<testcase name="skip" classname="tests.test_a" time="1"><skipped/></testcase>"#,
        r#"<testcase name="err" classname="tests.test_a" time="1"><error message="e">x</error></testcase>"#,
    ]
    .concat()
}

#[test]
fn verbose_output_is_read_where_there_is_no_report() {
    let results = parse_pytest_stdout("a.py::t1 PASSED [50%]\na.py::t2 FAILED\nnoise\n");
    assert_eq!(results.len(), 2);
    assert_eq!(results[0].result.test.id, "a.py::t1");
    assert_eq!(results[1].result.outcome, TestOutcome::Failed);
    assert_eq!(outcome_of("SKIPPED"), Some(TestOutcome::Skipped));
    assert_eq!(outcome_of("XFAIL"), None);
    let discoverer = PytestDiscoverer::new(PytestDiscoveryConfig::default());
    assert_eq!(discoverer.parse_results(&exec(0, "a.py::t1 PASSED"), None).len(), 1);
}

#[test]
fn contents_end_with_the_case() {
    let report: Vec<char> = "ab<x></testcase>rest".chars().collect();
    assert_eq!(case_content(&report, 2), "<x>");
    assert_eq!(case_content(&"abc".chars().collect(), 1), "bc");
}

#[test]
fn pytest_commands_name_the_tests() {
    let discoverer = PytestDiscoverer::new(PytestDiscoveryConfig {
        markers: Some("fast".to_string()),
        ..Default::default()
    });
    let cmd = discoverer.run_command(&[TestCase::new("a.py::t")]);
    assert_eq!(cmd.program, "python");
    assert!(cmd.args.contains(&"a.py::t".to_string()));
    let listing = discoverer.discovery_command(&vec!["tests".to_string()]);
    assert!(listing.args.contains(&"--collect-only".to_string()));
    assert!(listing.args.windows(2).any(|w| w == ["-m", "fast"]));
}

fn generic() -> GenericDiscoverer {
    GenericDiscoverer::new(DefaultDiscoveryConfig {
        discover_command: "list".to_string(),
        run_command: "run {tests} now".to_string(),
        result_file: None,
        working_dir: None,
    })
}

#[test]
fn generic_discovery_reads_lines() {
    let discoverer = generic();
    let tests = discoverer.parse_discover_output("# x\na\n\n b \n");
    let ids: Vec<&str> = tests.iter().map(|t| t.id.as_str()).collect();
    assert_eq!(ids, vec!["a", "b"]);
    assert_eq!(discoverer.substitute_tests(&tests), "run a b now");
    let cmd = discoverer.run_command(&tests);
    assert_eq!(cmd.program, "run");
    assert_eq!(cmd.args, vec!["a", "b", "now"]);
}

#[test]
fn generic_results_go_by_the_exit_code_without_a_report() {
    let results = generic().parse_results(&exec(2, "out"), None);
    assert_eq!(results.len(), 1);
    assert_eq!(results[0].result.test.id, "all_tests");
    assert_eq!(results[0].result.error_message.as_deref(), Some("Exit code: 2"));
    let report = r#"<testcase name="a" classname="c" time="2"></testcase><testcase name="b"><failure message="m"/></testcase>"#;
    let parsed = parse_generic(report);
    assert_eq!(parsed.len(), 2);
    assert_eq!(parsed[0].result.outcome, TestOutcome::Passed);
    assert_eq!(parsed[1].result.outcome, TestOutcome::Failed);
    assert_eq!(parsed[1].result.error_message.as_deref(), Some("m"));
}

#[test]
fn cases_are_named_by_their_last_component() {
    assert_eq!(component_name("a::b::c"), "c");
    assert_eq!(component_name("plain"), "plain");
    let case = TestCase::new("a::b").with_file("f").with_line(3).with_marker("m").flaky();
    assert_eq!(case.name, "b");
    assert_eq!(case.line, Some(3));
    assert_eq!(case.markers, vec!["m"]);
    assert!(case.flaky && !case.skipped);
    assert!(TestOutcome::Skipped.is_success() && !TestOutcome::Error.is_success());
}
