use offload::config::{CargoFrameworkConfig, DefaultFrameworkConfig, VitestFrameworkConfig};
use offload::framework::cargo::{CargoFramework, NextestSuite, NextestTestcase};
use offload::framework::default::DefaultFramework;
use offload::framework::vitest::{
    check_unique_test_names, VitestFramework, VitestJsonAssertionResult, VitestJsonReport,
    VitestJsonTestResult, VitestListItem,
};
use offload::framework::{FrameworkError, TestFramework, TestInstance, TestRecord};
use offload::report::TestcaseXml;

fn framework_with_regex(affinity_key_regex: Option<&str>) -> DefaultFramework {
    DefaultFramework::new(DefaultFrameworkConfig {
        discover_command: "echo".to_string(),
        run_command: "run {tests}".to_string(),
        result_file: None,
        working_dir: None,
        test_id_format: "{name}".to_string(),
        affinity_key_regex: affinity_key_regex.map(str::to_string),
    })
}

#[test]
fn test_compile_affinity_regex_rejects_invalid_pattern() {
    let framework = framework_with_regex(Some("(unterminated"));
    let err = framework.compile_affinity_regex().unwrap_err();
    let msg = err.message();
    assert!(
        msg.contains("affinity_key_regex"),
        "error should name the field: {msg}"
    );
}

#[test]
fn test_parse_discover_output_capture_group_is_key() {
    let framework = framework_with_regex(Some("^(.*?)::"));
    let re = framework.compile_affinity_regex().unwrap();
    let records = framework.parse_discover_output(
        "tests/test_foo.py::test_a\ntests/test_foo.py::test_b",
        "grp",
        re.as_deref(),
    );
    assert_eq!(records.len(), 2);
    assert_eq!(records[0].affinity_key.as_deref(), Some("tests/test_foo.py"));
    assert_eq!(records[1].affinity_key.as_deref(), Some("tests/test_foo.py"));
}

#[test]
fn test_parse_discover_output_whole_match_is_key() {
    let framework = framework_with_regex(Some(r"^[^:]+"));
    let re = framework.compile_affinity_regex().unwrap();
    let records = framework.parse_discover_output("tests/test_foo.py::test_a", "grp", re.as_deref());
    assert_eq!(records.len(), 1);
    assert_eq!(records[0].affinity_key.as_deref(), Some("tests/test_foo.py"));
}

#[test]
fn test_parse_discover_output_non_matching_id_has_no_key() {
    let framework = framework_with_regex(Some("^(.*?)::"));
    let re = framework.compile_affinity_regex().unwrap();
    let records = framework.parse_discover_output("no_separator_here", "grp", re.as_deref());
    assert_eq!(records.len(), 1);
    assert_eq!(records[0].affinity_key, None);
}

#[test]
fn test_parse_discover_output_without_regex_has_no_key() {
    let framework = framework_with_regex(None);
    let records = framework.parse_discover_output("tests/test_foo.py::test_a", "grp", None);
    assert_eq!(records.len(), 1);
    assert_eq!(records[0].affinity_key, None);
}

#[test]
fn comments_and_blank_lines_are_no_tests() {
    let framework = framework_with_regex(None);
    let records = framework.parse_discover_output("# list\n\n  a  \n", "grp", None);
    assert_eq!(records.len(), 1);
    assert_eq!(records[0].id, "a");
}

#[test]
fn placeholders_of_the_run_command_are_filled() {
    let framework = DefaultFramework::new(DefaultFrameworkConfig {
        discover_command: "list {filters}".to_string(),
        run_command: "run {tests} > {result_file}".to_string(),
        result_file: None,
        working_dir: Some("/w".to_string()),
        test_id_format: "{name}".to_string(),
        affinity_key_regex: None,
    });
    let a = TestRecord::new("a b", "g");
    let b = TestRecord::new("c", "g");
    let tests = [TestInstance::new(&a), TestInstance::new(&b)];
    assert_eq!(framework.substitute_command(&tests, "/r.xml"), "run 'a b' c > /r.xml");
    let cmd = framework.produce_test_execution_command(&tests, "/r.xml", false);
    assert_eq!(cmd.program, "sh");
    assert_eq!(cmd.args, vec!["-c", "run 'a b' c > /r.xml"]);
    assert_eq!(cmd.working_dir.as_deref(), Some("/w"));
    let listing = framework.discovery_command("-k x");
    assert_eq!(listing.args, vec!["-c", "list -k x"]);
}

#[test]
fn default_cases_are_matched_by_their_formatted_id_first() {
    let framework = framework_with_regex(None);
    let case = |name: &str| TestcaseXml {
        name: name.to_string(),
        classname: None,
        failure: None,
        error: None,
    };
    let mut cases = vec![case("a"), case("b")];
    let batch = vec!["a".to_string(), "x::b".to_string()];
    let matched = vec![Err("unused".to_string()), Ok("x::b".to_string())];
    assert!(framework.resolve_test_ids(&mut cases, &batch, &matched).is_ok());
    assert_eq!(cases[0].name, "a");
    assert_eq!(cases[1].name, "x::b");
    let mut unknown = vec![case("c")];
    let err = framework
        .resolve_test_ids(&mut unknown, &batch, &vec![Err("no match".to_string())])
        .unwrap_err();
    assert!(matches!(err, FrameworkError::Other(_)));
    assert!(err.message().contains("'c'"));
}

fn vitest() -> VitestFramework {
    VitestFramework::new(VitestFrameworkConfig::default()).unwrap()
}

#[test]
fn vitest_test_command_prefix_with_command() {
    let config = VitestFrameworkConfig {
        command: "npx vitest".to_string(),
        ..Default::default()
    };
    let fw = VitestFramework::new(config).unwrap();
    assert_eq!(fw.program, "npx");
    assert_eq!(fw.prefix_args, vec!["vitest"]);
}

#[test]
fn vitest_test_new_rejects_empty_command() {
    let config = VitestFrameworkConfig {
        command: "".to_string(),
        ..Default::default()
    };
    assert!(VitestFramework::new(config).is_err());
}

#[test]
fn test_execution_command_builds_file_args() {
    let config = VitestFrameworkConfig {
        command: "npx vitest".to_string(),
        run_args: Some("--no-coverage".to_string()),
        ..Default::default()
    };
    let fw = VitestFramework::new(config).unwrap();

    let r1 = TestRecord::new("tests/math.test.ts > math > add > adds two positive numbers", "grp");
    let r2 = TestRecord::new("tests/math.test.ts > math > subtract > subtracts two numbers", "grp");
    let r3 = TestRecord::new("tests/string.test.ts > string utils > capitalize", "grp");
    let tests = vec![TestInstance::new(&r1), TestInstance::new(&r2), TestInstance::new(&r3)];
    let cmd = fw.produce_test_execution_command(&tests, "/tmp/junit.xml", false);

    assert_eq!(cmd.program, "npx");
    assert!(cmd.args.contains(&"vitest".to_string()));
    assert!(cmd.args.contains(&"run".to_string()));
    assert!(cmd.args.contains(&"tests/math.test.ts".to_string()));
    assert!(cmd.args.contains(&"tests/string.test.ts".to_string()));
    assert!(cmd.args.contains(&"--reporter=json".to_string()));
    assert!(cmd.args.contains(&"--outputFile=/tmp/junit.xml".to_string()));
    assert!(!cmd.args.contains(&"--includeTaskLocation".to_string()));
    assert!(cmd.args.contains(&"--no-coverage".to_string()));

    assert!(cmd.args.contains(&"--testNamePattern".to_string()));
    let tnp_idx = cmd.args.iter().position(|a| a == "--testNamePattern").unwrap();
    let pattern = &cmd.args[tnp_idx + 1];
    assert!(pattern.starts_with("^("));
    assert!(pattern.ends_with(")$"));
    assert!(pattern.contains("math > add > adds two positive numbers"));
    assert!(pattern.contains("math > subtract > subtracts two numbers"));
    assert!(pattern.contains("string utils > capitalize"));
    assert!(pattern.contains('|'));

    let reporter_idx = cmd.args.iter().position(|a| a == "--reporter=json").unwrap();
    assert!(tnp_idx < reporter_idx);
}

#[test]
fn test_execution_command_escapes_regex_in_names() {
    let config = VitestFrameworkConfig {
        command: "npx vitest".to_string(),
        ..Default::default()
    };
    let fw = VitestFramework::new(config).unwrap();

    let r1 = TestRecord::new("tests/a.test.ts > suite (group) > test.name+thing*", "grp");
    let tests = vec![TestInstance::new(&r1)];
    let cmd = fw.produce_test_execution_command(&tests, "/tmp/out.json", false);

    let tnp_idx = cmd.args.iter().position(|a| a == "--testNamePattern").unwrap();
    let pattern = &cmd.args[tnp_idx + 1];
    assert!(pattern.contains(r"\("), "( should be escaped. Got: {}", pattern);
    assert!(pattern.contains(r"\)"), ") should be escaped. Got: {}", pattern);
    assert!(pattern.contains(r"\."), ". should be escaped. Got: {}", pattern);
    assert!(pattern.contains(r"\+"), "+ should be escaped. Got: {}", pattern);
    assert!(pattern.contains(r"\*"), "* should be escaped. Got: {}", pattern);
}

#[test]
fn test_discover_rejects_duplicate_names() {
    let tests = vec![
        TestRecord::new("a.test.ts > suite > duplicate name", "grp"),
        TestRecord::new("b.test.ts > suite > duplicate name", "grp"),
        TestRecord::new("a.test.ts > suite > unique name", "grp"),
    ];

    let result = check_unique_test_names(&tests);
    assert!(result.is_err());
    let msg = result.unwrap_err().message();
    assert!(
        msg.contains("suite > duplicate name"),
        "Error should mention the duplicate. Got: {}",
        msg
    );

    let unique_tests = vec![
        TestRecord::new("a.test.ts > name one", "grp"),
        TestRecord::new("b.test.ts > name two", "grp"),
    ];
    assert!(check_unique_test_names(&unique_tests).is_ok());
}

fn assertion(
    titles: &[&str],
    title: &str,
    status: &str,
    time: &str,
    failures: &[&str],
) -> VitestJsonAssertionResult {
    VitestJsonAssertionResult {
        ancestor_titles: titles.iter().map(|t| t.to_string()).collect(),
        title: title.to_string(),
        status: status.to_string(),
        time: time.to_string(),
        failure_messages: failures.iter().map(|t| t.to_string()).collect(),
    }
}

fn report(name: &str, time: &str, results: Vec<VitestJsonAssertionResult>) -> VitestJsonReport {
    VitestJsonReport {
        test_results: vec![VitestJsonTestResult {
            name: name.to_string(),
            assertion_results: results,
            time: time.to_string(),
        }],
        time: time.to_string(),
    }
}

#[test]
fn test_xml_from_report_converts_json() {
    let fw = vitest();
    let report = report(
        "/project/tests/math.test.ts",
        "0.003500",
        vec![
            assertion(&["math", "add"], "adds two numbers", "passed", "0.001500", &[]),
            assertion(
                &["math", "add"],
                "adds negative",
                "failed",
                "0.002000",
                &["Expected 3 but got 2"],
            ),
        ],
    );
    let junit = fw.xml_from_report(&report, "/elsewhere").unwrap();

    assert!(
        junit.contains("math.test.ts\""),
        "classname should be file path. Got: {}",
        junit
    );
    assert!(
        junit.contains("math &gt; add &gt; adds two numbers"),
        "name should use > separator. Got: {}",
        junit
    );
    assert!(junit.contains("<failure"), "should have failure element");
    assert!(junit.contains("Expected 3 but got 2"));
    assert!(junit.contains("time=\"0.001500\""));
}

#[test]
fn test_xml_from_report_skips_pending() {
    let fw = vitest();
    let report = report(
        "/project/tests/a.test.ts",
        "0.001000",
        vec![
            assertion(&["suite"], "runs", "passed", "0.001000", &[]),
            assertion(&["suite"], "is pending", "pending", "0.000000", &[]),
        ],
    );
    let junit = fw.xml_from_report(&report, "/project").unwrap();
    assert!(junit.contains("runs"), "passed test should be in output. Got: {}", junit);
    assert!(
        !junit.contains("is pending"),
        "pending test should not be in output. Got: {}",
        junit
    );
}

#[test]
fn test_xml_from_report_skips_skipped() {
    let fw = vitest();
    let report = report(
        "/project/tests/a.test.ts",
        "0.001000",
        vec![
            assertion(&["suite"], "runs", "passed", "0.001000", &[]),
            assertion(&["suite"], "is skipped", "skipped", "0.000000", &[]),
        ],
    );
    let junit = fw.xml_from_report(&report, "/project").unwrap();
    assert!(junit.contains("runs"), "passed test should be in output. Got: {}", junit);
    assert!(
        !junit.contains("is skipped"),
        "skipped test should not be in output. Got: {}",
        junit
    );
}

#[test]
fn test_parse_discovery_json() {
    let fw = vitest();
    let items = vec![
        VitestListItem {
            name: "math > add > adds two positive numbers".to_string(),
            file: "/project/tests/math.test.ts".to_string(),
        },
        VitestListItem {
            name: "string utils > capitalize".to_string(),
            file: "/project/tests/string.test.ts".to_string(),
        },
    ];
    let tests = fw.parse_discovery_list(&items, "/project", "default");

    assert_eq!(tests.len(), 2);
    assert_eq!(
        tests[0].id,
        "tests/math.test.ts > math > add > adds two positive numbers"
    );
    assert_eq!(tests[0].group, "default");
    assert_eq!(tests[1].id, "tests/string.test.ts > string utils > capitalize");
    assert_eq!(fw.report_format(), "json");
}

#[test]
fn files_outside_the_working_directory_stay_absolute() {
    let fw = vitest();
    let items = vec![VitestListItem { name: "n".to_string(), file: "/other/x.ts".to_string() }];
    assert_eq!(fw.parse_discovery_list(&items, "/project", "g")[0].id, "/other/x.ts > n");
    let cmd = fw.discovery_command("-t 'a b'").unwrap();
    assert_eq!(cmd.program, "npx");
    assert!(cmd.args.contains(&"list".to_string()));
    assert!(cmd.args.contains(&"a b".to_string()));
}

#[test]
fn nextest_listing_keeps_what_the_filters_match() {
    let fw = CargoFramework::new(CargoFrameworkConfig {
        package: Some("p".to_string()),
        features: vec!["x".to_string(), "y".to_string()],
        ..Default::default()
    });
    let case = |name: &str, status: Option<&str>| NextestTestcase {
        name: name.to_string(),
        filter_status: status.map(str::to_string),
    };
    let suites = vec![NextestSuite {
        binary_id: "bin".to_string(),
        testcases: vec![
            case("a::one", None),
            case("a::two", Some("matches")),
            case("a::three", Some("mismatch")),
        ],
    }];
    let tests = fw.parse_listing(&suites, "g");
    let ids: Vec<&str> = tests.iter().map(|t| t.id.as_str()).collect();
    assert_eq!(ids, vec!["bin a::one", "bin a::two"]);

    let listing = fw.discovery_command("").unwrap();
    assert_eq!(listing.program, "cargo");
    assert!(listing.args.windows(2).any(|w| w == ["-p", "p"]));
    assert!(listing.args.windows(2).any(|w| w == ["--features", "x,y"]));

    let record = TestRecord::new("bin a::one", "g");
    let cmd = fw.produce_test_execution_command(&[TestInstance::new(&record)], "/r.xml", true);
    let line = cmd.args.join(" ");
    assert!(line.contains("(binary(=bin) & test(=a::one))"), "{line}");
}

#[test]
fn names_are_escaped_exactly() {
    let config = VitestFrameworkConfig {
        command: "npx vitest".to_string(),
        ..Default::default()
    };
    let fw = VitestFramework::new(config).unwrap();
    let record = TestRecord::new(r"a.test.ts > x\y [1-2] {a|b}? ^$ #&~ é/_", "grp");
    let tests = vec![TestInstance::new(&record)];
    let cmd = fw.produce_test_execution_command(&tests, "/tmp/out.json", false);
    let at = cmd.args.iter().position(|a| a == "--testNamePattern").unwrap();
    assert_eq!(cmd.args[at + 1], r"^(x\\y \[1\-2\] \{a\|b\}\? \^\$ \#\&\~ é/_)$");
}
