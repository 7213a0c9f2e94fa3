use offload::config::PytestFrameworkConfig;
use offload::framework::pytest::{
    build_pythonpath, groups_alone, plan_discovery, plan_pool, split_args, LocalContext,
    PytestFramework,
};
use offload::framework::{FrameworkError, TestFramework, TestInstance, TestRecord};
use offload::config::GroupConfig;
use offload::report::TestcaseXml;
use offload::strmap::StrMap;

fn map(entries: &[(&str, &str)]) -> StrMap<String> {
    let mut m = StrMap::new();
    for (k, v) in entries {
        m.insert(k.to_string(), v.to_string());
    }
    m
}

fn framework(command: &str) -> PytestFramework {
    PytestFramework::new(PytestFrameworkConfig {
        command: command.to_string(),
        ..Default::default()
    })
    .expect("valid command")
}

fn context() -> LocalContext {
    LocalContext { cwd: "/work".to_string(), path: "/usr/bin".to_string(), pythonpath: None }
}

#[test]
fn pytest_test_command_prefix_with_command() {
    let fw = framework("uv run pytest");
    assert_eq!(fw.program, "uv");
    assert_eq!(fw.prefix_args, vec!["run", "pytest"]);
}

#[test]
fn test_command_prefix_default() {
    let fw = framework("python -m pytest");
    assert_eq!(fw.program, "python");
    assert_eq!(fw.prefix_args, vec!["-m", "pytest"]);
}

#[test]
fn test_new_rejects_invalid_command() {
    let config = PytestFrameworkConfig {
        command: "unclosed 'quote".to_string(),
        ..Default::default()
    };
    assert!(PytestFramework::new(config).is_err());
}

#[test]
fn pytest_test_new_rejects_empty_command() {
    let config = PytestFrameworkConfig {
        command: "".to_string(),
        ..Default::default()
    };
    assert!(PytestFramework::new(config).is_err());
}

#[test]
fn rejected_commands_are_named() {
    let err = PytestFramework::new(PytestFrameworkConfig {
        command: "a 'b".to_string(),
        ..Default::default()
    })
    .unwrap_err();
    assert_eq!(
        err.message(),
        "Failed to discover tests: Failed to parse command 'a 'b': missing closing quote"
    );
    let err = PytestFramework::new(PytestFrameworkConfig {
        command: " ".to_string(),
        ..Default::default()
    })
    .unwrap_err();
    assert_eq!(
        err.message(),
        "Failed to discover tests: Command ' ' produced no tokens after parsing"
    );
}

#[test]
fn test_collect_only_command_base_and_bytecode_env() {
    let fw = framework("uv run pytest");
    let cmd = fw.collect_only_command();
    assert_eq!(cmd.program, "uv");
    assert_eq!(cmd.args, vec!["run", "pytest", "--collect-only", "-q"]);
    assert!(cmd
        .env
        .contains(&("PYTHONDONTWRITEBYTECODE".to_string(), "1".to_string())));
}

#[test]
fn test_build_pool_command_args_and_env() {
    let fw = PytestFramework::new(PytestFrameworkConfig {
        command: "uv run pytest".to_string(),
        discovery_args: Some("--no-cov".to_string()),
        env: map(&[("PYTHONPATH", "{root}/mysrc"), ("SOME_VAR", "{root}/v")]),
        prepend_path: Some(vec![".venv/bin".to_string()]),
        ..Default::default()
    })
    .unwrap();

    let hoisted_args = vec!["-m".to_string(), "not slow".to_string()];
    let search_paths = vec!["tests".to_string()];
    let cmd = fw
        .build_pool_command(
            "/fake/scripts",
            "/fake/partition-config.json",
            &hoisted_args,
            &search_paths,
            &context(),
        )
        .unwrap();

    assert_eq!(
        cmd.args,
        vec![
            "run",
            "pytest",
            "--collect-only",
            "-q",
            "--no-cov",
            "-m",
            "not slow",
            "tests",
            "-p",
            "offload_partition",
        ]
    );
    let value = |key: &str| -> Option<String> {
        cmd.env.iter().rev().find(|(k, _)| k == key).map(|(_, v)| v.clone())
    };
    assert_eq!(value("SOME_VAR"), Some("/work/v".to_string()));
    assert!(value("PATH").unwrap().contains("/work/.venv/bin"));
    let pythonpath = value("PYTHONPATH").unwrap();
    assert!(pythonpath.starts_with("/fake/scripts"));
    assert!(pythonpath.contains("/work/mysrc"));
    assert_eq!(
        value("OFFLOAD_PARTITION_CONFIG"),
        Some("/fake/partition-config.json".to_string())
    );
}

#[test]
fn test_discovery_extra_args_without_discovery_args() {
    let fw = framework("uv run pytest");
    let paths = vec!["tests".to_string()];
    let args = fw.discovery_extra_args(&paths, "-m 'not slow'").unwrap();
    assert_eq!(args, vec!["-m", "not slow", "tests"]);
}

#[test]
fn test_discovery_extra_args_with_discovery_args() {
    let fw = PytestFramework::new(PytestFrameworkConfig {
        command: "uv run pytest".to_string(),
        discovery_args: Some("--no-cov".to_string()),
        ..Default::default()
    })
    .unwrap();
    let paths = vec!["tests".to_string()];
    let args = fw.discovery_extra_args(&paths, "-m 'not slow'").unwrap();
    assert_eq!(args, vec!["--no-cov", "-m", "not slow", "tests"]);
}

#[test]
fn test_discovery_extra_args_with_discovery_args_no_filters() {
    let fw = PytestFramework::new(PytestFrameworkConfig {
        command: "python -m pytest".to_string(),
        discovery_args: Some("--no-cov -p no:cacheprovider".to_string()),
        ..Default::default()
    })
    .unwrap();
    let paths = vec!["tests".to_string(), "examples".to_string()];
    let args = fw.discovery_extra_args(&paths, "").unwrap();
    assert_eq!(
        args,
        vec!["--no-cov", "-p", "no:cacheprovider", "tests", "examples"]
    );
}

#[test]
fn test_discovery_extra_args_rejects_invalid_quoting() {
    let fw = PytestFramework::new(PytestFrameworkConfig {
        command: "uv run pytest".to_string(),
        discovery_args: Some("--no-cov 'unclosed".to_string()),
        ..Default::default()
    })
    .unwrap();
    let paths = vec!["tests".to_string()];
    assert!(matches!(
        fw.discovery_extra_args(&paths, ""),
        Err(FrameworkError::DiscoveryFailed(_))
    ));
}

#[test]
fn test_discovery_args_tokens_shared_by_both_paths() {
    let fw = PytestFramework::new(PytestFrameworkConfig {
        command: "uv run pytest".to_string(),
        discovery_args: Some("--ignore examples/tests/sub".to_string()),
        ..Default::default()
    })
    .unwrap();
    assert_eq!(
        fw.discovery_args_tokens().unwrap(),
        vec!["--ignore", "examples/tests/sub"]
    );
}

#[test]
fn test_discovery_args_tokens_empty_when_unset() {
    let fw = framework("uv run pytest");
    assert!(fw.discovery_args_tokens().unwrap().is_empty());
}

#[test]
fn test_execution_command_with_run_args() {
    let fw = PytestFramework::new(PytestFrameworkConfig {
        command: "uv run pytest".to_string(),
        run_args: Some("--no-cov --timeout=30".to_string()),
        ..Default::default()
    })
    .unwrap();
    let record = TestRecord::new("tests/test_a.py::test_one", "test-group");
    let tests = vec![TestInstance::new(&record)];
    let cmd = fw.produce_test_execution_command(&tests, "/tmp/junit.xml", false);
    assert_eq!(cmd.program, "uv");
    assert!(cmd.args.contains(&"--no-cov".to_string()));
    assert!(cmd.args.contains(&"--timeout=30".to_string()));
    assert!(cmd.args.contains(&"tests/test_a.py::test_one".to_string()));
}

#[test]
fn test_execution_command_excludes_discovery_args() {
    let fw = PytestFramework::new(PytestFrameworkConfig {
        command: "python -m pytest".to_string(),
        discovery_args: Some("--no-cov".to_string()),
        ..Default::default()
    })
    .unwrap();
    let record = TestRecord::new("tests/test_a.py::test_one", "grp");
    let tests = vec![TestInstance::new(&record)];
    let cmd = fw.produce_test_execution_command(&tests, "/tmp/junit.xml", false);
    assert!(!cmd.args.contains(&"--no-cov".to_string()));
    assert!(!cmd.args.contains(&"--collect-only".to_string()));
}

#[test]
fn test_execution_command_fail_fast() {
    let fw = framework("python -m pytest");
    let record = TestRecord::new("tests/test_a.py::test_one", "grp");
    let tests = vec![TestInstance::new(&record)];

    let cmd = fw.produce_test_execution_command(&tests, "/tmp/junit.xml", true);
    assert!(cmd.args.contains(&"-x".to_string()));

    let cmd_no = fw.produce_test_execution_command(&tests, "/tmp/junit.xml", false);
    assert!(!cmd_no.args.contains(&"-x".to_string()));
}

#[test]
fn test_execution_command_attaches_env_and_prepend_path() {
    let fw = PytestFramework::new(PytestFrameworkConfig {
        command: "python -m pytest".to_string(),
        env: map(&[("VIRTUAL_ENV", "{root}/.venv")]),
        prepend_path: Some(vec![".venv/bin".to_string()]),
        ..Default::default()
    })
    .unwrap();
    let record = TestRecord::new("tests/test_a.py::test_one", "grp");
    let tests = vec![TestInstance::new(&record)];

    let cmd = fw.produce_test_execution_command(&tests, "/tmp/junit.xml", false);

    assert_eq!(
        cmd.env,
        vec![("VIRTUAL_ENV".to_string(), "{root}/.venv".to_string())]
    );
    assert_eq!(cmd.prepend_path, vec![".venv/bin".to_string()]);
}

#[test]
fn test_execution_command_default_env_and_prepend_path_empty() {
    let fw = framework("python -m pytest");
    let record = TestRecord::new("tests/test_a.py::test_one", "grp");
    let tests = vec![TestInstance::new(&record)];

    let cmd = fw.produce_test_execution_command(&tests, "/tmp/junit.xml", false);

    assert!(cmd.env.is_empty());
    assert!(cmd.prepend_path.is_empty());
}

#[test]
fn execution_command_has_all_its_words_in_order() {
    let fw = framework("python -m pytest");
    let record = TestRecord::new("t.py::a", "grp");
    let cmd = fw.produce_test_execution_command(&[TestInstance::new(&record)], "/r.xml", true);
    assert_eq!(
        cmd.args,
        vec!["-m", "pytest", "-v", "--tb=short", "--junitxml=/r.xml", "-x", "t.py::a"]
    );
    assert_eq!(fw.report_format(), "xml");
}

#[test]
fn collection_output_names_tests() {
    let fw = framework("pytest");
    let out = "a.py::t1\n  b.py::t2  \n<Module a.py::x>\n2 tests collected in 0.1s\nerror in c.py::t3 here\n";
    let tests = fw.parse_collect_output(out, "g");
    let ids: Vec<&str> = tests.iter().map(|t| t.id.as_str()).collect();
    assert_eq!(ids, vec!["a.py::t1", "b.py::t2"]);
    assert!(tests.iter().all(|t| t.group == "g"));
}

#[test]
fn discovery_command_has_the_paths_last() {
    let fw = framework("pytest");
    let cmd = fw
        .discovery_command(&vec!["x".to_string()], "-k foo", &context())
        .unwrap();
    assert_eq!(cmd.args, vec!["--collect-only", "-q", "-k", "foo", "x"]);
    let err = fw.discovery_command(&Vec::new(), "-k 'foo", &context()).unwrap_err();
    assert_eq!(
        err.message(),
        "Failed to discover tests: Invalid filter string '-k 'foo': missing closing quote"
    );
}

#[test]
fn words_in_quotes_stay_together() {
    assert_eq!(split_args("x", "a 'b c' d").unwrap(), vec!["a", "b c", "d"]);
}

#[test]
fn python_path_puts_scripts_first() {
    assert_eq!(build_pythonpath("/s", Some("/a:/b")).unwrap(), "/s:/a:/b");
    assert_eq!(build_pythonpath("/s", None).unwrap(), "/s");
    assert!(build_pythonpath("/s:x", None).is_err());
}

#[test]
fn groups_with_unknown_filters_are_discovered_alone() {
    let mut groups = StrMap::new();
    groups.insert(
        "a".to_string(),
        GroupConfig { filters: "-m fast".to_string(), ..Default::default() },
    );
    groups.insert(
        "b".to_string(),
        GroupConfig { filters: "--no-cov".to_string(), ..Default::default() },
    );
    let plan = plan_discovery(&groups);
    assert_eq!(plan.pool.len(), 1);
    assert_eq!(plan.pool[0].0, "a");
    assert_eq!(plan.legacy, vec!["b".to_string()]);
    let (hoisted, specs) = plan_pool(&plan.pool);
    assert_eq!(hoisted, vec!["-m", "fast"]);
    assert_eq!(specs.len(), 1);
}

#[test]
fn pytest_cases_are_resolved_up_to_the_first_unknown() {
    let fw = framework("pytest");
    let case = |n: &str| TestcaseXml {
        name: n.to_string(),
        classname: Some("c".to_string()),
        failure: None,
        error: None,
    };
    let mut cases = vec![case("a"), case("b"), case("c")];
    let matched = vec![
        Ok("t.py::a".to_string()),
        Err("no match".to_string()),
        Ok("t.py::c".to_string()),
    ];
    let err = fw.resolve_test_ids(&mut cases, &matched).unwrap_err();
    assert_eq!(
        err.message(),
        "Framework error: Failed to resolve JUnit testcase: no match"
    );
    assert_eq!(cases[0].name, "t.py::a");
    assert_eq!(cases[0].classname, None);
    assert_eq!(cases[1].name, "b");
    assert_eq!(cases[2].classname, Some("c".to_string()));
}

#[test]
fn a_single_pass_without_a_report_is_an_error() {
    let fw = framework("pytest");
    let report = "{\"groups\": {}}\n".to_string();
    assert_eq!(
        fw.partition_output(Some(report.clone()), "exit status: 1", "x").expect("a report"),
        report
    );
    for written in [None, Some(" \n".to_string())] {
        match fw.partition_output(written, "exit status: 4", "no plugin") {
            Err(FrameworkError::DiscoveryFailed(m)) => assert_eq!(
                m,
                "offload_partition produced no usable output (exit status: 4): no plugin"
            ),
            other => panic!("unexpected: {:?}", other),
        }
    }
}

#[test]
fn the_pool_is_discovered_one_by_one_where_the_pass_failed() {
    let mut groups = StrMap::new();
    for (name, filters) in [("a", "-m x"), ("b", "--strict"), ("c", ""), ("d", "-m")] {
        let group = GroupConfig { filters: filters.to_string(), ..Default::default() };
        groups.insert(name.to_string(), group);
    }
    let plan = plan_discovery(&groups);
    assert_eq!(groups_alone(&plan, true), vec!["b", "d"]);
    assert_eq!(groups_alone(&plan, false), vec!["b", "d", "a", "c"]);
}
