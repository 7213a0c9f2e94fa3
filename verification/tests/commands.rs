use offload::config::{
    finish_config, DefaultFrameworkConfig, FrameworkConfig, GroupConfig, LocalProviderConfig,
    ModalProviderConfig, ProviderConfig,
};
use offload::framework::TestRecord;
use offload::generate_run_id;
use offload::base62_text;
use offload::orchestrator::{
    expand_instances, expected_unique_ids, group_averages, plan_run, report_mismatch, summarize,
    RunResult,
};
use offload::report::{apply_ids, FailureXml, TestcaseXml};
use offload::run::init::{config_file, init_config};
use offload::run::listing::{
    add_group, config_summary, count_line, fail_fast_warning, framework_type_name, group_listing,
    provider_label, provider_type_name,
};
use offload::run::logs::show_logs;
use offload::run::{
    extend_env, parse_copy_dirs, parse_env_vars, sandbox_config, setup_run, RunKind, RunOptions,
};
use offload::strmap::StrMap;

fn strings(v: &[&str]) -> Vec<String> {
    v.iter().map(|t| t.to_string()).collect()
}

#[test]
fn copy_directives_split_at_the_first_colon() {
    let dirs = parse_copy_dirs(&strings(&["/a:/b", "x:y:z"])).unwrap();
    assert_eq!(dirs[0].local, "/a");
    assert_eq!(dirs[0].remote, "/b");
    assert_eq!(dirs[1].remote, "y:z");
    assert_eq!(
        parse_copy_dirs(&strings(&["/a:/b", "bad"])).unwrap_err(),
        "Invalid copy-dir format: 'bad'. Expected format: /local/path:/sandbox/path"
    );
}

#[test]
fn environment_arguments_are_assignments() {
    let (env, ignored) = parse_env_vars(&strings(&["A=1", "junk", "B=x=y", "A=2"]));
    assert_eq!(env.get("A").map(String::as_str), Some("2"));
    assert_eq!(env.get("B").map(String::as_str), Some("x=y"));
    assert_eq!(ignored, vec!["junk"]);
    let mut base: StrMap<String> = StrMap::new();
    base.insert("A".to_string(), "0".to_string());
    base.insert("C".to_string(), "3".to_string());
    extend_env(&mut base, &env);
    assert_eq!(base.get("A").map(String::as_str), Some("2"));
    assert_eq!(base.get("C").map(String::as_str), Some("3"));
}

fn options() -> RunOptions {
    RunOptions {
        parallel: Some(3),
        collect_only: false,
        copy_dirs: strings(&["/l:/r"]),
        env_vars: strings(&["K=V"]),
        no_cache: false,
    }
}

#[test]
fn runs_are_set_up_from_options() {
    let config = init_config("local", "pytest").unwrap();
    let setup = setup_run(config, &options()).unwrap();
    assert_eq!(setup.config.offload.max_parallel, 3);
    assert_eq!(setup.kind, RunKind::Local);
    assert_eq!(setup.copy_dirs.len(), 1);
    match &setup.config.provider {
        ProviderConfig::Local(c) => assert_eq!(c.env.get("K").map(String::as_str), Some("V")),
        _ => panic!("unexpected provider"),
    }
    let sandbox = sandbox_config(
        "box",
        &setup.config.offload,
        vec![("K".to_string(), "V".to_string())],
        &setup.copy_dirs,
    );
    assert_eq!(sandbox.env[1], ("OFFLOAD_ROOT".to_string(), "/app".to_string()));
    assert_eq!(sandbox.copy_dirs, vec![("/l".to_string(), "/r".to_string())]);

    let remote = setup_run(init_config("default", "nextest").unwrap(), &options()).unwrap();
    assert_eq!(remote.kind, RunKind::Prepared { resolve_cache: true });
    let mut bad = options();
    bad.copy_dirs = strings(&["nope"]);
    assert!(setup_run(init_config("local", "pytest").unwrap(), &bad).is_err());
}

#[test]
fn unknown_choices_are_refused() {
    assert_eq!(
        init_config("cloud", "pytest").unwrap_err(),
        "Unknown provider: cloud. Use: local, default"
    );
    assert_eq!(
        init_config("local", "junit").unwrap_err(),
        "Unknown framework: junit. Use: pytest, nextest, vitest, default"
    );
    assert_eq!(config_file("x"), "# offload configuration file\n\nx");
}

#[test]
fn configurations_are_summarised() {
    let lines = config_summary(&init_config("local", "vitest").unwrap());
    assert_eq!(
        lines,
        vec![
            "Configuration is valid!",
            "",
            "Settings:",
            "  Max parallel: 10",
            "  Test timeout: 900s",
            "  Provider: local",
            "  Framework: vitest",
            "",
            "Groups:",
            "  default: retry_count = 0",
        ]
    );
}

#[test]
fn tests_are_listed_by_group() {
    let mut all = Vec::new();
    let group = GroupConfig { retry_count: 2, schedule_individual: true, ..Default::default() };
    add_group(&mut all, vec![TestRecord::new("a", "g"), TestRecord::new("b", "g")], &group);
    assert_eq!(all[1].retry_count, 2);
    assert!(all[1].schedule_individual);
    let mut groups = StrMap::new();
    groups.insert("empty".to_string(), GroupConfig::default());
    groups.insert("g".to_string(), group);
    assert_eq!(group_listing(&all, &groups), vec!["\nGroup 'g':", "  a", "  b"]);
    assert_eq!(count_line("Total: ", 2, 1, "."), "Total: 2 tests across 1 groups.");
}

#[test]
fn names_of_settings() {
    let framework = FrameworkConfig::Default(DefaultFrameworkConfig {
        discover_command: String::new(),
        run_command: String::new(),
        result_file: None,
        working_dir: None,
        test_id_format: String::new(),
        affinity_key_regex: None,
    });
    assert_eq!(framework_type_name(&framework), "default");
    assert!(fail_fast_warning(&framework, true).is_some());
    assert!(fail_fast_warning(&framework, false).is_none());
    let provider = ProviderConfig::Local(LocalProviderConfig::default());
    assert_eq!(provider_type_name(&provider), "local");
    let modal = ProviderConfig::Modal(ModalProviderConfig {
        dockerfile: None,
        include_cwd: false,
        copy_dirs: vec![],
        env: StrMap::new(),
    });
    assert_eq!(provider_label(&modal), "Modal");
}

fn case(name: &str, failure: Option<&str>) -> TestcaseXml {
    TestcaseXml {
        name: name.to_string(),
        classname: None,
        failure: failure.map(|m| FailureXml {
            message: Some(m.to_string()),
            content: "trace".to_string(),
        }),
        error: None,
    }
}

#[test]
fn logs_show_one_result_for_a_name() {
    let cases = vec![case("b", None), case("a", Some("broke")), case("a", None)];
    let all = show_logs(&cases, false, false, &vec![], None).unwrap();
    let text = all.join("\n");
    let a = text.find("=== a [FAILED] ===").expect("the failure wins");
    let b = text.find("=== b [PASSED] ===").expect("passed");
    assert!(a < b);
    let failed = show_logs(&cases, true, false, &vec![], None).unwrap().join("\n");
    assert!(!failed.contains("=== b"));
    let named = show_logs(&cases, false, false, &strings(&["b"]), None).unwrap().join("\n");
    assert!(!named.contains("=== a"));
    let matched = show_logs(&cases, false, false, &vec![], Some("^a$")).unwrap().join("\n");
    assert!(matched.contains("=== a") && !matched.contains("=== b"));
    let err = show_logs(&cases, false, false, &vec![], Some("(")).unwrap_err();
    assert!(err.starts_with("Invalid --test-regex pattern: "));
}

#[test]
fn ids_are_applied_up_to_the_first_error() {
    let mut cases = vec![case("a", None), case("b", None)];
    assert_eq!(
        apply_ids(&mut cases, &vec![Ok("x".to_string()), Err("no".to_string())]),
        Err(1)
    );
    assert_eq!(cases[0].name, "x");
    assert_eq!(cases[1].name, "b");
    assert!(case("a", Some("m")).is_bad());
    assert!(!case("a", None).is_bad());
}

#[test]
fn instances_cover_retries() {
    let mut individual = TestRecord::new("i", "g").with_retry_count(1);
    individual.schedule_individual = true;
    let tests = vec![TestRecord::new("a", "g").with_retry_count(2), individual];
    let instances = expand_instances(&tests);
    let ids: Vec<&str> = instances.iter().map(|t| t.id()).collect();
    assert_eq!(ids, vec!["i", "i", "a", "a", "a"]);
    assert_eq!(expected_unique_ids(&tests), 2);
}

#[test]
fn group_averages_are_whole_numbers() {
    let tests = vec![TestRecord::new("a", "g"), TestRecord::new("b", "g"), TestRecord::new("c", "h")];
    let mut durations: StrMap<u64> = StrMap::new();
    durations.insert("a".to_string(), 10);
    durations.insert("b".to_string(), 15);
    let instances = expand_instances(&tests);
    let averages = group_averages(&instances, &durations);
    assert_eq!(averages.get("g"), Some(&12));
    assert_eq!(averages.get("h"), None);
    let plan = plan_run(&tests, &durations).unwrap();
    assert_eq!(plan.expected, 3);
    assert_eq!(plan.attempts[0], ("a".to_string(), 1));
    assert!(plan_run(&vec![], &durations).is_none());
}

#[test]
fn missing_results_are_told() {
    assert_eq!(report_mismatch(2, 2), None);
    assert_eq!(
        report_mismatch(5, 3).as_deref(),
        Some("[ORCHESTRATOR MISMATCH] Expected 5 unique test IDs but only 3 in report! 2 MISSING!")
    );
    let result = summarize(3, 1, 1, 5, 6, 9);
    assert_eq!(result.passed, 4);
    assert_eq!(result.not_run, 1);
    assert!(!result.success());
    assert_eq!(result.exit_code(), 1);
    let flaky = RunResult { failed: 0, not_run: 0, ..summarize(3, 0, 1, 4, 4, 9) };
    assert_eq!(flaky.exit_code(), 2);
}

#[test]
fn run_ids_are_four_base62_characters() {
    for _ in 0..20 {
        let id = generate_run_id();
        assert_eq!(id.len(), 4);
        assert!(id.chars().all(|c| c.is_ascii_alphanumeric()));
    }
    assert_eq!(base62_text(&vec![0, 9, 10, 35, 36, 61]), "09AZaz");
}

#[test]
fn every_started_configuration_is_valid() {
    for provider in ["local", "default"] {
        for framework in ["pytest", "cargo", "nextest", "vitest", "default"] {
            let config = init_config(provider, framework).unwrap();
            let finished = finish_config(config, &StrMap::new()).unwrap();
            assert_eq!(finished.groups.len(), 1);
        }
    }
    match init_config("local", "default").unwrap().framework {
        FrameworkConfig::Default(c) => {
            assert_eq!(c.discover_command, "echo test1 test2 {filters}");
        }
        _ => panic!("unexpected framework"),
    }
}

#[test]
fn cargo_tests_start_under_either_name() {
    for name in ["cargo", "nextest"] {
        match init_config("local", name).unwrap().framework {
            FrameworkConfig::Cargo(c) => assert_eq!(c.test_id_format, "{classname} {name}"),
            _ => panic!("unexpected framework"),
        }
    }
}
