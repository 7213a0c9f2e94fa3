use offload::config::{
    expand_env_value, finish_config, format_test_id, normalize_path, validate_config,
    CargoFrameworkConfig, CheckpointConfig, Config, DefaultFrameworkConfig, FrameworkConfig,
    GroupConfig, LocalProviderConfig, ModalProviderConfig, OffloadConfig, ProviderConfig,
    PytestFrameworkConfig, ReportConfig,
};
use offload::strmap::StrMap;

fn environment() -> StrMap<String> {
    let mut env = StrMap::new();
    env.insert("HOME".to_string(), "/home/user".to_string());
    env
}

fn base(provider: ProviderConfig, framework: FrameworkConfig) -> Config {
    let mut groups = StrMap::new();
    groups.insert("all".to_string(), GroupConfig { retry_count: 0, ..Default::default() });
    Config {
        offload: OffloadConfig {
            max_parallel: 4,
            test_timeout_secs: 900,
            working_dir: None,
            sandbox_project_root: "/app".to_string(),
            sandbox_init_cmd: None,
            sandbox_repo_root: None,
        },
        provider,
        framework,
        groups,
        report: ReportConfig::default(),
        checkpoint: None,
    }
}

fn local() -> ProviderConfig {
    ProviderConfig::Local(LocalProviderConfig::default())
}

fn modal(dockerfile: Option<&str>) -> ProviderConfig {
    ProviderConfig::Modal(ModalProviderConfig {
        dockerfile: dockerfile.map(str::to_string),
        include_cwd: false,
        copy_dirs: vec![],
        env: StrMap::new(),
    })
}

fn nextest() -> FrameworkConfig {
    FrameworkConfig::Cargo(CargoFrameworkConfig::default())
}

fn default_framework(discover_command: &str) -> FrameworkConfig {
    FrameworkConfig::Default(DefaultFrameworkConfig {
        discover_command: discover_command.to_string(),
        run_command: "echo {tests}".to_string(),
        result_file: None,
        working_dir: None,
        test_id_format: "{name}".to_string(),
        affinity_key_regex: None,
    })
}

fn with_inputs(mut config: Config, inputs: &[&str]) -> Config {
    config.checkpoint = Some(CheckpointConfig {
        build_inputs: inputs.iter().map(|s| s.to_string()).collect(),
    });
    config
}

fn load(config: Config) -> Result<Config, String> {
    finish_config(config, &environment())
}

#[test]
fn test_config_with_empty_groups_returns_error() {
    let mut config = base(local(), FrameworkConfig::Pytest(PytestFrameworkConfig::default()));
    config.groups = StrMap::new();
    let result = load(config);
    assert!(result.is_err(), "Expected error for empty groups");
    let err_msg = result.unwrap_err();
    assert!(
        err_msg.contains("at least one group"),
        "Error message should mention requiring at least one group, got: {err_msg}"
    );
}

#[test]
fn test_default_framework_missing_filters_placeholder_returns_error() {
    let result = load(base(local(), default_framework("echo test1 test2")));
    assert!(result.is_err(), "Expected error for missing {{filters}} placeholder");
    let err_msg = result.unwrap_err();
    assert!(
        err_msg.contains("{filters}"),
        "Error message should mention {{filters}} placeholder, got: {err_msg}"
    );
}

#[test]
fn test_default_framework_with_filters_placeholder_succeeds() {
    let result = load(base(local(), default_framework("echo test1 test2 {filters}")));
    assert!(
        result.is_ok(),
        "Expected success with {{filters}} placeholder: {:?}",
        result.err()
    );
}

#[test]
fn test_expand_env_value_no_variables() {
    assert_eq!(expand_env_value("hello world", &environment()).unwrap(), "hello world");
}

#[test]
fn test_expand_env_value_escaped_dollar() {
    assert_eq!(expand_env_value("price is $$100", &environment()).unwrap(), "price is $100");
}

#[test]
fn test_expand_env_value_multiple_escaped_dollars() {
    assert_eq!(expand_env_value("$$$$", &environment()).unwrap(), "$$");
}

#[test]
fn test_expand_env_value_literal_dollar_no_brace() {
    assert_eq!(expand_env_value("$x and $y", &environment()).unwrap(), "$x and $y");
}

#[test]
fn test_expand_env_value_empty_var_name() {
    let result = expand_env_value("${}", &environment());
    assert!(
        matches!(&result, Err(e) if e.contains("Empty variable name")),
        "expected error about empty variable name, got: {result:?}"
    );
}

#[test]
fn test_expand_env_value_unclosed_brace() {
    let result = expand_env_value("${VAR", &environment());
    assert!(
        matches!(&result, Err(e) if e.contains("Unclosed variable reference")),
        "expected error about unclosed brace, got: {result:?}"
    );
}

#[test]
fn test_expand_env_value_var_set() {
    let result = expand_env_value("${HOME}", &environment()).unwrap();
    assert!(!result.is_empty(), "HOME should expand to non-empty value");
    assert_eq!(result, "/home/user");
}

#[test]
fn test_expand_env_value_var_unset() {
    let result = expand_env_value("${_OFFLOAD_TEST_NONEXISTENT_VAR}", &environment());
    assert!(result.is_err(), "Unset var should return error");
}

#[test]
fn test_expand_env_value_default_not_used_when_set() {
    let result = expand_env_value("${HOME:-fallback}", &environment()).unwrap();
    assert_ne!(result, "fallback", "Should return HOME value, not fallback");
    assert!(!result.is_empty());
}

#[test]
fn test_expand_env_value_default_used_when_unset() {
    let result = expand_env_value("${_OFFLOAD_TEST_MISSING:-fallback}", &environment()).unwrap();
    assert_eq!(result, "fallback");
}

#[test]
fn test_expand_env_value_just_escaped_dollar() {
    assert_eq!(expand_env_value("$$", &environment()).unwrap(), "$");
}

#[test]
fn test_expand_env_value_mixed() {
    let result = expand_env_value("prefix_${HOME}_suffix", &environment()).unwrap();
    assert!(result.starts_with("prefix_"), "Should start with prefix_");
    assert!(result.ends_with("_suffix"), "Should end with _suffix");
    assert!(result.len() > "prefix__suffix".len(), "Should contain HOME value");
}

#[test]
fn test_expand_env_value_empty_default() {
    let result = expand_env_value("${_OFFLOAD_TEST_MISSING:-}", &environment()).unwrap();
    assert_eq!(result, "");
}

#[test]
fn test_checkpoint_empty_build_inputs_returns_error() {
    let result = load(with_inputs(base(modal(None), nextest()), &[]));
    assert!(result.is_err(), "Expected error for empty build_inputs");
    let err_msg = result.unwrap_err();
    assert!(
        err_msg.contains("build_inputs"),
        "Error should mention build_inputs, got: {err_msg}"
    );
}

#[test]
fn test_checkpoint_with_local_provider_returns_error() {
    let result = load(with_inputs(base(local(), nextest()), &["Dockerfile"]));
    assert!(result.is_err(), "Expected error for checkpoint with local provider");
    let err_msg = result.unwrap_err();
    assert!(
        err_msg.contains("local provider"),
        "Error should mention local provider, got: {err_msg}"
    );
}

#[test]
fn test_checkpoint_with_modal_provider_succeeds() {
    let result = load(with_inputs(base(modal(None), nextest()), &["Dockerfile"]));
    assert!(
        result.is_ok(),
        "Expected success for checkpoint with modal provider: {:?}",
        result.err()
    );
}

#[test]
fn test_checkpoint_auto_includes_modal_dockerfile() {
    let config =
        load(with_inputs(base(modal(Some("infra/Dockerfile")), nextest()), &["requirements.txt"]))
            .unwrap();
    let checkpoint = config.checkpoint.expect("checkpoint should be set");
    assert_eq!(
        checkpoint.build_inputs,
        vec!["infra/Dockerfile", "requirements.txt"],
        "Dockerfile from modal provider should be prepended to build_inputs"
    );
}

#[test]
fn test_checkpoint_auto_include_skips_if_already_present() {
    let config = load(with_inputs(
        base(modal(Some("Dockerfile")), nextest()),
        &["Dockerfile", "requirements.txt"],
    ))
    .unwrap();
    let checkpoint = config.checkpoint.expect("checkpoint should be set");
    assert_eq!(
        checkpoint.build_inputs,
        vec!["Dockerfile", "requirements.txt"],
        "Should not duplicate Dockerfile when already present"
    );
}

#[test]
fn test_checkpoint_modal_dockerfile_alone_suffices() {
    let config = load(with_inputs(base(modal(Some("Dockerfile")), nextest()), &[])).unwrap();
    let checkpoint = config.checkpoint.expect("checkpoint should be set");
    assert_eq!(
        checkpoint.build_inputs,
        vec!["Dockerfile"],
        "Dockerfile from modal provider should make empty build_inputs valid"
    );
}

#[test]
fn repeated_build_inputs_are_refused() {
    let config = with_inputs(base(modal(None), nextest()), &["./a", "b", "a"]);
    assert!(validate_config(&config).is_err());
}

#[test]
fn provider_environments_are_expanded() {
    let mut env = StrMap::new();
    env.insert("A".to_string(), "${HOME}/x".to_string());
    let provider = ProviderConfig::Local(LocalProviderConfig { env, ..Default::default() });
    let config = load(base(provider, nextest())).unwrap();
    match config.provider {
        ProviderConfig::Local(c) => {
            assert_eq!(c.env.get("A").map(String::as_str), Some("/home/user/x"))
        }
        _ => panic!("unexpected provider"),
    }
}

#[test]
fn test_ids_are_formatted_from_names() {
    assert_eq!(format_test_id("{classname} > {name}", "n", Some("c")), "c > n");
    assert_eq!(format_test_id("{classname} > {name}", "n", None), " > n");
    assert_eq!(normalize_path("./a/./b"), "a/b");
}
