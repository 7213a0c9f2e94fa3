//! The configuration that a new project starts with.

use vstd::prelude::*;

use crate::config::{
    config_error, finished_problem, first_env_error, framework_problem, provider_env,
    CargoFrameworkConfig, Config, DefaultFrameworkConfig, DefaultProviderConfig, FrameworkConfig,
    GroupConfig, LocalProviderConfig, OffloadConfig, ProviderConfig, PytestFrameworkConfig,
    ReportConfig, VitestFrameworkConfig,
};
use crate::config::schema::default_remote_timeout;
use crate::discovery::option_view;
use crate::strmap::StrMap;
use crate::text;
use crate::text::{matches_at, occurs};

verus! {

/// A provider that a new configuration can have.
pub open spec fn known_provider(name: Seq<char>) -> bool {
    name == "local"@ || name == "default"@
}

/// Cargo's tests, under the name of the framework or of its runner.
pub open spec fn names_cargo(name: Seq<char>) -> bool {
    name == "cargo"@ || name == "nextest"@
}

/// A framework that a new configuration can have.
pub open spec fn known_framework(name: Seq<char>) -> bool {
    name == "pytest"@ || names_cargo(name) || name == "default"@ || name == "vitest"@
}

/// The provider settings that a new configuration starts with.
pub open spec fn starts_provider(name: Seq<char>, p: ProviderConfig) -> bool {
    if name == "local"@ {
        p matches ProviderConfig::Local(c) && option_view(c.working_dir) == Some("."@) && c.shell@
            == "/bin/sh"@ && c.env.entries@.len() == 0
    } else {
        p matches ProviderConfig::Default(c) && c.create_command@ == "./scripts/create-sandbox.sh"@
            && c.exec_command@ == "./scripts/exec-sandbox.sh {sandbox_id} {command}"@
            && c.destroy_command@ == "./scripts/destroy-sandbox.sh {sandbox_id}"@
            && c.prepare_command is None && c.download_command is None && c.working_dir is None
            && c.timeout_secs == 3600 && c.copy_dirs@.len() == 0 && c.env.entries@.len() == 0
    }
}

/// The framework settings that a new configuration starts with.
pub open spec fn starts_framework(name: Seq<char>, f: FrameworkConfig) -> bool {
    if name == "pytest"@ {
        f matches FrameworkConfig::Pytest(c) && c.paths is None && c.command@ == "python -m pytest"@
            && c.test_id_format@ == "{name}"@ && c.run_args is None && c.discovery_args is None
            && c.env.entries@.len() == 0 && c.prepend_path is None
    } else if names_cargo(name) {
        f matches FrameworkConfig::Cargo(c) && c.package is None && c.features@.len() == 0
            && c.bin is None && !c.include_ignored && c.test_id_format@ == "{classname} {name}"@
    } else if name == "default"@ {
        f matches FrameworkConfig::Default(c) && c.discover_command@ == "echo test1 test2 {filters}"@
            && c.run_command@ == "echo Running {tests}"@ && c.test_id_format@ == "{name}"@
            && c.result_file is None && c.working_dir is None && c.affinity_key_regex is None
    } else {
        f matches FrameworkConfig::Vitest(c) && c.command@ == "npx vitest"@ && c.run_args is None
            && c.test_id_format@ == "{classname} > {name}"@
    }
}

fn initial_provider(name: &str) -> (r: Option<ProviderConfig>)
    ensures
        match r {
            Some(p) => known_provider(name@) && starts_provider(name@, p),
            None => !known_provider(name@),
        },
{
    proof {
        reveal_strlit("local");
        reveal_strlit("default");
        assert("local"@.len() != "default"@.len());
    }
    if text::same(name, "local") {
        let mut c = LocalProviderConfig::default();
        c.working_dir = Some(".".to_owned());
        Some(ProviderConfig::Local(c))
    } else if text::same(name, "default") {
        Some(
            ProviderConfig::Default(
                DefaultProviderConfig {
                    create_command: "./scripts/create-sandbox.sh".to_owned(),
                    exec_command: "./scripts/exec-sandbox.sh {sandbox_id} {command}".to_owned(),
                    destroy_command: "./scripts/destroy-sandbox.sh {sandbox_id}".to_owned(),
                    prepare_command: None,
                    download_command: None,
                    working_dir: None,
                    timeout_secs: default_remote_timeout(),
                    copy_dirs: Vec::new(),
                    env: StrMap::new(),
                },
            ),
        )
    } else {
        None
    }
}

fn initial_framework(name: &str) -> (r: Option<FrameworkConfig>)
    ensures
        match r {
            Some(f) => known_framework(name@) && starts_framework(name@, f),
            None => !known_framework(name@),
        },
{
    if text::same(name, "pytest") {
        Some(FrameworkConfig::Pytest(PytestFrameworkConfig::default()))
    } else if text::same(name, "cargo") || text::same(name, "nextest") {
        Some(FrameworkConfig::Cargo(CargoFrameworkConfig::default()))
    } else if text::same(name, "default") {
        Some(
            FrameworkConfig::Default(
                DefaultFrameworkConfig {
                    discover_command: "echo test1 test2 {filters}".to_owned(),
                    run_command: "echo Running {tests}".to_owned(),
                    result_file: None,
                    working_dir: None,
                    test_id_format: "{name}".to_owned(),
                    affinity_key_regex: None,
                },
            ),
        )
    } else if text::same(name, "vitest") {
        Some(FrameworkConfig::Vitest(VitestFrameworkConfig::default()))
    } else {
        None
    }
}

/// The settings that any framework starts with are accepted.
proof fn started_framework_is_accepted(name: Seq<char>, f: FrameworkConfig)
    requires
        starts_framework(name, f),
    ensures
        framework_problem(f) is None,
{
    let command = "echo test1 test2 {filters}"@;
    reveal_strlit("echo test1 test2 {filters}");
    reveal_strlit("{filters}");
    assert(command.subrange(17, 26) =~= "{filters}"@);
    assert(matches_at(command, "{filters}"@, 17));
    assert(occurs(command, "{filters}"@));
}

/// The configuration that a new project starts with: ten parallel sandboxes,
/// fifteen minutes for a test, and one group without retries. It is valid as
/// it stands, and loads in any environment. A provider or a framework that is
/// not known is an error, the provider first.
pub fn init_config(provider: &str, framework: &str) -> (r: Result<Config, String>)
    ensures
        if !known_provider(provider@) {
            r matches Err(e) && e@ == "Unknown provider: "@ + provider@ + ". Use: local, default"@
        } else if !known_framework(framework@) {
            r matches Err(e) && e@ == "Unknown framework: "@ + framework@
                + ". Use: pytest, nextest, vitest, default"@
        } else {
            &&& r matches Ok(c)
            &&& c.offload.max_parallel == 10
            &&& c.offload.test_timeout_secs == 900
            &&& c.offload.working_dir is None
            &&& c.offload.sandbox_project_root@ == "/app"@
            &&& c.offload.sandbox_init_cmd is None
            &&& c.offload.sandbox_repo_root is None
            &&& starts_provider(provider@, c.provider)
            &&& starts_framework(framework@, c.framework)
            &&& c.groups.entries@.len() == 1
            &&& c.groups.entries@[0].0@ == "default"@
            &&& c.groups.entries@[0].1.retry_count == 0
            &&& c.groups.entries@[0].1.filters@.len() == 0
            &&& !c.groups.entries@[0].1.schedule_individual
            &&& c.report.output_dir@ == "test-results"@
            &&& c.report.junit
            &&& c.report.junit_file@ == "junit.xml"@
            &&& c.checkpoint is None
            &&& config_error(c) is None
            &&& finished_problem(c) is None
            &&& forall|env: Map<Seq<char>, String>|
                #[trigger] first_env_error(provider_env(c.provider).entries@, env, 0) is None
        },
{
    let p = match initial_provider(provider) {
        Some(p) => p,
        None => {
            let mut e = "Unknown provider: ".to_owned();
            e.append(provider);
            e.append(". Use: local, default");
            return Err(e);
        },
    };
    let f = match initial_framework(framework) {
        Some(f) => f,
        None => {
            let mut e = "Unknown framework: ".to_owned();
            e.append(framework);
            e.append(". Use: pytest, nextest, vitest, default");
            return Err(e);
        },
    };
    proof {
        started_framework_is_accepted(framework@, f);
    }
    let mut groups: StrMap<GroupConfig> = StrMap::new();
    groups.insert("default".to_owned(), GroupConfig::default());
    Ok(
        Config {
            offload: OffloadConfig {
                max_parallel: 10,
                test_timeout_secs: 900,
                working_dir: None,
                sandbox_project_root: "/app".to_owned(),
                sandbox_init_cmd: None,
                sandbox_repo_root: None,
            },
            provider: p,
            framework: f,
            groups,
            report: ReportConfig::default(),
            checkpoint: None,
        },
    )
}

/// The text of a configuration file.
pub fn config_file(settings: &str) -> (r: String)
    ensures
        r@ == "# offload configuration file\n\n"@ + settings@,
{
    let mut s = "# offload configuration file\n\n".to_owned();
    s.append(settings);
    s
}

} // verus!
