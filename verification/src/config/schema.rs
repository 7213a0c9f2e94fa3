//! The types of a configuration and their default values.

use vstd::prelude::*;

use crate::strmap::StrMap;
use crate::text::views;

verus! {

/// The configuration of a run.
#[derive(Debug)]
pub struct Config {
    /// Core settings.
    pub offload: OffloadConfig,
    /// Where tests run.
    pub provider: ProviderConfig,
    /// How tests are found and run.
    pub framework: FrameworkConfig,
    /// The groups of tests, by name.
    pub groups: StrMap<GroupConfig>,
    /// Where results go.
    pub report: ReportConfig,
    /// Checkpoint image caching.
    pub checkpoint: Option<CheckpointConfig>,
}

/// Core settings of a run.
#[derive(Debug)]
pub struct OffloadConfig {
    /// Maximum number of parallel sandboxes.
    pub max_parallel: usize,
    /// Time limit for a test in seconds.
    pub test_timeout_secs: u64,
    /// Working directory in the sandbox.
    pub working_dir: Option<String>,
    /// The project's root in the sandbox.
    pub sandbox_project_root: String,
    /// Command to run when a sandbox image is built.
    pub sandbox_init_cmd: Option<String>,
    /// The repository's root in the sandbox.
    pub sandbox_repo_root: Option<String>,
}

/// Core settings of the discoverer-based executor.
#[derive(Debug)]
pub struct ShotgunConfig {
    /// Maximum number of parallel sandboxes.
    pub max_parallel: usize,
    /// Time limit for a test in seconds.
    pub test_timeout_secs: u64,
    /// Retries for each failed test.
    pub retry_count: usize,
    /// Working directory for test execution.
    pub working_dir: Option<String>,
    /// Whether to stream test output as it comes.
    pub stream_output: bool,
}

/// Ten parallel sandboxes.
pub fn default_max_parallel() -> (r: usize)
    ensures
        r == 10,
{
    10
}

/// Fifteen minutes.
pub fn default_test_timeout() -> (r: u64)
    ensures
        r == 900,
{
    900
}

/// Three retries.
pub fn default_retry_count() -> (r: usize)
    ensures
        r == 3,
{
    3
}

impl Default for ShotgunConfig {
    fn default() -> (r: Self)
        ensures
            r.max_parallel == 10,
            r.test_timeout_secs == 900,
            r.retry_count == 3,
            r.working_dir is None,
            !r.stream_output,
    {
        ShotgunConfig {
            max_parallel: default_max_parallel(),
            test_timeout_secs: default_test_timeout(),
            retry_count: default_retry_count(),
            working_dir: None,
            stream_output: false,
        }
    }
}

/// Where tests run.
#[derive(Debug)]
pub enum ProviderConfig {
    /// Local processes.
    Local(LocalProviderConfig),
    /// Docker containers.
    Docker(DockerProviderConfig),
    /// Custom commands.
    Default(DefaultProviderConfig),
    /// Modal sandboxes.
    Modal(ModalProviderConfig),
}

/// Configuration for the local process provider.
#[derive(Debug)]
pub struct LocalProviderConfig {
    /// Working directory for spawned processes.
    pub working_dir: Option<String>,
    /// Environment variables to set for all test processes.
    pub env: StrMap<String>,
    /// Shell to use for running commands.
    pub shell: String,
}

/// The standard shell.
pub fn default_shell() -> (r: String)
    ensures
        r@ == "/bin/sh"@,
{
    "/bin/sh".to_owned()
}

impl Default for LocalProviderConfig {
    fn default() -> (r: Self)
        ensures
            r.working_dir is None,
            r.env.well_formed(),
            r.env.entries@.len() == 0,
            r.shell@ == "/bin/sh"@,
    {
        LocalProviderConfig { working_dir: None, env: StrMap::new(), shell: default_shell() }
    }
}

/// Configuration for the Docker provider, but for its CPU limit.
#[derive(Debug)]
pub struct DockerProviderConfig {
    /// The image to run.
    pub image: String,
    /// Volumes to mount.
    pub volumes: Vec<String>,
    /// Environment variables.
    pub env: StrMap<String>,
    /// Working directory in the container.
    pub working_dir: Option<String>,
    /// The network mode.
    pub network_mode: String,
    /// The Docker host.
    pub docker_host: Option<String>,
    /// The memory limit in bytes.
    pub memory_limit: Option<i64>,
    /// The memory and swap limit in bytes.
    pub memory_swap: Option<i64>,
}

/// The bridge network.
pub fn default_network_mode() -> (r: String)
    ensures
        r@ == "bridge"@,
{
    "bridge".to_owned()
}

/// Configuration for the custom command provider, but for its CPU cores.
#[derive(Debug)]
pub struct DefaultProviderConfig {
    /// Command that creates a sandbox and prints its id.
    pub create_command: String,
    /// Command that runs a command in a sandbox.
    pub exec_command: String,
    /// Command that destroys a sandbox.
    pub destroy_command: String,
    /// Command that prepares an image and prints its id.
    pub prepare_command: Option<String>,
    /// Command that downloads a file from a sandbox.
    pub download_command: Option<String>,
    /// Working directory for the commands.
    pub working_dir: Option<String>,
    /// Time limit for a command in seconds.
    pub timeout_secs: u64,
    /// Directories to copy into sandboxes.
    pub copy_dirs: Vec<String>,
    /// Environment variables.
    pub env: StrMap<String>,
}

/// One hour.
pub fn default_remote_timeout() -> (r: u64)
    ensures
        r == 3600,
{
    3600
}

/// Configuration for the Modal provider.
#[derive(Debug)]
pub struct ModalProviderConfig {
    /// The Dockerfile of the image.
    pub dockerfile: Option<String>,
    /// Whether the working directory is part of the image.
    pub include_cwd: bool,
    /// Directories to copy into sandboxes.
    pub copy_dirs: Vec<String>,
    /// Environment variables.
    pub env: StrMap<String>,
}

/// Test discovery configuration of the discoverer-based executor.
#[derive(Debug)]
pub enum DiscoveryConfig {
    /// Python tests with pytest.
    Pytest(PytestDiscoveryConfig),
    /// Rust tests with cargo.
    Cargo(CargoDiscoveryConfig),
    /// Tests with custom shell commands.
    Default(DefaultDiscoveryConfig),
}

/// Configuration for pytest test discovery.
#[derive(Debug)]
pub struct PytestDiscoveryConfig {
    /// Directories to search for tests.
    pub paths: Vec<String>,
    /// Marker expression to filter tests.
    pub markers: Option<String>,
    /// Additional arguments for test collection.
    pub extra_args: Vec<String>,
    /// Python interpreter to use.
    pub python: String,
}

/// The directory `tests`.
pub fn default_test_paths() -> (r: Vec<String>)
    ensures
        views(r@) == seq!["tests"@],
{
    let mut v: Vec<String> = Vec::new();
    v.push("tests".to_owned());
    assert(views(v@) =~= seq!["tests"@]);
    v
}

/// The interpreter `python`.
pub fn default_python() -> (r: String)
    ensures
        r@ == "python"@,
{
    "python".to_owned()
}

impl Default for PytestDiscoveryConfig {
    fn default() -> (r: Self)
        ensures
            views(r.paths@) == seq!["tests"@],
            r.markers is None,
            r.extra_args@.len() == 0,
            r.python@ == "python"@,
    {
        PytestDiscoveryConfig {
            paths: default_test_paths(),
            markers: None,
            extra_args: Vec::new(),
            python: default_python(),
        }
    }
}

/// Configuration for cargo test discovery.
#[derive(Debug)]
pub struct CargoDiscoveryConfig {
    /// The package to test.
    pub package: Option<String>,
    /// The features to enable.
    pub features: Vec<String>,
    /// The binary target.
    pub bin: Option<String>,
    /// Whether ignored tests count.
    pub include_ignored: bool,
}

/// Configuration for discovery with shell commands.
#[derive(Debug)]
pub struct DefaultDiscoveryConfig {
    /// Command that lists test ids, one to a line.
    pub discover_command: String,
    /// Command that runs tests, with a placeholder for their ids.
    pub run_command: String,
    /// Where the results are.
    pub result_file: Option<String>,
    /// Working directory for the commands.
    pub working_dir: Option<String>,
}

/// How tests are found and run.
#[derive(Debug)]
pub enum FrameworkConfig {
    /// Python tests with pytest.
    Pytest(PytestFrameworkConfig),
    /// Rust tests with cargo nextest.
    Cargo(CargoFrameworkConfig),
    /// Tests with custom shell commands.
    Default(DefaultFrameworkConfig),
    /// JavaScript tests with vitest.
    Vitest(VitestFrameworkConfig),
}

/// Configuration of the pytest framework.
#[derive(Debug)]
pub struct PytestFrameworkConfig {
    /// Directories to search for tests.
    pub paths: Option<Vec<String>>,
    /// The command that runs pytest.
    pub command: String,
    /// Arguments for execution only.
    pub run_args: Option<String>,
    /// Arguments for discovery only.
    pub discovery_args: Option<String>,
    /// Environment variables.
    pub env: StrMap<String>,
    /// Directories to put in front of the search path.
    pub prepend_path: Option<Vec<String>>,
    /// How test ids are made from reported names.
    pub test_id_format: String,
}

impl Default for PytestFrameworkConfig {
    fn default() -> (r: Self)
        ensures
            r.paths is None,
            r.command@ == "python -m pytest"@,
            r.run_args is None,
            r.discovery_args is None,
            r.env.well_formed(),
            r.env.entries@.len() == 0,
            r.prepend_path is None,
            r.test_id_format@ == "{name}"@,
    {
        PytestFrameworkConfig {
            paths: None,
            command: "python -m pytest".to_owned(),
            run_args: None,
            discovery_args: None,
            env: StrMap::new(),
            prepend_path: None,
            test_id_format: "{name}".to_owned(),
        }
    }
}

/// Configuration of the cargo framework.
#[derive(Debug)]
pub struct CargoFrameworkConfig {
    /// The package to test.
    pub package: Option<String>,
    /// The features to enable.
    pub features: Vec<String>,
    /// The binary target.
    pub bin: Option<String>,
    /// Whether to run ignored tests, and only those.
    pub include_ignored: bool,
    /// How test ids are made from reported names.
    pub test_id_format: String,
}

impl Default for CargoFrameworkConfig {
    fn default() -> (r: Self)
        ensures
            r.package is None,
            r.features@.len() == 0,
            r.bin is None,
            !r.include_ignored,
            r.test_id_format@ == "{classname} {name}"@,
    {
        CargoFrameworkConfig {
            package: None,
            features: Vec::new(),
            bin: None,
            include_ignored: false,
            test_id_format: "{classname} {name}".to_owned(),
        }
    }
}

/// Configuration of the framework with custom commands.
#[derive(Debug)]
pub struct DefaultFrameworkConfig {
    /// Command that lists test ids, with a placeholder for filters.
    pub discover_command: String,
    /// Command that runs tests, with a placeholder for their ids.
    pub run_command: String,
    /// Where the results are.
    pub result_file: Option<String>,
    /// Working directory for the commands.
    pub working_dir: Option<String>,
    /// How test ids are made from reported names.
    pub test_id_format: String,
    /// Pattern that derives the affinity key from a test id.
    pub affinity_key_regex: Option<String>,
}

/// Configuration of the vitest framework.
#[derive(Debug)]
pub struct VitestFrameworkConfig {
    /// The command that runs vitest.
    pub command: String,
    /// Arguments for execution only.
    pub run_args: Option<String>,
    /// How test ids are made from reported names.
    pub test_id_format: String,
}

impl Default for VitestFrameworkConfig {
    fn default() -> (r: Self)
        ensures
            r.command@ == "npx vitest"@,
            r.run_args is None,
            r.test_id_format@ == "{classname} > {name}"@,
    {
        VitestFrameworkConfig {
            command: "npx vitest".to_owned(),
            run_args: None,
            test_id_format: "{classname} > {name}".to_owned(),
        }
    }
}

/// Settings of a group of tests.
#[derive(Debug)]
pub struct GroupConfig {
    /// Retries for each test.
    pub retry_count: usize,
    /// Filter arguments for discovery.
    pub filters: String,
    /// Whether each test runs in a batch of its own.
    pub schedule_individual: bool,
}

impl Default for GroupConfig {
    fn default() -> (r: Self)
        ensures
            r.retry_count == 0,
            r.filters@.len() == 0,
            !r.schedule_individual,
    {
        GroupConfig { retry_count: 0, filters: String::new(), schedule_individual: false }
    }
}

/// Configuration for test result reporting.
#[derive(Debug)]
pub struct ReportConfig {
    /// Directory where report files are written.
    pub output_dir: String,
    /// Whether to generate a JUnit report.
    pub junit: bool,
    /// Filename of the JUnit report.
    pub junit_file: String,
}

/// The directory `test-results`.
pub fn default_report_dir() -> (r: String)
    ensures
        r@ == "test-results"@,
{
    "test-results".to_owned()
}

/// Yes.
pub fn default_true() -> (r: bool)
    ensures
        r,
{
    true
}

/// The file `junit.xml`.
pub fn default_junit_file() -> (r: String)
    ensures
        r@ == "junit.xml"@,
{
    "junit.xml".to_owned()
}

impl Default for ReportConfig {
    fn default() -> (r: Self)
        ensures
            r.output_dir@ == "test-results"@,
            r.junit,
            r.junit_file@ == "junit.xml"@,
    {
        ReportConfig {
            output_dir: default_report_dir(),
            junit: default_true(),
            junit_file: default_junit_file(),
        }
    }
}

/// Configuration of checkpoint image caching.
#[derive(Debug)]
pub struct CheckpointConfig {
    /// The files whose changes make a new checkpoint.
    pub build_inputs: Vec<String>,
}

/// What a sandbox is created with.
#[derive(Debug)]
pub struct SandboxConfig {
    /// The sandbox's id.
    pub id: String,
    /// Working directory in the sandbox.
    pub working_dir: Option<String>,
    /// Environment variables.
    pub env: Vec<(String, String)>,
    /// Directories to copy into the sandbox.
    pub copy_dirs: Vec<(String, String)>,
}

} // verus!
