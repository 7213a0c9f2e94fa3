use offload::bundled::{
    cache_dir, expand_command, expand_matches, has_references, BundledError, Platform,
};
use offload::patterns::Found;
use offload::cache::{compute_hash, ImageCache, ImageCacheEntry};
use offload::connector::ShellConnector;
use offload::provider::ProviderError;
use offload::strmap::StrMap;

fn entry(id: &str, hash: Option<&str>, created_at: &str, image_type: &str) -> ImageCacheEntry {
    ImageCacheEntry {
        image_id: id.to_string(),
        dockerfile_hash: hash.map(str::to_string),
        created_at: created_at.to_string(),
        image_type: image_type.to_string(),
    }
}

#[test]
fn test_empty_cache_load() {
    let cache = ImageCache::load(None);
    assert!(cache.entries.is_empty());
}

#[test]
fn test_cache_save_and_load() {
    let mut cache = ImageCache::default();
    cache.insert(
        "default".to_string(),
        entry("im-abc123", None, "2024-01-01T00:00:00Z", "preset"),
    );
    let loaded_cache = ImageCache::load(Some(cache.entries));
    assert_eq!(loaded_cache.entries.len(), 1);
    let entry = loaded_cache.get("default").unwrap();
    assert_eq!(entry.image_id, "im-abc123");
    assert_eq!(entry.image_type, "preset");
    assert!(entry.dockerfile_hash.is_none());
}

#[test]
fn test_cache_get() {
    let mut cache = ImageCache::default();
    cache.insert(
        "default".to_string(),
        entry("im-abc123", None, "2024-01-01T00:00:00Z", "preset"),
    );
    assert!(cache.get("default").is_some());
    assert!(cache.get("nonexistent").is_none());
}

#[test]
fn test_cache_get_for_dockerfile_matching_hash() {
    let mut cache = ImageCache::default();
    let hash = "abc123";
    cache.insert(
        "dockerfile:test".to_string(),
        entry("im-def456", Some(hash), "2024-01-01T00:00:00Z", "dockerfile"),
    );
    assert!(cache.get_for_dockerfile("dockerfile:test", hash).is_some());
}

#[test]
fn test_cache_get_for_dockerfile_mismatched_hash() {
    let mut cache = ImageCache::default();
    cache.insert(
        "dockerfile:test".to_string(),
        entry("im-def456", Some("abc123"), "2024-01-01T00:00:00Z", "dockerfile"),
    );
    assert!(cache.get_for_dockerfile("dockerfile:test", "different").is_none());
}

#[test]
fn test_cache_get_for_dockerfile_no_hash() {
    let mut cache = ImageCache::default();
    cache.insert(
        "dockerfile:test".to_string(),
        entry("im-def456", None, "2024-01-01T00:00:00Z", "dockerfile"),
    );
    assert!(cache.get_for_dockerfile("dockerfile:test", "abc123").is_none());
}

#[test]
fn test_compute_file_hash() {
    let contents = b"Hello, world!".to_vec();
    let hash = compute_hash(&contents);
    assert_eq!(hash.len(), 64);
    let hash2 = compute_hash(&contents);
    assert_eq!(hash, hash2);
    assert_eq!(hash, "315f5bdb76d078c43b8ac0064e4a0164612b1fce77c869345bfc94c75894edd3");
}

#[test]
fn test_cache_insert_updates_existing() {
    let mut cache = ImageCache::default();
    cache.insert(
        "default".to_string(),
        entry("im-abc123", None, "2024-01-01T00:00:00Z", "preset"),
    );
    cache.insert(
        "default".to_string(),
        entry("im-xyz789", None, "2024-01-02T00:00:00Z", "preset"),
    );
    let entry = cache.get("default").unwrap();
    assert_eq!(entry.image_id, "im-xyz789");
    assert_eq!(cache.entries.len(), 1);
}

struct MockImageBuilder {
    image_id: Option<String>,
    build_full_calls: u32,
}

impl MockImageBuilder {
    fn new() -> Self {
        Self { image_id: None, build_full_calls: 0 }
    }
}

#[test]
fn test_mock_image_builder_initial_state() {
    let builder = MockImageBuilder::new();
    assert!(builder.image_id.is_none());
    assert_eq!(builder.build_full_calls, 0);
}

fn scripts() -> Vec<String> {
    vec!["modal_sandbox.py".to_string()]
}

fn dir() -> String {
    cache_dir(Platform::Other, Some("/home/u"), None, None)
}

#[test]
fn test_expand_command_no_refs() {
    let cmd = "echo hello world";
    let expanded = expand_command(cmd, &scripts(), &dir()).unwrap();
    assert_eq!(expanded, cmd);
}

#[test]
fn test_expand_command_with_ref() {
    let cmd = "uv run @modal_sandbox.py create {image_id}";
    let expanded = expand_command(cmd, &scripts(), &dir()).unwrap();
    assert!(!expanded.contains('@'));
    assert!(expanded.contains("modal_sandbox.py"));
    assert!(expanded.contains("offload/scripts"));
}

#[test]
fn test_expand_command_multiple_refs() {
    let cmd = "uv run @modal_sandbox.py @modal_sandbox.py";
    let expanded = expand_command(cmd, &scripts(), &dir()).unwrap();
    assert!(!expanded.contains('@'));
    let count = expanded.matches("modal_sandbox.py").count();
    assert_eq!(count, 2);
}

#[test]
fn test_expand_command_unknown_script() {
    let cmd = "run @nonexistent.py";
    let result = expand_command(cmd, &scripts(), &dir());
    assert!(result.is_err());
    match result {
        Err(BundledError::ScriptNotFound(name)) => {
            assert_eq!(name, "nonexistent.py");
        }
        _ => panic!("Expected ScriptNotFound error"),
    }
}

#[test]
fn test_script_pattern_regex() {
    assert!(has_references("@script.py"));
    assert!(has_references("@modal_sandbox.py"));
    assert!(has_references("@my-script.sh"));
    assert!(has_references("run @my-script.sh"));

    assert!(!has_references("script.py"));
    assert!(!has_references("@script"));
    assert!(!has_references("email@domain.com"));
    assert!(!has_references("/path/to/@tty1.service"));
}

#[test]
fn caches_are_where_the_system_keeps_them() {
    assert_eq!(dir(), "/home/u/.cache/offload/scripts");
    assert_eq!(
        cache_dir(Platform::Other, Some("/h"), None, Some("/x")),
        "/x/offload/scripts"
    );
    assert_eq!(cache_dir(Platform::Other, None, None, None), "/tmp/offload/scripts");
    assert_eq!(
        cache_dir(Platform::MacOs, Some("/h"), None, Some("/x")),
        "/h/Library/Caches/offload/scripts"
    );
    assert_eq!(cache_dir(Platform::Windows, None, Some("C:"), None), "C:/offload/scripts");
}

#[test]
fn script_errors_speak() {
    assert_eq!(
        BundledError::ScriptNotFound("x.py".to_string()).message(),
        "Script not found in bundled scripts in Offload: x.py"
    );
    assert_eq!(
        BundledError::RegexCompilationFailed("e".to_string()).message(),
        "Failed to compile regex pattern in Offload: e"
    );
}

#[test]
fn shell_commands_run_in_a_shell() {
    let connector = ShellConnector::new().with_working_dir("/w").with_timeout(5);
    let process = connector.process("echo hi");
    assert_eq!(process.program, "sh");
    assert_eq!(process.args, vec!["-c", "echo hi"]);
    assert_eq!(process.working_dir.as_deref(), Some("/w"));
    assert_eq!(process.timeout_secs, Some(5));
    let r = connector.collect(None, &vec!["a".to_string(), "b".to_string()], &vec![]);
    assert_eq!(r.exit_code, -1);
    assert_eq!(r.stdout, "a\nb");
    assert_eq!(r.stderr, "");
    let e = connector.expansion_error(&BundledError::ScriptNotFound("s".to_string()), true);
    match e {
        ProviderError::ExecFailed(m) => assert_eq!(
            m,
            "Failed to expand command: Script not found in bundled scripts in Offload: s"
        ),
        _ => panic!("unexpected"),
    }
    let m: StrMap<String> = StrMap::new();
    assert!(m.is_empty());
}

#[test]
fn an_inserted_image_is_found_and_the_others_stay() {
    let mut cache = ImageCache::default();
    cache.insert("a".to_string(), entry("im-1", Some("h1"), "t", "dockerfile"));
    cache.insert("b".to_string(), entry("im-2", Some("h2"), "t", "dockerfile"));
    cache.insert("a".to_string(), entry("im-3", Some("h3"), "t", "dockerfile"));
    assert_eq!(cache.entries.len(), 2);
    assert!(cache.get_for_dockerfile("a", "h1").is_none());
    assert_eq!(cache.get_for_dockerfile("a", "h3").map(|e| e.image_id.as_str()), Some("im-3"));
    assert_eq!(cache.get_for_dockerfile("b", "h2").map(|e| e.image_id.as_str()), Some("im-2"));
}

#[test]
fn only_references_are_expanded() {
    let scripts = vec!["a.py".to_string(), "a.pyx".to_string()];
    assert_eq!(
        expand_command("run @a.py x@a.py @a.pyx /p/@a.py é @a.py", &scripts, "/s").unwrap(),
        "run /s/a.py x@a.py /s/a.pyx /p/@a.py é /s/a.py"
    );
    assert_eq!(expand_command("@a.py\n@a.py ", &scripts, "/s").unwrap(), "/s/a.py\n/s/a.py ");
}

#[test]
fn matches_are_expanded_where_they_end() {
    let scripts = vec!["a.py".to_string()];
    let found = |end: usize, name: &str| Found {
        end,
        groups: vec![Some(format!("@{name}")), Some(name.to_string())],
    };
    let command = "é @a.py @a.py";
    let only = vec![found(14, "a.py")];
    assert_eq!(expand_matches(command, &only, &scripts, "/s").unwrap(), "é @a.py /s/a.py");
    let both = vec![found(8, "a.py"), found(14, "a.py")];
    assert_eq!(expand_matches(command, &both, &scripts, "/s").unwrap(), "é /s/a.py /s/a.py");
    let elsewhere = vec![found(5, "a.py"), found(2, "a.py")];
    assert_eq!(expand_matches(command, &elsewhere, &scripts, "/s").unwrap(), command);
    match expand_matches(command, &vec![found(8, "a.py"), found(14, "b.py")], &scripts, "/s") {
        Err(BundledError::ScriptNotFound(name)) => assert_eq!(name, "b.py"),
        other => panic!("unexpected: {:?}", other),
    }
}
