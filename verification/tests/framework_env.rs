use offload::framework::env::{
    anchored_dirs, attach_execution_env, discovery_env, prepended_path, resolve_env,
    resolve_root_placeholder, shell_path_prepend_entry,
};
use offload::framework::TestRecord;
use offload::provider::Command;
use offload::strmap::StrMap;

fn map(entries: &[(&str, &str)]) -> StrMap<String> {
    let mut m = StrMap::new();
    for (k, v) in entries {
        m.insert(k.to_string(), v.to_string());
    }
    m
}

#[test]
fn test_resolve_root_placeholder_substitutes_all_occurrences() {
    assert_eq!(
        resolve_root_placeholder("--root={root} --data={root}/data", "/app"),
        "--root=/app --data=/app/data"
    );
}

#[test]
fn test_resolve_root_placeholder_leaves_values_without_placeholder() {
    assert_eq!(resolve_root_placeholder("value", "/app"), "value");
}

#[test]
fn test_shell_path_prepend_entry_quotes_dirs_and_defers_path() {
    let prepend = vec![".venv/bin".to_string(), "scripts".to_string()];
    assert_eq!(
        shell_path_prepend_entry(&prepend, "/app"),
        "PATH=/app/.venv/bin:/app/scripts:\"$PATH\""
    );
}

#[test]
fn test_shell_path_prepend_entry_quotes_dirs_with_spaces() {
    let prepend = vec!["my tools/bin".to_string()];
    assert_eq!(
        shell_path_prepend_entry(&prepend, "/app"),
        "PATH='/app/my tools/bin':\"$PATH\""
    );
}

#[test]
fn test_shell_path_prepend_entry_absolute_entry_left_unchanged() {
    let prepend = vec!["/opt/tools/bin".to_string()];
    assert_eq!(
        shell_path_prepend_entry(&prepend, "/app"),
        "PATH=/opt/tools/bin:\"$PATH\""
    );
}

#[test]
fn test_resolve_env_substitutes_root_placeholder() {
    let resolved = resolve_env(&map(&[("VIRTUAL_ENV", "{root}/.venv")]), "/app");
    assert_eq!(resolved.get("VIRTUAL_ENV").map(String::as_str), Some("/app/.venv"));
}

#[test]
fn test_resolve_env_substitutes_multiple_occurrences() {
    let resolved = resolve_env(&map(&[("FLAGS", "--root={root} --data={root}/data")]), "/app");
    assert_eq!(
        resolved.get("FLAGS").map(String::as_str),
        Some("--root=/app --data=/app/data")
    );
}

#[test]
fn test_resolve_env_leaves_values_without_placeholder() {
    let resolved = resolve_env(&map(&[("PLAIN", "value")]), "/app");
    assert_eq!(resolved.get("PLAIN").map(String::as_str), Some("value"));
}

#[test]
fn test_resolve_env_empty_map() {
    let resolved = resolve_env(&StrMap::new(), "/app");
    assert!(resolved.is_empty());
}

#[test]
fn test_prepended_path_order() {
    let prepend = vec![".venv/bin".to_string(), "scripts".to_string()];
    let path = prepended_path(&prepend, "/app", "/usr/bin:/bin");
    assert_eq!(path, "/app/.venv/bin:/app/scripts:/usr/bin:/bin");
}

#[test]
fn test_prepended_path_empty_prepend_returns_existing() {
    let path = prepended_path(&[], "/app", "/usr/bin");
    assert_eq!(path, "/usr/bin");
}

#[test]
fn test_prepended_path_empty_existing() {
    let prepend = vec![".venv/bin".to_string()];
    let path = prepended_path(&prepend, "/app", "");
    assert_eq!(path, "/app/.venv/bin");
}

#[test]
fn test_prepended_path_absolute_entry_left_unchanged() {
    let prepend = vec!["/opt/tools/bin".to_string()];
    let path = prepended_path(&prepend, "/app", "/usr/bin");
    assert_eq!(path, "/opt/tools/bin:/usr/bin");
}

#[test]
fn test_discovery_env_resolves_root_against_cwd() {
    let entries = discovery_env(&map(&[("VIRTUAL_ENV", "{root}/.venv")]), None, "/repo", "/usr/bin");
    assert_eq!(
        entries,
        vec![("VIRTUAL_ENV".to_string(), "/repo/.venv".to_string())]
    );
}

#[test]
fn test_discovery_env_prepends_path_after_env_entries() {
    let prepend = vec![".venv/bin".to_string(), "scripts".to_string()];
    let entries = discovery_env(
        &map(&[("VIRTUAL_ENV", "{root}/.venv")]),
        Some(&prepend),
        "/repo",
        "/usr/bin:/bin",
    );
    assert_eq!(
        entries,
        vec![
            ("VIRTUAL_ENV".to_string(), "/repo/.venv".to_string()),
            (
                "PATH".to_string(),
                "/repo/.venv/bin:/repo/scripts:/usr/bin:/bin".to_string()
            ),
        ]
    );
}

#[test]
fn test_discovery_env_sorts_entries_by_key() {
    let entries = discovery_env(&map(&[("ZULU", "1"), ("ALPHA", "2")]), None, "/repo", "/usr/bin");
    assert_eq!(
        entries,
        vec![
            ("ALPHA".to_string(), "2".to_string()),
            ("ZULU".to_string(), "1".to_string()),
        ]
    );
}

#[test]
fn test_discovery_env_prepend_only_emits_only_path() {
    let prepend = vec![".venv/bin".to_string()];
    let entries = discovery_env(&StrMap::new(), Some(&prepend), "/repo", "/usr/bin");
    assert_eq!(
        entries,
        vec![("PATH".to_string(), "/repo/.venv/bin:/usr/bin".to_string())]
    );
}

#[test]
fn test_discovery_env_absent_fields_produce_no_overrides() {
    let entries = discovery_env(&StrMap::new(), None, "/repo", "/usr/bin");
    assert!(entries.is_empty());

    let entries = discovery_env(&StrMap::new(), Some(&Vec::new()), "/repo", "/usr/bin");
    assert!(entries.is_empty());
}

#[test]
fn execution_env_is_attached_sorted_and_unresolved() {
    let mut cmd = Command::new("x");
    attach_execution_env(&mut cmd, &map(&[("B", "{root}"), ("A", "1")]), Some(&vec!["bin".to_string()]));
    assert_eq!(
        cmd.env,
        vec![("A".to_string(), "1".to_string()), ("B".to_string(), "{root}".to_string())]
    );
    assert_eq!(cmd.prepend_path, vec!["bin".to_string()]);
}

#[test]
fn relative_directories_are_anchored() {
    let dirs = anchored_dirs(&vec!["a".to_string(), "/b".to_string()], "/r");
    assert_eq!(dirs, vec!["/r/a".to_string(), "/b".to_string()]);
}

fn test_ids_to_records(ids: Vec<String>) -> Vec<TestRecord> {
    ids.into_iter()
        .map(|id| {
            let file = id.split("::").next().map(|f| f.to_string());
            let mut record = TestRecord::new(&id, "test-group");
            if let Some(f) = file {
                record = record.with_file(&f);
            }
            record
        })
        .collect()
}

#[test]
fn framework_test_parse_test_id() {
    let records = test_ids_to_records(vec![
        "tests/test_math.py::test_addition".to_string(),
        "tests/test_math.py::TestClass::test_method".to_string(),
    ]);

    assert_eq!(records.len(), 2);
    assert_eq!(records[0].name, "test_addition");
    assert_eq!(records[0].file, Some("tests/test_math.py".to_string()));
    assert_eq!(records[1].name, "test_method");
}

#[test]
fn connector_test_parse_test_id() {
    let records = test_ids_to_records(vec![
        "tests/test_math.py::test_addition".to_string(),
        "tests/test_math.py::TestClass::test_method".to_string(),
    ]);

    assert_eq!(records.len(), 2);
    assert_eq!(records[0].name, "test_addition");
    assert_eq!(records[0].file, Some("tests/test_math.py".to_string()));
    assert_eq!(records[1].name, "test_method");
}
