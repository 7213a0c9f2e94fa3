use offload::checkpoint::{
    resolve_cached_image, resolve_checkpoint as resolve_noted_checkpoint, walk, WalkStep,
};
use offload::git::{
    ancestors, canonicalize_config_path, commit_touches_paths, configured_refspec,
    diff_file_count, fetch_notes_failure, git_failure, merge_note, note_failure, parent_sha,
    refspec_missing, ImageEntry, NoteContents, NoteFailure,
};
use offload::git_patch::{
    base_commit_args, dependency_files, patch_steps, read_cached_image_id, resolve_base_commit,
    snapshot_warning, uncommitted_warnings, validate_commit, write_cached_image_args, GitAnswer,
};
use offload::image_cache::{
    describe_run_mode, distance_back, read_dockerignore_patterns, resolve_base, resolve_checkpoint,
    resolve_latest_commit, snapshot_args, status_lines, try_thin_diff, BaseKind, BaseLookup,
    CachedImage, CheckpointInfo, StatusReport, ThinDiff,
};

fn note(entries: &[(&str, &str)]) -> NoteContents {
    let mut contents = NoteContents::new();
    for (key, id) in entries {
        contents.insert(key.to_string(), ImageEntry {
            image_id: id.to_string(),
            build_inputs_hash: None,
        });
    }
    contents
}

#[test]
fn test_canonicalize_config_path() {
    let repo = "/home/user/project";
    assert_eq!(canonicalize_config_path("./offload.toml", repo).unwrap(), "offload.toml");
    assert_eq!(canonicalize_config_path("offload.toml", repo).unwrap(), "offload.toml");
    assert_eq!(
        canonicalize_config_path("./configs/offload.toml", repo).unwrap(),
        "configs/offload.toml"
    );
    assert_eq!(
        canonicalize_config_path("configs/offload.toml", repo).unwrap(),
        "configs/offload.toml"
    );
    assert_eq!(
        canonicalize_config_path("/home/user/project/offload.toml", repo).unwrap(),
        "offload.toml"
    );
    assert_eq!(
        canonicalize_config_path("/other/offload.toml", repo).unwrap_err(),
        "config path /other/offload.toml is not under repo root /home/user/project"
    );
}

#[test]
fn test_write_note_merges_configs() {
    let first = merge_note(None, &note(&[("config-a.toml", "im-aaa")]));
    let read_back = merge_note(Some(first), &note(&[("config-b.toml", "im-bbb")]));
    assert_eq!(read_back.len(), 2);
    assert_eq!(read_back.get("config-a.toml").unwrap().image_id, "im-aaa");
    assert_eq!(read_back.get("config-b.toml").unwrap().image_id, "im-bbb");
}

#[test]
fn test_commit_touches_paths() {
    let output = "Dockerfile\n";
    assert!(commit_touches_paths(output, &vec!["Dockerfile".to_string()]));
    assert!(!commit_touches_paths(output, &vec!["nonexistent.txt".to_string()]));
}

#[test]
fn test_commit_touches_paths_merge_commit() {
    let output = "file-a.txt\nfile-b.txt\n";
    assert!(commit_touches_paths(output, &vec!["file-a.txt".to_string()]));
    assert!(commit_touches_paths(output, &vec!["file-b.txt".to_string()]));
}

#[test]
fn test_configure_notes_fetch_idempotent() {
    let refspec = configured_refspec();
    assert_eq!(refspec, "+refs/notes/offload-images:refs/notes/offload-images");
    let mut existing = "+refs/heads/*:refs/remotes/origin/*\n".to_string();
    for _ in 0..2 {
        if refspec_missing(&existing) {
            existing.push_str(&refspec);
            existing.push('\n');
        }
    }
    let count = existing.lines().filter(|l| l.trim() == refspec).count();
    assert_eq!(count, 1, "refspec should appear exactly once");
}

#[test]
fn test_read_note_missing_ref_returns_none() {
    assert!(matches!(note_failure("error: No note found for object abc."), NoteFailure::NoNote));
    assert!(matches!(note_failure("fatal: NOT A VALID REF"), NoteFailure::NoNote));
    match note_failure(" fatal: broken \n") {
        NoteFailure::Failed(m) => assert_eq!(m, "git notes show failed: fatal: broken"),
        NoteFailure::NoNote => panic!("expected a failure"),
    }
}

#[test]
fn test_fetch_notes_missing_ref_returns_ok() {
    assert!(fetch_notes_failure("fatal: couldn't find remote ref refs/notes/x").is_ok());
    assert_eq!(
        fetch_notes_failure("fatal: denied\n").unwrap_err(),
        "git fetch notes failed: fatal: denied"
    );
}

#[test]
fn test_parent_sha_exists() {
    assert_eq!(parent_sha(Ok("abc".to_string())), Ok(Some("abc".to_string())));
}

#[test]
fn test_parent_sha_initial_commit() {
    let parent = parent_sha(Err("fatal: Needed a single revision".to_string()));
    assert_eq!(parent, Ok(None), "initial commit should have no parent");
    assert_eq!(parent_sha(Err("no git".to_string())), Err("no git".to_string()));
}

#[test]
fn git_output_is_read_by_lines() {
    assert_eq!(ancestors("a\nb\n"), vec!["a", "b"]);
    assert_eq!(diff_file_count("x\ny\n"), 2);
    assert_eq!(diff_file_count(""), 0);
    assert_eq!(
        git_failure(&vec!["log".to_string(), "-1".to_string()], "128", " bad \n"),
        "git log -1 failed (exit 128): bad"
    );
}

fn nearest(commits: &[(&str, &str)], inputs: &[&str]) -> Option<String> {
    let shas: Vec<String> = commits.iter().map(|c| c.0.to_string()).collect();
    let paths: Vec<String> = inputs.iter().map(|p| p.to_string()).collect();
    let mut touches: Vec<bool> = Vec::new();
    loop {
        match walk(&shas, &touches) {
            WalkStep::Check { sha } => {
                let files = commits.iter().find(|c| c.0 == sha).unwrap().1;
                touches.push(commit_touches_paths(files, &paths));
            }
            WalkStep::Found { sha, distance } => {
                assert_eq!(shas[distance], sha);
                return Some(sha);
            }
            WalkStep::NotFound => return None,
        }
    }
}

#[test]
fn image_cache_test_resolve_checkpoint_finds_nearest() {
    let commits = [("c4", "test.py"), ("c3", "app.py"), ("c2", "Dockerfile"), ("c1", "README.md")];
    let sha = nearest(&commits, &["Dockerfile"]);
    let info = resolve_checkpoint(sha, &None, "offload.toml", false).expect("should find checkpoint");
    assert_eq!(info.checkpoint_sha, "c2");
    assert!(info.cached_image.is_none(), "no note written, no cache");
}

#[test]
fn image_cache_test_resolve_checkpoint_none_when_no_match() {
    let sha = nearest(&[("c2", "app.py"), ("c1", "README.md")], &["Dockerfile"]);
    let result = resolve_checkpoint(sha, &None, "offload.toml", false);
    assert!(result.is_none(), "no commit touches Dockerfile");
}

#[test]
fn image_cache_test_resolve_checkpoint_with_cached_image() {
    let sha = nearest(&[("c3", "app.py"), ("c2", "Dockerfile")], &["Dockerfile"]);
    let contents = Some(note(&[("offload.toml", "im-cached123")]));
    let info =
        resolve_checkpoint(sha, &contents, "offload.toml", false).expect("should find checkpoint");
    assert_eq!(info.checkpoint_sha, "c2");
    assert_eq!(info.cached_image.expect("should have cached image").image_id, "im-cached123");
    let fresh = resolve_checkpoint(Some("c2".to_string()), &contents, "offload.toml", true);
    assert!(fresh.unwrap().cached_image.is_none());
}

#[test]
fn checkpoint_test_resolve_checkpoint_finds_nearest() {
    let commits = [("c4", "test.py"), ("c3", "app.py"), ("c2", "Dockerfile"), ("c1", "README.md")];
    let sha = nearest(&commits, &["Dockerfile"]);
    let info = resolve_noted_checkpoint(sha, &None, "offload.toml").expect("should find checkpoint");
    assert_eq!(info.checkpoint_sha, "c2");
    assert!(info.cached_image.is_none(), "no note written, no cache");
}

#[test]
fn checkpoint_test_resolve_checkpoint_none_when_no_match() {
    let sha = nearest(&[("c2", "app.py"), ("c1", "README.md")], &["Dockerfile"]);
    let result = resolve_noted_checkpoint(sha, &None, "offload.toml");
    assert!(result.is_none(), "no commit touches Dockerfile");
}

#[test]
fn checkpoint_test_resolve_checkpoint_with_cached_image() {
    let sha = nearest(&[("c3", "app.py"), ("c2", "Dockerfile")], &["Dockerfile"]);
    let mut contents = NoteContents::new();
    contents.insert(
        "offload.toml".to_string(),
        ImageEntry {
            image_id: "im-cached123".to_string(),
            build_inputs_hash: Some("abc123hash".to_string()),
        },
    );
    let info = resolve_noted_checkpoint(sha, &Some(contents), "offload.toml")
        .expect("should find checkpoint");
    assert_eq!(info.checkpoint_sha, "c2");
    let cached = info.cached_image.expect("should have cached image");
    assert_eq!(cached.image_id, "im-cached123");
    assert_eq!(cached.build_inputs_hash.as_deref(), Some("abc123hash"));
}

#[test]
fn test_resolve_cached_image_hit() {
    let contents = Some(note(&[("offload.toml", "im-head-cached")]));
    let result = resolve_cached_image(&contents, "offload.toml");
    assert_eq!(result.as_deref(), Some("im-head-cached"));
}

#[test]
fn test_resolve_cached_image_miss() {
    assert!(resolve_cached_image(&None, "offload.toml").is_none(), "no note means no cached image");
    assert!(resolve_cached_image(&Some(note(&[("offload.toml", "")])), "offload.toml").is_none());
}

#[test]
fn test_resolve_latest_commit_hit() {
    let contents = Some(note(&[("offload.toml", "im-head-cached")]));
    let info = resolve_latest_commit(Some("h".to_string()), &contents, "offload.toml", false)
        .expect("should find latest commit");
    assert_eq!(info.head_sha, "h");
    assert_eq!(info.cached_image.expect("should have cached image").image_id, "im-head-cached");
}

#[test]
fn test_resolve_latest_commit_miss() {
    let info = resolve_latest_commit(Some("h".to_string()), &None, "offload.toml", false)
        .expect("should find latest commit (miss still returns info)");
    assert_eq!(info.head_sha, "h");
    assert!(info.cached_image.is_none(), "no note on HEAD means no cached image");
}

#[test]
fn test_resolve_latest_commit_empty_repo() {
    let result = resolve_latest_commit(None, &None, "offload.toml", false);
    assert!(result.is_none(), "empty repo has no HEAD");
}

#[test]
fn bases_carry_the_image_that_was_found() {
    let base = resolve_base(BaseLookup::Checkpoint(Some(CheckpointInfo {
        checkpoint_sha: "c".to_string(),
        cached_image: Some(CachedImage { image_id: "im-1".to_string() }),
    })))
    .unwrap();
    assert_eq!(base.base_sha, "c");
    assert_eq!(base.cached_image_id.as_deref(), Some("im-1"));
    assert_eq!(base.kind, BaseKind::Checkpoint);
    assert_eq!(base.kind.label(), "Checkpoint");
    assert!(resolve_base(BaseLookup::Unavailable).is_none());
}

#[test]
fn ignored_files_are_left_out_of_the_copy() {
    let patterns = read_dockerignore_patterns(Some("# c\n\n target \n*.log\n"));
    assert_eq!(patterns, vec!["target", "*.log"]);
    assert!(read_dockerignore_patterns(None).is_empty());
    assert_eq!(
        snapshot_args(&patterns, "/src", "/dst"),
        vec!["-a", "--exclude=target", "--exclude=*.log", "--", "/src/", "/dst"]
    );
}

#[test]
fn status_reports_are_aligned() {
    let lines = status_lines(&StatusReport::Checkpoint {
        head: "0123456789".to_string(),
        base: "abcdefghij".to_string(),
        distance: Some(3),
        image: Some("im-1".to_string()),
        changed: Some(2),
    });
    assert_eq!(
        lines,
        vec![
            "HEAD:               01234567",
            "Base commit:        abcdefgh (checkpoint, 3 commits back)",
            "Cached image:       im-1",
            "Next run mode:      thin diff (2 files changed since checkpoint)",
        ]
    );
    assert_eq!(
        describe_run_mode("a", "a", None),
        "use checkpoint image directly (HEAD is the checkpoint)"
    );
    assert_eq!(status_lines(&StatusReport::EmptyRepository).len(), 2);
}

#[test]
fn thin_diffs_end_in_an_image_or_an_error() {
    assert_eq!(try_thin_diff("im-0", ThinDiff::NoChanges).unwrap(), "im-0");
    assert_eq!(
        try_thin_diff("im-0", ThinDiff::Built(Some("im-1".to_string()))).unwrap(),
        "im-1"
    );
    assert_eq!(
        try_thin_diff("im-0", ThinDiff::Built(None)).unwrap_err(),
        "build_incremental returned no image ID"
    );
    assert_eq!(
        try_thin_diff("im-0", ThinDiff::DiffFailed("x".to_string())).unwrap_err(),
        "failed to generate checkpoint diff: x"
    );
    assert_eq!(try_thin_diff("im-0", ThinDiff::BuildFailed("y".to_string())).unwrap_err(), "y");
}

#[test]
fn test_warn_no_dockerfile() {
    let warning = snapshot_warning(None, None, "/app").unwrap();
    assert!(warning.starts_with("[git_patch] No Dockerfile configured."));
    assert!(warning.contains("mkdir -p /app && tar xzf /code/current.tar.gz -C /app"));
}

#[test]
fn test_warn_dockerfile_missing_tar_ref() {
    let warning =
        snapshot_warning(Some("Dockerfile"), Some("FROM ubuntu:22.04\nRUN echo hello\n"), "/app");
    assert!(warning.unwrap().contains("does not reference current.tar.gz"));
}

#[test]
fn test_warn_dockerfile_with_tar_ref() {
    let contents = "FROM ubuntu:22.04\nCOPY current.tar.gz /code/current.tar.gz\n";
    assert!(snapshot_warning(Some("Dockerfile"), Some(contents), "/app").is_none());
}

#[test]
fn test_warn_dockerfile_nonexistent_path() {
    assert!(snapshot_warning(Some("/nonexistent/Dockerfile"), None, "/app").is_none());
}

fn done(stdout: &str) -> GitAnswer {
    GitAnswer::Done { stdout: stdout.to_string() }
}

#[test]
fn test_resolve_base_commit_empty_deps_no_dockerfile() {
    let files = dependency_files(&vec![], None);
    assert_eq!(base_commit_args(&files), vec!["rev-parse", "HEAD"]);
    assert_eq!(resolve_base_commit(&files, &done("abc\n")).unwrap(), "abc");
}

#[test]
fn test_resolve_base_commit_finds_correct_commit() {
    let files = dependency_files(&vec!["requirements.txt".to_string()], None);
    assert_eq!(
        base_commit_args(&files),
        vec!["log", "-1", "--format=%H", "--", "requirements.txt"]
    );
    assert_eq!(resolve_base_commit(&files, &done("req\n")).unwrap(), "req");
}

#[test]
fn test_resolve_base_commit_includes_dockerfile() {
    let files = dependency_files(&vec![], Some("Dockerfile"));
    assert_eq!(base_commit_args(&files), vec!["log", "-1", "--format=%H", "--", "Dockerfile"]);
    assert_eq!(resolve_base_commit(&files, &done("df\n")).unwrap(), "df");
}

#[test]
fn test_resolve_base_commit_nonexistent_files_returns_error() {
    let files = dependency_files(&vec!["nonexistent_file.txt".to_string()], None);
    let result = resolve_base_commit(&files, &done("\n"));
    assert!(result.is_err(), "should error when no commit modified any listed file");
    assert_eq!(
        result.unwrap_err(),
        "no commit found that modified any of the dependency files: nonexistent_file.txt"
    );
}

#[test]
fn test_validate_commit_valid() {
    assert_eq!(validate_commit("abc", &done("abc\n")).unwrap(), "abc");
}

#[test]
fn test_validate_commit_invalid() {
    let answer = GitAnswer::Refused { stderr: "unknown".to_string() };
    let result = validate_commit("nonexistent_ref", &answer);
    assert!(result.is_err());
    assert_eq!(result.unwrap_err(), "commit 'nonexistent_ref' does not exist: unknown");
}

#[test]
fn test_generate_patch_no_changes() {
    assert!(patch_steps(0, "/tmp/p").is_none());
}

#[test]
fn test_generate_patch_with_changes() {
    let (copy_dir, apply_cmd) = patch_steps(10, "/tmp/p").expect("a diff asks for steps");
    assert_eq!(copy_dir, ("/tmp/p".to_string(), "/offload-patch".to_string()));
    assert_eq!(apply_cmd, "git apply /offload-patch/patch --allow-empty");
}

#[test]
fn image_notes_are_read_as_written() {
    let args = write_cached_image_args("c", "im-9");
    assert_eq!(args, vec!["notes", "--ref=offload/image-cache", "add", "-f", "-m", "im-9", "c"]);
    assert_eq!(read_cached_image_id(Some("im-9\n")).as_deref(), Some("im-9"));
    assert_eq!(read_cached_image_id(Some("other")), None);
    assert_eq!(read_cached_image_id(None), None);
    assert_eq!(
        uncommitted_warnings("staged", "a\n\nb\n"),
        vec![
            "[git_patch] Dependency file has staged changes: a",
            "[git_patch] Dependency file has staged changes: b",
        ]
    );
}

#[test]
fn distances_count_back_from_the_newest_commit() {
    let log: Vec<String> = ["c", "b", "a", "b"].iter().map(|t| t.to_string()).collect();
    assert_eq!(distance_back(&log, "c"), Some(0));
    assert_eq!(distance_back(&log, "b"), Some(1));
    assert_eq!(distance_back(&log, "x"), None);
}

#[test]
fn a_written_image_is_found_in_the_note() {
    let written = note(&[("offload.toml", "im-2")]);
    let merged = merge_note(Some(note(&[("offload.toml", "im-1"), ("x.toml", "im-9")])), &written);
    let found = Some(merged);
    assert_eq!(resolve_cached_image(&found, "offload.toml").as_deref(), Some("im-2"));
    assert_eq!(resolve_cached_image(&found, "x.toml").as_deref(), Some("im-9"));
    assert_eq!(resolve_cached_image(&found, "y.toml"), None);
}

#[test]
fn a_configuration_has_one_canonical_form() {
    for root in ["/", "/home/user/project"] {
        let whole = if root == "/" { "/a/b.toml".to_string() } else { format!("{root}/a/b.toml") };
        for spelling in ["a/b.toml", "./a/b.toml", whole.as_str()] {
            assert_eq!(canonicalize_config_path(spelling, root).unwrap(), "a/b.toml");
        }
    }
    assert!(canonicalize_config_path("/home/user/projects/b.toml", "/home/user/project").is_err());
}
