use offload::checkpoint::{CachedImage, CheckpointInfo};
use offload::image_cache::prewarm;
use offload::image_cache::{BaseKind, ResolvedBase};
use offload::provider::{OutputLine, ProviderError};
use offload::run::caching::{advance, start, Action, CachePlan, CacheState, Event, Failure, Stage};
use offload::run::notices::{failure_context, fallback_notice, stage_notice};
use offload::run::state::{resolve_cache_state, Found, Lookup};
use offload::run::status::{checkpoint_status_lines, CheckpointStatus};
use offload::run::thin_diff::{shown_line, thin_diff_command, thin_diff_image, HeldOutput};

fn s(t: &str) -> String {
    t.to_string()
}

fn run(plan: &CachePlan, events: Vec<Event>) -> Vec<Action> {
    let (mut stage, action) = start(plan);
    let mut actions = vec![action];
    for event in events {
        let (next, action) = advance(plan, stage, event).expect("event answers the stage");
        stage = next;
        actions.push(action);
    }
    actions
}

fn plan(checkpoint_configured: bool, no_cache: bool, cache_state: Option<CacheState>) -> CachePlan {
    CachePlan { checkpoint_configured, no_cache, cache_state }
}

#[test]
fn a_cached_checkpoint_is_diffed_and_dispatched() {
    let plan = plan(
        true,
        false,
        Some(CacheState::Checkpoint {
            checkpoint_sha: s("c"),
            cached_image: Some(CachedImage { image_id: s("im-c"), build_inputs_hash: None }),
        }),
    );
    let actions =
        run(&plan, vec![Event::DiscoveredAndDiffed { tests: 2, image: Some(s("im-d")) }]);
    assert_eq!(
        actions,
        vec![
            Action::DiscoverAndDiff { base: s("im-c"), sha: s("c") },
            Action::Dispatch { image: Some(s("im-d")) },
        ]
    );
}

#[test]
fn a_checkpoint_without_image_is_built_noted_and_diffed() {
    let plan = plan(
        true,
        false,
        Some(CacheState::Checkpoint { checkpoint_sha: s("c"), cached_image: None }),
    );
    let actions = run(
        &plan,
        vec![
            Event::Exported,
            Event::BaseBuilt { image: Some(s("im-b")) },
            Event::NoteTried,
            Event::DiscoveredAndDiffed { tests: 1, image: Some(s("im-d")) },
        ],
    );
    assert_eq!(actions[0], Action::ExportTree { sha: s("c") });
    assert_eq!(actions[1], Action::BuildBase);
    assert_eq!(actions[2], Action::WriteNote { sha: s("c"), image: s("im-b") });
    assert_eq!(actions[3], Action::DiscoverAndDiff { base: s("im-b"), sha: s("c") });
    assert_eq!(actions[4], Action::Dispatch { image: Some(s("im-d")) });
}

#[test]
fn without_a_cache_state_everything_is_prepared() {
    let plan = plan(false, false, None);
    assert_eq!(start(&plan).1, Action::DiscoverAndPrepare);
    let actions = run(&plan, vec![Event::Prepared { tests: 0, image: None }]);
    assert!(matches!(actions[1], Action::Nothing { .. }));
    let failed = run(&plan, vec![Event::Failed]);
    assert_eq!(failed[1], Action::Abort { failure: Failure::Prepare });
    let undiscovered = run(&plan, vec![Event::DiscoveryFailed]);
    assert_eq!(undiscovered[1], Action::Abort { failure: Failure::Discovery });
}

#[test]
fn a_build_without_cache_resolves_the_checkpoint_first() {
    let plan = plan(true, true, None);
    let actions = run(
        &plan,
        vec![Event::Resolved { sha: Some(s("c")) }, Event::Failed],
    );
    assert_eq!(actions[0], Action::ResolveCheckpoint);
    assert_eq!(actions[1], Action::ExportTree { sha: s("c") });
    assert_eq!(actions[2], Action::Abort { failure: Failure::Export { sha: s("c") } });
}

#[test]
fn events_that_answer_nothing_are_refused() {
    let plan = plan(false, false, None);
    assert!(advance(&plan, Stage::Finished, Event::NoteTried).is_none());
    assert!(advance(&plan, Stage::Resolving, Event::Exported).is_none());
}

#[test]
fn the_parent_image_is_the_base_without_checkpoints() {
    let plan = plan(
        false,
        false,
        Some(CacheState::ParentBase { parent_sha: s("p"), cached_image_id: Some(s("im-p")) }),
    );
    assert_eq!(start(&plan).1, Action::Diff { base: s("im-p"), sha: s("p") });
}

fn base(image: Option<&str>) -> Option<ResolvedBase> {
    Some(ResolvedBase {
        base_sha: s("b"),
        cached_image_id: image.map(str::to_string),
        kind: BaseKind::Checkpoint,
    })
}

#[test]
fn prewarming_ends_with_the_diffed_image() {
    let plan = prewarm::PrewarmPlan { no_cache: false, base: base(Some("im-0")), patch_root: Some(s("/app")) };
    let (stage, action) = prewarm::start(&plan);
    assert_eq!(
        action,
        prewarm::Action::Diff { image: s("im-0"), sha: s("b"), root: s("/app") }
    );
    let (_, last) =
        prewarm::advance(&plan, stage, prewarm::Event::Diffed { image: Some(s("im-1")) }).unwrap();
    assert_eq!(last, prewarm::Action::Return { image: Some(s("im-1")) });
}

#[test]
fn prewarming_without_a_base_builds_from_a_copy() {
    let plan = prewarm::PrewarmPlan { no_cache: false, base: None, patch_root: Some(s("/app")) };
    let (stage, action) = prewarm::start(&plan);
    assert_eq!(action, prewarm::Action::Snapshot);
    let (stage, action) = prewarm::advance(&plan, stage, prewarm::Event::Copied).unwrap();
    assert_eq!(action, prewarm::Action::BuildFull);
    let (_, action) = prewarm::advance(&plan, stage, prewarm::Event::Failed).unwrap();
    assert_eq!(action, prewarm::Action::Fail { failure: prewarm::Failure::Build });
    assert_eq!(
        prewarm::failure_message(prewarm::Failure::Snapshot, "x"),
        "failed to snapshot working directory: x"
    );
}

#[test]
fn cache_states_come_from_the_repository() {
    assert!(resolve_cache_state(Lookup::NoRepository).is_none());
    let nearest = Found::Yes(CheckpointInfo { checkpoint_sha: s("c"), cached_image: None });
    assert!(matches!(
        resolve_cache_state(Lookup::Checkpoint { nearest }),
        Some(CacheState::Checkpoint { .. })
    ));
    let state = resolve_cache_state(Lookup::Parent { with_image: Found::No, parent: Found::Yes(s("p")) });
    match state {
        Some(CacheState::ParentBase { parent_sha, cached_image_id }) => {
            assert_eq!(parent_sha, "p");
            assert_eq!(cached_image_id, None);
        }
        other => panic!("unexpected: {:?}", other),
    }
    let failed = Lookup::Parent { with_image: Found::Failed, parent: Found::Yes(s("p")) };
    assert!(resolve_cache_state(failed).is_none());
}

#[test]
fn stages_and_failures_are_announced() {
    assert_eq!(
        stage_notice(&Stage::DiffingCached, "0123456789").as_deref(),
        Some("[cache] Using checkpoint image from 01234567")
    );
    assert_eq!(stage_notice(&Stage::Finished, "x"), None);
    assert_eq!(
        fallback_notice(&Stage::DiffingParent, "e").as_deref(),
        Some("[cache] Thin diff from parent failed, falling back to full build: e")
    );
    assert_eq!(
        failure_context(&Failure::Prepare, "Modal").as_deref(),
        Some("Failed to prepare Modal provider")
    );
    assert_eq!(failure_context(&Failure::Discovery, "Modal"), None);
}

#[test]
fn checkpoint_status_is_told_in_lines() {
    assert_eq!(
        checkpoint_status_lines(&CheckpointStatus::NotConfigured),
        vec!["Checkpoint mode not configured"]
    );
    let lines = checkpoint_status_lines(&CheckpointStatus::Checkpoint {
        head: s("aaaaaaaaaa"),
        sha: s("aaaaaaaaaa"),
        distance: 0,
        image: Some(s("im-1")),
        changed: None,
    });
    assert_eq!(
        lines,
        vec![
            "HEAD:               aaaaaaaa",
            "Checkpoint:         aaaaaaaa (0 commits back)",
            "Cached image:       im-1",
            "Next run mode:      use checkpoint image directly (HEAD is the checkpoint)",
        ]
    );
}

#[test]
fn the_last_line_of_a_thin_diff_is_the_image() {
    assert_eq!(
        thin_diff_command("im-0", "c", "/app"),
        "uv run @modal_sandbox.py prepare --from-checkpoint=im-0 --checkpoint-sha=c --sandbox-project-root=/app"
    );
    let ok = vec![
        OutputLine::Stdout(s("building")),
        OutputLine::Stdout(s(" im-1 ")),
        OutputLine::Stderr(s("done")),
        OutputLine::ExitCode(0),
    ];
    assert_eq!(thin_diff_image(&ok).unwrap(), "im-1");
    match thin_diff_image(&vec![OutputLine::ExitCode(3)]) {
        Err(ProviderError::ExecFailed(m)) => {
            assert_eq!(m, "thin diff prepare command failed with exit code 3")
        }
        other => panic!("unexpected: {:?}", other),
    }
    match thin_diff_image(&vec![]) {
        Err(ProviderError::ExecFailed(m)) => {
            assert_eq!(m, "thin diff prepare command returned empty image_id")
        }
        other => panic!("unexpected: {:?}", other),
    }
    assert_eq!(shown_line(&ok[0]).as_deref(), Some("[prepare]   building"));
    assert_eq!(shown_line(&ok[3]), None);
}

#[test]
fn output_is_held_while_tests_are_discovered() {
    let mut held = HeldOutput::new();
    assert!(held.emit("a", true).is_empty());
    assert!(held.emit("b", true).is_empty());
    assert_eq!(held.emit("c", false), vec!["a", "b", "c"]);
    assert!(held.flush().is_empty());
    assert!(held.emit("d", true).is_empty());
    assert_eq!(held.flush(), vec!["d"]);
}

#[test]
fn prewarming_announces_its_stages() {
    let cached = prewarm::PrewarmPlan {
        no_cache: false,
        base: base(Some("im-0")),
        patch_root: Some(s("/app")),
    };
    let sha = cached.base.as_ref().map(|b| b.base_sha.clone()).unwrap_or_default();
    let label = cached.base.as_ref().map(|b| b.kind.label()).unwrap_or_default();
    let short: String = sha.chars().take(8).collect();
    assert_eq!(
        prewarm::stage_notice(&cached, &prewarm::Stage::DiffingCached),
        Some(format!("[cache] {} hit: using cached image from {}", label, short))
    );
    assert_eq!(
        prewarm::stage_notice(&cached, &prewarm::Stage::Exporting),
        Some(format!("[cache] {} miss: no cached image for {} -- building base", label, short))
    );
    assert_eq!(
        prewarm::fallback_notice(&cached, &prewarm::Stage::DiffingCached),
        Some(format!("[cache] {} thin diff failed, falling back to base build", label))
    );
    assert_eq!(prewarm::stage_notice(&cached, &prewarm::Stage::Finished), None);
    let fresh = prewarm::PrewarmPlan {
        no_cache: true,
        base: base(None),
        patch_root: Some(s("/app")),
    };
    assert_eq!(
        prewarm::stage_notice(&fresh, &prewarm::Stage::Exporting),
        Some(format!(
            "[prepare] --no-cache with {}: building from {} (no cache lookup)",
            label, short
        ))
    );
    assert_eq!(
        prewarm::stage_notice(&fresh, &prewarm::Stage::Building).as_deref(),
        Some("[prepare] Building base image...")
    );
    assert_eq!(
        prewarm::fallback_notice(&fresh, &prewarm::Stage::DiffingBase).as_deref(),
        Some("[cache] Thin diff failed, falling back to full build")
    );
}
