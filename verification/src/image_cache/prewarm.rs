//! Producing a sandbox image cheaply before a full build: a machine that
//! tells its driver what to do next.

use vstd::prelude::*;

use crate::discovery::option_view;
use crate::image_cache::ResolvedBase;
use crate::text;
use crate::text::clipped;

verus! {

/// Result of the cheap part of the pipeline.
#[derive(Debug)]
pub enum PrewarmOutcome {
    /// A usable image was produced.
    Resolved { image_id: String },
    /// No image was produced: a full build follows. The base commit, where it
    /// is known, gets the note.
    CacheMiss { base_sha: Option<String> },
}

/// What the pipeline works from.
#[derive(Debug)]
pub struct PrewarmPlan {
    /// Whether the cache is not to be used.
    pub no_cache: bool,
    /// The base commit, where one was found.
    pub base: Option<ResolvedBase>,
    /// The root of the repository in the sandbox.
    pub patch_root: Option<String>,
}

/// Where the pipeline stands: which answer it waits for.
#[derive(Debug, PartialEq, Eq)]
pub enum Stage {
    /// Waiting for the thin diff on the cached image.
    DiffingCached,
    /// Waiting for the tree of the base commit.
    Exporting,
    /// Waiting for the base image.
    Building,
    /// Waiting for the note on the base commit.
    Noting { image: String },
    /// Waiting for the thin diff on the base image.
    DiffingBase,
    /// Waiting for the copy of the working directory.
    Snapshotting { base_sha: Option<String> },
    /// Waiting for the full build.
    BuildingFull { base_sha: Option<String> },
    /// Waiting for the note after the full build.
    NotingFull { image: String },
    /// Nothing more will happen.
    Finished,
}

/// What the driver has to do next.
#[allow(inconsistent_fields)]
#[derive(Debug, PartialEq, Eq)]
pub enum Action {
    /// Build a thin diff on an image of a commit.
    Diff { image: String, sha: String, root: String },
    /// Export the tree of a commit.
    ExportTree { sha: String },
    /// Build the base image from the exported tree.
    BuildBase,
    /// Record an image in the note of a commit, as best it goes.
    WriteNote { sha: String, image: String },
    /// Copy the working directory.
    Snapshot,
    /// Build from the copy.
    BuildFull,
    /// End with an image, where the provider has images.
    Return { image: Option<String> },
    /// End with the error that the last answer gave.
    Fail { failure: Failure },
}

/// What failed.
#[derive(Debug, Clone, Copy, PartialEq, Eq, Structural)]
pub enum Failure {
    /// Copying the working directory.
    Snapshot,
    /// The full build.
    Build,
}

/// What came of the last action.
#[derive(Debug, PartialEq, Eq)]
pub enum Event {
    /// The image of the thin diff where that worked.
    Diffed { image: Option<String> },
    /// The tree was exported.
    Exported,
    /// An image was built, where the provider has images.
    Built { image: Option<String> },
    /// The note was tried.
    NoteTried,
    /// The working directory was copied.
    Copied,
    /// The action failed.
    Failed,
}

/// What follows the cheap part of the pipeline; one that failed counts as a
/// miss without a base commit.
pub open spec fn settled(outcome: Option<PrewarmOutcome>) -> (Stage, Action) {
    match outcome {
        Some(PrewarmOutcome::Resolved { image_id }) => (
            Stage::Finished,
            Action::Return { image: Some(image_id) },
        ),
        Some(PrewarmOutcome::CacheMiss { base_sha }) => (
            Stage::Snapshotting { base_sha },
            Action::Snapshot,
        ),
        None => (Stage::Snapshotting { base_sha: None }, Action::Snapshot),
    }
}

/// The build of the base image.
pub open spec fn base_build(base: ResolvedBase) -> (Stage, Action) {
    (Stage::Exporting, Action::ExportTree { sha: base.base_sha })
}

/// The first stage and action.
pub open spec fn first_step(plan: PrewarmPlan) -> (Stage, Action) {
    match (plan.base, plan.patch_root) {
        (None, _) => settled(Some(PrewarmOutcome::CacheMiss { base_sha: None })),
        (Some(base), None) => settled(None),
        (Some(base), Some(root)) => match base.cached_image_id {
            Some(image) => (
                Stage::DiffingCached,
                Action::Diff { image, sha: base.base_sha, root },
            ),
            None => base_build(base),
        },
    }
}

/// The stage and action that follow an event, where the event answers what
/// the stage waits for.
pub open spec fn next_step(plan: PrewarmPlan, stage: Stage, event: Event) -> Option<
    (Stage, Action),
> {
    match (plan.base, plan.patch_root, stage, event) {
        (_, _, Stage::DiffingCached, Event::Diffed { image: Some(image_id) }) => Some(
            settled(Some(PrewarmOutcome::Resolved { image_id })),
        ),
        (Some(base), _, Stage::DiffingCached, Event::Diffed { image: None }) => Some(
            base_build(base),
        ),
        (_, _, Stage::Exporting, Event::Exported) => Some((Stage::Building, Action::BuildBase)),
        (_, _, Stage::Exporting, Event::Failed) => Some(settled(None)),
        (Some(base), Some(root), Stage::Building, Event::Built { image: Some(image) }) => Some(
            if plan.no_cache {
                (Stage::DiffingBase, Action::Diff { image, sha: base.base_sha, root })
            } else {
                (Stage::Noting { image }, Action::WriteNote { sha: base.base_sha, image })
            },
        ),
        (Some(base), _, Stage::Building, Event::Built { image: None }) => Some(
            settled(Some(PrewarmOutcome::CacheMiss { base_sha: Some(base.base_sha) })),
        ),
        (_, _, Stage::Building, Event::Failed) => Some(settled(None)),
        (Some(base), Some(root), Stage::Noting { image }, Event::NoteTried) => Some(
            (Stage::DiffingBase, Action::Diff { image, sha: base.base_sha, root }),
        ),
        (_, _, Stage::DiffingBase, Event::Diffed { image: Some(image_id) }) => Some(
            settled(Some(PrewarmOutcome::Resolved { image_id })),
        ),
        (Some(base), _, Stage::DiffingBase, Event::Diffed { image: None }) => Some(
            settled(Some(PrewarmOutcome::CacheMiss { base_sha: Some(base.base_sha) })),
        ),
        (_, _, Stage::Snapshotting { base_sha }, Event::Copied) => Some(
            (Stage::BuildingFull { base_sha }, Action::BuildFull),
        ),
        (_, _, Stage::Snapshotting { base_sha }, Event::Failed) => Some(
            (Stage::Finished, Action::Fail { failure: Failure::Snapshot }),
        ),
        (_, _, Stage::BuildingFull { base_sha: Some(sha) }, Event::Built { image: Some(image) }) =>
        Some(
            if plan.no_cache {
                (Stage::Finished, Action::Return { image: Some(image) })
            } else {
                (Stage::NotingFull { image }, Action::WriteNote { sha, image })
            },
        ),
        (_, _, Stage::BuildingFull { base_sha }, Event::Built { image }) => Some(
            (Stage::Finished, Action::Return { image }),
        ),
        (_, _, Stage::BuildingFull { base_sha }, Event::Failed) => Some(
            (Stage::Finished, Action::Fail { failure: Failure::Build }),
        ),
        (_, _, Stage::NotingFull { image }, Event::NoteTried) => Some(
            (Stage::Finished, Action::Return { image: Some(image) }),
        ),
        _ => None,
    }
}

fn settle(outcome: Option<PrewarmOutcome>) -> (r: (Stage, Action))
    ensures
        r == settled(outcome),
{
    match outcome {
        Some(PrewarmOutcome::Resolved { image_id }) => (
            Stage::Finished,
            Action::Return { image: Some(image_id) },
        ),
        Some(PrewarmOutcome::CacheMiss { base_sha }) => (
            Stage::Snapshotting { base_sha },
            Action::Snapshot,
        ),
        None => (Stage::Snapshotting { base_sha: None }, Action::Snapshot),
    }
}

fn build_base(base: &ResolvedBase) -> (r: (Stage, Action))
    ensures
        r == base_build(*base),
{
    (Stage::Exporting, Action::ExportTree { sha: base.base_sha.clone() })
}

fn diff(base: &ResolvedBase, root: &String, image: String) -> (r: Action)
    ensures
        r == (Action::Diff { image, sha: base.base_sha, root: *root }),
{
    Action::Diff { image, sha: base.base_sha.clone(), root: root.clone() }
}

fn miss(base: &ResolvedBase) -> (r: (Stage, Action))
    ensures
        r == settled(Some(PrewarmOutcome::CacheMiss { base_sha: Some(base.base_sha) })),
{
    settle(Some(PrewarmOutcome::CacheMiss { base_sha: Some(base.base_sha.clone()) }))
}

/// Starts the pipeline.
pub fn start(plan: &PrewarmPlan) -> (r: (Stage, Action))
    ensures
        r == first_step(*plan),
{
    match (&plan.base, &plan.patch_root) {
        (None, _) => settle(Some(PrewarmOutcome::CacheMiss { base_sha: None })),
        (Some(_), None) => settle(None),
        (Some(base), Some(root)) => match &base.cached_image_id {
            Some(image) => (Stage::DiffingCached, diff(base, root, image.clone())),
            None => build_base(base),
        },
    }
}

/// Takes the pipeline one step on. Nothing is returned where the event does
/// not answer what the stage waits for.
pub fn advance(plan: &PrewarmPlan, stage: Stage, event: Event) -> (r: Option<(Stage, Action)>)
    ensures
        r == next_step(*plan, stage, event),
{
    match (&plan.base, &plan.patch_root, stage, event) {
        (_, _, Stage::DiffingCached, Event::Diffed { image: Some(image_id) }) => Some(
            settle(Some(PrewarmOutcome::Resolved { image_id })),
        ),
        (Some(base), _, Stage::DiffingCached, Event::Diffed { image: None }) => Some(
            build_base(base),
        ),
        (_, _, Stage::Exporting, Event::Exported) => Some((Stage::Building, Action::BuildBase)),
        (_, _, Stage::Exporting, Event::Failed) => Some(settle(None)),
        (Some(base), Some(root), Stage::Building, Event::Built { image: Some(image) }) => {
            if plan.no_cache {
                Some((Stage::DiffingBase, diff(base, root, image)))
            } else {
                let kept = image.clone();
                Some(
                    (
                        Stage::Noting { image: kept },
                        Action::WriteNote { sha: base.base_sha.clone(), image },
                    ),
                )
            }
        },
        (Some(base), _, Stage::Building, Event::Built { image: None }) => Some(miss(base)),
        (_, _, Stage::Building, Event::Failed) => Some(settle(None)),
        (Some(base), Some(root), Stage::Noting { image }, Event::NoteTried) => Some(
            (Stage::DiffingBase, diff(base, root, image)),
        ),
        (_, _, Stage::DiffingBase, Event::Diffed { image: Some(image_id) }) => Some(
            settle(Some(PrewarmOutcome::Resolved { image_id })),
        ),
        (Some(base), _, Stage::DiffingBase, Event::Diffed { image: None }) => Some(miss(base)),
        (_, _, Stage::Snapshotting { base_sha }, Event::Copied) => Some(
            (Stage::BuildingFull { base_sha }, Action::BuildFull),
        ),
        (_, _, Stage::Snapshotting { .. }, Event::Failed) => Some(
            (Stage::Finished, Action::Fail { failure: Failure::Snapshot }),
        ),
        (_, _, Stage::BuildingFull { base_sha: Some(sha) }, Event::Built { image: Some(image) }) => {
            if plan.no_cache {
                Some((Stage::Finished, Action::Return { image: Some(image) }))
            } else {
                let kept = image.clone();
                Some((Stage::NotingFull { image: kept }, Action::WriteNote { sha, image }))
            }
        },
        (_, _, Stage::BuildingFull { .. }, Event::Built { image }) => Some(
            (Stage::Finished, Action::Return { image }),
        ),
        (_, _, Stage::BuildingFull { .. }, Event::Failed) => Some(
            (Stage::Finished, Action::Fail { failure: Failure::Build }),
        ),
        (_, _, Stage::NotingFull { image }, Event::NoteTried) => Some(
            (Stage::Finished, Action::Return { image: Some(image) }),
        ),
        _ => None,
    }
}

/// What is said of a failure, given the error that caused it.
pub fn failure_message(failure: Failure, error: &str) -> (r: String)
    ensures
        r@ == (match failure {
            Failure::Snapshot => "failed to snapshot working directory: "@,
            Failure::Build => "Failed to prepare provider: "@,
        }) + error@,
{
    let mut s = match failure {
        Failure::Snapshot => "failed to snapshot working directory: ".to_owned(),
        Failure::Build => "Failed to prepare provider: ".to_owned(),
    };
    s.append(error);
    s
}

/// What is said when the pipeline enters a stage.
pub open spec fn stage_text(plan: PrewarmPlan, stage: Stage) -> Option<Seq<char>> {
    match (plan.base, stage) {
        (Some(base), Stage::DiffingCached) => Some(
            "[cache] "@ + base.kind.label_view() + " hit: using cached image from "@ + clipped(
                base.base_sha@,
                8,
            ),
        ),
        (Some(base), Stage::Exporting) => Some(
            if plan.no_cache {
                "[prepare] --no-cache with "@ + base.kind.label_view() + ": building from "@
                    + clipped(base.base_sha@, 8) + " (no cache lookup)"@
            } else {
                "[cache] "@ + base.kind.label_view() + " miss: no cached image for "@ + clipped(
                    base.base_sha@,
                    8,
                ) + " -- building base"@
            },
        ),
        (_, Stage::Building) => Some("[prepare] Building base image..."@),
        _ => None,
    }
}

/// What is said when the pipeline enters a stage.
pub fn stage_notice(plan: &PrewarmPlan, stage: &Stage) -> (r: Option<String>)
    ensures
        option_view(r) == stage_text(*plan, *stage),
{
    match (&plan.base, stage) {
        (Some(base), Stage::DiffingCached) => {
            let label = base.kind.label();
            let short = text::clip(base.base_sha.as_str(), 8);
            let mut s = "[cache] ".to_owned();
            s.append(label.as_str());
            s.append(" hit: using cached image from ");
            s.append(short.as_str());
            Some(s)
        },
        (Some(base), Stage::Exporting) => {
            let label = base.kind.label();
            let short = text::clip(base.base_sha.as_str(), 8);
            if plan.no_cache {
                let mut s = "[prepare] --no-cache with ".to_owned();
                s.append(label.as_str());
                s.append(": building from ");
                s.append(short.as_str());
                s.append(" (no cache lookup)");
                Some(s)
            } else {
                let mut s = "[cache] ".to_owned();
                s.append(label.as_str());
                s.append(" miss: no cached image for ");
                s.append(short.as_str());
                s.append(" -- building base");
                Some(s)
            }
        },
        (_, Stage::Building) => Some("[prepare] Building base image...".to_owned()),
        _ => None,
    }
}

/// What is said when a thin diff failed at a stage.
pub open spec fn fallback_text(plan: PrewarmPlan, stage: Stage) -> Option<Seq<char>> {
    match (plan.base, stage) {
        (Some(base), Stage::DiffingCached) => Some(
            "[cache] "@ + base.kind.label_view()
                + " thin diff failed, falling back to base build"@,
        ),
        (_, Stage::DiffingBase) => Some("[cache] Thin diff failed, falling back to full build"@),
        _ => None,
    }
}

/// What is said when a thin diff failed at a stage.
pub fn fallback_notice(plan: &PrewarmPlan, stage: &Stage) -> (r: Option<String>)
    ensures
        option_view(r) == fallback_text(*plan, *stage),
{
    match (&plan.base, stage) {
        (Some(base), Stage::DiffingCached) => {
            let label = base.kind.label();
            let mut s = "[cache] ".to_owned();
            s.append(label.as_str());
            s.append(" thin diff failed, falling back to base build");
            Some(s)
        },
        (_, Stage::DiffingBase) => Some(
            "[cache] Thin diff failed, falling back to full build".to_owned(),
        ),
        _ => None,
    }
}

/// The stage and action after a sequence of events, where each event answered
/// the stage before it.
pub open spec fn after(plan: PrewarmPlan, events: Seq<Event>) -> Option<(Stage, Action)>
    decreases events.len(),
{
    if events.len() == 0 {
        Some(first_step(plan))
    } else {
        match after(plan, events.drop_last()) {
            Some((stage, _)) => next_step(plan, stage, events.last()),
            None => None,
        }
    }
}

/// An upper bound on the number of events a stage still waits for.
pub open spec fn rank(stage: Stage) -> nat {
    match stage {
        Stage::DiffingCached => 8,
        Stage::Exporting => 7,
        Stage::Building => 6,
        Stage::Noting { .. } => 5,
        Stage::DiffingBase => 4,
        Stage::Snapshotting { .. } => 3,
        Stage::BuildingFull { .. } => 2,
        Stage::NotingFull { .. } => 1,
        Stage::Finished => 0,
    }
}

/// Every step brings the pipeline nearer its end: no run takes more than
/// eight answers.
pub proof fn pipeline_ends(plan: PrewarmPlan, events: Seq<Event>)
    ensures
        after(plan, events) matches Some((stage, _)) ==> rank(stage) + events.len() <= 8,
        after(plan, events) is Some ==> events.len() <= 8,
    decreases events.len(),
{
    if events.len() > 0 {
        pipeline_ends(plan, events.drop_last());
    }
}

/// A run that does not use the cache writes no note.
pub proof fn no_cache_no_note(plan: PrewarmPlan, events: Seq<Event>)
    requires
        plan.no_cache,
    ensures
        after(plan, events) matches Some((_, action)) ==> !(action is WriteNote),
{
    if events.len() > 0 {
        match after(plan, events.drop_last()) {
            Some((stage, _)) => {},
            None => {},
        }
    }
}

spec fn remembers_base(plan: PrewarmPlan, stage: Stage) -> bool {
    match stage {
        Stage::Snapshotting { base_sha: Some(sha) } | Stage::BuildingFull { base_sha: Some(sha) } =>
        plan.base matches Some(base) && base.base_sha == sha,
        _ => true,
    }
}

proof fn stages_remember_base(plan: PrewarmPlan, events: Seq<Event>)
    ensures
        after(plan, events) matches Some((stage, _)) ==> remembers_base(plan, stage),
    decreases events.len(),
{
    if events.len() > 0 {
        stages_remember_base(plan, events.drop_last());
    }
}

/// A note is written on the base commit and holds the image that has just
/// been built.
pub proof fn note_records_the_build(
    plan: PrewarmPlan,
    events: Seq<Event>,
    sha: String,
    image: String,
)
    requires
        after(plan, events) matches Some((_, action)) && action == (Action::WriteNote { sha, image }),
    ensures
        plan.base matches Some(base) && base.base_sha == sha,
        events.len() > 0,
        events.last() == (Event::Built { image: Some(image) }),
{
    if events.len() > 0 {
        stages_remember_base(plan, events.drop_last());
    }
}

proof fn noted_image_was_built(plan: PrewarmPlan, events: Seq<Event>)
    ensures
        after(plan, events) matches Some((stage, _)) ==> (stage matches Stage::NotingFull { image }
            ==> exists|i: int|
            0 <= i < events.len() && #[trigger] events[i] == (Event::Built { image: Some(image) })),
{
    if events.len() > 0 {
        assert(events[events.len() - 1] == events.last());
    }
}

/// An image that the pipeline returns was reported to it: by a thin diff or
/// by a build.
pub proof fn returned_image_was_reported(plan: PrewarmPlan, events: Seq<Event>, image: String)
    requires
        after(plan, events) matches Some((_, action)) && action == (Action::Return {
            image: Some(image),
        }),
    ensures
        exists|i: int|
            0 <= i < events.len() && (#[trigger] events[i] == (Event::Built { image: Some(image) })
                || events[i] == (Event::Diffed { image: Some(image) })),
{
    if events.len() > 0 {
        assert(events[events.len() - 1] == events.last());
        noted_image_was_built(plan, events.drop_last());
        if exists|i: int|
            0 <= i < events.len() - 1 && #[trigger] events.drop_last()[i] == (Event::Built {
                image: Some(image),
            }) {
            let i = choose|i: int|
                0 <= i < events.len() - 1 && #[trigger] events.drop_last()[i] == (Event::Built {
                    image: Some(image),
                });
            assert(events[i] == (Event::Built { image: Some(image) }));
        }
    }
}

/// A base commit with a cached image is never rebuilt before a thin diff on
/// that image was tried, and where that works nothing is built at all: the
/// run ends with the image of the diff.
pub proof fn cached_image_comes_first(plan: PrewarmPlan, base: ResolvedBase, root: String, cached: String)
    requires
        plan.base == Some(base),
        plan.patch_root == Some(root),
        base.cached_image_id == Some(cached),
    ensures
        after(plan, Seq::empty()) matches Some((_, action)) && action == (Action::Diff {
            image: cached,
            sha: base.base_sha,
            root,
        }),
        forall|image: String|
            (#[trigger] after(plan, seq![Event::Diffed { image: Some(image) }]) matches Some(
                (stage, action),
            ) && stage is Finished && action == (Action::Return { image: Some(image) })),
        after(plan, seq![Event::Diffed { image: None }]) matches Some((_, action)) && action == (
        Action::ExportTree { sha: base.base_sha }),
{
    reveal_with_fuel(after, 2);
    assert forall|e: Event| #[trigger] seq![e].drop_last() == Seq::<Event>::empty() by {
        assert(seq![e].drop_last() =~= Seq::<Event>::empty());
    }
    assert forall|image: String|
        (#[trigger] after(plan, seq![Event::Diffed { image: Some(image) }]) matches Some(
            (stage, action),
        ) && stage is Finished && action == (Action::Return { image: Some(image) })) by {
        let events = seq![Event::Diffed { image: Some(image) }];
        assert(events.drop_last() =~= Seq::<Event>::empty());
        assert(events.last() == (Event::Diffed { image: Some(image) }));
    }
    let none: Seq<Event> = seq![Event::Diffed { image: None }];
    assert(none.drop_last() =~= Seq::<Event>::empty());
    assert(none.last() == (Event::Diffed { image: None }));
}

spec fn noting_image_was_built(stage: Stage, events: Seq<Event>) -> bool {
    stage matches Stage::Noting { image } ==> events.contains(Event::Built { image: Some(image) })
}

proof fn noting_follows_build(plan: PrewarmPlan, events: Seq<Event>)
    ensures
        after(plan, events) matches Some((stage, _)) ==> noting_image_was_built(stage, events),
{
    if events.len() > 0 {
        assert(events[events.len() - 1] == events.last());
    }
}

/// A thin diff is taken from the base commit, at the root of the sandbox's
/// repository, on its cached image or on one that was built for it.
pub proof fn diff_starts_from_base(
    plan: PrewarmPlan,
    events: Seq<Event>,
    image: String,
    sha: String,
    root: String,
)
    requires
        after(plan, events) matches Some((_, action)) && action == (Action::Diff {
            image,
            sha,
            root,
        }),
    ensures
        plan.patch_root == Some(root),
        plan.base matches Some(base) && base.base_sha == sha && (base.cached_image_id == Some(image)
            || events.contains(Event::Built { image: Some(image) })),
{
    if events.len() > 0 {
        let rest = events.drop_last();
        noting_follows_build(plan, rest);
        assert(events[events.len() - 1] == events.last());
        if rest.contains(Event::Built { image: Some(image) }) {
            let k = choose|k: int|
                0 <= k < rest.len() && rest[k] == (Event::Built { image: Some(image) });
            assert(events[k] == (Event::Built { image: Some(image) }));
        }
    }
}

spec fn knows_base(stage: Stage) -> bool {
    match stage {
        Stage::Snapshotting { base_sha } => base_sha is Some,
        Stage::BuildingFull { base_sha } => base_sha is Some,
        _ => true,
    }
}

proof fn unfailed_knows_base(plan: PrewarmPlan, events: Seq<Event>)
    requires
        plan.base is Some,
        plan.patch_root is Some,
        !events.contains(Event::Failed),
    ensures
        after(plan, events) matches Some((stage, _)) ==> knows_base(stage),
    decreases events.len(),
{
    if events.len() > 0 {
        let rest = events.drop_last();
        assert(events.contains(events[events.len() - 1]));
        assert(!rest.contains(Event::Failed)) by {
            if rest.contains(Event::Failed) {
                let k = choose|k: int| 0 <= k < rest.len() && rest[k] == Event::Failed;
                assert(events[k] == Event::Failed);
            }
        }
        unfailed_knows_base(plan, rest);
    }
}

/// Where the cache is used and nothing failed, every image that is built is
/// recorded in the note of the base commit next.
pub proof fn built_image_is_noted(
    plan: PrewarmPlan,
    events: Seq<Event>,
    base: ResolvedBase,
    image: String,
)
    requires
        !plan.no_cache,
        plan.base == Some(base),
        plan.patch_root is Some,
        !events.contains(Event::Failed),
        events.len() > 0,
        events.last() == (Event::Built { image: Some(image) }),
        after(plan, events) is Some,
    ensures
        after(plan, events) matches Some((_, action)) && action == (Action::WriteNote {
            sha: base.base_sha,
            image,
        }),
{
    let rest = events.drop_last();
    assert(!rest.contains(Event::Failed)) by {
        if rest.contains(Event::Failed) {
            let k = choose|k: int| 0 <= k < rest.len() && rest[k] == Event::Failed;
            assert(events[k] == Event::Failed);
        }
    }
    unfailed_knows_base(plan, rest);
    stages_remember_base(plan, rest);
}

/// The pipeline fails only where the copy of the working directory or the
/// build from it failed. A failure before that leads to the copy, and so to a
/// full build.
pub proof fn cheap_failures_fall_back(plan: PrewarmPlan, events: Seq<Event>)
    requires
        events.len() > 0,
        events.last() == Event::Failed,
    ensures
        match (after(plan, events.drop_last()), after(plan, events)) {
            (Some((_, before)), Some((_, action))) => match before {
                Action::Snapshot => action == (Action::Fail { failure: Failure::Snapshot }),
                Action::BuildFull => action == (Action::Fail { failure: Failure::Build }),
                _ => action is Snapshot,
            },
            _ => true,
        },
{
    action_fits_stage(plan, events.drop_last());
}

spec fn fits(stage: Stage, action: Action) -> bool {
    &&& stage is Snapshotting <==> action is Snapshot
    &&& stage is BuildingFull <==> action is BuildFull
}

proof fn action_fits_stage(plan: PrewarmPlan, events: Seq<Event>)
    ensures
        after(plan, events) matches Some((stage, action)) ==> fits(stage, action),
{
    if events.len() > 0 {
        match after(plan, events.drop_last()) {
            Some((stage, _)) => {},
            None => {},
        }
    }
}

} // verus!
