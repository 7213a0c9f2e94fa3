//! The image caching pipeline of a run, as a machine that tells its driver
//! what to do next and learns from it what came of that.

use vstd::prelude::*;

use crate::checkpoint::CachedImage;

verus! {

/// The cache state found before the provider is prepared.
#[derive(Debug)]
pub enum CacheState {
    /// A checkpoint commit was found.
    Checkpoint { checkpoint_sha: String, cached_image: Option<CachedImage> },
    /// No checkpoint is configured: the parent commit serves as the base.
    ParentBase { parent_sha: String, cached_image_id: Option<String> },
}

/// What the pipeline works from.
#[derive(Debug)]
pub struct CachePlan {
    /// Whether the configuration has a checkpoint section.
    pub checkpoint_configured: bool,
    /// Whether the caller asked for a build without cache lookup.
    pub no_cache: bool,
    /// The cache state, where one was found.
    pub cache_state: Option<CacheState>,
}

/// Where the pipeline stands: which answer it waits for.
#[derive(Debug, PartialEq, Eq)]
pub enum Stage {
    /// Waiting for the checkpoint commit of a build without cache.
    Resolving,
    /// Waiting for the tree of that commit.
    ExportingFresh { sha: String },
    /// Waiting for the base image of that commit.
    BuildingFresh { sha: String },
    /// Waiting for the thin diff on that base image.
    DiffingFresh,
    /// Waiting for the thin diff on a cached checkpoint image.
    DiffingCached,
    /// Waiting for the tree of a checkpoint without a cached image.
    ExportingMiss { sha: String },
    /// Waiting for the base image of that checkpoint.
    BuildingMiss { sha: String },
    /// Waiting for the note on that checkpoint.
    NotingMiss { sha: String, image: String },
    /// Waiting for the thin diff on that base image.
    DiffingMiss,
    /// Waiting for the thin diff on the parent's cached image.
    DiffingParent,
    /// Waiting for discovery, with the image chosen.
    Discovering { image: String },
    /// Waiting for discovery and the full build.
    Preparing { note_sha: Option<String> },
    /// Waiting for the note on the parent commit.
    NotingParent { tests: usize },
    /// Nothing more will happen.
    Finished,
}

/// What the driver has to do next.
#[allow(inconsistent_fields)]
#[derive(Debug, PartialEq, Eq)]
pub enum Action {
    /// Find the nearest commit that touches a build input, without notes.
    ResolveCheckpoint,
    /// Export the tree of a commit.
    ExportTree { sha: String },
    /// Build the base image from the exported tree.
    BuildBase,
    /// Record an image in the note of a commit, as best it goes.
    WriteNote { sha: String, image: String },
    /// Discover the tests while building a thin diff on a base image.
    DiscoverAndDiff { base: String, sha: String },
    /// Build a thin diff on a base image.
    Diff { base: String, sha: String },
    /// Discover the tests.
    Discover,
    /// Discover the tests while preparing the provider from scratch.
    DiscoverAndPrepare,
    /// Run the tests on the prepared provider, with its image set where one
    /// is given.
    Dispatch { image: Option<String> },
    /// End without a run: there is no test.
    Nothing { image: Option<String> },
    /// End with an error.
    Abort { failure: Failure },
}

/// What failed.
#[derive(Debug, PartialEq, Eq)]
pub enum Failure {
    /// Exporting the tree of a commit.
    Export { sha: String },
    /// Building the base image.
    Base,
    /// Discovering the tests.
    Discovery,
    /// Preparing the provider.
    Prepare,
}

/// What came of the last action.
#[derive(Debug, PartialEq, Eq)]
pub enum Event {
    /// The checkpoint commit, where one was found.
    Resolved { sha: Option<String> },
    /// The tree was exported.
    Exported,
    /// The base image, where the provider has images.
    BaseBuilt { image: Option<String> },
    /// The note was tried.
    NoteTried,
    /// The number of tests, and the image of the thin diff where that worked.
    DiscoveredAndDiffed { tests: usize, image: Option<String> },
    /// The image of the thin diff where that worked.
    Diffed { image: Option<String> },
    /// The number of tests.
    Discovered { tests: usize },
    /// The number of tests, and the image where the provider has images.
    Prepared { tests: usize, image: Option<String> },
    /// The action failed.
    Failed,
    /// Discovery failed while something ran beside it.
    DiscoveryFailed,
}

/// The end of a run on an image.
pub open spec fn ending(tests: usize, image: Option<String>) -> (Stage, Action) {
    (
        Stage::Finished,
        if tests == 0 {
            Action::Nothing { image }
        } else {
            Action::Dispatch { image }
        },
    )
}

/// The full build, after which the given commit gets a note.
pub open spec fn full_build(note_sha: Option<String>) -> (Stage, Action) {
    (Stage::Preparing { note_sha }, Action::DiscoverAndPrepare)
}

/// The end of a run on an error.
pub open spec fn aborting(failure: Failure) -> (Stage, Action) {
    (Stage::Finished, Action::Abort { failure })
}

/// What the cache state calls for.
pub open spec fn by_cache_state(plan: CachePlan) -> (Stage, Action) {
    match plan.cache_state {
        Some(CacheState::Checkpoint { checkpoint_sha, cached_image: Some(cached) }) => (
            Stage::DiffingCached,
            Action::DiscoverAndDiff { base: cached.image_id, sha: checkpoint_sha },
        ),
        Some(CacheState::Checkpoint { checkpoint_sha, cached_image: None }) => (
            Stage::ExportingMiss { sha: checkpoint_sha },
            Action::ExportTree { sha: checkpoint_sha },
        ),
        Some(CacheState::ParentBase { parent_sha, cached_image_id: Some(image) }) => (
            Stage::DiffingParent,
            Action::Diff { base: image, sha: parent_sha },
        ),
        Some(CacheState::ParentBase { parent_sha, cached_image_id: None }) => full_build(
            Some(parent_sha),
        ),
        None => full_build(None),
    }
}

/// The first stage and action.
pub open spec fn first_step(plan: CachePlan) -> (Stage, Action) {
    if plan.no_cache && plan.checkpoint_configured {
        (Stage::Resolving, Action::ResolveCheckpoint)
    } else {
        by_cache_state(plan)
    }
}

/// The stage and action that follow an event, where the event answers what
/// the stage waits for.
pub open spec fn next_step(plan: CachePlan, stage: Stage, event: Event) -> Option<(Stage, Action)> {
    match (stage, event) {
        (Stage::Resolving, Event::Resolved { sha: Some(sha) }) => Some(
            (Stage::ExportingFresh { sha }, Action::ExportTree { sha }),
        ),
        (Stage::Resolving, Event::Resolved { sha: None }) => Some(by_cache_state(plan)),
        (Stage::ExportingFresh { sha }, Event::Exported) => Some(
            (Stage::BuildingFresh { sha }, Action::BuildBase),
        ),
        (Stage::ExportingFresh { sha }, Event::Failed) => Some(aborting(Failure::Export { sha })),
        (Stage::BuildingFresh { sha }, Event::BaseBuilt { image: Some(image) }) => Some(
            (Stage::DiffingFresh, Action::DiscoverAndDiff { base: image, sha }),
        ),
        (Stage::BuildingFresh { sha }, Event::BaseBuilt { image: None }) => Some(
            by_cache_state(plan),
        ),
        (Stage::BuildingFresh { sha }, Event::Failed) => Some(aborting(Failure::Base)),
        (Stage::DiffingFresh, Event::DiscoveredAndDiffed { tests, image: Some(image) }) => Some(
            ending(tests, Some(image)),
        ),
        (Stage::DiffingFresh, Event::DiscoveredAndDiffed { tests, image: None }) => Some(
            by_cache_state(plan),
        ),
        (Stage::DiffingFresh, Event::DiscoveryFailed) => Some(aborting(Failure::Discovery)),
        (Stage::DiffingCached, Event::DiscoveredAndDiffed { tests, image: Some(image) }) => Some(
            ending(tests, Some(image)),
        ),
        (Stage::DiffingCached, Event::DiscoveredAndDiffed { tests, image: None }) => Some(
            full_build(None),
        ),
        (Stage::DiffingCached, Event::DiscoveryFailed) => Some(aborting(Failure::Discovery)),
        (Stage::ExportingMiss { sha }, Event::Exported) => Some(
            (Stage::BuildingMiss { sha }, Action::BuildBase),
        ),
        (Stage::ExportingMiss { sha }, Event::Failed) => Some(aborting(Failure::Export { sha })),
        (Stage::BuildingMiss { sha }, Event::BaseBuilt { image: Some(image) }) => Some(
            (Stage::NotingMiss { sha, image }, Action::WriteNote { sha, image }),
        ),
        (Stage::BuildingMiss { sha }, Event::BaseBuilt { image: None }) => Some(full_build(None)),
        (Stage::BuildingMiss { sha }, Event::Failed) => Some(aborting(Failure::Base)),
        (Stage::NotingMiss { sha, image }, Event::NoteTried) => Some(
            (Stage::DiffingMiss, Action::DiscoverAndDiff { base: image, sha }),
        ),
        (Stage::DiffingMiss, Event::DiscoveredAndDiffed { tests, image: Some(image) }) => Some(
            ending(tests, Some(image)),
        ),
        (Stage::DiffingMiss, Event::DiscoveredAndDiffed { tests, image: None }) => Some(
            full_build(None),
        ),
        (Stage::DiffingMiss, Event::DiscoveryFailed) => Some(aborting(Failure::Discovery)),
        (Stage::DiffingParent, Event::Diffed { image: Some(image) }) => Some(
            (Stage::Discovering { image }, Action::Discover),
        ),
        (Stage::DiffingParent, Event::Diffed { image: None }) => Some(full_build(None)),
        (Stage::Discovering { image }, Event::Discovered { tests }) => Some(
            ending(tests, Some(image)),
        ),
        (Stage::Discovering { image }, Event::DiscoveryFailed) => Some(
            aborting(Failure::Discovery),
        ),
        (Stage::Preparing { note_sha: Some(sha) }, Event::Prepared { tests, image: Some(image) }) =>
        Some((Stage::NotingParent { tests }, Action::WriteNote { sha, image })),
        (Stage::Preparing { note_sha }, Event::Prepared { tests, image }) => Some(
            ending(tests, None),
        ),
        (Stage::Preparing { note_sha }, Event::Failed) => Some(aborting(Failure::Prepare)),
        (Stage::Preparing { note_sha }, Event::DiscoveryFailed) => Some(
            aborting(Failure::Discovery),
        ),
        (Stage::NotingParent { tests }, Event::NoteTried) => Some(ending(tests, None)),
        _ => None,
    }
}

fn finish(tests: usize, image: Option<String>) -> (r: (Stage, Action))
    ensures
        r == ending(tests, image),
{
    if tests == 0 {
        (Stage::Finished, Action::Nothing { image })
    } else {
        (Stage::Finished, Action::Dispatch { image })
    }
}

fn build_fully(note_sha: Option<String>) -> (r: (Stage, Action))
    ensures
        r == full_build(note_sha),
{
    (Stage::Preparing { note_sha }, Action::DiscoverAndPrepare)
}

fn abort(failure: Failure) -> (r: (Stage, Action))
    ensures
        r == aborting(failure),
{
    (Stage::Finished, Action::Abort { failure })
}

fn enter_cache_state(plan: &CachePlan) -> (r: (Stage, Action))
    ensures
        r == by_cache_state(*plan),
{
    match &plan.cache_state {
        Some(CacheState::Checkpoint { checkpoint_sha, cached_image: Some(cached) }) => (
            Stage::DiffingCached,
            Action::DiscoverAndDiff { base: cached.image_id.clone(), sha: checkpoint_sha.clone() },
        ),
        Some(CacheState::Checkpoint { checkpoint_sha, cached_image: None }) => (
            Stage::ExportingMiss { sha: checkpoint_sha.clone() },
            Action::ExportTree { sha: checkpoint_sha.clone() },
        ),
        Some(CacheState::ParentBase { parent_sha, cached_image_id: Some(image) }) => (
            Stage::DiffingParent,
            Action::Diff { base: image.clone(), sha: parent_sha.clone() },
        ),
        Some(CacheState::ParentBase { parent_sha, cached_image_id: None }) => build_fully(
            Some(parent_sha.clone()),
        ),
        None => build_fully(None),
    }
}

/// Starts the pipeline.
pub fn start(plan: &CachePlan) -> (r: (Stage, Action))
    ensures
        r == first_step(*plan),
{
    if plan.no_cache && plan.checkpoint_configured {
        (Stage::Resolving, Action::ResolveCheckpoint)
    } else {
        enter_cache_state(plan)
    }
}

/// Takes the pipeline one step on. Nothing is returned where the event does
/// not answer what the stage waits for.
pub fn advance(plan: &CachePlan, stage: Stage, event: Event) -> (r: Option<(Stage, Action)>)
    ensures
        r == next_step(*plan, stage, event),
{
    match (stage, event) {
        (Stage::Resolving, Event::Resolved { sha: Some(sha) }) => {
            let kept = sha.clone();
            Some((Stage::ExportingFresh { sha: kept }, Action::ExportTree { sha }))
        },
        (Stage::Resolving, Event::Resolved { sha: None }) => Some(enter_cache_state(plan)),
        (Stage::ExportingFresh { sha }, Event::Exported) => Some(
            (Stage::BuildingFresh { sha }, Action::BuildBase),
        ),
        (Stage::ExportingFresh { sha }, Event::Failed) => Some(abort(Failure::Export { sha })),
        (Stage::BuildingFresh { sha }, Event::BaseBuilt { image: Some(image) }) => Some(
            (Stage::DiffingFresh, Action::DiscoverAndDiff { base: image, sha }),
        ),
        (Stage::BuildingFresh { .. }, Event::BaseBuilt { image: None }) => Some(
            enter_cache_state(plan),
        ),
        (Stage::BuildingFresh { .. }, Event::Failed) => Some(abort(Failure::Base)),
        (Stage::DiffingFresh, Event::DiscoveredAndDiffed { tests, image: Some(image) }) => Some(
            finish(tests, Some(image)),
        ),
        (Stage::DiffingFresh, Event::DiscoveredAndDiffed { image: None, .. }) => Some(
            enter_cache_state(plan),
        ),
        (Stage::DiffingFresh, Event::DiscoveryFailed) => Some(abort(Failure::Discovery)),
        (Stage::DiffingCached, Event::DiscoveredAndDiffed { tests, image: Some(image) }) => Some(
            finish(tests, Some(image)),
        ),
        (Stage::DiffingCached, Event::DiscoveredAndDiffed { image: None, .. }) => Some(
            build_fully(None),
        ),
        (Stage::DiffingCached, Event::DiscoveryFailed) => Some(abort(Failure::Discovery)),
        (Stage::ExportingMiss { sha }, Event::Exported) => Some(
            (Stage::BuildingMiss { sha }, Action::BuildBase),
        ),
        (Stage::ExportingMiss { sha }, Event::Failed) => Some(abort(Failure::Export { sha })),
        (Stage::BuildingMiss { sha }, Event::BaseBuilt { image: Some(image) }) => {
            let stage_sha = sha.clone();
            let stage_image = image.clone();
            Some(
                (
                    Stage::NotingMiss { sha: stage_sha, image: stage_image },
                    Action::WriteNote { sha, image },
                ),
            )
        },
        (Stage::BuildingMiss { .. }, Event::BaseBuilt { image: None }) => Some(build_fully(None)),
        (Stage::BuildingMiss { .. }, Event::Failed) => Some(abort(Failure::Base)),
        (Stage::NotingMiss { sha, image }, Event::NoteTried) => Some(
            (Stage::DiffingMiss, Action::DiscoverAndDiff { base: image, sha }),
        ),
        (Stage::DiffingMiss, Event::DiscoveredAndDiffed { tests, image: Some(image) }) => Some(
            finish(tests, Some(image)),
        ),
        (Stage::DiffingMiss, Event::DiscoveredAndDiffed { image: None, .. }) => Some(
            build_fully(None),
        ),
        (Stage::DiffingMiss, Event::DiscoveryFailed) => Some(abort(Failure::Discovery)),
        (Stage::DiffingParent, Event::Diffed { image: Some(image) }) => Some(
            (Stage::Discovering { image }, Action::Discover),
        ),
        (Stage::DiffingParent, Event::Diffed { image: None }) => Some(build_fully(None)),
        (Stage::Discovering { image }, Event::Discovered { tests }) => Some(
            finish(tests, Some(image)),
        ),
        (Stage::Discovering { .. }, Event::DiscoveryFailed) => Some(abort(Failure::Discovery)),
        (Stage::Preparing { note_sha: Some(sha) }, Event::Prepared { tests, image: Some(image) }) =>
        Some((Stage::NotingParent { tests }, Action::WriteNote { sha, image })),
        (Stage::Preparing { .. }, Event::Prepared { tests, .. }) => Some(finish(tests, None)),
        (Stage::Preparing { .. }, Event::Failed) => Some(abort(Failure::Prepare)),
        (Stage::Preparing { .. }, Event::DiscoveryFailed) => Some(abort(Failure::Discovery)),
        (Stage::NotingParent { tests }, Event::NoteTried) => Some(finish(tests, None)),
        _ => None,
    }
}

/// The stage and action after a sequence of events, where each event answered
/// the stage before it.
pub open spec fn after(plan: CachePlan, events: Seq<Event>) -> Option<(Stage, Action)>
    decreases events.len(),
{
    if events.len() == 0 {
        Some(first_step(plan))
    } else {
        match after(plan, events.drop_last()) {
            Some((stage, _)) => next_step(plan, stage, events.last()),
            None => None,
        }
    }
}

/// An upper bound on the number of events a stage still waits for.
pub open spec fn rank(stage: Stage) -> nat {
    match stage {
        Stage::Resolving => 10,
        Stage::ExportingFresh { .. } => 9,
        Stage::BuildingFresh { .. } => 8,
        Stage::DiffingFresh => 7,
        Stage::ExportingMiss { .. } => 6,
        Stage::BuildingMiss { .. } => 5,
        Stage::NotingMiss { .. } => 4,
        Stage::DiffingMiss => 3,
        Stage::DiffingCached => 3,
        Stage::DiffingParent => 3,
        Stage::Discovering { .. } => 1,
        Stage::Preparing { .. } => 2,
        Stage::NotingParent { .. } => 1,
        Stage::Finished => 0,
    }
}

/// Every step brings the pipeline nearer its end, so that no run takes more
/// than ten answers.
pub proof fn pipeline_ends(plan: CachePlan, events: Seq<Event>)
    ensures
        after(plan, events) matches Some((stage, _)) ==> rank(stage) + events.len() <= 10,
        after(plan, events) is Some ==> events.len() <= 10,
    decreases events.len(),
{
    if events.len() > 0 {
        pipeline_ends(plan, events.drop_last());
    }
}

/// The stages of a run that has no cache state.
spec fn without_state(stage: Stage) -> bool {
    match stage {
        Stage::Resolving
        | Stage::ExportingFresh { .. }
        | Stage::BuildingFresh { .. }
        | Stage::DiffingFresh
        | Stage::Finished => true,
        Stage::Preparing { note_sha } => note_sha is None,
        _ => false,
    }
}

/// Without a cache state, as in a run that was asked not to use the cache, no
/// note is ever written.
pub proof fn no_state_no_note(plan: CachePlan, events: Seq<Event>)
    requires
        plan.cache_state is None,
    ensures
        after(plan, events) matches Some((_, action)) ==> !(action is WriteNote),
{
    no_state_stages(plan, events);
}

proof fn no_state_stages(plan: CachePlan, events: Seq<Event>)
    requires
        plan.cache_state is None,
    ensures
        after(plan, events) matches Some((stage, action)) ==> without_state(stage) && !(
        action is WriteNote),
    decreases events.len(),
{
    if events.len() > 0 {
        no_state_stages(plan, events.drop_last());
    }
}

/// What a stage remembers comes from the cache state.
spec fn faithful(plan: CachePlan, stage: Stage) -> bool {
    match stage {
        Stage::ExportingMiss { sha } | Stage::BuildingMiss { sha } | Stage::NotingMiss { sha, .. } =>
        plan.cache_state == Some(
            CacheState::Checkpoint { checkpoint_sha: sha, cached_image: None },
        ),
        Stage::Preparing { note_sha: Some(sha) } => plan.cache_state == Some(
            CacheState::ParentBase { parent_sha: sha, cached_image_id: None },
        ),
        _ => true,
    }
}

proof fn stages_are_faithful(plan: CachePlan, events: Seq<Event>)
    ensures
        after(plan, events) matches Some((stage, _)) ==> faithful(plan, stage),
    decreases events.len(),
{
    if events.len() > 0 {
        stages_are_faithful(plan, events.drop_last());
    }
}

/// A note is written only on a commit whose image the cache lacked, and holds
/// the image that has just been built for it: the base image on a checkpoint,
/// the prepared image on a parent commit.
pub proof fn note_records_the_build(plan: CachePlan, events: Seq<Event>, sha: String, image: String)
    requires
        after(plan, events) matches Some((_, action)) && action == (Action::WriteNote { sha, image }),
    ensures
        events.len() > 0,
        ({
            ||| plan.cache_state == Some(
                CacheState::Checkpoint { checkpoint_sha: sha, cached_image: None },
            ) && events.last() == (Event::BaseBuilt { image: Some(image) })
            ||| plan.cache_state == Some(
                CacheState::ParentBase { parent_sha: sha, cached_image_id: None },
            ) && events.last() is Prepared && events.last()->Prepared_image == Some(image)
        }),
{
    if events.len() > 0 {
        stages_are_faithful(plan, events.drop_last());
    }
}

/// A run starts only where there are tests, and one that ends for want of
/// tests has found none.
pub proof fn dispatch_needs_tests(tests: usize, image: Option<String>)
    ensures
        ending(tests, image).1 is Dispatch <==> tests > 0,
        ending(tests, image).1 is Nothing <==> tests == 0,
{
}

/// A run without an image of its own has gone through the full build.
pub proof fn imageless_run_was_prepared(plan: CachePlan, events: Seq<Event>)
    ensures
        after(plan, events) matches Some((_, action)) ==> (action == (Action::Dispatch { image: None })
            || action == (Action::Nothing { image: None })) ==> exists|i: int|
            0 <= i < events.len() && (#[trigger] events[i]) is Prepared,
    decreases events.len(),
{
    prepared_before_noting(plan, events);
    if events.len() > 0 {
        prepared_before_noting(plan, events.drop_last());
        if events.last() is Prepared {
            assert(events[events.len() - 1] is Prepared);
        }
        if exists|i: int| 0 <= i < events.len() - 1 && (#[trigger] events.drop_last()[i]) is Prepared {
            let i = choose|i: int|
                0 <= i < events.len() - 1 && (#[trigger] events.drop_last()[i]) is Prepared;
            assert(events[i] is Prepared);
        }
    }
}

proof fn prepared_before_noting(plan: CachePlan, events: Seq<Event>)
    ensures
        after(plan, events) matches Some((stage, _)) ==> stage is NotingParent ==> exists|i: int|
            0 <= i < events.len() && (#[trigger] events[i]) is Prepared,
{
    if events.len() > 0 && events.last() is Prepared {
        assert(events[events.len() - 1] is Prepared);
    }
}

/// Where a thin diff fails the run goes on: it builds fully, or, where a
/// build without cache failed, it turns to the cache state.
pub proof fn failed_diff_falls_back(plan: CachePlan, stage: Stage, event: Event)
    requires
        event is DiscoveredAndDiffed && event->DiscoveredAndDiffed_image is None || event == (
        Event::Diffed { image: None }),
        next_step(plan, stage, event) is Some,
    ensures
        next_step(plan, stage, event) == Some(full_build(None)) || (stage is DiffingFresh
            && next_step(plan, stage, event) == Some(by_cache_state(plan))),
{
}

/// A cached image is tried before anything is built: a thin diff on it starts
/// the run, and where that works the run goes on with the image of the diff.
pub proof fn cached_image_comes_first(
    plan: CachePlan,
    sha: String,
    cached: CachedImage,
    base: String,
    image: String,
    tests: usize,
)
    requires
        !(plan.no_cache && plan.checkpoint_configured),
    ensures
        plan.cache_state == Some(
            CacheState::Checkpoint { checkpoint_sha: sha, cached_image: Some(cached) },
        ) ==> first_step(plan).1 == (Action::DiscoverAndDiff { base: cached.image_id, sha })
            && next_step(
            plan,
            first_step(plan).0,
            Event::DiscoveredAndDiffed { tests, image: Some(image) },
        ) == Some(ending(tests, Some(image))),
        plan.cache_state == Some(
            CacheState::ParentBase { parent_sha: sha, cached_image_id: Some(base) },
        ) ==> first_step(plan).1 == (Action::Diff { base, sha }) && (next_step(
            plan,
            first_step(plan).0,
            Event::Diffed { image: Some(image) },
        ) matches Some((stage, action)) && action is Discover && next_step(
            plan,
            stage,
            Event::Discovered { tests },
        ) == Some(ending(tests, Some(image)))),
{
}

/// The image of a run was reported to the pipeline by a thin diff.
pub proof fn dispatched_image_was_reported(plan: CachePlan, events: Seq<Event>, image: String)
    requires
        after(plan, events) matches Some((_, action)) && (action == (Action::Dispatch {
            image: Some(image),
        }) || action == (Action::Nothing { image: Some(image) })),
    ensures
        exists|i: int|
            0 <= i < events.len() && reports(#[trigger] events[i], image),
{
    if events.len() > 0 {
        let rest = events.drop_last();
        discovering_image_was_reported(plan, rest);
        assert(events[events.len() - 1] == events.last());
        if exists|i: int| 0 <= i < rest.len() && reports(#[trigger] rest[i], image) {
            let i = choose|i: int| 0 <= i < rest.len() && reports(#[trigger] rest[i], image);
            assert(reports(events[i], image));
        } else {
            assert(reports(events.last(), image));
        }
    }
}

/// An event reports the image of a thin diff.
pub open spec fn reports(event: Event, image: String) -> bool {
    match event {
        Event::DiscoveredAndDiffed { tests, image: found } => found == Some(image),
        Event::Diffed { image: found } => found == Some(image),
        _ => false,
    }
}

proof fn discovering_image_was_reported(plan: CachePlan, events: Seq<Event>)
    ensures
        after(plan, events) matches Some((stage, _)) ==> (stage matches Stage::Discovering { image }
            ==> exists|i: int| 0 <= i < events.len() && reports(#[trigger] events[i], image)),
{
    if events.len() > 0 {
        assert(events[events.len() - 1] == events.last());
        match after(plan, events) {
            Some((Stage::Discovering { image }, _)) => {
                assert(reports(events[events.len() - 1], image));
            },
            _ => {},
        }
    }
}

/// A thin diff is built on the cached image of its commit, or on the image
/// that was built for that commit.
pub proof fn diff_starts_from_base(plan: CachePlan, events: Seq<Event>, base: String, sha: String)
    requires
        after(plan, events) matches Some((_, action)) && (action == (Action::DiscoverAndDiff {
            base,
            sha,
        }) || action == (Action::Diff { base, sha })),
    ensures
        ({
            ||| plan.cache_state matches Some(CacheState::Checkpoint { checkpoint_sha, cached_image })
                && checkpoint_sha == sha && (cached_image matches Some(c) && c.image_id == base)
            ||| plan.cache_state == Some(
                CacheState::ParentBase { parent_sha: sha, cached_image_id: Some(base) },
            )
            ||| events.contains(Event::BaseBuilt { image: Some(base) }) && (events.contains(
                Event::Resolved { sha: Some(sha) },
            ) || plan.cache_state == Some(
                CacheState::Checkpoint { checkpoint_sha: sha, cached_image: None },
            ))
        }),
{
    stages_are_faithful(plan, events);
    if events.len() > 0 {
        let rest = events.drop_last();
        stages_are_faithful(plan, rest);
        stages_know_commit(plan, rest);
        assert(events[events.len() - 1] == events.last());
        assert forall|e: Event| #[trigger] rest.contains(e) implies events.contains(e) by {
            let k = choose|k: int| 0 <= k < rest.len() && rest[k] == e;
            assert(events[k] == e);
        }
    }
}

/// The commit and the image that a stage remembers were reported.
spec fn knows_commit(stage: Stage, events: Seq<Event>) -> bool {
    match stage {
        Stage::ExportingFresh { sha } | Stage::BuildingFresh { sha } => events.contains(
            Event::Resolved { sha: Some(sha) },
        ),
        Stage::NotingMiss { image, .. } => events.contains(Event::BaseBuilt { image: Some(image) }),
        _ => true,
    }
}

proof fn stages_know_commit(plan: CachePlan, events: Seq<Event>)
    ensures
        after(plan, events) matches Some((stage, _)) ==> knows_commit(stage, events),
    decreases events.len(),
{
    if events.len() > 0 {
        let rest = events.drop_last();
        stages_know_commit(plan, rest);
        assert(events[events.len() - 1] == events.last());
        assert forall|e: Event| #[trigger] rest.contains(e) implies events.contains(e) by {
            let k = choose|k: int| 0 <= k < rest.len() && rest[k] == e;
            assert(events[k] == e);
        }
    }
}

/// A run is given up only where something failed, and it is said what.
pub proof fn only_failures_abort(plan: CachePlan, events: Seq<Event>, failure: Failure)
    requires
        after(plan, events) matches Some((_, action)) && action == (Action::Abort { failure }),
    ensures
        events.len() > 0,
        failure is Discovery <==> events.last() == Event::DiscoveryFailed,
        !(failure is Discovery) <==> events.last() == Event::Failed,
        failure matches Failure::Export { sha } ==> (after(plan, events.drop_last()) matches Some(
            (_, action),
        ) && action == (Action::ExportTree { sha })),
        failure is Base ==> (after(plan, events.drop_last()) matches Some((_, action))
            && action is BuildBase),
        failure is Prepare ==> (after(plan, events.drop_last()) matches Some((_, action))
            && action is DiscoverAndPrepare),
{
    if events.len() > 0 {
        action_fits_stage(plan, events.drop_last());
    }
}

spec fn fits(stage: Stage, action: Action) -> bool {
    match stage {
        Stage::ExportingFresh { sha } | Stage::ExportingMiss { sha } => action == (
        Action::ExportTree { sha }),
        Stage::BuildingFresh { .. } | Stage::BuildingMiss { .. } => action is BuildBase,
        Stage::Preparing { .. } => action is DiscoverAndPrepare,
        _ => true,
    }
}

proof fn action_fits_stage(plan: CachePlan, events: Seq<Event>)
    ensures
        after(plan, events) matches Some((stage, action)) ==> fits(stage, action),
{
    if events.len() > 0 {
        match after(plan, events.drop_last()) {
            Some((stage, _)) => {},
            None => {},
        }
    }
}

/// A checkpoint without an image gets one: its tree is exported and built, the
/// image is recorded in its note, and the thin diff starts from it.
pub proof fn missed_checkpoint_is_built(plan: CachePlan, sha: String, image: String)
    requires
        !(plan.no_cache && plan.checkpoint_configured),
        plan.cache_state == Some(
            CacheState::Checkpoint { checkpoint_sha: sha, cached_image: None },
        ),
    ensures
        ({
            let built = Event::BaseBuilt { image: Some(image) };
            let events = seq![Event::Exported, built, Event::NoteTried];
            &&& first_step(plan).1 == (Action::ExportTree { sha })
            &&& after(plan, events.take(1)) matches Some((_, action)) && action is BuildBase
            &&& after(plan, events.take(2)) matches Some((_, action)) && action == (
            Action::WriteNote { sha, image })
            &&& after(plan, events) matches Some((_, action)) && action == (
            Action::DiscoverAndDiff { base: image, sha })
        }),
{
    let built = Event::BaseBuilt { image: Some(image) };
    let events = seq![Event::Exported, built, Event::NoteTried];
    assert(events.take(1).drop_last() =~= Seq::<Event>::empty());
    assert(events.take(2).drop_last() =~= events.take(1));
    assert(events.drop_last() =~= events.take(2));
    assert(after(plan, Seq::<Event>::empty()) == Some(first_step(plan)));
}

/// Without a checkpoint and an image for the parent commit, the run builds
/// fully, and the image is recorded in the note of the parent commit. Without
/// a parent nothing is recorded.
pub proof fn prepared_parent_is_noted(plan: CachePlan, sha: String, image: String, tests: usize)
    requires
        !(plan.no_cache && plan.checkpoint_configured),
    ensures
        ({
            let prepared = Event::Prepared { tests, image: Some(image) };
            &&& plan.cache_state == Some(
                CacheState::ParentBase { parent_sha: sha, cached_image_id: None },
            ) ==> first_step(plan).1 is DiscoverAndPrepare && (next_step(
                plan,
                first_step(plan).0,
                prepared,
            ) matches Some((stage, action)) && action == (Action::WriteNote { sha, image })
                && next_step(plan, stage, Event::NoteTried) == Some(ending(tests, None)))
            &&& plan.cache_state is None ==> first_step(plan).1 is DiscoverAndPrepare && next_step(
                plan,
                first_step(plan).0,
                prepared,
            ) == Some(ending(tests, None))
        }),
{
}

/// A build without cache starts from the checkpoint commit that was found: its
/// tree is exported and built anew, and the thin diff starts from that image.
pub proof fn fresh_build_starts_from_checkpoint(plan: CachePlan, sha: String, image: String)
    requires
        plan.no_cache,
        plan.checkpoint_configured,
    ensures
        ({
            let built = Event::BaseBuilt { image: Some(image) };
            let events = seq![Event::Resolved { sha: Some(sha) }, Event::Exported, built];
            &&& first_step(plan).1 is ResolveCheckpoint
            &&& after(plan, events.take(1)) matches Some((_, action)) && action == (
            Action::ExportTree { sha })
            &&& after(plan, events.take(2)) matches Some((_, action)) && action is BuildBase
            &&& after(plan, events) matches Some((_, action)) && action == (
            Action::DiscoverAndDiff { base: image, sha })
        }),
{
    let built = Event::BaseBuilt { image: Some(image) };
    let events = seq![Event::Resolved { sha: Some(sha) }, Event::Exported, built];
    assert(events.take(1).drop_last() =~= Seq::<Event>::empty());
    assert(events.take(2).drop_last() =~= events.take(1));
    assert(events.drop_last() =~= events.take(2));
    assert(after(plan, Seq::<Event>::empty()) == Some(first_step(plan)));
}

} // verus!
