//! Image caching for sandbox environments.
//!
//! A base commit is chosen whose image is built once and cached; a run then
//! applies only a thin diff on top of it. With a checkpoint section the base
//! is the nearest ancestor that touches a build input, without one it is HEAD.

use vstd::prelude::*;

use crate::checkpoint::{recorded_image, resolve_cached_image};
use crate::git::NoteContents;
use crate::text;
use crate::text::{clipped, counting, decimal, lines_of, views};

pub mod prewarm;

verus! {

/// A provider-specific opaque image identifier read from a git note.
#[derive(Debug)]
pub struct CachedImage {
    pub image_id: String,
}

/// Result of checkpoint-mode resolution: the base commit and its cached image.
#[derive(Debug)]
pub struct CheckpointInfo {
    pub checkpoint_sha: String,
    pub cached_image: Option<CachedImage>,
}

/// Result of latest-commit-mode resolution: HEAD and its cached image.
#[derive(Debug)]
pub struct LatestCommitInfo {
    pub head_sha: String,
    pub cached_image: Option<CachedImage>,
}

/// The image that a note records, unless the cache is not to be used.
pub open spec fn looked_up(
    no_cache: bool,
    note: Option<NoteContents>,
    key: Seq<char>,
) -> Option<CachedImage> {
    if no_cache {
        None
    } else {
        match recorded_image(note, key) {
            Some(image_id) => Some(CachedImage { image_id }),
            None => None,
        }
    }
}

fn look_up(no_cache: bool, note: &Option<NoteContents>, config_key: &str) -> (r: Option<CachedImage>)
    ensures
        r == looked_up(no_cache, *note, config_key@),
{
    if no_cache {
        None
    } else {
        match resolve_cached_image(note, config_key) {
            Some(image_id) => Some(CachedImage { image_id }),
            None => None,
        }
    }
}

/// Latest-commit mode: HEAD is the base commit. A repository without commits
/// has none.
pub fn resolve_latest_commit(
    head_sha: Option<String>,
    note: &Option<NoteContents>,
    config_key: &str,
    no_cache: bool,
) -> (r: Option<LatestCommitInfo>)
    ensures
        match head_sha {
            Some(head_sha) => r == Some(
                LatestCommitInfo { head_sha, cached_image: looked_up(no_cache, *note, config_key@) },
            ),
            None => r is None,
        },
{
    match head_sha {
        Some(head_sha) => Some(
            LatestCommitInfo { head_sha, cached_image: look_up(no_cache, note, config_key) },
        ),
        None => None,
    }
}

/// Checkpoint mode: the nearest ancestor that touches a build input is the
/// base commit.
pub fn resolve_checkpoint(
    checkpoint_sha: Option<String>,
    note: &Option<NoteContents>,
    config_key: &str,
    no_cache: bool,
) -> (r: Option<CheckpointInfo>)
    ensures
        match checkpoint_sha {
            Some(checkpoint_sha) => r == Some(
                CheckpointInfo {
                    checkpoint_sha,
                    cached_image: looked_up(no_cache, *note, config_key@),
                },
            ),
            None => r is None,
        },
{
    match checkpoint_sha {
        Some(checkpoint_sha) => Some(
            CheckpointInfo { checkpoint_sha, cached_image: look_up(no_cache, note, config_key) },
        ),
        None => None,
    }
}

/// Which caching mode determined the base commit.
#[derive(Debug, Clone, Copy, PartialEq, Eq, Structural)]
pub enum BaseKind {
    /// Base is the nearest ancestor touching a `build_inputs` file.
    Checkpoint,
    /// Base is HEAD (no `build_inputs` configured).
    LatestCommit,
}

impl BaseKind {
    /// How the mode is called in messages.
    pub open spec fn label_view(self) -> Seq<char> {
        match self {
            BaseKind::Checkpoint => "Checkpoint"@,
            BaseKind::LatestCommit => "Latest-commit"@,
        }
    }

    /// How the mode is called in messages.
    pub fn label(&self) -> (r: String)
        ensures
            r@ == self.label_view(),
    {
        match self {
            BaseKind::Checkpoint => "Checkpoint".to_owned(),
            BaseKind::LatestCommit => "Latest-commit".to_owned(),
        }
    }
}

/// The base commit (and optional cached image) chosen before provider dispatch.
#[derive(Debug)]
pub struct ResolvedBase {
    pub base_sha: String,
    pub cached_image_id: Option<String>,
    pub kind: BaseKind,
}

/// What resolution in either mode found.
#[derive(Debug)]
pub enum BaseLookup {
    /// There is no repository, or resolution failed.
    Unavailable,
    /// The outcome of checkpoint mode.
    Checkpoint(Option<CheckpointInfo>),
    /// The outcome of latest-commit mode.
    LatestCommit(Option<LatestCommitInfo>),
}

/// The base commit and cached image that a lookup stands for.
pub open spec fn base_of(lookup: BaseLookup) -> Option<ResolvedBase> {
    match lookup {
        BaseLookup::Checkpoint(Some(info)) => Some(
            ResolvedBase {
                base_sha: info.checkpoint_sha,
                cached_image_id: match info.cached_image {
                    Some(c) => Some(c.image_id),
                    None => None,
                },
                kind: BaseKind::Checkpoint,
            },
        ),
        BaseLookup::LatestCommit(Some(info)) => Some(
            ResolvedBase {
                base_sha: info.head_sha,
                cached_image_id: match info.cached_image {
                    Some(c) => Some(c.image_id),
                    None => None,
                },
                kind: BaseKind::LatestCommit,
            },
        ),
        _ => None,
    }
}

/// Picks the base commit and its cached image, as best it goes.
pub fn resolve_base(lookup: BaseLookup) -> (r: Option<ResolvedBase>)
    ensures
        r == base_of(lookup),
{
    match lookup {
        BaseLookup::Checkpoint(Some(info)) => Some(
            ResolvedBase {
                base_sha: info.checkpoint_sha,
                cached_image_id: match info.cached_image {
                    Some(c) => Some(c.image_id),
                    None => None,
                },
                kind: BaseKind::Checkpoint,
            },
        ),
        BaseLookup::LatestCommit(Some(info)) => Some(
            ResolvedBase {
                base_sha: info.head_sha,
                cached_image_id: match info.cached_image {
                    Some(c) => Some(c.image_id),
                    None => None,
                },
                kind: BaseKind::LatestCommit,
            },
        ),
        _ => None,
    }
}

/// The patterns of an ignore file: its lines but for blank ones and comments.
/// A missing file has none.
pub fn read_dockerignore_patterns(contents: Option<&str>) -> (r: Vec<String>)
    ensures
        match contents {
            Some(c) => views(r@) == counting(lines_of(c@)),
            None => r@.len() == 0,
        },
{
    match contents {
        Some(c) => text::significant_lines(c),
        None => Vec::new(),
    }
}

/// The arguments of `rsync` that copy a directory's contents without the
/// given patterns.
pub open spec fn snapshot_command(
    patterns: Seq<Seq<char>>,
    source: Seq<char>,
    dest: Seq<char>,
) -> Seq<Seq<char>> {
    seq!["-a"@] + Seq::new(patterns.len(), |i: int| "--exclude="@ + patterns[i]) + seq![
        "--"@,
        source + "/"@,
        dest,
    ]
}

/// The arguments of `rsync` that copy a directory's contents without the
/// given patterns.
pub fn snapshot_args(patterns: &Vec<String>, source: &str, dest: &str) -> (r: Vec<String>)
    ensures
        views(r@) == snapshot_command(views(patterns@), source@, dest@),
{
    let mut args: Vec<String> = Vec::new();
    args.push("-a".to_owned());
    let ghost excludes = Seq::new(views(patterns@).len(), |i: int| "--exclude="@ + views(patterns@)[i]);
    let mut i: usize = 0;
    proof {
        assert(views(args@) =~= seq!["-a"@] + excludes.take(0));
    }
    while i < patterns.len()
        invariant
            0 <= i <= patterns@.len(),
            excludes == Seq::new(
                views(patterns@).len(),
                |i: int| "--exclude="@ + views(patterns@)[i],
            ),
            views(args@) == seq!["-a"@] + excludes.take(i as int),
        decreases patterns@.len() - i,
    {
        let ghost before = args@;
        let mut a = "--exclude=".to_owned();
        a.append(patterns[i].as_str());
        args.push(a);
        proof {
            assert(a@ == excludes[i as int]);
            assert(views(args@) =~= views(before).push(a@));
            assert(views(args@) =~= seq!["-a"@] + excludes.take(i + 1));
        }
        i = i + 1;
    }
    let mut src = source.to_owned();
    src.append("/");
    let ghost before = args@;
    args.push("--".to_owned());
    args.push(src);
    args.push(dest.to_owned());
    proof {
        assert(excludes.take(i as int) =~= excludes);
        assert(views(args@) =~= views(before) + seq!["--"@, src@, dest@]);
        assert(views(args@) =~= snapshot_command(views(patterns@), source@, dest@));
    }
    args
}

/// A commit is so many commits back: that is where it first stands in the log
/// from HEAD.
pub open spec fn is_back(log: Seq<Seq<char>>, sha: Seq<char>, back: Option<usize>) -> bool {
    match back {
        Some(d) => d < log.len() && log[d as int] == sha && forall|i: int|
            0 <= i < d ==> #[trigger] log[i] != sha,
        None => !log.contains(sha),
    }
}

/// How many commits back a commit is, where it is in the log from HEAD.
pub fn distance_back(log: &Vec<String>, sha: &str) -> (r: Option<usize>)
    ensures
        is_back(views(log@), sha@, r),
{
    let mut i: usize = 0;
    while i < log.len()
        invariant
            0 <= i <= log@.len(),
            forall|k: int| 0 <= k < i ==> #[trigger] views(log@)[k] != sha@,
        decreases log@.len() - i,
    {
        assert(views(log@)[i as int] == log@[i as int]@);
        if text::same(log[i].as_str(), sha) {
            return Some(i);
        }
        i = i + 1;
    }
    None
}

/// What the status command reports on.
#[derive(Debug)]
pub enum StatusReport {
    /// No checkpoint was found in the last hundred commits.
    NoCheckpoint { head: String },
    /// A checkpoint, its distance from HEAD, its cached image and the number
    /// of files changed since, as far as these are known.
    Checkpoint {
        head: String,
        base: String,
        distance: Option<usize>,
        image: Option<String>,
        changed: Option<usize>,
    },
    /// The repository has no commits.
    EmptyRepository,
    /// HEAD as the base, with its cached image.
    LatestCommit { head: String, base: String, image: Option<String> },
}

/// How a run with a cached checkpoint image will go.
pub open spec fn run_mode(head: Seq<char>, base: Seq<char>, changed: Option<usize>) -> Seq<char> {
    if base == head {
        "use checkpoint image directly (HEAD is the checkpoint)"@
    } else {
        match changed {
            Some(n) => "thin diff ("@ + decimal(n as int) + " files changed since checkpoint)"@,
            None => "thin diff"@,
        }
    }
}

/// How far back a checkpoint is.
pub open spec fn distance_label(distance: Option<usize>) -> Seq<char> {
    match distance {
        Some(d) => decimal(d as int) + " commits back"@,
        None => "unknown distance"@,
    }
}

/// The lines of a status report.
pub open spec fn status_view(report: StatusReport) -> Seq<Seq<char>> {
    match report {
        StatusReport::NoCheckpoint { head } => seq![
            "HEAD:               "@ + clipped(head@, 8),
            "Base commit:        (no checkpoint found in last 100 commits)"@,
            "Next run mode:      full build (no checkpoint found)"@,
        ],
        StatusReport::Checkpoint { head, base, distance, image, changed } => seq![
            "HEAD:               "@ + clipped(head@, 8),
            "Base commit:        "@ + clipped(base@, 8) + " (checkpoint, "@ + distance_label(
                distance,
            ) + ")"@,
            match image {
                Some(id) => "Cached image:       "@ + id@,
                None => "Cached image:       (none)"@,
            },
            match image {
                Some(_) => "Next run mode:      "@ + run_mode(head@, base@, changed),
                None => "Next run mode:      full build (no cached checkpoint image)"@,
            },
        ],
        StatusReport::EmptyRepository => seq![
            "HEAD:               (none -- empty repo)"@,
            "Next run mode:      full build"@,
        ],
        StatusReport::LatestCommit { head, base, image } => seq![
            "HEAD:               "@ + clipped(head@, 8),
            "Base commit:        "@ + clipped(base@, 8) + " (latest commit, HEAD)"@,
            match image {
                Some(id) => "Cached image:       "@ + id@,
                None => "Cached image:       (none)"@,
            },
            match image {
                Some(_) => "Next run mode:      thin diff (uncommitted changes only)"@,
                None => "Next run mode:      full build (no cached image for HEAD)"@,
            },
        ],
    }
}

fn labelled(label: &str, value: &str) -> (r: String)
    ensures
        r@ == label@ + value@,
{
    let mut s = label.to_owned();
    s.append(value);
    s
}

/// How a run with a cached checkpoint image will go.
pub fn describe_run_mode(head: &str, base: &str, changed: Option<usize>) -> (r: String)
    ensures
        r@ == run_mode(head@, base@, changed),
{
    if text::same(base, head) {
        "use checkpoint image directly (HEAD is the checkpoint)".to_owned()
    } else {
        match changed {
            Some(n) => {
                let count = text::decimal_u64(n as u64);
                let mut s = labelled("thin diff (", count.as_str());
                s.append(" files changed since checkpoint)");
                s
            },
            None => "thin diff".to_owned(),
        }
    }
}

/// The lines of a status report.
pub fn status_lines(report: &StatusReport) -> (r: Vec<String>)
    ensures
        views(r@) == status_view(*report),
{
    let mut lines: Vec<String> = Vec::new();
    match report {
        StatusReport::NoCheckpoint { head } => {
            let h = text::clip(head.as_str(), 8);
            lines.push(labelled("HEAD:               ", h.as_str()));
            lines.push("Base commit:        (no checkpoint found in last 100 commits)".to_owned());
            lines.push("Next run mode:      full build (no checkpoint found)".to_owned());
        },
        StatusReport::Checkpoint { head, base, distance, image, changed } => {
            let h = text::clip(head.as_str(), 8);
            let b = text::clip(base.as_str(), 8);
            let back = match distance {
                Some(d) => {
                    let mut s = text::decimal_u64(*d as u64);
                    s.append(" commits back");
                    s
                },
                None => "unknown distance".to_owned(),
            };
            lines.push(labelled("HEAD:               ", h.as_str()));
            let mut line = labelled("Base commit:        ", b.as_str());
            line.append(" (checkpoint, ");
            line.append(back.as_str());
            line.append(")");
            lines.push(line);
            match image {
                Some(id) => {
                    lines.push(labelled("Cached image:       ", id.as_str()));
                    let mode = describe_run_mode(head.as_str(), base.as_str(), *changed);
                    lines.push(labelled("Next run mode:      ", mode.as_str()));
                },
                None => {
                    lines.push("Cached image:       (none)".to_owned());
                    lines.push(
                        "Next run mode:      full build (no cached checkpoint image)".to_owned(),
                    );
                },
            }
        },
        StatusReport::EmptyRepository => {
            lines.push("HEAD:               (none -- empty repo)".to_owned());
            lines.push("Next run mode:      full build".to_owned());
        },
        StatusReport::LatestCommit { head, base, image } => {
            let h = text::clip(head.as_str(), 8);
            let b = text::clip(base.as_str(), 8);
            lines.push(labelled("HEAD:               ", h.as_str()));
            let mut line = labelled("Base commit:        ", b.as_str());
            line.append(" (latest commit, HEAD)");
            lines.push(line);
            match image {
                Some(id) => {
                    lines.push(labelled("Cached image:       ", id.as_str()));
                    lines.push(
                        "Next run mode:      thin diff (uncommitted changes only)".to_owned(),
                    );
                },
                None => {
                    lines.push("Cached image:       (none)".to_owned());
                    lines.push(
                        "Next run mode:      full build (no cached image for HEAD)".to_owned(),
                    );
                },
            }
        },
    }
    proof {
        assert(views(lines@) =~= status_view(*report));
    }
    lines
}

/// What came of the steps of a thin diff.
#[derive(Debug)]
pub enum ThinDiff {
    /// The diff could not be generated.
    DiffFailed(String),
    /// The working tree does not differ from the base commit.
    NoChanges,
    /// The incremental build failed.
    BuildFailed(String),
    /// The incremental build, with its image where it reported one.
    Built(Option<String>),
}

/// The image of a thin diff: the base image unchanged where there is no diff.
pub fn try_thin_diff(base_image_id: &str, outcome: ThinDiff) -> (r: Result<String, String>)
    ensures
        match outcome {
            ThinDiff::DiffFailed(e) => r matches Err(m) && m@
                == "failed to generate checkpoint diff: "@ + e@,
            ThinDiff::NoChanges => r matches Ok(id) && id@ == base_image_id@,
            ThinDiff::BuildFailed(e) => r == Err::<String, String>(e),
            ThinDiff::Built(Some(id)) => r == Ok::<String, String>(id),
            ThinDiff::Built(None) => r matches Err(m) && m@
                == "build_incremental returned no image ID"@,
        },
{
    match outcome {
        ThinDiff::DiffFailed(e) => Err(labelled("failed to generate checkpoint diff: ", e.as_str())),
        ThinDiff::NoChanges => Ok(base_image_id.to_owned()),
        ThinDiff::BuildFailed(e) => Err(e),
        ThinDiff::Built(Some(id)) => Ok(id),
        ThinDiff::Built(None) => Err("build_incremental returned no image ID".to_owned()),
    }
}

/// Without the cache no image is looked up; with it, the image is the one
/// that the note records.
pub proof fn lookup_follows_note(no_cache: bool, note: Option<NoteContents>, key: Seq<char>)
    ensures
        no_cache ==> looked_up(no_cache, note, key) is None,
        !no_cache ==> match looked_up(no_cache, note, key) {
            Some(cached) => note matches Some(contents) && contents@.contains_key(key)
                && contents@[key].image_id == cached.image_id && cached.image_id@.len() > 0,
            None => note matches Some(contents) ==> !contents@.contains_key(key)
                || contents@[key].image_id@.len() == 0,
        },
{
}

/// A base is the commit that its mode found, with that commit's cached image;
/// where nothing was found there is none.
pub proof fn base_is_what_was_found(lookup: BaseLookup)
    ensures
        match base_of(lookup) {
            Some(base) => match base.kind {
                BaseKind::Checkpoint => lookup matches BaseLookup::Checkpoint(found) && (
                found matches Some(info) && info.checkpoint_sha == base.base_sha && (
                match base.cached_image_id {
                    Some(id) => info.cached_image matches Some(c) && c.image_id == id,
                    None => info.cached_image is None,
                })),
                BaseKind::LatestCommit => lookup matches BaseLookup::LatestCommit(found) && (
                found matches Some(info) && info.head_sha == base.base_sha && (
                match base.cached_image_id {
                    Some(id) => info.cached_image matches Some(c) && c.image_id == id,
                    None => info.cached_image is None,
                })),
            },
            None => match lookup {
                BaseLookup::Unavailable => true,
                BaseLookup::Checkpoint(found) => found is None,
                BaseLookup::LatestCommit(found) => found is None,
            },
        },
{
}

/// A snapshot leaves out every pattern, one after the other, and copies the
/// contents of the source, which a slash marks, to the destination.
pub proof fn snapshot_leaves_out_patterns(
    patterns: Seq<Seq<char>>,
    source: Seq<char>,
    dest: Seq<char>,
)
    ensures
        snapshot_command(patterns, source, dest).len() == patterns.len() + 4,
        forall|i: int|
            0 <= i < patterns.len() ==> #[trigger] snapshot_command(patterns, source, dest)[1 + i]
                == "--exclude="@ + patterns[i],
        snapshot_command(patterns, source, dest).subrange(
            1 + patterns.len() as int,
            4 + patterns.len() as int,
        ) == seq!["--"@, source + "/"@, dest],
        snapshot_command(patterns, source, dest)[0] == "-a"@,
{
    let n = patterns.len() as int;
    assert(snapshot_command(patterns, source, dest).subrange(1 + n, 4 + n) =~= seq![
        "--"@,
        source + "/"@,
        dest,
    ]);
}

/// How far back a commit is tells where it stands: it is at most one answer.
pub proof fn distance_is_the_first_place(log: Seq<Seq<char>>, sha: Seq<char>, i: int)
    requires
        0 <= i < log.len() <= usize::MAX,
        log[i] == sha,
        forall|k: int| 0 <= k < i ==> #[trigger] log[k] != sha,
    ensures
        forall|back: Option<usize>| #[trigger] is_back(log, sha, back) <==> back == Some(i as usize),
{
    assert(log.contains(log[i]));
    assert forall|back: Option<usize>| #[trigger] is_back(log, sha, back) <==> back == Some(
        i as usize,
    ) by {
        match back {
            Some(d) => {
                if d < i && is_back(log, sha, back) {
                    assert(log[d as int] != sha);
                }
                if d > i && is_back(log, sha, back) {
                    assert(log[i] != sha);
                }
            },
            None => {},
        }
    }
}

/// A cached checkpoint image is used as it is exactly where HEAD is the
/// checkpoint; else a thin diff is announced, with the number of changed files
/// where it is known.
pub proof fn run_mode_tells_diff(head: Seq<char>, base: Seq<char>, changed: Option<usize>)
    ensures
        base == head ==> run_mode(head, base, changed)
            == "use checkpoint image directly (HEAD is the checkpoint)"@,
        base != head ==> run_mode(head, base, changed) == "thin diff"@ + (match changed {
            Some(n) => " ("@ + decimal(n as int) + " files changed since checkpoint)"@,
            None => Seq::empty(),
        }),
{
    reveal_strlit("thin diff (");
    reveal_strlit("thin diff");
    reveal_strlit(" (");
    match changed {
        Some(n) => {
            let d = decimal(n as int);
            let tail = " files changed since checkpoint)"@;
            assert("thin diff ("@ + d + tail =~= "thin diff"@ + (" ("@ + d + tail));
        },
        None => {
            assert("thin diff"@ + Seq::<char>::empty() =~= "thin diff"@);
        },
    }
}

/// A report tells the cached image and announces a full build exactly where
/// there is none.
pub proof fn status_announces_full_build(report: StatusReport)
    ensures
        match report {
            StatusReport::Checkpoint { image, .. } => status_view(report).len() == 4 && (
            image matches Some(id) ==> status_view(report)[2] == "Cached image:       "@ + id@) && (
            image is None ==> status_view(report)[2] == "Cached image:       (none)"@
                && status_view(report)[3]
                == "Next run mode:      full build (no cached checkpoint image)"@),
            StatusReport::LatestCommit { image, .. } => status_view(report).len() == 4 && (
            image matches Some(id) ==> status_view(report)[2] == "Cached image:       "@ + id@
                && status_view(report)[3]
                == "Next run mode:      thin diff (uncommitted changes only)"@) && (image is None
                ==> status_view(report)[2] == "Cached image:       (none)"@ && status_view(report)[3]
                == "Next run mode:      full build (no cached image for HEAD)"@),
            StatusReport::NoCheckpoint { .. } => status_view(report).last()
                == "Next run mode:      full build (no checkpoint found)"@,
            StatusReport::EmptyRepository => status_view(report).last()
                == "Next run mode:      full build"@,
        },
{
}

} // verus!
