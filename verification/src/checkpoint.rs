//! Checkpoint commits and the images cached for them.

use vstd::prelude::*;

use crate::git::{ImageEntry, NoteContents};

verus! {

/// A cached image entry found in a git note for a checkpoint commit.
#[derive(Debug)]
pub struct CachedImage {
    /// The cached image identifier.
    pub image_id: String,
    /// The build inputs hash stored alongside the image, if any.
    pub build_inputs_hash: Option<String>,
}

/// Information about a resolved checkpoint commit.
#[derive(Debug)]
pub struct CheckpointInfo {
    /// The SHA of the checkpoint commit.
    pub checkpoint_sha: String,
    /// The cached image for this checkpoint, if one exists in git notes.
    pub cached_image: Option<CachedImage>,
}

/// What a note records for a configuration: an entry without an image id
/// counts for nothing.
pub open spec fn recorded_entry(note: Option<NoteContents>, key: Seq<char>) -> Option<CachedImage> {
    match note {
        Some(contents) => if contents@.contains_key(key) && contents@[key].image_id@.len() > 0 {
            Some(
                CachedImage {
                    image_id: contents@[key].image_id,
                    build_inputs_hash: contents@[key].build_inputs_hash,
                },
            )
        } else {
            None
        },
        None => None,
    }
}

/// The image that a note records for a configuration.
pub open spec fn recorded_image(note: Option<NoteContents>, key: Seq<char>) -> Option<String> {
    match recorded_entry(note, key) {
        Some(cached) => Some(cached.image_id),
        None => None,
    }
}

/// What the note of a commit records for a configuration.
pub fn read_cached_image(note: &Option<NoteContents>, config_key: &str) -> (r: Option<CachedImage>)
    ensures
        r == recorded_entry(*note, config_key@),
{
    match note {
        Some(contents) => match contents.get(config_key) {
            Some(entry) => if entry.image_id.as_str().is_empty() {
                None
            } else {
                let entry = entry.clone();
                Some(
                    CachedImage {
                        image_id: entry.image_id,
                        build_inputs_hash: entry.build_inputs_hash,
                    },
                )
            },
            None => None,
        },
        None => None,
    }
}

/// The image that the note of a commit records for a configuration.
pub fn resolve_cached_image(note: &Option<NoteContents>, config_key: &str) -> (r: Option<String>)
    ensures
        r == recorded_image(*note, config_key@),
{
    match read_cached_image(note, config_key) {
        Some(cached) => Some(cached.image_id),
        None => None,
    }
}

/// An image that was written into the note of a commit is the one that is
/// found there, and what the note records for other configurations stays.
pub proof fn written_image_is_found(
    existing: Option<NoteContents>,
    contents: NoteContents,
    merged: NoteContents,
    key: Seq<char>,
)
    requires
        merged@ == (match existing {
            Some(e) => e@,
            None => Map::<Seq<char>, ImageEntry>::empty(),
        }).union_prefer_right(contents@),
    ensures
        contents@.contains_key(key) ==> recorded_entry(Some(merged), key) == recorded_entry(
            Some(contents),
            key,
        ),
        !contents@.contains_key(key) ==> recorded_entry(Some(merged), key) == recorded_entry(
            existing,
            key,
        ),
{
}

/// The next step of the walk from HEAD to its nearest checkpoint.
#[derive(Debug)]
pub enum WalkStep {
    /// Ask whether this commit touches a build input.
    Check { sha: String },
    /// This commit is the checkpoint, so many commits back from HEAD.
    Found { sha: String, distance: usize },
    /// None of the commits is a checkpoint.
    NotFound,
}

/// The position of the first commit that touches a build input.
pub open spec fn first_touching(touches: Seq<bool>, i: int) -> Option<int>
    decreases touches.len() - i,
{
    if i < 0 || i >= touches.len() {
        None
    } else if touches[i] {
        Some(i)
    } else {
        first_touching(touches, i + 1)
    }
}

/// Takes the walk one step on, given for the commits asked so far whether
/// they touch a build input.
pub fn walk(ancestors: &Vec<String>, touches: &Vec<bool>) -> (r: WalkStep)
    requires
        touches@.len() <= ancestors@.len(),
    ensures
        match first_touching(touches@, 0) {
            Some(i) => 0 <= i < touches@.len() && r == (WalkStep::Found {
                sha: ancestors@[i],
                distance: i as usize,
            }),
            None => if touches@.len() < ancestors@.len() {
                r == (WalkStep::Check { sha: ancestors@[touches@.len() as int] })
            } else {
                r is NotFound
            },
        },
{
    let mut i: usize = 0;
    while i < touches.len()
        invariant
            0 <= i <= touches@.len() <= ancestors@.len(),
            first_touching(touches@, 0) == first_touching(touches@, i as int),
        decreases touches@.len() - i,
    {
        if touches[i] {
            return WalkStep::Found { sha: ancestors[i].clone(), distance: i };
        }
        i = i + 1;
    }
    if touches.len() < ancestors.len() {
        WalkStep::Check { sha: ancestors[touches.len()].clone() }
    } else {
        WalkStep::NotFound
    }
}

/// The checkpoint found is the nearest: no commit between it and HEAD touches
/// a build input, and where none is found none of those asked does.
pub proof fn checkpoint_is_nearest(touches: Seq<bool>)
    ensures
        match first_touching(touches, 0) {
            Some(i) => 0 <= i < touches.len() && touches[i] && forall|j: int|
                0 <= j < i ==> !(#[trigger] touches[j]),
            None => forall|j: int| 0 <= j < touches.len() ==> !(#[trigger] touches[j]),
        },
{
    nearest_from(touches, 0);
}

proof fn nearest_from(touches: Seq<bool>, i: int)
    requires
        0 <= i <= touches.len(),
    ensures
        match first_touching(touches, i) {
            Some(k) => i <= k < touches.len() && touches[k] && forall|j: int|
                i <= j < k ==> !(#[trigger] touches[j]),
            None => forall|j: int| i <= j < touches.len() ==> !(#[trigger] touches[j]),
        },
    decreases touches.len() - i,
{
    if i < touches.len() && !touches[i] {
        nearest_from(touches, i + 1);
    }
}

/// The checkpoint found by the walk, with the image its note records.
pub fn resolve_checkpoint(
    checkpoint_sha: Option<String>,
    note: &Option<NoteContents>,
    config_key: &str,
) -> (r: Option<CheckpointInfo>)
    ensures
        match checkpoint_sha {
            Some(sha) => r == Some(
                CheckpointInfo {
                    checkpoint_sha: sha,
                    cached_image: recorded_entry(*note, config_key@),
                },
            ),
            None => r is None,
        },
{
    match checkpoint_sha {
        Some(checkpoint_sha) => {
            let cached_image = read_cached_image(note, config_key);
            Some(CheckpointInfo { checkpoint_sha, cached_image })
        },
        None => None,
    }
}

/// What a note records for a configuration is its entry as it stands; without
/// an entry, or with one that names no image, it records nothing.
pub proof fn recorded_entry_is_the_note(contents: NoteContents, key: Seq<char>)
    ensures
        contents@.contains_key(key) && contents@[key].image_id@.len() > 0 ==> (recorded_entry(
            Some(contents),
            key,
        ) matches Some(cached) && cached.image_id == contents@[key].image_id
            && cached.build_inputs_hash == contents@[key].build_inputs_hash && recorded_image(
            Some(contents),
            key,
        ) == Some(contents@[key].image_id)),
        !contents@.contains_key(key) || contents@[key].image_id@.len() == 0 ==> recorded_entry(
            Some(contents),
            key,
        ) is None && recorded_image(Some(contents), key) is None,
        recorded_entry(None, key) is None,
{
}

} // verus!
