//! The cache state of a run, from what the repository answers.

use vstd::prelude::*;

use crate::checkpoint::CheckpointInfo;
use crate::run::caching::CacheState;

verus! {

/// What came of looking for a commit.
#[derive(Debug)]
pub enum Found<T> {
    /// It was found.
    Yes(T),
    /// There is none.
    No,
    /// Looking failed.
    Failed,
}

/// What the repository answers to the questions about the cache.
#[derive(Debug)]
pub enum Lookup {
    /// The run is not in a repository.
    NoRepository,
    /// Checkpoints are configured; this is the nearest.
    Checkpoint { nearest: Found<CheckpointInfo> },
    /// No checkpoints are configured; this is the parent commit with its
    /// cached image, and beside it the parent commit alone.
    Parent { with_image: Found<(String, String)>, parent: Found<String> },
}

/// The cache state that the answers make: none outside a repository, where
/// looking failed, where no checkpoint is near and for a first commit.
pub open spec fn cache_state_of(lookup: Lookup) -> Option<CacheState> {
    match lookup {
        Lookup::NoRepository => None,
        Lookup::Checkpoint { nearest } => match nearest {
            Found::Yes(info) => Some(
                CacheState::Checkpoint {
                    checkpoint_sha: info.checkpoint_sha,
                    cached_image: info.cached_image,
                },
            ),
            _ => None,
        },
        Lookup::Parent { with_image, parent } => match with_image {
            Found::Yes(p) => Some(
                CacheState::ParentBase { parent_sha: p.0, cached_image_id: Some(p.1) },
            ),
            Found::Failed => None,
            Found::No => match parent {
                Found::Yes(sha) => Some(
                    CacheState::ParentBase { parent_sha: sha, cached_image_id: None },
                ),
                _ => None,
            },
        },
    }
}

/// The cache state that the answers of the repository make.
pub fn resolve_cache_state(lookup: Lookup) -> (r: Option<CacheState>)
    ensures
        r == cache_state_of(lookup),
{
    match lookup {
        Lookup::NoRepository => None,
        Lookup::Checkpoint { nearest } => match nearest {
            Found::Yes(info) => Some(
                CacheState::Checkpoint {
                    checkpoint_sha: info.checkpoint_sha,
                    cached_image: info.cached_image,
                },
            ),
            Found::No => None,
            Found::Failed => None,
        },
        Lookup::Parent { with_image, parent } => match with_image {
            Found::Yes((parent_sha, image_id)) => Some(
                CacheState::ParentBase { parent_sha, cached_image_id: Some(image_id) },
            ),
            Found::Failed => None,
            Found::No => match parent {
                Found::Yes(parent_sha) => Some(
                    CacheState::ParentBase { parent_sha, cached_image_id: None },
                ),
                Found::No => None,
                Found::Failed => None,
            },
        },
    }
}

/// A cache state names the commit that was found, with the image that was
/// found for that commit; where a lookup failed there is no state.
pub proof fn state_is_what_was_found(lookup: Lookup)
    ensures
        match cache_state_of(lookup) {
            Some(CacheState::Checkpoint { checkpoint_sha, cached_image }) => lookup matches
                Lookup::Checkpoint { nearest } && (nearest matches Found::Yes(info)
                && info.checkpoint_sha == checkpoint_sha && info.cached_image == cached_image),
            Some(CacheState::ParentBase { parent_sha, cached_image_id }) => lookup matches
                Lookup::Parent { with_image, parent } && match cached_image_id {
                Some(id) => with_image == Found::Yes((parent_sha, id)),
                None => with_image is No && parent == Found::Yes(parent_sha),
            },
            None => match lookup {
                Lookup::NoRepository => true,
                Lookup::Checkpoint { nearest } => !(nearest is Yes),
                Lookup::Parent { with_image, parent } => with_image is Failed || (with_image is No
                    && !(parent is Yes)),
            },
        },
{
}

} // verus!
