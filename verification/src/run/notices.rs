//! What a run says of its image caching.

use vstd::prelude::*;

use crate::discovery::option_view;
use crate::run::caching::{Failure, Stage};
use crate::text;
use crate::text::clipped;

verus! {

/// What is said when the pipeline enters a stage. `base_sha` is the commit of
/// the cached image in use.
pub open spec fn stage_text(stage: Stage, base_sha: Seq<char>) -> Option<Seq<char>> {
    match stage {
        Stage::ExportingFresh { sha } => Some(
            "[prepare] --no-cache with checkpoint: building from "@ + clipped(sha@, 8)
                + " (no cache lookup)"@,
        ),
        Stage::BuildingFresh { sha } => Some(
            "[prepare] Building checkpoint base image (--no-cache)..."@,
        ),
        Stage::DiffingCached => Some(
            "[cache] Using checkpoint image from "@ + clipped(base_sha, 8),
        ),
        Stage::ExportingMiss { sha } => Some(
            "[cache] No cached checkpoint image for "@ + clipped(sha@, 8) + " — building base"@,
        ),
        Stage::BuildingMiss { sha } => Some("[prepare] Building checkpoint base image..."@),
        Stage::DiffingParent => Some(
            "[cache] Parent-commit caching: using cached parent image from "@ + clipped(
                base_sha,
                8,
            ),
        ),
        Stage::Preparing { note_sha } => match note_sha {
            Some(sha) => Some(
                "[cache] Parent-commit caching: no cached image for parent "@ + clipped(sha@, 8)
                    + ", will cache after build"@,
            ),
            None => None,
        },
        _ => None,
    }
}

fn with_sha(before: &str, sha: &str, after: &str) -> (r: String)
    ensures
        r@ == before@ + clipped(sha@, 8) + after@,
{
    let short = text::clip(sha, 8);
    let mut s = before.to_owned();
    s.append(short.as_str());
    s.append(after);
    s
}

/// What is said when the pipeline enters a stage.
pub fn stage_notice(stage: &Stage, base_sha: &str) -> (r: Option<String>)
    ensures
        option_view(r) == stage_text(*stage, base_sha@),
{
    proof {
        reveal_strlit("");
        assert(""@ =~= Seq::<char>::empty());
    }
    match stage {
        Stage::ExportingFresh { sha } => Some(
            with_sha(
                "[prepare] --no-cache with checkpoint: building from ",
                sha.as_str(),
                " (no cache lookup)",
            ),
        ),
        Stage::BuildingFresh { .. } => Some(
            "[prepare] Building checkpoint base image (--no-cache)...".to_owned(),
        ),
        Stage::DiffingCached => {
            let s = with_sha("[cache] Using checkpoint image from ", base_sha, "");
            proof {
                assert(s@ =~= "[cache] Using checkpoint image from "@ + clipped(base_sha@, 8));
            }
            Some(s)
        },
        Stage::ExportingMiss { sha } => Some(
            with_sha(
                "[cache] No cached checkpoint image for ",
                sha.as_str(),
                " — building base",
            ),
        ),
        Stage::BuildingMiss { .. } => Some(
            "[prepare] Building checkpoint base image...".to_owned(),
        ),
        Stage::DiffingParent => {
            let s = with_sha(
                "[cache] Parent-commit caching: using cached parent image from ",
                base_sha,
                "",
            );
            proof {
                assert(s@ =~= "[cache] Parent-commit caching: using cached parent image from "@
                    + clipped(base_sha@, 8));
            }
            Some(s)
        },
        Stage::Preparing { note_sha } => match note_sha {
            Some(sha) => Some(
                with_sha(
                    "[cache] Parent-commit caching: no cached image for parent ",
                    sha.as_str(),
                    ", will cache after build",
                ),
            ),
            None => None,
        },
        _ => None,
    }
}

/// What is said when a thin diff failed at a stage, with its error.
pub open spec fn fallback_text(stage: Stage, error: Seq<char>) -> Option<Seq<char>> {
    match stage {
        Stage::DiffingFresh => Some("[prepare] Thin diff failed, falling back to full build"@),
        Stage::DiffingCached => Some("[cache] Thin diff failed, falling back to full build"@),
        Stage::DiffingMiss => Some("[cache] Thin diff failed, falling back to full build"@),
        Stage::DiffingParent => Some(
            "[cache] Thin diff from parent failed, falling back to full build: "@ + error,
        ),
        _ => None,
    }
}

/// What is said when a thin diff failed at a stage.
pub fn fallback_notice(stage: &Stage, error: &str) -> (r: Option<String>)
    ensures
        option_view(r) == fallback_text(*stage, error@),
{
    match stage {
        Stage::DiffingFresh => Some(
            "[prepare] Thin diff failed, falling back to full build".to_owned(),
        ),
        Stage::DiffingCached => Some(
            "[cache] Thin diff failed, falling back to full build".to_owned(),
        ),
        Stage::DiffingMiss => Some(
            "[cache] Thin diff failed, falling back to full build".to_owned(),
        ),
        Stage::DiffingParent => {
            let mut s = "[cache] Thin diff from parent failed, falling back to full build: ".to_owned();
            s.append(error);
            Some(s)
        },
        _ => None,
    }
}

/// What a failure of the pipeline is introduced with; discovery speaks for
/// itself.
pub open spec fn failure_text(failure: Failure, provider: Seq<char>) -> Option<Seq<char>> {
    match failure {
        Failure::Export { sha } => Some("failed to export tree for "@ + sha@),
        Failure::Base => Some("Failed to build checkpoint base image"@),
        Failure::Discovery => None,
        Failure::Prepare => Some("Failed to prepare "@ + provider + " provider"@),
    }
}

/// What a failure of the pipeline is introduced with.
pub fn failure_context(failure: &Failure, provider: &str) -> (r: Option<String>)
    ensures
        option_view(r) == failure_text(*failure, provider@),
{
    match failure {
        Failure::Export { sha } => {
            let mut s = "failed to export tree for ".to_owned();
            s.append(sha.as_str());
            Some(s)
        },
        Failure::Base => Some("Failed to build checkpoint base image".to_owned()),
        Failure::Discovery => None,
        Failure::Prepare => {
            let mut s = "Failed to prepare ".to_owned();
            s.append(provider);
            s.append(" provider");
            Some(s)
        },
    }
}

} // verus!
