//! The status of checkpoint caching for the current HEAD.

use vstd::prelude::*;

use crate::image_cache::{describe_run_mode, run_mode};
use crate::text;
use crate::text::{clipped, decimal, views};

verus! {

/// What is known of checkpoint caching.
#[derive(Debug)]
pub enum CheckpointStatus {
    /// Checkpoints are not configured.
    NotConfigured,
    /// No checkpoint was found in the last hundred commits.
    NoCheckpoint { head: String },
    /// The nearest checkpoint, how many commits back it is, its cached image
    /// and the number of files changed since, as far as these are known.
    Checkpoint {
        head: String,
        sha: String,
        distance: usize,
        image: Option<String>,
        changed: Option<usize>,
    },
}

/// The lines that tell the status.
pub open spec fn status_text(status: CheckpointStatus) -> Seq<Seq<char>> {
    match status {
        CheckpointStatus::NotConfigured => seq!["Checkpoint mode not configured"@],
        CheckpointStatus::NoCheckpoint { head } => seq![
            "HEAD:               "@ + clipped(head@, 8),
            "Checkpoint:         (no checkpoint found in last 100 commits)"@,
            "Next run mode:      full build (no checkpoint found)"@,
        ],
        CheckpointStatus::Checkpoint { head, sha, distance, image, changed } => seq![
            "HEAD:               "@ + clipped(head@, 8),
            "Checkpoint:         "@ + clipped(sha@, 8) + " ("@ + decimal(distance as int)
                + " commits back)"@,
            match image {
                Some(id) => "Cached image:       "@ + id@,
                None => "Cached image:       (none)"@,
            },
            match image {
                Some(_) => "Next run mode:      "@ + run_mode(head@, sha@, changed),
                None => "Next run mode:      full build (no cached checkpoint image)"@,
            },
        ],
    }
}

fn line(label: &str, value: &str) -> (r: String)
    ensures
        r@ == label@ + value@,
{
    let mut s = label.to_owned();
    s.append(value);
    s
}

/// The lines that tell the status.
pub fn checkpoint_status_lines(status: &CheckpointStatus) -> (r: Vec<String>)
    ensures
        views(r@) == status_text(*status),
{
    let mut lines: Vec<String> = Vec::new();
    match status {
        CheckpointStatus::NotConfigured => {
            lines.push("Checkpoint mode not configured".to_owned());
        },
        CheckpointStatus::NoCheckpoint { head } => {
            let h = text::clip(head.as_str(), 8);
            lines.push(line("HEAD:               ", h.as_str()));
            lines.push("Checkpoint:         (no checkpoint found in last 100 commits)".to_owned());
            lines.push("Next run mode:      full build (no checkpoint found)".to_owned());
        },
        CheckpointStatus::Checkpoint { head, sha, distance, image, changed } => {
            let h = text::clip(head.as_str(), 8);
            let c = text::clip(sha.as_str(), 8);
            let d = text::decimal_u64(*distance as u64);
            lines.push(line("HEAD:               ", h.as_str()));
            let mut back = line("Checkpoint:         ", c.as_str());
            back.append(" (");
            back.append(d.as_str());
            back.append(" commits back)");
            lines.push(back);
            match image {
                Some(id) => {
                    lines.push(line("Cached image:       ", id.as_str()));
                    let mode = describe_run_mode(head.as_str(), sha.as_str(), *changed);
                    lines.push(line("Next run mode:      ", mode.as_str()));
                },
                None => {
                    lines.push("Cached image:       (none)".to_owned());
                    lines.push(
                        "Next run mode:      full build (no cached checkpoint image)".to_owned(),
                    );
                },
            }
        },
    }
    proof {
        assert(views(lines@) =~= status_text(*status));
    }
    lines
}

} // verus!
