//! What git's answers mean for image caching: notes, ancestors and paths.

use vstd::prelude::*;

use crate::paths;
use crate::paths::{
    begins_component, is_absolute_path, is_plain, is_under, joined_is_under, joined_path, remainder,
    slash_from,
};
use crate::strmap::{leading, leading_is_view, StrMap};
use crate::text;
use crate::text::{
    has_prefix, is_line, lines_of, listed_lines_return, listing, occurs, trimmed, views,
};

verus! {

/// Git notes ref used to store checkpoint image metadata.
pub const NOTES_REF: &'static str = "refs/notes/offload-images";

/// A cached image entry stored in a git note.
#[derive(Debug)]
pub struct ImageEntry {
    /// The image's identifier.
    pub image_id: String,
    /// The hash of the inputs that the image was built from, if recorded.
    pub build_inputs_hash: Option<String>,
}

impl Clone for ImageEntry {
    fn clone(&self) -> (r: Self)
        ensures
            r == *self,
    {
        ImageEntry {
            image_id: self.image_id.clone(),
            build_inputs_hash: match &self.build_inputs_hash {
                Some(hash) => Some(hash.clone()),
                None => None,
            },
        }
    }
}

/// A note is an object keyed by configuration file path.
pub type NoteContents = StrMap<ImageEntry>;

/// The text in lower case, as `str::to_lowercase` gives it.
pub uninterp spec fn lowercase(s: Seq<char>) -> Seq<char>;

/// `str::to_lowercase` gives the lower case equivalent of a text, which
/// depends on the text alone.
pub assume_specification[ str::to_lowercase ](s: &str) -> (r: String)
    ensures
        r@ == lowercase(s@),
;

/// The message says that the revision does not exist.
pub open spec fn says_no_revision(message: Seq<char>) -> bool {
    ||| occurs(message, "unknown revision"@)
    ||| occurs(message, "bad revision"@)
    ||| occurs(message, "Needed a single revision"@)
}

/// Reads the answer to a query for the parent of HEAD: an initial commit has
/// none, and any other failure stands.
pub fn parent_sha(answer: Result<String, String>) -> (r: Result<Option<String>, String>)
    ensures
        match answer {
            Ok(sha) => r == Ok::<Option<String>, String>(Some(sha)),
            Err(e) => if says_no_revision(e@) {
                r == Ok::<Option<String>, String>(None)
            } else {
                r == Err::<Option<String>, String>(e)
            },
        },
{
    match answer {
        Ok(sha) => Ok(Some(sha)),
        Err(e) => if text::contains(e.as_str(), "unknown revision") || text::contains(
            e.as_str(),
            "bad revision",
        ) || text::contains(e.as_str(), "Needed a single revision") {
            Ok(None)
        } else {
            Err(e)
        },
    }
}

/// What a failed query for a note means.
#[derive(Debug)]
pub enum NoteFailure {
    /// The commit has no note, or no note was ever written.
    NoNote,
    /// The query failed.
    Failed(String),
}

/// The lower case message says that there is no note.
pub open spec fn says_no_note(lower: Seq<char>) -> bool {
    occurs(lower, "no note found"@) || occurs(lower, "not a valid ref"@)
}

/// Reads the error output of a query for a note, given its lower case form.
pub fn classify_note_failure(lower: &str, stderr: &str) -> (r: NoteFailure)
    ensures
        says_no_note(lower@) <==> r is NoNote,
        r matches NoteFailure::Failed(e) ==> e@ == "git notes show failed: "@ + trimmed(stderr@),
{
    if text::contains(lower, "no note found") || text::contains(lower, "not a valid ref") {
        NoteFailure::NoNote
    } else {
        let mut e = "git notes show failed: ".to_owned();
        let t = text::trim(stderr);
        e.append(t.as_str());
        NoteFailure::Failed(e)
    }
}

/// Reads the error output of a query for a note.
pub fn note_failure(stderr: &str) -> (r: NoteFailure)
    ensures
        says_no_note(lowercase(stderr@)) <==> r is NoNote,
        r matches NoteFailure::Failed(e) ==> e@ == "git notes show failed: "@ + trimmed(stderr@),
{
    let lower = stderr.to_lowercase();
    classify_note_failure(lower.as_str(), stderr)
}

/// The note that results from writing `contents` over `existing`: entries of
/// other configurations stay.
pub fn merge_note(existing: Option<NoteContents>, contents: &NoteContents) -> (r: NoteContents)
    requires
        contents.well_formed(),
        existing matches Some(e) ==> e.well_formed(),
    ensures
        r.well_formed(),
        r@ == (match existing {
            Some(e) => e@,
            None => Map::<Seq<char>, ImageEntry>::empty(),
        }).union_prefer_right(contents@),
{
    let mut merged: NoteContents = match existing {
        Some(e) => e,
        None => StrMap::new(),
    };
    let ghost base = merged@;
    let mut i: usize = 0;
    proof {
        assert(merged@ =~= base.union_prefer_right(leading(contents.entries@, 0)));
    }
    while i < contents.entries.len()
        invariant
            0 <= i <= contents.entries@.len(),
            contents.well_formed(),
            merged.well_formed(),
            merged@ == base.union_prefer_right(leading(contents.entries@, i as int)),
        decreases contents.entries@.len() - i,
    {
        let key = contents.entries[i].0.clone();
        let value = contents.entries[i].1.clone();
        merged.insert(key, value);
        i = i + 1;
        proof {
            assert(merged@ =~= base.union_prefer_right(leading(contents.entries@, i as int)));
        }
    }
    proof {
        leading_is_view(*contents);
    }
    merged
}

/// The message says that the remote has no notes.
pub open spec fn says_no_remote_ref(message: Seq<char>) -> bool {
    ||| occurs(message, "couldn't find remote ref"@)
    ||| occurs(message, "no such ref"@)
    ||| occurs(message, "does not appear to be a git repository"@)
}

/// Reads the error output of a fetch of notes: a missing remote ref is no
/// error.
pub fn fetch_notes_failure(stderr: &str) -> (r: Result<(), String>)
    ensures
        match r {
            Ok(_) => says_no_remote_ref(stderr@),
            Err(e) => !says_no_remote_ref(stderr@) && e@ == "git fetch notes failed: "@ + trimmed(
                stderr@,
            ),
        },
{
    if text::contains(stderr, "couldn't find remote ref") || text::contains(stderr, "no such ref")
        || text::contains(stderr, "does not appear to be a git repository") {
        Ok(())
    } else {
        let mut e = "git fetch notes failed: ".to_owned();
        let t = text::trim(stderr);
        e.append(t.as_str());
        Err(e)
    }
}

/// The refspec by which notes are fetched.
pub open spec fn fetch_refspec() -> Seq<char> {
    NOTES_REF@ + ":"@ + NOTES_REF@
}

/// The refspec by which notes are fetched.
pub fn notes_refspec() -> (r: String)
    ensures
        r@ == fetch_refspec(),
{
    let mut r = NOTES_REF.to_owned();
    r.append(":");
    r.append(NOTES_REF);
    r
}

/// The refspec that belongs in a remote's fetch configuration.
pub fn configured_refspec() -> (r: String)
    ensures
        r@ == "+"@ + fetch_refspec(),
{
    let mut r = "+".to_owned();
    let spec = notes_refspec();
    r.append(spec.as_str());
    r
}

/// Whether the notes refspec is missing from a remote's fetch configuration,
/// given one refspec to a line.
pub fn refspec_missing(existing: &str) -> (b: bool)
    ensures
        b == !exists|i: int|
            0 <= i < lines_of(existing@).len() && trimmed(#[trigger] lines_of(existing@)[i]) == "+"@
                + fetch_refspec(),
{
    let wanted = configured_refspec();
    let all = text::lines(existing);
    let mut i: usize = 0;
    while i < all.len()
        invariant
            0 <= i <= all@.len(),
            wanted@ == "+"@ + fetch_refspec(),
            views(all@) == lines_of(existing@),
            forall|j: int|
                0 <= j < i ==> trimmed(#[trigger] lines_of(existing@)[j]) != "+"@ + fetch_refspec(),
        decreases all@.len() - i,
    {
        let t = text::trim(all[i].as_str());
        proof {
            assert(lines_of(existing@)[i as int] == views(all@)[i as int]);
        }
        if text::same(t.as_str(), wanted.as_str()) {
            return false;
        }
        i = i + 1;
    }
    true
}

/// One of the paths is among the changed files.
pub open spec fn touches(changed: Seq<Seq<char>>, paths: Seq<Seq<char>>) -> bool {
    exists|i: int| 0 <= i < paths.len() && changed.contains(#[trigger] paths[i])
}

/// Whether a commit touches any of the given paths, from the list of files
/// that it changes, one to a line.
pub fn commit_touches_paths(output: &str, paths: &Vec<String>) -> (b: bool)
    ensures
        b == touches(lines_of(output@), views(paths@)),
{
    let changed = text::lines(output);
    let mut i: usize = 0;
    while i < paths.len()
        invariant
            0 <= i <= paths@.len(),
            views(changed@) == lines_of(output@),
            forall|j: int| 0 <= j < i ==> !lines_of(output@).contains(#[trigger] views(paths@)[j]),
        decreases paths@.len() - i,
    {
        let mut k: usize = 0;
        while k < changed.len()
            invariant
                0 <= i < paths@.len(),
                0 <= k <= changed@.len(),
                views(changed@) == lines_of(output@),
                forall|m: int|
                    0 <= m < k ==> #[trigger] lines_of(output@)[m] != views(paths@)[i as int],
            decreases changed@.len() - k,
        {
            proof {
                assert(views(changed@)[k as int] == changed@[k as int]@);
            }
            if text::same(changed[k].as_str(), paths[i].as_str()) {
                proof {
                    assert(lines_of(output@)[k as int] == views(paths@)[i as int]);
                    assert(lines_of(output@).contains(views(paths@)[i as int]));
                }
                return true;
            }
            k = k + 1;
        }
        i = i + 1;
    }
    false
}

/// The number of changed files, from the list of them, one to a line.
pub fn diff_file_count(output: &str) -> (n: usize)
    ensures
        n == lines_of(output@).len(),
{
    let all = text::lines(output);
    proof {
        assert(views(all@).len() == all@.len());
    }
    all.len()
}

/// The commits of a log that gives one to a line.
pub fn ancestors(output: &str) -> (r: Vec<String>)
    ensures
        views(r@) == lines_of(output@),
{
    text::lines(output)
}

/// A configuration path without the `./` it may begin with.
pub open spec fn without_dot_slash(p: Seq<char>) -> Seq<char> {
    if has_prefix(p, "./"@) {
        p.subrange(2, p.len() as int)
    } else {
        p
    }
}

/// The canonical form of a configuration path, relative to the repository's
/// root. An absolute path that is not under the root has none.
pub open spec fn canonical(config_path: Seq<char>, root: Seq<char>) -> Option<Seq<char>> {
    let p = without_dot_slash(config_path);
    if !is_absolute_path(p) {
        Some(p)
    } else if is_under(p, root) {
        Some(remainder(p, root))
    } else {
        None
    }
}

/// Converts a configuration path to a canonical form relative to the
/// repository's root.
pub fn canonicalize_config_path(config_path: &str, repo_root: &str) -> (r: Result<String, String>)
    ensures
        match canonical(config_path@, repo_root@) {
            Some(k) => r matches Ok(key) && key@ == k,
            None => r matches Err(e) && e@ == "config path "@ + config_path@
                + " is not under repo root "@ + repo_root@,
        },
{
    proof {
        reveal_strlit("./");
    }
    let stripped = match text::strip_prefix(config_path, "./") {
        Some(rest) => rest,
        None => config_path.to_owned(),
    };
    if paths::is_absolute(stripped.as_str()) {
        match paths::strip_prefix(stripped.as_str(), repo_root) {
            Some(rest) => Ok(rest),
            None => {
                let mut e = "config path ".to_owned();
                e.append(config_path);
                e.append(" is not under repo root ");
                e.append(repo_root);
                Err(e)
            },
        }
    } else {
        Ok(stripped)
    }
}

/// A relative path of ordinary components, the path behind `./` and the path
/// joined to the root have one canonical form: the path itself.
pub proof fn one_canonical_form(root: Seq<char>, p: Seq<char>)
    requires
        is_absolute_path(root),
        is_plain(p),
    ensures
        canonical(p, root) == Some(p),
        canonical("./"@ + p, root) == Some(p),
        canonical(joined_path(root, p), root) == Some(p),
{
    reveal_strlit("./");
    joined_is_under(root, p);
    assert(begins_component(p, 0));
    if has_prefix(p, "./"@) {
        let s = p.subrange(0, 2);
        assert(s[0] == p[0] && s[1] == p[1]);
        assert(slash_from(p, 1) == 1);
        assert(slash_from(p, 0) == 1);
        assert(p.subrange(0, 1) =~= seq!['.']);
    }
    assert(p[0] != '/');
    let d = "./"@ + p;
    assert(d.subrange(0, 2) =~= "./"@);
    assert(d.subrange(2, d.len() as int) =~= p);
    let j = joined_path(root, p);
    if has_prefix(j, "./"@) {
        assert(j.subrange(0, 2)[0] == j[0]);
    }
}

/// An absolute path that is not under the root has no canonical form.
pub proof fn outside_has_no_form(root: Seq<char>, q: Seq<char>)
    requires
        is_absolute_path(q),
        !is_under(q, root),
    ensures
        canonical(q, root) is None,
{
    reveal_strlit("./");
    if has_prefix(q, "./"@) {
        assert(q.subrange(0, 2)[0] == q[0]);
    }
}

/// What is said where git fails.
pub fn git_failure(args: &Vec<String>, status: &str, stderr: &str) -> (r: String)
    ensures
        r@ == "git "@ + text::joined(views(args@), " "@) + " failed (exit "@ + status@ + "): "@
            + trimmed(stderr@),
{
    let mut e = "git ".to_owned();
    let a = text::join(args, " ");
    e.append(a.as_str());
    e.append(" failed (exit ");
    e.append(status);
    e.append("): ");
    let t = text::trim(stderr);
    e.append(t.as_str());
    e
}

/// A commit that changes the files of a list touches exactly the paths that
/// are in it.
pub proof fn listed_files_are_touched(files: Seq<Seq<char>>, paths: Seq<Seq<char>>)
    requires
        forall|k: int| 0 <= k < files.len() ==> is_line(#[trigger] files[k]),
    ensures
        touches(lines_of(listing(files)), paths) <==> exists|i: int, j: int|
            0 <= i < files.len() && 0 <= j < paths.len() && #[trigger] files[i]
                == #[trigger] paths[j],
{
    let text = listing(files);
    listed_lines_return(files, Seq::empty());
    assert(text + Seq::<char>::empty() =~= text);
    assert(lines_of(Seq::<char>::empty()) =~= Seq::<Seq<char>>::empty());
    assert(lines_of(text) =~= files);
    if touches(files, paths) {
        let j = choose|j: int| 0 <= j < paths.len() && files.contains(#[trigger] paths[j]);
        let i = choose|i: int| 0 <= i < files.len() && files[i] == paths[j];
        assert(files[i] == paths[j]);
    }
    if exists|i: int, j: int|
        0 <= i < files.len() && 0 <= j < paths.len() && #[trigger] files[i]
            == #[trigger] paths[j] {
        let (i, j) = choose|i: int, j: int|
            0 <= i < files.len() && 0 <= j < paths.len() && #[trigger] files[i]
                == #[trigger] paths[j];
        assert(files.contains(paths[j]));
    }
}

/// Notes are fetched into the ref of the same name.
pub proof fn notes_keep_their_ref()
    ensures
        fetch_refspec() == "refs/notes/offload-images:refs/notes/offload-images"@,
{
    reveal_strlit("refs/notes/offload-images:refs/notes/offload-images");
    reveal_strlit("refs/notes/offload-images");
    reveal_strlit(":");
    assert(fetch_refspec() =~= "refs/notes/offload-images:refs/notes/offload-images"@);
}

/// Only these messages of git mean that there is nothing: no such revision,
/// no note, no notes on the remote. Any other is an error.
pub proof fn only_these_mean_nothing(message: Seq<char>)
    ensures
        says_no_revision(message) <==> occurs(message, "unknown revision"@) || occurs(
            message,
            "bad revision"@,
        ) || occurs(message, "Needed a single revision"@),
        says_no_note(message) <==> occurs(message, "no note found"@) || occurs(
            message,
            "not a valid ref"@,
        ),
        says_no_remote_ref(message) <==> occurs(message, "couldn't find remote ref"@) || occurs(
            message,
            "no such ref"@,
        ) || occurs(message, "does not appear to be a git repository"@),
{
}

} // verus!
