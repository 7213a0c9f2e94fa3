//! Patches from a base commit: which commit that is, and what a sandbox needs
//! to get from it to the working tree.

use vstd::prelude::*;

use crate::discovery::{clone_strings, option_view};
use crate::text;
use crate::text::{
    has_prefix, is_line, joined, lines_of, listed_lines_return, listing, occurs, trimmed, views,
};

verus! {

/// Where patches go in the sandbox.
pub const REMOTE_DIR: &'static str = "/offload-patch";

/// The notes that hold cached images.
pub const IMAGE_NOTES: &'static str = "--ref=offload/image-cache";

/// What a sandbox needs to get from the base commit to the working tree.
#[derive(Debug)]
pub struct GitPatchArtifact {
    /// Extra directory to copy: (local_path, remote_path).
    pub copy_dir: Option<(String, String)>,
    /// Command to run before the sandbox is initialised.
    pub apply_cmd: Option<String>,
    /// The resolved base commit hash.
    pub base_commit: String,
    /// Docker build context directory.
    pub context_dir: Option<String>,
}

/// The files whose history decides the base commit: the dependencies, then the
/// Dockerfile.
pub open spec fn watched(dependencies: Seq<Seq<char>>, dockerfile: Option<Seq<char>>) -> Seq<
    Seq<char>,
> {
    match dockerfile {
        Some(d) => dependencies.push(d),
        None => dependencies,
    }
}

/// The files whose history decides the base commit.
pub fn dependency_files(dependencies: &Vec<String>, dockerfile: Option<&str>) -> (r: Vec<String>)
    ensures
        views(r@) == watched(
            views(dependencies@),
            match dockerfile {
                Some(d) => Some(d@),
                None => None,
            },
        ),
{
    let mut files = clone_strings(dependencies);
    match dockerfile {
        Some(d) => {
            files.push(d.to_owned());
            proof {
                assert(views(files@) =~= views(dependencies@).push(d@));
            }
        },
        None => {},
    }
    files
}

/// The arguments of git that find the base commit: HEAD where no files are
/// watched, else the most recent commit that modified one.
pub open spec fn base_query(files: Seq<Seq<char>>) -> Seq<Seq<char>> {
    if files.len() == 0 {
        seq!["rev-parse"@, "HEAD"@]
    } else {
        seq!["log"@, "-1"@, "--format=%H"@, "--"@] + files
    }
}

/// The arguments of git that find the base commit.
pub fn base_commit_args(files: &Vec<String>) -> (r: Vec<String>)
    ensures
        views(r@) == base_query(views(files@)),
{
    let mut args: Vec<String> = Vec::new();
    if files.len() == 0 {
        args.push("rev-parse".to_owned());
        args.push("HEAD".to_owned());
        proof {
            assert(views(args@) =~= base_query(views(files@)));
        }
        return args;
    }
    args.push("log".to_owned());
    args.push("-1".to_owned());
    args.push("--format=%H".to_owned());
    args.push("--".to_owned());
    let mut rest = clone_strings(files);
    args.append(&mut rest);
    proof {
        assert(views(args@) =~= base_query(views(files@)));
    }
    args
}

/// What git answered to the query for the base commit.
#[derive(Debug)]
pub enum GitAnswer {
    /// It succeeded with this output.
    Done { stdout: String },
    /// It failed with this output.
    Refused { stderr: String },
}

/// The base commit, or what stands against it: a query that failed, or files
/// that no commit modified.
pub fn resolve_base_commit(files: &Vec<String>, answer: &GitAnswer) -> (r: Result<String, String>)
    ensures
        match *answer {
            GitAnswer::Refused { stderr } => r matches Err(e) && e@ == (if files@.len() == 0 {
                "git rev-parse HEAD failed: "@
            } else {
                "git log failed: "@
            }) + trimmed(stderr@),
            GitAnswer::Done { stdout } => if files@.len() > 0 && trimmed(stdout@).len() == 0 {
                r matches Err(e) && e@
                    == "no commit found that modified any of the dependency files: "@ + joined(
                    views(files@),
                    ", "@,
                )
            } else {
                r matches Ok(c) && c@ == trimmed(stdout@)
            },
        },
{
    match answer {
        GitAnswer::Refused { stderr } => {
            let mut e = if files.len() == 0 {
                "git rev-parse HEAD failed: ".to_owned()
            } else {
                "git log failed: ".to_owned()
            };
            let said = text::trim(stderr.as_str());
            e.append(said.as_str());
            Err(e)
        },
        GitAnswer::Done { stdout } => {
            let hash = text::trim(stdout.as_str());
            if files.len() > 0 && hash.as_str().is_empty() {
                let mut e = "no commit found that modified any of the dependency files: ".to_owned();
                let list = text::join(files, ", ");
                e.append(list.as_str());
                return Err(e);
            }
            Ok(hash)
        },
    }
}

/// The full hash of a commit, or that it does not exist.
pub fn validate_commit(commit: &str, answer: &GitAnswer) -> (r: Result<String, String>)
    ensures
        match *answer {
            GitAnswer::Refused { stderr } => r matches Err(e) && e@ == "commit '"@ + commit@
                + "' does not exist: "@ + stderr@,
            GitAnswer::Done { stdout } => r matches Ok(c) && c@ == trimmed(stdout@),
        },
{
    match answer {
        GitAnswer::Refused { stderr } => {
            let mut e = "commit '".to_owned();
            e.append(commit);
            e.append("' does not exist: ");
            e.append(stderr.as_str());
            Err(e)
        },
        GitAnswer::Done { stdout } => Ok(text::trim(stdout.as_str())),
    }
}

/// The lines that are not empty.
pub open spec fn nonempty(lines: Seq<Seq<char>>) -> Seq<Seq<char>>
    decreases lines.len(),
{
    if lines.len() == 0 {
        Seq::empty()
    } else if lines.last().len() == 0 {
        nonempty(lines.drop_last())
    } else {
        nonempty(lines.drop_last()).push(lines.last())
    }
}

/// What is said of files that changed and were not committed.
pub open spec fn uncommitted(label: Seq<char>, files: Seq<Seq<char>>) -> Seq<Seq<char>> {
    Seq::new(
        files.len(),
        |i: int| "[git_patch] Dependency file has "@ + label + " changes: "@ + files[i],
    )
}

/// The warnings for the files that git lists as changed.
pub fn uncommitted_warnings(label: &str, diff_output: &str) -> (r: Vec<String>)
    ensures
        views(r@) == uncommitted(label@, nonempty(lines_of(diff_output@))),
{
    let all = text::lines(diff_output);
    let ghost lines = lines_of(diff_output@);
    let mut out: Vec<String> = Vec::new();
    let mut i: usize = 0;
    proof {
        assert(lines.take(0) =~= Seq::<Seq<char>>::empty());
        assert(views(out@) =~= uncommitted(label@, nonempty(lines.take(0))));
    }
    while i < all.len()
        invariant
            0 <= i <= all@.len(),
            views(all@) == lines,
            views(out@) == uncommitted(label@, nonempty(lines.take(i as int))),
        decreases all@.len() - i,
    {
        let ghost prior = out@;
        let ghost t = lines.take(i + 1);
        proof {
            assert(t.drop_last() =~= lines.take(i as int));
            assert(t.last() == views(all@)[i as int]);
        }
        if !all[i].as_str().is_empty() {
            let mut s = "[git_patch] Dependency file has ".to_owned();
            s.append(label);
            s.append(" changes: ");
            s.append(all[i].as_str());
            out.push(s);
            proof {
                assert(views(out@) =~= views(prior).push(s@));
                assert(views(out@) =~= uncommitted(label@, nonempty(t)));
            }
        }
        i = i + 1;
    }
    proof {
        assert(views(all@).len() == all@.len());
        assert(lines.take(lines.len() as int) =~= lines);
    }
    out
}

/// What a patch asks of the sandbox: the directory to copy and the command
/// that applies it. An empty diff asks for nothing.
pub fn patch_steps(diff_bytes: usize, patch_dir: &str) -> (r: Option<((String, String), String)>)
    ensures
        if diff_bytes == 0 {
            r is None
        } else {
            r matches Some(s) && s.0.0@ == patch_dir@ && s.0.1@ == REMOTE_DIR@ && s.1@
                == "git apply "@ + REMOTE_DIR@ + "/patch --allow-empty"@
        },
{
    if diff_bytes == 0 {
        return None;
    }
    let mut apply = "git apply ".to_owned();
    apply.append(REMOTE_DIR);
    apply.append("/patch --allow-empty");
    Some(((patch_dir.to_owned(), REMOTE_DIR.to_owned()), apply))
}

/// How a Dockerfile unpacks the snapshot.
pub open spec fn snapshot_hint(root: Seq<char>) -> Seq<char> {
    "Consider adding these lines to your Dockerfile:\n\n  COPY current.tar.gz /code/current.tar.gz\n  RUN mkdir -p "@
        + root + " && tar xzf /code/current.tar.gz -C "@ + root + " && rm /code/current.tar.gz\n"@
}

/// The warning about a Dockerfile that does not unpack the snapshot: there is
/// none for one that refers to it, or that cannot be read.
pub fn snapshot_warning(
    dockerfile: Option<&str>,
    contents: Option<&str>,
    sandbox_project_root: &str,
) -> (r: Option<String>)
    ensures
        match dockerfile {
            None => r matches Some(w) && w@
                == "[git_patch] No Dockerfile configured. [git_patch] requires a Dockerfile that extracts current.tar.gz. "@
                + snapshot_hint(sandbox_project_root@),
            Some(path) => match contents {
                Some(c) => if occurs(c@, "current.tar.gz"@) {
                    r is None
                } else {
                    r matches Some(w) && w@ == "[git_patch] Dockerfile '"@ + path@
                        + "' does not reference current.tar.gz. "@ + snapshot_hint(
                        sandbox_project_root@,
                    )
                },
                None => r is None,
            },
        },
{
    let mut hint =
        "Consider adding these lines to your Dockerfile:\n\n  COPY current.tar.gz /code/current.tar.gz\n  RUN mkdir -p ".to_owned();
    hint.append(sandbox_project_root);
    hint.append(" && tar xzf /code/current.tar.gz -C ");
    hint.append(sandbox_project_root);
    hint.append(" && rm /code/current.tar.gz\n");
    match dockerfile {
        None => {
            let mut w =
                "[git_patch] No Dockerfile configured. [git_patch] requires a Dockerfile that extracts current.tar.gz. ".to_owned();
            w.append(hint.as_str());
            Some(w)
        },
        Some(path) => match contents {
            None => None,
            Some(c) => if text::contains(c, "current.tar.gz") {
                None
            } else {
                let mut w = "[git_patch] Dockerfile '".to_owned();
                w.append(path);
                w.append("' does not reference current.tar.gz. ");
                w.append(hint.as_str());
                Some(w)
            },
        },
    }
}

/// The image that a note names: its text, where that looks like an image id.
pub open spec fn noted_image(note: Option<Seq<char>>) -> Option<Seq<char>> {
    match note {
        Some(n) => if has_prefix(trimmed(n), "im-"@) {
            Some(trimmed(n))
        } else {
            None
        },
        None => None,
    }
}

/// The cached image ID of a commit's note.
pub fn read_cached_image_id(note: Option<&str>) -> (r: Option<String>)
    ensures
        option_view(r) == noted_image(
            match note {
                Some(n) => Some(n@),
                None => None,
            },
        ),
{
    match note {
        Some(n) => {
            let id = text::trim(n);
            if text::starts_with(id.as_str(), "im-") {
                Some(id)
            } else {
                None
            }
        },
        None => None,
    }
}

/// The arguments of git that write an image ID as a note on a commit.
pub fn write_cached_image_args(base_commit: &str, image_id: &str) -> (r: Vec<String>)
    ensures
        views(r@) == seq![
            "notes"@,
            IMAGE_NOTES@,
            "add"@,
            "-f"@,
            "-m"@,
            image_id@,
            base_commit@,
        ],
{
    let mut args: Vec<String> = Vec::new();
    args.push("notes".to_owned());
    args.push(IMAGE_NOTES.to_owned());
    args.push("add".to_owned());
    args.push("-f".to_owned());
    args.push("-m".to_owned());
    args.push(image_id.to_owned());
    args.push(base_commit.to_owned());
    proof {
        assert(views(args@) =~= seq![
            "notes"@,
            IMAGE_NOTES@,
            "add"@,
            "-f"@,
            "-m"@,
            image_id@,
            base_commit@,
        ]);
    }
    args
}

/// An image id that was written as a note is the one that is read back, where
/// it is one.
pub proof fn written_image_is_read(id: Seq<char>)
    requires
        has_prefix(id, "im-"@),
        trimmed(id) == id,
    ensures
        noted_image(Some(id)) == Some(id),
{
}

/// The watched files are the dependencies and the Dockerfile, and no others;
/// the query for the base commit names them all, in their order, behind `--`.
pub proof fn watched_files_are_queried(
    dependencies: Seq<Seq<char>>,
    dockerfile: Option<Seq<char>>,
    f: Seq<char>,
)
    ensures
        watched(dependencies, dockerfile).contains(f) <==> dependencies.contains(f) || dockerfile
            == Some(f),
        ({
            let files = watched(dependencies, dockerfile);
            let query = base_query(files);
            &&& files.len() > 0 ==> query.len() == 4 + files.len() && query[0] == "log"@ && query[1]
                == "-1"@ && query[2] == "--format=%H"@ && query[3] == "--"@ && query.subrange(
                4,
                query.len() as int,
            ) == files
            &&& files.len() == 0 ==> query == seq!["rev-parse"@, "HEAD"@]
        }),
{
    let files = watched(dependencies, dockerfile);
    match dockerfile {
        Some(d) => {
            assert(files[files.len() - 1] == d);
            if dependencies.contains(f) {
                let k = choose|k: int| 0 <= k < dependencies.len() && dependencies[k] == f;
                assert(files[k] == f);
            }
            if files.contains(f) && f != d {
                let k = choose|k: int| 0 <= k < files.len() && files[k] == f;
                assert(dependencies[k] == f);
            }
        },
        None => {},
    }
    let query = base_query(files);
    if files.len() > 0 {
        assert(query.subrange(4, query.len() as int) =~= files);
    }
}

/// Every file that git lists as changed is warned of, in its order, and blank
/// lines are not.
pub proof fn changed_files_are_warned_of(label: Seq<char>, files: Seq<Seq<char>>)
    requires
        forall|k: int|
            0 <= k < files.len() ==> is_line(#[trigger] files[k]) && files[k].len() > 0,
    ensures
        uncommitted(label, nonempty(lines_of(listing(files)))) == Seq::new(
            files.len(),
            |k: int| "[git_patch] Dependency file has "@ + label + " changes: "@ + files[k],
        ),
        nonempty(lines_of(listing(files) + seq!['\n'])) == files,
{
    let text = listing(files);
    let blank = seq![Seq::<char>::empty()];
    listed_lines_return(files, Seq::empty());
    assert(text + Seq::<char>::empty() =~= text);
    assert(lines_of(Seq::<char>::empty()) =~= Seq::<Seq<char>>::empty());
    assert(lines_of(text) =~= files);
    nonempty_stay(files);
    let all = files.push(Seq::empty());
    assert(listing(all) =~= text + seq!['\n']) by {
        assert(all.drop_last() =~= files);
        assert(text + Seq::<char>::empty() + seq!['\n'] =~= text + seq!['\n']);
    }
    assert forall|k: int| 0 <= k < all.len() implies is_line(#[trigger] all[k]) by {
        if k < files.len() {
            assert(all[k] == files[k]);
        }
    }
    listed_lines_return(all, Seq::empty());
    assert(listing(all) + Seq::<char>::empty() =~= listing(all));
    assert(lines_of(listing(all)) =~= all);
    assert(all.drop_last() =~= files);
}

proof fn nonempty_stay(lines: Seq<Seq<char>>)
    requires
        forall|k: int| 0 <= k < lines.len() ==> (#[trigger] lines[k]).len() > 0,
    ensures
        nonempty(lines) == lines,
    decreases lines.len(),
{
    if lines.len() > 0 {
        let rest = lines.drop_last();
        assert forall|k: int| 0 <= k < rest.len() implies (#[trigger] rest[k]).len() > 0 by {
            assert(rest[k] == lines[k]);
        }
        nonempty_stay(rest);
        assert(lines[lines.len() - 1] == lines.last());
        assert(rest.push(lines.last()) =~= lines);
    } else {
        assert(nonempty(lines) =~= lines);
    }
}

/// A note names an image exactly where its text, without the white space
/// around it, is an image id.
pub proof fn only_image_ids_are_read(note: Seq<char>)
    ensures
        noted_image(Some(note)) is Some <==> has_prefix(trimmed(note), "im-"@),
        noted_image(Some(note)) matches Some(id) ==> id == trimmed(note),
        noted_image(None) is None,
{
}

} // verus!
