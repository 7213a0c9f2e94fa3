//! Resolution of framework-level environment and search path settings.
//!
//! Commands run in two places: discovery on the local machine, where the root
//! is the working directory, and execution in a sandbox, where it is the
//! project's root there.

use vstd::prelude::*;

use crate::order::{pair_views, sort_pairs, sorts_pairs};
use crate::paths;
use crate::paths::joined_path;
use crate::provider::Command;
use crate::shell;
use crate::shell::shell_quoted;
use crate::strmap::{lookup_from, StrMap};
use crate::text;
use crate::text::{joined, pieces, replaced, views};

verus! {

/// A value with the root in place of its placeholder.
pub open spec fn rooted(value: Seq<char>, root: Seq<char>) -> Seq<char> {
    replaced(value, "{root}"@, root)
}

/// Substitutes the `{root}` placeholder in a single value.
pub fn resolve_root_placeholder(value: &str, root: &str) -> (r: String)
    ensures
        r@ == rooted(value@, root@),
{
    proof {
        reveal_strlit("{root}");
    }
    text::replace(value, "{root}", root)
}

/// A value without the placeholder is left as it is.
pub proof fn unrooted_value_unchanged(value: Seq<char>, root: Seq<char>)
    requires
        !text::occurs(value, "{root}"@),
    ensures
        rooted(value, root) == value,
{
    text::replaced_without_occurrence(value, "{root}"@, root);
}

/// Substitutes the `{root}` placeholder in each value.
pub fn resolve_env(entries: &StrMap<String>, root: &str) -> (r: StrMap<String>)
    ensures
        r.entries@.len() == entries.entries@.len(),
        forall|i: int|
            0 <= i < r.entries@.len() ==> (#[trigger] r.entries@[i]).0 == entries.entries@[i].0
                && r.entries@[i].1@ == rooted(entries.entries@[i].1@, root@),
        forall|k: Seq<char>| #[trigger] r@.contains_key(k) <==> entries@.contains_key(k),
        forall|k: Seq<char>| #[trigger]
            r@.contains_key(k) ==> r@[k]@ == rooted(entries@[k]@, root@),
        entries.well_formed() ==> r.well_formed(),
{
    let mut out: Vec<(String, String)> = Vec::new();
    let mut i: usize = 0;
    while i < entries.entries.len()
        invariant
            0 <= i <= entries.entries@.len(),
            out@.len() == i,
            forall|k: int|
                0 <= k < i ==> (#[trigger] out@[k]).0 == entries.entries@[k].0 && out@[k].1@
                    == rooted(entries.entries@[k].1@, root@),
        decreases entries.entries@.len() - i,
    {
        let value = resolve_root_placeholder(entries.entries[i].1.as_str(), root);
        out.push((entries.entries[i].0.clone(), value));
        i = i + 1;
    }
    let r: StrMap<String> = StrMap { entries: out };
    proof {
        assert forall|k: Seq<char>| true implies (#[trigger] r@.contains_key(k)
            <==> entries@.contains_key(k)) && (r@.contains_key(k) ==> r@[k]@ == rooted(
            entries@[k]@,
            root@,
        )) by {
            rooted_lookup(entries.entries@, r.entries@, root@, k, 0);
        }
    }
    r
}

proof fn rooted_lookup(
    a: Seq<(String, String)>,
    b: Seq<(String, String)>,
    root: Seq<char>,
    k: Seq<char>,
    i: int,
)
    requires
        0 <= i,
        a.len() == b.len(),
        forall|i: int|
            0 <= i < b.len() ==> (#[trigger] b[i]).0 == a[i].0 && b[i].1@ == rooted(a[i].1@, root),
    ensures
        lookup_from(b, k, i) is Some <==> lookup_from(a, k, i) is Some,
        lookup_from(b, k, i) matches Some(v) ==> v@ == rooted(lookup_from(a, k, i)->Some_0@, root),
    decreases a.len() - i,
{
    if i < a.len() {
        assert(b[i].0 == a[i].0);
        rooted_lookup(a, b, root, k, i + 1);
    }
}

/// Attaches environment entries, sorted by key, and search path directories
/// to an execution command. Placeholders stay: they are resolved where the
/// command runs.
pub fn attach_execution_env(
    cmd: &mut Command,
    env: &StrMap<String>,
    prepend_path: Option<&Vec<String>>,
)
    ensures
        final(cmd).program == old(cmd).program,
        final(cmd).args == old(cmd).args,
        final(cmd).working_dir == old(cmd).working_dir,
        final(cmd).timeout_secs == old(cmd).timeout_secs,
        final(cmd).env@.len() == old(cmd).env@.len() + env.entries@.len(),
        final(cmd).env@.take(old(cmd).env@.len() as int) == old(cmd).env@,
        env.well_formed() ==> sorts_pairs(
            pair_views(env.entries@),
            pair_views(final(cmd).env@.skip(old(cmd).env@.len() as int)),
        ),
        final(cmd).prepend_path@ == old(cmd).prepend_path@ + (match prepend_path {
            Some(dirs) => dirs@,
            None => Seq::<String>::empty(),
        }),
{
    let sorted = sort_pairs(&env.entries);
    let ghost base = cmd.env@;
    let mut i: usize = 0;
    proof {
        assert(cmd.env@ =~= base + sorted@.take(0));
    }
    while i < sorted.len()
        invariant
            0 <= i <= sorted@.len(),
            base == old(cmd).env@,
            cmd.env@ == base + sorted@.take(i as int),
            cmd.program == old(cmd).program,
            cmd.args == old(cmd).args,
            cmd.working_dir == old(cmd).working_dir,
            cmd.timeout_secs == old(cmd).timeout_secs,
            cmd.prepend_path == old(cmd).prepend_path,
        decreases sorted@.len() - i,
    {
        cmd.env.push((sorted[i].0.clone(), sorted[i].1.clone()));
        proof {
            assert(cmd.env@ =~= base + sorted@.take(i + 1));
        }
        i = i + 1;
    }
    proof {
        assert(sorted@.take(i as int) =~= sorted@);
        assert(cmd.env@.skip(base.len() as int) =~= sorted@);
        assert(cmd.env@.take(base.len() as int) =~= base);
        assert(pair_views(sorted@).len() == pair_views(env.entries@).len());
    }
    match prepend_path {
        Some(dirs) => {
            let mut k: usize = 0;
            let ghost before = cmd.prepend_path@;
            proof {
                assert(before + dirs@.take(0) =~= before);
            }
            while k < dirs.len()
                invariant
                    0 <= k <= dirs@.len(),
                    before == old(cmd).prepend_path@,
                    cmd.prepend_path@ == before + dirs@.take(k as int),
                    cmd.env@ == base + sorted@,
                    cmd.program == old(cmd).program,
                    cmd.args == old(cmd).args,
                    cmd.working_dir == old(cmd).working_dir,
                    cmd.timeout_secs == old(cmd).timeout_secs,
                decreases dirs@.len() - k,
            {
                cmd.prepend_path.push(dirs[k].clone());
                proof {
                    assert(before + dirs@.take(k + 1) =~= (before + dirs@.take(k as int)).push(
                        dirs@[k as int],
                    ));
                }
                k = k + 1;
            }
            proof {
                assert(dirs@.take(dirs@.len() as int) =~= dirs@);
                assert(cmd.env@.skip(base.len() as int) =~= sorted@);
                assert(cmd.env@.take(base.len() as int) =~= base);
            }
        },
        None => {
            proof {
                assert(cmd.prepend_path@ + Seq::<String>::empty() =~= cmd.prepend_path@);
            }
        },
    }
}

/// Directories taken relative to a root.
pub open spec fn anchored(prepend: Seq<Seq<char>>, root: Seq<char>) -> Seq<Seq<char>> {
    Seq::new(prepend.len(), |i: int| joined_path(root, prepend[i]))
}

/// Anchors each directory at the root. Absolute ones stay as they are.
pub fn anchored_dirs(prepend: &[String], root: &str) -> (r: Vec<String>)
    ensures
        views(r@) == anchored(views(prepend@), root@),
{
    let mut out: Vec<String> = Vec::new();
    let mut i: usize = 0;
    while i < prepend.len()
        invariant
            0 <= i <= prepend@.len(),
            out@.len() == i,
            forall|k: int| 0 <= k < i ==> (#[trigger] out@[k])@ == joined_path(root@, prepend@[k]@),
        decreases prepend@.len() - i,
    {
        out.push(paths::join(root, prepend[i].as_str()));
        i = i + 1;
    }
    proof {
        assert(views(out@) =~= anchored(views(prepend@), root@));
    }
    out
}

/// A search path with the anchored directories in front.
pub open spec fn search_path(
    prepend: Seq<Seq<char>>,
    root: Seq<char>,
    existing: Seq<char>,
) -> Seq<char> {
    if prepend.len() == 0 {
        existing
    } else if existing.len() == 0 {
        joined(anchored(prepend, root), ":"@)
    } else {
        joined(anchored(prepend, root), ":"@) + ":"@ + existing
    }
}

/// A search path is read in its order: the directories come first, each taken
/// relative to the root, and behind them what was there.
pub proof fn directories_come_first(
    prepend: Seq<Seq<char>>,
    root: Seq<char>,
    existing: Seq<char>,
)
    requires
        prepend.len() > 0,
        forall|k: int|
            0 <= k < prepend.len() ==> !joined_path(root, #[trigger] prepend[k]).contains(':'),
    ensures
        ({
            let found = pieces(search_path(prepend, root, existing), ":"@);
            &&& forall|k: int|
                0 <= k < prepend.len() ==> #[trigger] found[k] == joined_path(root, prepend[k])
            &&& found.skip(prepend.len() as int) == (if existing.len() == 0 {
                Seq::empty()
            } else {
                pieces(existing, ":"@)
            })
        }),
{
    reveal_strlit(":");
    assert(":"@ =~= seq![':']);
    let dirs = anchored(prepend, root);
    assert forall|k: int| 0 <= k < dirs.len() implies !(#[trigger] dirs[k]).contains(':') by {
        assert(!joined_path(root, prepend[k]).contains(':'));
    }
    let found = pieces(search_path(prepend, root, existing), ":"@);
    if existing.len() == 0 {
        text::pieces_undo_join(dirs, ':');
        assert(found == dirs);
        assert(found.skip(prepend.len() as int) =~= Seq::<Seq<char>>::empty());
    } else {
        text::pieces_in_front(dirs, ':', existing);
        assert(found == dirs + pieces(existing, ":"@));
        assert(found.skip(prepend.len() as int) =~= pieces(existing, ":"@));
    }
}

/// Builds a search path with each directory, anchored at the root, in front
/// of the existing one.
pub fn prepended_path(prepend: &[String], root: &str, existing_path: &str) -> (r: String)
    ensures
        r@ == search_path(views(prepend@), root@, existing_path@),
{
    if prepend.len() == 0 {
        return existing_path.to_owned();
    }
    let dirs = anchored_dirs(prepend, root);
    let mut path = text::join(&dirs, ":");
    if !existing_path.is_empty() {
        path.append(":");
        path.append(existing_path);
    }
    path
}

/// Renders the search path entry for a remote shell: the anchored directories,
/// quoted, in front of the path that the remote shell expands.
pub fn shell_path_prepend_entry(prepend: &[String], root: &str) -> (r: String)
    ensures
        r@ == "PATH="@ + shell_quoted(joined(anchored(views(prepend@), root@), ":"@))
            + ":\"$PATH\""@,
{
    let dirs = anchored_dirs(prepend, root);
    let path = text::join(&dirs, ":");
    let quoted = shell::quote(path.as_str());
    let mut entry = "PATH=".to_owned();
    entry.append(quoted.as_str());
    entry.append(":\"$PATH\"");
    entry
}

/// The resolved entries of an environment.
pub open spec fn rooted_pairs(env: Seq<(String, String)>, root: Seq<char>) -> Seq<
    (Seq<char>, Seq<char>),
> {
    Seq::new(env.len(), |i: int| (env[i].0@, rooted(env[i].1@, root)))
}

/// The directories that a setting names.
pub open spec fn dirs_of(prepend_path: Option<&Vec<String>>) -> Seq<Seq<char>> {
    match prepend_path {
        Some(dirs) => views(dirs@),
        None => Seq::empty(),
    }
}

/// The environment overrides of a local discovery command: the entries with
/// `{root}` resolved, sorted by key, and behind them a search path where there
/// are directories to put in front of it.
pub fn discovery_env(
    env: &StrMap<String>,
    prepend_path: Option<&Vec<String>>,
    root: &str,
    existing_path: &str,
) -> (r: Vec<(String, String)>)
    ensures
        r@.len() == env.entries@.len() + (if dirs_of(prepend_path).len() > 0 {
            1int
        } else {
            0int
        }),
        env.well_formed() ==> sorts_pairs(
            rooted_pairs(env.entries@, root@),
            pair_views(r@).take(env.entries@.len() as int),
        ),
        dirs_of(prepend_path).len() > 0 ==> pair_views(r@).last() == (
            "PATH"@,
            search_path(dirs_of(prepend_path), root@, existing_path@),
        ),
{
    let resolved = resolve_env(env, root);
    let mut entries = sort_pairs(&resolved.entries);
    proof {
        assert(pair_views(resolved.entries@) =~= rooted_pairs(env.entries@, root@));
        assert(pair_views(entries@).len() == pair_views(resolved.entries@).len());
    }
    let ghost sorted = pair_views(entries@);
    match prepend_path {
        Some(dirs) => {
            if dirs.len() > 0 {
                let path = prepended_path(dirs.as_slice(), root, existing_path);
                entries.push(("PATH".to_owned(), path));
            }
        },
        None => {},
    }
    proof {
        assert(pair_views(entries@).take(env.entries@.len() as int) =~= sorted);
    }
    entries
}

/// The root stands wherever a value asks for it, and all else stays.
pub proof fn root_takes_its_place(a: Seq<char>, b: Seq<char>, root: Seq<char>)
    requires
        !a.contains('{'),
    ensures
        rooted(a + "{root}"@ + b, root) == a + root + rooted(b, root),
{
    reveal_strlit("{root}");
    let pat = "{root}"@;
    let s = a + pat + b;
    assert forall|k: int| 0 <= k < a.len() implies !text::matches_at(s, pat, k) by {
        if text::matches_at(s, pat, k) {
            assert(s.subrange(k, k + pat.len())[0] == s[k]);
            assert(a.contains(a[k]));
        }
    }
    text::replaced_at_first(a, pat, b, root);
}

} // verus!
