//! Scripts that come with the program: where they are kept and how commands
//! refer to them.

use vstd::prelude::*;

use crate::paths;
use crate::paths::joined_path;
use crate::patterns;
use crate::patterns::{found_views, group, group_text, regex_captures_all, Found};
use crate::text;
use crate::text::{
    chars_of, count_fitting, fitting, front_fits, matches_at, stands_at, string_between, utf8_len,
    views,
};

verus! {

/// A reference to a script: `@filename.ext` at the start or behind a space.
pub const SCRIPT_PATTERN: &'static str = r"(?:^|\s)@([\w\-]+\.\w+)";

/// Result type for bundled script operations.
pub type BundledResult<T> = Result<T, BundledError>;

/// Errors that can occur during bundled script operations.
#[derive(Debug)]
pub enum BundledError {
    /// Failed to create cache directory.
    CacheCreationFailed(String),
    /// Failed to extract a bundled script.
    ExtractionFailed { name: String, source: String },
    /// Regex pattern compilation failed.
    RegexCompilationFailed(String),
    /// Referenced script is not bundled.
    ScriptNotFound(String),
}

impl BundledError {
    /// What is said of the error.
    pub open spec fn message_view(self) -> Seq<char> {
        match self {
            BundledError::CacheCreationFailed(e) => "Offload failed to create cache directory: "@
                + e@,
            BundledError::ExtractionFailed { name, source } => "Failed to extract script '"@ + name@
                + "' for Offload: "@ + source@,
            BundledError::RegexCompilationFailed(e) => "Failed to compile regex pattern in Offload: "@
                + e@,
            BundledError::ScriptNotFound(e) => "Script not found in bundled scripts in Offload: "@
                + e@,
        }
    }

    /// What is said of the error.
    pub fn message(&self) -> (r: String)
        ensures
            r@ == self.message_view(),
    {
        match self {
            BundledError::CacheCreationFailed(e) => {
                let mut s = "Offload failed to create cache directory: ".to_owned();
                s.append(e.as_str());
                s
            },
            BundledError::ExtractionFailed { name, source } => {
                let mut s = "Failed to extract script '".to_owned();
                s.append(name.as_str());
                s.append("' for Offload: ");
                s.append(source.as_str());
                s
            },
            BundledError::RegexCompilationFailed(e) => {
                let mut s = "Failed to compile regex pattern in Offload: ".to_owned();
                s.append(e.as_str());
                s
            },
            BundledError::ScriptNotFound(e) => {
                let mut s = "Script not found in bundled scripts in Offload: ".to_owned();
                s.append(e.as_str());
                s
            },
        }
    }
}

/// The systems that differ in where caches are kept.
#[derive(Debug, Clone, Copy, PartialEq, Eq, Structural)]
pub enum Platform {
    MacOs,
    Windows,
    Other,
}

/// The directory for caches of all programs, by what the environment says.
pub open spec fn base_cache(
    platform: Platform,
    home: Option<Seq<char>>,
    local_app_data: Option<Seq<char>>,
    xdg_cache_home: Option<Seq<char>>,
) -> Seq<char> {
    match platform {
        Platform::MacOs => match home {
            Some(h) => joined_path(h, "Library/Caches"@),
            None => "/tmp"@,
        },
        Platform::Windows => match local_app_data {
            Some(d) => d,
            None => "/tmp"@,
        },
        Platform::Other => match xdg_cache_home {
            Some(d) => d,
            None => match home {
                Some(h) => joined_path(h, ".cache"@),
                None => "/tmp"@,
            },
        },
    }
}

/// The view of an optional text.
pub open spec fn str_view(s: Option<&str>) -> Option<Seq<char>> {
    match s {
        Some(t) => Some(t@),
        None => None,
    }
}

/// The directory in which scripts are kept, by what the environment says.
pub fn cache_dir(
    platform: Platform,
    home: Option<&str>,
    local_app_data: Option<&str>,
    xdg_cache_home: Option<&str>,
) -> (r: String)
    ensures
        r@ == joined_path(
            joined_path(
                base_cache(
                    platform,
                    str_view(home),
                    str_view(local_app_data),
                    str_view(xdg_cache_home),
                ),
                "offload"@,
            ),
            "scripts"@,
        ),
{
    let base = match platform {
        Platform::MacOs => match home {
            Some(h) => paths::join(h, "Library/Caches"),
            None => "/tmp".to_owned(),
        },
        Platform::Windows => match local_app_data {
            Some(d) => d.to_owned(),
            None => "/tmp".to_owned(),
        },
        Platform::Other => match xdg_cache_home {
            Some(d) => d.to_owned(),
            None => match home {
                Some(h) => paths::join(h, ".cache"),
                None => "/tmp".to_owned(),
            },
        },
    };
    let dir = paths::join(base.as_str(), "offload");
    paths::join(dir.as_str(), "scripts")
}

/// The script that a match refers to.
pub open spec fn script_name(found: (nat, Seq<Option<Seq<char>>>)) -> Seq<char> {
    group_text(found.1, 1)
}

/// The position of the reference at the end of a match, where one stands there
/// and not before position `from`.
pub open spec fn reference_at(
    command: Seq<char>,
    found: (nat, Seq<Option<Seq<char>>>),
    from: int,
) -> Option<int> {
    let reference = "@"@ + script_name(found);
    let start = fitting(command, 0, found.0 as int) - reference.len();
    if from <= start && matches_at(command, reference, start) {
        Some(start)
    } else {
        None
    }
}

/// The command from position `from` on, with the references at the ends of the
/// matches, from the `i`th on, expanded. All other text stays as it is.
pub open spec fn expanded(
    command: Seq<char>,
    found: Seq<(nat, Seq<Option<Seq<char>>>)>,
    dir: Seq<char>,
    i: int,
    from: int,
) -> Seq<char>
    decreases found.len() - i,
{
    if i < 0 || i >= found.len() {
        command.subrange(from, command.len() as int)
    } else {
        match reference_at(command, found[i], from) {
            Some(start) => {
                let name = script_name(found[i]);
                command.subrange(from, start) + joined_path(dir, name) + expanded(
                    command,
                    found,
                    dir,
                    i + 1,
                    start + 1 + name.len(),
                )
            },
            None => expanded(command, found, dir, i + 1, from),
        }
    }
}

/// The position of the first match, from the `i`th on, that refers to no
/// bundled script.
pub open spec fn first_unknown(
    found: Seq<(nat, Seq<Option<Seq<char>>>)>,
    scripts: Seq<Seq<char>>,
    i: int,
) -> Option<int>
    decreases found.len() - i,
{
    if i < 0 || i >= found.len() {
        None
    } else if scripts.contains(script_name(found[i])) {
        first_unknown(found, scripts, i + 1)
    } else {
        Some(i)
    }
}

fn is_script(scripts: &Vec<String>, name: &str) -> (b: bool)
    ensures
        b == views(scripts@).contains(name@),
{
    let mut i: usize = 0;
    while i < scripts.len()
        invariant
            0 <= i <= scripts@.len(),
            forall|k: int| 0 <= k < i ==> #[trigger] views(scripts@)[k] != name@,
        decreases scripts@.len() - i,
    {
        assert(views(scripts@)[i as int] == scripts@[i as int]@);
        if text::same(scripts[i].as_str(), name) {
            return true;
        }
        i = i + 1;
    }
    false
}

/// Expands the references at the ends of the given matches to paths in the
/// cache directory, and leaves all other text as it is. The first one to no bundled script is an error.
pub fn expand_matches(
    command: &str,
    found: &Vec<Found>,
    scripts: &Vec<String>,
    dir: &str,
) -> (r: BundledResult<String>)
    ensures
        match first_unknown(found_views(found@), views(scripts@), 0) {
            Some(i) => r matches Err(BundledError::ScriptNotFound(name)) && name@ == script_name(
                found_views(found@)[i],
            ),
            None => r matches Ok(s) && s@ == expanded(
                command@,
                found_views(found@),
                dir@,
                0,
                0,
            ),
        },
{
    let ghost all = found_views(found@);
    let chars = chars_of(command);
    let mut result = String::new();
    let mut from: usize = 0;
    let mut i: usize = 0;
    proof {
        reveal_strlit("@");
        assert(result@ + expanded(command@, all, dir@, 0, 0) =~= expanded(
            command@,
            all,
            dir@,
            0,
            0,
        ));
    }
    while i < found.len()
        invariant
            0 <= i <= found@.len(),
            from <= chars@.len(),
            chars@ == command@,
            all == found_views(found@),
            "@"@.len() == 1,
            result@ + expanded(command@, all, dir@, i as int, from as int) == expanded(
                command@,
                all,
                dir@,
                0,
                0,
            ),
            first_unknown(all, views(scripts@), 0) == first_unknown(
                all,
                views(scripts@),
                i as int,
            ),
        decreases found@.len() - i,
    {
        assert(all[i as int] == found@[i as int]@);
        let name = group(&found[i].groups, 1);
        if !is_script(scripts, name.as_str()) {
            return Err(BundledError::ScriptNotFound(name));
        }
        let mut reference = "@".to_owned();
        reference.append(name.as_str());
        let pattern = chars_of(reference.as_str());
        let end: usize = count_fitting(&chars, found[i].end);
        if pattern.len() <= end && from <= end - pattern.len() && stands_at(
            &chars,
            &pattern,
            end - pattern.len(),
        ) {
            let start: usize = end - pattern.len();
            let path = paths::join(dir, name.as_str());
            let ghost rest = expanded(command@, all, dir@, i + 1, end as int);
            proof {
                assert(reference_at(command@, all[i as int], from as int) == Some(start as int));
                assert(result@ + (command@.subrange(from as int, start as int) + path@ + rest)
                    =~= result@ + command@.subrange(from as int, start as int) + path@ + rest);
            }
            let kept = string_between(&chars, from, start);
            result.append(kept.as_str());
            result.append(path.as_str());
            from = end;
        } else {
            assert(reference_at(command@, all[i as int], from as int) is None);
        }
        i = i + 1;
    }
    let kept = string_between(&chars, from, chars.len());
    result.append(kept.as_str());
    Ok(result)
}

/// Expands `@filename.ext` references in a command to full paths in the cache
/// directory. Such text inside of a word is no reference, and stays.
pub fn expand_command(command: &str, scripts: &Vec<String>, dir: &str) -> (r: BundledResult<String>)
    ensures
        ({
            let found = regex_captures_all(SCRIPT_PATTERN@, command@);
            match first_unknown(found, views(scripts@), 0) {
                Some(i) => r matches Err(BundledError::ScriptNotFound(name)) && name@
                    == script_name(found[i]),
                None => r matches Ok(s) && s@ == expanded(
                    command@,
                    found,
                    dir@,
                    0,
                    0,
                ),
            }
        }),
{
    let found = patterns::captures_all(SCRIPT_PATTERN, command);
    proof {
        assert(found_views(found@).len() == found@.len());
    }
    expand_matches(command, &found, scripts, dir)
}

/// Whether a command refers to scripts.
pub fn has_references(command: &str) -> (b: bool)
    ensures
        b == (regex_captures_all(SCRIPT_PATTERN@, command@).len() > 0),
{
    let found = patterns::captures_all(SCRIPT_PATTERN, command);
    proof {
        assert(found_views(found@).len() == found@.len());
    }
    found.len() > 0
}

/// A command without references stays as it is.
pub proof fn plain_command_unchanged(command: Seq<char>, scripts: Seq<Seq<char>>, dir: Seq<char>)
    requires
        regex_captures_all(SCRIPT_PATTERN@, command).len() == 0,
    ensures
        first_unknown(regex_captures_all(SCRIPT_PATTERN@, command), scripts, 0) is None,
        expanded(command, regex_captures_all(SCRIPT_PATTERN@, command), dir, 0, 0) == command,
{
}

/// A reference gives way to the path of its script in the cache directory;
/// what stands in front of it stays, and what is behind it is expanded on its
/// own.
pub proof fn reference_becomes_path(
    a: Seq<char>,
    name: Seq<char>,
    b: Seq<char>,
    groups: Seq<Option<Seq<char>>>,
    more: Seq<(nat, Seq<Option<Seq<char>>>)>,
    dir: Seq<char>,
)
    requires
        groups.len() > 1,
        groups[1] == Some(name),
    ensures
        ({
            let command = a + "@"@ + name + b;
            let found = seq![(utf8_len(a + "@"@ + name), groups)] + more;
            expanded(command, found, dir, 0, 0) == a + joined_path(dir, name) + expanded(
                command,
                found,
                dir,
                1,
                1 + a.len() as int + name.len(),
            )
        }),
        expanded(
            a + "@"@ + name + b,
            seq![(utf8_len(a + "@"@ + name), groups)],
            dir,
            0,
            0,
        ) == a + joined_path(dir, name) + b,
{
    reveal_strlit("@");
    let front = a + "@"@ + name;
    let command = front + b;
    let reference = "@"@ + name;
    let start = a.len() as int;
    let end = 1 + start + name.len();
    front_fits(front, b);
    assert(command.subrange(start, start + reference.len()) =~= reference);
    assert(matches_at(command, reference, start));
    assert(command.subrange(0, start) =~= a);
    let one = (utf8_len(front), groups);
    let found = seq![one] + more;
    assert(found[0] == one);
    assert(script_name(one) == name);
    assert(reference_at(command, one, 0) == Some(start));
    let single = seq![one];
    assert(single[0] == one);
    assert(expanded(command, single, dir, 1, end) == command.subrange(end, command.len() as int));
    assert(command.subrange(end, command.len() as int) =~= b);
}

/// A command is expanded exactly where all its references are to bundled
/// scripts; else the error is the first that is not.
pub proof fn unknown_script_is_first(
    found: Seq<(nat, Seq<Option<Seq<char>>>)>,
    scripts: Seq<Seq<char>>,
    from: int,
)
    requires
        0 <= from <= found.len(),
    ensures
        match first_unknown(found, scripts, from) {
            Some(i) => from <= i < found.len() && !scripts.contains(script_name(found[i]))
                && forall|j: int|
                from <= j < i ==> scripts.contains(script_name(#[trigger] found[j])),
            None => forall|j: int|
                from <= j < found.len() ==> scripts.contains(script_name(#[trigger] found[j])),
        },
    decreases found.len() - from,
{
    if from < found.len() && scripts.contains(script_name(found[from])) {
        unknown_script_is_first(found, scripts, from + 1);
    }
}

/// Where caches are kept goes by what the platform sets: on macOS by the home
/// directory alone, on Windows by the directory for local data alone, elsewhere
/// by the directory for caches, and by the home directory only without one.
pub proof fn cache_goes_by_platform(home: Seq<char>, local: Seq<char>, xdg: Seq<char>)
    ensures
        forall|l: Option<Seq<char>>, x: Option<Seq<char>>|
            base_cache(Platform::MacOs, Some(home), l, x) == joined_path(home, "Library/Caches"@),
        forall|h: Option<Seq<char>>, x: Option<Seq<char>>|
            base_cache(Platform::Windows, h, Some(local), x) == local,
        forall|h: Option<Seq<char>>, l: Option<Seq<char>>|
            base_cache(Platform::Other, h, l, Some(xdg)) == xdg,
        forall|l: Option<Seq<char>>|
            base_cache(Platform::Other, Some(home), l, None) == joined_path(home, ".cache"@),
{
}

} // verus!
