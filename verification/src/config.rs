//! Configuration: its types, the rules a configuration must meet, and the
//! values filled in before it is used.

use vstd::prelude::*;

use crate::paths;
use crate::paths::normalized;
use crate::strmap::StrMap;
use crate::text;
use crate::text::{
    chars_of, find_from, find_from_is_least, matches_at, occurs, occurs_iff_found, replaced,
    string_between, views,
};

pub mod schema;

pub use crate::config::schema::{
    CargoDiscoveryConfig, CargoFrameworkConfig, CheckpointConfig, Config, DefaultDiscoveryConfig,
    DefaultFrameworkConfig, DefaultProviderConfig, DiscoveryConfig, DockerProviderConfig,
    FrameworkConfig, GroupConfig, LocalProviderConfig, ModalProviderConfig, OffloadConfig,
    ProviderConfig, PytestDiscoveryConfig, PytestFrameworkConfig, ReportConfig, SandboxConfig,
    ShotgunConfig, VitestFrameworkConfig,
};

verus! {

/// A test id made from a reported name and class name.
pub open spec fn formatted_id(
    format: Seq<char>,
    name: Seq<char>,
    classname: Seq<char>,
) -> Seq<char> {
    replaced(replaced(format, "{name}"@, name), "{classname}"@, classname)
}

/// Formats a test ID from reported attributes: the placeholder for the name
/// is replaced first, then the one for the class name.
pub fn format_test_id(format: &str, name: &str, classname: Option<&str>) -> (r: String)
    ensures
        r@ == formatted_id(
            format@,
            name@,
            match classname {
                Some(c) => c@,
                None => Seq::empty(),
            },
        ),
{
    proof {
        reveal_strlit("{name}");
        reveal_strlit("{classname}");
        reveal_strlit("");
        assert(""@ =~= Seq::<char>::empty());
    }
    let named = text::replace(format, "{name}", name);
    match classname {
        Some(c) => text::replace(named.as_str(), "{classname}", c),
        None => text::replace(named.as_str(), "{classname}", ""),
    }
}

proof fn unbraced_matches_not(s: Seq<char>, pat: Seq<char>, k: int)
    requires
        pat.len() > 0,
        pat[0] == '{',
        0 <= k < s.len(),
        s[k] != '{',
    ensures
        !matches_at(s, pat, k),
{
    if matches_at(s, pat, k) {
        assert(s.subrange(k, k + pat.len())[0] == s[k]);
    }
}

proof fn unbraced_unchanged(s: Seq<char>, pat: Seq<char>, rep: Seq<char>)
    requires
        pat.len() > 0,
        pat[0] == '{',
        !s.contains('{'),
    ensures
        replaced(s, pat, rep) == s,
{
    if occurs(s, pat) {
        let k = choose|k: int| matches_at(s, pat, k);
        unbraced_matches_not(s, pat, k);
    }
    text::replaced_without_occurrence(s, pat, rep);
}

/// A format with both placeholders, the class name first, gives an id with the
/// class name and the name in their places, and all else as it stands. The name
/// holds no brace.
pub proof fn formats_class_and_name(
    a: Seq<char>,
    b: Seq<char>,
    c: Seq<char>,
    name: Seq<char>,
    classname: Seq<char>,
)
    requires
        !a.contains('{'),
        !b.contains('{'),
        !c.contains('{'),
        !name.contains('{'),
    ensures
        formatted_id(a + "{classname}"@ + b + "{name}"@ + c, name, classname) == a + classname + b
            + name + c,
{
    reveal_strlit("{name}");
    reveal_strlit("{classname}");
    let (n, k) = ("{name}"@, "{classname}"@);
    let front = a + k + b;
    let format = front + n + c;
    assert(format =~= a + k + b + n + c);
    assert forall|i: int| 0 <= i < front.len() implies !matches_at(format, n, i) by {
        if i == a.len() {
            if matches_at(format, n, i) {
                assert(format.subrange(i, i + n.len())[1] == format[i + 1]);
                assert(format[i + 1] == k[1]);
            }
        } else {
            assert(front[i] != '{') by {
                if i < a.len() {
                    assert(a.contains(a[i]));
                } else if i < a.len() + k.len() {
                    assert(front[i] == k[i - a.len()]);
                } else {
                    let m = i - a.len() - k.len();
                    assert(b.contains(b[m]));
                }
            }
            unbraced_matches_not(format, n, i);
        }
    }
    text::replaced_at_first(front, n, c, name);
    unbraced_unchanged(c, n, name);
    let rest = b + name + c;
    let named = a + k + rest;
    assert(front + name + c =~= named);
    assert forall|i: int| 0 <= i < a.len() implies !matches_at(named, k, i) by {
        assert(a.contains(a[i]));
        unbraced_matches_not(named, k, i);
    }
    text::replaced_at_first(a, k, rest, classname);
    assert(!rest.contains('{')) by {
        if rest.contains('{') {
            let i = choose|i: int| 0 <= i < rest.len() && rest[i] == '{';
            if i < b.len() {
                assert(b.contains(b[i]));
            } else if i < b.len() + name.len() {
                assert(name.contains(name[i - b.len()]));
            } else {
                assert(c.contains(c[i - b.len() - name.len()]));
            }
        }
    }
    unbraced_unchanged(rest, k, classname);
    assert(a + classname + rest =~= a + classname + b + name + c);
}

/// A format with the name alone gives an id with the name in its place. The
/// name holds no brace.
pub proof fn formats_name(a: Seq<char>, c: Seq<char>, name: Seq<char>, classname: Seq<char>)
    requires
        !a.contains('{'),
        !c.contains('{'),
        !name.contains('{'),
    ensures
        formatted_id(a + "{name}"@ + c, name, classname) == a + name + c,
{
    reveal_strlit("{name}");
    reveal_strlit("{classname}");
    let (n, k) = ("{name}"@, "{classname}"@);
    let format = a + n + c;
    assert forall|i: int| 0 <= i < a.len() implies !matches_at(format, n, i) by {
        assert(a.contains(a[i]));
        unbraced_matches_not(format, n, i);
    }
    text::replaced_at_first(a, n, c, name);
    unbraced_unchanged(c, n, name);
    let named = a + name + c;
    assert(!named.contains('{')) by {
        if named.contains('{') {
            let i = choose|i: int| 0 <= i < named.len() && named[i] == '{';
            if i < a.len() {
                assert(a.contains(a[i]));
            } else if i < a.len() + name.len() {
                assert(name.contains(name[i - a.len()]));
            } else {
                assert(c.contains(c[i - a.len() - name.len()]));
            }
        }
    }
    unbraced_unchanged(named, k, classname);
}

/// Normalizes a path lexically by stripping `.` components.
pub fn normalize_path(raw: &str) -> (r: String)
    ensures
        r@ == normalized(raw@),
{
    paths::normalize(raw)
}

/// The Dockerfile that a provider's configuration names.
pub open spec fn dockerfile_of(provider: ProviderConfig) -> Option<String> {
    match provider {
        ProviderConfig::Modal(cfg) => cfg.dockerfile,
        _ => None,
    }
}

/// The build inputs with the Dockerfile, put in front where it is missing.
pub open spec fn with_dockerfile(inputs: Seq<String>, dockerfile: Option<String>) -> Seq<String> {
    match dockerfile {
        Some(path) => if views(inputs).contains(path@) {
            inputs
        } else {
            seq![path] + inputs
        },
        None => inputs,
    }
}

fn lists(inputs: &Vec<String>, path: &str) -> (b: bool)
    ensures
        b == views(inputs@).contains(path@),
{
    let mut i: usize = 0;
    while i < inputs.len()
        invariant
            0 <= i <= inputs@.len(),
            forall|k: int| 0 <= k < i ==> #[trigger] views(inputs@)[k] != path@,
        decreases inputs@.len() - i,
    {
        if text::same(inputs[i].as_str(), path) {
            assert(views(inputs@)[i as int] == path@);
            return true;
        }
        i = i + 1;
    }
    false
}

/// Puts the provider's Dockerfile among the build inputs of a checkpoint.
pub fn resolve_checkpoint_defaults(config: &mut Config)
    ensures
        match old(config).checkpoint {
            Some(c) => final(config).checkpoint matches Some(d) && d.build_inputs@
                == with_dockerfile(c.build_inputs@, dockerfile_of(old(config).provider)),
            None => final(config).checkpoint is None,
        },
        final(config).offload == old(config).offload,
        final(config).provider == old(config).provider,
        final(config).framework == old(config).framework,
        final(config).groups == old(config).groups,
        final(config).report == old(config).report,
{
    let dockerfile: Option<String> = match &config.provider {
        ProviderConfig::Modal(cfg) => match &cfg.dockerfile {
            Some(d) => Some(d.clone()),
            None => None,
        },
        _ => None,
    };
    match dockerfile {
        Some(path) => {
            match config.checkpoint.take() {
                Some(checkpoint) => {
                    let mut inputs = checkpoint.build_inputs;
                    let ghost old_inputs = inputs@;
                    if !lists(&inputs, path.as_str()) {
                        inputs.insert(0, path);
                        proof {
                            assert(inputs@ =~= seq![path] + old_inputs);
                        }
                    }
                    config.checkpoint = Some(CheckpointConfig { build_inputs: inputs });
                },
                None => {},
            }
        },
        None => {},
    }
}

/// Filling in the defaults of a checkpoint a second time changes nothing.
pub proof fn defaults_are_idempotent(inputs: Seq<String>, dockerfile: Option<String>)
    ensures
        with_dockerfile(with_dockerfile(inputs, dockerfile), dockerfile) == with_dockerfile(
            inputs,
            dockerfile,
        ),
{
    match dockerfile {
        Some(path) => {
            let once = with_dockerfile(inputs, dockerfile);
            if !views(inputs).contains(path@) {
                assert(views(once)[0] == path@);
                assert(views(once).contains(path@));
            }
        },
        None => {},
    }
}

/// The position of the first build input that repeats an earlier one, up to
/// normalization.
pub open spec fn first_repeat(inputs: Seq<Seq<char>>, i: int) -> Option<int>
    decreases inputs.len() - i,
{
    if i < 0 || i >= inputs.len() {
        None
    } else if exists|j: int|
        0 <= j < i && normalized(#[trigger] inputs[j]) == normalized(inputs[i]) {
        Some(i)
    } else {
        first_repeat(inputs, i + 1)
    }
}

/// What a configuration is rejected for: it has no groups, its framework's
/// commands lack a placeholder, or its checkpoint's build inputs, where it has
/// a checkpoint, do not do.
pub open spec fn config_problem(
    groups: nat,
    framework: FrameworkConfig,
    inputs: Option<Seq<Seq<char>>>,
    local: bool,
) -> Option<Seq<char>> {
    if groups == 0 {
        Some(
            "Configuration must define at least one group. Add a [groups.NAME] section, e.g.:\n[groups.all]\nretry_count = 0\nfilters = \"\""@,
        )
    } else {
        match framework_problem(framework) {
            Some(e) => Some(e),
            None => match inputs {
                Some(c) => checkpoint_problem(c, local),
                None => None,
            },
        }
    }
}

/// What a framework's configuration is rejected for.
pub open spec fn framework_problem(framework: FrameworkConfig) -> Option<Seq<char>> {
    match framework {
        FrameworkConfig::Default(cfg) => if occurs(cfg.discover_command@, "{filters}"@) {
            None
        } else {
            Some(
                "Default framework discover_command must contain '{filters}' placeholder for group filtering. Got: '"@
                    + cfg.discover_command@
                    + "'. Add '{filters}' to your discover_command, e.g., 'my-command {filters}'"@,
            )
        },
        _ => None,
    }
}

/// What the build inputs of a checkpoint are rejected for.
pub open spec fn checkpoint_problem(inputs: Seq<Seq<char>>, local: bool) -> Option<Seq<char>> {
    if inputs.len() == 0 {
        Some(
            "Checkpoint configuration requires at least one entry in build_inputs. Add file paths whose contents determine the image cache key, e.g.:\n[checkpoint]\nbuild_inputs = [\"Dockerfile\", \"requirements.txt\"]"@,
        )
    } else if local {
        Some(
            "Checkpoint is not supported with the local provider. Use a remote provider (default or modal) for checkpoint support."@,
        )
    } else {
        match first_repeat(inputs, 0) {
            Some(i) => Some(repeat_error(inputs[i])),
            None => None,
        }
    }
}

/// What a configuration as it stands is rejected for.
pub open spec fn config_error(config: Config) -> Option<Seq<char>> {
    config_problem(
        config.groups.entries@.len(),
        config.framework,
        match config.checkpoint {
            Some(c) => Some(views(c.build_inputs@)),
            None => None,
        },
        config.provider is Local,
    )
}

/// What is said of a repeated build input.
pub open spec fn repeat_error(raw: Seq<char>) -> Seq<char> {
    "Duplicate entry in build_inputs: '"@ + raw + "' (normalizes to '"@ + normalized(raw)
        + "'). build_inputs must be a set of unique file paths."@
}

fn find_repeat(inputs: &Vec<String>) -> (r: Option<usize>)
    ensures
        match r {
            Some(i) => i < inputs@.len() && first_repeat(views(inputs@), 0) == Some(i as int),
            None => first_repeat(views(inputs@), 0) is None,
        },
{
    let ghost all = views(inputs@);
    let mut seen: Vec<String> = Vec::new();
    let mut i: usize = 0;
    while i < inputs.len()
        invariant
            0 <= i <= inputs@.len(),
            all == views(inputs@),
            seen@.len() == i,
            forall|k: int| 0 <= k < i ==> (#[trigger] seen@[k])@ == normalized(all[k]),
            first_repeat(all, 0) == first_repeat(all, i as int),
        decreases inputs@.len() - i,
    {
        let n = paths::normalize(inputs[i].as_str());
        if lists(&seen, n.as_str()) {
            proof {
                let k = choose|k: int| 0 <= k < views(seen@).len() && views(seen@)[k] == n@;
                assert(seen@[k]@ == normalized(all[k]));
                assert(normalized(all[k]) == normalized(all[i as int]));
            }
            return Some(i);
        }
        proof {
            assert forall|j: int| 0 <= j < i implies normalized(#[trigger] all[j]) != normalized(
                all[i as int],
            ) by {
                assert(seen@[j]@ == normalized(all[j]));
                if normalized(all[j]) == n@ {
                    assert(views(seen@)[j] == n@);
                    assert(views(seen@).contains(n@));
                }
            }
        }
        seen.push(n);
        i = i + 1;
    }
    None
}

/// Validates the rules that types cannot express.
pub fn validate_config(config: &Config) -> (r: Result<(), String>)
    ensures
        match r {
            Ok(_) => config_error(*config) is None,
            Err(e) => config_error(*config) == Some(e@),
        },
{
    if config.groups.len() == 0 {
        return Err(
            "Configuration must define at least one group. Add a [groups.NAME] section, e.g.:\n[groups.all]\nretry_count = 0\nfilters = \"\"".to_owned(),
        );
    }
    match &config.framework {
        FrameworkConfig::Default(cfg) => {
            if !text::contains(cfg.discover_command.as_str(), "{filters}") {
                let mut e =
                    "Default framework discover_command must contain '{filters}' placeholder for group filtering. Got: '".to_owned();
                e.append(cfg.discover_command.as_str());
                e.append(
                    "'. Add '{filters}' to your discover_command, e.g., 'my-command {filters}'",
                );
                return Err(e);
            }
        },
        _ => {},
    }
    match &config.checkpoint {
        Some(checkpoint) => {
            if checkpoint.build_inputs.len() == 0 {
                return Err(
                    "Checkpoint configuration requires at least one entry in build_inputs. Add file paths whose contents determine the image cache key, e.g.:\n[checkpoint]\nbuild_inputs = [\"Dockerfile\", \"requirements.txt\"]".to_owned(),
                );
            }
            match &config.provider {
                ProviderConfig::Local(_) => {
                    return Err(
                        "Checkpoint is not supported with the local provider. Use a remote provider (default or modal) for checkpoint support.".to_owned(),
                    );
                },
                _ => {},
            }
            match find_repeat(&checkpoint.build_inputs) {
                Some(i) => {
                    let raw = checkpoint.build_inputs[i].as_str();
                    let mut e = "Duplicate entry in build_inputs: '".to_owned();
                    e.append(raw);
                    e.append("' (normalizes to '");
                    let n = normalize_path(raw);
                    e.append(n.as_str());
                    e.append("'). build_inputs must be a set of unique file paths.");
                    return Err(e);
                },
                None => {},
            }
        },
        None => {},
    }
    Ok(())
}

/// The position of the first closing brace at or after `i`, or the length.
pub open spec fn brace_from(s: Seq<char>, i: int) -> int
    decreases s.len() - i,
{
    if i < 0 || i >= s.len() {
        s.len() as int
    } else if s[i] == '}' {
        i
    } else {
        brace_from(s, i + 1)
    }
}

/// What the content of a variable reference stands for: the variable's value,
/// or where it is not set the default behind `:-`.
pub open spec fn reference_value(
    content: Seq<char>,
    env: Map<Seq<char>, String>,
) -> Result<Seq<char>, Seq<char>> {
    let split = find_from(content, ":-"@, 0);
    let name = match split {
        Some(i) => content.subrange(0, i),
        None => content,
    };
    if name.len() == 0 {
        Err("Empty variable name in ${}"@)
    } else if env.contains_key(name) {
        Ok(env[name]@)
    } else {
        match split {
            Some(i) => Ok(content.subrange(i + 2, content.len() as int)),
            None => Err("Required environment variable not set: "@ + name),
        }
    }
}

/// A result with text put in front of it.
pub open spec fn prefixed(
    head: Seq<char>,
    rest: Result<Seq<char>, Seq<char>>,
) -> Result<Seq<char>, Seq<char>> {
    match rest {
        Ok(t) => Ok(head + t),
        Err(e) => Err(e),
    }
}

/// A value from position `i` on with its variable references expanded: `${VAR}`
/// and `${VAR:-default}` stand for the variable, `$$` for a dollar sign, and
/// any other dollar sign for itself.
pub open spec fn expanded_from(s: Seq<char>, env: Map<Seq<char>, String>, i: int) -> Result<
    Seq<char>,
    Seq<char>,
>
    decreases s.len() - i,
{
    if i < 0 || i >= s.len() {
        Ok(Seq::empty())
    } else if s[i] != '$' {
        prefixed(seq![s[i]], expanded_from(s, env, i + 1))
    } else if i + 1 < s.len() && s[i + 1] == '$' {
        prefixed(seq!['$'], expanded_from(s, env, i + 2))
    } else if i + 1 < s.len() && s[i + 1] == '{' {
        let j = brace_from(s, i + 2);
        if i + 2 <= j < s.len() {
            match reference_value(s.subrange(i + 2, j), env) {
                Ok(v) => prefixed(v, expanded_from(s, env, j + 1)),
                Err(e) => Err(e),
            }
        } else {
            Err("Unclosed variable reference: ${"@ + s.subrange(i + 2, s.len() as int))
        }
    } else {
        prefixed(seq!['$'], expanded_from(s, env, i + 1))
    }
}

/// A value with its variable references expanded.
pub open spec fn expanded(s: Seq<char>, env: Map<Seq<char>, String>) -> Result<
    Seq<char>,
    Seq<char>,
> {
    expanded_from(s, env, 0)
}

fn resolve_reference(content: &str, env: &StrMap<String>) -> (r: Result<String, String>)
    ensures
        match r {
            Ok(v) => reference_value(content@, env@) == Ok::<Seq<char>, Seq<char>>(v@),
            Err(e) => reference_value(content@, env@) == Err::<Seq<char>, Seq<char>>(e@),
        },
{
    proof {
        reveal_strlit(":-");
    }
    let (name, default) = match text::split_once(content, ":-") {
        Some((name, rest)) => (name, Some(rest)),
        None => (content.to_owned(), None),
    };
    if name.as_str().is_empty() {
        return Err("Empty variable name in ${}".to_owned());
    }
    match env.get(name.as_str()) {
        Some(v) => Ok(v.clone()),
        None => match default {
            Some(d) => Ok(d),
            None => {
                let mut e = "Required environment variable not set: ".to_owned();
                e.append(name.as_str());
                Err(e)
            },
        },
    }
}

/// Expands the variable references in a value, given the environment.
pub fn expand_env_value(value: &str, env: &StrMap<String>) -> (r: Result<String, String>)
    ensures
        match r {
            Ok(v) => expanded(value@, env@) == Ok::<Seq<char>, Seq<char>>(v@),
            Err(e) => expanded(value@, env@) == Err::<Seq<char>, Seq<char>>(e@),
        },
{
    let v = chars_of(value);
    let n: usize = v.len();
    let mut out = String::new();
    let mut i: usize = 0;
    proof {
        match expanded(value@, env@) {
            Ok(t) => {
                assert(Seq::<char>::empty() + t =~= t);
            },
            Err(_) => {},
        }
    }
    while i < n
        invariant
            0 <= i <= n,
            n == v@.len(),
            n == v.len(),
            v@ == value@,
            expanded(value@, env@) == prefixed(out@, expanded_from(value@, env@, i as int)),
        decreases n - i,
    {
        let ghost before = out@;
        if v[i] != '$' {
            out.push(v[i]);
            proof {
                prefixed_twice(before, seq![value@[i as int]], expanded_from(value@, env@, i + 1));
                assert(out@ =~= before + seq![value@[i as int]]);
            }
            i = i + 1;
        } else if n - i >= 2 && v[i + 1] == '$' {
            out.push('$');
            proof {
                prefixed_twice(before, seq!['$'], expanded_from(value@, env@, i + 2));
                assert(out@ =~= before + seq!['$']);
            }
            i = i + 2;
        } else if n - i >= 2 && v[i + 1] == '{' {
            let mut j: usize = i + 2;
            while j < n && v[j] != '}'
                invariant
                    i + 2 <= j <= n,
                    n == v@.len(),
                    n == v.len(),
                    v@ == value@,
                    brace_from(value@, i + 2) == brace_from(value@, j as int),
                decreases n - j,
            {
                j = j + 1;
            }
            let content = string_between(&v, i + 2, j);
            if j >= n {
                let mut e = "Unclosed variable reference: ${".to_owned();
                e.append(content.as_str());
                return Err(e);
            }
            match resolve_reference(content.as_str(), env) {
                Ok(x) => {
                    out.append(x.as_str());
                    proof {
                        prefixed_twice(before, x@, expanded_from(value@, env@, j + 1));
                    }
                },
                Err(e) => {
                    return Err(e);
                },
            }
            i = j + 1;
        } else {
            out.push('$');
            proof {
                prefixed_twice(before, seq!['$'], expanded_from(value@, env@, i + 1));
                assert(out@ =~= before + seq!['$']);
            }
            i = i + 1;
        }
    }
    proof {
        assert(out@ + Seq::<char>::empty() =~= out@);
    }
    Ok(out)
}

proof fn prefixed_twice(a: Seq<char>, b: Seq<char>, rest: Result<Seq<char>, Seq<char>>)
    ensures
        prefixed(a, prefixed(b, rest)) == prefixed(a + b, rest),
{
    match rest {
        Ok(t) => {
            assert(a + (b + t) =~= (a + b) + t);
        },
        Err(_) => {},
    }
}

/// A value without a dollar sign expands to itself, whatever the environment.
pub proof fn plain_value_unchanged(s: Seq<char>, env: Map<Seq<char>, String>)
    requires
        !s.contains('$'),
    ensures
        expanded(s, env) == Ok::<Seq<char>, Seq<char>>(s),
{
    plain_tail_unchanged(s, env, 0);
    assert(s.subrange(0, s.len() as int) =~= s);
}

proof fn plain_tail_unchanged(s: Seq<char>, env: Map<Seq<char>, String>, i: int)
    requires
        !s.contains('$'),
        0 <= i <= s.len(),
    ensures
        expanded_from(s, env, i) == Ok::<Seq<char>, Seq<char>>(s.subrange(i, s.len() as int)),
    decreases s.len() - i,
{
    if i < s.len() {
        assert(s.contains(s[i]));
        plain_tail_unchanged(s, env, i + 1);
        assert(s.subrange(i, s.len() as int) =~= seq![s[i]] + s.subrange(i + 1, s.len() as int));
    } else {
        assert(s.subrange(i, s.len() as int) =~= Seq::<char>::empty());
    }
}

/// A text with every dollar sign doubled.
pub open spec fn escaped(s: Seq<char>) -> Seq<char>
    decreases s.len(),
{
    if s.len() == 0 {
        Seq::empty()
    } else if s[0] == '$' {
        seq!['$', '$'] + escaped(s.subrange(1, s.len() as int))
    } else {
        seq![s[0]] + escaped(s.subrange(1, s.len() as int))
    }
}

/// Expansion undoes the doubling of dollar signs: any text can be written so
/// that it comes out as it is.
pub proof fn expansion_undoes_escape(s: Seq<char>, env: Map<Seq<char>, String>)
    ensures
        expanded(escaped(s), env) == Ok::<Seq<char>, Seq<char>>(s),
{
    assert(Seq::<char>::empty() + escaped(s) =~= escaped(s));
    escaped_behind(Seq::empty(), s, env);
}

proof fn escaped_behind(head: Seq<char>, s: Seq<char>, env: Map<Seq<char>, String>)
    ensures
        expanded_from(head + escaped(s), env, head.len() as int) == Ok::<Seq<char>, Seq<char>>(s),
    decreases s.len(),
{
    let all = head + escaped(s);
    if s.len() == 0 {
        assert(s =~= Seq::<char>::empty());
    } else {
        let rest = s.subrange(1, s.len() as int);
        let i = head.len() as int;
        if s[0] == '$' {
            let h = head + seq!['$', '$'];
            assert(all =~= h + escaped(rest));
            escaped_behind(h, rest, env);
            assert(all[i] == '$');
            assert(all[i + 1] == '$');
            assert(seq!['$'] + rest =~= s);
        } else {
            let h = head + seq![s[0]];
            assert(all =~= h + escaped(rest));
            escaped_behind(h, rest, env);
            assert(all[i] == s[0]);
            assert(seq![s[0]] + rest =~= s);
        }
    }
}

/// What is said of a variable whose value cannot be expanded.
pub open spec fn env_error(key: Seq<char>, e: Seq<char>) -> Seq<char> {
    "Failed to expand env var '"@ + key + "': "@ + e
}

/// The expansion of an environment's values.
pub open spec fn expands_env(
    before: Seq<(String, String)>,
    after: Seq<(String, String)>,
    env: Map<Seq<char>, String>,
) -> bool {
    &&& before.len() == after.len()
    &&& forall|i: int|
        0 <= i < before.len() ==> (#[trigger] after[i]).0 == before[i].0 && expanded(
            before[i].1@,
            env,
        ) == Ok::<Seq<char>, Seq<char>>(after[i].1@)
}

/// What is said of the first entry from position `i` on whose value cannot be
/// expanded.
pub open spec fn first_env_error(
    entries: Seq<(String, String)>,
    env: Map<Seq<char>, String>,
    i: int,
) -> Option<Seq<char>>
    decreases entries.len() - i,
{
    if i < 0 || i >= entries.len() {
        None
    } else {
        match expanded(entries[i].1@, env) {
            Err(m) => Some(env_error(entries[i].0@, m)),
            Ok(_) => first_env_error(entries, env, i + 1),
        }
    }
}

/// Expands the variable references in all values of a map, one after the
/// other, up to the first that fails.
pub fn expand_env_hashmap(map: &mut StrMap<String>, env: &StrMap<String>) -> (r: Result<(), String>)
    ensures
        final(map).entries@.len() == old(map).entries@.len(),
        forall|i: int|
            0 <= i < old(map).entries@.len() ==> (#[trigger] final(map).entries@[i]).0 == old(
                map,
            ).entries@[i].0,
        old(map).well_formed() ==> final(map).well_formed(),
        match r {
            Ok(_) => expands_env(old(map).entries@, final(map).entries@, env@),
            Err(e) => first_env_error(old(map).entries@, env@, 0) == Some(e@),
        },
        r is Ok <==> first_env_error(old(map).entries@, env@, 0) is None,
{
    let n: usize = map.entries.len();
    let mut i: usize = 0;
    while i < n
        invariant
            0 <= i <= n,
            n == old(map).entries@.len(),
            map.entries@.len() == n,
            forall|k: int|
                0 <= k < n ==> (#[trigger] map.entries@[k]).0 == old(map).entries@[k].0,
            forall|k: int|
                0 <= k < i ==> expanded((#[trigger] old(map).entries@[k]).1@, env@) == Ok::<
                    Seq<char>,
                    Seq<char>,
                >(map.entries@[k].1@),
            forall|k: int| i <= k < n ==> #[trigger] map.entries@[k] == old(map).entries@[k],
            first_env_error(old(map).entries@, env@, 0) == first_env_error(
                old(map).entries@,
                env@,
                i as int,
            ),
        decreases n - i,
    {
        let key = map.entries[i].0.clone();
        assert(old(map).entries@[i as int] == map.entries@[i as int]);
        match expand_env_value(map.entries[i].1.as_str(), env) {
            Ok(v) => {
                map.entries.set(i, (key, v));
            },
            Err(m) => {
                let mut e = "Failed to expand env var '".to_owned();
                e.append(key.as_str());
                e.append("': ");
                e.append(m.as_str());
                return Err(e);
            },
        }
        i = i + 1;
    }
    Ok(())
}

/// The environment of a provider's configuration.
pub open spec fn provider_env(provider: ProviderConfig) -> StrMap<String> {
    match provider {
        ProviderConfig::Local(c) => c.env,
        ProviderConfig::Docker(c) => c.env,
        ProviderConfig::Default(c) => c.env,
        ProviderConfig::Modal(c) => c.env,
    }
}

/// Two providers differ in their environments at most.
pub open spec fn same_but_env(a: ProviderConfig, b: ProviderConfig) -> bool {
    match (a, b) {
        (ProviderConfig::Local(x), ProviderConfig::Local(y)) => x == (LocalProviderConfig {
            env: x.env,
            ..y
        }),
        (ProviderConfig::Docker(x), ProviderConfig::Docker(y)) => x == (DockerProviderConfig {
            env: x.env,
            ..y
        }),
        (ProviderConfig::Default(x), ProviderConfig::Default(y)) => x == (DefaultProviderConfig {
            env: x.env,
            ..y
        }),
        (ProviderConfig::Modal(x), ProviderConfig::Modal(y)) => x == (ModalProviderConfig {
            env: x.env,
            ..y
        }),
        _ => false,
    }
}

/// Expands the variable references in the environment of a provider.
pub fn expand_provider_env(provider: &mut ProviderConfig, env: &StrMap<String>) -> (r: Result<
    (),
    String,
>)
    ensures
        same_but_env(*final(provider), *old(provider)),
        provider_env(*old(provider)).well_formed() ==> provider_env(
            *final(provider),
        ).well_formed(),
        match r {
            Ok(_) => expands_env(
                provider_env(*old(provider)).entries@,
                provider_env(*final(provider)).entries@,
                env@,
            ),
            Err(e) => first_env_error(provider_env(*old(provider)).entries@, env@, 0) == Some(e@),
        },
        r is Ok <==> first_env_error(provider_env(*old(provider)).entries@, env@, 0) is None,
{
    let r = match provider {
        ProviderConfig::Local(c) => expand_env_hashmap(&mut c.env, env),
        ProviderConfig::Docker(c) => expand_env_hashmap(&mut c.env, env),
        ProviderConfig::Default(c) => expand_env_hashmap(&mut c.env, env),
        ProviderConfig::Modal(c) => expand_env_hashmap(&mut c.env, env),
    };
    proof {
        let a = provider_env(*old(provider)).entries@;
        let b = provider_env(*provider).entries@;
        if r is Ok {
            assert(a.len() == b.len());
            assert(expands_env(a, b, env@));
        }
    }
    r
}

/// What a configuration that was read is rejected for, once the defaults of
/// its checkpoint are filled in.
pub open spec fn finished_problem(config: Config) -> Option<Seq<char>> {
    config_problem(
        config.groups.entries@.len(),
        config.framework,
        match config.checkpoint {
            Some(c) => Some(
                views(with_dockerfile(c.build_inputs@, dockerfile_of(config.provider))),
            ),
            None => None,
        },
        config.provider is Local,
    )
}

/// Makes a configuration that was read ready for use: expands its provider's
/// environment, fills in the checkpoint's defaults, and validates the result.
pub fn finish_config(config: Config, env: &StrMap<String>) -> (r: Result<Config, String>)
    ensures
        match first_env_error(provider_env(config.provider).entries@, env@, 0) {
            Some(m) => r matches Err(e) && e@ == m,
            None => match finished_problem(config) {
                Some(m) => r matches Err(e) && e@ == m,
                None => r matches Ok(c) && {
                    &&& config_error(c) is None
                    &&& same_but_env(c.provider, config.provider)
                    &&& expands_env(
                        provider_env(config.provider).entries@,
                        provider_env(c.provider).entries@,
                        env@,
                    )
                    &&& match config.checkpoint {
                        Some(p) => c.checkpoint matches Some(q) && q.build_inputs@
                            == with_dockerfile(p.build_inputs@, dockerfile_of(config.provider)),
                        None => c.checkpoint is None,
                    }
                    &&& c.offload == config.offload
                    &&& c.framework == config.framework
                    &&& c.groups == config.groups
                    &&& c.report == config.report
                },
            },
        },
{
    let mut c = config;
    match expand_provider_env(&mut c.provider, env) {
        Ok(_) => {},
        Err(e) => {
            return Err(e);
        },
    }
    resolve_checkpoint_defaults(&mut c);
    match validate_config(&c) {
        Ok(_) => Ok(c),
        Err(e) => Err(e),
    }
}

/// A name that a variable reference can hold.
pub open spec fn is_variable_name(name: Seq<char>) -> bool {
    &&& name.len() > 0
    &&& !name.contains('}')
    &&& !occurs(name, ":-"@)
}

/// A reference to a variable gives way to the variable's value, and what is
/// around it expands as it would alone. Where the variable is not set, that is
/// said of it.
pub proof fn variable_is_replaced(
    head: Seq<char>,
    name: Seq<char>,
    rest: Seq<char>,
    env: Map<Seq<char>, String>,
)
    requires
        !head.contains('$'),
        is_variable_name(name),
    ensures
        expanded(head + "${"@ + name + "}"@ + rest, env) == (if env.contains_key(name) {
            prefixed(head + env[name]@, expanded(rest, env))
        } else {
            Err::<Seq<char>, Seq<char>>("Required environment variable not set: "@ + name)
        }),
{
    reveal_strlit(":-");
    occurs_iff_found(name, ":-"@);
    reference_stands(head, name, rest, env);
    if env.contains_key(name) {
        prefixed_twice(head, env[name]@, expanded(rest, env));
    }
}

/// A reference with a default gives way to the variable's value where the
/// variable is set, and to the default where it is not.
pub proof fn default_stands_in(
    head: Seq<char>,
    name: Seq<char>,
    default: Seq<char>,
    rest: Seq<char>,
    env: Map<Seq<char>, String>,
)
    requires
        !head.contains('$'),
        is_variable_name(name),
        !default.contains('}'),
    ensures
        expanded(head + "${"@ + (name + ":-"@ + default) + "}"@ + rest, env) == prefixed(
            head + (if env.contains_key(name) {
                env[name]@
            } else {
                default
            }),
            expanded(rest, env),
        ),
{
    reveal_strlit(":-");
    let content = name + ":-"@ + default;
    let n = name.len() as int;
    assert(!content.contains('}')) by {
        if content.contains('}') {
            let k = choose|k: int| 0 <= k < content.len() && content[k] == '}';
            if k < name.len() {
                assert(name[k] == '}');
            } else if k >= name.len() + 2 {
                assert(default[k - name.len() - 2] == '}');
            }
        }
    }
    assert(matches_at(content, ":-"@, name.len() as int)) by {
        assert(content.subrange(n, n + 2) =~= ":-"@);
    }
    assert forall|k: int| 0 <= k < name.len() implies !matches_at(content, ":-"@, k) by {
        if matches_at(content, ":-"@, k) {
            let m = content.subrange(k, k + 2);
            assert(m[0] == ':' && m[1] == '-');
            assert(content[k] == ':' && content[k + 1] == '-');
            if k + 2 <= name.len() {
                assert(name.subrange(k, k + 2) =~= ":-"@);
                assert(matches_at(name, ":-"@, k));
            }
        }
    }
    find_from_is_least(content, ":-"@, 0);
    assert(find_from(content, ":-"@, 0) == Some(name.len() as int));
    assert(content.subrange(0, name.len() as int) =~= name);
    assert(content.subrange(n + 2, content.len() as int) =~= default);
    reference_stands(head, content, rest, env);
    if env.contains_key(name) {
        prefixed_twice(head, env[name]@, expanded(rest, env));
    } else {
        prefixed_twice(head, default, expanded(rest, env));
    }
}

/// A reference that is not closed is an error that quotes what follows.
pub proof fn open_reference_fails(
    head: Seq<char>,
    rest: Seq<char>,
    env: Map<Seq<char>, String>,
)
    requires
        !head.contains('$'),
        !rest.contains('}'),
    ensures
        expanded(head + "${"@ + rest, env) == Err::<Seq<char>, Seq<char>>(
            "Unclosed variable reference: ${"@ + rest,
        ),
{
    reveal_strlit("${");
    let all = "${"@ + rest;
    assert(head + "${"@ + rest =~= head + all);
    plain_head_expands(head, all, env, 0);
    no_brace(all, 2);
    assert(all.subrange(2, all.len() as int) =~= rest);
}

/// A dollar sign that begins no reference stands for itself, and two of them
/// stand for one.
pub proof fn dollar_stands_for_itself(
    head: Seq<char>,
    rest: Seq<char>,
    env: Map<Seq<char>, String>,
)
    requires
        !head.contains('$'),
    ensures
        expanded(head + "$$"@ + rest, env) == prefixed(head + "$"@, expanded(rest, env)),
        rest.len() == 0 || (rest[0] != '$' && rest[0] != '{') ==> expanded(
            head + "$"@ + rest,
            env,
        ) == prefixed(head + "$"@, expanded(rest, env)),
{
    reveal_strlit("$$");
    reveal_strlit("$");
    assert("$"@ =~= seq!['$']);
    let two = "$$"@ + rest;
    assert(head + "$$"@ + rest =~= head + two);
    plain_head_expands(head, two, env, 0);
    expands_behind("$$"@, rest, env, 0);
    prefixed_twice(head, "$"@, expanded(rest, env));
    let one = "$"@ + rest;
    assert(head + "$"@ + rest =~= head + one);
    plain_head_expands(head, one, env, 0);
    expands_behind("$"@, rest, env, 0);
}

proof fn reference_stands(
    head: Seq<char>,
    content: Seq<char>,
    rest: Seq<char>,
    env: Map<Seq<char>, String>,
)
    requires
        !head.contains('$'),
        !content.contains('}'),
    ensures
        expanded(head + "${"@ + content + "}"@ + rest, env) == prefixed(
            head,
            match reference_value(content, env) {
                Ok(v) => prefixed(v, expanded(rest, env)),
                Err(e) => Err(e),
            },
        ),
{
    reveal_strlit("${");
    reveal_strlit("}");
    let front = "${"@ + content + "}"@;
    let all = front + rest;
    assert(head + "${"@ + content + "}"@ + rest =~= head + all);
    plain_head_expands(head, all, env, 0);
    let j = 2 + content.len() as int;
    assert forall|k: int| 2 <= k < j implies #[trigger] all[k] != '}' by {
        assert(all[k] == content[k - 2]);
        assert(content.contains(content[k - 2]));
    }
    assert(all[j] == '}');
    brace_is_first(all, 2, j);
    assert(all.subrange(2, j) =~= content);
    expands_behind(front, rest, env, 0);
    assert(front.len() == j + 1);
}

proof fn brace_is_first(s: Seq<char>, i: int, j: int)
    requires
        0 <= i <= j < s.len(),
        s[j] == '}',
        forall|k: int| i <= k < j ==> #[trigger] s[k] != '}',
    ensures
        brace_from(s, i) == j,
    decreases j - i,
{
    if i < j {
        brace_is_first(s, i + 1, j);
    }
}

proof fn no_brace(s: Seq<char>, i: int)
    requires
        0 <= i <= s.len(),
        !s.subrange(i, s.len() as int).contains('}'),
    ensures
        brace_from(s, i) == s.len(),
    decreases s.len() - i,
{
    if i < s.len() {
        let t = s.subrange(i, s.len() as int);
        assert(t[0] == s[i]);
        assert(t.contains(t[0]));
        let u = s.subrange(i + 1, s.len() as int);
        assert(!u.contains('}')) by {
            if u.contains('}') {
                let k = choose|k: int| 0 <= k < u.len() && u[k] == '}';
                assert(t[k + 1] == '}');
            }
        }
        no_brace(s, i + 1);
    }
}

proof fn plain_head_expands(head: Seq<char>, rest: Seq<char>, env: Map<Seq<char>, String>, i: int)
    requires
        !head.contains('$'),
        0 <= i <= head.len(),
    ensures
        expanded_from(head + rest, env, i) == prefixed(
            head.subrange(i, head.len() as int),
            expanded(rest, env),
        ),
        i == 0 ==> expanded(head + rest, env) == prefixed(head, expanded(rest, env)),
    decreases head.len() - i,
{
    let whole = expanded(rest, env);
    if i < head.len() {
        plain_head_expands(head, rest, env, i + 1);
        assert(head.contains(head[i]));
        assert((head + rest)[i] == head[i]);
        prefixed_twice(seq![head[i]], head.subrange(i + 1, head.len() as int), whole);
        assert(seq![head[i]] + head.subrange(i + 1, head.len() as int) =~= head.subrange(
            i,
            head.len() as int,
        ));
    } else {
        expands_behind(head, rest, env, 0);
        assert(head.subrange(i, head.len() as int) =~= Seq::<char>::empty());
        match whole {
            Ok(t) => {
                assert(Seq::<char>::empty() + t =~= t);
            },
            Err(_) => {},
        }
    }
    assert(head.subrange(0, head.len() as int) =~= head);
}

proof fn expands_behind(a: Seq<char>, b: Seq<char>, env: Map<Seq<char>, String>, i: int)
    requires
        0 <= i <= b.len(),
    ensures
        expanded_from(a + b, env, a.len() + i) == expanded_from(b, env, i),
    decreases b.len() - i,
{
    let s = a + b;
    if i < b.len() {
        assert(s[a.len() + i] == b[i]);
        if i + 1 < b.len() {
            assert(s[a.len() + i + 1] == b[i + 1]);
        }
        if b[i] != '$' {
            expands_behind(a, b, env, i + 1);
        } else if i + 1 < b.len() && b[i + 1] == '$' {
            expands_behind(a, b, env, i + 2);
        } else if i + 1 < b.len() && b[i + 1] == '{' {
            brace_behind(a, b, i + 2);
            let j = brace_from(b, i + 2);
            if i + 2 <= j < b.len() {
                assert(s.subrange(a.len() + i + 2, a.len() + j) =~= b.subrange(i + 2, j));
                expands_behind(a, b, env, j + 1);
            } else {
                assert(s.subrange(a.len() + i + 2, s.len() as int) =~= b.subrange(
                    i + 2,
                    b.len() as int,
                ));
            }
        } else {
            expands_behind(a, b, env, i + 1);
        }
    }
}

proof fn brace_behind(a: Seq<char>, b: Seq<char>, i: int)
    requires
        0 <= i <= b.len(),
    ensures
        brace_from(a + b, a.len() + i) == a.len() + brace_from(b, i),
        i <= brace_from(b, i) <= b.len(),
    decreases b.len() - i,
{
    if i < b.len() {
        assert((a + b)[a.len() + i] == b[i]);
        if b[i] != '}' {
            brace_behind(a, b, i + 1);
        }
    }
}

/// The build inputs of a checkpoint are accepted exactly where there are some,
/// the provider is remote and no two of them name the same file.
pub proof fn accepted_inputs_are_distinct(inputs: Seq<Seq<char>>, local: bool)
    ensures
        checkpoint_problem(inputs, local) is None <==> inputs.len() > 0 && !local && forall|
            i: int,
            j: int,
        |
            0 <= i < j < inputs.len() ==> normalized(#[trigger] inputs[i]) != normalized(
                #[trigger] inputs[j],
            ),
{
    first_repeat_is_first(inputs, 0);
}

proof fn first_repeat_is_first(inputs: Seq<Seq<char>>, from: int)
    requires
        0 <= from,
    ensures
        match first_repeat(inputs, from) {
            Some(i) => from <= i < inputs.len() && exists|j: int|
                0 <= j < i && normalized(#[trigger] inputs[j]) == normalized(inputs[i]),
            None => forall|j: int, i: int|
                0 <= j < i < inputs.len() && from <= i ==> normalized(#[trigger] inputs[j])
                    != normalized(#[trigger] inputs[i]),
        },
    decreases inputs.len() - from,
{
    if from < inputs.len() && !(exists|j: int|
        0 <= j < from && normalized(#[trigger] inputs[j]) == normalized(inputs[from])) {
        first_repeat_is_first(inputs, from + 1);
    }
}

/// A configuration is accepted exactly where it has a group, its framework
/// takes filters and its checkpoint, where there is one, is in order.
pub proof fn accepted_configuration(
    groups: nat,
    framework: FrameworkConfig,
    inputs: Option<Seq<Seq<char>>>,
    local: bool,
)
    ensures
        config_problem(groups, framework, inputs, local) is None <==> groups > 0 && (
        framework matches FrameworkConfig::Default(cfg) ==> occurs(
            cfg.discover_command@,
            "{filters}"@,
        )) && (inputs matches Some(c) ==> c.len() > 0 && !local && forall|i: int, j: int|
            0 <= i < j < c.len() ==> normalized(#[trigger] c[i]) != normalized(#[trigger] c[j])),
{
    match inputs {
        Some(c) => {
            accepted_inputs_are_distinct(c, local);
        },
        None => {},
    }
}

/// With its defaults filled in, a checkpoint has the provider's Dockerfile
/// among its build inputs, keeps those it had, in their order, and gets no
/// other.
pub proof fn dockerfile_is_an_input(inputs: Seq<String>, dockerfile: Option<String>)
    ensures
        dockerfile matches Some(path) ==> views(with_dockerfile(inputs, dockerfile)).contains(
            path@,
        ),
        inputs.len() <= with_dockerfile(inputs, dockerfile).len() <= inputs.len() + 1,
        with_dockerfile(inputs, dockerfile).subrange(
            with_dockerfile(inputs, dockerfile).len() - inputs.len(),
            with_dockerfile(inputs, dockerfile).len() as int,
        ) == inputs,
        dockerfile is None ==> with_dockerfile(inputs, dockerfile) == inputs,
        (dockerfile matches Some(path) && views(inputs).contains(path@)) ==> with_dockerfile(
            inputs,
            dockerfile,
        ) == inputs,
{
    let after = with_dockerfile(inputs, dockerfile);
    match dockerfile {
        Some(path) => {
            if !views(inputs).contains(path@) {
                assert(views(after)[0] == path@);
            }
        },
        None => {},
    }
    assert(after.subrange(after.len() - inputs.len(), after.len() as int) =~= inputs);
}

/// The error of an environment speaks of the first entry that fails.
pub proof fn first_failing_entry_is_named(
    entries: Seq<(String, String)>,
    env: Map<Seq<char>, String>,
    i: int,
    e: Seq<char>,
)
    requires
        0 <= i < entries.len(),
        expanded(entries[i].1@, env) == Err::<Seq<char>, Seq<char>>(e),
        forall|k: int| 0 <= k < i ==> expanded((#[trigger] entries[k]).1@, env) is Ok,
    ensures
        first_env_error(entries, env, 0) == Some(
            "Failed to expand env var '"@ + entries[i].0@ + "': "@ + e,
        ),
{
    env_error_reached(entries, env, i, 0);
}

proof fn env_error_reached(
    entries: Seq<(String, String)>,
    env: Map<Seq<char>, String>,
    i: int,
    from: int,
)
    requires
        0 <= from <= i < entries.len(),
        forall|k: int| 0 <= k < i ==> expanded((#[trigger] entries[k]).1@, env) is Ok,
    ensures
        first_env_error(entries, env, from) == first_env_error(entries, env, i),
    decreases i - from,
{
    if from < i {
        env_error_reached(entries, env, i, from + 1);
    }
}

/// Two providers that differ in their environments at most are the same where
/// these are.
pub proof fn only_environments_differ(a: ProviderConfig, b: ProviderConfig)
    requires
        same_but_env(a, b),
        provider_env(a) == provider_env(b),
    ensures
        a == b,
{
}

/// A finished configuration is judged by what it holds: by the build inputs
/// with the Dockerfile among them.
pub proof fn finished_configuration_is_judged(config: Config)
    ensures
        finished_problem(config) is None ==> config.groups.entries@.len() > 0 && (
        config.checkpoint matches Some(c) ==> !(config.provider is Local) && (
        config.provider matches ProviderConfig::Modal(m) ==> (m.dockerfile matches Some(d)
            ==> views(with_dockerfile(c.build_inputs@, m.dockerfile)).contains(d@)))),
{
    match config.checkpoint {
        Some(c) => {
            let inputs = with_dockerfile(c.build_inputs@, dockerfile_of(config.provider));
            accepted_configuration(
                config.groups.entries@.len(),
                config.framework,
                Some(views(inputs)),
                config.provider is Local,
            );
            dockerfile_is_an_input(c.build_inputs@, dockerfile_of(config.provider));
        },
        None => {},
    }
}

} // verus!
