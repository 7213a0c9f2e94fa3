//! The run command: its arguments and the image caching pipeline.

use vstd::prelude::*;

use crate::config::{
    provider_env, same_but_env, Config, OffloadConfig, ProviderConfig, SandboxConfig,
};
use crate::discovery::clone_option;
use crate::order::pair_views;
use crate::strmap::{leading, leading_is_view, StrMap};
use crate::text;
use crate::text::{find_from, find_from_is_least, matches_at, value_views, views};

pub mod caching;
pub mod init;
pub mod listing;
pub mod logs;
pub mod notices;
pub mod state;
pub mod status;
pub mod thin_diff;

verus! {

/// A directory copy directive: local path to sandbox path.
#[derive(Debug)]
pub struct CopyDir {
    pub local: String,
    pub remote: String,
}

/// What is said of a copy directive without a colon.
pub open spec fn copy_dir_error(arg: Seq<char>) -> Seq<char> {
    "Invalid copy-dir format: '"@ + arg + "'. Expected format: /local/path:/sandbox/path"@
}

/// A copy directive stands for the two sides of its first colon.
pub open spec fn is_copy_dir(arg: Seq<char>, dir: CopyDir) -> bool {
    match find_from(arg, ":"@, 0) {
        Some(j) => dir.local@ == arg.subrange(0, j) && dir.remote@ == arg.subrange(
            j + 1,
            arg.len() as int,
        ),
        None => false,
    }
}

/// Reads copy directives of the form `LOCAL:REMOTE`. The first one without a
/// colon makes the error.
pub fn parse_copy_dirs(args: &Vec<String>) -> (r: Result<Vec<CopyDir>, String>)
    ensures
        match r {
            Ok(dirs) => dirs@.len() == args@.len() && forall|i: int|
                0 <= i < args@.len() ==> is_copy_dir((#[trigger] args@[i])@, dirs@[i]),
            Err(e) => exists|i: int|
                {
                    &&& 0 <= i < args@.len()
                    &&& find_from((#[trigger] args@[i])@, ":"@, 0) is None
                    &&& e@ == copy_dir_error(args@[i]@)
                    &&& forall|j: int|
                        0 <= j < i ==> find_from((#[trigger] args@[j])@, ":"@, 0) is Some
                },
        },
{
    let mut dirs: Vec<CopyDir> = Vec::new();
    let mut i: usize = 0;
    while i < args.len()
        invariant
            0 <= i <= args@.len(),
            dirs@.len() == i,
            forall|j: int| 0 <= j < i ==> is_copy_dir((#[trigger] args@[j])@, dirs@[j]),
        decreases args@.len() - i,
    {
        proof {
            reveal_strlit(":");
        }
        match text::split_once(args[i].as_str(), ":") {
            Some((local, remote)) => {
                dirs.push(CopyDir { local, remote });
            },
            None => {
                let mut e = "Invalid copy-dir format: '".to_owned();
                e.append(args[i].as_str());
                e.append("'. Expected format: /local/path:/sandbox/path");
                proof {
                    assert(e@ == copy_dir_error(args@[i as int]@));
                    assert forall|j: int| 0 <= j < i implies find_from(
                        (#[trigger] args@[j])@,
                        ":"@,
                        0,
                    ) is Some by {
                        assert(is_copy_dir(args@[j]@, dirs@[j]));
                    }
                }
                return Err(e);
            },
        }
        i = i + 1;
    }
    Ok(dirs)
}

/// Whether an argument has the form `KEY=VALUE` with a key.
pub open spec fn is_assignment(arg: Seq<char>) -> bool {
    find_from(arg, "="@, 0) matches Some(j) && j > 0
}

/// The environment that a list of arguments sets: those of the form
/// `KEY=VALUE` count, and of two with one key the later.
pub open spec fn environment_of(args: Seq<Seq<char>>) -> Map<Seq<char>, Seq<char>>
    decreases args.len(),
{
    if args.len() == 0 {
        Map::empty()
    } else {
        let earlier = environment_of(args.drop_last());
        let arg = args.last();
        match find_from(arg, "="@, 0) {
            Some(j) => if j > 0 {
                earlier.insert(arg.subrange(0, j), arg.subrange(j + 1, arg.len() as int))
            } else {
                earlier
            },
            None => earlier,
        }
    }
}

/// The arguments that do not have the form `KEY=VALUE`.
pub open spec fn non_assignments(args: Seq<Seq<char>>) -> Seq<Seq<char>>
    decreases args.len(),
{
    if args.len() == 0 {
        Seq::empty()
    } else if is_assignment(args.last()) {
        non_assignments(args.drop_last())
    } else {
        non_assignments(args.drop_last()).push(args.last())
    }
}

/// Reads environment arguments. Returned beside the environment are the
/// arguments that were ignored.
pub fn parse_env_vars(args: &Vec<String>) -> (r: (StrMap<String>, Vec<String>))
    ensures
        value_views(r.0@) == environment_of(views(args@)),
        r.0.well_formed(),
        views(r.1@) == non_assignments(views(args@)),
{
    let mut env: StrMap<String> = StrMap::new();
    let mut ignored: Vec<String> = Vec::new();
    let mut i: usize = 0;
    proof {
        assert(views(args@).take(0) =~= Seq::<Seq<char>>::empty());
        assert(value_views(env@) =~= Map::<Seq<char>, Seq<char>>::empty());
    }
    while i < args.len()
        invariant
            0 <= i <= args@.len(),
            value_views(env@) == environment_of(views(args@).take(i as int)),
            env.well_formed(),
            views(ignored@) == non_assignments(views(args@).take(i as int)),
        decreases args@.len() - i,
    {
        let ghost t = views(args@).take(i + 1);
        let ghost env_before = env@;
        let ghost ignored_before = ignored@;
        proof {
            reveal_strlit("=");
            assert(t.drop_last() =~= views(args@).take(i as int));
            assert(t.last() == args@[i as int]@);
        }
        match text::split_once(args[i].as_str(), "=") {
            Some((key, value)) => {
                if key.as_str().is_empty() {
                    let kept = args[i].clone();
                    ignored.push(kept);
                    proof {
                        assert(key@.len() == 0);
                        assert(views(ignored@) =~= views(ignored_before).push(args@[i as int]@));
                    }
                } else {
                    env.insert(key, value);
                    proof {
                        assert(value_views(env@) =~= value_views(env_before).insert(key@, value@));
                    }
                }
            },
            None => {
                let kept = args[i].clone();
                ignored.push(kept);
                proof {
                    assert(views(ignored@) =~= views(ignored_before).push(args@[i as int]@));
                }
            },
        }
        i = i + 1;
    }
    proof {
        assert(views(args@).take(args@.len() as int) =~= views(args@));
    }
    (env, ignored)
}

/// Adds the entries of `extra`, which win over those that are there.
pub fn extend_env(env: &mut StrMap<String>, extra: &StrMap<String>)
    requires
        extra.well_formed(),
    ensures
        final(env)@ == old(env)@.union_prefer_right(extra@),
        old(env).well_formed() ==> final(env).well_formed(),
{
    let mut i: usize = 0;
    proof {
        assert(env@ =~= old(env)@.union_prefer_right(leading(extra.entries@, 0)));
    }
    while i < extra.entries.len()
        invariant
            0 <= i <= extra.entries@.len(),
            extra.well_formed(),
            env@ == old(env)@.union_prefer_right(leading(extra.entries@, i as int)),
            old(env).well_formed() ==> env.well_formed(),
        decreases extra.entries@.len() - i,
    {
        let key = extra.entries[i].0.clone();
        let value = extra.entries[i].1.clone();
        env.insert(key, value);
        i = i + 1;
        proof {
            assert(env@ =~= old(env)@.union_prefer_right(leading(extra.entries@, i as int)));
        }
    }
    proof {
        leading_is_view(*extra);
    }
}

/// What the sandboxes of a run are created with: the provider's environment
/// with the project's root added, and the directories to copy.
pub fn sandbox_config(
    id: &str,
    offload: &OffloadConfig,
    base_env: Vec<(String, String)>,
    copy_dirs: &Vec<CopyDir>,
) -> (r: SandboxConfig)
    ensures
        r.id@ == id@,
        r.working_dir == offload.working_dir,
        pair_views(r.env@) == pair_views(base_env@).push(
            ("OFFLOAD_ROOT"@, offload.sandbox_project_root@),
        ),
        r.copy_dirs@.len() == copy_dirs@.len(),
        forall|i: int|
            0 <= i < copy_dirs@.len() ==> (#[trigger] r.copy_dirs@[i]) == (
                copy_dirs@[i].local,
                copy_dirs@[i].remote,
            ),
{
    let ghost first = pair_views(base_env@);
    let mut env = base_env;
    env.push(("OFFLOAD_ROOT".to_owned(), offload.sandbox_project_root.clone()));
    proof {
        assert(pair_views(env@) =~= first.push(
            ("OFFLOAD_ROOT"@, offload.sandbox_project_root@),
        ));
    }
    let mut dirs: Vec<(String, String)> = Vec::new();
    let mut i: usize = 0;
    while i < copy_dirs.len()
        invariant
            0 <= i <= copy_dirs@.len(),
            dirs@.len() == i,
            forall|k: int|
                0 <= k < i ==> (#[trigger] dirs@[k]) == (copy_dirs@[k].local, copy_dirs@[k].remote),
        decreases copy_dirs@.len() - i,
    {
        dirs.push((copy_dirs[i].local.clone(), copy_dirs[i].remote.clone()));
        i = i + 1;
    }
    SandboxConfig {
        id: id.to_owned(),
        working_dir: clone_option(&offload.working_dir),
        env,
        copy_dirs: dirs,
    }
}

/// The options of a run.
#[derive(Debug)]
pub struct RunOptions {
    /// Overrides the maximum number of parallel sandboxes.
    pub parallel: Option<usize>,
    /// Only discover tests.
    pub collect_only: bool,
    /// Directories to copy, as `LOCAL:REMOTE`.
    pub copy_dirs: Vec<String>,
    /// Environment variables, as `KEY=VALUE`.
    pub env_vars: Vec<String>,
    /// Build without looking for cached images.
    pub no_cache: bool,
}

/// How a run goes on.
#[derive(Debug, Clone, Copy, PartialEq, Eq, Structural)]
pub enum RunKind {
    /// Tests are listed, nothing runs.
    Collect,
    /// Tests run in local processes, without an image.
    Local,
    /// Tests run on a prepared image; where asked for, the cache state is
    /// resolved first.
    Prepared { resolve_cache: bool },
}

/// How a run goes on.
pub open spec fn kind_of(collect_only: bool, no_cache: bool, provider: ProviderConfig) -> RunKind {
    if collect_only {
        RunKind::Collect
    } else if provider is Local {
        RunKind::Local
    } else {
        RunKind::Prepared { resolve_cache: !no_cache }
    }
}

/// Adds variables to the environment of a provider; they win over those that
/// are there.
pub fn extend_provider_env(provider: &mut ProviderConfig, extra: &StrMap<String>)
    requires
        extra.well_formed(),
    ensures
        same_but_env(*final(provider), *old(provider)),
        provider_env(*final(provider))@ == provider_env(*old(provider))@.union_prefer_right(
            extra@,
        ),
        provider_env(*old(provider)).well_formed() ==> provider_env(
            *final(provider),
        ).well_formed(),
{
    match provider {
        ProviderConfig::Local(c) => {
            extend_env(&mut c.env, extra);
        },
        ProviderConfig::Docker(c) => {
            extend_env(&mut c.env, extra);
        },
        ProviderConfig::Default(c) => {
            extend_env(&mut c.env, extra);
        },
        ProviderConfig::Modal(c) => {
            extend_env(&mut c.env, extra);
        },
    }
}

/// A run that is ready to go.
#[derive(Debug)]
pub struct RunSetup {
    /// The configuration with the overrides of the options.
    pub config: Config,
    /// The directories to copy.
    pub copy_dirs: Vec<CopyDir>,
    /// The environment arguments that were ignored.
    pub ignored: Vec<String>,
    /// How the run goes on.
    pub kind: RunKind,
}

/// A run is set up as its configuration and options say.
pub open spec fn is_setup(config: Config, options: RunOptions, s: RunSetup) -> bool {
    let env = environment_of(views(options.env_vars@));
    &&& s.config.offload == (OffloadConfig {
        max_parallel: match options.parallel {
            Some(n) => n,
            None => config.offload.max_parallel,
        },
        ..config.offload
    })
    &&& same_but_env(s.config.provider, config.provider)
    &&& value_views(provider_env(s.config.provider)@) == value_views(
        provider_env(config.provider)@,
    ).union_prefer_right(env)
    &&& provider_env(config.provider).well_formed() ==> provider_env(
        s.config.provider,
    ).well_formed()
    &&& s.config.framework == config.framework
    &&& s.config.groups == config.groups
    &&& s.config.report == config.report
    &&& s.config.checkpoint == config.checkpoint
    &&& s.copy_dirs@.len() == options.copy_dirs@.len()
    &&& forall|i: int|
        0 <= i < options.copy_dirs@.len() ==> is_copy_dir(
            (#[trigger] options.copy_dirs@[i])@,
            s.copy_dirs@[i],
        )
    &&& views(s.ignored@) == non_assignments(views(options.env_vars@))
    &&& s.kind == kind_of(options.collect_only, options.no_cache, config.provider)
}

/// Sets up a run: applies the overrides of the options to the configuration,
/// reads the directories to copy, and decides how the run goes on. A copy
/// directive without a colon is an error.
pub fn setup_run(config: Config, options: &RunOptions) -> (r: Result<RunSetup, String>)
    ensures
        match r {
            Ok(s) => is_setup(config, *options, s),
            Err(e) => exists|i: int|
                {
                    &&& 0 <= i < options.copy_dirs@.len()
                    &&& find_from((#[trigger] options.copy_dirs@[i])@, ":"@, 0) is None
                    &&& e@ == copy_dir_error(options.copy_dirs@[i]@)
                    &&& forall|j: int|
                        0 <= j < i ==> find_from((#[trigger] options.copy_dirs@[j])@, ":"@, 0) is Some
                },
        },
{
    let mut config = config;
    match options.parallel {
        Some(n) => {
            config.offload.max_parallel = n;
        },
        None => {},
    }
    let copy_dirs = match parse_copy_dirs(&options.copy_dirs) {
        Ok(dirs) => dirs,
        Err(e) => {
            return Err(e);
        },
    };
    let (env, ignored) = parse_env_vars(&options.env_vars);
    let ghost before = provider_env(config.provider)@;
    extend_provider_env(&mut config.provider, &env);
    proof {
        let now = provider_env(config.provider)@;
        assert(value_views(now) =~= value_views(before).union_prefer_right(value_views(env@)));
    }
    let kind = if options.collect_only {
        RunKind::Collect
    } else {
        match &config.provider {
            ProviderConfig::Local(_) => RunKind::Local,
            _ => RunKind::Prepared { resolve_cache: !options.no_cache },
        }
    };
    Ok(RunSetup { config, copy_dirs, ignored, kind })
}

/// An argument of the form `KEY=VALUE`: the key is not empty and holds no
/// equals sign.
pub open spec fn assigns(arg: Seq<char>, key: Seq<char>, value: Seq<char>) -> bool {
    arg == key + "="@ + value && key.len() > 0 && !key.contains('=')
}

/// An argument is read as an assignment exactly where it has that form.
pub proof fn assignment_has_its_form(arg: Seq<char>)
    ensures
        is_assignment(arg) <==> exists|key: Seq<char>, value: Seq<char>| assigns(arg, key, value),
        forall|key: Seq<char>, value: Seq<char>| #[trigger]
            assigns(arg, key, value) ==> find_from(arg, "="@, 0) == Some(key.len() as int)
                && arg.subrange(0, key.len() as int) == key && arg.subrange(
                1 + key.len() as int,
                arg.len() as int,
            ) == value,
{
    reveal_strlit("=");
    let sep = "="@;
    find_from_is_least(arg, sep, 0);
    assert forall|key: Seq<char>, value: Seq<char>| #[trigger] assigns(arg, key, value) implies
        find_from(arg, sep, 0) == Some(key.len() as int) && arg.subrange(0, key.len() as int) == key
        && arg.subrange(1 + key.len() as int, arg.len() as int) == value by {
        let n = key.len() as int;
        assert(arg.subrange(n, n + 1) =~= sep);
        assert(matches_at(arg, sep, n));
        let j = find_from(arg, sep, 0)->Some_0;
        if j < n {
            assert(arg.subrange(j, j + 1)[0] == arg[j]);
            assert(key[j] == '=');
        }
        assert(arg.subrange(0, n) =~= key);
        assert(arg.subrange(1 + n, arg.len() as int) =~= value);
    }
    if is_assignment(arg) {
        let j = find_from(arg, sep, 0)->Some_0;
        let key = arg.subrange(0, j);
        let value = arg.subrange(j + 1, arg.len() as int);
        assert(arg.subrange(j, j + 1) == sep);
        assert(arg.subrange(j, j + 1)[0] == arg[j]);
        assert(arg =~= key + sep + value);
        if key.contains('=') {
            let k = choose|k: int| 0 <= k < key.len() && key[k] == '=';
            assert(arg.subrange(k, k + 1) =~= sep);
            assert(matches_at(arg, sep, k));
        }
        assert(assigns(arg, key, value));
    }
}

/// A variable has the value that the last assignment to it gives, and a
/// variable without an assignment is not set.
pub proof fn last_assignment_counts(args: Seq<Seq<char>>, key: Seq<char>)
    ensures
        environment_of(args).contains_key(key) ==> exists|i: int|
            0 <= i < args.len() && assigns(#[trigger] args[i], key, environment_of(args)[key])
                && forall|j: int, v: Seq<char>|
                i < j < args.len() ==> !#[trigger] assigns(args[j], key, v),
        !environment_of(args).contains_key(key) ==> forall|j: int, v: Seq<char>|
            0 <= j < args.len() ==> !#[trigger] assigns(args[j], key, v),
    decreases args.len(),
{
    if args.len() > 0 {
        let rest = args.drop_last();
        let last = args.last();
        let n = args.len() - 1;
        last_assignment_counts(rest, key);
        assignment_has_its_form(last);
        assert(args[n] == last);
        if is_assignment(last) {
            let (k, v) = choose|k: Seq<char>, v: Seq<char>| assigns(last, k, v);
            assert(assigns(last, k, v));
            assert(environment_of(args) == environment_of(rest).insert(k, v));
            if k == key {
                assert(assigns(args[n], key, v));
            }
            assert forall|w: Seq<char>| k != key implies !#[trigger] assigns(args[n], key, w) by {
                if assigns(last, key, w) {
                    assert(find_from(last, "="@, 0) == Some(key.len() as int));
                }
            }
        } else {
            assert(environment_of(args) == environment_of(rest));
        }
        if !(exists|w: Seq<char>| assigns(args[n], key, w)) {
            assert(environment_of(args).contains_key(key) == environment_of(rest).contains_key(key));
            if environment_of(rest).contains_key(key) {
                let i = choose|i: int|
                    0 <= i < rest.len() && assigns(
                        #[trigger] rest[i],
                        key,
                        environment_of(rest)[key],
                    ) && forall|j: int, v: Seq<char>|
                        i < j < rest.len() ==> !#[trigger] assigns(rest[j], key, v);
                assert(assigns(args[i], key, environment_of(args)[key]));
                assert forall|j: int, v: Seq<char>| i < j < args.len() implies !#[trigger] assigns(
                    args[j],
                    key,
                    v,
                ) by {
                    if j < n {
                        assert(rest[j] == args[j]);
                    }
                }
            } else {
                assert forall|j: int, v: Seq<char>| 0 <= j < args.len() implies !#[trigger] assigns(
                    args[j],
                    key,
                    v,
                ) by {
                    if j < n {
                        assert(rest[j] == args[j]);
                    }
                }
            }
        }
    }
}

/// The arguments that are ignored are exactly those that assign nothing.
pub proof fn ignored_arguments_assign_nothing(args: Seq<Seq<char>>, arg: Seq<char>)
    ensures
        non_assignments(args).contains(arg) <==> args.contains(arg) && !(exists|
            key: Seq<char>,
            value: Seq<char>,
        | assigns(arg, key, value)),
    decreases args.len(),
{
    assignment_has_its_form(arg);
    if args.len() > 0 {
        let rest = args.drop_last();
        ignored_arguments_assign_nothing(rest, arg);
        let (before, after) = (non_assignments(rest), non_assignments(args));
        assert(args[args.len() - 1] == args.last());
        if rest.contains(arg) {
            let k = choose|k: int| 0 <= k < rest.len() && rest[k] == arg;
            assert(args[k] == arg);
        }
        if before.contains(arg) {
            let k = choose|k: int| 0 <= k < before.len() && before[k] == arg;
            assert(after[k] == arg);
        }
        if args.contains(arg) && arg != args.last() {
            let k = choose|k: int| 0 <= k < args.len() && args[k] == arg;
            assert(rest[k] == arg);
        }
        if after.contains(arg) {
            let k = choose|k: int| 0 <= k < after.len() && after[k] == arg;
            if k < before.len() {
                assert(before[k] == arg);
            }
        }
        if arg == args.last() && !is_assignment(arg) {
            assert(after[after.len() - 1] == arg);
        }
    }
}

/// A copy directive names the local path, then the path in the sandbox, with
/// the first colon between them.
pub proof fn copy_directive_has_two_sides(dir: CopyDir, arg: Seq<char>)
    ensures
        is_copy_dir(arg, dir) <==> arg == dir.local@ + ":"@ + dir.remote@ && !dir.local@.contains(
            ':',
        ),
{
    reveal_strlit(":");
    let sep = ":"@;
    find_from_is_least(arg, sep, 0);
    let n = dir.local@.len() as int;
    if arg == dir.local@ + sep + dir.remote@ && !dir.local@.contains(':') {
        assert(arg.subrange(n, n + 1) =~= sep);
        assert(matches_at(arg, sep, n));
        let j = find_from(arg, sep, 0)->Some_0;
        if j < n {
            assert(arg.subrange(j, j + 1)[0] == arg[j]);
            assert(dir.local@[j] == ':');
        }
        assert(j == n);
        assert(arg.subrange(0, n) =~= dir.local@);
        assert(arg.subrange(n + 1, arg.len() as int) =~= dir.remote@);
    }
    if is_copy_dir(arg, dir) {
        let j = find_from(arg, sep, 0)->Some_0;
        assert(arg.subrange(j, j + 1) == sep);
        assert(arg.subrange(j, j + 1)[0] == arg[j]);
        assert(n == j);
        assert(arg =~= arg.subrange(0, j) + sep + arg.subrange(j + 1, arg.len() as int));
        if dir.local@.contains(':') {
            let k = choose|k: int| 0 <= k < n && dir.local@[k] == ':';
            assert(arg.subrange(k, k + 1) =~= sep);
            assert(matches_at(arg, sep, k));
        }
    }
}

/// A run that only collects tests prepares nothing; else only a local run
/// goes without an image, and the cache is looked up unless it is switched
/// off.
pub proof fn run_goes_by_options(collect_only: bool, no_cache: bool, provider: ProviderConfig)
    ensures
        kind_of(collect_only, no_cache, provider) is Collect <==> collect_only,
        kind_of(collect_only, no_cache, provider) is Local <==> !collect_only && provider is Local,
        kind_of(collect_only, no_cache, provider) matches RunKind::Prepared { resolve_cache }
            ==> resolve_cache == !no_cache,
{
}

/// The options of a run win over its configuration: the number of parallel
/// sandboxes where it is given, and every variable that is assigned. All else
/// is as it is configured.
pub proof fn options_override_configuration(
    config: Config,
    options: RunOptions,
    s: RunSetup,
    key: Seq<char>,
)
    requires
        is_setup(config, options, s),
    ensures
        options.parallel matches Some(n) ==> s.config.offload.max_parallel == n,
        options.parallel is None ==> s.config.offload == config.offload,
        s.config.offload.test_timeout_secs == config.offload.test_timeout_secs,
        s.config.framework == config.framework,
        s.config.groups == config.groups,
        ({
            let args = views(options.env_vars@);
            let before = value_views(provider_env(config.provider)@);
            let after = value_views(provider_env(s.config.provider)@);
            &&& (exists|i: int, v: Seq<char>|
                0 <= i < args.len() && #[trigger] assigns(args[i], key, v)) ==> after.contains_key(
                key,
            ) && exists|i: int|
                0 <= i < args.len() && assigns(#[trigger] args[i], key, after[key]) && forall|
                    j: int,
                    v: Seq<char>,
                | i < j < args.len() ==> !#[trigger] assigns(args[j], key, v)
            &&& !(exists|i: int, v: Seq<char>|
                0 <= i < args.len() && #[trigger] assigns(args[i], key, v)) ==> (
            after.contains_key(key) <==> before.contains_key(key)) && (before.contains_key(key)
                ==> after[key] == before[key])
        }),
        options.collect_only <==> s.kind is Collect,
{
    let args = views(options.env_vars@);
    last_assignment_counts(args, key);
    let env = environment_of(args);
    if env.contains_key(key) {
        let i = choose|i: int|
            0 <= i < args.len() && assigns(#[trigger] args[i], key, env[key]) && forall|
                j: int,
                v: Seq<char>,
            | i < j < args.len() ==> !#[trigger] assigns(args[j], key, v);
        assert(assigns(args[i], key, env[key]));
    }
}

} // verus!
