//! What the commands print of tests and settings.

use vstd::prelude::*;

use crate::config::{Config, FrameworkConfig, GroupConfig, ProviderConfig};
use crate::framework::{record_views, RecordModel, TestRecord};
use crate::strmap::StrMap;
use crate::text;
use crate::text::{decimal, views};

verus! {

/// The name of a framework type.
pub open spec fn framework_name(framework: FrameworkConfig) -> Seq<char> {
    match framework {
        FrameworkConfig::Pytest(_) => "pytest"@,
        FrameworkConfig::Cargo(_) => "nextest"@,
        FrameworkConfig::Default(_) => "default"@,
        FrameworkConfig::Vitest(_) => "vitest"@,
    }
}

/// The name of a framework type.
pub fn framework_type_name(framework: &FrameworkConfig) -> (r: &'static str)
    ensures
        r@ == framework_name(*framework),
{
    match framework {
        FrameworkConfig::Pytest(_) => "pytest",
        FrameworkConfig::Cargo(_) => "nextest",
        FrameworkConfig::Default(_) => "default",
        FrameworkConfig::Vitest(_) => "vitest",
    }
}

/// The name of a provider type.
pub open spec fn provider_name(provider: ProviderConfig) -> Seq<char> {
    match provider {
        ProviderConfig::Local(_) => "local"@,
        ProviderConfig::Docker(_) => "docker"@,
        ProviderConfig::Default(_) => "default"@,
        ProviderConfig::Modal(_) => "modal"@,
    }
}

/// The name of a provider type.
pub fn provider_type_name(provider: &ProviderConfig) -> (r: &'static str)
    ensures
        r@ == provider_name(*provider),
{
    match provider {
        ProviderConfig::Local(_) => "local",
        ProviderConfig::Docker(_) => "docker",
        ProviderConfig::Default(_) => "default",
        ProviderConfig::Modal(_) => "modal",
    }
}

/// The name of a provider type as messages give it.
pub fn provider_label(provider: &ProviderConfig) -> (r: &'static str)
    ensures
        r@ == (match *provider {
            ProviderConfig::Local(_) => "Local"@,
            ProviderConfig::Docker(_) => "Docker"@,
            ProviderConfig::Default(_) => "Default"@,
            ProviderConfig::Modal(_) => "Modal"@,
        }),
{
    match provider {
        ProviderConfig::Local(_) => "Local",
        ProviderConfig::Docker(_) => "Docker",
        ProviderConfig::Default(_) => "Default",
        ProviderConfig::Modal(_) => "Modal",
    }
}

/// The warning for a run that is to stop early with a framework that cannot.
pub fn fail_fast_warning(framework: &FrameworkConfig, fail_fast: bool) -> (r: Option<String>)
    ensures
        if fail_fast && framework is Default {
            r matches Some(w) && w@
                == "--fail-fast: the default framework does not pass a stop flag to the test runner. Batches will still be cancelled on failure, but tests within a running batch will not stop early."@
        } else {
            r is None
        },
{
    match framework {
        FrameworkConfig::Default(_) => if fail_fast {
            Some(
                "--fail-fast: the default framework does not pass a stop flag to the test runner. Batches will still be cancelled on failure, but tests within a running batch will not stop early.".to_owned(),
            )
        } else {
            None
        },
        _ => None,
    }
}

/// A test with the settings of its group.
pub open spec fn tagged(test: RecordModel, group: GroupConfig) -> RecordModel {
    RecordModel {
        retry_count: group.retry_count,
        schedule_individual: group.schedule_individual,
        ..test
    }
}

/// Adds the tests of a group to all tests, with the settings of the group.
pub fn add_group(all: &mut Vec<TestRecord>, tests: Vec<TestRecord>, group: &GroupConfig)
    ensures
        record_views(final(all)@) == record_views(old(all)@) + Seq::new(
            tests@.len(),
            |i: int| tagged(tests@[i]@, *group),
        ),
{
    let ghost first = record_views(all@);
    let ghost given = tests@;
    let mut left = tests;
    let ghost mut count: int = 0;
    proof {
        assert(left@ =~= given.subrange(0, given.len() as int));
        assert(record_views(all@) =~= first + Seq::new(0nat, |i: int| tagged(given[i]@, *group)));
    }
    while left.len() > 0
        invariant
            0 <= count <= given.len(),
            left@ == given.subrange(count, given.len() as int),
            record_views(all@) == first + Seq::new(
                count as nat,
                |i: int| tagged(given[i]@, *group),
            ),
        decreases left@.len(),
    {
        let ghost before = all@;
        let test = left.remove(0);
        let test = test.with_retry_count(group.retry_count).with_schedule_individual(
            group.schedule_individual,
        );
        all.push(test);
        proof {
            assert(given[count] == given.subrange(count, given.len() as int)[0]);
            assert(record_views(all@) =~= record_views(before).push(test@));
            assert(left@ =~= given.subrange(count + 1, given.len() as int));
            assert(record_views(all@) =~= first + Seq::new(
                (count + 1) as nat,
                |i: int| tagged(given[i]@, *group),
            ));
            count = count + 1;
        }
    }
    proof {
        assert(count == given.len());
    }
}

/// The lines of the tests, among the first `n`, that belong to a group.
pub open spec fn group_lines(tests: Seq<RecordModel>, group: Seq<char>, n: int) -> Seq<Seq<char>>
    decreases n,
{
    if n <= 0 || n > tests.len() {
        Seq::empty()
    } else if tests[n - 1].group == group {
        group_lines(tests, group, n - 1).push("  "@ + tests[n - 1].id)
    } else {
        group_lines(tests, group, n - 1)
    }
}

/// The lines of a group: a blank one, its name and its tests. A group without
/// tests has none.
pub open spec fn group_block(tests: Seq<RecordModel>, group: Seq<char>) -> Seq<Seq<char>> {
    let lines = group_lines(tests, group, tests.len() as int);
    if lines.len() == 0 {
        Seq::empty()
    } else {
        seq!["\nGroup '"@ + group + "':"@] + lines
    }
}

/// The lines of the first `n` groups.
pub open spec fn group_blocks(
    tests: Seq<RecordModel>,
    groups: Seq<(String, GroupConfig)>,
    n: int,
) -> Seq<Seq<char>>
    decreases n,
{
    if n <= 0 || n > groups.len() {
        Seq::empty()
    } else {
        group_blocks(tests, groups, n - 1) + group_block(tests, groups[n - 1].0@)
    }
}

fn push_group(out: &mut Vec<String>, tests: &Vec<TestRecord>, group: &str)
    ensures
        views(final(out)@) == views(old(out)@) + group_block(record_views(tests@), group@),
{
    let ghost prior = views(out@);
    let ghost all = record_views(tests@);
    let mut lines: Vec<String> = Vec::new();
    let mut i: usize = 0;
    proof {
        assert(views(lines@) =~= group_lines(all, group@, 0));
    }
    while i < tests.len()
        invariant
            0 <= i <= tests@.len(),
            all == record_views(tests@),
            views(lines@) == group_lines(all, group@, i as int),
        decreases tests@.len() - i,
    {
        let ghost before = lines@;
        assert(all[i as int] == tests@[i as int]@);
        if text::same(tests[i].group.as_str(), group) {
            let mut s = "  ".to_owned();
            s.append(tests[i].id.as_str());
            lines.push(s);
            proof {
                assert(views(lines@) =~= views(before).push(s@));
            }
        }
        i = i + 1;
    }
    proof {
        assert(views(lines@).len() == lines@.len());
    }
    if lines.len() > 0 {
        let mut head = "\nGroup '".to_owned();
        head.append(group);
        head.append("':");
        out.push(head);
        proof {
            assert(views(out@) =~= prior.push(head@));
        }
        out.append(&mut lines);
    }
    proof {
        assert(views(out@) =~= prior + group_block(all, group@));
    }
}

/// The lines that list tests by group.
pub fn group_listing(tests: &Vec<TestRecord>, groups: &StrMap<GroupConfig>) -> (r: Vec<String>)
    ensures
        views(r@) == group_blocks(
            record_views(tests@),
            groups.entries@,
            groups.entries@.len() as int,
        ),
{
    let mut out: Vec<String> = Vec::new();
    let mut i: usize = 0;
    proof {
        assert(views(out@) =~= group_blocks(record_views(tests@), groups.entries@, 0));
    }
    while i < groups.entries.len()
        invariant
            0 <= i <= groups.entries@.len(),
            views(out@) == group_blocks(record_views(tests@), groups.entries@, i as int),
        decreases groups.entries@.len() - i,
    {
        push_group(&mut out, tests, groups.entries[i].0.as_str());
        i = i + 1;
    }
    out
}

/// How many tests and groups there are.
pub fn count_line(before: &str, tests: usize, groups: usize, after: &str) -> (r: String)
    ensures
        r@ == before@ + decimal(tests as int) + " tests across "@ + decimal(groups as int)
            + " groups"@ + after@,
{
    let t = text::decimal_u64(tests as u64);
    let g = text::decimal_u64(groups as u64);
    let mut s = before.to_owned();
    s.append(t.as_str());
    s.append(" tests across ");
    s.append(g.as_str());
    s.append(" groups");
    s.append(after);
    s
}

/// The lines that describe the groups.
pub open spec fn group_settings(groups: Seq<(String, GroupConfig)>, n: int) -> Seq<Seq<char>>
    decreases n,
{
    if n <= 0 || n > groups.len() {
        Seq::empty()
    } else {
        group_settings(groups, n - 1).push(
            "  "@ + groups[n - 1].0@ + ": retry_count = "@ + decimal(
                groups[n - 1].1.retry_count as int,
            ),
        )
    }
}

/// The lines that describe a valid configuration, up to its groups.
pub open spec fn summary_head(config: Config) -> Seq<Seq<char>> {
    seq![
        "Configuration is valid!"@,
        Seq::empty(),
        "Settings:"@,
        "  Max parallel: "@ + decimal(config.offload.max_parallel as int),
        "  Test timeout: "@ + decimal(config.offload.test_timeout_secs as int) + "s"@,
        "  Provider: "@ + provider_name(config.provider),
        "  Framework: "@ + framework_name(config.framework),
    ] + (match config.offload.sandbox_init_cmd {
        Some(cmd) => seq!["  Sandbox init cmd: "@ + cmd@],
        None => Seq::empty(),
    }) + seq![Seq::empty(), "Groups:"@]
}

/// The lines that describe a valid configuration.
pub open spec fn summary(config: Config) -> Seq<Seq<char>> {
    summary_head(config) + group_settings(
        config.groups.entries@,
        config.groups.entries@.len() as int,
    )
}

/// The lines that describe a valid configuration.
pub fn config_summary(config: &Config) -> (r: Vec<String>)
    ensures
        views(r@) == summary(*config),
{
    let mut out: Vec<String> = Vec::new();
    out.push("Configuration is valid!".to_owned());
    out.push(String::new());
    out.push("Settings:".to_owned());
    let parallel = text::decimal_u64(config.offload.max_parallel as u64);
    let mut s = "  Max parallel: ".to_owned();
    s.append(parallel.as_str());
    out.push(s);
    let timeout = text::decimal_u64(config.offload.test_timeout_secs);
    let mut s = "  Test timeout: ".to_owned();
    s.append(timeout.as_str());
    s.append("s");
    out.push(s);
    let mut s = "  Provider: ".to_owned();
    s.append(provider_type_name(&config.provider));
    out.push(s);
    let mut s = "  Framework: ".to_owned();
    s.append(framework_type_name(&config.framework));
    out.push(s);
    match &config.offload.sandbox_init_cmd {
        Some(cmd) => {
            let mut s = "  Sandbox init cmd: ".to_owned();
            s.append(cmd.as_str());
            out.push(s);
        },
        None => {},
    }
    out.push(String::new());
    out.push("Groups:".to_owned());
    let ghost head = summary_head(*config);
    let groups = &config.groups.entries;
    let mut i: usize = 0;
    proof {
        assert(out@[1]@ =~= Seq::<char>::empty());
        assert(out@[out@.len() - 2]@ =~= Seq::<char>::empty());
        assert(views(out@) =~= head + group_settings(groups@, 0));
    }
    while i < groups.len()
        invariant
            0 <= i <= groups@.len(),
            views(out@) == head + group_settings(groups@, i as int),
        decreases groups@.len() - i,
    {
        let ghost before = out@;
        let count = text::decimal_u64(groups[i].1.retry_count as u64);
        let mut s = "  ".to_owned();
        s.append(groups[i].0.as_str());
        s.append(": retry_count = ");
        s.append(count.as_str());
        out.push(s);
        proof {
            assert(views(out@) =~= views(before).push(s@));
            assert(views(out@) =~= head + group_settings(groups@, i + 1));
        }
        i = i + 1;
    }
    out
}

/// A test gets the retries and the scheduling of its group, and else stays as
/// it is.
pub proof fn tests_take_group_settings(test: RecordModel, group: GroupConfig)
    ensures
        tagged(test, group).retry_count == group.retry_count,
        tagged(test, group).schedule_individual == group.schedule_individual,
        tagged(test, group).id == test.id,
        tagged(test, group).name == test.name,
        tagged(test, group).file == test.file,
        tagged(test, group).group == test.group,
        tagged(test, group).affinity_key == test.affinity_key,
{
}

/// Every test is listed under its group, and under no other; a group without
/// tests is not listed.
pub proof fn tests_are_listed_by_group(tests: Seq<RecordModel>, group: Seq<char>, n: int)
    requires
        0 <= n <= tests.len(),
    ensures
        group_lines(tests, group, n) == tests.take(n).filter(
            |t: RecordModel| t.group == group,
        ).map_values(|t: RecordModel| "  "@ + t.id),
        group_block(tests, group).len() == 0 <==> forall|i: int|
            0 <= i < tests.len() ==> (#[trigger] tests[i]).group != group,
        group_block(tests, group).len() > 0 ==> group_block(tests, group)[0] == "\nGroup '"@ + group
            + "':"@ && group_block(tests, group).skip(1) == group_lines(
            tests,
            group,
            tests.len() as int,
        ),
    decreases n,
{
    listed_up_to(tests, group, n);
    no_lines_without_tests(tests, group, tests.len() as int);
    let block = group_block(tests, group);
    if block.len() > 0 {
        assert(block.skip(1) =~= group_lines(tests, group, tests.len() as int));
    }
}

proof fn listed_up_to(tests: Seq<RecordModel>, group: Seq<char>, n: int)
    requires
        0 <= n <= tests.len(),
    ensures
        group_lines(tests, group, n) == tests.take(n).filter(
            |t: RecordModel| t.group == group,
        ).map_values(|t: RecordModel| "  "@ + t.id),
    decreases n,
{
    reveal(Seq::filter);
    let of_group = |t: RecordModel| t.group == group;
    let line = |t: RecordModel| "  "@ + t.id;
    if n > 0 {
        listed_up_to(tests, group, n - 1);
        assert(tests.take(n).drop_last() =~= tests.take(n - 1));
        assert(tests.take(n).last() == tests[n - 1]);
    }
    assert(tests.take(n).filter(of_group).map_values(line) =~= group_lines(tests, group, n));
}

proof fn no_lines_without_tests(tests: Seq<RecordModel>, group: Seq<char>, n: int)
    requires
        0 <= n <= tests.len(),
    ensures
        group_lines(tests, group, n).len() == 0 <==> forall|i: int|
            0 <= i < n ==> (#[trigger] tests[i]).group != group,
    decreases n,
{
    if n > 0 {
        no_lines_without_tests(tests, group, n - 1);
    }
}

/// The summary of a configuration gives every group its line, in order, with
/// its retries.
pub proof fn groups_are_summarized(groups: Seq<(String, GroupConfig)>, n: int, i: int)
    requires
        0 <= i < n <= groups.len(),
    ensures
        group_settings(groups, n).len() == n,
        group_settings(groups, n)[i] == "  "@ + groups[i].0@ + ": retry_count = "@ + decimal(
            groups[i].1.retry_count as int,
        ),
    decreases n,
{
    if i < n - 1 {
        groups_are_summarized(groups, n - 1, i);
    } else if n > 1 {
        groups_are_summarized(groups, n - 1, 0);
    } else {
        assert(group_settings(groups, 0).len() == 0);
    }
}

} // verus!
