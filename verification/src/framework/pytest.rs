//! The pytest framework: `pytest --collect-only` for discovery, JUnit output
//! for results.

use vstd::prelude::*;

use crate::config::{GroupConfig, PytestFrameworkConfig};
use crate::discovery::clone_strings;
use crate::framework::env::{
    attach_execution_env, discovery_env, resolve_root_placeholder, rooted, rooted_pairs,
    search_path,
};
use crate::framework::pytest_filter::{
    common, component_views, emit_hoisted_args, emitted, hoist_common_components, Component,
    FilterComponent, FilterKind,
};
use crate::framework::pytest_single_pass::{
    effective_components, effective_from, effective_value_is_last, group_spec_from_components,
    last_value, last_wins, route_group, specifies, GroupSpec, Routing,
};
use crate::framework::{
    bare_record, instance_ids, record_views, FrameworkError, FrameworkResult, TestFramework,
    TestInstance, TestRecord,
};
use crate::order::{pair_views, sorts_pairs};
use crate::provider::Command;
use crate::report::{apply_ids, resolved_up_to, TestcaseXml};
use crate::shell;
use crate::shell::shell_words_of;
use crate::strmap::StrMap;
use crate::text;
use crate::text::{
    first_line_ends, has_prefix, is_line, is_space, joined, lines_of, listed_lines_return, listing,
    occurs, trimmed, views,
};

verus! {

/// Test framework for Python pytest projects.
#[derive(Debug)]
pub struct PytestFramework {
    /// The configuration.
    pub config: PytestFrameworkConfig,
    /// The program to invoke (first token of the command).
    pub program: String,
    /// The arguments behind it in the command.
    pub prefix_args: Vec<String>,
}

/// What is said of a command that cannot be split into words.
pub open spec fn unparsed_command(command: Seq<char>) -> Seq<char> {
    "Failed to parse command '"@ + command + "': missing closing quote"@
}

/// What is said of a command without words.
pub open spec fn empty_command(command: Seq<char>) -> Seq<char> {
    "Command '"@ + command + "' produced no tokens after parsing"@
}

/// Splits a command into its program and the arguments behind it.
pub fn split_command(command: &str) -> (r: FrameworkResult<(String, Vec<String>)>)
    ensures
        match shell_words_of(command@) {
            None => r matches Err(FrameworkError::DiscoveryFailed(e)) && e@ == unparsed_command(
                command@,
            ),
            Some(words) => if words.len() == 0 {
                r matches Err(FrameworkError::DiscoveryFailed(e)) && e@ == empty_command(command@)
            } else {
                r matches Ok(p) && seq![p.0@] + views(p.1@) == words
            },
        },
{
    match shell::split(command) {
        Ok(mut parts) => {
            if parts.len() == 0 {
                let mut e = "Command '".to_owned();
                e.append(command);
                e.append("' produced no tokens after parsing");
                return Err(FrameworkError::DiscoveryFailed(e));
            }
            let ghost all = views(parts@);
            let program = parts.remove(0);
            proof {
                assert(seq![program@] + views(parts@) =~= all);
            }
            Ok((program, parts))
        },
        Err(m) => {
            let mut e = "Failed to parse command '".to_owned();
            e.append(command);
            e.append("': ");
            e.append(m.as_str());
            proof {
                reveal_strlit("': missing closing quote");
                reveal_strlit("': ");
                reveal_strlit("missing closing quote");
                assert("': missing closing quote"@ =~= "': "@ + "missing closing quote"@);
                assert(e@ =~= unparsed_command(command@));
            }
            Err(FrameworkError::DiscoveryFailed(e))
        },
    }
}

/// What is said of an argument string that cannot be split into words.
pub open spec fn unparsed_args(what: Seq<char>, args: Seq<char>) -> Seq<char> {
    "Invalid "@ + what + " '"@ + args + "': missing closing quote"@
}

/// Splits an argument string into words.
pub fn split_args(what: &str, args: &str) -> (r: FrameworkResult<Vec<String>>)
    ensures
        match shell_words_of(args@) {
            None => r matches Err(FrameworkError::DiscoveryFailed(e)) && e@ == unparsed_args(
                what@,
                args@,
            ),
            Some(words) => r matches Ok(v) && views(v@) == words,
        },
{
    match shell::split(args) {
        Ok(words) => Ok(words),
        Err(m) => {
            let mut e = "Invalid ".to_owned();
            e.append(what);
            e.append(" '");
            e.append(args);
            e.append("': ");
            e.append(m.as_str());
            proof {
                reveal_strlit("': missing closing quote");
                reveal_strlit("': ");
                reveal_strlit("missing closing quote");
                assert("': missing closing quote"@ =~= "': "@ + "missing closing quote"@);
                assert(e@ =~= unparsed_args(what@, args@));
            }
            Err(FrameworkError::DiscoveryFailed(e))
        },
    }
}

/// The words of an optional argument string; none where it is not given, and
/// none where it cannot be split.
pub open spec fn optional_words(args: Option<String>) -> Seq<Seq<char>> {
    match args {
        Some(a) => match shell_words_of(a@) {
            Some(words) => words,
            None => Seq::empty(),
        },
        None => Seq::empty(),
    }
}

/// The words of an optional argument string; none where it is not given, and
/// none where it cannot be split.
pub fn split_optional(args: &Option<String>) -> (r: Vec<String>)
    ensures
        views(r@) == optional_words(*args),
{
    let none: Vec<String> = Vec::new();
    assert(views(none@) =~= Seq::<Seq<char>>::empty());
    match args {
        Some(a) => match shell::split(a.as_str()) {
            Ok(words) => words,
            Err(_) => none,
        },
        None => none,
    }
}

/// A line of collection output that names a test.
pub open spec fn names_test(line: Seq<char>) -> bool {
    let t = trimmed(line);
    occurs(t, "::"@) && !(t.len() > 0 && t[0] == '<') && !occurs(t, " "@)
}

/// The tests that lines of collection output name.
pub open spec fn collected(lines: Seq<Seq<char>>) -> Seq<Seq<char>>
    decreases lines.len(),
{
    if lines.len() == 0 {
        Seq::empty()
    } else if names_test(lines.last()) {
        collected(lines.drop_last()).push(trimmed(lines.last()))
    } else {
        collected(lines.drop_last())
    }
}

/// An id as pytest prints it: parts with `::` between them, no tag, and no
/// white space.
pub open spec fn is_node_id(id: Seq<char>) -> bool {
    &&& occurs(id, "::"@)
    &&& id[0] != '<'
    &&& forall|i: int| 0 <= i < id.len() ==> !is_space(#[trigger] id[i])
}

/// A line that names no test: it has no `::`, is a tag, or has several words.
pub open spec fn is_prose(line: Seq<char>) -> bool {
    ||| !occurs(line, "::"@)
    ||| line[0] == '<' && line.len() > 0
    ||| exists|i: int, j: int, k: int|
        0 <= i < j < k < line.len() && !is_space(#[trigger] line[i]) && #[trigger] line[j] == ' '
            && !is_space(#[trigger] line[k])
}

proof fn collected_splits(a: Seq<Seq<char>>, b: Seq<Seq<char>>)
    ensures
        collected(a + b) == collected(a) + collected(b),
    decreases b.len(),
{
    if b.len() == 0 {
        assert(a + b =~= a);
        assert(collected(a) + collected(b) =~= collected(a));
    } else {
        collected_splits(a, b.drop_last());
        assert((a + b).drop_last() =~= a + b.drop_last());
        assert((a + b).last() == b.last());
        if names_test(b.last()) {
            assert((collected(a) + collected(b.drop_last())).push(trimmed(b.last()))
                =~= collected(a) + collected(b.drop_last()).push(trimmed(b.last())));
        }
    }
}

proof fn ids_are_collected(ids: Seq<Seq<char>>)
    requires
        forall|k: int| 0 <= k < ids.len() ==> is_node_id(#[trigger] ids[k]),
    ensures
        collected(ids) == ids,
    decreases ids.len(),
{
    if ids.len() > 0 {
        let d = ids.drop_last();
        let x = ids.last();
        ids_are_collected(d);
        assert(is_node_id(ids[ids.len() - 1]));
        reveal_strlit("::");
        reveal_strlit(" ");
        let c = choose|c: int| text::matches_at(x, "::"@, c);
        assert(x.len() > 0);
        text::trimmed_unchanged(x);
        if occurs(x, " "@) {
            let i = choose|i: int| text::matches_at(x, " "@, i);
            assert(x.subrange(i, i + 1)[0] == x[i]);
            assert(is_space(x[i]));
        }
        assert(d.push(x) =~= ids);
    } else {
        assert(collected(ids) =~= ids);
    }
}

/// The ids that pytest prints, each on a line of its own, are collected, all of
/// them and in order, in front of those of what follows.
pub proof fn printed_ids_are_collected(ids: Seq<Seq<char>>, rest: Seq<char>)
    requires
        forall|k: int| 0 <= k < ids.len() ==> is_node_id(#[trigger] ids[k]),
    ensures
        collected(lines_of(listing(ids) + rest)) == ids + collected(lines_of(rest)),
        collected(lines_of(listing(ids))) == ids,
{
    assert forall|k: int| 0 <= k < ids.len() implies is_line(#[trigger] ids[k]) by {
        let x = ids[k];
        assert(is_node_id(x));
        assert forall|i: int| 0 <= i < x.len() implies x[i] != '\n' by {
            assert(!is_space(x[i]));
        }
        if x.len() > 0 {
            assert(!is_space(x[x.len() - 1]));
        }
    }
    ids_are_collected(ids);
    listed_lines_return(ids, rest);
    collected_splits(ids, lines_of(rest));
    let none = Seq::<char>::empty();
    listed_lines_return(ids, none);
    assert(listing(ids) + none =~= listing(ids));
    assert(ids + lines_of(none) =~= ids);
}

/// A line of other text adds no test.
pub proof fn prose_is_not_collected(line: Seq<char>, rest: Seq<char>)
    requires
        is_line(line),
        is_prose(line),
    ensures
        collected(lines_of(line + seq!['\n'] + rest)) == collected(lines_of(rest)),
{
    first_line_ends(line, rest);
    collected_splits(seq![line], lines_of(rest));
    let (a, b) = text::trimmed_is_middle(line);
    let t = trimmed(line);
    reveal_strlit(" ");
    if names_test(line) {
        text::occurs_in_whole(line, a, b, "::"@);
        if line.len() > 0 && line[0] == '<' {
            assert(a == 0);
            assert(t[0] == line[0]);
        } else {
            let (i, j, k) = choose|i: int, j: int, k: int|
                0 <= i < j < k < line.len() && !is_space(#[trigger] line[i]) && #[trigger] line[j]
                    == ' ' && !is_space(#[trigger] line[k]);
            assert(a <= i && k < b);
            assert(t[j - a] == ' ');
            assert(t.subrange(j - a, j - a + 1) =~= " "@);
            assert(text::matches_at(t, " "@, j - a));
        }
    }
    assert(seq![line].drop_last() =~= Seq::<Seq<char>>::empty());
    assert(seq![line].last() == line);
    assert(!names_test(line));
    assert(collected(Seq::<Seq<char>>::empty()) =~= Seq::<Seq<char>>::empty());
    assert(collected(seq![line]) =~= Seq::<Seq<char>>::empty());
    assert(Seq::<Seq<char>>::empty() + collected(lines_of(rest)) =~= collected(lines_of(rest)));
}

/// The tests that collection output names, one to a line.
pub fn collected_ids(output: &str) -> (r: Vec<String>)
    ensures
        views(r@) == collected(lines_of(output@)),
        forall|ids: Seq<Seq<char>>|
            output@ == #[trigger] listing(ids) && (forall|k: int|
                0 <= k < ids.len() ==> is_node_id(#[trigger] ids[k])) ==> views(r@) == ids,
{
    proof {
        assert forall|ids: Seq<Seq<char>>|
            output@ == #[trigger] listing(ids) && (forall|k: int|
                0 <= k < ids.len() ==> is_node_id(#[trigger] ids[k])) implies collected(
            lines_of(output@),
        ) == ids by {
            printed_ids_are_collected(ids, Seq::empty());
        }
    }
    let all = text::lines(output);
    let ghost lines = lines_of(output@);
    let mut out: Vec<String> = Vec::new();
    let mut i: usize = 0;
    proof {
        assert(lines.take(0) =~= Seq::<Seq<char>>::empty());
        assert(views(out@) =~= Seq::<Seq<char>>::empty());
    }
    while i < all.len()
        invariant
            0 <= i <= all@.len(),
            lines == lines_of(output@),
            views(all@) == lines,
            views(out@) == collected(lines.take(i as int)),
        decreases all@.len() - i,
    {
        let ghost t = lines.take(i + 1);
        let ghost before = out@;
        proof {
            assert(t.drop_last() =~= lines.take(i as int));
            assert(t.last() == views(all@)[i as int]);
        }
        let line = text::trim(all[i].as_str());
        let c = text::chars_of(line.as_str());
        let tagged = c.len() > 0 && c[0] == '<';
        if text::contains(line.as_str(), "::") && !tagged && !text::contains(line.as_str(), " ") {
            out.push(line);
            proof {
                assert(views(out@) =~= views(before).push(line@));
            }
        }
        i = i + 1;
    }
    proof {
        assert(lines.take(all@.len() as int) =~= lines);
    }
    out
}

/// The records of a list of ids in a group.
pub fn records_of(ids: &Vec<String>, group: &str) -> (r: Vec<TestRecord>)
    ensures
        record_views(r@) == Seq::new(
            ids@.len(),
            |i: int| bare_record(views(ids@)[i], group@),
        ),
{
    let mut out: Vec<TestRecord> = Vec::new();
    let mut i: usize = 0;
    while i < ids.len()
        invariant
            0 <= i <= ids@.len(),
            out@.len() == i,
            forall|k: int| 0 <= k < i ==> (#[trigger] out@[k])@ == bare_record(ids@[k]@, group@),
        decreases ids@.len() - i,
    {
        out.push(TestRecord::new(ids[i].as_str(), group));
        i = i + 1;
    }
    proof {
        assert(record_views(out@) =~= Seq::new(
            ids@.len(),
            |i: int| bare_record(views(ids@)[i], group@),
        ));
    }
    out
}

/// The groups of a run, parted by how they are discovered.
#[derive(Debug)]
pub struct DiscoveryPlan {
    /// The groups of the single pass, with their components.
    pub pool: Vec<(String, Vec<FilterComponent>)>,
    /// The groups that are discovered one by one.
    pub legacy: Vec<String>,
}

/// A group joins the single pass where its filter parses to known components.
pub open spec fn pooled(filters: Seq<char>, components: Seq<Component>) -> bool {
    crate::framework::pytest_filter::all_known(components) && (if trimmed(filters).len() == 0 {
        components.len() == 0
    } else {
        shell_words_of(filters) matches Some(tokens)
            && crate::framework::pytest_filter::components_from(tokens, 0) == Ok::<
            Seq<Component>,
            int,
        >(components)
    })
}

/// Some components make a group join the single pass.
pub open spec fn joins_pool(filters: Seq<char>) -> bool {
    exists|components: Seq<Component>| pooled(filters, components)
}

/// The positions below `n` of the groups that join the single pass, or of the
/// others.
pub open spec fn routed(groups: Seq<(String, GroupConfig)>, pool: bool, n: int) -> Seq<int>
    decreases n,
{
    if n <= 0 || n > groups.len() {
        Seq::empty()
    } else if joins_pool(groups[n - 1].1.filters@) == pool {
        routed(groups, pool, n - 1).push(n - 1)
    } else {
        routed(groups, pool, n - 1)
    }
}

/// Parts the groups: those whose filters the single pass can model form its
/// pool, the others are discovered one by one.
pub fn plan_discovery(groups: &StrMap<GroupConfig>) -> (r: DiscoveryPlan)
    ensures
        ({
            let entries = groups.entries@;
            let in_pool = routed(entries, true, entries.len() as int);
            let others = routed(entries, false, entries.len() as int);
            &&& r.pool@.len() == in_pool.len()
            &&& r.legacy@.len() == others.len()
            &&& forall|k: int|
                0 <= k < r.pool@.len() ==> (#[trigger] r.pool@[k]).0 == entries[in_pool[k]].0
                    && pooled(
                    entries[in_pool[k]].1.filters@,
                    component_views(r.pool@[k].1@),
                )
            &&& forall|k: int|
                0 <= k < r.legacy@.len() ==> (#[trigger] r.legacy@[k]) == entries[others[k]].0
        }),
{
    let mut pool: Vec<(String, Vec<FilterComponent>)> = Vec::new();
    let mut legacy: Vec<String> = Vec::new();
    let ghost entries = groups.entries@;
    let mut i: usize = 0;
    while i < groups.entries.len()
        invariant
            0 <= i <= groups.entries@.len(),
            entries == groups.entries@,
            pool@.len() == routed(entries, true, i as int).len(),
            legacy@.len() == routed(entries, false, i as int).len(),
            forall|k: int|
                0 <= k < pool@.len() ==> (#[trigger] pool@[k]).0 == entries[routed(
                    entries,
                    true,
                    i as int,
                )[k]].0 && pooled(
                    entries[routed(entries, true, i as int)[k]].1.filters@,
                    component_views(pool@[k].1@),
                ),
            forall|k: int|
                0 <= k < legacy@.len() ==> (#[trigger] legacy@[k]) == entries[routed(
                    entries,
                    false,
                    i as int,
                )[k]].0,
        decreases groups.entries@.len() - i,
    {
        let filters = groups.entries[i].1.filters.as_str();
        let name = groups.entries[i].0.clone();
        match route_group(filters) {
            Ok(Routing::Pool(components)) => {
                assert(pooled(filters@, component_views(components@)));
                pool.push((name, components));
            },
            Ok(Routing::Fallback) => {
                proof {
                    assert(!joins_pool(filters@)) by {
                        if joins_pool(filters@) {
                            let c = choose|c: Seq<Component>| pooled(filters@, c);
                            if trimmed(filters@).len() == 0 {
                                assert(c =~= Seq::<Component>::empty());
                            }
                        }
                    }
                }
                legacy.push(name);
            },
            Err(_) => {
                proof {
                    assert(!joins_pool(filters@));
                }
                legacy.push(name);
            },
        }
        i = i + 1;
    }
    DiscoveryPlan { pool, legacy }
}

/// The names of the groups of a pool.
pub open spec fn pool_names(pool: Seq<(String, Vec<FilterComponent>)>) -> Seq<Seq<char>> {
    Seq::new(pool.len(), |i: int| pool[i].0@)
}

/// The groups that are discovered one by one: those that do not join the
/// single pass, and behind them the whole pool where the pass failed.
pub fn groups_alone(plan: &DiscoveryPlan, pool_collected: bool) -> (r: Vec<String>)
    ensures
        views(r@) == (if pool_collected {
            views(plan.legacy@)
        } else {
            views(plan.legacy@) + pool_names(plan.pool@)
        }),
{
    let mut out: Vec<String> = Vec::new();
    let mut i: usize = 0;
    while i < plan.legacy.len()
        invariant
            0 <= i <= plan.legacy@.len(),
            views(out@) == views(plan.legacy@).take(i as int),
        decreases plan.legacy@.len() - i,
    {
        let ghost before = views(out@);
        out.push(plan.legacy[i].clone());
        i = i + 1;
        proof {
            assert(views(out@) =~= before.push(plan.legacy@[i - 1]@));
            assert(views(out@) =~= views(plan.legacy@).take(i as int));
        }
    }
    assert(views(out@) =~= views(plan.legacy@));
    if pool_collected {
        return out;
    }
    let mut k: usize = 0;
    assert(views(out@) =~= views(plan.legacy@) + pool_names(plan.pool@).take(0));
    while k < plan.pool.len()
        invariant
            0 <= k <= plan.pool@.len(),
            views(out@) == views(plan.legacy@) + pool_names(plan.pool@).take(k as int),
        decreases plan.pool@.len() - k,
    {
        let ghost before = views(out@);
        out.push(plan.pool[k].0.clone());
        k = k + 1;
        proof {
            assert(views(out@) =~= before.push(plan.pool@[k - 1].0@));
            assert(views(out@) =~= views(plan.legacy@) + pool_names(plan.pool@).take(k as int));
        }
    }
    assert(pool_names(plan.pool@).take(k as int) =~= pool_names(plan.pool@));
    out
}

/// A plan has each group once: in the pool of the single pass, or among those
/// that are discovered one by one.
pub proof fn every_group_is_planned(groups: Seq<(String, GroupConfig)>, i: int)
    requires
        0 <= i < groups.len(),
    ensures
        ({
            let in_pool = routed(groups, true, groups.len() as int);
            let others = routed(groups, false, groups.len() as int);
            &&& in_pool.contains(i) != others.contains(i)
            &&& in_pool.len() + others.len() == groups.len()
        }),
{
    routed_below(groups, groups.len() as int, i);
}

proof fn routed_below(groups: Seq<(String, GroupConfig)>, n: int, i: int)
    requires
        0 <= n <= groups.len(),
    ensures
        ({
            let a = routed(groups, true, n);
            let b = routed(groups, false, n);
            &&& a.len() + b.len() == n
            &&& 0 <= i < n ==> a.contains(i) != b.contains(i)
            &&& !(0 <= i < n) ==> !a.contains(i) && !b.contains(i)
        }),
    decreases n,
{
    if n > 0 {
        routed_below(groups, n - 1, i);
        let joins = joins_pool(groups[n - 1].1.filters@);
        let was = routed(groups, joins, n - 1);
        let now = routed(groups, joins, n);
        assert(now == was.push(n - 1));
        assert(now.last() == n - 1);
        if was.contains(i) {
            let k = was.index_of(i);
            assert(now[k] == i);
        }
        if now.contains(i) && i != n - 1 {
            let k = now.index_of(i);
            assert(was[k] == i);
        }
    }
}

/// The filters of a pool, hoisted from all its groups.
pub open spec fn hoisted_filters(pool: Seq<(String, Vec<FilterComponent>)>) -> Seq<
    Seq<Component>,
> {
    Seq::new(pool.len(), |i: int| effective_from(component_views(pool[i].1@), 0))
}

/// Prepares the single pass over a pool: the arguments that all groups share,
/// and each group's specification.
pub fn plan_pool(pool: &Vec<(String, Vec<FilterComponent>)>) -> (r: (
    Vec<String>,
    Vec<(String, GroupSpec)>,
))
    ensures
        r.1@.len() == pool@.len(),
        forall|k: int|
            0 <= k < pool@.len() ==> (#[trigger] r.1@[k]).0 == pool@[k].0 && specifies(
                r.1@[k].1,
                component_views(pool@[k].1@),
            ),
        exists|groups: Seq<Vec<FilterComponent>>|
            {
                &&& groups.len() == pool@.len()
                &&& forall|k: int|
                    0 <= k < groups.len() ==> component_views((#[trigger] groups[k])@)
                        == hoisted_filters(pool@)[k]
                &&& views(r.0@) == emitted(#[trigger] hoisted_of(groups))
            },
{
    let mut effective: Vec<Vec<FilterComponent>> = Vec::new();
    let mut specs: Vec<(String, GroupSpec)> = Vec::new();
    let mut i: usize = 0;
    while i < pool.len()
        invariant
            0 <= i <= pool@.len(),
            effective@.len() == i,
            specs@.len() == i,
            forall|k: int|
                0 <= k < i ==> component_views((#[trigger] effective@[k])@) == hoisted_filters(
                    pool@,
                )[k],
            forall|k: int|
                0 <= k < i ==> (#[trigger] specs@[k]).0 == pool@[k].0 && specifies(
                    specs@[k].1,
                    component_views(pool@[k].1@),
                ),
        decreases pool@.len() - i,
    {
        effective.push(effective_components(&pool[i].1));
        specs.push(
            (pool[i].0.clone(), group_spec_from_components(pool[i].1.as_slice())),
        );
        i = i + 1;
    }
    let hoisted = match hoist_common_components(effective.as_slice()) {
        Some(h) => h,
        None => {
            let none: Vec<FilterComponent> = Vec::new();
            assert(component_views(none@) =~= Seq::<Component>::empty());
            none
        },
    };
    let args = emit_hoisted_args(hoisted.as_slice());
    proof {
        assert(component_views(hoisted@) == hoisted_of(effective@));
    }
    (args, specs)
}

/// What is hoisted from groups: the components common to all, or nothing where
/// a group has an unrecognized token.
pub open spec fn hoisted_of(groups: Seq<Vec<FilterComponent>>) -> Seq<Component> {
    if groups.len() == 0 || exists|g: int|
        0 <= g < groups.len() && !crate::framework::pytest_filter::all_known(
            component_views((#[trigger] groups[g])@),
        ) {
        Seq::empty()
    } else {
        common(groups, groups[0]@.len() as int)
    }
}

/// What is said where a search path entry holds the separator.
pub open spec fn separator_error() -> Seq<char> {
    "failed to build PYTHONPATH: path segment contains separator `:`"@
}

/// Builds a module search path with the scripts' directory first, followed by
/// `base` where it is given. The directory may not hold the separator.
pub fn build_pythonpath(scripts_dir: &str, base: Option<&str>) -> (r: FrameworkResult<String>)
    ensures
        if occurs(scripts_dir@, ":"@) {
            r matches Err(FrameworkError::DiscoveryFailed(e)) && e@ == separator_error()
        } else {
            r matches Ok(p) && p@ == (match base {
                Some(b) => scripts_dir@ + ":"@ + b@,
                None => scripts_dir@,
            })
        },
{
    if text::contains(scripts_dir, ":") {
        return Err(
            FrameworkError::DiscoveryFailed(
                "failed to build PYTHONPATH: path segment contains separator `:`".to_owned(),
            ),
        );
    }
    let mut p = scripts_dir.to_owned();
    match base {
        Some(b) => {
            p.append(":");
            p.append(b);
        },
        None => {},
    }
    Ok(p)
}

/// The surroundings of a local discovery command.
#[derive(Debug)]
pub struct LocalContext {
    /// The working directory.
    pub cwd: String,
    /// The search path.
    pub path: String,
    /// The module search path, where it is set.
    pub pythonpath: Option<String>,
}

impl PytestFramework {
    /// The command as it was split.
    pub open spec fn command_words(self) -> Seq<Seq<char>> {
        seq![self.program@] + views(self.prefix_args@)
    }

    /// Creates a new pytest framework from its configuration's command.
    pub fn new(config: PytestFrameworkConfig) -> (r: FrameworkResult<Self>)
        ensures
            match shell_words_of(config.command@) {
                None => r matches Err(FrameworkError::DiscoveryFailed(e)) && e@
                    == unparsed_command(config.command@),
                Some(words) => if words.len() == 0 {
                    r matches Err(FrameworkError::DiscoveryFailed(e)) && e@ == empty_command(
                        config.command@,
                    )
                } else {
                    r matches Ok(f) && f.config == config && f.command_words() == words
                },
            },
    {
        match split_command(config.command.as_str()) {
            Ok((program, prefix_args)) => Ok(PytestFramework { config, program, prefix_args }),
            Err(e) => Err(e),
        }
    }

    /// The words of the configured discovery arguments.
    pub fn discovery_args_tokens(&self) -> (r: FrameworkResult<Vec<String>>)
        ensures
            match self.config.discovery_args {
                Some(args) => match shell_words_of(args@) {
                    None => r matches Err(FrameworkError::DiscoveryFailed(e)) && e@
                        == unparsed_args("discovery_args"@, args@),
                    Some(words) => r matches Ok(v) && views(v@) == words,
                },
                None => r matches Ok(v) && v@.len() == 0,
            },
    {
        match &self.config.discovery_args {
            Some(args) => split_args("discovery_args", args.as_str()),
            None => Ok(Vec::new()),
        }
    }

    /// The tail of a discovery command: discovery arguments, then the group's
    /// filters, then search paths.
    pub fn discovery_extra_args(&self, search_paths: &Vec<String>, filters: &str) -> (r:
        FrameworkResult<Vec<String>>)
        ensures
            match self.config.discovery_args {
                Some(args) => shell_words_of(args@) is None ==> (r matches Err(
                    FrameworkError::DiscoveryFailed(e),
                ) && e@ == unparsed_args("discovery_args"@, args@)),
                None => true,
            },
            (self.config.discovery_args matches Some(args) ==> shell_words_of(args@) is Some)
                ==> if filters@.len() > 0 && shell_words_of(filters@) is None {
                r matches Err(FrameworkError::DiscoveryFailed(e)) && e@ == unparsed_args(
                    "filter string"@,
                    filters@,
                )
            } else {
                r matches Ok(v) && views(v@) == optional_words(self.config.discovery_args) + (
                if filters@.len() == 0 {
                    Seq::empty()
                } else {
                    shell_words_of(filters@)->Some_0
                }) + views(search_paths@)
            },
    {
        let mut args = match self.discovery_args_tokens() {
            Ok(a) => a,
            Err(e) => {
                return Err(e);
            },
        };
        let ghost first = views(args@);
        proof {
            assert(first =~= optional_words(self.config.discovery_args));
        }
        let ghost mut middle: Seq<Seq<char>> = Seq::empty();
        if !filters.is_empty() {
            match split_args("filter string", filters) {
                Ok(mut tokens) => {
                    proof {
                        middle = views(tokens@);
                    }
                    let ghost a = args@;
                    let ghost b = tokens@;
                    args.append(&mut tokens);
                    proof {
                        assert(views(args@) =~= first + middle);
                    }
                },
                Err(e) => {
                    return Err(e);
                },
            }
        }
        proof {
            assert(views(args@) =~= first + middle);
        }
        let mut paths = clone_strings(search_paths);
        args.append(&mut paths);
        proof {
            assert(views(args@) =~= first + middle + views(search_paths@));
        }
        Ok(args)
    }

    /// Parses collection output into records: one for each line that names a
    /// test.
    pub fn parse_collect_output(&self, output: &str, group: &str) -> (r: Vec<TestRecord>)
        ensures
            record_views(r@) == Seq::new(
                collected(lines_of(output@)).len(),
                |i: int| bare_record(collected(lines_of(output@))[i], group@),
            ),
    {
        let ids = collected_ids(output);
        let r = records_of(&ids, group);
        proof {
            assert(views(ids@).len() == ids@.len());
        }
        r
    }

    /// The search paths of a discovery: those given, else those configured.
    pub fn discovery_search_paths(&self, paths: &Vec<String>) -> (r: Vec<String>)
        ensures
            r@ == (if paths@.len() > 0 {
                paths@
            } else {
                match self.config.paths {
                    Some(p) => p@,
                    None => Seq::empty(),
                }
            }),
    {
        if paths.len() > 0 {
            clone_strings(paths)
        } else {
            match &self.config.paths {
                Some(p) => clone_strings(p),
                None => Vec::new(),
            }
        }
    }

    /// The collection command that all discovery shares.
    pub fn collect_only_command(&self) -> (r: Command)
        ensures
            r.words() == self.command_words() + seq!["--collect-only"@, "-q"@],
            pair_views(r.env@) == seq![("PYTHONDONTWRITEBYTECODE"@, "1"@)],
            r.prepend_path@.len() == 0,
            r.working_dir is None,
            r.timeout_secs is None,
    {
        let mut cmd = Command::new(self.program.as_str()).args(&self.prefix_args).arg(
            "--collect-only",
        ).arg("-q");
        cmd.env.push(("PYTHONDONTWRITEBYTECODE".to_owned(), "1".to_owned()));
        proof {
            assert(cmd.words() =~= self.command_words() + seq!["--collect-only"@, "-q"@]);
            assert(pair_views(cmd.env@) =~= seq![("PYTHONDONTWRITEBYTECODE"@, "1"@)]);
        }
        cmd
    }

    /// Adds the configured environment to a local discovery command.
    pub fn apply_discovery_env(&self, cmd: &mut Command, context: &LocalContext)
        ensures
            final(cmd).program == old(cmd).program,
            final(cmd).args == old(cmd).args,
            final(cmd).prepend_path == old(cmd).prepend_path,
            final(cmd).working_dir == old(cmd).working_dir,
            final(cmd).timeout_secs == old(cmd).timeout_secs,
            exists|added: Seq<(Seq<char>, Seq<char>)>|
                {
                    &&& pair_views(final(cmd).env@) == pair_views(old(cmd).env@) + added
                    &&& #[trigger] overrides(
                        self.config,
                        context.cwd@,
                        context.path@,
                        added,
                    )
                },
    {
        let dirs: Option<&Vec<String>> = match &self.config.prepend_path {
            Some(d) => Some(d),
            None => None,
        };
        let mut entries = discovery_env(
            &self.config.env,
            dirs,
            context.cwd.as_str(),
            context.path.as_str(),
        );
        let ghost added = pair_views(entries@);
        let ghost before = cmd.env@;
        cmd.env.append(&mut entries);
        proof {
            assert(pair_views(cmd.env@) =~= pair_views(before) + added);
            assert(overrides(self.config, context.cwd@, context.path@, added));
        }
    }

    /// The command of the single pass over a pool.
    pub fn build_pool_command(
        &self,
        scripts_dir: &str,
        cfg_path: &str,
        hoisted_args: &Vec<String>,
        search_paths: &Vec<String>,
        context: &LocalContext,
    ) -> (r: FrameworkResult<Command>)
        ensures
            match self.config.discovery_args {
                Some(args) => shell_words_of(args@) is None ==> (r matches Err(
                    FrameworkError::DiscoveryFailed(e),
                ) && e@ == unparsed_args("discovery_args"@, args@)),
                None => true,
            },
            (self.config.discovery_args matches Some(args) ==> shell_words_of(args@) is Some)
                ==> if occurs(scripts_dir@, ":"@) {
                r matches Err(FrameworkError::DiscoveryFailed(e)) && e@ == separator_error()
            } else {
                r matches Ok(cmd) && cmd.words() == self.command_words() + seq![
                    "--collect-only"@,
                    "-q"@,
                ] + optional_words(self.config.discovery_args) + views(hoisted_args@) + views(
                    search_paths@,
                ) + seq!["-p"@, "offload_partition"@] && exists|
                    added: Seq<(Seq<char>, Seq<char>)>,
                |
                    {
                        &&& #[trigger] overrides(self.config, context.cwd@, context.path@, added)
                        &&& pair_views(cmd.env@) == seq![
                            ("PYTHONDONTWRITEBYTECODE"@, "1"@),
                        ] + added + seq![
                            (
                                "PYTHONPATH"@,
                                import_path(self.config.env@, scripts_dir@, *context),
                            ),
                            ("OFFLOAD_PARTITION_CONFIG"@, cfg_path@),
                        ]
                    } && cmd.runs_anywhere()
            },
    {
        let tokens = match self.discovery_args_tokens() {
            Ok(t) => t,
            Err(e) => {
                return Err(e);
            },
        };
        proof {
            assert(views(tokens@) =~= optional_words(self.config.discovery_args));
        }
        let mut cmd = self.collect_only_command().args(&tokens).args(hoisted_args).args(
            search_paths,
        ).arg("-p").arg("offload_partition");
        let ghost words = cmd.words();
        self.apply_discovery_env(&mut cmd, context);
        let ghost added = choose|added: Seq<(Seq<char>, Seq<char>)>|
            {
                &&& pair_views(cmd.env@) == seq![("PYTHONDONTWRITEBYTECODE"@, "1"@)] + added
                &&& #[trigger] overrides(self.config, context.cwd@, context.path@, added)
            };
        let base: Option<String> = match self.config.env.get("PYTHONPATH") {
            Some(value) => Some(
                resolve_root_placeholder(value.as_str(), context.cwd.as_str()),
            ),
            None => match &context.pythonpath {
                Some(p) => Some(p.clone()),
                None => None,
            },
        };
        let base_ref: Option<&str> = match &base {
            Some(b) => Some(b.as_str()),
            None => None,
        };
        let pythonpath = match build_pythonpath(scripts_dir, base_ref) {
            Ok(p) => p,
            Err(e) => {
                return Err(e);
            },
        };
        let ghost before = cmd.env@;
        cmd.env.push(("PYTHONPATH".to_owned(), pythonpath));
        cmd.env.push(("OFFLOAD_PARTITION_CONFIG".to_owned(), cfg_path.to_owned()));
        proof {
            assert(cmd.words() =~= self.command_words() + seq!["--collect-only"@, "-q"@]
                + optional_words(self.config.discovery_args) + views(hoisted_args@) + views(
                search_paths@,
            ) + seq!["-p"@, "offload_partition"@]);
            assert(pair_views(cmd.env@) =~= pair_views(before) + seq![
                ("PYTHONPATH"@, pythonpath@),
                ("OFFLOAD_PARTITION_CONFIG"@, cfg_path@),
            ]);
            assert(overrides(self.config, context.cwd@, context.path@, added));
        }
        Ok(cmd)
    }

    /// The command that discovers one group.
    pub fn discovery_command(
        &self,
        paths: &Vec<String>,
        filters: &str,
        context: &LocalContext,
    ) -> (r: FrameworkResult<Command>)
        ensures
            match self.config.discovery_args {
                Some(args) => shell_words_of(args@) is None ==> (r matches Err(
                    FrameworkError::DiscoveryFailed(e),
                ) && e@ == unparsed_args("discovery_args"@, args@)),
                None => true,
            },
            (self.config.discovery_args matches Some(args) ==> shell_words_of(args@) is Some)
                ==> if filters@.len() > 0 && shell_words_of(filters@) is None {
                r matches Err(FrameworkError::DiscoveryFailed(e)) && e@ == unparsed_args(
                    "filter string"@,
                    filters@,
                )
            } else {
                r matches Ok(cmd) && cmd.words() == self.command_words() + seq![
                    "--collect-only"@,
                    "-q"@,
                ] + optional_words(self.config.discovery_args) + (if filters@.len() == 0 {
                    Seq::empty()
                } else {
                    shell_words_of(filters@)->Some_0
                }) + views(
                    if paths@.len() > 0 {
                        paths@
                    } else {
                        match self.config.paths {
                            Some(p) => p@,
                            None => Seq::empty(),
                        }
                    },
                ) && exists|added: Seq<(Seq<char>, Seq<char>)>|
                    {
                        &&& #[trigger] overrides(self.config, context.cwd@, context.path@, added)
                        &&& pair_views(cmd.env@) == seq![("PYTHONDONTWRITEBYTECODE"@, "1"@)] + added
                    } && cmd.runs_anywhere()
            },
    {
        let search_paths = self.discovery_search_paths(paths);
        let extra = match self.discovery_extra_args(&search_paths, filters) {
            Ok(a) => a,
            Err(e) => {
                return Err(e);
            },
        };
        let mut cmd = self.collect_only_command().args(&extra);
        let ghost words = cmd.words();
        self.apply_discovery_env(&mut cmd, context);
        proof {
            assert(cmd.words() == words);
            assert(words =~= self.command_words() + seq!["--collect-only"@, "-q"@]
                + optional_words(self.config.discovery_args) + (if filters@.len() == 0 {
                Seq::empty()
            } else {
                shell_words_of(filters@)->Some_0
            }) + views(search_paths@));
        }
        Ok(cmd)
    }

    /// The report of the single pass, or an error where it wrote none.
    pub fn partition_output(&self, written: Option<String>, status: &str, detail: &str) -> (r:
        FrameworkResult<String>)
        ensures
            match written {
                Some(report) => if trimmed(report@).len() > 0 {
                    r == Ok::<String, FrameworkError>(report)
                } else {
                    r matches Err(FrameworkError::DiscoveryFailed(e)) && e@ == no_partition(
                        status@,
                        detail@,
                    )
                },
                None => r matches Err(FrameworkError::DiscoveryFailed(e)) && e@ == no_partition(
                    status@,
                    detail@,
                ),
            },
    {
        match written {
            Some(report) => {
                let content = text::trim(report.as_str());
                if !content.as_str().is_empty() {
                    return Ok(report);
                }
            },
            None => {},
        }
        let mut e = "offload_partition produced no usable output (".to_owned();
        e.append(status);
        e.append("): ");
        e.append(detail);
        Err(FrameworkError::DiscoveryFailed(e))
    }

    /// What a collection run gave: its tests, or an error where it failed and
    /// named none.
    pub fn read_collection(
        &self,
        cmd: &Command,
        success: bool,
        status: &str,
        stdout: &str,
        detail: &str,
        group: &str,
    ) -> (r: FrameworkResult<Vec<TestRecord>>)
        ensures
            if !success && !occurs(stdout@, "::"@) {
                r matches Err(FrameworkError::DiscoveryFailed(e)) && e@
                    == "pytest --collect-only failed ("@ + status@ + "):\n  command: "@ + joined(
                    cmd.words(),
                    " "@,
                ) + "\n  "@ + detail@
            } else {
                r matches Ok(tests) && record_views(tests@) == Seq::new(
                    collected(lines_of(stdout@)).len(),
                    |i: int| bare_record(collected(lines_of(stdout@))[i], group@),
                )
            },
    {
        if !success && !text::contains(stdout, "::") {
            let mut words: Vec<String> = Vec::new();
            words.push(cmd.program.clone());
            let mut rest = clone_strings(&cmd.args);
            words.append(&mut rest);
            proof {
                assert(views(words@) =~= cmd.words());
            }
            let display = text::join(&words, " ");
            let mut e = "pytest --collect-only failed (".to_owned();
            e.append(status);
            e.append("):\n  command: ");
            e.append(display.as_str());
            e.append("\n  ");
            e.append(detail);
            return Err(FrameworkError::DiscoveryFailed(e));
        }
        Ok(self.parse_collect_output(stdout, group))
    }
}

/// The module search path of the single pass: the scripts' directory, then
/// the configured path with its root resolved, or else the process's own.
pub open spec fn import_path(
    env: Map<Seq<char>, String>,
    scripts_dir: Seq<char>,
    context: LocalContext,
) -> Seq<char> {
    if env.contains_key("PYTHONPATH"@) {
        scripts_dir + ":"@ + rooted(env["PYTHONPATH"@]@, context.cwd@)
    } else {
        match context.pythonpath {
            Some(p) => scripts_dir + ":"@ + p@,
            None => scripts_dir,
        }
    }
}

/// The environment entries that a configuration adds to a local command: its
/// entries with the root resolved, sorted by key, and a search path where it
/// has directories for it.
pub open spec fn overrides(
    config: PytestFrameworkConfig,
    root: Seq<char>,
    path: Seq<char>,
    added: Seq<(Seq<char>, Seq<char>)>,
) -> bool {
    let n = config.env.entries@.len() as int;
    let dirs = match config.prepend_path {
        Some(d) => views(d@),
        None => Seq::empty(),
    };
    &&& added.len() == n + (if dirs.len() > 0 {
        1int
    } else {
        0int
    })
    &&& config.env.well_formed() ==> sorts_pairs(
        rooted_pairs(config.env.entries@, root),
        added.take(n),
    )
    &&& dirs.len() > 0 ==> added.last() == ("PATH"@, search_path(dirs, root, path))
}

/// What is said of a single pass that wrote no report.
pub open spec fn no_partition(status: Seq<char>, detail: Seq<char>) -> Seq<char> {
    "offload_partition produced no usable output ("@ + status + "): "@ + detail
}

impl PytestFramework {
    /// Gives reported cases the ids under which they were run, in order, as
    /// far as they were found. The first case without one is an error; those
    /// before it are resolved, the others are left as they are.
    pub fn resolve_test_ids(
        &self,
        testcases: &mut Vec<TestcaseXml>,
        matched: &Vec<Result<String, String>>,
    ) -> (r: FrameworkResult<()>)
        requires
            matched@.len() == old(testcases)@.len(),
        ensures
            match r {
                Ok(_) => resolved_up_to(
                    final(testcases)@,
                    old(testcases)@,
                    matched@,
                    matched@.len() as int,
                ),
                Err(e) => exists|n: int|
                    {
                        &&& 0 <= n < matched@.len()
                        &&& #[trigger] resolved_up_to(
                            final(testcases)@,
                            old(testcases)@,
                            matched@,
                            n,
                        )
                        &&& matched@[n] matches Err(m) && e matches FrameworkError::Other(t) && t@
                            == "Failed to resolve JUnit testcase: "@ + m@
                    },
            },
    {
        match apply_ids(testcases, matched) {
            Ok(_) => Ok(()),
            Err(k) => {
                let mut e = "Failed to resolve JUnit testcase: ".to_owned();
                match &matched[k] {
                    Err(m) => {
                        e.append(m.as_str());
                    },
                    Ok(_) => {},
                }
                Err(FrameworkError::Other(e))
            },
        }
    }
}

impl TestFramework for PytestFramework {
    /// The command runs the tests verbosely with a JUnit report, stops at the
    /// first failure where asked to, and carries the configured environment.
    fn produce_test_execution_command(
        &self,
        tests: &[TestInstance],
        result_path: &str,
        fail_fast: bool,
    ) -> (r: Command)
        ensures
            r.words() == self.command_words() + seq![
                "-v"@,
                "--tb=short"@,
                "--junitxml="@ + result_path@,
            ] + (if fail_fast {
                seq!["-x"@]
            } else {
                Seq::empty()
            }) + optional_words(self.config.run_args) + instance_ids(tests@),
            r.env@.len() == self.config.env.entries@.len(),
            self.config.env.well_formed() ==> sorts_pairs(
                pair_views(self.config.env.entries@),
                pair_views(r.env@),
            ),
            r.prepend_path@ == (match self.config.prepend_path {
                Some(dirs) => dirs@,
                None => Seq::empty(),
            }),
            r.working_dir is None,
            r.timeout_secs is None,
    {
        let mut report = "--junitxml=".to_owned();
        report.append(result_path);
        let mut cmd = Command::new(self.program.as_str()).args(&self.prefix_args).arg("-v").arg(
            "--tb=short",
        ).arg(report.as_str());
        if fail_fast {
            cmd = cmd.arg("-x");
        }
        let extra = split_optional(&self.config.run_args);
        cmd = cmd.args(&extra);
        let ghost base = cmd.words();
        proof {
            assert(base =~= self.command_words() + seq![
                "-v"@,
                "--tb=short"@,
                "--junitxml="@ + result_path@,
            ] + (if fail_fast {
                seq!["-x"@]
            } else {
                Seq::empty()
            }) + optional_words(self.config.run_args));
            assert(base + instance_ids(tests@).take(0) =~= base);
        }
        let mut i: usize = 0;
        while i < tests.len()
            invariant
                0 <= i <= tests@.len(),
                cmd.words() == base + instance_ids(tests@).take(i as int),
                cmd.env@.len() == 0,
                cmd.prepend_path@.len() == 0,
                cmd.working_dir is None,
                cmd.timeout_secs is None,
            decreases tests@.len() - i,
        {
            let ghost before = cmd.words();
            cmd = cmd.arg(tests[i].id());
            proof {
                let ids = instance_ids(tests@);
                assert(ids.take(i + 1) =~= ids.take(i as int).push(ids[i as int]));
                assert(base + ids.take(i + 1) =~= before.push(ids[i as int]));
            }
            i = i + 1;
        }
        proof {
            assert(instance_ids(tests@).take(tests@.len() as int) =~= instance_ids(tests@));
        }
        let dirs: Option<&Vec<String>> = match &self.config.prepend_path {
            Some(d) => Some(d),
            None => None,
        };
        let ghost words = cmd.words();
        attach_execution_env(&mut cmd, &self.config.env, dirs);
        proof {
            assert(cmd.words() == words);
            assert(cmd.env@.skip(0) =~= cmd.env@);
        }
        cmd
    }
}

/// Hoisting takes what every group asks for, and nothing else; where a group
/// has an unrecognized token it takes nothing.
pub proof fn hoisted_is_shared(groups: Seq<Vec<FilterComponent>>, c: Component)
    ensures
        hoisted_of(groups).contains(c) <==> groups.len() > 0 && (forall|g: int, k: int|
            0 <= g < groups.len() && 0 <= k < groups[g]@.len() ==> (#[trigger] groups[g]@[k])@.0
                != FilterKind::Unknown) && forall|g: int|
            0 <= g < groups.len() ==> component_views((#[trigger] groups[g])@).contains(c),
{
    if groups.len() > 0 {
        crate::framework::pytest_filter::hoisted_iff_in_all(groups, c);
        if forall|g: int, k: int|
            0 <= g < groups.len() && 0 <= k < groups[g]@.len() ==> (#[trigger] groups[g]@[k])@.0
                != FilterKind::Unknown {
            assert forall|g: int| 0 <= g < groups.len() implies
                crate::framework::pytest_filter::all_known(
                component_views((#[trigger] groups[g])@),
            ) by {
                assert forall|k: int| 0 <= k < groups[g]@.len() implies (
                #[trigger] component_views(groups[g]@)[k]).0 != FilterKind::Unknown by {
                    assert(groups[g]@[k]@.0 != FilterKind::Unknown);
                }
            }
        } else {
            let (g, k) = choose|g: int, k: int|
                0 <= g < groups.len() && 0 <= k < groups[g]@.len() && (#[trigger] groups[g]@[k])@.0
                    == FilterKind::Unknown;
            assert(component_views(groups[g]@)[k].0 == FilterKind::Unknown);
            assert(!crate::framework::pytest_filter::all_known(component_views(groups[g]@)));
        }
    }
}

/// Every configured variable is set in a local discovery command, with the
/// root in its place, and no others are but for the search path.
pub proof fn configured_variables_are_set(
    config: PytestFrameworkConfig,
    root: Seq<char>,
    path: Seq<char>,
    added: Seq<(Seq<char>, Seq<char>)>,
    key: Seq<char>,
    value: Seq<char>,
)
    requires
        overrides(config, root, path, added),
        config.env.well_formed(),
    ensures
        (exists|i: int|
            0 <= i < config.env.entries@.len() && (#[trigger] config.env.entries@[i]).0@ == key
                && rooted(config.env.entries@[i].1@, root) == value) ==> added.contains((key, value)),
        added.contains((key, value)) ==> key == "PATH"@ || exists|i: int|
            0 <= i < config.env.entries@.len() && (#[trigger] config.env.entries@[i]).0@ == key
                && rooted(config.env.entries@[i].1@, root) == value,
{
    let entries = config.env.entries@;
    let n = entries.len() as int;
    let pairs = rooted_pairs(entries, root);
    let sorted = added.take(n);
    if exists|i: int|
        0 <= i < entries.len() && (#[trigger] entries[i]).0@ == key && rooted(entries[i].1@, root)
            == value {
        let i = choose|i: int|
            0 <= i < entries.len() && (#[trigger] entries[i]).0@ == key && rooted(
                entries[i].1@,
                root,
            ) == value;
        assert(pairs[i] == (key, value));
        assert(pairs.contains((key, value)));
        assert(sorted.contains((key, value)));
        let k = choose|k: int| 0 <= k < sorted.len() && sorted[k] == (key, value);
        assert(added[k] == (key, value));
    }
    if added.contains((key, value)) {
        let k = choose|k: int| 0 <= k < added.len() && added[k] == (key, value);
        if k < n {
            assert(sorted[k] == (key, value));
            assert(sorted.contains((key, value)));
            assert(pairs.contains((key, value)));
            let i = choose|i: int| 0 <= i < pairs.len() && pairs[i] == (key, value);
            assert(entries[i].0@ == key);
        } else {
            assert(added.last() == added[k]);
        }
    }
}

/// The module search path of the single pass begins with the scripts'
/// directory; a configured path comes next, and only without one does that of
/// the process.
pub proof fn scripts_come_first(
    env: Map<Seq<char>, String>,
    scripts_dir: Seq<char>,
    context: LocalContext,
)
    ensures
        has_prefix(import_path(env, scripts_dir, context), scripts_dir),
        env.contains_key("PYTHONPATH"@) ==> import_path(env, scripts_dir, context) == scripts_dir
            + ":"@ + rooted(env["PYTHONPATH"@]@, context.cwd@),
        !env.contains_key("PYTHONPATH"@) ==> import_path(env, scripts_dir, context) == scripts_dir + (
        match context.pythonpath {
            Some(p) => ":"@ + p@,
            None => Seq::empty(),
        }),
{
    let path = import_path(env, scripts_dir, context);
    assert(path.subrange(0, scripts_dir.len() as int) =~= scripts_dir);
    match context.pythonpath {
        Some(p) => {
            assert(scripts_dir + ":"@ + p@ =~= scripts_dir + (":"@ + p@));
        },
        None => {
            assert(scripts_dir + Seq::<char>::empty() =~= scripts_dir);
        },
    }
}

/// A group joins the single pass exactly where its filter has no unrecognized
/// token; a group without a filter always does.
pub proof fn only_known_filters_join(filters: Seq<char>, tokens: Seq<Seq<char>>, c: Seq<Component>)
    ensures
        trimmed(filters).len() == 0 ==> joins_pool(filters),
        trimmed(filters).len() > 0 && shell_words_of(filters) == Some(tokens)
            && crate::framework::pytest_filter::components_from(tokens, 0) == Ok::<
            Seq<Component>,
            int,
        >(c) ==> (joins_pool(filters) <==> forall|k: int|
            0 <= k < c.len() ==> (#[trigger] c[k]).0 != FilterKind::Unknown),
{
    let none = Seq::<Component>::empty();
    if trimmed(filters).len() == 0 {
        assert(pooled(filters, none));
    } else if shell_words_of(filters) == Some(tokens)
        && crate::framework::pytest_filter::components_from(tokens, 0) == Ok::<
        Seq<Component>,
        int,
    >(c) {
        if forall|k: int| 0 <= k < c.len() ==> (#[trigger] c[k]).0 != FilterKind::Unknown {
            assert(pooled(filters, c));
        }
    }
}

/// What all groups of a pool share narrows none of them: a mark or a keyword
/// that is hoisted is the one that counts for every group.
pub proof fn hoisting_narrows_no_group(
    pool: Seq<(String, Vec<FilterComponent>)>,
    groups: Seq<Vec<FilterComponent>>,
    c: Component,
    i: int,
)
    requires
        groups.len() == pool.len(),
        forall|k: int|
            0 <= k < groups.len() ==> component_views((#[trigger] groups[k])@) == hoisted_filters(
                pool,
            )[k],
        hoisted_of(groups).contains(c),
        last_wins(c.0),
        0 <= i < pool.len(),
    ensures
        last_value(component_views(pool[i].1@), c.0) == Some(c.1),
{
    hoisted_is_shared(groups, c);
    assert(component_views(groups[i]@).contains(c));
    effective_value_is_last(component_views(pool[i].1@), c);
}

} // verus!
