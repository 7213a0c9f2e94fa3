//! Data and helpers for pytest single-pass discovery: one collection run is
//! partitioned into lists of node IDs, one for each group.

use vstd::prelude::*;

use crate::config::GroupConfig;
use crate::discovery::option_view;
use crate::framework::pytest_filter::{
    all_known, component_views, components_from, is_single_pass_eligible, parse_filter_string,
    Component, FilterComponent, FilterKind, ParseError,
};
use crate::framework::{bare_record, record_views, RecordModel, TestRecord};
use crate::shell::shell_words_of;
use crate::strmap::StrMap;
use crate::text::{trimmed, views};

verus! {

/// One group's filter specification for the partition plugin: of marks and
/// keywords the last wins, the others accumulate in order.
#[derive(Debug, PartialEq, Eq)]
pub struct GroupSpec {
    pub mark: Option<String>,
    pub keyword: Option<String>,
    pub deselect: Vec<String>,
    pub ignore: Vec<String>,
    pub ignore_glob: Vec<String>,
}

impl Default for GroupSpec {
    fn default() -> (r: Self)
        ensures
            r.mark is None,
            r.keyword is None,
            r.deselect@.len() == 0,
            r.ignore@.len() == 0,
            r.ignore_glob@.len() == 0,
    {
        GroupSpec {
            mark: None,
            keyword: None,
            deselect: Vec::new(),
            ignore: Vec::new(),
            ignore_glob: Vec::new(),
        }
    }
}

/// The configuration document for the partition plugin.
#[derive(Debug)]
pub struct PartitionConfig {
    pub groups: Vec<(String, GroupSpec)>,
    pub out: String,
}

/// The plugin's output: node IDs selected per group, in collection order.
#[derive(Debug)]
pub struct PartitionReport {
    pub groups: Vec<(String, Vec<String>)>,
}

/// How a single group should be discovered.
#[derive(Debug)]
pub enum Routing {
    /// Eligible for the single-pass pool, carrying its parsed components.
    Pool(Vec<FilterComponent>),
    /// Ineligible: it has a token that the plugin does not know.
    Fallback,
}

/// What a routing makes of a group's components.
pub open spec fn routes(components: Seq<Component>, r: Routing) -> bool {
    match r {
        Routing::Pool(c) => all_known(components) && component_views(c@) == components,
        Routing::Fallback => !all_known(components),
    }
}

/// Decides whether a group joins the single-pass pool.
pub fn route_group(filters: &str) -> (r: Result<Routing, ParseError>)
    ensures
        trimmed(filters@).len() == 0 ==> (r matches Ok(route) && routes(Seq::empty(), route)),
        trimmed(filters@).len() > 0 ==> match shell_words_of(filters@) {
            None => r matches Err(ParseError::Tokenization(e)) && e@ == "missing closing quote"@,
            Some(tokens) => match components_from(tokens, 0) {
                Ok(components) => r matches Ok(route) && routes(components, route),
                Err(p) => r matches Err(ParseError::MissingFlagValue { flag, position })
                    && position == p && 0 <= p < tokens.len() && flag@ == tokens[p],
            },
        },
{
    match parse_filter_string(filters) {
        Ok(components) => {
            proof {
                if trimmed(filters@).len() == 0 {
                    assert(component_views(components@) =~= Seq::<Component>::empty());
                }
            }
            if is_single_pass_eligible(components.as_slice()) {
                Ok(Routing::Pool(components))
            } else {
                Ok(Routing::Fallback)
            }
        },
        Err(e) => Err(e),
    }
}

/// The values of one kind, in order.
pub open spec fn values_of(components: Seq<Component>, kind: FilterKind) -> Seq<Seq<char>>
    decreases components.len(),
{
    if components.len() == 0 {
        Seq::empty()
    } else if components.last().0 == kind {
        values_of(components.drop_last(), kind).push(components.last().1)
    } else {
        values_of(components.drop_last(), kind)
    }
}

/// The last value of one kind.
pub open spec fn last_value(components: Seq<Component>, kind: FilterKind) -> Option<Seq<char>> {
    let v = values_of(components, kind);
    if v.len() == 0 {
        None
    } else {
        Some(v.last())
    }
}

/// What a specification holds for the given components.
pub open spec fn specifies(spec: GroupSpec, components: Seq<Component>) -> bool {
    &&& option_view(spec.mark) == last_value(components, FilterKind::Mark)
    &&& option_view(spec.keyword) == last_value(components, FilterKind::Keyword)
    &&& views(spec.deselect@) == values_of(components, FilterKind::Deselect)
    &&& views(spec.ignore@) == values_of(components, FilterKind::Ignore)
    &&& views(spec.ignore_glob@) == values_of(components, FilterKind::IgnoreGlob)
}

/// Converts one group's components into a specification for the plugin.
pub fn group_spec_from_components(components: &[FilterComponent]) -> (spec: GroupSpec)
    ensures
        specifies(spec, component_views(components@)),
{
    let mut spec = GroupSpec {
        mark: None,
        keyword: None,
        deselect: Vec::new(),
        ignore: Vec::new(),
        ignore_glob: Vec::new(),
    };
    let mut i: usize = 0;
    let ghost all = component_views(components@);
    proof {
        assert(all.take(0) =~= Seq::<Component>::empty());
        assert(views(spec.deselect@) =~= Seq::<Seq<char>>::empty());
        assert(views(spec.ignore@) =~= Seq::<Seq<char>>::empty());
        assert(views(spec.ignore_glob@) =~= Seq::<Seq<char>>::empty());
    }
    while i < components.len()
        invariant
            0 <= i <= components@.len(),
            all == component_views(components@),
            specifies(spec, all.take(i as int)),
        decreases components@.len() - i,
    {
        let ghost t = all.take(i + 1);
        let ghost before = spec;
        proof {
            assert(t.drop_last() =~= all.take(i as int));
            assert(t.last() == components@[i as int]@);
        }
        match &components[i] {
            FilterComponent::Mark(value) => {
                spec.mark = Some(value.clone());
            },
            FilterComponent::Keyword(value) => {
                spec.keyword = Some(value.clone());
            },
            FilterComponent::Deselect(value) => {
                spec.deselect.push(value.clone());
                proof {
                    assert(views(spec.deselect@) =~= views(before.deselect@).push(value@));
                }
            },
            FilterComponent::Ignore(value) => {
                spec.ignore.push(value.clone());
                proof {
                    assert(views(spec.ignore@) =~= views(before.ignore@).push(value@));
                }
            },
            FilterComponent::IgnoreGlob(value) => {
                spec.ignore_glob.push(value.clone());
                proof {
                    assert(views(spec.ignore_glob@) =~= views(before.ignore_glob@).push(value@));
                }
            },
            FilterComponent::Unknown(_) => {},
        }
        i = i + 1;
    }
    proof {
        assert(all.take(components@.len() as int) =~= all);
    }
    spec
}

/// A kind of which only the last value counts.
pub open spec fn last_wins(kind: FilterKind) -> bool {
    kind == FilterKind::Mark || kind == FilterKind::Keyword
}

/// The component at `i` is overruled by a later one of its kind.
pub open spec fn overruled(components: Seq<Component>, i: int) -> bool {
    last_wins(components[i].0) && exists|j: int|
        i < j < components.len() && (#[trigger] components[j]).0 == components[i].0
}

/// The components from the `i`th on that are not overruled.
pub open spec fn effective_from(components: Seq<Component>, i: int) -> Seq<Component>
    decreases components.len() - i,
{
    if i < 0 || i >= components.len() {
        Seq::empty()
    } else if overruled(components, i) {
        effective_from(components, i + 1)
    } else {
        seq![components[i]] + effective_from(components, i + 1)
    }
}

/// The components that count: of marks and keywords only the last.
pub fn effective_components(components: &Vec<FilterComponent>) -> (r: Vec<FilterComponent>)
    ensures
        component_views(r@) == effective_from(component_views(components@), 0),
{
    let mut out: Vec<FilterComponent> = Vec::new();
    let ghost all = component_views(components@);
    let mut i: usize = 0;
    proof {
        assert(component_views(out@) + effective_from(all, 0) =~= effective_from(all, 0));
    }
    while i < components.len()
        invariant
            0 <= i <= components@.len(),
            all == component_views(components@),
            component_views(out@) + effective_from(all, i as int) == effective_from(all, 0),
        decreases components@.len() - i,
    {
        let kind = components[i].kind();
        let mut again = false;
        let mut j: usize = i + 1;
        while j < components.len()
            invariant
                i + 1 <= j <= components@.len(),
                all == component_views(components@),
                kind == all[i as int].0,
                again <==> exists|m: int| i < m < j && (#[trigger] all[m]).0 == kind,
            decreases components@.len() - j,
        {
            if components[j].kind() == kind {
                assert(all[j as int].0 == kind);
                again = true;
            }
            j = j + 1;
        }
        let drop = again && (kind == FilterKind::Mark || kind == FilterKind::Keyword);
        assert(drop == overruled(all, i as int));
        let ghost before = out@;
        if !drop {
            out.push(components[i].clone());
            proof {
                let x = all[i as int];
                assert(component_views(out@) =~= component_views(before).push(x));
                let rest = effective_from(all, i + 1);
                assert(component_views(before) + (seq![x] + rest) =~= component_views(out@) + rest);
            }
        }
        i = i + 1;
    }
    proof {
        assert(component_views(out@) + Seq::<Component>::empty() =~= component_views(out@));
    }
    out
}

proof fn values_of_append(a: Seq<Component>, b: Seq<Component>, kind: FilterKind)
    ensures
        values_of(a + b, kind) == values_of(a, kind) + values_of(b, kind),
    decreases b.len(),
{
    if b.len() == 0 {
        assert(a + b =~= a);
        assert(values_of(a, kind) + Seq::<Seq<char>>::empty() =~= values_of(a, kind));
    } else {
        values_of_append(a, b.drop_last(), kind);
        assert((a + b).drop_last() =~= a + b.drop_last());
        assert((a + b).last() == b.last());
        let x = b.last().1;
        let p = values_of(a, kind);
        let q = values_of(b.drop_last(), kind);
        assert((p + q).push(x) =~= p + q.push(x));
    }
}

proof fn values_of_single(c: Component, kind: FilterKind)
    ensures
        values_of(seq![c], kind) == (if c.0 == kind {
            seq![c.1]
        } else {
            Seq::empty()
        }),
{
    let s = seq![c];
    assert(s.drop_last() =~= Seq::<Component>::empty());
    assert(s.last() == c);
    assert(values_of(s.drop_last(), kind) =~= Seq::<Seq<char>>::empty());
    assert(Seq::<Seq<char>>::empty().push(c.1) =~= seq![c.1]);
}

/// Dropping what is overruled changes no list and no last value from the
/// `i`th component on.
proof fn effective_values(components: Seq<Component>, kind: FilterKind, i: int)
    requires
        0 <= i <= components.len(),
    ensures
        !last_wins(kind) ==> values_of(effective_from(components, i), kind) == values_of(
            components.subrange(i, components.len() as int),
            kind,
        ),
        last_wins(kind) ==> last_value(effective_from(components, i), kind) == last_value(
            components.subrange(i, components.len() as int),
            kind,
        ),
    decreases components.len() - i,
{
    let rest = components.subrange(i, components.len() as int);
    if i < components.len() {
        effective_values(components, kind, i + 1);
        let tail = components.subrange(i + 1, components.len() as int);
        let c = components[i];
        assert(rest =~= seq![c] + tail);
        values_of_append(seq![c], tail, kind);
        values_of_single(c, kind);
        let e = effective_from(components, i + 1);
        values_of_append(seq![c], e, kind);
        if overruled(components, i) && c.0 == kind {
            let j = choose|j: int|
                i < j < components.len() && (#[trigger] components[j]).0 == components[i].0;
            assert(tail[j - i - 1] == components[j]);
            has_value(tail, kind, j - i - 1);
            let v = values_of(tail, kind);
            assert((seq![c.1] + v).last() == v.last());
        }
        if c.0 != kind {
            assert(Seq::<Seq<char>>::empty() + values_of(tail, kind) =~= values_of(tail, kind));
            assert(Seq::<Seq<char>>::empty() + values_of(e, kind) =~= values_of(e, kind));
        }
    } else {
        assert(rest =~= Seq::<Component>::empty());
    }
}

proof fn has_value(components: Seq<Component>, kind: FilterKind, k: int)
    requires
        0 <= k < components.len(),
        components[k].0 == kind,
    ensures
        values_of(components, kind).len() > 0,
    decreases components.len(),
{
    if k < components.len() - 1 {
        assert(components.drop_last()[k] == components[k]);
        has_value(components.drop_last(), kind, k);
    }
}

/// What is overruled does not show in a group's specification: the effective
/// components specify the same.
pub proof fn effective_specifies_same(components: Seq<Component>, spec: GroupSpec)
    ensures
        specifies(spec, components) <==> specifies(spec, effective_from(components, 0)),
{
    assert(components.subrange(0, components.len() as int) =~= components);
    effective_values(components, FilterKind::Mark, 0);
    effective_values(components, FilterKind::Keyword, 0);
    effective_values(components, FilterKind::Deselect, 0);
    effective_values(components, FilterKind::Ignore, 0);
    effective_values(components, FilterKind::IgnoreGlob, 0);
}

proof fn effective_origin(components: Seq<Component>, i: int, c: Component)
    requires
        0 <= i <= components.len(),
        effective_from(components, i).contains(c),
    ensures
        exists|p: int|
            i <= p < components.len() && #[trigger] components[p] == c && !overruled(components, p),
    decreases components.len() - i,
{
    let e = effective_from(components, i);
    if i < components.len() {
        let rest = effective_from(components, i + 1);
        if !overruled(components, i) {
            if components[i] != c {
                let k = choose|k: int| 0 <= k < e.len() && e[k] == c;
                assert(rest[k - 1] == c);
                effective_origin(components, i + 1, c);
            }
        } else {
            effective_origin(components, i + 1, c);
        }
    }
}

proof fn last_value_at(components: Seq<Component>, kind: FilterKind, p: int)
    requires
        0 <= p < components.len(),
        components[p].0 == kind,
        forall|j: int| p < j < components.len() ==> (#[trigger] components[j]).0 != kind,
    ensures
        last_value(components, kind) == Some(components[p].1),
    decreases components.len(),
{
    if p < components.len() - 1 {
        let d = components.drop_last();
        assert(components[components.len() - 1] == components.last());
        assert forall|j: int| p < j < d.len() implies (#[trigger] d[j]).0 != kind by {
            assert(d[j] == components[j]);
        }
        last_value_at(d, kind, p);
    }
}

/// A mark or keyword among the effective components is the group's own: what
/// hoisting takes from every group never narrows a group beyond its filter.
pub proof fn effective_value_is_last(components: Seq<Component>, c: Component)
    requires
        last_wins(c.0),
        effective_from(components, 0).contains(c),
    ensures
        last_value(components, c.0) == Some(c.1),
{
    effective_origin(components, 0, c);
    let p = choose|p: int|
        0 <= p < components.len() && #[trigger] components[p] == c && !overruled(components, p);
    last_value_at(components, c.0, p);
}

/// The record of a node, with the settings of its group.
pub open spec fn tagged(
    id: Seq<char>,
    group: Seq<char>,
    groups: Map<Seq<char>, GroupConfig>,
) -> RecordModel {
    RecordModel {
        retry_count: if groups.contains_key(group) {
            groups[group].retry_count
        } else {
            0
        },
        schedule_individual: groups.contains_key(group) && groups[group].schedule_individual,
        ..bare_record(id, group)
    }
}

/// The records of the first `n` groups of a report.
pub open spec fn report_records(
    report: Seq<(String, Vec<String>)>,
    groups: Map<Seq<char>, GroupConfig>,
    n: int,
) -> Seq<RecordModel>
    decreases n,
{
    if n <= 0 || n > report.len() {
        Seq::empty()
    } else {
        let (name, ids) = report[n - 1];
        report_records(report, groups, n - 1) + Seq::new(
            ids@.len(),
            |i: int| tagged(ids@[i]@, name@, groups),
        )
    }
}

/// Builds tagged records from a plugin report: each node ID becomes a record
/// with its group's settings, in the order of the report.
pub fn records_from_report(report: &PartitionReport, groups: &StrMap<GroupConfig>) -> (r: Vec<
    TestRecord,
>)
    ensures
        record_views(r@) == report_records(
            report.groups@,
            groups@,
            report.groups@.len() as int,
        ),
{
    let mut records: Vec<TestRecord> = Vec::new();
    let mut g: usize = 0;
    proof {
        assert(record_views(records@) =~= Seq::<RecordModel>::empty());
    }
    while g < report.groups.len()
        invariant
            0 <= g <= report.groups@.len(),
            record_views(records@) == report_records(report.groups@, groups@, g as int),
        decreases report.groups@.len() - g,
    {
        let (retry_count, schedule_individual) = match groups.get(report.groups[g].0.as_str()) {
            Some(cfg) => (cfg.retry_count, cfg.schedule_individual),
            None => (0, false),
        };
        let ids = &report.groups[g].1;
        let ghost name = report.groups@[g as int].0@;
        let ghost base = record_views(records@);
        let ghost new = Seq::new(ids@.len(), |i: int| tagged(ids@[i]@, name, groups@));
        let mut i: usize = 0;
        proof {
            assert(base + new.take(0) =~= base);
        }
        while i < ids.len()
            invariant
                0 <= g < report.groups@.len(),
                0 <= i <= ids@.len(),
                name == report.groups@[g as int].0@,
                new == Seq::new(ids@.len(), |i: int| tagged(ids@[i]@, name, groups@)),
                retry_count == (if groups@.contains_key(name) {
                    groups@[name].retry_count
                } else {
                    0
                }),
                schedule_individual == (groups@.contains_key(name)
                    && groups@[name].schedule_individual),
                record_views(records@) == base + new.take(i as int),
            decreases ids@.len() - i,
        {
            let ghost before = records@;
            records.push(
                TestRecord::new(ids[i].as_str(), report.groups[g].0.as_str()).with_retry_count(
                    retry_count,
                ).with_schedule_individual(schedule_individual),
            );
            proof {
                assert(record_views(records@) =~= record_views(before).push(new[i as int]));
                assert(new.take(i + 1) =~= new.take(i as int).push(new[i as int]));
                assert(base + new.take(i + 1) =~= (base + new.take(i as int)).push(new[i as int]));
            }
            i = i + 1;
        }
        proof {
            assert(new.take(ids@.len() as int) =~= new);
        }
        g = g + 1;
    }
    records
}

/// The values of one kind are those of its components, all of them and in
/// their order.
pub proof fn values_keep_order(components: Seq<Component>, kind: FilterKind)
    ensures
        values_of(components, kind) == components.filter(|c: Component| c.0 == kind).map_values(
            |c: Component| c.1,
        ),
    decreases components.len(),
{
    reveal(Seq::filter);
    let of_kind = |c: Component| c.0 == kind;
    let value = |c: Component| c.1;
    if components.len() == 0 {
        assert(values_of(components, kind) =~= components.filter(of_kind).map_values(value));
    } else {
        let rest = components.drop_last();
        values_keep_order(rest, kind);
        assert(components.filter(of_kind).map_values(value) =~= values_of(components, kind));
    }
}

/// The number of nodes in the first `n` groups of a report.
pub open spec fn nodes_in(report: Seq<(String, Vec<String>)>, n: int) -> nat
    decreases n,
{
    if n <= 0 || n > report.len() {
        0
    } else {
        nodes_in(report, n - 1) + report[n - 1].1@.len()
    }
}

/// Every node of a report becomes one record, in the order of the report: with
/// its id, its group, and the retries and scheduling of that group.
pub proof fn every_node_is_recorded(
    report: Seq<(String, Vec<String>)>,
    groups: Map<Seq<char>, GroupConfig>,
    n: int,
    g: int,
    i: int,
)
    requires
        0 <= g < n <= report.len(),
        0 <= i < report[g].1@.len(),
    ensures
        report_records(report, groups, n).len() == nodes_in(report, n),
        nodes_in(report, g) + i < nodes_in(report, n),
        ({
            let r = report_records(report, groups, n)[nodes_in(report, g) + i];
            let group = report[g].0@;
            &&& r.id == report[g].1@[i]@
            &&& r.group == group
            &&& groups.contains_key(group) ==> r.retry_count == groups[group].retry_count
                && r.schedule_individual == groups[group].schedule_individual
            &&& !groups.contains_key(group) ==> r.retry_count == 0 && !r.schedule_individual
        }),
    decreases n,
{
    records_count(report, groups, n);
    records_count(report, groups, n - 1);
    if g < n - 1 {
        every_node_is_recorded(report, groups, n - 1, g, i);
    }
}

proof fn records_count(
    report: Seq<(String, Vec<String>)>,
    groups: Map<Seq<char>, GroupConfig>,
    n: int,
)
    requires
        n <= report.len(),
    ensures
        report_records(report, groups, n).len() == nodes_in(report, n),
    decreases n,
{
    if n > 0 {
        records_count(report, groups, n - 1);
    }
}

} // verus!
