//! Test history storage with bounded samples for every test.

use vstd::prelude::*;

use crate::history::jsonl::{
    compact_views, distinct, find, first_malformed, history_views, lookup, lookup_after_put,
    position_from, position_is_first, put, put_record, read_lines, records_on, CompactSample,
    HistoryModel, TestRecord, TestValues,
};
use crate::history::reservoir::{
    has_time, insert_is_bounded, inserted, inserted_all, inserting_all_is_bounded,
    newest_is_newest, newest_of, sample_views, Sample, SampleKeys, SampleModel,
    WeightedReservoir, ZERO_DURATION,
};
use crate::history::rounding::{
    percentile_index, percentile_position, position_is_nearest, positions_ascend,
};
use crate::history::{
    statistics_views, DurationStats, ExpectedDuration, HistoryError, OutcomeStats, StatisticsModel,
    TestAttemptResult, TestHistoryStore, TestStatistics,
};
use crate::text;
use crate::text::{before, views};

verus! {

/// Where a number goes among numbers from low to high, from position `i` on.
pub open spec fn up_slot(s: Seq<u64>, i: int, x: u64) -> int
    decreases s.len() - i,
{
    if 0 <= i < s.len() && s[i] <= x {
        up_slot(s, i + 1, x)
    } else {
        i
    }
}

/// The numbers from low to high.
pub open spec fn ascending(s: Seq<u64>) -> Seq<u64>
    decreases s.len(),
{
    if s.len() == 0 {
        s
    } else {
        let rest = ascending(s.drop_last());
        rest.insert(up_slot(rest, 0, s.last()), s.last())
    }
}

proof fn up_slot_bounds(s: Seq<u64>, i: int, x: u64)
    requires
        0 <= i <= s.len(),
    ensures
        i <= up_slot(s, i, x) <= s.len(),
        forall|k: int| i <= k < up_slot(s, i, x) ==> #[trigger] s[k] <= x,
        up_slot(s, i, x) < s.len() ==> s[up_slot(s, i, x)] > x,
    decreases s.len() - i,
{
    if i < s.len() && s[i] <= x {
        up_slot_bounds(s, i + 1, x);
    }
}

/// Ordering numbers orders them, and neither loses nor adds any.
pub proof fn ascending_orders(s: Seq<u64>)
    ensures
        ascending(s).to_multiset() == s.to_multiset(),
        ascending(s).len() == s.len(),
        forall|i: int, j: int|
            0 <= i <= j < s.len() ==> #[trigger] ascending(s)[i] <= #[trigger] ascending(s)[j],
    decreases s.len(),
{
    if s.len() > 0 {
        let rest = ascending(s.drop_last());
        ascending_orders(s.drop_last());
        up_slot_bounds(rest, 0, s.last());
        let k = up_slot(rest, 0, s.last());
        let r = ascending(s);
        assert forall|i: int| 0 <= i < r.len() implies #[trigger] r[i] == (if i < k {
            rest[i]
        } else if i == k {
            s.last()
        } else {
            rest[i - 1]
        }) by {}
        assert forall|i: int, j: int| 0 <= i <= j < s.len() implies #[trigger] r[i]
            <= #[trigger] r[j] by {
            if i <= k && j > k {
                assert(rest[k] <= rest[j - 1]);
            }
        }
        vstd::seq_lib::to_multiset_insert(rest, k, s.last());
        assert(s =~= s.drop_last().push(s.last()));
        vstd::seq_lib::to_multiset_build(s.drop_last(), s.last());
    }
}

/// The durations of samples.
pub open spec fn durations(s: Seq<SampleModel>) -> Seq<u64> {
    Seq::new(s.len(), |i: int| s[i].duration)
}

/// The duration percentiles of samples; none with fewer than five samples.
pub open spec fn percentiles(s: Seq<SampleModel>) -> Option<DurationStats> {
    if s.len() < 5 {
        None
    } else {
        let d = ascending(durations(s));
        let n = d.len() as int;
        Some(
            DurationStats {
                p50: d[percentile_position(n, 50)],
                p75: d[percentile_position(n, 75)],
                p90: d[percentile_position(n, 90)],
                p95: d[percentile_position(n, 95)],
            },
        )
    }
}

/// Percentiles go up: the median is the lowest.
pub proof fn percentiles_ascend(s: Seq<SampleModel>)
    ensures
        percentiles(s) matches Some(d) ==> d.p50 <= d.p75 <= d.p90 <= d.p95,
{
    let d = ascending(durations(s));
    ascending_orders(durations(s));
    let n = d.len() as int;
    if s.len() >= 5 {
        let a = percentile_position(n, 50);
        let b = percentile_position(n, 75);
        let c = percentile_position(n, 90);
        let e = percentile_position(n, 95);
        positions_ascend(n, 50, 75);
        positions_ascend(n, 75, 90);
        positions_ascend(n, 90, 95);
        assert(d[a] <= d[b] && d[b] <= d[c] && d[c] <= d[e]);
    }
}

/// A sample took so long.
pub open spec fn took(s: Seq<SampleModel>, d: u64) -> bool {
    exists|i: int| 0 <= i < s.len() && (#[trigger] s[i]).duration == d
}

/// The durations of the samples from low to high, in some order among equal
/// ones.
pub open spec fn orders(s: Seq<SampleModel>, order: Seq<u64>) -> bool {
    &&& order.to_multiset() == durations(s).to_multiset()
    &&& forall|i: int, j: int| 0 <= i <= j < order.len() ==> #[trigger] order[i]
        <= #[trigger] order[j]
}

/// One of the samples took so long, and among their durations from low to high
/// it stands at `p` hundredths of the way, to the nearest.
pub open spec fn is_percentile(s: Seq<SampleModel>, p: int, d: u64) -> bool {
    &&& took(s, d)
    &&& s.len() <= 1_000_000_000_000 ==> exists|order: Seq<u64>, k: int|
        #![trigger orders(s, order), order[k]]
        orders(s, order) && 0 <= k < order.len() && order[k] == d && -50 <= 100 * k - p * (
        order.len() - 1) <= 50
}

proof fn ordered_is_percentile(s: Seq<SampleModel>, p: int)
    requires
        s.len() > 0,
        0 <= p <= 100,
    ensures
        is_percentile(
            s,
            p,
            ascending(durations(s))[percentile_position(s.len() as int, p)],
        ),
{
    let d = durations(s);
    let order = ascending(d);
    ascending_orders(d);
    let n = s.len() as int;
    positions_ascend(n, p, p);
    let k = percentile_position(n, p);
    assert(orders(s, order));
    order.to_multiset_ensures();
    d.to_multiset_ensures();
    assert(order.contains(order[k]));
    assert(order.to_multiset().count(order[k]) > 0);
    assert(d.contains(order[k]));
    let i = choose|i: int| 0 <= i < d.len() && d[i] == order[k];
    assert(s[i].duration == order[k]);
    if n <= 1_000_000_000_000 {
        position_is_nearest(n, p);
    }
}

/// Percentiles are known from five samples on, and each is the duration of a
/// sample, as far up among all as its name says.
pub proof fn percentiles_stand(s: Seq<SampleModel>)
    ensures
        percentiles(s) is Some <==> s.len() >= 5,
        percentiles(s) matches Some(d) ==> is_percentile(s, 50, d.p50) && is_percentile(
            s,
            75,
            d.p75,
        ) && is_percentile(s, 90, d.p90) && is_percentile(s, 95, d.p95),
{
    if s.len() >= 5 {
        ascending_orders(durations(s));
        ordered_is_percentile(s, 50);
        ordered_is_percentile(s, 75);
        ordered_is_percentile(s, 90);
        ordered_is_percentile(s, 95);
    }
}

/// The `p`th percentile of ordered values.
pub fn percentile(sorted: &Vec<u64>, p: usize) -> (r: u64)
    requires
        sorted@.len() > 0,
    ensures
        0 <= percentile_position(sorted@.len() as int, p as int) < sorted@.len(),
        r == sorted@[percentile_position(sorted@.len() as int, p as int)],
{
    sorted[percentile_index(sorted.len(), p)]
}

/// Duration percentiles of samples. There are none with fewer than five
/// samples, since estimates are unreliable with too few data points.
pub fn compute_percentiles(samples: &Vec<CompactSample>) -> (r: Option<DurationStats>)
    ensures
        r == percentiles(compact_views(samples@)),
{
    if samples.len() < 5 {
        return None;
    }
    let ghost d = durations(compact_views(samples@));
    let mut sorted: Vec<u64> = Vec::new();
    let mut i: usize = 0;
    proof {
        assert(d.take(0) =~= Seq::<u64>::empty());
        assert(sorted@ =~= Seq::<u64>::empty());
    }
    while i < samples.len()
        invariant
            0 <= i <= samples@.len(),
            d == durations(compact_views(samples@)),
            sorted@.len() == i,
            sorted@ == ascending(d.take(i as int)),
        decreases samples@.len() - i,
    {
        let x: u64 = samples[i].2;
        let ghost prior = sorted@;
        let mut slot: usize = 0;
        while slot < sorted.len() && sorted[slot] <= x
            invariant
                0 <= slot <= sorted@.len(),
                prior == sorted@,
                up_slot(prior, 0, x) == up_slot(prior, slot as int, x),
            decreases sorted@.len() - slot,
        {
            slot = slot + 1;
        }
        proof {
            let t = d.take(i + 1);
            assert(t.drop_last() =~= d.take(i as int));
            assert(t.last() == x);
        }
        sorted.insert(slot, x);
        i = i + 1;
    }
    proof {
        assert(d.take(d.len() as int) =~= d);
    }
    Some(
        DurationStats {
            p50: percentile(&sorted, 50),
            p75: percentile(&sorted, 75),
            p90: percentile(&sorted, 90),
            p95: percentile(&sorted, 95),
        },
    )
}

/// The newest timestamp of samples, zero where there are none.
pub open spec fn newest_or_zero(s: Seq<SampleModel>) -> u64 {
    match newest_of(s, s.len() as int) {
        Some(t) => t,
        None => 0,
    }
}

/// The newest timestamp of samples, zero where there are none.
pub fn newest_timestamp(samples: &Vec<CompactSample>) -> (r: u64)
    ensures
        r == newest_or_zero(compact_views(samples@)),
{
    let ghost s = compact_views(samples@);
    let mut newest: Option<u64> = None;
    let mut i: usize = 0;
    while i < samples.len()
        invariant
            0 <= i <= samples@.len(),
            s == compact_views(samples@),
            newest == newest_of(s, i as int),
        decreases samples@.len() - i,
    {
        assert(s[i as int] == samples@[i as int]@);
        let t: u64 = samples[i].1;
        newest = match newest {
            Some(n) => if t > n {
                Some(t)
            } else {
                Some(n)
            },
            None => Some(t),
        };
        i = i + 1;
    }
    match newest {
        Some(t) => t,
        None => 0,
    }
}

/// The later of two timestamps.
pub open spec fn later(a: u64, b: u64) -> u64 {
    if a >= b {
        a
    } else {
        b
    }
}

/// The statistics of a record.
pub open spec fn stats_of(r: HistoryModel) -> StatisticsModel {
    StatisticsModel {
        test_id: r.test_id,
        config: r.config,
        total_attempts: r.total_attempts,
        total_failures: r.total_failures,
        duration: OutcomeStats { success: percentiles(r.ok), failure: percentiles(r.fail) },
        last_attempt_ms: later(newest_or_zero(r.ok), newest_or_zero(r.fail)),
        last_run_id: r.last_run,
    }
}

fn record_stats(r: &TestRecord) -> (s: TestStatistics)
    ensures
        s@ == stats_of(r@),
{
    let ok: u64 = newest_timestamp(&r.values.ok);
    let fail: u64 = newest_timestamp(&r.values.fail);
    TestStatistics {
        test_id: r.key.1.clone(),
        config: r.key.0.clone(),
        total_attempts: r.values.total_attempts,
        total_failures: r.values.total_failures,
        duration: OutcomeStats {
            success: compute_percentiles(&r.values.ok),
            failure: compute_percentiles(&r.values.fail),
        },
        last_attempt_ms: if ok >= fail {
            ok
        } else {
            fail
        },
        last_run_id: r.values.last_run.clone(),
    }
}

/// The statistics of the first `n` records that belong to a configuration.
pub open spec fn config_stats(records: Seq<HistoryModel>, config: Seq<char>, n: int) -> Seq<
    StatisticsModel,
>
    decreases n,
{
    if n <= 0 || n > records.len() {
        Seq::empty()
    } else if records[n - 1].config == config {
        config_stats(records, config, n - 1).push(stats_of(records[n - 1]))
    } else {
        config_stats(records, config, n - 1)
    }
}

/// What tests are ranked by.
#[derive(Debug, Clone, Copy, PartialEq, Eq, Structural)]
pub enum Ranking {
    /// The failure rate over all attempts.
    FailureRate,
    /// The median duration of successes.
    Duration,
}

/// The weight of a test in a ranking, as a fraction.
pub open spec fn weight(ranking: Ranking, s: StatisticsModel) -> (u64, u64) {
    match ranking {
        Ranking::FailureRate => if s.total_attempts > 0 {
            (s.total_failures, s.total_attempts)
        } else {
            (0, 1)
        },
        Ranking::Duration => match s.duration.success {
            Some(d) => (d.p50, 1),
            None => (ZERO_DURATION, 1),
        },
    }
}

/// One fraction is at least another.
pub open spec fn at_least(a: (u64, u64), b: (u64, u64)) -> bool {
    a.0 * b.1 >= b.0 * a.1
}

fn weight_of(ranking: Ranking, s: &TestStatistics) -> (r: (u64, u64))
    ensures
        r == weight(ranking, s@),
        r.1 > 0,
{
    match ranking {
        Ranking::FailureRate => if s.total_attempts > 0 {
            (s.total_failures, s.total_attempts)
        } else {
            (0, 1)
        },
        Ranking::Duration => match &s.duration.success {
            Some(d) => (d.p50, 1),
            None => (ZERO_DURATION, 1),
        },
    }
}

fn weighs_as_much(a: (u64, u64), b: (u64, u64)) -> (r: bool)
    ensures
        r == at_least(a, b),
{
    proof {
        product_fits(a.0, b.1);
        product_fits(b.0, a.1);
    }
    (a.0 as u128) * (b.1 as u128) >= (b.0 as u128) * (a.1 as u128)
}

proof fn product_fits(a: u64, b: u64)
    ensures
        0 <= a * b <= u128::MAX,
{
    assert(0 <= a * b <= 0xffff_ffff_ffff_ffff * 0xffff_ffff_ffff_ffff) by (nonlinear_arith)
        requires
            0 <= a <= 0xffff_ffff_ffff_ffff,
            0 <= b <= 0xffff_ffff_ffff_ffff,
    ;
}

proof fn at_least_transitive(a: (u64, u64), b: (u64, u64), c: (u64, u64))
    requires
        at_least(a, b),
        at_least(b, c),
        b.1 > 0,
    ensures
        at_least(a, c),
{
    let (a0, a1) = (a.0 as int, a.1 as int);
    let (b0, b1) = (b.0 as int, b.1 as int);
    let (c0, c1) = (c.0 as int, c.1 as int);
    assert(a0 * c1 >= c0 * a1) by (nonlinear_arith)
        requires
            a0 * b1 >= b0 * a1,
            b0 * c1 >= c0 * b1,
            b1 > 0,
            a0 >= 0,
            a1 >= 0,
            b0 >= 0,
            c0 >= 0,
            c1 >= 0,
    {
        assert(a0 * b1 * c1 >= b0 * a1 * c1);
        assert(b0 * c1 * a1 >= c0 * b1 * a1);
        assert(b1 * (a0 * c1) >= b1 * (c0 * a1));
    }
}

/// Statistics go down by weight.
pub open spec fn descends(ranking: Ranking, s: Seq<StatisticsModel>) -> bool {
    forall|i: int, j: int|
        0 <= i < j < s.len() ==> at_least(
            weight(ranking, #[trigger] s[i]),
            weight(ranking, #[trigger] s[j]),
        )
}

/// The listed statistics are the first `limit` of all, in an order that goes
/// down by weight.
pub open spec fn ranked(
    ranking: Ranking,
    all: Seq<StatisticsModel>,
    limit: int,
    listed: Seq<StatisticsModel>,
) -> bool {
    exists|order: Seq<StatisticsModel>| #[trigger]
        order.to_multiset() == all.to_multiset() && descends(ranking, order) && listed == order.take(
            if limit < order.len() {
                limit
            } else {
                order.len() as int
            },
        )
}

/// The first `limit` of statistics, in an order that goes down by weight.
pub fn rank(ranking: Ranking, stats: Vec<TestStatistics>, limit: usize) -> (r: Vec<TestStatistics>)
    ensures
        ranked(ranking, statistics_views(stats@), limit as int, statistics_views(r@)),
{
    let ghost all = statistics_views(stats@);
    let mut left = stats;
    let mut out: Vec<TestStatistics> = Vec::new();
    proof {
        assert(statistics_views(out@) =~= Seq::<StatisticsModel>::empty());
        assert(statistics_views(left@) + statistics_views(out@) =~= all);
    }
    while left.len() > 0
        invariant
            (statistics_views(left@) + statistics_views(out@)).to_multiset() == all.to_multiset(),
            descends(ranking, statistics_views(out@)),
        decreases left@.len(),
    {
        let ghost was_left = statistics_views(left@);
        let ghost was_out = statistics_views(out@);
        match left.pop() {
            None => {},
            Some(x) => {
                let w = weight_of(ranking, &x);
                let mut slot: usize = 0;
                while slot < out.len() && weighs_as_much(weight_of(ranking, &out[slot]), w)
                    invariant
                        0 <= slot <= out@.len(),
                        was_out == statistics_views(out@),
                        w == weight(ranking, x@),
                        forall|k: int|
                            0 <= k < slot ==> at_least(
                                weight(ranking, #[trigger] was_out[k]),
                                weight(ranking, x@),
                            ),
                    decreases out@.len() - slot,
                {
                    assert(was_out[slot as int] == out@[slot as int]@);
                    slot = slot + 1;
                }
                proof {
                    if slot < out@.len() {
                        assert(was_out[slot as int] == out@[slot as int]@);
                    }
                }
                out.insert(slot, x);
                proof {
                    let s = slot as int;
                    let now = statistics_views(out@);
                    assert(now =~= was_out.insert(s, x@));
                    descends_after_insert(ranking, was_out, s, x@);
                    assert(was_left =~= statistics_views(left@).push(x@));
                    move_keeps(statistics_views(left@), was_out, s, x@);
                }
            },
        }
    }
    proof {
        assert(statistics_views(left@) + statistics_views(out@) =~= statistics_views(out@));
    }
    let ghost order = statistics_views(out@);
    let mut kept: Vec<TestStatistics> = out;
    if limit < kept.len() {
        kept.truncate(limit);
    }
    proof {
        let n = if limit < order.len() {
            limit as int
        } else {
            order.len() as int
        };
        assert(statistics_views(kept@) =~= order.take(n));
        assert(order.to_multiset() == all.to_multiset());
    }
    kept
}

proof fn move_keeps(left: Seq<StatisticsModel>, out: Seq<StatisticsModel>, s: int, x: StatisticsModel)
    requires
        0 <= s <= out.len(),
    ensures
        (left + out.insert(s, x)).to_multiset() == (left.push(x) + out).to_multiset(),
{
    vstd::seq_lib::to_multiset_insert(left + out, left.len() + s, x);
    vstd::seq_lib::to_multiset_insert(left + out, left.len() as int, x);
    assert(left + out.insert(s, x) =~= (left + out).insert(left.len() + s, x));
    assert(left.push(x) + out =~= (left + out).insert(left.len() as int, x));
}

proof fn descends_after_insert(
    ranking: Ranking,
    out: Seq<StatisticsModel>,
    s: int,
    x: StatisticsModel,
)
    requires
        0 <= s <= out.len(),
        descends(ranking, out),
        forall|k: int|
            0 <= k < s ==> at_least(weight(ranking, #[trigger] out[k]), weight(ranking, x)),
        s < out.len() ==> !at_least(weight(ranking, out[s]), weight(ranking, x)),
    ensures
        descends(ranking, out.insert(s, x)),
{
    let now = out.insert(s, x);
    assert forall|k: int| 0 <= k < now.len() implies #[trigger] now[k] == (if k < s {
        out[k]
    } else if k == s {
        x
    } else {
        out[k - 1]
    }) by {}
    assert forall|i: int, j: int| 0 <= i < j < now.len() implies at_least(
        weight(ranking, #[trigger] now[i]),
        weight(ranking, #[trigger] now[j]),
    ) by {
        if i < s && j < s {
            assert(at_least(weight(ranking, out[i]), weight(ranking, out[j])));
        } else if i < s && j > s {
            assert(at_least(weight(ranking, out[i]), weight(ranking, out[j - 1])));
        } else if i > s {
            assert(at_least(weight(ranking, out[i - 1]), weight(ranking, out[j - 1])));
        } else if i == s {
            assert(at_least(weight(ranking, x), weight(ranking, out[s])));
            if j - 1 > s {
                assert(at_least(weight(ranking, out[s]), weight(ranking, out[j - 1])));
                at_least_transitive(
                    weight(ranking, x),
                    weight(ranking, out[s]),
                    weight(ranking, out[j - 1]),
                );
            }
        }
    }
}

/// Statistics are listed one behind the other: `a` not behind `b`.
pub open spec fn listed_before(
    listed: Seq<StatisticsModel>,
    a: StatisticsModel,
    b: StatisticsModel,
) -> bool {
    exists|i: int, j: int| 0 <= i < j < listed.len() && #[trigger] listed[i] == a && #[trigger] listed[j] == b
}

/// Of two listed tests the one in front fails no smaller part of its attempts;
/// and a test that is not listed fails no greater part than those that are.
pub proof fn flakiest_come_first(
    all: Seq<StatisticsModel>,
    limit: int,
    listed: Seq<StatisticsModel>,
    a: StatisticsModel,
    b: StatisticsModel,
)
    requires
        ranked(Ranking::FailureRate, all, limit, listed),
        0 <= limit,
        a.total_attempts > 0,
        b.total_attempts > 0,
        listed_before(listed, a, b) || (listed.contains(a) && all.contains(b) && !listed.contains(
            b,
        )),
    ensures
        a.total_failures * b.total_attempts >= b.total_failures * a.total_attempts,
{
    ranked_in_front(Ranking::FailureRate, all, limit, listed, a, b);
}

/// Of two listed tests the one in front took no shorter at the median of its
/// successes; and a test that is not listed took no longer than those that are.
pub proof fn slowest_come_first(
    all: Seq<StatisticsModel>,
    limit: int,
    listed: Seq<StatisticsModel>,
    a: StatisticsModel,
    b: StatisticsModel,
)
    requires
        ranked(Ranking::Duration, all, limit, listed),
        0 <= limit,
        a.duration.success is Some,
        b.duration.success is Some,
        listed_before(listed, a, b) || (listed.contains(a) && all.contains(b) && !listed.contains(
            b,
        )),
    ensures
        a.duration.success->Some_0.p50 >= b.duration.success->Some_0.p50,
{
    ranked_in_front(Ranking::Duration, all, limit, listed, a, b);
    let (x, y) = (a.duration.success->Some_0.p50, b.duration.success->Some_0.p50);
    let (v, w) = (weight(Ranking::Duration, a), weight(Ranking::Duration, b));
    assert(x >= y) by (nonlinear_arith)
        requires
            v.0 * w.1 >= w.0 * v.1,
            v == (x, 1u64),
            w == (y, 1u64),
    ;
}

proof fn ranked_in_front(
    ranking: Ranking,
    all: Seq<StatisticsModel>,
    limit: int,
    listed: Seq<StatisticsModel>,
    a: StatisticsModel,
    b: StatisticsModel,
)
    requires
        ranked(ranking, all, limit, listed),
        0 <= limit,
        listed_before(listed, a, b) || (listed.contains(a) && all.contains(b) && !listed.contains(
            b,
        )),
    ensures
        at_least(weight(ranking, a), weight(ranking, b)),
{
    let order = choose|order: Seq<StatisticsModel>| #[trigger]
        order.to_multiset() == all.to_multiset() && descends(ranking, order) && listed == order.take(
            if limit < order.len() {
                limit
            } else {
                order.len() as int
            },
        );
    if listed_before(listed, a, b) {
        let (i, j) = choose|i: int, j: int|
            0 <= i < j < listed.len() && #[trigger] listed[i] == a && #[trigger] listed[j] == b;
        assert(order[i] == a && order[j] == b);
    } else {
        let i = choose|i: int| 0 <= i < listed.len() && listed[i] == a;
        all.to_multiset_ensures();
        order.to_multiset_ensures();
        assert(all.to_multiset().count(b) > 0);
        assert(order.contains(b));
        let j = choose|j: int| 0 <= j < order.len() && order[j] == b;
        if j < listed.len() {
            assert(listed[j] == b);
        }
        assert(order[i] == a);
        assert(i < j);
    }
}

/// A ranking lists statistics of the given ones only, as many as asked for or
/// as there are.
pub proof fn ranking_lists_given(
    ranking: Ranking,
    all: Seq<StatisticsModel>,
    limit: int,
    listed: Seq<StatisticsModel>,
    i: int,
)
    requires
        ranked(ranking, all, limit, listed),
        0 <= limit,
    ensures
        listed.len() == (if limit < all.len() {
            limit
        } else {
            all.len() as int
        }),
        0 <= i < listed.len() ==> all.contains(listed[i]),
{
    let order = choose|order: Seq<StatisticsModel>| #[trigger]
        order.to_multiset() == all.to_multiset() && descends(ranking, order) && listed == order.take(
            if limit < order.len() {
                limit
            } else {
                order.len() as int
            },
        );
    all.to_multiset_ensures();
    order.to_multiset_ensures();
    assert(order.len() == all.len());
    if 0 <= i < listed.len() {
        assert(order[i] == listed[i]);
        assert(order.contains(listed[i]));
        assert(order.to_multiset().count(listed[i]) > 0);
    }
}

/// The statistics of a record tell its counters and its last run, when it was
/// last tried, and how long its successes and its failures took.
pub proof fn statistics_tell_record(r: HistoryModel)
    ensures
        ({
            let s = stats_of(r);
            &&& s.test_id == r.test_id && s.config == r.config
            &&& s.total_attempts == r.total_attempts && s.total_failures == r.total_failures
            &&& s.last_run_id == r.last_run
            &&& s.duration.success is Some <==> r.ok.len() >= 5
            &&& s.duration.failure is Some <==> r.fail.len() >= 5
            &&& s.duration.success matches Some(d) ==> is_percentile(r.ok, 50, d.p50)
                && is_percentile(r.ok, 75, d.p75) && is_percentile(r.ok, 90, d.p90)
                && is_percentile(r.ok, 95, d.p95)
            &&& s.duration.failure matches Some(d) ==> is_percentile(r.fail, 50, d.p50)
                && is_percentile(r.fail, 75, d.p75) && is_percentile(r.fail, 90, d.p90)
                && is_percentile(r.fail, 95, d.p95)
            &&& forall|i: int|
                0 <= i < r.ok.len() ==> (#[trigger] r.ok[i]).timestamp_ms <= s.last_attempt_ms
            &&& forall|i: int|
                0 <= i < r.fail.len() ==> (#[trigger] r.fail[i]).timestamp_ms <= s.last_attempt_ms
            &&& s.last_attempt_ms > 0 ==> has_time(r.ok, s.last_attempt_ms) || has_time(
                r.fail,
                s.last_attempt_ms,
            )
        }),
{
    percentiles_stand(r.ok);
    percentiles_stand(r.fail);
    newest_is_newest(r.ok, r.ok.len() as int);
    newest_is_newest(r.fail, r.fail.len() as int);
}

/// The statistics of a configuration are those of its records and of no
/// others.
pub proof fn statistics_of_configuration(
    records: Seq<HistoryModel>,
    config: Seq<char>,
    n: int,
    s: StatisticsModel,
)
    requires
        0 <= n <= records.len(),
    ensures
        config_stats(records, config, n).contains(s) <==> exists|i: int|
            0 <= i < n && (#[trigger] records[i]).config == config && stats_of(records[i]) == s,
    decreases n,
{
    let all = config_stats(records, config, n);
    if n > 0 {
        statistics_of_configuration(records, config, n - 1, s);
        let rest = config_stats(records, config, n - 1);
        if rest.contains(s) {
            let k = choose|k: int| 0 <= k < rest.len() && rest[k] == s;
            assert(all[k] == s);
        }
        if records[n - 1].config == config && stats_of(records[n - 1]) == s {
            assert(all[rest.len() as int] == s);
        }
        if all.contains(s) {
            let k = choose|k: int| 0 <= k < all.len() && all[k] == s;
            if k < rest.len() {
                assert(rest[k] == s);
            }
        }
    }
}

/// The greatest run id among the first `n` records of a configuration.
pub open spec fn latest_run(records: Seq<HistoryModel>, config: Seq<char>, n: int) -> Option<
    Seq<char>,
>
    decreases n,
{
    if n <= 0 || n > records.len() {
        None
    } else {
        let rest = latest_run(records, config, n - 1);
        if records[n - 1].config != config {
            rest
        } else {
            match rest {
                Some(run) => if before(records[n - 1].last_run, run) {
                    Some(run)
                } else {
                    Some(records[n - 1].last_run)
                },
                None => Some(records[n - 1].last_run),
            }
        }
    }
}

/// A sample of the run is there.
pub open spec fn has_run(s: Seq<SampleModel>, run: Seq<char>) -> bool {
    exists|i: int| 0 <= i < s.len() && (#[trigger] s[i]).run_id == run
}

/// The tests, among the first `n` records of a configuration, that have a
/// failure in the run.
pub open spec fn failures_in(
    records: Seq<HistoryModel>,
    config: Seq<char>,
    run: Seq<char>,
    n: int,
) -> Seq<Seq<char>>
    decreases n,
{
    if n <= 0 || n > records.len() {
        Seq::empty()
    } else {
        let rest = failures_in(records, config, run, n - 1);
        if records[n - 1].config == config && has_run(records[n - 1].fail, run) {
            rest.push(records[n - 1].test_id)
        } else {
            rest
        }
    }
}

fn fails_in(samples: &Vec<CompactSample>, run: &str) -> (b: bool)
    ensures
        b == has_run(compact_views(samples@), run@),
{
    let ghost s = compact_views(samples@);
    let mut i: usize = 0;
    while i < samples.len()
        invariant
            0 <= i <= samples@.len(),
            s == compact_views(samples@),
            forall|k: int| 0 <= k < i ==> (#[trigger] s[k]).run_id != run@,
        decreases samples@.len() - i,
    {
        assert(s[i as int] == samples@[i as int]@);
        if text::same(samples[i].0.as_str(), run) {
            return true;
        }
        i = i + 1;
    }
    false
}

/// A run of a configuration is not later than another: run ids are ordered as
/// text.
pub open spec fn no_later(run: Seq<char>, last: Seq<char>) -> bool {
    !before(last, run)
}

proof fn latest_run_is_latest(records: Seq<HistoryModel>, config: Seq<char>, n: int)
    requires
        0 <= n <= records.len(),
    ensures
        match latest_run(records, config, n) {
            Some(run) => (exists|i: int|
                0 <= i < n && (#[trigger] records[i]).config == config && records[i].last_run
                    == run) && forall|i: int|
                0 <= i < n && (#[trigger] records[i]).config == config ==> no_later(
                    records[i].last_run,
                    run,
                ),
            None => forall|i: int| 0 <= i < n ==> (#[trigger] records[i]).config != config,
        },
    decreases n,
{
    if n > 0 {
        latest_run_is_latest(records, config, n - 1);
        let r = records[n - 1];
        if r.config == config {
            text::before_irreflexive(r.last_run);
            match latest_run(records, config, n - 1) {
                Some(run) => {
                    let k = choose|k: int|
                        0 <= k < n - 1 && (#[trigger] records[k]).config == config
                            && records[k].last_run == run;
                    assert(records[k].last_run == run);
                    if before(r.last_run, run) {
                        if before(run, r.last_run) {
                            text::before_transitive(r.last_run, run, r.last_run);
                        }
                    } else {
                        assert forall|i: int|
                            0 <= i < n && (#[trigger] records[i]).config == config implies no_later(
                            records[i].last_run,
                            r.last_run,
                        ) by {
                            if i < n - 1 {
                                let x = records[i].last_run;
                                assert(no_later(x, run));
                                if before(r.last_run, x) {
                                    text::before_total(run, r.last_run);
                                    if before(run, r.last_run) {
                                        text::before_transitive(run, r.last_run, x);
                                    }
                                }
                            }
                        }
                        assert(records[n - 1].last_run == r.last_run);
                    }
                },
                None => {
                    assert(records[n - 1].last_run == r.last_run);
                },
            }
        }
    }
}

/// The failures in a run are the tests of the configuration that have a failed
/// sample of it.
pub proof fn failures_are_those_of_run(
    records: Seq<HistoryModel>,
    config: Seq<char>,
    run: Seq<char>,
    n: int,
    id: Seq<char>,
)
    requires
        0 <= n <= records.len(),
    ensures
        failures_in(records, config, run, n).contains(id) <==> exists|i: int, k: int|
            0 <= i < n && records[i].config == config && records[i].test_id == id && 0 <= k
                < records[i].fail.len() && (#[trigger] records[i].fail[k]).run_id == run,
    decreases n,
{
    let all = failures_in(records, config, run, n);
    if n > 0 {
        failures_are_those_of_run(records, config, run, n - 1, id);
        let rest = failures_in(records, config, run, n - 1);
        let r = records[n - 1];
        if rest.contains(id) {
            let k = choose|k: int| 0 <= k < rest.len() && rest[k] == id;
            assert(all[k] == id);
        }
        if r.config == config && has_run(r.fail, run) && r.test_id == id {
            assert(all[rest.len() as int] == id);
            let k = choose|k: int| 0 <= k < r.fail.len() && (#[trigger] r.fail[k]).run_id == run;
            assert(records[n - 1].fail[k].run_id == run);
        }
        if all.contains(id) {
            let k = choose|k: int| 0 <= k < all.len() && all[k] == id;
            if k < rest.len() {
                assert(rest[k] == id);
            }
        }
        if exists|i: int, k: int|
            0 <= i < n && records[i].config == config && records[i].test_id == id && 0 <= k
                < records[i].fail.len() && (#[trigger] records[i].fail[k]).run_id == run {
            let (i, k) = choose|i: int, k: int|
                0 <= i < n && records[i].config == config && records[i].test_id == id && 0 <= k
                    < records[i].fail.len() && (#[trigger] records[i].fail[k]).run_id == run;
            if i == n - 1 {
                assert(has_run(r.fail, run));
            } else {
                assert(records[i].fail[k].run_id == run);
            }
        }
    }
}

/// The failures of the last run are the tests of the configuration with a
/// failed sample of the latest run that any of its tests had.
pub open spec fn failed_in_last_run(
    records: Seq<HistoryModel>,
    config: Seq<char>,
    ids: Seq<Seq<char>>,
) -> bool {
    ||| ids.len() == 0 && forall|i: int|
        0 <= i < records.len() ==> (#[trigger] records[i]).config != config
    ||| exists|last: int|
        {
            &&& 0 <= last < records.len()
            &&& (#[trigger] records[last]).config == config
            &&& forall|i: int|
                0 <= i < records.len() && (#[trigger] records[i]).config == config ==> no_later(
                    records[i].last_run,
                    records[last].last_run,
                )
            &&& forall|id: Seq<char>|
                #[trigger] ids.contains(id) <==> exists|i: int, k: int|
                    0 <= i < records.len() && records[i].config == config && records[i].test_id
                        == id && 0 <= k < records[i].fail.len() && (
                    #[trigger] records[i].fail[k]).run_id == records[last].last_run
        }
}

proof fn last_failures_hold(records: Seq<HistoryModel>, config: Seq<char>)
    ensures
        failed_in_last_run(
            records,
            config,
            match latest_run(records, config, records.len() as int) {
                Some(run) => failures_in(records, config, run, records.len() as int),
                None => Seq::empty(),
            },
        ),
{
    let n = records.len() as int;
    latest_run_is_latest(records, config, n);
    match latest_run(records, config, n) {
        Some(run) => {
            let last = choose|i: int|
                0 <= i < n && (#[trigger] records[i]).config == config && records[i].last_run
                    == run;
            let ids = failures_in(records, config, run, n);
            assert forall|id: Seq<char>| #[trigger] ids.contains(id) <==> exists|i: int, k: int|
                0 <= i < records.len() && records[i].config == config && records[i].test_id == id
                    && 0 <= k < records[i].fail.len() && (#[trigger] records[i].fail[k]).run_id
                    == records[last].last_run by {
                failures_are_those_of_run(records, config, run, n, id);
            }
        },
        None => {},
    }
}

/// The median-to-high durations of successes among statistics.
pub open spec fn success_durations(stats: Seq<StatisticsModel>, n: int) -> Seq<u64>
    decreases n,
{
    if n <= 0 || n > stats.len() {
        Seq::empty()
    } else {
        match stats[n - 1].duration.success {
            Some(d) => success_durations(stats, n - 1).push(d.p75),
            None => success_durations(stats, n - 1),
        }
    }
}

/// What is expected of a test's duration: by its own history, else by that of
/// its configuration, else the default.
pub open spec fn expects(
    records: Seq<HistoryModel>,
    config: Seq<char>,
    test_id: Seq<char>,
    r: ExpectedDuration,
) -> bool {
    let own = match lookup(records, config, test_id) {
        Some(h) => (percentiles(h.ok), percentiles(h.fail)),
        None => (None, None),
    };
    let stats = config_stats(records, config, records.len() as int);
    let others = success_durations(stats, stats.len() as int);
    match own {
        (Some(ok), Some(fail)) => {
            let h = lookup(records, config, test_id)->Some_0;
            r == (ExpectedDuration::Weighted {
                ok: ok.p75,
                fail: fail.p75,
                failures: h.total_failures,
                attempts: h.total_attempts,
            })
        },
        (Some(ok), None) => r == (ExpectedDuration::Known { duration: ok.p75 }),
        (None, Some(fail)) => r == (ExpectedDuration::Known { duration: fail.p75 }),
        (None, None) => if others.len() > 0 {
            r matches ExpectedDuration::Average { durations } && durations@ == others
        } else {
            r is Default
        },
    }
}

/// A record of the configuration has enough successes to tell how long its
/// test takes.
pub open spec fn tells(records: Seq<HistoryModel>, config: Seq<char>, i: int) -> bool {
    0 <= i < records.len() && records[i].config == config && records[i].ok.len() >= 5
}

/// `at` lists the records below `n` that tell how long their tests take, in
/// order, and `d` how long those are.
pub open spec fn told(
    records: Seq<HistoryModel>,
    config: Seq<char>,
    n: int,
    at: Seq<int>,
    d: Seq<u64>,
) -> bool {
    &&& at.len() == d.len()
    &&& forall|k: int| 0 <= k < at.len() ==> (#[trigger] at[k]) < n && tells(records, config, at[k])
    &&& forall|k: int, l: int| 0 <= k < l < at.len() ==> (#[trigger] at[k]) < (#[trigger] at[l])
    &&& forall|i: int|
        i < n && #[trigger] tells(records, config, i) ==> exists|k: int|
            0 <= k < at.len() && #[trigger] at[k] == i
    &&& forall|k: int|
        0 <= k < d.len() ==> is_percentile(records[at[k]].ok, 75, #[trigger] d[k])
}

/// What the history says of a test's duration. With five successes and five
/// failures of the test itself, both count, each with the share of attempts
/// that it has; with five of one outcome, those. Without, the tests of the
/// configuration with five successes count, each once.
pub open spec fn follows_history(
    records: Seq<HistoryModel>,
    config: Seq<char>,
    test_id: Seq<char>,
    r: ExpectedDuration,
) -> bool {
    let own = lookup(records, config, test_id);
    if own matches Some(h) && h.ok.len() >= 5 && h.fail.len() >= 5 {
        let h = own->Some_0;
        &&& r matches ExpectedDuration::Weighted { ok, fail, failures, attempts }
        &&& is_percentile(h.ok, 75, ok)
        &&& is_percentile(h.fail, 75, fail)
        &&& failures == h.total_failures
        &&& attempts == h.total_attempts
    } else if own matches Some(h) && h.ok.len() >= 5 {
        r matches ExpectedDuration::Known { duration } && is_percentile(
            own->Some_0.ok,
            75,
            duration,
        )
    } else if own matches Some(h) && h.fail.len() >= 5 {
        r matches ExpectedDuration::Known { duration } && is_percentile(
            own->Some_0.fail,
            75,
            duration,
        )
    } else if exists|i: int| #[trigger] tells(records, config, i) {
        r matches ExpectedDuration::Average { durations } && exists|at: Seq<int>| #[trigger]
            told(records, config, records.len() as int, at, durations@)
    } else {
        r is Default
    }
}

proof fn others_are_told(records: Seq<HistoryModel>, config: Seq<char>, n: int) -> (at: Seq<int>)
    requires
        0 <= n <= records.len(),
    ensures
        ({
            let stats = config_stats(records, config, n);
            told(records, config, n, at, success_durations(stats, stats.len() as int))
        }),
    decreases n,
{
    let stats = config_stats(records, config, n);
    let d = success_durations(stats, stats.len() as int);
    if n == 0 {
        Seq::empty()
    } else {
        let rest = others_are_told(records, config, n - 1);
        let before = config_stats(records, config, n - 1);
        let r = records[n - 1];
        percentiles_stand(r.ok);
        let was = success_durations(before, before.len() as int);
        if r.config == config {
            assert(stats.drop_last() =~= before);
            success_durations_prefix(stats, before, before.len() as int);
        }
        if tells(records, config, n - 1) {
            let at = rest.push(n - 1);
            assert(d == was.push(percentiles(r.ok)->Some_0.p75));
            assert forall|i: int| i < n && #[trigger] tells(records, config, i) implies exists|k: int|
                0 <= k < at.len() && #[trigger] at[k] == i by {
                if i == n - 1 {
                    assert(at[rest.len() as int] == i);
                } else {
                    let k = choose|k: int| 0 <= k < rest.len() && #[trigger] rest[k] == i;
                    assert(at[k] == i);
                }
            }
            assert forall|k: int| 0 <= k < d.len() implies is_percentile(
                records[at[k]].ok,
                75,
                #[trigger] d[k],
            ) by {
                if k < was.len() {
                    assert(d[k] == was[k] && at[k] == rest[k]);
                }
            }
            at
        } else {
            assert(d == was);
            rest
        }
    }
}

proof fn success_durations_prefix(a: Seq<StatisticsModel>, b: Seq<StatisticsModel>, n: int)
    requires
        0 <= n <= b.len() <= a.len(),
        a.take(b.len() as int) == b,
    ensures
        success_durations(a, n) == success_durations(b, n),
    decreases n,
{
    if n > 0 {
        success_durations_prefix(a, b, n - 1);
        assert(a.take(b.len() as int)[n - 1] == a[n - 1]);
    }
}

/// What is expected of a test's duration follows its history.
pub proof fn expectation_follows_history(
    records: Seq<HistoryModel>,
    config: Seq<char>,
    test_id: Seq<char>,
    r: ExpectedDuration,
)
    requires
        expects(records, config, test_id, r),
    ensures
        follows_history(records, config, test_id, r),
{
    match lookup(records, config, test_id) {
        Some(h) => {
            percentiles_stand(h.ok);
            percentiles_stand(h.fail);
        },
        None => {},
    }
    let stats = config_stats(records, config, records.len() as int);
    let others = success_durations(stats, stats.len() as int);
    let at = others_are_told(records, config, records.len() as int);
    if exists|i: int| #[trigger] tells(records, config, i) {
        let i = choose|i: int| #[trigger] tells(records, config, i);
        let k = choose|k: int| 0 <= k < at.len() && #[trigger] at[k] == i;
        assert(others.len() > 0);
    } else if others.len() > 0 {
        assert(tells(records, config, at[0]));
    }
}

/// Where all successes of a test took as long as each other, and all failures
/// too, just these durations are expected.
pub proof fn steady_durations_are_expected(
    records: Seq<HistoryModel>,
    config: Seq<char>,
    test_id: Seq<char>,
    r: ExpectedDuration,
    a: u64,
    b: u64,
)
    requires
        expects(records, config, test_id, r),
        lookup(records, config, test_id) matches Some(h) && h.ok.len() >= 5 && h.fail.len() >= 5
            && (forall|i: int| 0 <= i < h.ok.len() ==> (#[trigger] h.ok[i]).duration == a) && (
        forall|i: int| 0 <= i < h.fail.len() ==> (#[trigger] h.fail[i]).duration == b),
    ensures
        r matches ExpectedDuration::Weighted { ok, fail, .. } && ok == a && fail == b,
{
    expectation_follows_history(records, config, test_id, r);
}

/// The record of a test without attempts.
pub open spec fn fresh(config: Seq<char>, test_id: Seq<char>) -> HistoryModel {
    HistoryModel {
        config,
        test_id,
        total_attempts: 0,
        total_failures: 0,
        last_run: Seq::empty(),
        ok: Seq::empty(),
        fail: Seq::empty(),
    }
}

/// The sample of an attempt.
pub open spec fn attempt_sample(a: TestAttemptResult) -> SampleModel {
    SampleModel { run_id: a.run_id@, timestamp_ms: a.timestamp_ms, duration: a.duration }
}

/// Samples after one more, in a reservoir of the given capacity.
pub open spec fn sampled(
    s: Seq<SampleModel>,
    capacity: nat,
    sample: SampleModel,
    keys: SampleKeys,
) -> Seq<SampleModel> {
    inserted(
        inserted_all(Seq::empty(), capacity, s, s.len() as int, keys),
        capacity,
        sample,
        keys,
    )
}

/// A record after one more attempt: it counts, and its sample joins those of
/// its outcome.
pub open spec fn attempted(
    r: HistoryModel,
    a: TestAttemptResult,
    capacity: nat,
    keys: SampleKeys,
) -> HistoryModel {
    HistoryModel {
        config: r.config,
        test_id: r.test_id,
        total_attempts: (r.total_attempts + 1) as u64,
        total_failures: if a.passed {
            r.total_failures
        } else {
            (r.total_failures + 1) as u64
        },
        last_run: a.run_id@,
        ok: if a.passed {
            sampled(r.ok, capacity, attempt_sample(a), keys)
        } else {
            r.ok
        },
        fail: if a.passed {
            r.fail
        } else {
            sampled(r.fail, capacity, attempt_sample(a), keys)
        },
    }
}

/// The records after one more attempt.
pub open spec fn recorded(
    records: Seq<HistoryModel>,
    a: TestAttemptResult,
    capacity: nat,
    keys: SampleKeys,
) -> Seq<HistoryModel> {
    let r = match lookup(records, a.config@, a.test_id@) {
        Some(r) => r,
        None => fresh(a.config@, a.test_id@),
    };
    put(records, attempted(r, a, capacity, keys))
}

/// The records after the first `n` attempts.
pub open spec fn recorded_all(
    records: Seq<HistoryModel>,
    attempts: Seq<TestAttemptResult>,
    n: int,
    capacity: nat,
    keys: SampleKeys,
) -> Seq<HistoryModel>
    decreases n,
{
    if n <= 0 || n > attempts.len() {
        records
    } else {
        recorded(
            recorded_all(records, attempts, n - 1, capacity, keys),
            attempts[n - 1],
            capacity,
            keys,
        )
    }
}

/// The attempt is on the test under the configuration.
pub open spec fn is_on(a: TestAttemptResult, config: Seq<char>, test_id: Seq<char>) -> bool {
    a.config@ == config && a.test_id@ == test_id
}

/// The number of attempts on a test among the first `n`.
pub open spec fn attempts_on(
    attempts: Seq<TestAttemptResult>,
    n: int,
    config: Seq<char>,
    test_id: Seq<char>,
) -> nat
    decreases n,
{
    if n <= 0 || n > attempts.len() {
        0
    } else {
        attempts_on(attempts, n - 1, config, test_id) + (if is_on(
            attempts[n - 1],
            config,
            test_id,
        ) {
            1nat
        } else {
            0nat
        })
    }
}

/// The number of failed attempts on a test among the first `n`.
pub open spec fn failures_on(
    attempts: Seq<TestAttemptResult>,
    n: int,
    config: Seq<char>,
    test_id: Seq<char>,
) -> nat
    decreases n,
{
    if n <= 0 || n > attempts.len() {
        0
    } else {
        failures_on(attempts, n - 1, config, test_id) + (if is_on(
            attempts[n - 1],
            config,
            test_id,
        ) && !attempts[n - 1].passed {
            1nat
        } else {
            0nat
        })
    }
}

/// The run of the last attempt on a test among the first `n`.
pub open spec fn last_run_on(
    attempts: Seq<TestAttemptResult>,
    n: int,
    config: Seq<char>,
    test_id: Seq<char>,
) -> Option<Seq<char>>
    decreases n,
{
    if n <= 0 || n > attempts.len() {
        None
    } else if is_on(attempts[n - 1], config, test_id) {
        Some(attempts[n - 1].run_id@)
    } else {
        last_run_on(attempts, n - 1, config, test_id)
    }
}

/// The counters of a record, zero where there is none.
pub open spec fn counters(r: Option<HistoryModel>) -> (u64, u64) {
    match r {
        Some(r) => (r.total_attempts, r.total_failures),
        None => (0, 0),
    }
}

/// The counters of a test's record have room for the first `n` attempts, as
/// far as they are on that test.
pub open spec fn counters_fit(
    records: Seq<HistoryModel>,
    attempts: Seq<TestAttemptResult>,
    n: int,
    config: Seq<char>,
    test_id: Seq<char>,
) -> bool {
    let was = counters(lookup(records, config, test_id));
    &&& was.0 + attempts_on(attempts, n, config, test_id) <= u64::MAX
    &&& was.1 + failures_on(attempts, n, config, test_id) <= u64::MAX
}

/// Recording an attempt adds one to the test's attempts, and to its failures
/// where it failed; the records of other tests stay as they are.
pub proof fn recording_counts(
    records: Seq<HistoryModel>,
    a: TestAttemptResult,
    capacity: nat,
    keys: SampleKeys,
    config: Seq<char>,
    test_id: Seq<char>,
)
    requires
        distinct(records),
        is_on(a, config, test_id) ==> counters(lookup(records, config, test_id)).0 < u64::MAX && (
        !a.passed ==> counters(lookup(records, config, test_id)).1 < u64::MAX),
    ensures
        distinct(recorded(records, a, capacity, keys)),
        ({
            let now = lookup(recorded(records, a, capacity, keys), config, test_id);
            let was = lookup(records, config, test_id);
            if is_on(a, config, test_id) {
                now matches Some(r) && r.total_attempts == counters(was).0 + 1 && r.total_failures
                    == counters(was).1 + (if a.passed {
                    0int
                } else {
                    1int
                }) && r.last_run == a.run_id@
            } else {
                now == was
            }
        }),
{
    position_is_first(records, a.config@, a.test_id@, 0);
    position_is_first(records, config, test_id, 0);
    let r = match lookup(records, a.config@, a.test_id@) {
        Some(r) => r,
        None => fresh(a.config@, a.test_id@),
    };
    lookup_after_put(records, attempted(r, a, capacity, keys), config, test_id);
}

/// Recording an attempt adds its sample to those of its outcome, where there is
/// room, and leaves those of the other outcome as they are.
pub proof fn recording_samples(
    records: Seq<HistoryModel>,
    a: TestAttemptResult,
    capacity: nat,
    keys: SampleKeys,
)
    requires
        distinct(records),
        capacity > 0,
    ensures
        ({
            let was = lookup(records, a.config@, a.test_id@);
            let ok = match was {
                Some(r) => r.ok,
                None => Seq::empty(),
            };
            let fail = match was {
                Some(r) => r.fail,
                None => Seq::empty(),
            };
            let sample = SampleModel {
                run_id: a.run_id@,
                timestamp_ms: a.timestamp_ms,
                duration: a.duration,
            };
            lookup(recorded(records, a, capacity, keys), a.config@, a.test_id@) matches Some(now)
                && {
                &&& a.passed ==> now.fail == fail && (ok.len() < capacity ==> now.ok == ok.push(
                    sample,
                ))
                &&& !a.passed ==> now.ok == ok && (fail.len() < capacity ==> now.fail
                    == fail.push(sample))
                &&& ok.len() <= capacity && fail.len() <= capacity ==> now.ok.len() <= capacity
                    && now.fail.len() <= capacity
            }
        }),
{
    position_is_first(records, a.config@, a.test_id@, 0);
    let r = match lookup(records, a.config@, a.test_id@) {
        Some(r) => r,
        None => fresh(a.config@, a.test_id@),
    };
    lookup_after_put(records, attempted(r, a, capacity, keys), a.config@, a.test_id@);
    inserting_all_is_bounded(capacity, r.ok, r.ok.len() as int, keys);
    inserting_all_is_bounded(capacity, r.fail, r.fail.len() as int, keys);
    assert(r.ok.take(r.ok.len() as int) =~= r.ok);
    assert(r.fail.take(r.fail.len() as int) =~= r.fail);
    let none = Seq::<SampleModel>::empty();
    insert_is_bounded(
        inserted_all(none, capacity, r.ok, r.ok.len() as int, keys),
        capacity,
        attempt_sample(a),
        keys,
    );
    insert_is_bounded(
        inserted_all(none, capacity, r.fail, r.fail.len() as int, keys),
        capacity,
        attempt_sample(a),
        keys,
    );
}

/// Recording attempts adds to a test's counters what was tried and what failed
/// of it, whatever else is recorded, and keeps the run of its last attempt. A
/// test without an attempt keeps its record.
pub proof fn recording_all_counts(
    records: Seq<HistoryModel>,
    attempts: Seq<TestAttemptResult>,
    n: int,
    capacity: nat,
    keys: SampleKeys,
    config: Seq<char>,
    test_id: Seq<char>,
)
    requires
        distinct(records),
        0 <= n <= attempts.len(),
        counters_fit(records, attempts, n, config, test_id),
    ensures
        distinct(recorded_all(records, attempts, n, capacity, keys)),
        ({
            let now = lookup(
                recorded_all(records, attempts, n, capacity, keys),
                config,
                test_id,
            );
            let was = lookup(records, config, test_id);
            match last_run_on(attempts, n, config, test_id) {
                Some(run) => now matches Some(r) && r.last_run == run && r.total_attempts
                    == counters(was).0 + attempts_on(attempts, n, config, test_id)
                    && r.total_failures == counters(was).1 + failures_on(
                    attempts,
                    n,
                    config,
                    test_id,
                ),
                None => now == was && attempts_on(attempts, n, config, test_id) == 0
                    && failures_on(attempts, n, config, test_id) == 0,
            }
        }),
    decreases n,
{
    if n > 0 {
        recording_all_counts(records, attempts, n - 1, capacity, keys, config, test_id);
        recording_counts(
            recorded_all(records, attempts, n - 1, capacity, keys),
            attempts[n - 1],
            capacity,
            keys,
            config,
            test_id,
        );
    }
}

proof fn attempts_on_grow(
    attempts: Seq<TestAttemptResult>,
    i: int,
    n: int,
    config: Seq<char>,
    test_id: Seq<char>,
)
    requires
        0 <= i <= n <= attempts.len(),
    ensures
        attempts_on(attempts, i, config, test_id) <= attempts_on(attempts, n, config, test_id),
        failures_on(attempts, i, config, test_id) <= failures_on(attempts, n, config, test_id),
        failures_on(attempts, n, config, test_id) <= attempts_on(attempts, n, config, test_id) <= n,
    decreases n,
{
    if i < n {
        attempts_on_grow(attempts, i, n - 1, config, test_id);
    } else if n > 0 {
        attempts_on_grow(attempts, i - 1, n - 1, config, test_id);
    }
}

/// A reservoir with the given samples inserted in turn.
pub fn reservoir_of(samples: &Vec<CompactSample>, capacity: usize, keys: &SampleKeys) -> (r:
    WeightedReservoir)
    requires
        capacity > 0 || samples@.len() == 0,
    ensures
        r.well_formed(),
        r.room() == capacity,
        r.content() == inserted_all(
            Seq::empty(),
            capacity as nat,
            compact_views(samples@),
            samples@.len() as int,
            *keys,
        ),
{
    let ghost s = compact_views(samples@);
    let mut r = WeightedReservoir::with_capacity(capacity);
    let mut i: usize = 0;
    while i < samples.len()
        invariant
            0 <= i <= samples@.len(),
            capacity > 0 || samples@.len() == 0,
            s == compact_views(samples@),
            r.well_formed(),
            r.room() == capacity,
            r.content() == inserted_all(Seq::empty(), capacity as nat, s, i as int, *keys),
        decreases samples@.len() - i,
    {
        assert(s[i as int] == samples@[i as int]@);
        r.insert(samples[i].sample(), keys);
        i = i + 1;
    }
    r
}

/// The samples of a reservoir in compact form.
pub fn compact(r: &WeightedReservoir) -> (v: Vec<CompactSample>)
    ensures
        compact_views(v@) == r.content(),
{
    let samples = r.samples();
    let mut out: Vec<CompactSample> = Vec::new();
    let mut i: usize = 0;
    while i < samples.len()
        invariant
            0 <= i <= samples@.len(),
            out@.len() == i,
            forall|k: int| 0 <= k < i ==> (#[trigger] out@[k])@ == samples@[k]@,
        decreases samples@.len() - i,
    {
        out.push(CompactSample::of(&samples[i]));
        i = i + 1;
    }
    proof {
        assert(compact_views(out@) =~= sample_views(samples@));
    }
    out
}

/// Test history with one record per test, each with bounded samples of its
/// successes and failures.
#[derive(Debug)]
pub struct JsonlHistoryStore {
    /// The records.
    pub records: Vec<TestRecord>,
    /// Where the history is kept.
    pub path: String,
    /// The number of samples kept for each outcome.
    pub reservoir_size: usize,
}

impl JsonlHistoryStore {
    /// The records, as mathematical values.
    pub open spec fn content(self) -> Seq<HistoryModel> {
        history_views(self.records@)
    }

    /// No test has two records.
    pub open spec fn well_formed(self) -> bool {
        distinct(self.content())
    }

    /// Creates a new empty store that will save to the given path.
    pub fn new(path: &str, reservoir_size: usize) -> (r: Self)
        ensures
            r.well_formed(),
            r.content() == Seq::<HistoryModel>::empty(),
            r.path@ == path@,
            r.reservoir_size == reservoir_size,
    {
        let r = JsonlHistoryStore { records: Vec::new(), path: path.to_owned(), reservoir_size };
        assert(r.content() =~= Seq::<HistoryModel>::empty());
        r
    }

    /// A store with the records of a history file.
    ///
    /// It is given what was read of each line that is not blank; a line that
    /// holds no record is an error.
    pub fn load(
        path: &str,
        lines: &Vec<Result<TestRecord, String>>,
        reservoir_size: usize,
    ) -> (r: Result<Self, HistoryError>)
        ensures
            match first_malformed(lines@, 0) {
                Some(m) => r matches Err(HistoryError::Parse(e)) && e@ == m,
                None => r matches Ok(store) && store.well_formed() && store.content()
                    == records_on(lines@) && store.path@ == path@ && store.reservoir_size
                    == reservoir_size,
            },
    {
        match read_lines(lines) {
            Ok(records) => Ok(
                JsonlHistoryStore { records, path: path.to_owned(), reservoir_size },
            ),
            Err(e) => Err(e),
        }
    }

    /// What is expected of the durations of all tests of a configuration.
    pub fn get_scheduling_durations(&self, config: &str) -> (r: Vec<(String, ExpectedDuration)>)
        ensures
            ({
                let stats = config_stats(self.content(), config@, self.content().len() as int);
                &&& r@.len() == stats.len()
                &&& forall|i: int|
                    0 <= i < r@.len() ==> (#[trigger] r@[i]).0@ == stats[i].test_id && expects(
                        self.content(),
                        config@,
                        r@[i].0@,
                        r@[i].1,
                    )
            }),
    {
        let stats = self.get_all_stats(config);
        let mut out: Vec<(String, ExpectedDuration)> = Vec::new();
        let mut i: usize = 0;
        while i < stats.len()
            invariant
                0 <= i <= stats@.len(),
                out@.len() == i,
                forall|k: int|
                    0 <= k < i ==> (#[trigger] out@[k]).0@ == stats@[k]@.test_id && expects(
                        self.content(),
                        config@,
                        out@[k].0@,
                        out@[k].1,
                    ),
            decreases stats@.len() - i,
        {
            let id = stats[i].test_id.clone();
            let expected = self.expected_duration(config, id.as_str());
            out.push((id, expected));
            i = i + 1;
        }
        proof {
            assert(statistics_views(stats@).len() == stats@.len());
        }
        out
    }

    /// Records results from a completed test run.
    pub fn record_results(&mut self, results: &[TestAttemptResult], keys: &SampleKeys) -> (r:
        Result<(), HistoryError>)
        requires
            old(self).well_formed(),
            old(self).reservoir_size > 0 || results@.len() == 0,
            forall|i: int|
                0 <= i < old(self).content().len() ==> counters_fit(
                    old(self).content(),
                    results@,
                    results@.len() as int,
                    (#[trigger] old(self).content()[i]).config,
                    old(self).content()[i].test_id,
                ),
        ensures
            r is Ok,
            final(self).well_formed(),
            final(self).path == old(self).path,
            final(self).reservoir_size == old(self).reservoir_size,
            final(self).content() == recorded_all(
                old(self).content(),
                results@,
                results@.len() as int,
                old(self).reservoir_size as nat,
                *keys,
            ),
    {
        let ghost first = self.content();
        let size: usize = self.reservoir_size;
        let n: usize = results.len();
        let mut i: usize = 0;
        while i < n
            invariant
                0 <= i <= n,
                n == results@.len(),
                size > 0 || n == 0,
                self.reservoir_size == size,
                self.path == old(self).path,
                size == old(self).reservoir_size,
                self.well_formed(),
                first == old(self).content(),
                self.content() == recorded_all(first, results@, i as int, size as nat, *keys),
                distinct(first),
                forall|k: int|
                    0 <= k < first.len() ==> counters_fit(
                        first,
                        results@,
                        n as int,
                        (#[trigger] first[k]).config,
                        first[k].test_id,
                    ),
            decreases n - i,
        {
            let a = &results[i];
            let ghost now = self.content();
            proof {
                let (c, t) = (a.config@, a.test_id@);
                position_is_first(now, c, t, 0);
                position_is_first(first, c, t, 0);
                attempts_on_grow(results@, i + 1, n as int, c, t);
                attempts_on_grow(results@, i as int, i + 1, c, t);
                match position_from(first, c, t, 0) {
                    Some(k) => {
                        assert(first[k].is_of(c, t));
                    },
                    None => {},
                }
                assert(counters_fit(first, results@, n as int, c, t));
                recording_all_counts(first, results@, i as int, size as nat, *keys, c, t);
            }
            let record = match find(&self.records, a.config.as_str(), a.test_id.as_str()) {
                Some(k) => {
                    assert(now[k as int] == self.records@[k as int]@);
                    self.records[k].clone()
                },
                None => {
                    let fresh_record = TestRecord {
                        key: (a.config.clone(), a.test_id.clone()),
                        values: TestValues {
                            total_attempts: 0,
                            total_failures: 0,
                            last_run: String::new(),
                            ok: Vec::new(),
                            fail: Vec::new(),
                        },
                    };
                    proof {
                        assert(fresh_record@ =~= fresh(a.config@, a.test_id@));
                    }
                    fresh_record
                },
            };
            let ghost was = record@;
            proof {
                assert(was.total_attempts < u64::MAX && (!a.passed ==> was.total_failures < u64::MAX));
            }
            let mut record = record;
            record.values.total_attempts = record.values.total_attempts + 1;
            if !a.passed {
                record.values.total_failures = record.values.total_failures + 1;
            }
            record.values.last_run = a.run_id.clone();
            let sample = Sample {
                run_id: a.run_id.clone(),
                timestamp_ms: a.timestamp_ms,
                duration: a.duration,
            };
            if a.passed {
                let mut reservoir = reservoir_of(&record.values.ok, size, keys);
                reservoir.insert(sample, keys);
                record.values.ok = compact(&reservoir);
            } else {
                let mut reservoir = reservoir_of(&record.values.fail, size, keys);
                reservoir.insert(sample, keys);
                record.values.fail = compact(&reservoir);
            }
            proof {
                assert(compact_views(record.values.ok@).len() == record.values.ok@.len());
                assert(record@ =~= attempted(was, *a, size as nat, *keys));
            }
            put_record(&mut self.records, record);
            proof {
                let next = self.content();
                assert(next == recorded(now, *a, size as nat, *keys));
            }
            i = i + 1;
        }
        Ok(())
    }
}

impl TestHistoryStore for JsonlHistoryStore {
    fn get_stats(&self, config: &str, test_id: &str) -> (r: Option<TestStatistics>)
        ensures
            match lookup(self.content(), config@, test_id@) {
                Some(h) => r matches Some(s) && s@ == stats_of(h),
                None => r is None,
            },
    {
        match find(&self.records, config, test_id) {
            Some(i) => {
                assert(self.content()[i as int] == self.records@[i as int]@);
                Some(record_stats(&self.records[i]))
            },
            None => None,
        }
    }

    fn get_all_stats(&self, config: &str) -> (r: Vec<TestStatistics>)
        ensures
            statistics_views(r@) == config_stats(
                self.content(),
                config@,
                self.content().len() as int,
            ),
    {
        let mut out: Vec<TestStatistics> = Vec::new();
        let mut i: usize = 0;
        proof {
            assert(statistics_views(out@) =~= config_stats(self.content(), config@, 0));
        }
        while i < self.records.len()
            invariant
                0 <= i <= self.records@.len(),
                statistics_views(out@) == config_stats(self.content(), config@, i as int),
            decreases self.records@.len() - i,
        {
            let ghost prior = out@;
            assert(self.content()[i as int] == self.records@[i as int]@);
            if text::same(self.records[i].key.0.as_str(), config) {
                out.push(record_stats(&self.records[i]));
                proof {
                    assert(statistics_views(out@) =~= statistics_views(prior).push(out@.last()@));
                }
            }
            i = i + 1;
        }
        out
    }

    fn flakiest_tests(&self, config: &str, limit: usize) -> (r: Vec<TestStatistics>)
        ensures
            ranked(
                Ranking::FailureRate,
                config_stats(self.content(), config@, self.content().len() as int),
                limit as int,
                statistics_views(r@),
            ),
    {
        rank(Ranking::FailureRate, self.get_all_stats(config), limit)
    }

    fn slowest_tests(&self, config: &str, limit: usize) -> (r: Vec<TestStatistics>)
        ensures
            ranked(
                Ranking::Duration,
                config_stats(self.content(), config@, self.content().len() as int),
                limit as int,
                statistics_views(r@),
            ),
    {
        rank(Ranking::Duration, self.get_all_stats(config), limit)
    }

    fn last_run_failures(&self, config: &str) -> (r: Vec<String>)
        ensures
            views(r@) == (match latest_run(
                self.content(),
                config@,
                self.content().len() as int,
            ) {
                Some(run) => failures_in(
                    self.content(),
                    config@,
                    run,
                    self.content().len() as int,
                ),
                None => Seq::empty(),
            }),
            failed_in_last_run(self.content(), config@, views(r@)),
    {
        proof {
            last_failures_hold(self.content(), config@);
        }
        let n: usize = self.records.len();
        let mut latest: Option<String> = None;
        let mut i: usize = 0;
        while i < n
            invariant
                0 <= i <= n,
                n == self.records@.len(),
                crate::discovery::option_view(latest) == latest_run(
                    self.content(),
                    config@,
                    i as int,
                ),
            decreases n - i,
        {
            assert(self.content()[i as int] == self.records@[i as int]@);
            if text::same(self.records[i].key.0.as_str(), config) {
                let run = self.records[i].values.last_run.clone();
                latest = match latest {
                    Some(best) => if text::comes_before(run.as_str(), best.as_str()) {
                        Some(best)
                    } else {
                        Some(run)
                    },
                    None => Some(run),
                };
            }
            i = i + 1;
        }
        let mut out: Vec<String> = Vec::new();
        proof {
            assert(views(out@) =~= Seq::<Seq<char>>::empty());
        }
        match latest {
            None => {},
            Some(run) => {
                let mut k: usize = 0;
                while k < n
                    invariant
                        0 <= k <= n,
                        n == self.records@.len(),
                        views(out@) == failures_in(self.content(), config@, run@, k as int),
                    decreases n - k,
                {
                    let ghost prior = out@;
                    assert(self.content()[k as int] == self.records@[k as int]@);
                    if text::same(self.records[k].key.0.as_str(), config) && fails_in(
                        &self.records[k].values.fail,
                        run.as_str(),
                    ) {
                        out.push(self.records[k].key.1.clone());
                        proof {
                            assert(views(out@) =~= views(prior).push(out@.last()@));
                        }
                    }
                    k = k + 1;
                }
            },
        }
        out
    }

    fn expected_duration(&self, config: &str, test_id: &str) -> (r: ExpectedDuration)
        ensures
            expects(self.content(), config@, test_id@, r),
            follows_history(self.content(), config@, test_id@, r),
    {
        proof {
            assert forall|e: ExpectedDuration| #[trigger]
                expects(self.content(), config@, test_id@, e) implies follows_history(
                self.content(),
                config@,
                test_id@,
                e,
            ) by {
                expectation_follows_history(self.content(), config@, test_id@, e);
            }
        }
        match self.get_stats(config, test_id) {
            Some(stats) => {
                match (stats.duration.success, stats.duration.failure) {
                    (Some(ok), Some(fail)) => {
                        return ExpectedDuration::Weighted {
                            ok: ok.p75,
                            fail: fail.p75,
                            failures: stats.total_failures,
                            attempts: stats.total_attempts,
                        };
                    },
                    (Some(ok), None) => {
                        let known = ExpectedDuration::Known { duration: ok.p75 };
                        assert(expects(self.content(), config@, test_id@, known));
                        return known;
                    },
                    (None, Some(fail)) => {
                        let known = ExpectedDuration::Known { duration: fail.p75 };
                        assert(expects(self.content(), config@, test_id@, known));
                        return known;
                    },
                    (None, None) => {},
                }
            },
            None => {},
        }
        let all = self.get_all_stats(config);
        let ghost stats = statistics_views(all@);
        let mut others: Vec<u64> = Vec::new();
        let mut i: usize = 0;
        proof {
            assert(others@ =~= success_durations(stats, 0));
        }
        while i < all.len()
            invariant
                0 <= i <= all@.len(),
                stats == statistics_views(all@),
                others@ == success_durations(stats, i as int),
            decreases all@.len() - i,
        {
            assert(stats[i as int] == all@[i as int]@);
            match &all[i].duration.success {
                Some(d) => {
                    others.push(d.p75);
                },
                None => {},
            }
            i = i + 1;
        }
        let expected = if others.len() > 0 {
            ExpectedDuration::Average { durations: others }
        } else {
            ExpectedDuration::Default
        };
        assert(expects(self.content(), config@, test_id@, expected));
        expected
    }
}

} // verus!
