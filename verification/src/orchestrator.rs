//! Test orchestration: which instances run, in what order, and the account
//! of what came of them.

use vstd::prelude::*;

use crate::discovery::option_view;
use crate::framework::{TestInstance, TestRecord};
use crate::strmap::StrMap;
use crate::text;
use crate::text::decimal;

verus! {

/// Aggregated results of an entire test run.
#[derive(Debug, Clone, Copy, PartialEq, Eq, Structural)]
pub struct RunResult {
    /// Total number of tests in the report.
    pub total_tests: usize,
    /// Number of tests that passed.
    pub passed: usize,
    /// Number of tests that failed (assertions or errors).
    pub failed: usize,
    /// Number of tests that were flaky (passed on retry).
    pub flaky: usize,
    /// Number of tests that couldn't be run.
    pub not_run: usize,
    /// Wall-clock duration of the entire test run in nanoseconds.
    pub duration_ns: u64,
}

impl RunResult {
    /// Whether the run was successful: no test failed and all were executed.
    pub fn success(&self) -> (b: bool)
        ensures
            b == (self.failed == 0 && self.not_run == 0),
    {
        self.failed == 0 && self.not_run == 0
    }

    /// The process exit code: 1 where tests failed or were not run, 2 where
    /// all passed but some were flaky, else 0.
    pub fn exit_code(&self) -> (r: i32)
        ensures
            r == 1 <==> self.failed > 0 || self.not_run > 0,
            r == 2 <==> self.failed == 0 && self.not_run == 0 && self.flaky > 0,
            r == 0 <==> self.failed == 0 && self.not_run == 0 && self.flaky == 0,
    {
        if self.failed > 0 || self.not_run > 0 {
            1
        } else if self.flaky > 0 {
            2
        } else {
            0
        }
    }
}

/// `n` times the position `i`.
pub open spec fn repeated(i: int, n: nat) -> Seq<int> {
    Seq::new(n, |k: int| i)
}

/// Of the first `n` tests those without a batch of their own, each as often
/// as it may run, one after the other.
pub open spec fn grouped(tests: Seq<TestRecord>, n: int) -> Seq<int>
    decreases n,
{
    if n <= 0 || n > tests.len() {
        Seq::empty()
    } else if tests[n - 1].schedule_individual {
        grouped(tests, n - 1)
    } else {
        grouped(tests, n - 1) + repeated(n - 1, (tests[n - 1].retry_count + 1) as nat)
    }
}

/// Of the first `n` tests those with a batch of their own that run at least
/// `round + 1` times.
pub open spec fn one_round(tests: Seq<TestRecord>, round: int, n: int) -> Seq<int>
    decreases n,
{
    if n <= 0 || n > tests.len() {
        Seq::empty()
    } else if tests[n - 1].schedule_individual && round <= tests[n - 1].retry_count {
        one_round(tests, round, n - 1).push(n - 1)
    } else {
        one_round(tests, round, n - 1)
    }
}

/// The first `rounds` rounds, one after the other.
pub open spec fn interleaved(tests: Seq<TestRecord>, rounds: int) -> Seq<int>
    decreases rounds,
{
    if rounds <= 0 {
        Seq::empty()
    } else {
        interleaved(tests, rounds - 1) + one_round(tests, rounds - 1, tests.len() as int)
    }
}

/// The most runs of any of the first `n` tests with a batch of its own.
pub open spec fn most_rounds(tests: Seq<TestRecord>, n: int) -> int
    decreases n,
{
    if n <= 0 || n > tests.len() {
        0
    } else {
        let m = most_rounds(tests, n - 1);
        if tests[n - 1].schedule_individual && tests[n - 1].retry_count + 1 > m {
            tests[n - 1].retry_count + 1
        } else {
            m
        }
    }
}

/// The instances of all tests, by position: first those with a batch of their
/// own, in rounds over the tests, then the others, each test's together.
pub open spec fn run_order(tests: Seq<TestRecord>) -> Seq<int> {
    interleaved(tests, most_rounds(tests, tests.len() as int)) + grouped(tests, tests.len() as int)
}

/// Creates the instances to run: one for each test and one more for each
/// retry it may have.
pub fn expand_instances<'a>(tests: &'a Vec<TestRecord>) -> (r: Vec<TestInstance<'a>>)
    requires
        forall|i: int| 0 <= i < tests@.len() ==> (#[trigger] tests@[i]).retry_count < usize::MAX,
    ensures
        r@.len() == run_order(tests@).len(),
        forall|k: int|
            0 <= k < r@.len() ==> 0 <= run_order(tests@)[k] < tests@.len() && *(
            #[trigger] r@[k]).record == tests@[run_order(tests@)[k]],
{
    let n: usize = tests.len();
    let mut max_count: usize = 0;
    let mut i: usize = 0;
    while i < n
        invariant
            0 <= i <= n,
            n == tests@.len(),
            max_count == most_rounds(tests@, i as int),
            forall|i: int|
                0 <= i < tests@.len() ==> (#[trigger] tests@[i]).retry_count < usize::MAX,
        decreases n - i,
    {
        if tests[i].schedule_individual && tests[i].retry_count + 1 > max_count {
            max_count = tests[i].retry_count + 1;
        }
        i = i + 1;
    }
    let mut out: Vec<TestInstance<'a>> = Vec::new();
    let ghost mut order: Seq<int> = Seq::empty();
    let mut round: usize = 0;
    while round < max_count
        invariant
            0 <= round <= max_count,
            n == tests@.len(),
            order == interleaved(tests@, round as int),
            out@.len() == order.len(),
            forall|k: int|
                0 <= k < out@.len() ==> 0 <= order[k] < tests@.len() && *(#[trigger] out@[k]).record
                    == tests@[order[k]],
        decreases max_count - round,
    {
        let ghost base = order;
        let mut j: usize = 0;
        while j < n
            invariant
                0 <= j <= n,
                n == tests@.len(),
                order == base + one_round(tests@, round as int, j as int),
                out@.len() == order.len(),
                forall|k: int|
                    0 <= k < out@.len() ==> 0 <= order[k] < tests@.len() && *(
                    #[trigger] out@[k]).record == tests@[order[k]],
            decreases n - j,
        {
            if tests[j].schedule_individual && round <= tests[j].retry_count {
                out.push(tests[j].test());
                proof {
                    assert(base + one_round(tests@, round as int, j + 1) =~= order.push(j as int));
                    order = order.push(j as int);
                }
            } else {
                proof {
                    assert(one_round(tests@, round as int, j + 1) == one_round(
                        tests@,
                        round as int,
                        j as int,
                    ));
                }
            }
            j = j + 1;
        }
        round = round + 1;
    }
    let ghost base = order;
    let mut t: usize = 0;
    proof {
        assert(base + grouped(tests@, 0) =~= base);
    }
    while t < n
        invariant
            0 <= t <= n,
            n == tests@.len(),
            order == base + grouped(tests@, t as int),
            out@.len() == order.len(),
            forall|i: int|
                0 <= i < tests@.len() ==> (#[trigger] tests@[i]).retry_count < usize::MAX,
            forall|k: int|
                0 <= k < out@.len() ==> 0 <= order[k] < tests@.len() && *(#[trigger] out@[k]).record
                    == tests@[order[k]],
        decreases n - t,
    {
        if !tests[t].schedule_individual {
            let count: usize = tests[t].retry_count + 1;
            let ghost start = order;
            let mut c: usize = 0;
            proof {
                assert(start + repeated(t as int, 0) =~= start);
            }
            while c < count
                invariant
                    0 <= c <= count,
                    0 <= t < n,
                    n == tests@.len(),
                    order == start + repeated(t as int, c as nat),
                    out@.len() == order.len(),
                    forall|k: int|
                        0 <= k < out@.len() ==> 0 <= order[k] < tests@.len() && *(
                        #[trigger] out@[k]).record == tests@[order[k]],
                decreases count - c,
            {
                out.push(tests[t].test());
                c = c + 1;
                proof {
                    assert(start + repeated(t as int, c as nat) =~= order.push(t as int));
                    order = order.push(t as int);
                }
            }
            proof {
                assert(base + grouped(tests@, t + 1) =~= base + grouped(tests@, t as int)
                    + repeated(t as int, count as nat));
            }
        }
        t = t + 1;
    }
    out
}

/// How often `x` stands in `s`.
pub open spec fn occurrences(s: Seq<int>, x: int) -> nat
    decreases s.len(),
{
    if s.len() == 0 {
        0
    } else {
        occurrences(s.drop_last(), x) + (if s.last() == x {
            1nat
        } else {
            0nat
        })
    }
}

proof fn occurrences_add(a: Seq<int>, b: Seq<int>, x: int)
    ensures
        occurrences(a + b, x) == occurrences(a, x) + occurrences(b, x),
    decreases b.len(),
{
    if b.len() == 0 {
        assert(a + b =~= a);
    } else {
        occurrences_add(a, b.drop_last(), x);
        assert((a + b).drop_last() =~= a + b.drop_last());
        assert((a + b).last() == b.last());
    }
}

proof fn occurrences_repeated(i: int, n: nat, x: int)
    ensures
        occurrences(repeated(i, n), x) == (if i == x {
            n
        } else {
            0
        }),
    decreases n,
{
    if n > 0 {
        occurrences_repeated(i, (n - 1) as nat, x);
        assert(repeated(i, n).drop_last() =~= repeated(i, (n - 1) as nat));
    }
}

proof fn occurrences_grouped(tests: Seq<TestRecord>, n: int, x: int)
    requires
        0 <= n <= tests.len(),
        0 <= x < tests.len(),
    ensures
        occurrences(grouped(tests, n), x) == (if x < n && !tests[x].schedule_individual {
            tests[x].retry_count + 1
        } else {
            0
        }),
    decreases n,
{
    if n > 0 {
        occurrences_grouped(tests, n - 1, x);
        let count = (tests[n - 1].retry_count + 1) as nat;
        occurrences_repeated(n - 1, count, x);
        occurrences_add(grouped(tests, n - 1), repeated(n - 1, count), x);
    }
}

proof fn occurrences_round(tests: Seq<TestRecord>, round: int, n: int, x: int)
    requires
        0 <= n <= tests.len(),
        0 <= x < tests.len(),
    ensures
        occurrences(one_round(tests, round, n), x) == (if x < n && tests[x].schedule_individual
            && round <= tests[x].retry_count {
            1nat
        } else {
            0nat
        }),
    decreases n,
{
    if n > 0 {
        occurrences_round(tests, round, n - 1, x);
        let earlier = one_round(tests, round, n - 1);
        assert(earlier.push(n - 1).drop_last() =~= earlier);
    }
}

proof fn occurrences_interleaved(tests: Seq<TestRecord>, rounds: int, x: int)
    requires
        0 <= rounds,
        0 <= x < tests.len(),
    ensures
        occurrences(interleaved(tests, rounds), x) == (if tests[x].schedule_individual {
            if rounds <= tests[x].retry_count + 1 {
                rounds
            } else {
                tests[x].retry_count + 1
            }
        } else {
            0
        }),
    decreases rounds,
{
    if rounds > 0 {
        occurrences_interleaved(tests, rounds - 1, x);
        occurrences_round(tests, rounds - 1, tests.len() as int, x);
        occurrences_add(
            interleaved(tests, rounds - 1),
            one_round(tests, rounds - 1, tests.len() as int),
            x,
        );
    }
}

proof fn most_rounds_bounds(tests: Seq<TestRecord>, n: int, x: int)
    requires
        0 <= x < n <= tests.len(),
        tests[x].schedule_individual,
    ensures
        tests[x].retry_count + 1 <= most_rounds(tests, n),
    decreases n,
{
    if x < n - 1 {
        most_rounds_bounds(tests, n - 1, x);
    }
}

proof fn most_rounds_nonnegative(tests: Seq<TestRecord>, n: int)
    ensures
        most_rounds(tests, n) >= 0,
    decreases n,
{
    if 0 < n <= tests.len() {
        most_rounds_nonnegative(tests, n - 1);
    }
}

/// Every test runs as often as its retries allow: once, and once more for
/// each retry.
pub proof fn every_test_runs(tests: Seq<TestRecord>, x: int)
    requires
        0 <= x < tests.len(),
    ensures
        occurrences(run_order(tests), x) == tests[x].retry_count + 1,
{
    let n = tests.len() as int;
    let m = most_rounds(tests, n);
    most_rounds_nonnegative(tests, n);
    occurrences_interleaved(tests, m, x);
    occurrences_grouped(tests, n, x);
    occurrences_add(interleaved(tests, m), grouped(tests, n), x);
    if tests[x].schedule_individual {
        most_rounds_bounds(tests, n, x);
    }
}

/// What history says of the group `g` among the first `n` instances: the sum
/// of the known durations and their number.
pub open spec fn group_history(
    instances: Seq<TestInstance>,
    durations: Map<Seq<char>, u64>,
    g: Seq<char>,
    n: int,
) -> (nat, nat)
    decreases n,
{
    if n <= 0 || n > instances.len() {
        (0, 0)
    } else {
        let (total, count) = group_history(instances, durations, g, n - 1);
        let t = instances[n - 1].record;
        if t.group@ == g && durations.contains_key(t.id@) {
            (total + durations[t.id@] as nat, count + 1)
        } else {
            (total, count)
        }
    }
}

proof fn group_history_bounded(
    instances: Seq<TestInstance>,
    durations: Map<Seq<char>, u64>,
    g: Seq<char>,
    n: int,
)
    requires
        0 <= n <= instances.len(),
    ensures
        group_history(instances, durations, g, n).1 <= n,
        group_history(instances, durations, g, n).0 <= u64::MAX * group_history(
            instances,
            durations,
            g,
            n,
        ).1,
    decreases n,
{
    if n > 0 {
        group_history_bounded(instances, durations, g, n - 1);
        let c = group_history(instances, durations, g, n - 1).1;
        assert(u64::MAX * (c + 1) == u64::MAX * c + u64::MAX) by (nonlinear_arith);
    }
}

/// The average duration of each group with known durations, in whole
/// nanoseconds, for tests without one.
pub fn group_averages(instances: &Vec<TestInstance>, durations: &StrMap<u64>) -> (r: StrMap<u64>)
    requires
        instances@.len() <= u32::MAX,
    ensures
        r.well_formed(),
        forall|g: Seq<char>| #[trigger]
            r@.contains_key(g) <==> group_history(
                instances@,
                durations@,
                g,
                instances@.len() as int,
            ).1 > 0,
        forall|g: Seq<char>| #[trigger]
            r@.contains_key(g) ==> r@[g] == group_history(
                instances@,
                durations@,
                g,
                instances@.len() as int,
            ).0 / group_history(instances@, durations@, g, instances@.len() as int).1,
{
    let n: usize = instances.len();
    let mut totals: StrMap<(u128, u64)> = StrMap::new();
    let mut i: usize = 0;
    while i < n
        invariant
            0 <= i <= n,
            n == instances@.len(),
            n <= u32::MAX,
            totals.well_formed(),
            forall|g: Seq<char>| #[trigger]
                totals@.contains_key(g) <==> group_history(
                    instances@,
                    durations@,
                    g,
                    i as int,
                ).1 > 0,
            forall|g: Seq<char>| #[trigger]
                totals@.contains_key(g) ==> totals@[g].0 == group_history(
                    instances@,
                    durations@,
                    g,
                    i as int,
                ).0 && totals@[g].1 == group_history(instances@, durations@, g, i as int).1,
        decreases n - i,
    {
        let ghost before = totals@;
        let ghost t = instances@[i as int].record;
        match durations.get(instances[i].id()) {
            Some(d) => {
                let d: u64 = *d;
                let g = instances[i].group();
                let entry: (u128, u64) = match totals.get(g) {
                    Some(e) => *e,
                    None => (0, 0),
                };
                proof {
                    group_history_bounded(instances@, durations@, t.group@, i as int);
                    let (total, count) = group_history(instances@, durations@, t.group@, i as int);
                    if !before.contains_key(t.group@) {
                        assert(count == 0);
                        assert(u64::MAX * 0 == 0);
                        assert(total == 0);
                    }
                    assert(u64::MAX * count <= u64::MAX * u32::MAX) by (nonlinear_arith)
                        requires
                            count <= u32::MAX,
                    ;
                }
                totals.insert(g.to_owned(), (entry.0 + d as u128, entry.1 + 1));
            },
            None => {},
        }
        i = i + 1;
    }
    let mut out: StrMap<u64> = StrMap::new();
    let mut k: usize = 0;
    while k < totals.entries.len()
        invariant
            n == instances@.len(),
            totals.well_formed(),
            0 <= k <= totals.entries@.len(),
            out.well_formed(),
            forall|g: Seq<char>| #[trigger]
                totals@.contains_key(g) <==> group_history(
                    instances@,
                    durations@,
                    g,
                    n as int,
                ).1 > 0,
            forall|g: Seq<char>| #[trigger]
                totals@.contains_key(g) ==> totals@[g].0 == group_history(
                    instances@,
                    durations@,
                    g,
                    n as int,
                ).0 && totals@[g].1 == group_history(instances@, durations@, g, n as int).1,
            forall|g: Seq<char>| #[trigger]
                out@.contains_key(g) <==> exists|m: int|
                    0 <= m < k && (#[trigger] totals.entries@[m]).0@ == g,
            forall|g: Seq<char>| #[trigger]
                out@.contains_key(g) ==> out@[g] == group_history(
                    instances@,
                    durations@,
                    g,
                    n as int,
                ).0 / group_history(instances@, durations@, g, n as int).1,
        decreases totals.entries@.len() - k,
    {
        let ghost before = out@;
        let ghost g = totals.entries@[k as int].0@;
        proof {
            crate::strmap::lookup_at(totals.entries@, k as int);
            assert(totals@.contains_key(g));
            group_history_bounded(instances@, durations@, g, n as int);
            let (total, count) = group_history(instances@, durations@, g, n as int);
            assert(total / count <= u64::MAX) by (nonlinear_arith)
                requires
                    count > 0,
                    total <= u64::MAX * count,
            ;
        }
        let total: u128 = totals.entries[k].1.0;
        let count: u64 = totals.entries[k].1.1;
        let average: u64 = (total / count as u128) as u64;
        out.insert(totals.entries[k].0.clone(), average);
        k = k + 1;
        proof {
            assert forall|h: Seq<char>| #[trigger] out@.contains_key(h) <==> exists|m: int|
                0 <= m < k && (#[trigger] totals.entries@[m]).0@ == h by {
                if h == g {
                    assert(totals.entries@[k - 1].0@ == h);
                } else if before.contains_key(h) {
                    let m = choose|m: int|
                        0 <= m < k - 1 && (#[trigger] totals.entries@[m]).0@ == h;
                    assert(totals.entries@[m].0@ == h);
                }
            }
        }
    }
    proof {
        assert forall|g: Seq<char>| #[trigger] out@.contains_key(g) <==> totals@.contains_key(
            g,
        ) by {
            if totals@.contains_key(g) {
                crate::strmap::lookup_found(totals.entries@, g);
            }
            if out@.contains_key(g) {
                let m = choose|m: int| 0 <= m < k && (#[trigger] totals.entries@[m]).0@ == g;
                crate::strmap::lookup_at(totals.entries@, m);
            }
        }
    }
    out
}

/// The ids of the tests.
pub open spec fn test_ids(tests: Seq<TestRecord>) -> Seq<Seq<char>> {
    Seq::new(tests.len(), |i: int| tests[i].id@)
}

/// The number of different ids.
pub fn expected_unique_ids(tests: &Vec<TestRecord>) -> (n: usize)
    ensures
        n == test_ids(tests@).to_set().len(),
        n <= tests@.len(),
{
    let mut seen: StrMap<()> = StrMap::new();
    let mut i: usize = 0;
    let ghost ids = test_ids(tests@);
    proof {
        assert(ids.take(0).to_set() =~= Set::<Seq<char>>::empty());
    }
    while i < tests.len()
        invariant
            0 <= i <= tests@.len(),
            ids == test_ids(tests@),
            seen.entries@.len() == ids.take(i as int).to_set().len(),
            seen.entries@.len() <= i,
            ids.take(i as int).to_set().finite(),
            forall|k: Seq<char>| #[trigger]
                seen@.contains_key(k) <==> ids.take(i as int).to_set().contains(k),
        decreases tests@.len() - i,
    {
        proof {
            let a = ids.take(i as int);
            let b = ids.take(i + 1);
            assert(b =~= a.push(ids[i as int]));
            assert forall|k: Seq<char>| b.to_set().contains(k) <==> a.to_set().insert(
                ids[i as int],
            ).contains(k) by {
                if a.contains(k) {
                    let m = choose|m: int| 0 <= m < a.len() && a[m] == k;
                    assert(b[m] == k);
                }
                if b.contains(k) {
                    let m = choose|m: int| 0 <= m < b.len() && b[m] == k;
                    if m < a.len() {
                        assert(a[m] == k);
                    }
                }
                assert(b[i as int] == ids[i as int]);
            }
            assert(b.to_set() =~= a.to_set().insert(ids[i as int]));
        }
        seen.insert(tests[i].id.clone(), ());
        i = i + 1;
    }
    proof {
        assert(ids.take(tests@.len() as int) =~= ids);
    }
    seen.len()
}

/// The account of a run from its report: `total` tests are in it, and of
/// `expected` tests those that are missing were not run. Flaky tests count as
/// passed.
pub fn summarize(
    passed: usize,
    failed: usize,
    flaky: usize,
    total: usize,
    expected: usize,
    duration_ns: u64,
) -> (r: RunResult)
    requires
        passed + flaky <= usize::MAX,
    ensures
        r.total_tests == total,
        r.passed == passed + flaky,
        r.failed == failed,
        r.flaky == flaky,
        r.not_run == (if expected > total {
            expected - total
        } else {
            0
        }),
        r.duration_ns == duration_ns,
{
    RunResult {
        total_tests: total,
        passed: passed + flaky,
        failed,
        flaky,
        not_run: if expected > total {
            expected - total
        } else {
            0
        },
        duration_ns,
    }
}

/// What a run starts from.
#[derive(Debug)]
pub struct RunPlan<'a> {
    /// The instances to run, in order.
    pub instances: Vec<TestInstance<'a>>,
    /// The average durations of groups, for tests without a known one.
    pub group_durations: StrMap<u64>,
    /// How many results each test may have, in the order of the tests.
    pub attempts: Vec<(String, usize)>,
    /// The number of different test ids.
    pub expected: usize,
}

/// Plans a run. Without tests there is none.
pub fn plan_run<'a>(tests: &'a Vec<TestRecord>, durations: &StrMap<u64>) -> (r: Option<
    RunPlan<'a>,
>)
    requires
        forall|i: int| 0 <= i < tests@.len() ==> (#[trigger] tests@[i]).retry_count < usize::MAX,
        run_order(tests@).len() <= u32::MAX,
    ensures
        r is None <==> tests@.len() == 0,
        r matches Some(p) ==> {
            &&& p.instances@.len() == run_order(tests@).len()
            &&& forall|k: int|
                0 <= k < p.instances@.len() ==> 0 <= run_order(tests@)[k] < tests@.len() && *(
                #[trigger] p.instances@[k]).record == tests@[run_order(tests@)[k]]
            &&& forall|g: Seq<char>| #[trigger]
                p.group_durations@.contains_key(g) <==> group_history(
                    p.instances@,
                    durations@,
                    g,
                    p.instances@.len() as int,
                ).1 > 0
            &&& forall|g: Seq<char>| #[trigger]
                p.group_durations@.contains_key(g) ==> p.group_durations@[g] == group_history(
                    p.instances@,
                    durations@,
                    g,
                    p.instances@.len() as int,
                ).0 / group_history(p.instances@, durations@, g, p.instances@.len() as int).1
            &&& p.attempts@.len() == tests@.len()
            &&& forall|i: int|
                0 <= i < tests@.len() ==> (#[trigger] p.attempts@[i]).0@ == tests@[i].id@
                    && p.attempts@[i].1 == tests@[i].retry_count + 1
            &&& p.expected == test_ids(tests@).to_set().len()
        },
{
    if tests.len() == 0 {
        return None;
    }
    let instances = expand_instances(tests);
    let group_durations = group_averages(&instances, durations);
    let mut attempts: Vec<(String, usize)> = Vec::new();
    let mut i: usize = 0;
    while i < tests.len()
        invariant
            0 <= i <= tests@.len(),
            forall|k: int|
                0 <= k < tests@.len() ==> (#[trigger] tests@[k]).retry_count < usize::MAX,
            attempts@.len() == i,
            forall|k: int|
                0 <= k < i ==> (#[trigger] attempts@[k]).0@ == tests@[k].id@ && attempts@[k].1
                    == tests@[k].retry_count + 1,
        decreases tests@.len() - i,
    {
        attempts.push((tests[i].id.clone(), tests[i].retry_count + 1));
        i = i + 1;
    }
    Some(RunPlan { instances, group_durations, attempts, expected: expected_unique_ids(tests) })
}

/// What is said of a report in which tests are missing.
pub open spec fn mismatch(expected: int, total: int) -> Option<Seq<char>> {
    if total < expected {
        Some(
            "[ORCHESTRATOR MISMATCH] Expected "@ + decimal(expected)
                + " unique test IDs but only "@ + decimal(total) + " in report! "@ + decimal(
                expected - total,
            ) + " MISSING!"@,
        )
    } else {
        None
    }
}

/// What is said of a report in which tests are missing.
pub fn report_mismatch(expected: usize, total: usize) -> (r: Option<String>)
    ensures
        option_view(r) == mismatch(expected as int, total as int),
{
    if total >= expected {
        return None;
    }
    let e = text::decimal_u64(expected as u64);
    let t = text::decimal_u64(total as u64);
    let m = text::decimal_u64((expected - total) as u64);
    let mut s = "[ORCHESTRATOR MISMATCH] Expected ".to_owned();
    s.append(e.as_str());
    s.append(" unique test IDs but only ");
    s.append(t.as_str());
    s.append(" in report! ");
    s.append(m.as_str());
    s.append(" MISSING!");
    Some(s)
}

/// A report in which no expected test is missing makes a run without tests
/// that were not run, and the other way round.
pub proof fn complete_report_runs_all(expected: usize, total: usize)
    ensures
        mismatch(expected as int, total as int) is None <==> (if expected > total {
            expected - total
        } else {
            0
        }) == 0,
{
}

/// The known durations of a group are those of its tests, and no others: the
/// average of durations between two bounds lies between them.
pub proof fn average_lies_between(
    instances: Seq<TestInstance>,
    durations: Map<Seq<char>, u64>,
    g: Seq<char>,
    n: int,
    low: nat,
    high: nat,
)
    requires
        0 <= n <= instances.len(),
        forall|i: int|
            0 <= i < n && (#[trigger] instances[i]).record.group@ == g && durations.contains_key(
                instances[i].record.id@,
            ) ==> low <= durations[instances[i].record.id@] <= high,
    ensures
        group_history(instances, durations, g, n).1 == instances.take(n).filter(
            |t: TestInstance| t.record.group@ == g && durations.contains_key(t.record.id@),
        ).len(),
        group_history(instances, durations, g, n).1 > 0 ==> low <= group_history(
            instances,
            durations,
            g,
            n,
        ).0 / group_history(instances, durations, g, n).1 <= high,
{
    history_lies_between(instances, durations, g, n, low, high);
    let (total, count) = group_history(instances, durations, g, n);
    if count > 0 {
        assert(low <= total / count <= high) by (nonlinear_arith)
            requires
                low * count <= total <= high * count,
                count > 0,
        ;
    }
}

proof fn history_lies_between(
    instances: Seq<TestInstance>,
    durations: Map<Seq<char>, u64>,
    g: Seq<char>,
    n: int,
    low: nat,
    high: nat,
)
    requires
        0 <= n <= instances.len(),
        forall|i: int|
            0 <= i < n && (#[trigger] instances[i]).record.group@ == g && durations.contains_key(
                instances[i].record.id@,
            ) ==> low <= durations[instances[i].record.id@] <= high,
    ensures
        ({
            let (total, count) = group_history(instances, durations, g, n);
            &&& low * count <= total <= high * count
            &&& count == instances.take(n).filter(
                |t: TestInstance| t.record.group@ == g && durations.contains_key(t.record.id@),
            ).len()
        }),
    decreases n,
{
    reveal(Seq::filter);
    if n > 0 {
        history_lies_between(instances, durations, g, n - 1, low, high);
        assert(instances.take(n).drop_last() =~= instances.take(n - 1));
        assert(instances.take(n).last() == instances[n - 1]);
        let (total, count) = group_history(instances, durations, g, n - 1);
        let d = durations[instances[n - 1].record.id@] as nat;
        if instances[n - 1].record.group@ == g && durations.contains_key(
            instances[n - 1].record.id@,
        ) {
            assert(low * (count + 1) <= total + d <= high * (count + 1)) by (nonlinear_arith)
                requires
                    low * count <= total <= high * count,
                    low <= d <= high,
            ;
        }
    } else {
        assert(low * 0 == 0 && high * 0 == 0) by (nonlinear_arith);
    }
}

proof fn round_members(tests: Seq<TestRecord>, round: int, n: int, k: int)
    requires
        0 <= n <= tests.len(),
        0 <= k < one_round(tests, round, n).len(),
    ensures
        0 <= one_round(tests, round, n)[k] < n,
        tests[one_round(tests, round, n)[k]].schedule_individual,
    decreases n,
{
    if n > 0 {
        let earlier = one_round(tests, round, n - 1);
        if k < earlier.len() {
            round_members(tests, round, n - 1, k);
        }
    }
}

proof fn interleaved_members(tests: Seq<TestRecord>, rounds: int, k: int)
    requires
        0 <= k < interleaved(tests, rounds).len(),
    ensures
        0 <= interleaved(tests, rounds)[k] < tests.len(),
        tests[interleaved(tests, rounds)[k]].schedule_individual,
    decreases rounds,
{
    if rounds > 0 {
        let earlier = interleaved(tests, rounds - 1);
        if k < earlier.len() {
            interleaved_members(tests, rounds - 1, k);
        } else {
            round_members(tests, rounds - 1, tests.len() as int, k - earlier.len());
        }
    }
}

proof fn grouped_members(tests: Seq<TestRecord>, n: int, k: int)
    requires
        0 <= n <= tests.len(),
        0 <= k < grouped(tests, n).len(),
    ensures
        0 <= grouped(tests, n)[k] < n,
        !tests[grouped(tests, n)[k]].schedule_individual,
    decreases n,
{
    if n > 0 {
        let earlier = grouped(tests, n - 1);
        if k < earlier.len() {
            grouped_members(tests, n - 1, k);
        }
    }
}

proof fn grouped_ascend(tests: Seq<TestRecord>, n: int, a: int, b: int)
    requires
        0 <= n <= tests.len(),
        0 <= a < b < grouped(tests, n).len(),
    ensures
        grouped(tests, n)[a] <= grouped(tests, n)[b],
    decreases n,
{
    if n > 0 {
        let earlier = grouped(tests, n - 1);
        if b < earlier.len() {
            grouped_ascend(tests, n - 1, a, b);
        } else if a < earlier.len() {
            grouped_members(tests, n - 1, a);
        }
    }
}

/// Tests with a batch of their own run before all others; the others run in
/// their order, the runs of one test together.
pub proof fn individual_tests_come_first(tests: Seq<TestRecord>, a: int, b: int)
    requires
        0 <= a < b < run_order(tests).len(),
    ensures
        0 <= run_order(tests)[a] < tests.len(),
        0 <= run_order(tests)[b] < tests.len(),
        !tests[run_order(tests)[a]].schedule_individual ==> !tests[run_order(
            tests,
        )[b]].schedule_individual && run_order(tests)[a] <= run_order(tests)[b],
{
    let n = tests.len() as int;
    let m = most_rounds(tests, n);
    let (first, others) = (interleaved(tests, m), grouped(tests, n));
    if a < first.len() {
        interleaved_members(tests, m, a);
    } else {
        grouped_members(tests, n, a - first.len());
        grouped_ascend(tests, n, a - first.len(), b - first.len());
    }
    if b < first.len() {
        interleaved_members(tests, m, b);
    } else {
        grouped_members(tests, n, b - first.len());
    }
}

proof fn occurrences_of_prefix(s: Seq<int>, k: int, x: int)
    requires
        0 <= k <= s.len(),
    ensures
        occurrences(s.take(k), x) <= occurrences(s, x),
{
    occurrences_add(s.take(k), s.skip(k), x);
    assert(s.take(k) + s.skip(k) =~= s);
}

proof fn rounds_are_fair(tests: Seq<TestRecord>, rounds: int, k: int, x: int, y: int)
    requires
        0 <= rounds,
        0 <= k <= interleaved(tests, rounds).len(),
        0 <= x < tests.len(),
        0 <= y < tests.len(),
        tests[x].schedule_individual,
        tests[y].schedule_individual,
    ensures
        ({
            let s = interleaved(tests, rounds).take(k);
            occurrences(s, x) <= occurrences(s, y) + 1 || occurrences(s, y)
                == tests[y].retry_count + 1
        }),
    decreases rounds,
{
    let all = interleaved(tests, rounds);
    let n = tests.len() as int;
    if rounds > 0 {
        let earlier = interleaved(tests, rounds - 1);
        let round = one_round(tests, rounds - 1, n);
        if k <= earlier.len() {
            rounds_are_fair(tests, rounds - 1, k, x, y);
            assert(all.take(k) =~= earlier.take(k));
        } else {
            let part = round.take(k - earlier.len());
            assert(all.take(k) =~= earlier + part);
            occurrences_add(earlier, part, x);
            occurrences_add(earlier, part, y);
            occurrences_interleaved(tests, rounds - 1, x);
            occurrences_interleaved(tests, rounds - 1, y);
            occurrences_round(tests, rounds - 1, n, x);
            occurrences_round(tests, rounds - 1, n, y);
            occurrences_of_prefix(round, k - earlier.len(), x);
            occurrences_of_prefix(round, k - earlier.len(), y);
        }
    } else {
        assert(all.take(k) =~= Seq::<int>::empty());
    }
}

/// Tests with a batch of their own take turns: none begins a further run
/// before every other has begun as many but one, or has had all its runs.
pub proof fn no_test_runs_ahead(tests: Seq<TestRecord>, k: int, x: int, y: int)
    requires
        0 <= k <= run_order(tests).len(),
        0 <= x < tests.len(),
        0 <= y < tests.len(),
        tests[x].schedule_individual,
        tests[y].schedule_individual,
    ensures
        ({
            let s = run_order(tests).take(k);
            occurrences(s, x) <= occurrences(s, y) + 1 || occurrences(s, y)
                == tests[y].retry_count + 1
        }),
{
    let n = tests.len() as int;
    let m = most_rounds(tests, n);
    most_rounds_nonnegative(tests, n);
    let (first, others) = (interleaved(tests, m), grouped(tests, n));
    let s = run_order(tests).take(k);
    if k <= first.len() {
        rounds_are_fair(tests, m, k, x, y);
        assert(s =~= first.take(k));
    } else {
        let part = others.take(k - first.len());
        assert(s =~= first + part);
        occurrences_add(first, part, y);
        occurrences_interleaved(tests, m, y);
        most_rounds_bounds(tests, n, y);
        occurrences_grouped(tests, n, y);
        occurrences_of_prefix(others, k - first.len(), y);
    }
}

} // verus!
