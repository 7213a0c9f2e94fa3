//! Conflict-free merging of history records: what is present on either side
//! survives.

use vstd::prelude::*;

use crate::history::jsonl::{
    compact_views, distinct, find, first_malformed, history_views, in_key_order, in_save_order,
    lookup, position_from, position_is_first, read_lines, records_on, CompactSample, HistoryModel,
    TestRecord, TestValues,
};
use crate::history::reservoir::{
    has_time, holds_samples, inserted_all, inserting_all_adds_nothing, inserting_all_is_bounded,
    merged, merged_holds_both, newest_is_newest, SampleKeys, SampleModel,
};
use crate::history::store::{
    compact, later, newest_or_zero, newest_timestamp, reservoir_of,
};
use crate::history::HistoryError;

verus! {

/// A counter merged with the help of the common ancestor: what either side
/// added to it counts.
pub open spec fn count_with_base(base: u64, ours: u64, theirs: u64) -> int {
    base + (if ours > base {
        ours - base
    } else {
        0
    }) + (if theirs > base {
        theirs - base
    } else {
        0
    })
}

/// A counter merged without a common ancestor: both sides count, less what
/// they are estimated to share; the sum stops at the greatest number and the
/// difference at zero.
pub open spec fn count_without_base(ours: u64, theirs: u64, shared: u64) -> int {
    let sum = if ours + theirs <= u64::MAX {
        ours + theirs
    } else {
        u64::MAX as int
    };
    if sum >= shared {
        sum - shared
    } else {
        0
    }
}

/// The samples of both sides, each in a reservoir of the given capacity.
pub open spec fn merged_samples(
    ours: Seq<SampleModel>,
    theirs: Seq<SampleModel>,
    capacity: nat,
    keys: SampleKeys,
) -> Seq<SampleModel> {
    merged(
        inserted_all(Seq::empty(), capacity, ours, ours.len() as int, keys),
        inserted_all(Seq::empty(), capacity, theirs, theirs.len() as int, keys),
        capacity,
        keys,
    )
}

/// The later timestamp of a record's samples.
pub open spec fn newest_in(r: HistoryModel) -> u64 {
    later(newest_or_zero(r.ok), newest_or_zero(r.fail))
}

/// The record of a test that both sides have. `shared` are the estimates of
/// the attempts and failures that both count, for use without a common
/// ancestor.
pub open spec fn merged_record(
    ours: HistoryModel,
    theirs: HistoryModel,
    base: Option<HistoryModel>,
    capacity: nat,
    keys: SampleKeys,
    shared: (u64, u64),
) -> HistoryModel {
    HistoryModel {
        config: ours.config,
        test_id: ours.test_id,
        total_attempts: (match base {
            Some(b) => count_with_base(b.total_attempts, ours.total_attempts, theirs.total_attempts),
            None => count_without_base(ours.total_attempts, theirs.total_attempts, shared.0),
        }) as u64,
        total_failures: (match base {
            Some(b) => count_with_base(b.total_failures, ours.total_failures, theirs.total_failures),
            None => count_without_base(ours.total_failures, theirs.total_failures, shared.1),
        }) as u64,
        last_run: if newest_in(ours) >= newest_in(theirs) {
            ours.last_run
        } else {
            theirs.last_run
        },
        ok: merged_samples(ours.ok, theirs.ok, capacity, keys),
        fail: merged_samples(ours.fail, theirs.fail, capacity, keys),
    }
}

/// The counters of two sides fit in their type once merged.
pub open spec fn counts_fit(
    ours: HistoryModel,
    theirs: HistoryModel,
    base: Option<HistoryModel>,
) -> bool {
    match base {
        Some(b) => count_with_base(b.total_attempts, ours.total_attempts, theirs.total_attempts)
            <= u64::MAX && count_with_base(
            b.total_failures,
            ours.total_failures,
            theirs.total_failures,
        ) <= u64::MAX,
        None => true,
    }
}

/// Samples can be kept: there is room, or there are none.
pub open spec fn has_room(r: HistoryModel, capacity: int) -> bool {
    capacity > 0 || (r.ok.len() == 0 && r.fail.len() == 0)
}

/// Merging two lists of samples holds those of both, as far as there is room.
pub proof fn merged_samples_hold_both(
    ours: Seq<SampleModel>,
    theirs: Seq<SampleModel>,
    capacity: nat,
    keys: SampleKeys,
)
    requires
        capacity > 0 || (ours.len() == 0 && theirs.len() == 0),
    ensures
        holds_samples(ours, theirs, capacity, merged_samples(ours, theirs, capacity, keys)),
{
    let none = Seq::<SampleModel>::empty();
    let a = inserted_all(none, capacity, ours, ours.len() as int, keys);
    let b = inserted_all(none, capacity, theirs, theirs.len() as int, keys);
    if capacity > 0 {
        inserting_all_is_bounded(capacity, ours, ours.len() as int, keys);
        inserting_all_is_bounded(capacity, theirs, theirs.len() as int, keys);
        assert(ours.take(ours.len() as int) =~= ours);
        assert(theirs.take(theirs.len() as int) =~= theirs);
    } else {
        assert(ours =~= none && theirs =~= none);
    }
    merged_holds_both(a, b, capacity, keys);
    let m = merged_samples(ours, theirs, capacity, keys);
    assert forall|i: int| 0 <= i < m.len() implies ours.contains(#[trigger] m[i])
        || theirs.contains(m[i]) by {
        if a.contains(m[i]) {
            let k = choose|k: int| 0 <= k < a.len() && a[k] == m[i];
            if capacity > 0 {
                inserting_all_adds_nothing(capacity, ours, ours.len() as int, keys, k);
            }
        } else {
            let k = choose|k: int| 0 <= k < b.len() && b[k] == m[i];
            if capacity > 0 {
                inserting_all_adds_nothing(capacity, theirs, theirs.len() as int, keys, k);
            }
        }
    }
}

/// A record has a sample of the timestamp.
pub open spec fn sampled_at(r: HistoryModel, t: u64) -> bool {
    has_time(r.ok, t) || has_time(r.fail, t)
}

/// A record has a sample that is newer than all of another record.
pub open spec fn goes_beyond(r: HistoryModel, other: HistoryModel) -> bool {
    exists|t: u64| #[trigger]
        sampled_at(r, t) && t > 0 && forall|u: u64| #[trigger] sampled_at(other, u) ==> u < t
}

/// A counter that says what two sides counted: with a common ancestor that
/// neither fell behind, what it counted once and what each side added to it;
/// without one, what both counted less what they share.
pub open spec fn counts_both(base: Option<u64>, ours: u64, theirs: u64, shared: u64, m: u64) -> bool {
    match base {
        Some(b) => {
            &&& b <= ours && b <= theirs ==> m - b == (ours - b) + (theirs - b)
            &&& ours <= b && b <= theirs ==> m == theirs
            &&& theirs <= b && b <= ours ==> m == ours
            &&& ours <= b && theirs <= b ==> m == b
        },
        None => shared <= ours + theirs <= u64::MAX ==> m + shared == ours + theirs,
    }
}

/// What a merged record of a test holds of the records of both sides: the
/// samples of either outcome, the counters, and the run of the side with the
/// newest sample.
pub open spec fn holds_records(
    ours: HistoryModel,
    theirs: HistoryModel,
    base: Option<HistoryModel>,
    capacity: nat,
    shared: (u64, u64),
    m: HistoryModel,
) -> bool {
    &&& m.is_of(ours.config, ours.test_id)
    &&& holds_samples(ours.ok, theirs.ok, capacity, m.ok)
    &&& holds_samples(ours.fail, theirs.fail, capacity, m.fail)
    &&& m.last_run == (if goes_beyond(theirs, ours) {
        theirs.last_run
    } else {
        ours.last_run
    })
    &&& match base {
        Some(b) => counts_both(
            Some(b.total_attempts),
            ours.total_attempts,
            theirs.total_attempts,
            shared.0,
            m.total_attempts,
        ) && counts_both(
            Some(b.total_failures),
            ours.total_failures,
            theirs.total_failures,
            shared.1,
            m.total_failures,
        ),
        None => counts_both(
            None,
            ours.total_attempts,
            theirs.total_attempts,
            shared.0,
            m.total_attempts,
        ) && counts_both(
            None,
            ours.total_failures,
            theirs.total_failures,
            shared.1,
            m.total_failures,
        ),
    }
}

proof fn newest_in_is_newest(r: HistoryModel)
    ensures
        forall|t: u64| #[trigger] sampled_at(r, t) ==> t <= newest_in(r),
        newest_in(r) > 0 ==> sampled_at(r, newest_in(r)),
{
    newest_is_newest(r.ok, r.ok.len() as int);
    newest_is_newest(r.fail, r.fail.len() as int);
    assert forall|t: u64| #[trigger] sampled_at(r, t) implies t <= newest_in(r) by {
        if has_time(r.ok, t) {
            let i = choose|i: int| 0 <= i < r.ok.len() && (#[trigger] r.ok[i]).timestamp_ms == t;
            assert(r.ok[i].timestamp_ms <= newest_or_zero(r.ok));
        } else {
            let i = choose|i: int|
                0 <= i < r.fail.len() && (#[trigger] r.fail[i]).timestamp_ms == t;
            assert(r.fail[i].timestamp_ms <= newest_or_zero(r.fail));
        }
    }
    if newest_in(r) > 0 {
        if newest_or_zero(r.ok) == newest_in(r) {
            assert(has_time(r.ok, newest_in(r)));
        } else {
            assert(has_time(r.fail, newest_in(r)));
        }
    }
}

/// What either side recorded of a test survives in the merged record.
pub proof fn merged_record_holds_both(
    ours: HistoryModel,
    theirs: HistoryModel,
    base: Option<HistoryModel>,
    capacity: nat,
    keys: SampleKeys,
    shared: (u64, u64),
)
    requires
        has_room(ours, capacity as int),
        has_room(theirs, capacity as int),
        counts_fit(ours, theirs, base),
    ensures
        holds_records(
            ours,
            theirs,
            base,
            capacity,
            shared,
            merged_record(ours, theirs, base, capacity, keys, shared),
        ),
{
    merged_samples_hold_both(ours.ok, theirs.ok, capacity, keys);
    merged_samples_hold_both(ours.fail, theirs.fail, capacity, keys);
    newest_in_is_newest(ours);
    newest_in_is_newest(theirs);
    let t = newest_in(theirs);
    if newest_in(ours) < t {
        assert(sampled_at(theirs, t));
        assert(goes_beyond(theirs, ours));
    } else if goes_beyond(theirs, ours) {
        let u = choose|u: u64| #[trigger]
            sampled_at(theirs, u) && u > 0 && forall|v: u64| #[trigger]
                sampled_at(ours, v) ==> v < u;
        assert(u <= t);
        assert(sampled_at(ours, newest_in(ours)));
    }
}

fn merge_counts(base: Option<u64>, ours: u64, theirs: u64, shared: u64) -> (r: u64)
    requires
        base matches Some(b) ==> count_with_base(b, ours, theirs) <= u64::MAX,
    ensures
        r == (match base {
            Some(b) => count_with_base(b, ours, theirs),
            None => count_without_base(ours, theirs, shared),
        }),
{
    match base {
        Some(b) => {
            let a: u64 = if ours > b {
                ours - b
            } else {
                0
            };
            let c: u64 = if theirs > b {
                theirs - b
            } else {
                0
            };
            b + a + c
        },
        None => {
            let sum: u64 = if ours <= u64::MAX - theirs {
                ours + theirs
            } else {
                u64::MAX
            };
            if sum >= shared {
                sum - shared
            } else {
                0
            }
        },
    }
}

/// Merges two lists of samples into one bounded by the capacity.
pub fn merge_reservoirs(
    ours: &Vec<CompactSample>,
    theirs: &Vec<CompactSample>,
    capacity: usize,
    keys: &SampleKeys,
) -> (r: Vec<CompactSample>)
    requires
        capacity > 0 || (ours@.len() == 0 && theirs@.len() == 0),
    ensures
        compact_views(r@) == merged_samples(
            compact_views(ours@),
            compact_views(theirs@),
            capacity as nat,
            *keys,
        ),
        holds_samples(
            compact_views(ours@),
            compact_views(theirs@),
            capacity as nat,
            compact_views(r@),
        ),
{
    proof {
        merged_samples_hold_both(
            compact_views(ours@),
            compact_views(theirs@),
            capacity as nat,
            *keys,
        );
    }
    let mut a = reservoir_of(ours, capacity, keys);
    let b = reservoir_of(theirs, capacity, keys);
    a.merge(&b, keys);
    compact(&a)
}

/// Merges the records of a test that both sides have.
pub fn merge_test_records(
    ours: &TestRecord,
    theirs: &TestRecord,
    base: Option<&TestRecord>,
    reservoir_size: usize,
    keys: &SampleKeys,
    shared: (u64, u64),
) -> (r: TestRecord)
    requires
        has_room(ours@, reservoir_size as int),
        has_room(theirs@, reservoir_size as int),
        counts_fit(
            ours@,
            theirs@,
            match base {
                Some(b) => Some(b@),
                None => None,
            },
        ),
    ensures
        r@ == merged_record(
            ours@,
            theirs@,
            match base {
                Some(b) => Some(b@),
                None => None,
            },
            reservoir_size as nat,
            *keys,
            shared,
        ),
        holds_records(
            ours@,
            theirs@,
            match base {
                Some(b) => Some(b@),
                None => None,
            },
            reservoir_size as nat,
            shared,
            r@,
        ),
{
    proof {
        merged_record_holds_both(
            ours@,
            theirs@,
            match base {
                Some(b) => Some(b@),
                None => None,
            },
            reservoir_size as nat,
            *keys,
            shared,
        );
    }
    let ok = merge_reservoirs(&ours.values.ok, &theirs.values.ok, reservoir_size, keys);
    let fail = merge_reservoirs(&ours.values.fail, &theirs.values.fail, reservoir_size, keys);
    let (base_attempts, base_failures) = match base {
        Some(b) => (Some(b.values.total_attempts), Some(b.values.total_failures)),
        None => (None, None),
    };
    let total_attempts: u64 = merge_counts(
        base_attempts,
        ours.values.total_attempts,
        theirs.values.total_attempts,
        shared.0,
    );
    let total_failures: u64 = merge_counts(
        base_failures,
        ours.values.total_failures,
        theirs.values.total_failures,
        shared.1,
    );
    let last_run = if newest(ours) >= newest(theirs) {
        ours.values.last_run.clone()
    } else {
        theirs.values.last_run.clone()
    };
    TestRecord {
        key: (ours.key.0.clone(), ours.key.1.clone()),
        values: TestValues { total_attempts, total_failures, last_run, ok, fail },
    }
}

/// The later timestamp of a record's samples.
pub fn newest(r: &TestRecord) -> (t: u64)
    ensures
        t == newest_in(r@),
{
    let ok: u64 = newest_timestamp(&r.values.ok);
    let fail: u64 = newest_timestamp(&r.values.fail);
    if ok >= fail {
        ok
    } else {
        fail
    }
}

/// The number of the first `n` samples whose timestamps the other side has.
pub open spec fn shared_count(a: Seq<SampleModel>, b: Seq<SampleModel>, n: int) -> nat
    decreases n,
{
    if n <= 0 || n > b.len() {
        0
    } else {
        shared_count(a, b, n - 1) + (if has_time(a, b[n - 1].timestamp_ms) {
            1nat
        } else {
            0nat
        })
    }
}

/// The samples of the second list whose timestamps the first one has.
pub fn count_shared_samples(a: &Vec<CompactSample>, b: &Vec<CompactSample>) -> (r: usize)
    ensures
        r == shared_count(compact_views(a@), compact_views(b@), b@.len() as int),
        r <= b@.len(),
{
    let ghost x = compact_views(a@);
    let ghost y = compact_views(b@);
    let mut count: usize = 0;
    let mut i: usize = 0;
    while i < b.len()
        invariant
            0 <= i <= b@.len(),
            i <= b.len(),
            x == compact_views(a@),
            y == compact_views(b@),
            count == shared_count(x, y, i as int),
            count <= i,
        decreases b@.len() - i,
    {
        assert(y[i as int] == b@[i as int]@);
        let mut found = false;
        let mut k: usize = 0;
        while k < a.len()
            invariant
                0 <= k <= a@.len(),
                i < b@.len(),
                x == compact_views(a@),
                found <==> exists|m: int|
                    0 <= m < k && (#[trigger] x[m]).timestamp_ms == b@[i as int].1,
            decreases a@.len() - k,
        {
            assert(x[k as int] == a@[k as int]@);
            if a[k].1 == b[i].1 {
                assert(x[k as int].timestamp_ms == b@[i as int].1);
                found = true;
            }
            k = k + 1;
        }
        if found {
            count = count + 1;
        }
        i = i + 1;
    }
    count
}

/// How far two records of a test overlap: the basis of the estimate of what
/// both count.
#[derive(Debug, Clone, Copy, PartialEq, Eq, Structural)]
pub struct Overlap {
    /// Samples of one side that the other has too.
    pub shared: u128,
    /// All samples of both sides.
    pub total: u128,
    /// The lower number of attempts.
    pub attempts: u64,
    /// The lower number of failures.
    pub failures: u64,
}

/// The lower of two numbers.
pub open spec fn lower(a: u64, b: u64) -> u64 {
    if a <= b {
        a
    } else {
        b
    }
}

/// How far two records overlap.
pub open spec fn overlap_of(ours: HistoryModel, theirs: HistoryModel) -> Overlap {
    Overlap {
        shared: (shared_count(ours.ok, theirs.ok, theirs.ok.len() as int) + shared_count(
            ours.fail,
            theirs.fail,
            theirs.fail.len() as int,
        )) as u128,
        total: (ours.ok.len() + ours.fail.len() + theirs.ok.len() + theirs.fail.len()) as u128,
        attempts: lower(ours.total_attempts, theirs.total_attempts),
        failures: lower(ours.total_failures, theirs.total_failures),
    }
}

/// How far two records overlap.
pub fn overlap(ours: &TestRecord, theirs: &TestRecord) -> (r: Overlap)
    ensures
        r == overlap_of(ours@, theirs@),
{
    let ok: usize = count_shared_samples(&ours.values.ok, &theirs.values.ok);
    let fail: usize = count_shared_samples(&ours.values.fail, &theirs.values.fail);
    let total: u128 = ours.values.ok.len() as u128 + ours.values.fail.len() as u128
        + theirs.values.ok.len() as u128 + theirs.values.fail.len() as u128;
    Overlap {
        shared: ok as u128 + fail as u128,
        total,
        attempts: if ours.values.total_attempts <= theirs.values.total_attempts {
            ours.values.total_attempts
        } else {
            theirs.values.total_attempts
        },
        failures: if ours.values.total_failures <= theirs.values.total_failures {
            ours.values.total_failures
        } else {
            theirs.values.total_failures
        },
    }
}

/// No overlap.
pub open spec fn no_overlap() -> Overlap {
    Overlap { shared: 0, total: 0, attempts: 0, failures: 0 }
}

/// How far each of our records overlaps with that of the other side.
pub fn overlaps(ours: &Vec<TestRecord>, theirs: &Vec<TestRecord>) -> (r: Vec<Overlap>)
    ensures
        r@.len() == ours@.len(),
        forall|i: int|
            0 <= i < r@.len() ==> #[trigger] r@[i] == (match lookup(
                history_views(theirs@),
                ours@[i]@.config,
                ours@[i]@.test_id,
            ) {
                Some(b) => overlap_of(ours@[i]@, b),
                None => no_overlap(),
            }),
{
    let ghost c = history_views(theirs@);
    let mut out: Vec<Overlap> = Vec::new();
    let mut i: usize = 0;
    while i < ours.len()
        invariant
            0 <= i <= ours@.len(),
            c == history_views(theirs@),
            out@.len() == i,
            forall|k: int|
                0 <= k < i ==> #[trigger] out@[k] == (match lookup(
                    c,
                    ours@[k]@.config,
                    ours@[k]@.test_id,
                ) {
                    Some(b) => overlap_of(ours@[k]@, b),
                    None => no_overlap(),
                }),
        decreases ours@.len() - i,
    {
        match find(theirs, ours[i].key.0.as_str(), ours[i].key.1.as_str()) {
            Some(j) => {
                assert(c[j as int] == theirs@[j as int]@);
                out.push(overlap(&ours[i], &theirs[j]));
            },
            None => {
                out.push(Overlap { shared: 0, total: 0, attempts: 0, failures: 0 });
            },
        }
        i = i + 1;
    }
    out
}

/// The estimates for a test, which belong to the place of its record on our
/// side.
pub open spec fn estimate_for(
    ours: Seq<HistoryModel>,
    shared: Seq<(u64, u64)>,
    config: Seq<char>,
    test_id: Seq<char>,
) -> (u64, u64) {
    match position_from(ours, config, test_id, 0) {
        Some(i) => shared[i],
        None => (0, 0),
    }
}

/// What becomes of a test: merged where both sides have it, as it is where
/// one has it.
pub open spec fn merged_at(
    base: Seq<HistoryModel>,
    ours: Seq<HistoryModel>,
    theirs: Seq<HistoryModel>,
    capacity: nat,
    keys: SampleKeys,
    shared: Seq<(u64, u64)>,
    config: Seq<char>,
    test_id: Seq<char>,
) -> Option<HistoryModel> {
    match (lookup(ours, config, test_id), lookup(theirs, config, test_id)) {
        (Some(a), Some(b)) => Some(
            merged_record(
                a,
                b,
                lookup(base, config, test_id),
                capacity,
                keys,
                estimate_for(ours, shared, config, test_id),
            ),
        ),
        (Some(a), None) => Some(a),
        (None, Some(b)) => Some(b),
        (None, None) => None,
    }
}

/// The samples of all tests that both sides have can be kept.
pub open spec fn both_have_room(
    ours: Seq<HistoryModel>,
    theirs: Seq<HistoryModel>,
    capacity: int,
) -> bool {
    forall|i: int, j: int|
        0 <= i < ours.len() && 0 <= j < theirs.len() && (#[trigger] ours[i]).is_of(
            (#[trigger] theirs[j]).config,
            theirs[j].test_id,
        ) ==> has_room(ours[i], capacity) && has_room(theirs[j], capacity)
}

/// The counters of all tests that both sides have fit once merged.
pub open spec fn all_counts_fit(
    base: Seq<HistoryModel>,
    ours: Seq<HistoryModel>,
    theirs: Seq<HistoryModel>,
) -> bool {
    forall|i: int, j: int|
        0 <= i < ours.len() && 0 <= j < theirs.len() && (#[trigger] ours[i]).is_of(
            (#[trigger] theirs[j]).config,
            theirs[j].test_id,
        ) ==> counts_fit(
            ours[i],
            theirs[j],
            lookup(base, ours[i].config, ours[i].test_id),
        )
}

/// What becomes of the first `n` records of our side.
pub open spec fn our_part(
    base: Seq<HistoryModel>,
    ours: Seq<HistoryModel>,
    theirs: Seq<HistoryModel>,
    capacity: nat,
    keys: SampleKeys,
    shared: Seq<(u64, u64)>,
    n: int,
) -> Seq<HistoryModel> {
    Seq::new(
        n as nat,
        |i: int|
            match lookup(theirs, ours[i].config, ours[i].test_id) {
                Some(b) => merged_record(
                    ours[i],
                    b,
                    lookup(base, ours[i].config, ours[i].test_id),
                    capacity,
                    keys,
                    shared[i],
                ),
                None => ours[i],
            },
    )
}

/// The records of both sides: ours first, in their order, then those that
/// only the other side has.
pub open spec fn merged_all(
    base: Seq<HistoryModel>,
    ours: Seq<HistoryModel>,
    theirs: Seq<HistoryModel>,
    capacity: nat,
    keys: SampleKeys,
    shared: Seq<(u64, u64)>,
    n: int,
) -> Seq<HistoryModel>
    decreases n,
{
    if n <= 0 || n > theirs.len() {
        our_part(base, ours, theirs, capacity, keys, shared, ours.len() as int)
    } else {
        let rest = merged_all(base, ours, theirs, capacity, keys, shared, n - 1);
        if lookup(ours, theirs[n - 1].config, theirs[n - 1].test_id) is Some {
            rest
        } else {
            rest.push(theirs[n - 1])
        }
    }
}

/// Merges the records of two sides with the help of those of their common
/// ancestor. `shared` are the estimates of what both sides count, one for each
/// of our records.
pub fn merge_records(
    base: &Vec<TestRecord>,
    ours: &Vec<TestRecord>,
    theirs: &Vec<TestRecord>,
    reservoir_size: usize,
    keys: &SampleKeys,
    shared: &Vec<(u64, u64)>,
) -> (r: Vec<TestRecord>)
    requires
        distinct(history_views(ours@)),
        distinct(history_views(theirs@)),
        shared@.len() == ours@.len(),
        both_have_room(history_views(ours@), history_views(theirs@), reservoir_size as int),
        all_counts_fit(history_views(base@), history_views(ours@), history_views(theirs@)),
    ensures
        history_views(r@) == merged_all(
            history_views(base@),
            history_views(ours@),
            history_views(theirs@),
            reservoir_size as nat,
            *keys,
            shared@,
            theirs@.len() as int,
        ),
        distinct(history_views(r@)),
        forall|c: Seq<char>, t: Seq<char>|
            holds_sides(
                history_views(base@),
                history_views(ours@),
                history_views(theirs@),
                reservoir_size as nat,
                shared@,
                c,
                t,
                #[trigger] lookup(history_views(r@), c, t),
            ),
{
    let ghost b = history_views(base@);
    let ghost a = history_views(ours@);
    let ghost c = history_views(theirs@);
    let ghost size = reservoir_size as nat;
    let mut out: Vec<TestRecord> = Vec::new();
    let mut i: usize = 0;
    while i < ours.len()
        invariant
            0 <= i <= ours@.len(),
            b == history_views(base@),
            a == history_views(ours@),
            c == history_views(theirs@),
            size == reservoir_size,
            distinct(a),
            distinct(c),
            shared@.len() == ours@.len(),
            both_have_room(a, c, reservoir_size as int),
            all_counts_fit(b, a, c),
            out@.len() == i,
            forall|k: int|
                0 <= k < i ==> (#[trigger] out@[k])@ == our_part(
                    b,
                    a,
                    c,
                    size,
                    *keys,
                    shared@,
                    a.len() as int,
                )[k],
        decreases ours@.len() - i,
    {
        let r = &ours[i];
        proof {
            assert(a[i as int] == r@);
            position_is_first(c, r@.config, r@.test_id, 0);
        }
        match find(theirs, r.key.0.as_str(), r.key.1.as_str()) {
            Some(j) => {
                proof {
                    assert(c[j as int] == theirs@[j as int]@);
                    assert(a[i as int].is_of(c[j as int].config, c[j as int].test_id));
                    assert(has_room(a[i as int], reservoir_size as int));
                    assert(has_room(c[j as int], reservoir_size as int));
                }
                let m = match find(base, r.key.0.as_str(), r.key.1.as_str()) {
                    Some(k) => {
                        assert(b[k as int] == base@[k as int]@);
                        merge_test_records(
                            r,
                            &theirs[j],
                            Some(&base[k]),
                            reservoir_size,
                            keys,
                            shared[i],
                        )
                    },
                    None => merge_test_records(
                        r,
                        &theirs[j],
                        None,
                        reservoir_size,
                        keys,
                        shared[i],
                    ),
                };
                out.push(m);
            },
            None => {
                out.push(r.clone());
            },
        }
        i = i + 1;
    }
    let ghost part = our_part(b, a, c, size, *keys, shared@, a.len() as int);
    proof {
        assert(history_views(out@) =~= part);
        assert forall|x: int, y: int| 0 <= x < y < part.len() implies !(#[trigger] part[x]).is_of(
            (#[trigger] part[y]).config,
            part[y].test_id,
        ) by {
            assert(!a[x].is_of(a[y].config, a[y].test_id));
        }
    }
    let mut j: usize = 0;
    while j < theirs.len()
        invariant
            0 <= j <= theirs@.len(),
            b == history_views(base@),
            a == history_views(ours@),
            c == history_views(theirs@),
            distinct(c),
            part == our_part(b, a, c, size, *keys, shared@, a.len() as int),
            history_views(out@) == merged_all(b, a, c, size, *keys, shared@, j as int),
            distinct(history_views(out@)),
            forall|k: int|
                0 <= k < out@.len() ==> (k < a.len() && a[k].is_of(
                    (#[trigger] history_views(out@)[k]).config,
                    history_views(out@)[k].test_id,
                )) || exists|q: int| 0 <= q < j && #[trigger] c[q] == history_views(out@)[k],
        decreases theirs@.len() - j,
    {
        let r = &theirs[j];
        let ghost was = history_views(out@);
        proof {
            assert(c[j as int] == r@);
            position_is_first(a, r@.config, r@.test_id, 0);
        }
        match find(ours, r.key.0.as_str(), r.key.1.as_str()) {
            Some(_) => {},
            None => {
                out.push(r.clone());
                proof {
                    let now = history_views(out@);
                    assert(now =~= was.push(r@));
                    assert forall|x: int, y: int| 0 <= x < y < now.len() implies !(
                    #[trigger] now[x]).is_of((#[trigger] now[y]).config, now[y].test_id) by {
                        if y < was.len() {
                            assert(!was[x].is_of(was[y].config, was[y].test_id));
                        } else {
                            assert(now[x] == was[x]);
                            if x < a.len() && a[x].is_of(was[x].config, was[x].test_id) {
                                assert(!a[x].is_of(r@.config, r@.test_id));
                            } else {
                                let q = choose|q: int| 0 <= q < j && #[trigger] c[q] == was[x];
                                assert(!c[q].is_of(c[j as int].config, c[j as int].test_id));
                            }
                        }
                    }
                    assert forall|k: int| 0 <= k < out@.len() implies (k < a.len() && a[k].is_of(
                        (#[trigger] now[k]).config,
                        now[k].test_id,
                    )) || exists|q: int| 0 <= q < j + 1 && #[trigger] c[q] == now[k] by {
                        if k < was.len() {
                            assert(now[k] == was[k]);
                            if !(k < a.len() && a[k].is_of(was[k].config, was[k].test_id)) {
                                let q = choose|q: int| 0 <= q < j && #[trigger] c[q] == was[k];
                                assert(c[q] == now[k]);
                            }
                        } else {
                            assert(c[j as int] == now[k]);
                        }
                    }
                }
            },
        }
        j = j + 1;
    }
    proof {
        assert forall|x: Seq<char>, t: Seq<char>|
            holds_sides(
                b,
                a,
                c,
                size,
                shared@,
                x,
                t,
                #[trigger] lookup(history_views(out@), x, t),
            ) by {
            merge_holds_sides(b, a, c, size, *keys, shared@, x, t);
        }
    }
    out
}

/// What is left of a test after a merge: of a test that both sides have, a
/// record that holds what both recorded; of a test that one side has, its
/// record; of another test nothing.
pub open spec fn holds_sides(
    base: Seq<HistoryModel>,
    ours: Seq<HistoryModel>,
    theirs: Seq<HistoryModel>,
    capacity: nat,
    shared: Seq<(u64, u64)>,
    config: Seq<char>,
    test_id: Seq<char>,
    now: Option<HistoryModel>,
) -> bool {
    match (lookup(ours, config, test_id), lookup(theirs, config, test_id)) {
        (Some(a), Some(b)) => now matches Some(m) && holds_records(
            a,
            b,
            lookup(base, config, test_id),
            capacity,
            estimate_for(ours, shared, config, test_id),
            m,
        ),
        (Some(a), None) => now == Some(a),
        (None, Some(b)) => now == Some(b),
        (None, None) => now is None,
    }
}

/// What either side recorded survives the merge.
pub proof fn merge_holds_sides(
    base: Seq<HistoryModel>,
    ours: Seq<HistoryModel>,
    theirs: Seq<HistoryModel>,
    capacity: nat,
    keys: SampleKeys,
    shared: Seq<(u64, u64)>,
    config: Seq<char>,
    test_id: Seq<char>,
)
    requires
        distinct(ours),
        distinct(theirs),
        shared.len() == ours.len(),
        both_have_room(ours, theirs, capacity as int),
        all_counts_fit(base, ours, theirs),
    ensures
        holds_sides(
            base,
            ours,
            theirs,
            capacity,
            shared,
            config,
            test_id,
            lookup(
                merged_all(base, ours, theirs, capacity, keys, shared, theirs.len() as int),
                config,
                test_id,
            ),
        ),
{
    merge_keeps_every_test(base, ours, theirs, capacity, keys, shared, config, test_id);
    position_is_first(ours, config, test_id, 0);
    position_is_first(theirs, config, test_id, 0);
    match (
        position_from(ours, config, test_id, 0),
        position_from(theirs, config, test_id, 0),
    ) {
        (Some(i), Some(j)) => {
            assert(ours[i].is_of(theirs[j].config, theirs[j].test_id));
            merged_record_holds_both(
                ours[i],
                theirs[j],
                lookup(base, config, test_id),
                capacity,
                keys,
                estimate_for(ours, shared, config, test_id),
            );
        },
        _ => {},
    }
}

/// Every test of either side survives the merge, and no other test appears: a
/// test that both sides have is merged, one that a single side has is kept as
/// it is.
pub proof fn merge_keeps_every_test(
    base: Seq<HistoryModel>,
    ours: Seq<HistoryModel>,
    theirs: Seq<HistoryModel>,
    capacity: nat,
    keys: SampleKeys,
    shared: Seq<(u64, u64)>,
    config: Seq<char>,
    test_id: Seq<char>,
)
    requires
        distinct(ours),
        distinct(theirs),
        shared.len() == ours.len(),
    ensures
        lookup(
            merged_all(base, ours, theirs, capacity, keys, shared, theirs.len() as int),
            config,
            test_id,
        ) == merged_at(base, ours, theirs, capacity, keys, shared, config, test_id),
{
    let n = theirs.len() as int;
    let part = our_part(base, ours, theirs, capacity, keys, shared, ours.len() as int);
    let all = merged_all(base, ours, theirs, capacity, keys, shared, n);
    merged_extends(base, ours, theirs, capacity, keys, shared, n);
    position_is_first(ours, config, test_id, 0);
    position_is_first(theirs, config, test_id, 0);
    position_is_first(all, config, test_id, 0);
    match position_from(ours, config, test_id, 0) {
        Some(i) => {
            assert(all[i] == part[i]);
            assert(all[i].is_of(config, test_id));
            let p = position_from(all, config, test_id, 0)->Some_0;
            assert(p <= i);
            if p < i {
                assert(all[p] == part[p]);
                assert(ours[p].is_of(config, test_id));
            }
        },
        None => {
            match position_from(theirs, config, test_id, 0) {
                Some(j) => {
                    only_theirs_found(base, ours, theirs, capacity, keys, shared, n, j);
                    let k = choose|k: int|
                        ours.len() <= k < all.len() && #[trigger] all[k] == theirs[j];
                    let p = position_from(all, config, test_id, 0)->Some_0;
                    assert(p <= k);
                    if p < ours.len() {
                        assert(all[p] == part[p]);
                        assert(ours[p].is_of(config, test_id));
                    } else {
                        let q = choose|q: int| 0 <= q < n && #[trigger] theirs[q] == all[p];
                        assert(theirs[q].is_of(config, test_id));
                        if q < j {
                            assert(!theirs[q].is_of(theirs[j].config, theirs[j].test_id));
                        } else if j < q {
                            assert(!theirs[j].is_of(theirs[q].config, theirs[q].test_id));
                        }
                    }
                },
                None => {
                    match position_from(all, config, test_id, 0) {
                        Some(p) => {
                            if p < ours.len() {
                                assert(all[p] == part[p]);
                                assert(ours[p].is_of(config, test_id));
                            } else {
                                let q = choose|q: int|
                                    0 <= q < n && #[trigger] theirs[q] == all[p];
                                assert(theirs[q].is_of(config, test_id));
                            }
                        },
                        None => {},
                    }
                },
            }
        },
    }
}

proof fn merged_extends(
    base: Seq<HistoryModel>,
    ours: Seq<HistoryModel>,
    theirs: Seq<HistoryModel>,
    capacity: nat,
    keys: SampleKeys,
    shared: Seq<(u64, u64)>,
    n: int,
)
    requires
        0 <= n <= theirs.len(),
    ensures
        ({
            let part = our_part(base, ours, theirs, capacity, keys, shared, ours.len() as int);
            let all = merged_all(base, ours, theirs, capacity, keys, shared, n);
            &&& all.len() >= ours.len()
            &&& forall|i: int| 0 <= i < ours.len() ==> #[trigger] all[i] == part[i]
            &&& forall|k: int|
                ours.len() <= k < all.len() ==> exists|q: int|
                    0 <= q < n && #[trigger] theirs[q] == #[trigger] all[k]
        }),
    decreases n,
{
    if n > 0 {
        merged_extends(base, ours, theirs, capacity, keys, shared, n - 1);
        let rest = merged_all(base, ours, theirs, capacity, keys, shared, n - 1);
        let all = merged_all(base, ours, theirs, capacity, keys, shared, n);
        assert forall|k: int| ours.len() <= k < all.len() implies exists|q: int|
            0 <= q < n && #[trigger] theirs[q] == #[trigger] all[k] by {
            if k < rest.len() {
                assert(all[k] == rest[k]);
                let q = choose|q: int| 0 <= q < n - 1 && #[trigger] theirs[q] == rest[k];
                assert(theirs[q] == all[k]);
            } else {
                assert(theirs[n - 1] == all[k]);
            }
        }
    }
}

proof fn only_theirs_found(
    base: Seq<HistoryModel>,
    ours: Seq<HistoryModel>,
    theirs: Seq<HistoryModel>,
    capacity: nat,
    keys: SampleKeys,
    shared: Seq<(u64, u64)>,
    n: int,
    j: int,
)
    requires
        0 <= j < n <= theirs.len(),
        lookup(ours, theirs[j].config, theirs[j].test_id) is None,
    ensures
        ({
            let all = merged_all(base, ours, theirs, capacity, keys, shared, n);
            exists|k: int| ours.len() <= k < all.len() && #[trigger] all[k] == theirs[j]
        }),
    decreases n,
{
    let rest = merged_all(base, ours, theirs, capacity, keys, shared, n - 1);
    let all = merged_all(base, ours, theirs, capacity, keys, shared, n);
    merged_extends(base, ours, theirs, capacity, keys, shared, n - 1);
    if j == n - 1 {
        assert(all[rest.len() as int] == theirs[j]);
    } else {
        only_theirs_found(base, ours, theirs, capacity, keys, shared, n - 1, j);
        let k = choose|k: int| ours.len() <= k < rest.len() && #[trigger] rest[k] == theirs[j];
        assert(all[k] == theirs[j]);
    }
}

/// With a common ancestor that neither side fell behind, every attempt of
/// either side is counted once.
pub proof fn base_counts_once(base: u64, ours: u64, theirs: u64)
    requires
        base <= ours,
        base <= theirs,
    ensures
        count_with_base(base, ours, theirs) == ours + theirs - base,
        count_with_base(base, ours, theirs) >= ours,
        count_with_base(base, ours, theirs) >= theirs,
{
}

/// The records of a common ancestor's lines; none where one of the lines holds
/// no record.
pub open spec fn base_records(lines: Seq<Result<TestRecord, String>>) -> Seq<HistoryModel> {
    match first_malformed(lines, 0) {
        Some(_) => Seq::empty(),
        None => records_on(lines),
    }
}

/// Merges three history files, given what was read of each of their lines that
/// is not blank: a missing file has none. The result is what is to be written
/// in place of our file, in strictly increasing order of keys. A line that
/// holds no record is an error in our file, else in theirs; in the common
/// ancestor it makes that count as empty.
pub fn merge_history_files(
    base: &Vec<Result<TestRecord, String>>,
    ours: &Vec<Result<TestRecord, String>>,
    theirs: &Vec<Result<TestRecord, String>>,
    reservoir_size: usize,
    keys: &SampleKeys,
    shared: &Vec<(u64, u64)>,
) -> (r: Result<Vec<TestRecord>, HistoryError>)
    requires
        first_malformed(ours@, 0) is None && first_malformed(theirs@, 0) is None ==> {
            &&& shared@.len() == records_on(ours@).len()
            &&& both_have_room(records_on(ours@), records_on(theirs@), reservoir_size as int)
            &&& all_counts_fit(base_records(base@), records_on(ours@), records_on(theirs@))
        },
    ensures
        match first_malformed(ours@, 0) {
            Some(m) => r matches Err(HistoryError::Parse(e)) && e@ == m,
            None => match first_malformed(theirs@, 0) {
                Some(m) => r matches Err(HistoryError::Parse(e)) && e@ == m,
                None => r matches Ok(v) && {
                    let merged = merged_all(
                        base_records(base@),
                        records_on(ours@),
                        records_on(theirs@),
                        reservoir_size as nat,
                        *keys,
                        shared@,
                        records_on(theirs@).len() as int,
                    );
                    &&& v@.len() == merged.len()
                    &&& in_key_order(history_views(v@))
                    &&& forall|c: Seq<char>, t: Seq<char>| #[trigger]
                        lookup(history_views(v@), c, t) == lookup(merged, c, t)
                    &&& forall|c: Seq<char>, t: Seq<char>|
                        holds_sides(
                            base_records(base@),
                            records_on(ours@),
                            records_on(theirs@),
                            reservoir_size as nat,
                            shared@,
                            c,
                            t,
                            #[trigger] lookup(history_views(v@), c, t),
                        )
                },
            },
        },
{
    let b = match read_lines(base) {
        Ok(records) => records,
        Err(_) => Vec::new(),
    };
    proof {
        assert(history_views(b@) =~= base_records(base@));
    }
    let a = match read_lines(ours) {
        Ok(records) => records,
        Err(e) => {
            return Err(e);
        },
    };
    let c = match read_lines(theirs) {
        Ok(records) => records,
        Err(e) => {
            return Err(e);
        },
    };
    proof {
        assert(history_views(a@).len() == a@.len());
        assert(history_views(c@).len() == c@.len());
    }
    let merged = merge_records(&b, &a, &c, reservoir_size, keys, shared);
    proof {
        assert(history_views(merged@).len() == merged@.len());
    }
    Ok(in_save_order(&merged))
}

/// The samples that two sides share are those of the second whose timestamps
/// the first has.
pub proof fn shared_samples_are_counted(a: Seq<SampleModel>, b: Seq<SampleModel>, n: int)
    requires
        0 <= n <= b.len(),
    ensures
        shared_count(a, b, n) == b.take(n).filter(
            |s: SampleModel| has_time(a, s.timestamp_ms),
        ).len(),
        shared_count(a, b, n) <= n,
    decreases n,
{
    reveal(Seq::filter);
    if n > 0 {
        shared_samples_are_counted(a, b, n - 1);
        assert(b.take(n).drop_last() =~= b.take(n - 1));
        assert(b.take(n).last() == b[n - 1]);
    }
}

/// No sample of one side has the timestamp of one of the other.
pub open spec fn apart(a: Seq<SampleModel>, b: Seq<SampleModel>) -> bool {
    forall|t: u64| !(#[trigger] has_time(a, t) && has_time(b, t))
}

/// What two records overlap in is no more than either has: at most the lower
/// count of attempts and of failures. Records that share all their samples
/// share half of those they have together, and records without a common
/// timestamp share none.
pub proof fn overlap_is_bounded(ours: HistoryModel, theirs: HistoryModel)
    requires
        ours.ok.len() + ours.fail.len() + theirs.ok.len() + theirs.fail.len() <= u64::MAX,
    ensures
        overlap_of(ours, theirs).attempts <= ours.total_attempts,
        overlap_of(ours, theirs).attempts <= theirs.total_attempts,
        overlap_of(ours, theirs).attempts == ours.total_attempts || overlap_of(
            ours,
            theirs,
        ).attempts == theirs.total_attempts,
        overlap_of(ours, theirs).failures <= ours.total_failures,
        overlap_of(ours, theirs).failures <= theirs.total_failures,
        overlap_of(ours, theirs).failures == ours.total_failures || overlap_of(
            ours,
            theirs,
        ).failures == theirs.total_failures,
        overlap_of(ours, theirs).total == ours.ok.len() + ours.fail.len() + theirs.ok.len()
            + theirs.fail.len(),
        ours.ok == theirs.ok && ours.fail == theirs.fail ==> 2 * overlap_of(ours, theirs).shared
            == overlap_of(ours, theirs).total,
        apart(ours.ok, theirs.ok) && apart(ours.fail, theirs.fail) ==> overlap_of(
            ours,
            theirs,
        ).shared == 0,
{
    let (m, n) = (theirs.ok.len() as int, theirs.fail.len() as int);
    shared_samples_are_counted(ours.ok, theirs.ok, m);
    shared_samples_are_counted(ours.fail, theirs.fail, n);
    if ours.ok == theirs.ok && ours.fail == theirs.fail {
        own_samples_are_shared(ours.ok, m);
        own_samples_are_shared(ours.fail, n);
    }
    if apart(ours.ok, theirs.ok) && apart(ours.fail, theirs.fail) {
        no_common_time(ours.ok, theirs.ok, m);
        no_common_time(ours.fail, theirs.fail, n);
    }
}

proof fn own_samples_are_shared(s: Seq<SampleModel>, n: int)
    requires
        0 <= n <= s.len(),
    ensures
        shared_count(s, s, n) == n,
    decreases n,
{
    if n > 0 {
        own_samples_are_shared(s, n - 1);
        assert(s[n - 1].timestamp_ms == s[n - 1].timestamp_ms);
        assert(has_time(s, s[n - 1].timestamp_ms));
    }
}

proof fn no_common_time(a: Seq<SampleModel>, b: Seq<SampleModel>, n: int)
    requires
        0 <= n <= b.len(),
        apart(a, b),
    ensures
        shared_count(a, b, n) == 0,
    decreases n,
{
    if n > 0 {
        no_common_time(a, b, n - 1);
        let t = b[n - 1].timestamp_ms;
        assert(has_time(b, t));
        assert(!(has_time(a, t) && has_time(b, t)));
    }
}

/// The newest time of a record is that of its newest sample, whether that
/// succeeded or failed; without samples it is zero.
pub proof fn newest_sample_decides(r: HistoryModel)
    ensures
        forall|t: u64| #[trigger] sampled_at(r, t) ==> t <= newest_in(r),
        sampled_at(r, newest_in(r)) || newest_in(r) == 0,
{
    newest_in_is_newest(r);
}

} // verus!
