//! Weighted reservoir sampling with temporal decay.
//!
//! A reservoir keeps a bounded number of duration samples. Every sample has a
//! sampling key that depends on its timestamp and on its age rank among the
//! samples; samples with higher keys are kept.

use vstd::prelude::*;

verus! {

/// The number that stands for a duration of zero; what is shorter stands below
/// it.
pub const ZERO_DURATION: u64 = 0x8000_0000_0000_0000;

/// A single sample in the reservoir.
#[derive(Debug)]
pub struct Sample {
    /// Run ID this sample came from.
    pub run_id: String,
    /// Timestamp in milliseconds since epoch.
    pub timestamp_ms: u64,
    /// The duration, as a number that orders durations: greater for longer,
    /// and `ZERO_DURATION` for none at all.
    pub duration: u64,
}

/// What a sample is, as a mathematical value.
#[verifier::ext_equal]
pub struct SampleModel {
    pub run_id: Seq<char>,
    pub timestamp_ms: u64,
    pub duration: u64,
}

impl View for Sample {
    type V = SampleModel;

    open spec fn view(&self) -> SampleModel {
        SampleModel {
            run_id: self.run_id@,
            timestamp_ms: self.timestamp_ms,
            duration: self.duration,
        }
    }
}

impl Clone for Sample {
    fn clone(&self) -> (r: Self)
        ensures
            r == *self,
    {
        Sample {
            run_id: self.run_id.clone(),
            timestamp_ms: self.timestamp_ms,
            duration: self.duration,
        }
    }
}

/// The views of a sequence of samples.
pub open spec fn sample_views(v: Seq<Sample>) -> Seq<SampleModel> {
    Seq::new(v.len(), |i: int| v[i]@)
}

/// The sampling keys of one timestamp, by age rank.
#[derive(Debug)]
pub struct KeyRow {
    /// The timestamp.
    pub timestamp_ms: u64,
    /// The keys, that of the lowest rank first.
    pub keys: Vec<u64>,
}

/// The sampling keys of timestamps.
#[derive(Debug)]
pub struct SampleKeys {
    /// The rows; the first one of a timestamp counts.
    pub rows: Vec<KeyRow>,
}

/// The key that rows, from the `i`th on, give a timestamp at a rank; zero
/// where they give none.
pub open spec fn key_from(rows: Seq<KeyRow>, i: int, timestamp_ms: u64, rank: int) -> u64
    decreases rows.len() - i,
{
    if i < 0 || i >= rows.len() {
        0
    } else if rows[i].timestamp_ms == timestamp_ms {
        if 0 <= rank < rows[i].keys@.len() {
            rows[i].keys@[rank]
        } else {
            0
        }
    } else {
        key_from(rows, i + 1, timestamp_ms, rank)
    }
}

impl SampleKeys {
    /// The key of a timestamp at a rank.
    pub open spec fn key_view(self, timestamp_ms: u64, rank: int) -> u64 {
        key_from(self.rows@, 0, timestamp_ms, rank)
    }

    /// The key of a timestamp at a rank; zero where there is none.
    pub fn key(&self, timestamp_ms: u64, rank: usize) -> (r: u64)
        ensures
            r == self.key_view(timestamp_ms, rank as int),
    {
        let mut i: usize = 0;
        while i < self.rows.len()
            invariant
                0 <= i <= self.rows@.len(),
                self.key_view(timestamp_ms, rank as int) == key_from(
                    self.rows@,
                    i as int,
                    timestamp_ms,
                    rank as int,
                ),
            decreases self.rows@.len() - i,
        {
            let row = &self.rows[i];
            if row.timestamp_ms == timestamp_ms {
                if rank < row.keys.len() {
                    return row.keys[rank];
                }
                return 0;
            }
            i = i + 1;
        }
        0
    }
}

/// Where a sample goes among samples from new to old, from position `i` on:
/// behind those that are not older.
pub open spec fn age_slot(s: Seq<SampleModel>, i: int, timestamp_ms: u64) -> int
    decreases s.len() - i,
{
    if 0 <= i < s.len() && s[i].timestamp_ms >= timestamp_ms {
        age_slot(s, i + 1, timestamp_ms)
    } else {
        i
    }
}

/// Samples from new to old; those of the same age keep their order.
pub open spec fn by_age(s: Seq<SampleModel>) -> Seq<SampleModel>
    decreases s.len(),
{
    if s.len() == 0 {
        s
    } else {
        let rest = by_age(s.drop_last());
        rest.insert(age_slot(rest, 0, s.last().timestamp_ms), s.last())
    }
}

proof fn age_slot_bounds(s: Seq<SampleModel>, i: int, timestamp_ms: u64)
    requires
        0 <= i <= s.len(),
    ensures
        i <= age_slot(s, i, timestamp_ms) <= s.len(),
        forall|k: int|
            i <= k < age_slot(s, i, timestamp_ms) ==> #[trigger] s[k].timestamp_ms >= timestamp_ms,
        age_slot(s, i, timestamp_ms) < s.len() ==> s[age_slot(s, i, timestamp_ms)].timestamp_ms
            < timestamp_ms,
    decreases s.len() - i,
{
    if i < s.len() && s[i].timestamp_ms >= timestamp_ms {
        age_slot_bounds(s, i + 1, timestamp_ms);
    }
}

/// Samples go from new to old.
pub open spec fn is_by_age(s: Seq<SampleModel>) -> bool {
    forall|i: int, j: int|
        0 <= i <= j < s.len() ==> (#[trigger] s[i]).timestamp_ms >= (#[trigger] s[j]).timestamp_ms
}

/// Ordering by age orders, and neither loses nor adds samples.
pub proof fn by_age_orders(s: Seq<SampleModel>)
    ensures
        is_by_age(by_age(s)),
        by_age(s).to_multiset() == s.to_multiset(),
        by_age(s).len() == s.len(),
    decreases s.len(),
{
    if s.len() > 0 {
        let rest = by_age(s.drop_last());
        by_age_orders(s.drop_last());
        age_slot_bounds(rest, 0, s.last().timestamp_ms);
        let k = age_slot(rest, 0, s.last().timestamp_ms);
        assert forall|i: int, j: int| 0 <= i <= j < by_age(s).len() implies (#[trigger] by_age(
            s,
        )[i]).timestamp_ms >= (#[trigger] by_age(s)[j]).timestamp_ms by {
            let r = by_age(s);
            assert(r[i] == (if i < k {
                rest[i]
            } else if i == k {
                s.last()
            } else {
                rest[i - 1]
            }));
            assert(r[j] == (if j < k {
                rest[j]
            } else if j == k {
                s.last()
            } else {
                rest[j - 1]
            }));
            if j > k && i <= k {
                assert(rest[k].timestamp_ms >= rest[j - 1].timestamp_ms);
            }
        }
        vstd::seq_lib::to_multiset_insert(rest, k, s.last());
        assert(s =~= s.drop_last().push(s.last()));
        vstd::seq_lib::to_multiset_build(s.drop_last(), s.last());
    }
}

/// The key of the `i`th sample from new to old, when a newer one is about to
/// come.
pub open spec fn waiting_key(s: Seq<SampleModel>, keys: SampleKeys, i: int) -> u64 {
    keys.key_view(s[i].timestamp_ms, i + 1)
}

/// The first position of the lowest key among the first `n` samples.
pub open spec fn lowest(s: Seq<SampleModel>, keys: SampleKeys, n: int) -> int
    decreases n,
{
    if n <= 1 {
        0
    } else {
        let m = lowest(s, keys, n - 1);
        if waiting_key(s, keys, n - 1) < waiting_key(s, keys, m) {
            n - 1
        } else {
            m
        }
    }
}

/// The lowest key is the lowest, and its position the first.
pub proof fn lowest_is_lowest(s: Seq<SampleModel>, keys: SampleKeys, n: int)
    requires
        0 < n <= s.len(),
    ensures
        0 <= lowest(s, keys, n) < n,
        forall|i: int|
            0 <= i < n ==> waiting_key(s, keys, lowest(s, keys, n)) <= #[trigger] waiting_key(
                s,
                keys,
                i,
            ),
        forall|i: int|
            0 <= i < lowest(s, keys, n) ==> waiting_key(s, keys, lowest(s, keys, n))
                < #[trigger] waiting_key(s, keys, i),
    decreases n,
{
    if n > 1 {
        lowest_is_lowest(s, keys, n - 1);
    }
}

/// The samples after one more: it is added where there is room, else it takes
/// the place of the one with the lowest key, unless its own key is no higher.
pub open spec fn inserted(
    s: Seq<SampleModel>,
    capacity: nat,
    sample: SampleModel,
    keys: SampleKeys,
) -> Seq<SampleModel> {
    if s.len() < capacity {
        s.push(sample)
    } else {
        let ranked = by_age(s);
        let m = lowest(ranked, keys, ranked.len() as int);
        if keys.key_view(sample.timestamp_ms, 0) > waiting_key(ranked, keys, m) {
            ranked.update(m, sample)
        } else {
            ranked
        }
    }
}

/// The samples after each of the first `n` given ones was inserted in turn.
pub open spec fn inserted_all(
    s: Seq<SampleModel>,
    capacity: nat,
    more: Seq<SampleModel>,
    n: int,
    keys: SampleKeys,
) -> Seq<SampleModel>
    decreases n,
{
    if n <= 0 || n > more.len() {
        s
    } else {
        inserted(inserted_all(s, capacity, more, n - 1, keys), capacity, more[n - 1], keys)
    }
}

/// Inserting never exceeds the capacity, keeps every sample where there is
/// room, and otherwise replaces at most one; it brings in nothing but the new
/// sample.
pub proof fn insert_is_bounded(
    s: Seq<SampleModel>,
    capacity: nat,
    sample: SampleModel,
    keys: SampleKeys,
)
    requires
        s.len() <= capacity,
        capacity > 0,
    ensures
        inserted(s, capacity, sample, keys).len() <= capacity,
        s.len() < capacity ==> inserted(s, capacity, sample, keys).to_multiset()
            == s.to_multiset().insert(sample),
        s.len() == capacity ==> inserted(s, capacity, sample, keys).to_multiset()
            == s.to_multiset() || exists|gone: SampleModel|
            s.contains(gone) && inserted(s, capacity, sample, keys).to_multiset()
                == #[trigger] s.to_multiset().insert(sample).remove(gone),
{
    if s.len() < capacity {
        vstd::seq_lib::to_multiset_build(s, sample);
    } else {
        let ranked = by_age(s);
        by_age_orders(s);
        let n = ranked.len() as int;
        lowest_is_lowest(ranked, keys, n);
        let m = lowest(ranked, keys, n);
        let gone = ranked[m];
        vstd::seq_lib::to_multiset_update(ranked, m, sample);
        ranked.to_multiset_ensures();
        s.to_multiset_ensures();
        assert(ranked.contains(gone));
        assert(ranked.to_multiset().count(gone) > 0);
        assert(s.to_multiset().count(gone) > 0);
        assert(s.contains(gone));
    }
}

/// Samples inserted one after the other never exceed the capacity, and where
/// they all fit they are kept as they are.
pub proof fn inserting_all_is_bounded(
    capacity: nat,
    more: Seq<SampleModel>,
    n: int,
    keys: SampleKeys,
)
    requires
        0 <= n <= more.len(),
        capacity > 0,
    ensures
        inserted_all(Seq::empty(), capacity, more, n, keys).len() <= capacity,
        n <= capacity ==> inserted_all(Seq::empty(), capacity, more, n, keys) == more.take(n),
    decreases n,
{
    if n > 0 {
        inserting_all_is_bounded(capacity, more, n - 1, keys);
        let s = inserted_all(Seq::empty(), capacity, more, n - 1, keys);
        insert_is_bounded(s, capacity, more[n - 1], keys);
        if n <= capacity {
            assert(more.take(n) =~= more.take(n - 1).push(more[n - 1]));
        }
    } else {
        assert(more.take(0) =~= Seq::empty());
    }
}

/// Samples inserted one after the other bring in nothing but themselves.
pub proof fn inserting_all_adds_nothing(
    capacity: nat,
    more: Seq<SampleModel>,
    n: int,
    keys: SampleKeys,
    i: int,
)
    requires
        0 <= n <= more.len(),
        capacity > 0,
        0 <= i < inserted_all(Seq::empty(), capacity, more, n, keys).len(),
    ensures
        more.contains(inserted_all(Seq::empty(), capacity, more, n, keys)[i]),
    decreases n,
{
    if n > 0 {
        inserting_all_is_bounded(capacity, more, n - 1, keys);
        let s = inserted_all(Seq::empty(), capacity, more, n - 1, keys);
        let r = inserted(s, capacity, more[n - 1], keys);
        let x = r[i];
        if x == more[n - 1] {
        } else {
            if s.len() < capacity {
                assert(s[i] == x);
            } else {
                let ranked = by_age(s);
                by_age_orders(s);
                lowest_is_lowest(ranked, keys, ranked.len() as int);
                assert(ranked[i] == x);
                ranked.to_multiset_ensures();
                s.to_multiset_ensures();
                assert(ranked.contains(x));
                assert(ranked.to_multiset().count(x) > 0);
                assert(s.contains(x));
            }
            let k = choose|k: int| 0 <= k < s.len() && s[k] == x;
            inserting_all_adds_nothing(capacity, more, n - 1, keys, k);
        }
    }
}

/// Where a timestamp goes in samples from old to new without repetition.
pub open spec fn time_slot(s: Seq<SampleModel>, i: int, timestamp_ms: u64) -> int
    decreases s.len() - i,
{
    if 0 <= i < s.len() && s[i].timestamp_ms < timestamp_ms {
        time_slot(s, i + 1, timestamp_ms)
    } else {
        i
    }
}

/// A sample is added among samples from old to new, unless there is one of
/// its timestamp.
pub open spec fn with_time(s: Seq<SampleModel>, x: SampleModel) -> Seq<SampleModel> {
    let k = time_slot(s, 0, x.timestamp_ms);
    if k < s.len() && s[k].timestamp_ms == x.timestamp_ms {
        s
    } else {
        s.insert(k, x)
    }
}

/// The samples from old to new, of every timestamp the first only.
pub open spec fn by_time(s: Seq<SampleModel>) -> Seq<SampleModel>
    decreases s.len(),
{
    if s.len() == 0 {
        s
    } else {
        with_time(by_time(s.drop_last()), s.last())
    }
}

/// Samples go from old to new, with no timestamp twice.
pub open spec fn is_by_time(s: Seq<SampleModel>) -> bool {
    forall|i: int, j: int|
        0 <= i < j < s.len() ==> (#[trigger] s[i]).timestamp_ms < (#[trigger] s[j]).timestamp_ms
}

/// A sample of the timestamp is there.
pub open spec fn has_time(s: Seq<SampleModel>, timestamp_ms: u64) -> bool {
    exists|i: int| 0 <= i < s.len() && (#[trigger] s[i]).timestamp_ms == timestamp_ms
}

proof fn time_slot_bounds(s: Seq<SampleModel>, i: int, timestamp_ms: u64)
    requires
        0 <= i <= s.len(),
    ensures
        i <= time_slot(s, i, timestamp_ms) <= s.len(),
        forall|k: int|
            i <= k < time_slot(s, i, timestamp_ms) ==> #[trigger] s[k].timestamp_ms < timestamp_ms,
        time_slot(s, i, timestamp_ms) < s.len() ==> s[time_slot(s, i, timestamp_ms)].timestamp_ms
            >= timestamp_ms,
    decreases s.len() - i,
{
    if i < s.len() && s[i].timestamp_ms < timestamp_ms {
        time_slot_bounds(s, i + 1, timestamp_ms);
    }
}

proof fn with_time_orders(s: Seq<SampleModel>, x: SampleModel)
    requires
        is_by_time(s),
    ensures
        is_by_time(with_time(s, x)),
        forall|t: u64|
            has_time(with_time(s, x), t) <==> #[trigger] has_time(s, t) || x.timestamp_ms == t,
        forall|i: int|
            0 <= i < with_time(s, x).len() ==> #[trigger] with_time(s, x)[i] == x || s.contains(
                with_time(s, x)[i],
            ),
        with_time(s, x).len() <= s.len() + 1,
{
    time_slot_bounds(s, 0, x.timestamp_ms);
    let k = time_slot(s, 0, x.timestamp_ms);
    let r = with_time(s, x);
    if k < s.len() && s[k].timestamp_ms == x.timestamp_ms {
        assert(has_time(s, x.timestamp_ms));
    } else {
        assert forall|i: int| 0 <= i < r.len() implies #[trigger] r[i] == (if i < k {
            s[i]
        } else if i == k {
            x
        } else {
            s[i - 1]
        }) by {}
        assert forall|i: int, j: int| 0 <= i < j < r.len() implies (#[trigger] r[i]).timestamp_ms
            < (#[trigger] r[j]).timestamp_ms by {
            if i <= k && j > k {
                if j - 1 > k {
                    assert(s[k].timestamp_ms < s[j - 1].timestamp_ms);
                }
            }
        }
        assert forall|t: u64|
            has_time(r, t) <==> #[trigger] has_time(s, t) || x.timestamp_ms == t by {
            if has_time(r, t) {
                let i = choose|i: int| 0 <= i < r.len() && (#[trigger] r[i]).timestamp_ms == t;
                if i < k {
                    assert(s[i].timestamp_ms == t);
                } else if i > k {
                    assert(s[i - 1].timestamp_ms == t);
                }
            }
            if has_time(s, t) {
                let i = choose|i: int| 0 <= i < s.len() && (#[trigger] s[i]).timestamp_ms == t;
                if i < k {
                    assert(r[i].timestamp_ms == t);
                } else {
                    assert(r[i + 1].timestamp_ms == t);
                }
            }
            if x.timestamp_ms == t {
                assert(r[k].timestamp_ms == t);
            }
        }
    }
}

/// Ordering by time leaves one sample of every timestamp, and no other
/// samples than the given ones.
pub proof fn by_time_orders(s: Seq<SampleModel>)
    ensures
        is_by_time(by_time(s)),
        forall|t: u64| has_time(by_time(s), t) <==> #[trigger] has_time(s, t),
        forall|i: int| 0 <= i < by_time(s).len() ==> s.contains(#[trigger] by_time(s)[i]),
        by_time(s).len() <= s.len(),
    decreases s.len(),
{
    if s.len() > 0 {
        let d = s.drop_last();
        let x = s.last();
        by_time_orders(d);
        with_time_orders(by_time(d), x);
        assert forall|t: u64| has_time(by_time(s), t) <==> #[trigger] has_time(s, t) by {
            assert(has_time(by_time(d), t) <==> has_time(d, t));
            if has_time(s, t) {
                let i = choose|i: int| 0 <= i < s.len() && (#[trigger] s[i]).timestamp_ms == t;
                if i < d.len() {
                    assert(d[i].timestamp_ms == t);
                }
            }
            if has_time(d, t) {
                let i = choose|i: int| 0 <= i < d.len() && (#[trigger] d[i]).timestamp_ms == t;
                assert(s[i].timestamp_ms == t);
            }
            if x.timestamp_ms == t {
                assert(s[s.len() - 1].timestamp_ms == t);
            }
        }
        assert forall|i: int| 0 <= i < by_time(s).len() implies s.contains(
            #[trigger] by_time(s)[i],
        ) by {
            let y = by_time(s)[i];
            if y == x {
                assert(s[s.len() - 1] == y);
            } else {
                assert(by_time(d).contains(y));
                let k = choose|k: int| 0 <= k < by_time(d).len() && by_time(d)[k] == y;
                assert(d.contains(by_time(d)[k]));
                let m = choose|m: int| 0 <= m < d.len() && d[m] == y;
                assert(s[m] == y);
            }
        }
    }
}

/// Of several samples of one timestamp the first stays.
pub proof fn by_time_keeps_first(s: Seq<SampleModel>, i: int)
    requires
        0 <= i < by_time(s).len(),
    ensures
        exists|k: int|
            0 <= k < s.len() && #[trigger] s[k] == by_time(s)[i] && forall|m: int|
                0 <= m < k ==> (#[trigger] s[m]).timestamp_ms != s[k].timestamp_ms,
    decreases s.len(),
{
    let d = s.drop_last();
    let x = s.last();
    let rest = by_time(d);
    by_time_orders(d);
    time_slot_bounds(rest, 0, x.timestamp_ms);
    let slot = time_slot(rest, 0, x.timestamp_ms);
    if slot < rest.len() && rest[slot].timestamp_ms == x.timestamp_ms {
        by_time_keeps_first(d, i);
        let k = choose|k: int|
            0 <= k < d.len() && #[trigger] d[k] == rest[i] && forall|m: int|
                0 <= m < k ==> (#[trigger] d[m]).timestamp_ms != d[k].timestamp_ms;
        assert(s[k] == by_time(s)[i]);
        assert forall|m: int| 0 <= m < k implies (#[trigger] s[m]).timestamp_ms
            != s[k].timestamp_ms by {
            assert(d[m] == s[m]);
        }
    } else if i == slot {
        let k = s.len() - 1;
        assert(s[k] == by_time(s)[i]);
        assert forall|m: int| 0 <= m < k implies (#[trigger] s[m]).timestamp_ms
            != s[k].timestamp_ms by {
            assert(d[m] == s[m]);
            if s[m].timestamp_ms == x.timestamp_ms {
                assert(has_time(d, x.timestamp_ms));
                assert(has_time(rest, x.timestamp_ms));
                let q = choose|q: int|
                    0 <= q < rest.len() && (#[trigger] rest[q]).timestamp_ms == x.timestamp_ms;
                if q < slot {
                    assert(rest[q].timestamp_ms < x.timestamp_ms);
                } else if q > slot {
                    assert(rest[slot].timestamp_ms < rest[q].timestamp_ms);
                }
            }
        }
    } else {
        let j = if i < slot {
            i
        } else {
            i - 1
        };
        assert(by_time(s)[i] == rest[j]);
        by_time_keeps_first(d, j);
        let k = choose|k: int|
            0 <= k < d.len() && #[trigger] d[k] == rest[j] && forall|m: int|
                0 <= m < k ==> (#[trigger] d[m]).timestamp_ms != d[k].timestamp_ms;
        assert(s[k] == by_time(s)[i]);
        assert forall|m: int| 0 <= m < k implies (#[trigger] s[m]).timestamp_ms
            != s[k].timestamp_ms by {
            assert(d[m] == s[m]);
        }
    }
}

/// The key of the `i`th of samples from old to new, where age ranks start at
/// zero for the newest.
pub open spec fn settled_key(s: Seq<SampleModel>, keys: SampleKeys, i: int) -> u64 {
    keys.key_view(s[s.len() - 1 - i].timestamp_ms, i)
}

/// Where a key goes among ranks from high to low key, from position `i` on:
/// behind those that are not lower.
pub open spec fn rank_slot(
    ranks: Seq<int>,
    s: Seq<SampleModel>,
    keys: SampleKeys,
    i: int,
    key: u64,
) -> int
    decreases ranks.len() - i,
{
    if 0 <= i < ranks.len() && settled_key(s, keys, ranks[i]) >= key {
        rank_slot(ranks, s, keys, i + 1, key)
    } else {
        i
    }
}

/// The first `n` age ranks, from high to low key; those of the same key keep
/// their order.
pub open spec fn by_key(s: Seq<SampleModel>, keys: SampleKeys, n: int) -> Seq<int>
    decreases n,
{
    if n <= 0 {
        Seq::empty()
    } else {
        let rest = by_key(s, keys, n - 1);
        rest.insert(rank_slot(rest, s, keys, 0, settled_key(s, keys, n - 1)), n - 1)
    }
}

/// The samples of two reservoirs together: of every timestamp one, and where
/// they do not all fit, those with the highest keys.
pub open spec fn merged(
    a: Seq<SampleModel>,
    b: Seq<SampleModel>,
    capacity: nat,
    keys: SampleKeys,
) -> Seq<SampleModel> {
    let all = by_time(a + b);
    if all.len() <= capacity {
        all
    } else {
        let ranks = by_key(all, keys, all.len() as int);
        Seq::new(capacity, |i: int| all[all.len() - 1 - ranks[i]])
    }
}

proof fn rank_slot_bounds(
    ranks: Seq<int>,
    s: Seq<SampleModel>,
    keys: SampleKeys,
    i: int,
    key: u64,
)
    requires
        0 <= i <= ranks.len(),
    ensures
        i <= rank_slot(ranks, s, keys, i, key) <= ranks.len(),
        forall|k: int|
            i <= k < rank_slot(ranks, s, keys, i, key) ==> settled_key(
                s,
                keys,
                #[trigger] ranks[k],
            ) >= key,
        rank_slot(ranks, s, keys, i, key) < ranks.len() ==> settled_key(
            s,
            keys,
            ranks[rank_slot(ranks, s, keys, i, key)],
        ) < key,
    decreases ranks.len() - i,
{
    if i < ranks.len() && settled_key(s, keys, ranks[i]) >= key {
        rank_slot_bounds(ranks, s, keys, i + 1, key);
    }
}

/// Ordering by key orders, and every rank stands there once.
pub proof fn by_key_orders(s: Seq<SampleModel>, keys: SampleKeys, n: int)
    requires
        0 <= n <= s.len(),
    ensures
        by_key(s, keys, n).len() == n,
        forall|i: int| 0 <= i < n ==> 0 <= #[trigger] by_key(s, keys, n)[i] < n,
        forall|i: int, j: int|
            0 <= i < j < n ==> #[trigger] by_key(s, keys, n)[i] != #[trigger] by_key(s, keys, n)[j],
        forall|i: int, j: int|
            0 <= i <= j < n ==> settled_key(s, keys, #[trigger] by_key(s, keys, n)[i])
                >= settled_key(s, keys, #[trigger] by_key(s, keys, n)[j]),
    decreases n,
{
    if n > 0 {
        by_key_orders(s, keys, n - 1);
        let rest = by_key(s, keys, n - 1);
        let key = settled_key(s, keys, n - 1);
        rank_slot_bounds(rest, s, keys, 0, key);
        let k = rank_slot(rest, s, keys, 0, key);
        let r = by_key(s, keys, n);
        assert forall|i: int| 0 <= i < n implies #[trigger] r[i] == (if i < k {
            rest[i]
        } else if i == k {
            n - 1
        } else {
            rest[i - 1]
        }) by {}
        assert forall|i: int, j: int| 0 <= i <= j < n implies settled_key(s, keys, #[trigger] r[i])
            >= settled_key(s, keys, #[trigger] r[j]) by {
            if i <= k && j > k {
                assert(settled_key(s, keys, rest[k]) >= settled_key(s, keys, rest[j - 1]));
            }
        }
    }
}

/// Merging never exceeds the capacity, leaves no timestamp twice, brings in
/// nothing but samples of the two sides, and where they all fit it keeps every
/// timestamp of either side.
pub proof fn merge_is_bounded(
    a: Seq<SampleModel>,
    b: Seq<SampleModel>,
    capacity: nat,
    keys: SampleKeys,
)
    ensures
        merged(a, b, capacity, keys).len() <= capacity,
        forall|i: int, j: int|
            0 <= i < j < merged(a, b, capacity, keys).len() ==> (#[trigger] merged(
                a,
                b,
                capacity,
                keys,
            )[i]).timestamp_ms != (#[trigger] merged(a, b, capacity, keys)[j]).timestamp_ms,
        forall|i: int|
            0 <= i < merged(a, b, capacity, keys).len() ==> a.contains(
                #[trigger] merged(a, b, capacity, keys)[i],
            ) || b.contains(merged(a, b, capacity, keys)[i]),
        a.len() + b.len() <= capacity ==> forall|t: u64|
            (#[trigger] has_time(a, t) || has_time(b, t)) ==> has_time(
                merged(a, b, capacity, keys),
                t,
            ),
{
    let both = a + b;
    let all = by_time(both);
    by_time_orders(both);
    let r = merged(a, b, capacity, keys);
    by_key_orders(all, keys, all.len() as int);
    let ranks = by_key(all, keys, all.len() as int);
    assert forall|i: int| 0 <= i < r.len() implies a.contains(#[trigger] r[i]) || b.contains(
        r[i],
    ) by {
        if all.len() <= capacity {
            assert(both.contains(all[i]));
        } else {
            assert(both.contains(all[all.len() - 1 - ranks[i]]));
        }
        let k = choose|k: int| 0 <= k < both.len() && both[k] == r[i];
        if k < a.len() {
            assert(a[k] == r[i]);
        } else {
            assert(b[k - a.len()] == r[i]);
        }
    }
    assert forall|i: int, j: int| 0 <= i < j < r.len() implies (#[trigger] r[i]).timestamp_ms
        != (#[trigger] r[j]).timestamp_ms by {
        if all.len() > capacity {
            let p = all.len() - 1 - ranks[i];
            let q = all.len() - 1 - ranks[j];
            assert(p != q);
            assert(all[p].timestamp_ms != all[q].timestamp_ms);
        }
    }
    if a.len() + b.len() <= capacity {
        assert forall|t: u64| (#[trigger] has_time(a, t) || has_time(b, t)) implies has_time(
            r,
            t,
        ) by {
            if has_time(a, t) {
                let i = choose|i: int| 0 <= i < a.len() && (#[trigger] a[i]).timestamp_ms == t;
                assert(both[i].timestamp_ms == t);
            } else {
                let i = choose|i: int| 0 <= i < b.len() && (#[trigger] b[i]).timestamp_ms == t;
                assert(both[i + a.len()].timestamp_ms == t);
            }
            assert(has_time(both, t));
        }
    }
}

/// What holds both of two lists of samples in a bounded one: it brings in
/// nothing else, has no timestamp twice, and loses a timestamp of either side
/// only where it is full. For a timestamp of both sides it keeps a sample of
/// the first.
pub open spec fn holds_samples(
    a: Seq<SampleModel>,
    b: Seq<SampleModel>,
    capacity: nat,
    m: Seq<SampleModel>,
) -> bool {
    &&& m.len() <= capacity
    &&& forall|i: int| 0 <= i < m.len() ==> a.contains(#[trigger] m[i]) || b.contains(m[i])
    &&& forall|i: int, j: int|
        0 <= i < j < m.len() ==> (#[trigger] m[i]).timestamp_ms != (#[trigger] m[j]).timestamp_ms
    &&& a.len() <= capacity && b.len() <= capacity && m.len() < capacity ==> forall|t: u64|
        (has_time(a, t) || has_time(b, t)) <==> #[trigger] has_time(m, t)
    &&& a.len() + b.len() <= capacity ==> forall|t: u64|
        (has_time(a, t) || has_time(b, t)) <==> #[trigger] has_time(m, t)
    &&& a.len() <= capacity && b.len() <= capacity ==> forall|i: int|
        0 <= i < m.len() && has_time(a, (#[trigger] m[i]).timestamp_ms) ==> a.contains(m[i])
}

/// Merging two reservoirs holds the samples of both.
pub proof fn merged_holds_both(
    a: Seq<SampleModel>,
    b: Seq<SampleModel>,
    capacity: nat,
    keys: SampleKeys,
)
    requires
        a.len() <= capacity,
        b.len() <= capacity,
    ensures
        holds_samples(a, b, capacity, merged(a, b, capacity, keys)),
{
    let m = merged(a, b, capacity, keys);
    let both = a + b;
    let all = by_time(both);
    merge_is_bounded(a, b, capacity, keys);
    by_time_orders(both);
    by_key_orders(all, keys, all.len() as int);
    let ranks = by_key(all, keys, all.len() as int);
    assert forall|t: u64| (has_time(a, t) || has_time(b, t)) <==> has_time(both, t) by {
        if has_time(a, t) {
            let i = choose|i: int| 0 <= i < a.len() && (#[trigger] a[i]).timestamp_ms == t;
            assert(both[i].timestamp_ms == t);
        }
        if has_time(b, t) {
            let i = choose|i: int| 0 <= i < b.len() && (#[trigger] b[i]).timestamp_ms == t;
            assert(both[i + a.len()].timestamp_ms == t);
        }
        if has_time(both, t) {
            let i = choose|i: int| 0 <= i < both.len() && (#[trigger] both[i]).timestamp_ms == t;
            if i < a.len() {
                assert(a[i].timestamp_ms == t);
            } else {
                assert(b[i - a.len()].timestamp_ms == t);
            }
        }
    }
    if m.len() < capacity || a.len() + b.len() <= capacity {
        assert(all.len() <= capacity);
        assert forall|t: u64| (has_time(a, t) || has_time(b, t)) <==> #[trigger] has_time(
            m,
            t,
        ) by {
            assert(has_time(both, t) <==> has_time(all, t));
        }
    }
    assert forall|i: int|
        0 <= i < m.len() && has_time(a, (#[trigger] m[i]).timestamp_ms) implies a.contains(
        m[i],
    ) by {
        let p = if all.len() <= capacity {
            i
        } else {
            all.len() - 1 - ranks[i]
        };
        assert(m[i] == all[p]);
        by_time_keeps_first(both, p);
        let k = choose|k: int|
            0 <= k < both.len() && #[trigger] both[k] == all[p] && forall|q: int|
                0 <= q < k ==> (#[trigger] both[q]).timestamp_ms != both[k].timestamp_ms;
        let q = choose|q: int|
            0 <= q < a.len() && (#[trigger] a[q]).timestamp_ms == m[i].timestamp_ms;
        assert(both[q] == a[q]);
        assert(k <= q);
        assert(a[k] == m[i]);
    }
}

/// Where not all timestamps of two reservoirs fit, those with the lowest keys
/// are lost: a key belongs to the timestamp and the number of newer ones.
pub proof fn merged_keeps_highest_keys(
    a: Seq<SampleModel>,
    b: Seq<SampleModel>,
    capacity: nat,
    keys: SampleKeys,
    lost: int,
    i: int,
)
    requires
        0 <= lost < by_time(a + b).len(),
        !merged(a, b, capacity, keys).contains(by_time(a + b)[lost]),
        0 <= i < merged(a, b, capacity, keys).len(),
    ensures
        ({
            let all = by_time(a + b);
            exists|k: int|
                {
                    &&& 0 <= k < all.len()
                    &&& #[trigger] all[k] == merged(a, b, capacity, keys)[i]
                    &&& keys.key_view(all[k].timestamp_ms, all.len() - 1 - k) >= keys.key_view(
                        all[lost].timestamp_ms,
                        all.len() - 1 - lost,
                    )
                }
        }),
{
    let all = by_time(a + b);
    let m = merged(a, b, capacity, keys);
    let n = all.len() as int;
    if n <= capacity {
        assert(m[lost] == all[lost]);
    } else {
        let ranks = by_key(all, keys, n);
        by_key_orders(all, keys, n);
        rank_stands(all, keys, n, n - 1 - lost);
        let at = choose|at: int| 0 <= at < n && #[trigger] ranks[at] == n - 1 - lost;
        if at < capacity {
            assert(m[at] == all[lost]);
        }
        assert(settled_key(all, keys, ranks[i]) >= settled_key(all, keys, ranks[at]));
        assert(all[n - 1 - ranks[i]] == m[i]);
    }
}

proof fn rank_stands(s: Seq<SampleModel>, keys: SampleKeys, n: int, rank: int)
    requires
        0 <= rank < n <= s.len(),
    ensures
        exists|at: int| 0 <= at < n && #[trigger] by_key(s, keys, n)[at] == rank,
    decreases n,
{
    let rest = by_key(s, keys, n - 1);
    let key = settled_key(s, keys, n - 1);
    by_key_orders(s, keys, n - 1);
    rank_slot_bounds(rest, s, keys, 0, key);
    let slot = rank_slot(rest, s, keys, 0, key);
    let r = by_key(s, keys, n);
    if rank == n - 1 {
        assert(r[slot] == rank);
    } else {
        rank_stands(s, keys, n - 1, rank);
        let at = choose|at: int| 0 <= at < n - 1 && #[trigger] rest[at] == rank;
        if at < slot {
            assert(r[at] == rank);
        } else {
            assert(r[at + 1] == rank);
        }
    }
}

/// A sample that comes where there is no room takes the place of one whose key
/// is lowest, and only where its own key is higher.
pub proof fn lowest_key_leaves(
    s: Seq<SampleModel>,
    capacity: nat,
    sample: SampleModel,
    keys: SampleKeys,
)
    requires
        s.len() == capacity,
        capacity > 0,
    ensures
        ({
            let new_to_old = by_age(s);
            let now = inserted(s, capacity, sample, keys);
            exists|m: int|
                {
                    &&& 0 <= m < new_to_old.len()
                    &&& forall|i: int|
                        0 <= i < new_to_old.len() ==> keys.key_view(
                            new_to_old[m].timestamp_ms,
                            m + 1,
                        ) <= keys.key_view((#[trigger] new_to_old[i]).timestamp_ms, i + 1)
                    &&& if keys.key_view(sample.timestamp_ms, 0) > keys.key_view(
                        new_to_old[m].timestamp_ms,
                        m + 1,
                    ) {
                        now == #[trigger] new_to_old.update(m, sample)
                    } else {
                        now == new_to_old
                    }
                }
        }),
{
    let ranked = by_age(s);
    by_age_orders(s);
    let n = ranked.len() as int;
    lowest_is_lowest(ranked, keys, n);
    let m = lowest(ranked, keys, n);
    assert forall|i: int| 0 <= i < n implies keys.key_view(ranked[m].timestamp_ms, m + 1)
        <= keys.key_view((#[trigger] ranked[i]).timestamp_ms, i + 1) by {
        assert(waiting_key(ranked, keys, m) <= waiting_key(ranked, keys, i));
    }
    let changed = ranked.update(m, sample);
}

/// The newest timestamp among the first `n` samples.
pub open spec fn newest_of(s: Seq<SampleModel>, n: int) -> Option<u64>
    decreases n,
{
    if n <= 0 || n > s.len() {
        None
    } else {
        match newest_of(s, n - 1) {
            Some(t) => if s[n - 1].timestamp_ms > t {
                Some(s[n - 1].timestamp_ms)
            } else {
                Some(t)
            },
            None => Some(s[n - 1].timestamp_ms),
        }
    }
}

/// The newest timestamp is that of a sample, and none is newer.
pub proof fn newest_is_newest(s: Seq<SampleModel>, n: int)
    requires
        0 <= n <= s.len(),
    ensures
        match newest_of(s, n) {
            Some(t) => (exists|i: int| 0 <= i < n && (#[trigger] s[i]).timestamp_ms == t)
                && forall|i: int| 0 <= i < n ==> (#[trigger] s[i]).timestamp_ms <= t,
            None => n == 0,
        },
    decreases n,
{
    if n > 0 {
        newest_is_newest(s, n - 1);
        let t = newest_of(s, n)->Some_0;
        if s[n - 1].timestamp_ms != t {
            let i = choose|i: int| 0 <= i < n - 1 && (#[trigger] s[i]).timestamp_ms == t;
            assert(s[i].timestamp_ms == t);
        } else {
            assert(s[n - 1].timestamp_ms == t);
        }
    }
}

/// The default reservoir capacity per outcome.
pub const DEFAULT_CAPACITY: usize = 20;

/// A bounded set of samples where newer samples are more likely to be
/// retained than older ones.
#[derive(Debug)]
pub struct WeightedReservoir {
    samples: Vec<Sample>,
    capacity: usize,
}

impl WeightedReservoir {
    /// The samples.
    pub closed spec fn content(self) -> Seq<SampleModel> {
        sample_views(self.samples@)
    }

    /// The capacity.
    pub closed spec fn room(self) -> nat {
        self.capacity as nat
    }

    /// There are no more samples than the capacity allows.
    pub open spec fn well_formed(self) -> bool {
        self.content().len() <= self.room()
    }

    /// Creates a new reservoir with the default capacity.
    pub fn new() -> (r: Self)
        ensures
            r.well_formed(),
            r.content() == Seq::<SampleModel>::empty(),
            r.room() == DEFAULT_CAPACITY,
    {
        Self::with_capacity(DEFAULT_CAPACITY)
    }

    /// Creates a new reservoir with the specified capacity.
    pub fn with_capacity(capacity: usize) -> (r: Self)
        ensures
            r.well_formed(),
            r.content() == Seq::<SampleModel>::empty(),
            r.room() == capacity,
    {
        let r = WeightedReservoir { samples: Vec::new(), capacity };
        assert(r.content() =~= Seq::<SampleModel>::empty());
        r
    }

    /// Inserts a new sample. Where there is no room, it competes with the
    /// samples by key.
    pub fn insert(&mut self, sample: Sample, keys: &SampleKeys)
        requires
            old(self).well_formed(),
            old(self).room() > 0,
        ensures
            final(self).well_formed(),
            final(self).room() == old(self).room(),
            final(self).content() == inserted(old(self).content(), old(self).room(), sample@, *keys),
    {
        proof {
            insert_is_bounded(self.content(), self.room(), sample@, *keys);
        }
        if self.samples.len() < self.capacity {
            let ghost before = self.samples@;
            self.samples.push(sample);
            proof {
                assert(sample_views(self.samples@) =~= sample_views(before).push(sample@));
            }
            return ;
        }
        let mut ranked = age_ranked(&self.samples);
        let ghost r = sample_views(ranked@);
        proof {
            by_age_orders(sample_views(self.samples@));
        }
        let mut m: usize = 0;
        let mut least: u64 = keys.key(ranked[0].timestamp_ms, 1);
        let mut i: usize = 1;
        proof {
            assert(r[0] == ranked@[0]@);
        }
        while i < ranked.len()
            invariant
                1 <= i <= ranked@.len(),
                i <= ranked.len(),
                r == sample_views(ranked@),
                m < i,
                m == lowest(r, *keys, i as int),
                least == waiting_key(r, *keys, m as int),
            decreases ranked@.len() - i,
        {
            assert(r[i as int] == ranked@[i as int]@);
            let key: u64 = keys.key(ranked[i].timestamp_ms, i + 1);
            if key < least {
                least = key;
                m = i;
            }
            i = i + 1;
        }
        if keys.key(sample.timestamp_ms, 0) > least {
            let ghost before = ranked@;
            ranked.set(m, sample);
            proof {
                assert(sample_views(ranked@) =~= sample_views(before).update(m as int, sample@));
            }
        }
        self.samples = ranked;
    }

    /// The samples in the reservoir.
    pub fn samples(&self) -> (r: &[Sample])
        ensures
            sample_views(r@) == self.content(),
    {
        self.samples.as_slice()
    }

    /// Merges another reservoir into this one: of every timestamp one sample
    /// stays, and where they do not all fit, those with the highest keys.
    pub fn merge(&mut self, other: &WeightedReservoir, keys: &SampleKeys)
        requires
            old(self).well_formed(),
        ensures
            final(self).well_formed(),
            final(self).room() == old(self).room(),
            final(self).content() == merged(
                old(self).content(),
                other.content(),
                old(self).room(),
                *keys,
            ),
    {
        proof {
            merge_is_bounded(self.content(), other.content(), self.room(), *keys);
        }
        let all = time_ordered(&self.samples, &other.samples);
        let ghost a = sample_views(all@);
        if all.len() <= self.capacity {
            self.samples = all;
            return ;
        }
        let n: usize = all.len();
        let mut ranks: Vec<usize> = Vec::new();
        let mut i: usize = 0;
        proof {
            assert(int_views(ranks@) =~= by_key(a, *keys, 0));
        }
        while i < n
            invariant
                0 <= i <= n,
                n == all@.len(),
                a == sample_views(all@),
                int_views(ranks@) == by_key(a, *keys, i as int),
            decreases n - i,
        {
            proof {
                by_key_orders(a, *keys, i as int);
                assert forall|k: int| 0 <= k < ranks@.len() implies #[trigger] ranks@[k]
                    < all@.len() by {
                    assert(int_views(ranks@)[k] == ranks@[k]);
                }
            }
            insert_rank(&mut ranks, &all, keys, i);
            i = i + 1;
        }
        let mut kept: Vec<Sample> = Vec::new();
        let mut k: usize = 0;
        proof {
            by_key_orders(a, *keys, n as int);
        }
        while k < self.capacity
            invariant
                0 <= k <= self.capacity,
                self.capacity < n,
                n == all@.len(),
                a == sample_views(all@),
                int_views(ranks@) == by_key(a, *keys, n as int),
                by_key(a, *keys, n as int).len() == n,
                forall|j: int| 0 <= j < n ==> 0 <= #[trigger] by_key(a, *keys, n as int)[j] < n,
                kept@.len() == k,
                forall|j: int|
                    0 <= j < k ==> (#[trigger] kept@[j])@ == a[n - 1 - by_key(
                        a,
                        *keys,
                        n as int,
                    )[j]],
            decreases self.capacity - k,
        {
            assert(int_views(ranks@)[k as int] == ranks@[k as int]);
            let rank: usize = ranks[k];
            kept.push(all[n - 1 - rank].clone());
            k = k + 1;
        }
        self.samples = kept;
        proof {
            let capacity = self.capacity as nat;
            assert(sample_views(kept@) =~= Seq::new(
                capacity,
                |i: int| a[a.len() - 1 - by_key(a, *keys, n as int)[i]],
            ));
        }
    }

    /// The newest timestamp in the reservoir, if any.
    pub fn newest_timestamp(&self) -> (r: Option<u64>)
        ensures
            r == newest_of(self.content(), self.content().len() as int),
    {
        newest(&self.samples)
    }
}

impl Default for WeightedReservoir {
    fn default() -> (r: Self)
        ensures
            r.well_formed(),
            r.content() == Seq::<SampleModel>::empty(),
            r.room() == DEFAULT_CAPACITY,
    {
        Self::new()
    }
}

/// The newest timestamp of samples.
pub fn newest(samples: &Vec<Sample>) -> (r: Option<u64>)
    ensures
        r == newest_of(sample_views(samples@), samples@.len() as int),
{
    let ghost s = sample_views(samples@);
    let mut newest: Option<u64> = None;
    let mut i: usize = 0;
    while i < samples.len()
        invariant
            0 <= i <= samples@.len(),
            s == sample_views(samples@),
            newest == newest_of(s, i as int),
        decreases samples@.len() - i,
    {
        assert(s[i as int] == samples@[i as int]@);
        let t: u64 = samples[i].timestamp_ms;
        newest = match newest {
            Some(n) => if t > n {
                Some(t)
            } else {
                Some(n)
            },
            None => Some(t),
        };
        i = i + 1;
    }
    newest
}

/// A list of positions as numbers.
pub open spec fn int_views(v: Seq<usize>) -> Seq<int> {
    Seq::new(v.len(), |i: int| v[i] as int)
}

fn insert_rank(ranks: &mut Vec<usize>, all: &Vec<Sample>, keys: &SampleKeys, rank: usize)
    requires
        rank < all@.len(),
        forall|i: int| 0 <= i < old(ranks)@.len() ==> #[trigger] old(ranks)@[i] < all@.len(),
        int_views(old(ranks)@) == by_key(sample_views(all@), *keys, rank as int),
    ensures
        int_views(final(ranks)@) == by_key(sample_views(all@), *keys, rank + 1),
{
    let ghost a = sample_views(all@);
    let ghost before = int_views(ranks@);
    let n: usize = all.len();
    proof {
        assert(a[n - 1 - rank] == all@[n - 1 - rank]@);
    }
    let key: u64 = keys.key(all[n - 1 - rank].timestamp_ms, rank);
    let mut slot: usize = 0;
    while slot < ranks.len() && keys.key(all[n - 1 - ranks[slot]].timestamp_ms, ranks[slot]) >= key
        invariant
            0 <= slot <= ranks@.len(),
            n == all@.len(),
            a == sample_views(all@),
            before == int_views(ranks@),
            forall|i: int| 0 <= i < ranks@.len() ==> #[trigger] ranks@[i] < all@.len(),
            rank_slot(before, a, *keys, 0, key) == rank_slot(before, a, *keys, slot as int, key),
        decreases ranks@.len() - slot,
    {
        assert(before[slot as int] == ranks@[slot as int]);
        assert(a[n - 1 - ranks@[slot as int]] == all@[n - 1 - ranks@[slot as int]]@);
        slot = slot + 1;
    }
    proof {
        if slot < ranks@.len() {
            assert(before[slot as int] == ranks@[slot as int]);
            assert(a[n - 1 - ranks@[slot as int]] == all@[n - 1 - ranks@[slot as int]]@);
        }
        assert(rank_slot(before, a, *keys, 0, key) == slot);
    }
    ranks.insert(slot, rank);
    proof {
        assert(int_views(ranks@) =~= before.insert(slot as int, rank as int));
    }
}

/// Samples from new to old.
fn age_ranked(samples: &Vec<Sample>) -> (r: Vec<Sample>)
    ensures
        sample_views(r@) == by_age(sample_views(samples@)),
        r@.len() == samples@.len(),
{
    let ghost s = sample_views(samples@);
    let mut out: Vec<Sample> = Vec::new();
    let mut i: usize = 0;
    proof {
        assert(s.take(0) =~= Seq::<SampleModel>::empty());
        assert(sample_views(out@) =~= Seq::<SampleModel>::empty());
    }
    while i < samples.len()
        invariant
            0 <= i <= samples@.len(),
            s == sample_views(samples@),
            out@.len() == i,
            sample_views(out@) == by_age(s.take(i as int)),
        decreases samples@.len() - i,
    {
        let t: u64 = samples[i].timestamp_ms;
        let ghost before = sample_views(out@);
        let mut slot: usize = 0;
        while slot < out.len() && out[slot].timestamp_ms >= t
            invariant
                0 <= slot <= out@.len(),
                before == sample_views(out@),
                age_slot(before, 0, t) == age_slot(before, slot as int, t),
            decreases out@.len() - slot,
        {
            assert(before[slot as int] == out@[slot as int]@);
            slot = slot + 1;
        }
        proof {
            if slot < out@.len() {
                assert(before[slot as int] == out@[slot as int]@);
            }
            let u = s.take(i + 1);
            assert(u.drop_last() =~= s.take(i as int));
            assert(u.last() == samples@[i as int]@);
        }
        out.insert(slot, samples[i].clone());
        proof {
            assert(sample_views(out@) =~= before.insert(slot as int, samples@[i as int]@));
        }
        i = i + 1;
    }
    proof {
        assert(s.take(s.len() as int) =~= s);
    }
    out
}

fn add_by_time(out: &mut Vec<Sample>, sample: &Sample)
    ensures
        sample_views(final(out)@) == with_time(sample_views(old(out)@), sample@),
{
    let t: u64 = sample.timestamp_ms;
    let ghost before = sample_views(out@);
    let mut slot: usize = 0;
    while slot < out.len() && out[slot].timestamp_ms < t
        invariant
            0 <= slot <= out@.len(),
            before == sample_views(out@),
            time_slot(before, 0, t) == time_slot(before, slot as int, t),
        decreases out@.len() - slot,
    {
        assert(before[slot as int] == out@[slot as int]@);
        slot = slot + 1;
    }
    if slot < out.len() {
        assert(before[slot as int] == out@[slot as int]@);
        if out[slot].timestamp_ms == t {
            return ;
        }
    }
    out.insert(slot, sample.clone());
    proof {
        assert(sample_views(out@) =~= before.insert(slot as int, sample@));
    }
}

fn time_ordered(first: &Vec<Sample>, second: &Vec<Sample>) -> (r: Vec<Sample>)
    ensures
        sample_views(r@) == by_time(sample_views(first@) + sample_views(second@)),
{
    let ghost both = sample_views(first@) + sample_views(second@);
    let mut out: Vec<Sample> = Vec::new();
    let mut i: usize = 0;
    proof {
        assert(both.take(0) =~= Seq::<SampleModel>::empty());
        assert(sample_views(out@) =~= Seq::<SampleModel>::empty());
    }
    while i < first.len()
        invariant
            0 <= i <= first@.len(),
            both == sample_views(first@) + sample_views(second@),
            sample_views(out@) == by_time(both.take(i as int)),
        decreases first@.len() - i,
    {
        proof {
            let u = both.take(i + 1);
            assert(u.drop_last() =~= both.take(i as int));
            assert(u.last() == first@[i as int]@);
        }
        add_by_time(&mut out, &first[i]);
        i = i + 1;
    }
    let mut j: usize = 0;
    while j < second.len()
        invariant
            0 <= j <= second@.len(),
            both == sample_views(first@) + sample_views(second@),
            sample_views(out@) == by_time(both.take(first@.len() + j)),
        decreases second@.len() - j,
    {
        proof {
            let u = both.take(first@.len() + j + 1);
            assert(u.drop_last() =~= both.take(first@.len() + j));
            assert(u.last() == second@[j as int]@);
        }
        add_by_time(&mut out, &second[j]);
        j = j + 1;
    }
    proof {
        assert(both.take(both.len() as int) =~= both);
    }
    out
}

} // verus!
