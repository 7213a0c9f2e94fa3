//! Records of the history file: one to a line, found by configuration and
//! test id.

use vstd::prelude::*;

use crate::history::reservoir::{Sample, SampleModel};
use crate::history::HistoryError;
use crate::text;
use crate::text::{
    before, is_line, lines_of, listed_lines_return, listing, trimmed, views,
};

verus! {

/// Compact form of a sample: run ID, timestamp and duration.
#[derive(Debug)]
pub struct CompactSample(pub String, pub u64, pub u64);

impl View for CompactSample {
    type V = SampleModel;

    open spec fn view(&self) -> SampleModel {
        SampleModel { run_id: self.0@, timestamp_ms: self.1, duration: self.2 }
    }
}

impl CompactSample {
    /// The compact form of a sample.
    pub fn of(sample: &Sample) -> (r: Self)
        ensures
            r@ == sample@,
    {
        CompactSample(sample.run_id.clone(), sample.timestamp_ms, sample.duration)
    }

    /// The sample.
    pub fn sample(&self) -> (r: Sample)
        ensures
            r@ == self@,
    {
        Sample { run_id: self.0.clone(), timestamp_ms: self.1, duration: self.2 }
    }
}

/// The views of a sequence of compact samples.
pub open spec fn compact_views(v: Seq<CompactSample>) -> Seq<SampleModel> {
    Seq::new(v.len(), |i: int| v[i]@)
}

/// A copy of compact samples.
pub fn copy_samples(v: &Vec<CompactSample>) -> (r: Vec<CompactSample>)
    ensures
        compact_views(r@) == compact_views(v@),
{
    let mut out: Vec<CompactSample> = Vec::new();
    let mut i: usize = 0;
    while i < v.len()
        invariant
            0 <= i <= v@.len(),
            out@.len() == i,
            forall|k: int| 0 <= k < i ==> (#[trigger] out@[k])@ == v@[k]@,
        decreases v@.len() - i,
    {
        out.push(CompactSample(v[i].0.clone(), v[i].1, v[i].2));
        i = i + 1;
    }
    proof {
        assert(compact_views(out@) =~= compact_views(v@));
    }
    out
}

/// A single test's history record.
#[derive(Debug)]
pub struct TestRecord {
    /// Key tuple: (config_filename, test_id).
    pub key: (String, String),
    /// Values for this test.
    pub values: TestValues,
}

/// Values stored for a single test in the history file.
#[derive(Debug)]
pub struct TestValues {
    /// Total attempt count.
    pub total_attempts: u64,
    /// Total failure count.
    pub total_failures: u64,
    /// Run ID of the most recent run that included this test.
    pub last_run: String,
    /// Success reservoir: samples for passed attempts.
    pub ok: Vec<CompactSample>,
    /// Failure reservoir: samples for failed attempts.
    pub fail: Vec<CompactSample>,
}

/// What a record is, as a mathematical value.
#[verifier::ext_equal]
pub struct HistoryModel {
    pub config: Seq<char>,
    pub test_id: Seq<char>,
    pub total_attempts: u64,
    pub total_failures: u64,
    pub last_run: Seq<char>,
    pub ok: Seq<SampleModel>,
    pub fail: Seq<SampleModel>,
}

impl View for TestRecord {
    type V = HistoryModel;

    open spec fn view(&self) -> HistoryModel {
        HistoryModel {
            config: self.key.0@,
            test_id: self.key.1@,
            total_attempts: self.values.total_attempts,
            total_failures: self.values.total_failures,
            last_run: self.values.last_run@,
            ok: compact_views(self.values.ok@),
            fail: compact_views(self.values.fail@),
        }
    }
}

/// The views of a sequence of records.
pub open spec fn history_views(v: Seq<TestRecord>) -> Seq<HistoryModel> {
    Seq::new(v.len(), |i: int| v[i]@)
}

impl Clone for TestRecord {
    fn clone(&self) -> (r: Self)
        ensures
            r@ == self@,
    {
        TestRecord {
            key: (self.key.0.clone(), self.key.1.clone()),
            values: TestValues {
                total_attempts: self.values.total_attempts,
                total_failures: self.values.total_failures,
                last_run: self.values.last_run.clone(),
                ok: copy_samples(&self.values.ok),
                fail: copy_samples(&self.values.fail),
            },
        }
    }
}

impl HistoryModel {
    /// The record is that of the test under the configuration.
    pub open spec fn is_of(self, config: Seq<char>, test_id: Seq<char>) -> bool {
        self.config == config && self.test_id == test_id
    }
}

/// The position of a test's record, from the `i`th on.
pub open spec fn position_from(
    records: Seq<HistoryModel>,
    config: Seq<char>,
    test_id: Seq<char>,
    i: int,
) -> Option<int>
    decreases records.len() - i,
{
    if i < 0 || i >= records.len() {
        None
    } else if records[i].is_of(config, test_id) {
        Some(i)
    } else {
        position_from(records, config, test_id, i + 1)
    }
}

/// A test's record.
pub open spec fn lookup(
    records: Seq<HistoryModel>,
    config: Seq<char>,
    test_id: Seq<char>,
) -> Option<HistoryModel> {
    match position_from(records, config, test_id, 0) {
        Some(i) => Some(records[i]),
        None => None,
    }
}

/// No test has two records.
pub open spec fn distinct(records: Seq<HistoryModel>) -> bool {
    forall|i: int, j: int|
        0 <= i < j < records.len() ==> !(#[trigger] records[i]).is_of(
            (#[trigger] records[j]).config,
            records[j].test_id,
        )
}

/// A record takes the place of the test's record, or the last place where the
/// test has none.
pub open spec fn put(records: Seq<HistoryModel>, r: HistoryModel) -> Seq<HistoryModel> {
    match position_from(records, r.config, r.test_id, 0) {
        Some(i) => records.update(i, r),
        None => records.push(r),
    }
}

/// The first `n` records put one after the other.
pub open spec fn loaded(records: Seq<HistoryModel>, n: int) -> Seq<HistoryModel>
    decreases n,
{
    if n <= 0 || n > records.len() {
        Seq::empty()
    } else {
        put(loaded(records, n - 1), records[n - 1])
    }
}

/// The position found is that of the first record of the test; none is found
/// only where there is none.
pub proof fn position_is_first(
    records: Seq<HistoryModel>,
    config: Seq<char>,
    test_id: Seq<char>,
    i: int,
)
    requires
        0 <= i <= records.len(),
    ensures
        match position_from(records, config, test_id, i) {
            Some(k) => i <= k < records.len() && records[k].is_of(config, test_id) && forall|j: int|
                i <= j < k ==> !(#[trigger] records[j]).is_of(config, test_id),
            None => forall|j: int|
                i <= j < records.len() ==> !(#[trigger] records[j]).is_of(config, test_id),
        },
    decreases records.len() - i,
{
    if i < records.len() && !records[i].is_of(config, test_id) {
        position_is_first(records, config, test_id, i + 1);
    }
}

proof fn position_at(records: Seq<HistoryModel>, config: Seq<char>, test_id: Seq<char>, k: int)
    requires
        0 <= k < records.len(),
        records[k].is_of(config, test_id),
        distinct(records),
    ensures
        position_from(records, config, test_id, 0) == Some(k),
{
    position_is_first(records, config, test_id, 0);
    let p = position_from(records, config, test_id, 0)->Some_0;
    if p != k {
        if p < k {
            assert(!records[p].is_of(records[k].config, records[k].test_id));
        } else {
            assert(!records[k].is_of(records[p].config, records[p].test_id));
        }
    }
}

/// What was put is what a look-up gives back, and the records of other tests
/// stay as they are.
pub proof fn lookup_after_put(
    records: Seq<HistoryModel>,
    r: HistoryModel,
    config: Seq<char>,
    test_id: Seq<char>,
)
    requires
        distinct(records),
    ensures
        distinct(put(records, r)),
        lookup(put(records, r), config, test_id) == (if r.is_of(config, test_id) {
            Some(r)
        } else {
            lookup(records, config, test_id)
        }),
{
    position_is_first(records, r.config, r.test_id, 0);
    position_is_first(records, config, test_id, 0);
    let after = put(records, r);
    assert forall|i: int, j: int| 0 <= i < j < after.len() implies !(#[trigger] after[i]).is_of(
        (#[trigger] after[j]).config,
        after[j].test_id,
    ) by {
        match position_from(records, r.config, r.test_id, 0) {
            Some(k) => {
                if i == k {
                    assert(!records[k].is_of(records[j].config, records[j].test_id));
                } else if j == k {
                    assert(!records[i].is_of(records[k].config, records[k].test_id));
                } else {
                    assert(!records[i].is_of(records[j].config, records[j].test_id));
                }
            },
            None => {
                if j < records.len() {
                    assert(!records[i].is_of(records[j].config, records[j].test_id));
                }
            },
        }
    }
    let at = match position_from(records, r.config, r.test_id, 0) {
        Some(k) => k,
        None => records.len() as int,
    };
    assert(after[at] == r);
    if r.is_of(config, test_id) {
        position_at(after, config, test_id, at);
    } else {
        match position_from(records, config, test_id, 0) {
            Some(k) => {
                assert(k != at);
                assert(after[k] == records[k]);
                position_at(after, config, test_id, k);
            },
            None => {
                position_is_first(after, config, test_id, 0);
                match position_from(after, config, test_id, 0) {
                    Some(k) => {
                        assert(k == at || after[k] == records[k]);
                    },
                    None => {},
                }
            },
        }
    }
}

/// The position of a test's record.
pub fn find(records: &Vec<TestRecord>, config: &str, test_id: &str) -> (r: Option<usize>)
    ensures
        match r {
            Some(i) => i < records@.len() && position_from(
                history_views(records@),
                config@,
                test_id@,
                0,
            ) == Some(i as int),
            None => position_from(history_views(records@), config@, test_id@, 0) is None,
        },
{
    let ghost all = history_views(records@);
    let mut i: usize = 0;
    while i < records.len()
        invariant
            0 <= i <= records@.len(),
            all == history_views(records@),
            position_from(all, config@, test_id@, 0) == position_from(
                all,
                config@,
                test_id@,
                i as int,
            ),
        decreases records@.len() - i,
    {
        assert(all[i as int] == records@[i as int]@);
        if text::same(records[i].key.0.as_str(), config) && text::same(
            records[i].key.1.as_str(),
            test_id,
        ) {
            return Some(i);
        }
        i = i + 1;
    }
    None
}

/// Puts a record in the place of the test's record, or last.
pub fn put_record(records: &mut Vec<TestRecord>, r: TestRecord)
    requires
        distinct(history_views(old(records)@)),
    ensures
        history_views(final(records)@) == put(history_views(old(records)@), r@),
        distinct(history_views(final(records)@)),
{
    let ghost before = history_views(records@);
    proof {
        lookup_after_put(before, r@, r@.config, r@.test_id);
    }
    match find(records, r.key.0.as_str(), r.key.1.as_str()) {
        Some(i) => {
            records.set(i, r);
            proof {
                assert(history_views(records@) =~= before.update(i as int, r@));
            }
        },
        None => {
            records.push(r);
            proof {
                assert(history_views(records@) =~= before.push(r@));
            }
        },
    }
}

/// The records of a history file: of several of one test, the last counts.
pub fn load_records(parsed: &Vec<TestRecord>) -> (r: Vec<TestRecord>)
    ensures
        history_views(r@) == loaded(history_views(parsed@), parsed@.len() as int),
        distinct(history_views(r@)),
{
    let ghost all = history_views(parsed@);
    let mut out: Vec<TestRecord> = Vec::new();
    let mut i: usize = 0;
    proof {
        assert(history_views(out@) =~= loaded(all, 0));
    }
    while i < parsed.len()
        invariant
            0 <= i <= parsed@.len(),
            all == history_views(parsed@),
            history_views(out@) == loaded(all, i as int),
            distinct(history_views(out@)),
        decreases parsed@.len() - i,
    {
        put_record(&mut out, parsed[i].clone());
        i = i + 1;
    }
    out
}

/// The lines that hold a record: those that are not blank.
pub open spec fn filled(lines: Seq<Seq<char>>) -> Seq<Seq<char>>
    decreases lines.len(),
{
    if lines.len() == 0 {
        Seq::empty()
    } else if trimmed(lines.last()).len() == 0 {
        filled(lines.drop_last())
    } else {
        filled(lines.drop_last()).push(lines.last())
    }
}

/// The lines of a history file that hold a record.
pub fn record_lines(content: &str) -> (r: Vec<String>)
    ensures
        views(r@) == filled(lines_of(content@)),
{
    let all = text::lines(content);
    let ghost lines = lines_of(content@);
    let mut out: Vec<String> = Vec::new();
    let mut i: usize = 0;
    proof {
        assert(lines.take(0) =~= Seq::<Seq<char>>::empty());
        assert(views(out@) =~= Seq::<Seq<char>>::empty());
    }
    while i < all.len()
        invariant
            0 <= i <= all@.len(),
            views(all@) == lines,
            views(out@) == filled(lines.take(i as int)),
        decreases all@.len() - i,
    {
        let ghost prior = out@;
        proof {
            let t = lines.take(i + 1);
            assert(t.drop_last() =~= lines.take(i as int));
            assert(t.last() == views(all@)[i as int]);
        }
        let line = text::trim(all[i].as_str());
        if !line.as_str().is_empty() {
            out.push(all[i].clone());
            proof {
                assert(views(out@) =~= views(prior).push(all@[i as int]@));
            }
        }
        i = i + 1;
    }
    proof {
        assert(views(all@).len() == all@.len());
        assert(lines.take(lines.len() as int) =~= lines);
    }
    out
}

/// A record stands before another in the file: by configuration, then by test
/// id.
pub open spec fn key_before(a: HistoryModel, b: HistoryModel) -> bool {
    before(a.config, b.config) || (a.config == b.config && before(a.test_id, b.test_id))
}

fn stands_before(a: &TestRecord, b: &TestRecord) -> (r: bool)
    ensures
        r == key_before(a@, b@),
{
    text::comes_before(a.key.0.as_str(), b.key.0.as_str()) || (text::same(
        a.key.0.as_str(),
        b.key.0.as_str(),
    ) && text::comes_before(a.key.1.as_str(), b.key.1.as_str()))
}

/// `order` lists every one of `n` positions once.
pub open spec fn lists_all(order: Seq<usize>, n: int) -> bool {
    &&& order.len() == n
    &&& forall|i: int| 0 <= i < order.len() ==> 0 <= #[trigger] order[i] < n
    &&& forall|i: int, j: int|
        0 <= i < j < order.len() ==> #[trigger] order[i] != #[trigger] order[j]
}

/// Records in the listed order go up by key.
pub open spec fn ascends(records: Seq<HistoryModel>, order: Seq<usize>) -> bool {
    forall|i: int, j: int|
        0 <= i < j < order.len() ==> key_before(
            records[(#[trigger] order[i]) as int],
            records[(#[trigger] order[j]) as int],
        )
}

proof fn key_before_transitive(a: HistoryModel, b: HistoryModel, c: HistoryModel)
    requires
        key_before(a, b),
        key_before(b, c),
    ensures
        key_before(a, c),
{
    if before(a.config, b.config) && before(b.config, c.config) {
        text::before_transitive(a.config, b.config, c.config);
    }
    if before(a.test_id, b.test_id) && before(b.test_id, c.test_id) {
        text::before_transitive(a.test_id, b.test_id, c.test_id);
    }
}

proof fn key_before_total(a: HistoryModel, b: HistoryModel)
    requires
        !a.is_of(b.config, b.test_id),
    ensures
        key_before(a, b) || key_before(b, a),
{
    text::before_total(a.config, b.config);
    text::before_total(a.test_id, b.test_id);
}

/// The positions of records in the order in which they are written: every one
/// once, up by key.
pub fn save_order(records: &Vec<TestRecord>) -> (r: Vec<usize>)
    requires
        distinct(history_views(records@)),
    ensures
        lists_all(r@, records@.len() as int),
        ascends(history_views(records@), r@),
{
    let ghost all = history_views(records@);
    let mut out: Vec<usize> = Vec::new();
    let mut i: usize = 0;
    while i < records.len()
        invariant
            0 <= i <= records@.len(),
            all == history_views(records@),
            distinct(all),
            lists_all(out@, i as int),
            ascends(all, out@),
        decreases records@.len() - i,
    {
        let ghost prior = out@;
        let mut slot: usize = 0;
        while slot < out.len() && stands_before(&records[out[slot]], &records[i])
            invariant
                0 <= slot <= out@.len(),
                i < records@.len(),
                all == history_views(records@),
                lists_all(out@, i as int),
                forall|k: int|
                    0 <= k < slot ==> key_before(all[(#[trigger] out@[k]) as int], all[i as int]),
            decreases out@.len() - slot,
        {
            assert(all[out@[slot as int] as int] == records@[out@[slot as int] as int]@);
            slot = slot + 1;
        }
        out.insert(slot, i);
        proof {
            let s = slot as int;
            assert forall|k: int| 0 <= k < out@.len() implies #[trigger] out@[k] == (if k < s {
                prior[k]
            } else if k == s {
                i
            } else {
                prior[k - 1]
            }) by {}
            if s < prior.len() {
                let q = prior[s] as int;
                assert(all[q] == records@[q]@);
                assert(!all[q].is_of(all[i as int].config, all[i as int].test_id));
                key_before_total(all[q], all[i as int]);
            }
            assert forall|a: int, b: int| 0 <= a < b < out@.len() implies key_before(
                all[(#[trigger] out@[a]) as int],
                all[(#[trigger] out@[b]) as int],
            ) by {
                if a < s && b > s {
                    assert(key_before(all[prior[a] as int], all[prior[b - 1] as int]));
                } else if a < s && b < s {
                    assert(key_before(all[prior[a] as int], all[prior[b] as int]));
                } else if a > s {
                    assert(key_before(all[prior[a - 1] as int], all[prior[b - 1] as int]));
                } else if a == s {
                    if b - 1 > s {
                        assert(key_before(all[prior[s] as int], all[prior[b - 1] as int]));
                        key_before_transitive(
                            all[i as int],
                            all[prior[s] as int],
                            all[prior[b - 1] as int],
                        );
                    }
                }
            }
        }
        i = i + 1;
    }
    out
}

/// The records in the listed order.
pub open spec fn written(records: Seq<HistoryModel>, order: Seq<usize>) -> Seq<HistoryModel> {
    Seq::new(order.len(), |i: int| records[order[i] as int])
}

/// Records go up by key, so that no test has two.
pub open spec fn in_key_order(records: Seq<HistoryModel>) -> bool {
    forall|i: int, j: int|
        0 <= i < j < records.len() ==> key_before(#[trigger] records[i], #[trigger] records[j])
}

/// A list of every position holds each.
proof fn every_position_listed(order: Seq<usize>, n: int, k: int)
    requires
        lists_all(order, n),
        0 <= k < n,
    ensures
        exists|i: int| 0 <= i < order.len() && #[trigger] order[i] == k,
{
    let s = Seq::new(order.len(), |i: int| order[i] as int);
    assert(s.no_duplicates()) by {
        assert forall|i: int, j: int| 0 <= i < s.len() && 0 <= j < s.len() && i != j implies s[i]
            != s[j] by {
            if i < j {
                assert(order[i] != order[j]);
            } else {
                assert(order[j] != order[i]);
            }
        }
    }
    s.unique_seq_to_set();
    vstd::set_lib::lemma_int_range(0, n);
    let range = vstd::set_lib::set_int_range(0, n);
    assert(s.to_set().subset_of(range)) by {
        assert forall|x: int| s.to_set().contains(x) implies range.contains(x) by {
            let i = choose|i: int| 0 <= i < s.len() && s[i] == x;
            assert(0 <= order[i] < n);
        }
    }
    vstd::set_lib::lemma_subset_equality(s.to_set(), range);
    assert(range.contains(k));
    assert(s.contains(k));
    let i = choose|i: int| 0 <= i < s.len() && s[i] == k;
    assert(order[i] == k);
}

/// The order of records does not matter to a look-up.
proof fn written_answers_alike(
    records: Seq<HistoryModel>,
    order: Seq<usize>,
    config: Seq<char>,
    test_id: Seq<char>,
)
    requires
        distinct(records),
        lists_all(order, records.len() as int),
    ensures
        distinct(written(records, order)),
        lookup(written(records, order), config, test_id) == lookup(records, config, test_id),
{
    let w = written(records, order);
    assert forall|i: int, j: int| 0 <= i < j < w.len() implies !(#[trigger] w[i]).is_of(
        (#[trigger] w[j]).config,
        w[j].test_id,
    ) by {
        let (a, b) = (order[i] as int, order[j] as int);
        assert(order[i] != order[j]);
        if a < b {
            assert(!records[a].is_of(records[b].config, records[b].test_id));
        } else {
            assert(!records[b].is_of(records[a].config, records[a].test_id));
        }
    }
    position_is_first(records, config, test_id, 0);
    position_is_first(w, config, test_id, 0);
    match position_from(records, config, test_id, 0) {
        Some(k) => {
            every_position_listed(order, records.len() as int, k);
            let i = choose|i: int| 0 <= i < order.len() && #[trigger] order[i] == k;
            assert(w[i] == records[k]);
            position_at(w, config, test_id, i);
        },
        None => {
            match position_from(w, config, test_id, 0) {
                Some(i) => {
                    assert(w[i] == records[order[i] as int]);
                },
                None => {},
            }
        },
    }
}

/// Records without two of one test are loaded as they stand.
proof fn distinct_records_load(records: Seq<HistoryModel>, n: int)
    requires
        distinct(records),
        0 <= n <= records.len(),
    ensures
        loaded(records, n) == records.take(n),
    decreases n,
{
    if n > 0 {
        distinct_records_load(records, n - 1);
        let earlier = records.take(n - 1);
        let r = records[n - 1];
        position_is_first(earlier, r.config, r.test_id, 0);
        match position_from(earlier, r.config, r.test_id, 0) {
            Some(k) => {
                assert(records[k] == earlier[k]);
                assert(!records[k].is_of(records[n - 1].config, records[n - 1].test_id));
            },
            None => {},
        }
        assert(records.take(n) =~= earlier.push(r));
    } else {
        assert(records.take(0) =~= Seq::<HistoryModel>::empty());
    }
}

/// A saved history loads back: the records, written in any order that lists
/// each once, and loaded again, answer every look-up as before.
pub proof fn saved_history_loads_back(
    records: Seq<HistoryModel>,
    order: Seq<usize>,
    config: Seq<char>,
    test_id: Seq<char>,
)
    requires
        distinct(records),
        lists_all(order, records.len() as int),
    ensures
        distinct(loaded(written(records, order), records.len() as int)),
        lookup(loaded(written(records, order), records.len() as int), config, test_id) == lookup(
            records,
            config,
            test_id,
        ),
{
    let w = written(records, order);
    written_answers_alike(records, order, config, test_id);
    distinct_records_load(w, w.len() as int);
    assert(w.take(w.len() as int) =~= w);
}

/// The records in the order in which they are written.
pub fn in_save_order(records: &Vec<TestRecord>) -> (r: Vec<TestRecord>)
    requires
        distinct(history_views(records@)),
    ensures
        r@.len() == records@.len(),
        in_key_order(history_views(r@)),
        forall|c: Seq<char>, t: Seq<char>| #[trigger]
            lookup(history_views(r@), c, t) == lookup(history_views(records@), c, t),
{
    let ghost all = history_views(records@);
    let order = save_order(records);
    let mut out: Vec<TestRecord> = Vec::new();
    let mut i: usize = 0;
    while i < order.len()
        invariant
            0 <= i <= order@.len(),
            all == history_views(records@),
            lists_all(order@, records@.len() as int),
            out@.len() == i,
            forall|k: int| 0 <= k < i ==> (#[trigger] out@[k])@ == written(all, order@)[k],
        decreases order@.len() - i,
    {
        assert(0 <= order@[i as int] < records@.len());
        assert(all[order@[i as int] as int] == records@[order@[i as int] as int]@);
        out.push(records[order[i]].clone());
        i = i + 1;
    }
    proof {
        let w = written(all, order@);
        assert(history_views(out@) =~= w);
        assert forall|a: int, b: int| 0 <= a < b < w.len() implies key_before(
            #[trigger] w[a],
            #[trigger] w[b],
        ) by {
            assert(key_before(all[order@[a] as int], all[order@[b] as int]));
        }
        assert forall|c: Seq<char>, t: Seq<char>| #[trigger] lookup(w, c, t) == lookup(
            all,
            c,
            t,
        ) by {
            written_answers_alike(all, order@, c, t);
        }
    }
    out
}

/// The error of the first line from the `i`th on that holds no record.
pub open spec fn first_malformed(lines: Seq<Result<TestRecord, String>>, i: int) -> Option<
    Seq<char>,
>
    decreases lines.len() - i,
{
    if i < 0 || i >= lines.len() {
        None
    } else {
        match lines[i] {
            Err(e) => Some(e@),
            Ok(_) => first_malformed(lines, i + 1),
        }
    }
}

/// The records that lines hold, of several of one test the last.
pub open spec fn records_on(lines: Seq<Result<TestRecord, String>>) -> Seq<HistoryModel> {
    loaded(Seq::new(lines.len(), |i: int| lines[i]->Ok_0@), lines.len() as int)
}

/// The records of a history file, given what was read of each of its lines. A
/// line that holds no record is an error, the first of several.
pub fn read_lines(lines: &Vec<Result<TestRecord, String>>) -> (r: Result<
    Vec<TestRecord>,
    HistoryError,
>)
    ensures
        match first_malformed(lines@, 0) {
            Some(m) => r matches Err(HistoryError::Parse(e)) && e@ == m,
            None => r matches Ok(v) && history_views(v@) == records_on(lines@) && distinct(
                history_views(v@),
            ),
        },
{
    let mut parsed: Vec<TestRecord> = Vec::new();
    let mut i: usize = 0;
    while i < lines.len()
        invariant
            0 <= i <= lines@.len(),
            first_malformed(lines@, 0) == first_malformed(lines@, i as int),
            parsed@.len() == i,
            forall|k: int|
                0 <= k < i ==> (#[trigger] lines@[k]) is Ok && parsed@[k]@ == lines@[k]->Ok_0@,
        decreases lines@.len() - i,
    {
        match &lines[i] {
            Ok(record) => {
                parsed.push(record.clone());
            },
            Err(e) => {
                return Err(HistoryError::Parse(e.clone()));
            },
        }
        i = i + 1;
    }
    proof {
        assert(history_views(parsed@) =~= Seq::new(lines@.len(), |k: int| lines@[k]->Ok_0@));
    }
    Ok(load_records(&parsed))
}

/// A line that can hold a record: one that is not blank.
pub open spec fn is_filled_line(line: Seq<char>) -> bool {
    is_line(line) && trimmed(line).len() > 0
}

proof fn filled_stay(lines: Seq<Seq<char>>)
    requires
        forall|k: int| 0 <= k < lines.len() ==> trimmed(#[trigger] lines[k]).len() > 0,
    ensures
        filled(lines) == lines,
    decreases lines.len(),
{
    if lines.len() > 0 {
        let rest = lines.drop_last();
        assert forall|k: int| 0 <= k < rest.len() implies trimmed(#[trigger] rest[k]).len() > 0 by {
            assert(rest[k] == lines[k]);
        }
        filled_stay(rest);
        assert(trimmed(lines[lines.len() - 1]).len() > 0);
        assert(rest.push(lines.last()) =~= lines);
    } else {
        assert(filled(lines) =~= lines);
    }
}

/// The records that were written, each on a line of its own, are the lines
/// that are read, all of them and in their order.
pub proof fn written_lines_are_read(items: Seq<Seq<char>>)
    requires
        forall|k: int| 0 <= k < items.len() ==> is_filled_line(#[trigger] items[k]),
    ensures
        filled(lines_of(listing(items))) == items,
{
    let content = listing(items);
    assert forall|k: int| 0 <= k < items.len() implies is_line(#[trigger] items[k]) by {
        assert(is_filled_line(items[k]));
    }
    listed_lines_return(items, Seq::empty());
    assert(content + Seq::<char>::empty() =~= content);
    assert(lines_of(Seq::<char>::empty()) =~= Seq::<Seq<char>>::empty());
    assert(lines_of(content) =~= items);
    assert forall|k: int| 0 <= k < items.len() implies trimmed(#[trigger] items[k]).len() > 0 by {
        assert(is_filled_line(items[k]));
    }
    filled_stay(items);
}

/// Of the lines of a file, exactly the blank ones hold no record.
pub proof fn blank_lines_hold_nothing(lines: Seq<Seq<char>>, line: Seq<char>)
    ensures
        filled(lines).contains(line) <==> lines.contains(line) && trimmed(line).len() > 0,
    decreases lines.len(),
{
    if lines.len() > 0 {
        let rest = lines.drop_last();
        blank_lines_hold_nothing(rest, line);
        let (before, after) = (filled(rest), filled(lines));
        assert(lines[lines.len() - 1] == lines.last());
        if rest.contains(line) {
            let k = choose|k: int| 0 <= k < rest.len() && rest[k] == line;
            assert(lines[k] == line);
        }
        if before.contains(line) {
            let k = choose|k: int| 0 <= k < before.len() && before[k] == line;
            assert(after[k] == line);
        }
        if lines.contains(line) && line != lines.last() {
            let k = choose|k: int| 0 <= k < lines.len() && lines[k] == line;
            assert(rest[k] == line);
        }
        if after.contains(line) {
            let k = choose|k: int| 0 <= k < after.len() && after[k] == line;
            if k < before.len() {
                assert(before[k] == line);
            }
        }
        if line == lines.last() && trimmed(line).len() > 0 {
            assert(after[after.len() - 1] == line);
        }
    }
}

/// A file is malformed exactly where a line holds no record, and the error is
/// that of the first such line.
pub proof fn first_malformed_is_first(lines: Seq<Result<TestRecord, String>>, from: int)
    requires
        0 <= from <= lines.len(),
    ensures
        match first_malformed(lines, from) {
            Some(e) => exists|i: int|
                from <= i < lines.len() && (#[trigger] lines[i] matches Err(m) && m@ == e)
                    && forall|j: int| from <= j < i ==> (#[trigger] lines[j]) is Ok,
            None => forall|j: int| from <= j < lines.len() ==> (#[trigger] lines[j]) is Ok,
        },
    decreases lines.len() - from,
{
    if from < lines.len() {
        if lines[from] is Ok {
            first_malformed_is_first(lines, from + 1);
            if first_malformed(lines, from + 1) is Some {
                let e = first_malformed(lines, from + 1)->Some_0;
                let i = choose|i: int|
                    from + 1 <= i < lines.len() && (#[trigger] lines[i] matches Err(m) && m@ == e)
                        && forall|j: int| from + 1 <= j < i ==> (#[trigger] lines[j]) is Ok;
                assert(lines[i] is Err);
                assert forall|j: int| from <= j < i implies (#[trigger] lines[j]) is Ok by {}
            }
        } else {
            assert(lines[from] is Err);
        }
    }
}

/// Of several records of a test the last counts; a test without one has none.
pub proof fn last_record_counts(
    records: Seq<HistoryModel>,
    n: int,
    config: Seq<char>,
    test_id: Seq<char>,
)
    requires
        0 <= n <= records.len(),
    ensures
        distinct(loaded(records, n)),
        match lookup(loaded(records, n), config, test_id) {
            Some(r) => exists|k: int|
                0 <= k < n && #[trigger] records[k] == r && r.is_of(config, test_id) && forall|j: int|
                    k < j < n ==> !(#[trigger] records[j]).is_of(config, test_id),
            None => forall|j: int| 0 <= j < n ==> !(#[trigger] records[j]).is_of(config, test_id),
        },
    decreases n,
{
    if n > 0 {
        last_record_counts(records, n - 1, config, test_id);
        let last = records[n - 1];
        lookup_after_put(loaded(records, n - 1), last, config, test_id);
        if !last.is_of(config, test_id) {
            if lookup(loaded(records, n - 1), config, test_id) is Some {
                let r = lookup(loaded(records, n - 1), config, test_id)->Some_0;
                let k = choose|k: int|
                    0 <= k < n - 1 && #[trigger] records[k] == r && r.is_of(config, test_id)
                        && forall|j: int|
                        k < j < n - 1 ==> !(#[trigger] records[j]).is_of(config, test_id);
                assert(records[k] == r);
                assert forall|j: int| k < j < n implies !(#[trigger] records[j]).is_of(
                    config,
                    test_id,
                ) by {}
            }
        }
    }
}

/// Saved records go up by configuration, and within one by test.
pub proof fn saved_records_go_up(records: Seq<HistoryModel>, i: int, j: int)
    requires
        in_key_order(records),
        0 <= i < j < records.len(),
    ensures
        before(records[i].config, records[j].config) || (records[i].config == records[j].config
            && before(records[i].test_id, records[j].test_id)),
        !records[i].is_of(records[j].config, records[j].test_id),
{
    assert(key_before(records[i], records[j]));
    text::before_irreflexive(records[i].config);
    text::before_irreflexive(records[i].test_id);
}

} // verus!
