//! Retry management and flaky test detection.
//!
//! A test is flaky if it fails at least once and passes at least once.

use vstd::prelude::*;

use crate::strmap::{distinct_keys, leading, leading_is_view, lookup, lookup_at, lookup_found, StrMap};
use crate::text::views;

verus! {

/// Manages test retries and tracks flaky tests.
#[derive(Debug)]
pub struct RetryManager {
    max_retries: usize,
    /// Attempts and successes of each test.
    attempts: StrMap<(usize, usize)>,
    /// Limits on retries by failure category.
    budget: RetryBudget,
}

/// Budget limits for retries by failure category.
#[derive(Debug, Clone, Copy, PartialEq, Eq, Structural)]
pub struct RetryBudget {
    /// Maximum tests to retry for timeout failures.
    pub timeout: usize,
    /// Maximum tests to retry for assertion failures.
    pub failed: usize,
    /// Maximum tests to retry for known error patterns.
    pub known_errors: usize,
    /// Maximum tests to retry for unknown/unexpected errors.
    pub unknown_errors: usize,
}

impl Default for RetryBudget {
    fn default() -> (r: Self)
        ensures
            r.timeout == 6,
            r.failed == 6,
            r.known_errors == 4,
            r.unknown_errors == 4,
    {
        RetryBudget { timeout: 6, failed: 6, known_errors: 4, unknown_errors: 4 }
    }
}

/// At least one attempt failed and at least one succeeded.
pub open spec fn flaky_record(r: (usize, usize)) -> bool {
    r.0 > 1 && r.1 > 0 && r.1 < r.0
}

/// The flaky entries among the first `n`.
spec fn flaky_among(s: Seq<(String, (usize, usize))>, n: int) -> nat
    decreases n,
{
    if n <= 0 || n > s.len() {
        0
    } else {
        flaky_among(s, n - 1) + (if flaky_record(s[n - 1].1) {
            1nat
        } else {
            0nat
        })
    }
}

/// One of the first `n` entries is flaky and has the given key.
spec fn flaky_key(s: Seq<(String, (usize, usize))>, n: int, id: Seq<char>) -> bool {
    exists|m: int| 0 <= m < n && (#[trigger] s[m]).0@ == id && flaky_record(s[m].1)
}

/// The attempts of a record beyond the first.
pub open spec fn retries_of(r: (usize, usize)) -> nat {
    if r.0 > 0 {
        (r.0 - 1) as nat
    } else {
        0
    }
}

/// The attempts of all records beyond the first of each.
pub open spec fn retries_in(m: Map<Seq<char>, (usize, usize)>) -> nat
    decreases m.dom().len(),
{
    if !m.dom().finite() || m.dom().len() == 0 {
        0
    } else {
        let id = m.dom().choose();
        retries_of(m[id]) + retries_in(m.remove(id))
    }
}

/// The tests whose records are flaky.
pub open spec fn flaky_in(m: Map<Seq<char>, (usize, usize)>) -> Set<Seq<char>> {
    m.dom().filter(|id: Seq<char>| flaky_record(m[id]))
}

proof fn retries_without(m: Map<Seq<char>, (usize, usize)>, id: Seq<char>)
    requires
        m.dom().finite(),
        m.contains_key(id),
    ensures
        retries_in(m) == retries_of(m[id]) + retries_in(m.remove(id)),
    decreases m.dom().len(),
{
    let other = m.dom().choose();
    assert(m.dom().contains(other));
    if other != id {
        retries_without(m.remove(other), id);
        retries_without(m.remove(id), other);
        assert(m.remove(other).remove(id) =~= m.remove(id).remove(other));
    }
}

/// A record counts with its retries, whichever record of its test it takes
/// the place of.
proof fn retries_with(m: Map<Seq<char>, (usize, usize)>, id: Seq<char>, r: (usize, usize))
    requires
        m.dom().finite(),
    ensures
        retries_in(m.insert(id, r)) == retries_of(r) + retries_in(m.remove(id)),
        !m.contains_key(id) ==> retries_in(m.insert(id, r)) == retries_of(r) + retries_in(m),
{
    retries_without(m.insert(id, r), id);
    assert(m.insert(id, r).remove(id) =~= m.remove(id));
    if !m.contains_key(id) {
        assert(m.remove(id) =~= m);
    }
}

/// The attempts beyond the first of each entry among the first `n`.
spec fn retries_among(s: Seq<(String, (usize, usize))>, n: int) -> nat
    decreases n,
{
    if n <= 0 || n > s.len() {
        0
    } else {
        retries_among(s, n - 1) + retries_of(s[n - 1].1)
    }
}

/// The entries of a map, taken one after the other, count as the map does.
proof fn entries_count(s: Seq<(String, (usize, usize))>, n: int)
    requires
        0 <= n <= s.len(),
        distinct_keys(s),
    ensures
        leading(s, n).dom().finite(),
        leading(s, n).dom().len() == n,
        retries_in(leading(s, n)) == retries_among(s, n),
        flaky_in(leading(s, n)).finite(),
        flaky_in(leading(s, n)).len() == flaky_among(s, n),
        forall|id: Seq<char>| #[trigger]
            leading(s, n).contains_key(id) ==> exists|i: int| 0 <= i < n && (#[trigger] s[i]).0@ == id,
    decreases n,
{
    if n > 0 {
        entries_count(s, n - 1);
        let m = leading(s, n - 1);
        let id = s[n - 1].0@;
        let r = s[n - 1].1;
        let after = leading(s, n);
        if m.contains_key(id) {
            let i = choose|i: int| 0 <= i < n - 1 && (#[trigger] s[i]).0@ == id;
            assert(s[i].0@ != s[n - 1].0@);
        }
        retries_with(m, id, r);
        assert(after.dom() =~= m.dom().insert(id));
        if flaky_record(r) {
            assert(flaky_in(after) =~= flaky_in(m).insert(id));
            assert(!flaky_in(m).contains(id));
        } else {
            assert(flaky_in(after) =~= flaky_in(m));
        }
        assert forall|k: Seq<char>| #[trigger] after.contains_key(k) implies exists|i: int|
            0 <= i < n && (#[trigger] s[i]).0@ == k by {
            if m.contains_key(k) {
                let i = choose|i: int| 0 <= i < n - 1 && (#[trigger] s[i]).0@ == k;
                assert(s[i].0@ == k);
            } else {
                assert(s[n - 1].0@ == k);
            }
        }
    } else {
        assert(leading(s, n).dom() =~= Set::<Seq<char>>::empty());
        assert(flaky_in(leading(s, n)) =~= Set::<Seq<char>>::empty());
    }
}

proof fn retries_monotone(s: Seq<(String, (usize, usize))>, n: int, m: int)
    requires
        0 <= n <= m <= s.len(),
    ensures
        retries_among(s, n) <= retries_among(s, m),
    decreases m,
{
    if n < m {
        retries_monotone(s, n, m - 1);
    }
}

proof fn flaky_bounded(s: Seq<(String, (usize, usize))>, n: int)
    requires
        0 <= n <= s.len(),
    ensures
        flaky_among(s, n) <= n,
    decreases n,
{
    if n > 0 {
        flaky_bounded(s, n - 1);
    }
}

impl RetryManager {
    /// The record of each test.
    pub closed spec fn records(&self) -> Map<Seq<char>, (usize, usize)> {
        self.attempts@
    }

    /// The maximum number of retries.
    pub closed spec fn limit(&self) -> usize {
        self.max_retries
    }

    /// The budget.
    pub closed spec fn limits(&self) -> RetryBudget {
        self.budget
    }

    #[verifier::type_invariant]
    spec fn inv(self) -> bool {
        &&& self.attempts.well_formed()
        &&& forall|k: Seq<char>|
            self.attempts@.contains_key(k) ==> (#[trigger] self.attempts@[k]).1
                <= self.attempts@[k].0
    }

    /// The attempts recorded for a test.
    pub open spec fn attempts_of(&self, id: Seq<char>) -> nat {
        if self.records().contains_key(id) {
            self.records()[id].0 as nat
        } else {
            0
        }
    }

    /// The successes recorded for a test.
    pub open spec fn successes_of(&self, id: Seq<char>) -> nat {
        if self.records().contains_key(id) {
            self.records()[id].1 as nat
        } else {
            0
        }
    }

    /// A test is flaky where attempts on it both failed and succeeded.
    pub open spec fn flaky_test(&self, id: Seq<char>) -> bool {
        self.records().contains_key(id) && flaky_record(self.records()[id])
    }

    /// Creates a manager with the given maximum of retries per test.
    pub fn new(max_retries: usize) -> (r: Self)
        ensures
            r.limit() == max_retries,
            r.records() == Map::<Seq<char>, (usize, usize)>::empty(),
            r.limits() == (RetryBudget { timeout: 6, failed: 6, known_errors: 4, unknown_errors: 4 }),
            r.records().dom().len() == 0,
            retries_in(r.records()) == 0,
            flaky_in(r.records()).len() == 0,
    {
        proof {
            let m = Map::<Seq<char>, (usize, usize)>::empty();
            assert(flaky_in(m) =~= Set::<Seq<char>>::empty());
        }
        RetryManager { max_retries, attempts: StrMap::new(), budget: RetryBudget::default() }
    }

    /// Creates a manager with a custom budget.
    pub fn with_budget(max_retries: usize, budget: RetryBudget) -> (r: Self)
        ensures
            r.limit() == max_retries,
            r.records() == Map::<Seq<char>, (usize, usize)>::empty(),
            r.limits() == budget,
            r.records().dom().len() == 0,
            retries_in(r.records()) == 0,
            flaky_in(r.records()).len() == 0,
    {
        proof {
            let m = Map::<Seq<char>, (usize, usize)>::empty();
            assert(flaky_in(m) =~= Set::<Seq<char>>::empty());
        }
        RetryManager { max_retries, attempts: StrMap::new(), budget }
    }

    /// The maximum number of retries configured.
    pub fn max_retries(&self) -> (r: usize)
        ensures
            r == self.limit(),
    {
        self.max_retries
    }

    /// Whether a test should be retried: it has not used up its retries.
    pub fn should_retry(&self, test_id: &str) -> (b: bool)
        ensures
            b == (self.attempts_of(test_id@) < self.limit()),
    {
        match self.attempts.get(test_id) {
            Some(r) => r.0 < self.max_retries,
            None => 0 < self.max_retries,
        }
    }

    /// Records an attempt on a test.
    pub fn record_attempt(&mut self, test_id: &str, success: bool)
        requires
            old(self).attempts_of(test_id@) < usize::MAX,
        ensures
            final(self).records() == old(self).records().insert(
                test_id@,
                (
                    (old(self).attempts_of(test_id@) + 1) as usize,
                    (old(self).successes_of(test_id@) + (if success {
                        1int
                    } else {
                        0int
                    })) as usize,
                ),
            ),
            final(self).limit() == old(self).limit(),
            final(self).limits() == old(self).limits(),
            old(self).successes_of(test_id@) <= old(self).attempts_of(test_id@),
            final(self).records().dom().len() == old(self).records().dom().len() + (
            if old(self).records().contains_key(test_id@) {
                0int
            } else {
                1int
            }),
            retries_in(final(self).records()) == retries_in(old(self).records()) + (
            if old(self).attempts_of(test_id@) > 0 {
                1int
            } else {
                0int
            }),
            forall|earlier: Seq<(Seq<char>, bool)>|
                old(self).records() == records_after(earlier) ==> final(self).records()
                    == #[trigger] records_after(earlier.push((test_id@, success))),
    {
        proof {
            use_type_invariant(&*self);
            let s = self.attempts.entries@;
            let m = self.attempts@;
            entries_count(s, s.len() as int);
            leading_is_view(self.attempts);
            let next: (usize, usize) = (
                (self.attempts_of(test_id@) + 1) as usize,
                (self.successes_of(test_id@) + (if success {
                    1int
                } else {
                    0int
                })) as usize,
            );
            retries_with(m, test_id@, next);
            if m.contains_key(test_id@) {
                retries_without(m, test_id@);
                assert(m.dom().insert(test_id@) =~= m.dom());
            }
            assert(m.insert(test_id@, next).dom() =~= m.dom().insert(test_id@));
        }
        let (count, good) = match self.attempts.get(test_id) {
            Some(r) => (r.0, r.1),
            None => (0, 0),
        };
        let won: usize = if success {
            good + 1
        } else {
            good
        };
        let mut map: StrMap<(usize, usize)> = StrMap::new();
        std::mem::swap(&mut map, &mut self.attempts);
        map.insert(test_id.to_owned(), (count + 1, won));
        self.attempts = map;
        proof {
            assert forall|earlier: Seq<(Seq<char>, bool)>|
                old(self).records() == records_after(earlier) implies self.records()
                == #[trigger] records_after(earlier.push((test_id@, success))) by {
                let all = earlier.push((test_id@, success));
                assert(all.drop_last() =~= earlier);
                assert(all.last() == (test_id@, success));
            }
        }
    }

    /// The number of attempts on a test.
    pub fn get_attempts(&self, test_id: &str) -> (n: usize)
        ensures
            n == self.attempts_of(test_id@),
    {
        match self.attempts.get(test_id) {
            Some(r) => r.0,
            None => 0,
        }
    }

    /// Whether a test is flaky.
    pub fn is_flaky(&self, test_id: &str) -> (b: bool)
        ensures
            b == self.flaky_test(test_id@),
    {
        match self.attempts.get(test_id) {
            Some(r) => r.0 > 1 && r.1 > 0 && r.1 < r.0,
            None => false,
        }
    }

    /// The IDs of all tests identified as flaky, each once.
    pub fn get_flaky_tests(&self) -> (r: Vec<String>)
        ensures
            forall|id: Seq<char>| #[trigger] views(r@).contains(id) <==> self.flaky_test(id),
            forall|i: int, j: int|
                0 <= i < j < r@.len() ==> (#[trigger] r@[i])@ != (#[trigger] r@[j])@,
            r@.len() == flaky_in(self.records()).len(),
    {
        proof {
            use_type_invariant(self);
        }
        let ghost s = self.attempts.entries@;
        let mut out: Vec<String> = Vec::new();
        let mut i: usize = 0;
        while i < self.attempts.entries.len()
            invariant
                s == self.attempts.entries@,
                self.attempts.well_formed(),
                0 <= i <= s.len(),
                out@.len() == flaky_among(s, i as int),
                forall|k: int|
                    0 <= k < out@.len() ==> flaky_key(s, i as int, (#[trigger] out@[k])@),
                forall|m: int|
                    0 <= m < i && flaky_record((#[trigger] s[m]).1) ==> views(out@).contains(
                        s[m].0@,
                    ),
                forall|a: int, b: int|
                    0 <= a < b < out@.len() ==> (#[trigger] out@[a])@ != (#[trigger] out@[b])@,
            decreases s.len() - i,
        {
            let r: (usize, usize) = self.attempts.entries[i].1;
            let ghost before = out@;
            if r.0 > 1 && r.1 > 0 && r.1 < r.0 {
                out.push(self.attempts.entries[i].0.clone());
                proof {
                    assert(out@[out@.len() - 1]@ == s[i as int].0@);
                    assert forall|m: int|
                        0 <= m < i + 1 && flaky_record((#[trigger] s[m]).1) implies views(
                        out@,
                    ).contains(s[m].0@) by {
                        if m < i {
                            assert(views(before).contains(s[m].0@));
                            let k = choose|k: int|
                                0 <= k < views(before).len() && views(before)[k] == s[m].0@;
                            assert(views(out@)[k] == s[m].0@);
                        } else {
                            assert(views(out@)[out@.len() - 1] == s[m].0@);
                        }
                    }
                    assert forall|a: int, b: int| 0 <= a < b < out@.len() implies (
                    #[trigger] out@[a])@ != (#[trigger] out@[b])@ by {
                        if b == before.len() {
                            assert(out@[a] == before[a]);
                            assert(flaky_key(s, i as int, before[a]@));
                            let m = choose|m: int|
                                0 <= m < i && (#[trigger] s[m]).0@ == before[a]@ && flaky_record(
                                    s[m].1,
                                );
                            assert(s[m].0@ != s[i as int].0@);
                        } else {
                            assert(out@[a] == before[a]);
                            assert(out@[b] == before[b]);
                        }
                    }
                }
            }
            proof {
                assert forall|k: int| 0 <= k < out@.len() implies flaky_key(
                    s,
                    i + 1,
                    (#[trigger] out@[k])@,
                ) by {
                    if k < before.len() {
                        assert(out@[k] == before[k]);
                        let m = choose|m: int|
                            0 <= m < i && (#[trigger] s[m]).0@ == before[k]@ && flaky_record(
                                s[m].1,
                            );
                        assert(s[m].0@ == out@[k]@);
                    } else {
                        assert(s[i as int].0@ == out@[k]@);
                    }
                }
            }
            i = i + 1;
        }
        proof {
            entries_count(s, s.len() as int);
            leading_is_view(self.attempts);
            assert forall|id: Seq<char>| #[trigger] views(out@).contains(id) <==> self.flaky_test(
                id,
            ) by {
                if views(out@).contains(id) {
                    let k = choose|k: int| 0 <= k < views(out@).len() && views(out@)[k] == id;
                    assert(out@[k]@ == id);
                    assert(flaky_key(s, i as int, out@[k]@));
                    let m = choose|m: int|
                        0 <= m < s.len() && (#[trigger] s[m]).0@ == out@[k]@ && flaky_record(
                            s[m].1,
                        );
                    lookup_at(s, m);
                    assert(lookup(s, id) == Some(s[m].1));
                }
                if self.flaky_test(id) {
                    lookup_found(s, id);
                    let m = choose|m: int|
                        0 <= m < s.len() && (#[trigger] s[m]).0@ == id && lookup(s, id) == Some(
                            s[m].1,
                        );
                    assert(views(out@).contains(s[m].0@));
                }
            }
        }
        out
    }

    /// Summary statistics about retries: the tests with attempts, their
    /// attempts beyond the first, and the tests found flaky.
    pub fn stats(&self) -> (r: RetryStats)
        requires
            retries_in(self.records()) <= usize::MAX,
        ensures
            r.total_tests == self.records().dom().len(),
            r.total_retries == retries_in(self.records()),
            r.flaky_tests == flaky_in(self.records()).len(),
    {
        let ghost s = self.attempts.entries@;
        proof {
            use_type_invariant(self);
            entries_count(s, s.len() as int);
            leading_is_view(self.attempts);
        }
        let mut total_retries: usize = 0;
        let mut flaky_tests: usize = 0;
        let mut i: usize = 0;
        while i < self.attempts.entries.len()
            invariant
                s == self.attempts.entries@,
                0 <= i <= s.len(),
                total_retries == retries_among(s, i as int),
                flaky_tests == flaky_among(s, i as int),
                retries_among(s, s.len() as int) <= usize::MAX,
            decreases s.len() - i,
        {
            let r: (usize, usize) = self.attempts.entries[i].1;
            proof {
                retries_monotone(s, i + 1, s.len() as int);
                flaky_bounded(s, i as int);
            }
            if r.0 > 0 {
                total_retries = total_retries + (r.0 - 1);
            }
            if r.0 > 1 && r.1 > 0 && r.1 < r.0 {
                flaky_tests = flaky_tests + 1;
            }
            i = i + 1;
        }
        RetryStats { total_tests: self.attempts.len(), total_retries, flaky_tests }
    }
}

/// Statistics about retry attempts and flaky test detection.
#[derive(Debug, Clone, Copy, PartialEq, Eq, Structural)]
pub struct RetryStats {
    /// Total number of unique tests that were tracked.
    pub total_tests: usize,
    /// Total retry attempts (not counting initial runs).
    pub total_retries: usize,
    /// Number of tests identified as flaky.
    pub flaky_tests: usize,
}

/// The record after a sequence of attempts on one test.
pub open spec fn record_after(outcomes: Seq<bool>) -> (nat, nat)
    decreases outcomes.len(),
{
    if outcomes.len() == 0 {
        (0, 0)
    } else {
        let (a, s) = record_after(outcomes.drop_last());
        (
            a + 1,
            if outcomes.last() {
                s + 1
            } else {
                s
            },
        )
    }
}

/// A record counts all attempts and never more successes than attempts; it is
/// flaky exactly where attempts both failed and succeeded.
pub proof fn flaky_iff_mixed(outcomes: Seq<bool>)
    ensures
        record_after(outcomes).0 == outcomes.len(),
        record_after(outcomes).1 <= outcomes.len(),
        record_after(outcomes).1 > 0 <==> outcomes.contains(true),
        record_after(outcomes).1 < outcomes.len() <==> outcomes.contains(false),
        (record_after(outcomes).0 > 1 && record_after(outcomes).1 > 0 && record_after(outcomes).1
            < record_after(outcomes).0) <==> outcomes.contains(true) && outcomes.contains(false),
    decreases outcomes.len(),
{
    if outcomes.len() > 0 {
        let rest = outcomes.drop_last();
        flaky_iff_mixed(rest);
        assert(outcomes[outcomes.len() - 1] == outcomes.last());
        assert forall|b: bool| outcomes.contains(b) <==> rest.contains(b) || outcomes.last() == b by {
            if rest.contains(b) {
                let k = choose|k: int| 0 <= k < rest.len() && rest[k] == b;
                assert(outcomes[k] == b);
            }
            if outcomes.contains(b) && outcomes.last() != b {
                let k = choose|k: int| 0 <= k < outcomes.len() && outcomes[k] == b;
                assert(rest[k] == b);
            }
        }
    }
}

/// The records after attempts on tests, each given by its test and whether
/// it succeeded.
pub open spec fn records_after(attempts: Seq<(Seq<char>, bool)>) -> Map<Seq<char>, (usize, usize)>
    decreases attempts.len(),
{
    if attempts.len() == 0 {
        Map::empty()
    } else {
        let m = records_after(attempts.drop_last());
        let (id, success) = attempts.last();
        let (count, good): (int, int) = if m.contains_key(id) {
            (m[id].0 as int, m[id].1 as int)
        } else {
            (0, 0)
        };
        m.insert(
            id,
            (
                (count + 1) as usize,
                (good + (if success {
                    1int
                } else {
                    0int
                })) as usize,
            ),
        )
    }
}

/// The tests on which there were attempts.
pub open spec fn attempted(attempts: Seq<(Seq<char>, bool)>) -> Set<Seq<char>> {
    Set::new(|id: Seq<char>| exists|i: int| 0 <= i < attempts.len() && (#[trigger] attempts[i]).0 == id)
}

/// After any attempts there is a record for each test with one. The first
/// attempt on a test is no retry and every other is, so that the tests and the
/// retries together make up the attempts. Without attempts there are neither
/// tests nor retries nor flaky ones.
pub proof fn retries_count_attempts(attempts: Seq<(Seq<char>, bool)>)
    requires
        attempts.len() <= usize::MAX,
    ensures
        records_after(attempts).dom() == attempted(attempts),
        attempted(attempts).finite(),
        retries_in(records_after(attempts)) + attempted(attempts).len() == attempts.len(),
        forall|id: Seq<char>| #[trigger]
            records_after(attempts).contains_key(id) ==> 0 < records_after(attempts)[id].0
                <= attempts.len(),
        attempts.len() == 0 ==> flaky_in(records_after(attempts)).len() == 0,
    decreases attempts.len(),
{
    if attempts.len() == 0 {
        assert(attempted(attempts) =~= Set::<Seq<char>>::empty());
        assert(records_after(attempts).dom() =~= Set::<Seq<char>>::empty());
        assert(flaky_in(records_after(attempts)) =~= Set::<Seq<char>>::empty());
    } else {
        let rest = attempts.drop_last();
        retries_count_attempts(rest);
        let m = records_after(rest);
        let id = attempts.last().0;
        let after = records_after(attempts);
        retries_with(m, id, after[id]);
        assert(attempted(attempts) =~= attempted(rest).insert(id)) by {
            assert(attempts[attempts.len() - 1].0 == id);
            assert forall|k: Seq<char>| attempted(rest).contains(k) implies attempted(
                attempts,
            ).contains(k) by {
                let i = choose|i: int| 0 <= i < rest.len() && (#[trigger] rest[i]).0 == k;
                assert(attempts[i].0 == k);
            }
            assert forall|k: Seq<char>| attempted(attempts).contains(k) && k != id implies attempted(
                rest,
            ).contains(k) by {
                let i = choose|i: int| 0 <= i < attempts.len() && (#[trigger] attempts[i]).0 == k;
                assert(rest[i].0 == k);
            }
        }
        assert(after.dom() =~= m.dom().insert(id));
        if m.contains_key(id) {
            retries_without(m, id);
            assert(attempted(rest).insert(id) =~= attempted(rest));
        }
        assert forall|k: Seq<char>| #[trigger] after.contains_key(k) implies 0 < after[k].0
            <= attempts.len() by {
            if k != id {
                assert(m.contains_key(k));
            }
        }
    }
}

/// The outcomes of the attempts on one test, in their order.
pub open spec fn outcomes_of(attempts: Seq<(Seq<char>, bool)>, id: Seq<char>) -> Seq<bool>
    decreases attempts.len(),
{
    if attempts.len() == 0 {
        Seq::empty()
    } else if attempts.last().0 == id {
        outcomes_of(attempts.drop_last(), id).push(attempts.last().1)
    } else {
        outcomes_of(attempts.drop_last(), id)
    }
}

/// The record of a test tells the attempts on it and no other: how many there
/// were and how many of them succeeded.
pub proof fn record_tells_attempts(attempts: Seq<(Seq<char>, bool)>, id: Seq<char>)
    requires
        attempts.len() <= usize::MAX,
    ensures
        outcomes_of(attempts, id).len() <= attempts.len(),
        records_after(attempts).contains_key(id) <==> outcomes_of(attempts, id).len() > 0,
        records_after(attempts).contains_key(id) ==> records_after(attempts)[id].0
            == outcomes_of(attempts, id).len() && records_after(attempts)[id].1 == outcomes_of(
            attempts,
            id,
        ).filter(|success: bool| success).len(),
    decreases attempts.len(),
{
    reveal(Seq::filter);
    let good = |success: bool| success;
    outcomes_of(attempts, id).lemma_filter_len(good);
    if attempts.len() > 0 {
        let rest = attempts.drop_last();
        record_tells_attempts(rest, id);
        let before = outcomes_of(rest, id);
        before.lemma_filter_len(good);
        if attempts.last().0 == id {
            let after = outcomes_of(attempts, id);
            assert(after.drop_last() =~= before);
            if before.len() == 0 {
                assert(before.filter(good).len() == 0);
            }
        }
    }
}

/// A test is flaky exactly where one attempt on it succeeded and another
/// failed.
pub proof fn flaky_tests_are_mixed(attempts: Seq<(Seq<char>, bool)>, id: Seq<char>)
    requires
        attempts.len() <= usize::MAX,
    ensures
        flaky_in(records_after(attempts)).contains(id) <==> attempts.contains((id, true))
            && attempts.contains((id, false)),
{
    let outcomes = outcomes_of(attempts, id);
    let good = |success: bool| success;
    record_tells_attempts(attempts, id);
    outcomes_are_attempts(attempts, id, true);
    outcomes_are_attempts(attempts, id, false);
    outcomes.lemma_filter_len(good);
    if outcomes.contains(true) {
        let i = choose|i: int| 0 <= i < outcomes.len() && outcomes[i] == true;
        outcomes.lemma_filter_contains(good, i);
    } else {
        if outcomes.filter(good).len() > 0 {
            outcomes.lemma_filter_pred(good, 0);
            outcomes.lemma_filter_contains_rev(good, outcomes.filter(good)[0]);
        }
    }
    all_good_kept(outcomes);
    if outcomes.len() > 0 && !outcomes.contains(true) {
        assert(outcomes.filter(good).len() == 0);
    }
    if outcomes.contains(true) && outcomes.contains(false) {
        let i = choose|i: int| 0 <= i < outcomes.len() && outcomes[i] == true;
        let j = choose|j: int| 0 <= j < outcomes.len() && outcomes[j] == false;
        assert(i != j);
    }
}

proof fn all_good_kept(outcomes: Seq<bool>)
    ensures
        outcomes.filter(|success: bool| success).len() == outcomes.len() <==> !outcomes.contains(
            false,
        ),
    decreases outcomes.len(),
{
    reveal(Seq::filter);
    if outcomes.len() > 0 {
        let rest = outcomes.drop_last();
        all_good_kept(rest);
        rest.lemma_filter_len(|success: bool| success);
        assert(outcomes[outcomes.len() - 1] == outcomes.last());
        if rest.contains(false) {
            let k = choose|k: int| 0 <= k < rest.len() && rest[k] == false;
            assert(outcomes[k] == false);
        }
        if outcomes.contains(false) && outcomes.last() {
            let k = choose|k: int| 0 <= k < outcomes.len() && outcomes[k] == false;
            assert(rest[k] == false);
        }
    }
}

proof fn outcomes_are_attempts(attempts: Seq<(Seq<char>, bool)>, id: Seq<char>, success: bool)
    ensures
        outcomes_of(attempts, id).contains(success) <==> attempts.contains((id, success)),
    decreases attempts.len(),
{
    if attempts.len() > 0 {
        let rest = attempts.drop_last();
        outcomes_are_attempts(rest, id, success);
        let before = outcomes_of(rest, id);
        let after = outcomes_of(attempts, id);
        assert(attempts[attempts.len() - 1] == attempts.last());
        if rest.contains((id, success)) {
            let k = choose|k: int| 0 <= k < rest.len() && rest[k] == (id, success);
            assert(attempts[k] == (id, success));
            let m = choose|m: int| 0 <= m < before.len() && before[m] == success;
            assert(after[m] == success);
        }
        if attempts.last() == (id, success) {
            assert(after[after.len() - 1] == success);
        }
        if after.contains(success) && attempts.last() != (id, success) {
            let m = choose|m: int| 0 <= m < after.len() && after[m] == success;
            assert(before[m] == success);
        }
        if attempts.contains((id, success)) && attempts.last() != (id, success) {
            let k = choose|k: int| 0 <= k < attempts.len() && attempts[k] == (id, success);
            assert(rest[k] == (id, success));
        }
    }
}

/// What a loop of retries does next.
#[derive(Debug, Clone, Copy, PartialEq, Eq, Structural)]
pub enum RetryAction {
    /// Make an attempt on a test.
    Attempt { test: usize, attempt: usize },
    /// All tests are done.
    Finish,
}

/// What came of an attempt.
#[derive(Debug, Clone, Copy, PartialEq, Eq, Structural)]
pub enum AttemptOutcome {
    /// No sandbox could be had: the attempt is used up but not recorded.
    NoSandbox,
    /// The test ran.
    Ran { passed: bool },
    /// The test could not be run.
    RunFailed,
}

/// The first test from position `i` on that still has retries.
pub open spec fn next_retry(m: RetryManager, ids: Seq<String>, i: int) -> RetryAction
    decreases ids.len() - i,
{
    if i < 0 || i >= ids.len() {
        RetryAction::Finish
    } else if m.attempts_of(ids[i]@) < m.limit() {
        RetryAction::Attempt { test: i as usize, attempt: 0 }
    } else {
        next_retry(m, ids, i + 1)
    }
}

/// Starts the retries from a test on.
pub fn start_retries(manager: &RetryManager, ids: &Vec<String>, from: usize) -> (r: RetryAction)
    ensures
        r == next_retry(*manager, ids@, from as int),
{
    let mut i: usize = from;
    while i < ids.len()
        invariant
            from <= i,
            next_retry(*manager, ids@, from as int) == next_retry(*manager, ids@, i as int),
        decreases ids@.len() - i,
    {
        if manager.should_retry(ids[i].as_str()) {
            return RetryAction::Attempt { test: i, attempt: 0 };
        }
        i = i + 1;
    }
    RetryAction::Finish
}

/// Every test that still has retries gets its turn, from its first attempt on
/// and none before another that comes earlier; the loop ends where no test has
/// retries left.
pub proof fn retries_take_turns(m: RetryManager, ids: Seq<String>, from: int)
    requires
        0 <= from,
        ids.len() <= usize::MAX,
    ensures
        match next_retry(m, ids, from) {
            RetryAction::Attempt { test, attempt } => from <= test < ids.len() && attempt == 0
                && m.attempts_of(ids[test as int]@) < m.limit() && forall|k: int|
                from <= k < test ==> m.attempts_of((#[trigger] ids[k])@) >= m.limit(),
            RetryAction::Finish => forall|k: int|
                from <= k < ids.len() ==> m.attempts_of((#[trigger] ids[k])@) >= m.limit(),
        },
    decreases ids.len() - from,
{
    if from < ids.len() && m.attempts_of(ids[from]@) >= m.limit() {
        retries_take_turns(m, ids, from + 1);
    }
}

/// What an attempt adds to the record of its test.
pub open spec fn recorded(m: RetryManager, id: Seq<char>, outcome: AttemptOutcome) -> Map<
    Seq<char>,
    (usize, usize),
> {
    match outcome {
        AttemptOutcome::NoSandbox => m.records(),
        AttemptOutcome::Ran { passed } => m.records().insert(
            id,
            (
                (m.attempts_of(id) + 1) as usize,
                (m.successes_of(id) + (if passed {
                    1int
                } else {
                    0int
                })) as usize,
            ),
        ),
        AttemptOutcome::RunFailed => m.records().insert(
            id,
            ((m.attempts_of(id) + 1) as usize, m.successes_of(id) as usize),
        ),
    }
}

/// An attempt that ran or failed to run counts as one; it counts as a success
/// only where the test passed. Without a sandbox nothing is recorded, and the
/// records of other tests stay in any case.
pub proof fn attempt_is_recorded(m: RetryManager, id: Seq<char>, outcome: AttemptOutcome)
    requires
        m.attempts_of(id) < usize::MAX,
        m.successes_of(id) <= m.attempts_of(id),
    ensures
        outcome is NoSandbox ==> recorded(m, id, outcome) == m.records(),
        !(outcome is NoSandbox) ==> recorded(m, id, outcome).contains_key(id) && recorded(
            m,
            id,
            outcome,
        )[id].0 == m.attempts_of(id) + 1 && recorded(m, id, outcome)[id].1 == m.successes_of(id) + (
        if outcome == (AttemptOutcome::Ran { passed: true }) {
            1int
        } else {
            0int
        }),
        recorded(m, id, outcome).remove(id) == m.records().remove(id),
{
    assert(recorded(m, id, outcome).remove(id) =~= m.records().remove(id));
}

/// Records an attempt and says what to do next: a test is tried until it
/// passes or its attempts are used up, and then the next one has its turn.
pub fn after_attempt(
    manager: &mut RetryManager,
    ids: &Vec<String>,
    test: usize,
    attempt: usize,
    outcome: AttemptOutcome,
) -> (r: RetryAction)
    requires
        test < ids@.len(),
        attempt < old(manager).limit(),
        old(manager).attempts_of(ids@[test as int]@) < usize::MAX,
    ensures
        final(manager).records() == recorded(*old(manager), ids@[test as int]@, outcome),
        final(manager).limit() == old(manager).limit(),
        final(manager).limits() == old(manager).limits(),
        r == (if outcome != (AttemptOutcome::Ran { passed: true }) && attempt + 1 < old(
            manager,
        ).limit() {
            RetryAction::Attempt { test, attempt: (attempt + 1) as usize }
        } else {
            next_retry(*final(manager), ids@, test + 1)
        }),
{
    match outcome {
        AttemptOutcome::NoSandbox => {},
        AttemptOutcome::Ran { passed } => {
            manager.record_attempt(ids[test].as_str(), passed);
        },
        AttemptOutcome::RunFailed => {
            manager.record_attempt(ids[test].as_str(), false);
        },
    }
    let won = match outcome {
        AttemptOutcome::Ran { passed } => passed,
        _ => false,
    };
    if !won && attempt + 1 < manager.max_retries() {
        RetryAction::Attempt { test, attempt: attempt + 1 }
    } else {
        assert(test < ids.len());
        start_retries(manager, ids, test + 1)
    }
}

/// A test counts as flaky exactly where its record is among the flaky ones.
pub proof fn flaky_test_is_in_records(m: RetryManager, id: Seq<char>)
    ensures
        m.flaky_test(id) <==> flaky_in(m.records()).contains(id),
{
}

} // verus!
