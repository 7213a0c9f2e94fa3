//! Distribution of tests over batches that run in parallel.

use vstd::arithmetic::div_mod::{lemma_fundamental_div_mod, lemma_div_pos_is_pos, lemma_mod_bound};
use vstd::arithmetic::mul::lemma_mul_is_commutative;
use vstd::prelude::*;

use crate::discovery::{case_views, CaseModel, TestCase};

verus! {

/// Distributes tests across parallel sandboxes.
#[derive(Debug)]
pub struct Scheduler {
    max_parallel: usize,
}

/// The views of a sequence of batches.
pub open spec fn batch_views(batches: Seq<Vec<TestCase>>) -> Seq<Seq<CaseModel>> {
    Seq::new(batches.len(), |i: int| case_views(batches[i]@))
}

/// Every `step`th element of `s` from position `i` on.
pub open spec fn every<A>(s: Seq<A>, i: int, step: int) -> Seq<A>
    decreases
            if i < s.len() {
                s.len() - i
            } else {
                0
            },
{
    if i < 0 || i >= s.len() || step <= 0 {
        Seq::empty()
    } else {
        seq![s[i]] + every(s, i + step, step)
    }
}

/// The round-robin batches: batch `b` takes every `parallel`th test from the
/// `b`th on, and no batch is empty.
pub open spec fn round_robin<A>(s: Seq<A>, parallel: int) -> Seq<Seq<A>> {
    Seq::new(
        (if s.len() < parallel {
            s.len() as int
        } else {
            parallel
        }) as nat,
        |b: int| every(s, b, parallel),
    )
}

/// `s` from position `i` on, in runs of `size`, the last of which may be
/// shorter.
pub open spec fn chunks_from<A>(s: Seq<A>, i: int, size: int) -> Seq<Seq<A>>
    decreases s.len() - i,
{
    if i < 0 || i >= s.len() || size <= 0 {
        Seq::empty()
    } else if i + size >= s.len() {
        seq![s.subrange(i, s.len() as int)]
    } else {
        seq![s.subrange(i, i + size)] + chunks_from(s, i + size, size)
    }
}

impl Scheduler {
    /// The number of batches at most.
    pub closed spec fn parallel(&self) -> int {
        self.max_parallel as int
    }

    #[verifier::type_invariant]
    spec fn inv(self) -> bool {
        self.max_parallel >= 1
    }

    /// Creates a scheduler with the given parallelism limit, at least one.
    pub fn new(max_parallel: usize) -> (r: Self)
        ensures
            r.parallel() == (if max_parallel < 1 {
                1
            } else {
                max_parallel as int
            }),
    {
        if max_parallel < 1 {
            Scheduler { max_parallel: 1 }
        } else {
            Scheduler { max_parallel }
        }
    }

    /// Schedules tests into batches using round-robin distribution. Empty
    /// batches are left out.
    pub fn schedule(&self, tests: &[TestCase]) -> (r: Vec<Vec<TestCase>>)
        ensures
            self.parallel() >= 1,
            batch_views(r@) == round_robin(case_views(tests@), self.parallel()),
    {
        proof {
            use_type_invariant(self);
        }
        let step: usize = self.max_parallel;
        let n: usize = tests.len();
        let count: usize = if n < step {
            n
        } else {
            step
        };
        let mut batches: Vec<Vec<TestCase>> = Vec::new();
        let mut b: usize = 0;
        while b < count
            invariant
                0 <= b <= count,
                count <= n,
                step >= 1,
                n == tests@.len(),
                batches@.len() == b,
                forall|k: int|
                    0 <= k < b ==> case_views((#[trigger] batches@[k])@) == every(
                        case_views(tests@),
                        k,
                        step as int,
                    ),
            decreases count - b,
        {
            let mut batch: Vec<TestCase> = Vec::new();
            let mut i: usize = b;
            let mut more = true;
            proof {
                assert(case_views(batch@) + every(case_views(tests@), b as int, step as int)
                    =~= every(case_views(tests@), b as int, step as int));
            }
            while more
                invariant
                    b < n,
                    step >= 1,
                    n == tests@.len(),
                    more ==> i < n,
                    more ==> case_views(batch@) + every(case_views(tests@), i as int, step as int)
                        == every(case_views(tests@), b as int, step as int),
                    !more ==> case_views(batch@) == every(
                        case_views(tests@),
                        b as int,
                        step as int,
                    ),
                decreases (if more {
                    n - i
                } else {
                    0
                }),
            {
                let ghost before = batch@;
                batch.push(tests[i].clone());
                proof {
                    let s = case_views(tests@);
                    assert(case_views(batch@) =~= case_views(before).push(s[i as int]));
                    assert(case_views(before) + (seq![s[i as int]] + every(
                        s,
                        i + step,
                        step as int,
                    )) =~= case_views(batch@) + every(s, i + step, step as int));
                }
                if step < n - i {
                    i = i + step;
                } else {
                    more = false;
                    proof {
                        assert(case_views(batch@) + Seq::<CaseModel>::empty()
                            =~= case_views(batch@));
                    }
                }
            }
            batches.push(batch);
            b = b + 1;
        }
        proof {
            assert(batch_views(batches@) =~= round_robin(case_views(tests@), step as int));
        }
        batches
    }

    /// Schedules tests into batches of at most `max_batch_size`.
    pub fn schedule_with_batch_size(&self, tests: &[TestCase], max_batch_size: usize) -> (r: Vec<
        Vec<TestCase>,
    >)
        requires
            max_batch_size > 0 || tests@.len() == 0,
        ensures
            batch_views(r@) == chunks_from(case_views(tests@), 0, max_batch_size as int),
    {
        let n: usize = tests.len();
        let mut batches: Vec<Vec<TestCase>> = Vec::new();
        let mut i: usize = 0;
        let ghost s = case_views(tests@);
        proof {
            assert(batch_views(batches@) + chunks_from(s, 0, max_batch_size as int) =~= chunks_from(
                s,
                0,
                max_batch_size as int,
            ));
        }
        while i < n
            invariant
                0 <= i <= n,
                n == tests@.len(),
                s == case_views(tests@),
                max_batch_size > 0 || n == 0,
                batch_views(batches@) + chunks_from(s, i as int, max_batch_size as int)
                    == chunks_from(s, 0, max_batch_size as int),
            decreases n - i,
        {
            let end: usize = if max_batch_size >= n - i {
                n
            } else {
                i + max_batch_size
            };
            let mut batch: Vec<TestCase> = Vec::new();
            let mut j: usize = i;
            while j < end
                invariant
                    i <= j <= end <= n,
                    n == tests@.len(),
                    s == case_views(tests@),
                    case_views(batch@) == s.subrange(i as int, j as int),
                decreases end - j,
            {
                let ghost before = batch@;
                batch.push(tests[j].clone());
                j = j + 1;
                proof {
                    assert(case_views(batch@) =~= case_views(before).push(s[j - 1]));
                    assert(s.subrange(i as int, j as int) =~= s.subrange(i as int, j - 1).push(
                        s[j - 1],
                    ));
                }
            }
            let ghost before = batches@;
            batches.push(batch);
            proof {
                let piece = s.subrange(i as int, end as int);
                assert(batch_views(batches@) =~= batch_views(before).push(piece));
                let rest = chunks_from(s, end as int, max_batch_size as int);
                assert(batch_views(before) + (seq![piece] + rest) =~= batch_views(batches@) + rest);
                if end == n {
                    assert(rest =~= Seq::<Seq<CaseModel>>::empty());
                    assert(seq![piece] + rest =~= seq![piece]);
                }
            }
            i = end;
        }
        proof {
            assert(batch_views(batches@) + Seq::<Seq<CaseModel>>::empty() =~= batch_views(
                batches@,
            ));
        }
        batches
    }

    /// Schedules each test in its own batch.
    pub fn schedule_individual(&self, tests: &[TestCase]) -> (r: Vec<Vec<TestCase>>)
        ensures
            batch_views(r@) == Seq::new(
                tests@.len(),
                |i: int| seq![case_views(tests@)[i]],
            ),
    {
        let mut batches: Vec<Vec<TestCase>> = Vec::new();
        let mut i: usize = 0;
        while i < tests.len()
            invariant
                0 <= i <= tests@.len(),
                batches@.len() == i,
                forall|k: int|
                    0 <= k < i ==> case_views((#[trigger] batches@[k])@) == seq![
                        case_views(tests@)[k],
                    ],
            decreases tests@.len() - i,
        {
            let mut batch: Vec<TestCase> = Vec::new();
            batch.push(tests[i].clone());
            proof {
                assert(case_views(batch@) =~= seq![case_views(tests@)[i as int]]);
            }
            batches.push(batch);
            i = i + 1;
        }
        proof {
            assert(batch_views(batches@) =~= Seq::new(
                tests@.len(),
                |i: int| seq![case_views(tests@)[i]],
            ));
        }
        batches
    }
}

/// The `k`th of every `step`th element from `i` on is the one at
/// `i + k * step`, and all that lie in `s` are there.
pub proof fn every_at<A>(s: Seq<A>, i: int, step: int, k: int)
    requires
        0 <= i,
        0 < step,
        0 <= k,
    ensures
        k < every(s, i, step).len() <==> i + k * step < s.len(),
        k < every(s, i, step).len() ==> every(s, i, step)[k] == s[i + k * step],
    decreases k,
{
    if i >= s.len() {
        assert(k * step >= 0) by (nonlinear_arith)
            requires
                0 <= k,
                0 < step,
        ;
    } else if k > 0 {
        every_at(s, i + step, step, k - 1);
        assert(i + step + (k - 1) * step == i + k * step) by (nonlinear_arith);
        assert(every(s, i, step) == seq![s[i]] + every(s, i + step, step));
    } else {
        assert(k * step == 0) by (nonlinear_arith)
            requires
                k == 0,
        ;
    }
}

/// Round-robin distribution loses no test: test `i` stands in batch
/// `i % parallel` at place `i / parallel`.
pub proof fn every_test_is_scheduled<A>(s: Seq<A>, parallel: int, i: int)
    requires
        parallel >= 1,
        0 <= i < s.len(),
    ensures
        0 <= i % parallel < round_robin(s, parallel).len(),
        0 <= i / parallel < round_robin(s, parallel)[i % parallel].len(),
        round_robin(s, parallel)[i % parallel][i / parallel] == s[i],
{
    let b = i % parallel;
    let k = i / parallel;
    lemma_fundamental_div_mod(i, parallel);
    lemma_mod_bound(i, parallel);
    lemma_div_pos_is_pos(i, parallel);
    lemma_mul_is_commutative(k, parallel);
    assert(b + k * parallel == i);
    assert(k * parallel >= 0) by (nonlinear_arith)
        requires
            k >= 0,
            parallel >= 1,
    ;
    assert(b <= i);
    every_at(s, b, parallel, k);
}

/// Round-robin distribution schedules no test twice and invents none: place
/// `k` of batch `b` holds test `b + k * parallel`.
pub proof fn scheduled_tests_are_given<A>(s: Seq<A>, parallel: int, b: int, k: int)
    requires
        parallel >= 1,
        0 <= b < round_robin(s, parallel).len(),
        0 <= k < round_robin(s, parallel)[b].len(),
    ensures
        0 <= b + k * parallel < s.len(),
        round_robin(s, parallel)[b][k] == s[b + k * parallel],
        (b + k * parallel) % parallel == b,
        (b + k * parallel) / parallel == k,
{
    every_at(s, b, parallel, k);
    assert(k * parallel >= 0) by (nonlinear_arith)
        requires
            k >= 0,
            parallel >= 1,
    ;
    vstd::arithmetic::div_mod::lemma_fundamental_div_mod_converse(
        b + k * parallel,
        parallel,
        k,
        b,
    );
}

/// There are at most `parallel` round-robin batches, none is empty, and their
/// sizes differ by at most one.
pub proof fn round_robin_is_balanced<A>(s: Seq<A>, parallel: int, a: int, b: int)
    requires
        parallel >= 1,
        0 <= a < round_robin(s, parallel).len(),
        0 <= b < round_robin(s, parallel).len(),
    ensures
        round_robin(s, parallel).len() <= parallel,
        round_robin(s, parallel)[a].len() > 0,
        round_robin(s, parallel)[a].len() <= round_robin(s, parallel)[b].len() + 1,
{
    let x = round_robin(s, parallel)[a];
    let y = round_robin(s, parallel)[b];
    every_at(s, a, parallel, 0);
    if x.len() > y.len() + 1 {
        let k = y.len() as int;
        every_at(s, a, parallel, k + 1);
        every_at(s, b, parallel, k);
        assert(a + (k + 1) * parallel >= b + k * parallel) by (nonlinear_arith)
            requires
                a >= 0,
                b < parallel,
        ;
    }
}

/// The batches put one after the other.
pub open spec fn concatenated<A>(batches: Seq<Seq<A>>) -> Seq<A>
    decreases batches.len(),
{
    if batches.len() == 0 {
        Seq::empty()
    } else {
        batches[0] + concatenated(batches.subrange(1, batches.len() as int))
    }
}

/// Batches of limited size, put one after the other, are the tests, and no
/// batch is empty or exceeds the limit.
pub proof fn chunks_keep_all<A>(s: Seq<A>, i: int, size: int)
    requires
        size > 0,
        0 <= i <= s.len(),
    ensures
        concatenated(chunks_from(s, i, size)) == s.subrange(i, s.len() as int),
        forall|k: int|
            0 <= k < chunks_from(s, i, size).len() ==> 0 < (#[trigger] chunks_from(s, i, size)[k]).len()
                <= size,
    decreases s.len() - i,
{
    let all = chunks_from(s, i, size);
    if i >= s.len() {
        assert(s.subrange(i, s.len() as int) =~= Seq::<A>::empty());
    } else if i + size >= s.len() {
        assert(all.subrange(1, 1) =~= Seq::<Seq<A>>::empty());
        reveal_with_fuel(concatenated, 2);
        assert(concatenated(all) =~= all[0] + Seq::<A>::empty());
        assert(all[0] + Seq::<A>::empty() =~= all[0]);
    } else {
        chunks_keep_all(s, i + size, size);
        let rest = chunks_from(s, i + size, size);
        assert(all.subrange(1, all.len() as int) =~= rest);
        assert(s.subrange(i, s.len() as int) =~= s.subrange(i, i + size) + s.subrange(
            i + size,
            s.len() as int,
        ));
        assert forall|k: int| 0 <= k < all.len() implies 0 < (#[trigger] all[k]).len() <= size by {
            if k > 0 {
                assert(all[k] == rest[k - 1]);
            }
        }
    }
}

/// Batches of limited size are full but for the last: batch `k` begins with
/// test `k * size`.
pub proof fn chunks_are_full<A>(s: Seq<A>, i: int, size: int, k: int)
    requires
        size > 0,
        0 <= i <= s.len(),
        0 <= k < chunks_from(s, i, size).len(),
    ensures
        k < chunks_from(s, i, size).len() - 1 ==> chunks_from(s, i, size)[k].len() == size,
        0 <= i + k * size < s.len(),
        chunks_from(s, i, size)[k].len() > 0,
        chunks_from(s, i, size)[k][0] == s[i + k * size],
    decreases k,
{
    if k > 0 {
        chunks_are_full(s, i + size, size, k - 1);
        assert(i + size + (k - 1) * size == i + k * size) by (nonlinear_arith);
        assert(chunks_from(s, i, size)[k] == chunks_from(s, i + size, size)[k - 1]);
    } else {
        assert(k * size == 0) by (nonlinear_arith)
            requires
                k == 0,
        ;
    }
}

} // verus!
