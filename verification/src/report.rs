//! Reported test cases and how their ids are resolved.

use vstd::prelude::*;

verus! {

/// The failure or error of a reported test case.
#[derive(Debug)]
pub struct FailureXml {
    /// The message, where one is given.
    pub message: Option<String>,
    /// The text.
    pub content: String,
}

/// A reported test case.
#[derive(Debug)]
pub struct TestcaseXml {
    /// The name.
    pub name: String,
    /// The class name, where one is given.
    pub classname: Option<String>,
    /// The failure, where there is one.
    pub failure: Option<FailureXml>,
    /// The error, where there is one.
    pub error: Option<FailureXml>,
}

impl TestcaseXml {
    /// Whether the case has a failure or an error.
    pub open spec fn bad(self) -> bool {
        self.failure is Some || self.error is Some
    }

    /// Whether the case has a failure or an error.
    pub fn is_bad(&self) -> (b: bool)
        ensures
            b == self.bad(),
    {
        self.failure.is_some() || self.error.is_some()
    }

    /// The case under a resolved id.
    pub open spec fn resolved_to(self, other: TestcaseXml, id: Seq<char>) -> bool {
        &&& self.name@ == id
        &&& self.classname is None
        &&& self.failure == other.failure
        &&& self.error == other.error
    }
}

/// The first `n` cases stand under their resolved ids, the others as before.
pub open spec fn resolved_up_to(
    now: Seq<TestcaseXml>,
    before: Seq<TestcaseXml>,
    ids: Seq<Result<String, String>>,
    n: int,
) -> bool {
    &&& now.len() == before.len()
    &&& forall|i: int|
        #![trigger now[i]]
        #![trigger ids[i]]
        0 <= i < n ==> ids[i] is Ok && now[i].resolved_to(before[i], ids[i]->Ok_0@)
    &&& forall|i: int| n <= i < now.len() ==> #[trigger] now[i] == before[i]
}

/// Gives cases their resolved ids, in order, up to the first that has none;
/// the error is its position.
pub fn apply_ids(testcases: &mut Vec<TestcaseXml>, ids: &Vec<Result<String, String>>) -> (r: Result<
    (),
    usize,
>)
    requires
        ids@.len() == old(testcases)@.len(),
    ensures
        match r {
            Ok(_) => resolved_up_to(
                final(testcases)@,
                old(testcases)@,
                ids@,
                ids@.len() as int,
            ),
            Err(k) => k < ids@.len() && ids@[k as int] is Err && resolved_up_to(
                final(testcases)@,
                old(testcases)@,
                ids@,
                k as int,
            ),
        },
{
    let ghost before = testcases@;
    let mut i: usize = 0;
    while i < ids.len()
        invariant
            0 <= i <= ids@.len(),
            ids@.len() == before.len(),
            before == old(testcases)@,
            resolved_up_to(testcases@, before, ids@, i as int),
        decreases ids@.len() - i,
    {
        let ghost prior = testcases@;
        match &ids[i] {
            Ok(id) => {
                testcases[i].name = id.clone();
                testcases[i].classname = None;
                proof {
                    assert(testcases@ =~= prior.update(i as int, testcases@[i as int]));
                    assert(testcases@[i as int].resolved_to(before[i as int], id@));
                    assert(resolved_up_to(testcases@, before, ids@, i + 1));
                }
            },
            Err(_) => {
                return Err(i);
            },
        }
        i = i + 1;
    }
    Ok(())
}

/// A case that is resolved goes by its id alone, and keeps its failure and its
/// error; cases that are not reached stay as they are.
pub proof fn resolution_keeps_results(
    now: Seq<TestcaseXml>,
    before: Seq<TestcaseXml>,
    ids: Seq<Result<String, String>>,
    n: int,
    i: int,
)
    requires
        resolved_up_to(now, before, ids, n),
        0 <= i < now.len(),
    ensures
        now.len() == before.len(),
        now[i].bad() == before[i].bad(),
        now[i].failure == before[i].failure,
        now[i].error == before[i].error,
        i < n ==> (ids[i] matches Ok(id) && now[i].name@ == id@) && now[i].classname is None,
        i >= n ==> now[i] == before[i],
{
}

} // verus!
