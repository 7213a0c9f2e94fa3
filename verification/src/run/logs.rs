//! The logs of a run: which test results are shown, and how.

use vstd::prelude::*;

use crate::patterns;
use crate::patterns::{regex_error, regex_matches};
use crate::report::{FailureXml, TestcaseXml};
use crate::text;
use crate::text::{before, views};

verus! {

/// Of two cases with one name, the `i`th counts rather than the `j`th: a bad
/// one rather than a good one, else the earlier.
pub open spec fn beats(cases: Seq<TestcaseXml>, i: int, j: int) -> bool {
    (cases[i].bad() && !cases[j].bad()) || (cases[i].bad() == cases[j].bad() && i < j)
}

/// The `i`th case stands for all cases of its name.
pub open spec fn is_winner(cases: Seq<TestcaseXml>, i: int) -> bool {
    forall|j: int|
        0 <= j < cases.len() && j != i && (#[trigger] cases[j]).name@ == cases[i].name@ ==> beats(
            cases,
            i,
            j,
        )
}

/// A case has a status that is asked for; without a wish every one has.
pub open spec fn status_wanted(case: TestcaseXml, failures: bool, errors: bool) -> bool {
    (!failures && !errors) || (failures && case.failure is Some) || (errors && case.error is Some)
}

/// A name is asked for; without a wish every one is.
pub open spec fn id_wanted(name: Seq<char>, ids: Seq<Seq<char>>) -> bool {
    ids.len() == 0 || ids.contains(name)
}

/// The `i`th case is shown.
pub open spec fn is_shown(
    cases: Seq<TestcaseXml>,
    failures: bool,
    errors: bool,
    ids: Seq<Seq<char>>,
    matched: Seq<bool>,
    i: int,
) -> bool {
    &&& is_winner(cases, i)
    &&& status_wanted(cases[i], failures, errors)
    &&& id_wanted(cases[i].name@, ids)
    &&& matched[i]
}

/// The listed cases go up by name.
pub open spec fn by_name(cases: Seq<TestcaseXml>, order: Seq<usize>) -> bool {
    forall|a: int, b: int|
        0 <= a < b < order.len() ==> before(
            cases[(#[trigger] order[a]) as int].name@,
            cases[(#[trigger] order[b]) as int].name@,
        )
}

/// The listed cases are those that are shown, by name.
pub open spec fn is_selection(
    cases: Seq<TestcaseXml>,
    failures: bool,
    errors: bool,
    ids: Seq<Seq<char>>,
    matched: Seq<bool>,
    order: Seq<usize>,
) -> bool {
    &&& by_name(cases, order)
    &&& forall|k: int| 0 <= k < order.len() ==> 0 <= #[trigger] order[k] < cases.len()
    &&& forall|i: usize|
        0 <= i < cases.len() ==> (#[trigger] order.contains(i) <==> is_shown(
            cases,
            failures,
            errors,
            ids,
            matched,
            i as int,
        ))
}

fn wins(cases: &Vec<TestcaseXml>, i: usize) -> (b: bool)
    requires
        i < cases@.len(),
    ensures
        b == is_winner(cases@, i as int),
{
    let bad = cases[i].is_bad();
    let mut j: usize = 0;
    while j < cases.len()
        invariant
            0 <= j <= cases@.len(),
            i < cases@.len(),
            bad == cases@[i as int].bad(),
            forall|k: int|
                0 <= k < j && k != i && (#[trigger] cases@[k]).name@ == cases@[i as int].name@
                    ==> beats(cases@, i as int, k),
        decreases cases@.len() - j,
    {
        if j != i && text::same(cases[j].name.as_str(), cases[i].name.as_str()) {
            let other = cases[j].is_bad();
            if !((bad && !other) || (bad == other && i < j)) {
                proof {
                    assert(!beats(cases@, i as int, j as int));
                }
                return false;
            }
        }
        j = j + 1;
    }
    true
}

fn is_asked_for(name: &str, ids: &Vec<String>) -> (b: bool)
    ensures
        b == id_wanted(name@, views(ids@)),
{
    if ids.len() == 0 {
        return true;
    }
    let mut i: usize = 0;
    while i < ids.len()
        invariant
            0 <= i <= ids@.len(),
            forall|k: int| 0 <= k < i ==> #[trigger] views(ids@)[k] != name@,
        decreases ids@.len() - i,
    {
        assert(views(ids@)[i as int] == ids@[i as int]@);
        if text::same(ids[i].as_str(), name) {
            return true;
        }
        i = i + 1;
    }
    proof {
        assert(views(ids@).len() == ids@.len());
    }
    false
}

/// The cases that are shown, by name: of every name one, with the status, the
/// name and the match that are asked for.
pub fn select(
    cases: &Vec<TestcaseXml>,
    failures: bool,
    errors: bool,
    ids: &Vec<String>,
    matched: &Vec<bool>,
) -> (r: Vec<usize>)
    requires
        matched@.len() == cases@.len(),
    ensures
        is_selection(cases@, failures, errors, views(ids@), matched@, r@),
{
    let ghost wanted = views(ids@);
    let mut out: Vec<usize> = Vec::new();
    let mut i: usize = 0;
    while i < cases.len()
        invariant
            0 <= i <= cases@.len(),
            matched@.len() == cases@.len(),
            wanted == views(ids@),
            by_name(cases@, out@),
            forall|k: int|
                0 <= k < out@.len() ==> (#[trigger] out@[k]) < i && is_shown(
                    cases@,
                    failures,
                    errors,
                    wanted,
                    matched@,
                    out@[k] as int,
                ),
            forall|q: usize|
                0 <= q < i && is_shown(cases@, failures, errors, wanted, matched@, q as int)
                    ==> #[trigger] out@.contains(q),
        decreases cases@.len() - i,
    {
        let case = &cases[i];
        let status_ok = (!failures && !errors) || (failures && case.failure.is_some()) || (errors
            && case.error.is_some());
        let ghost prior = out@;
        if matched[i] && status_ok && is_asked_for(case.name.as_str(), ids) && wins(cases, i) {
            let mut slot: usize = 0;
            while slot < out.len() && text::comes_before(
                cases[out[slot]].name.as_str(),
                case.name.as_str(),
            )
                invariant
                    0 <= slot <= out@.len(),
                    i < cases@.len(),
                    *case == cases@[i as int],
                    forall|k: int| 0 <= k < out@.len() ==> (#[trigger] out@[k]) < i,
                    forall|k: int|
                        0 <= k < slot ==> before(
                            cases@[(#[trigger] out@[k]) as int].name@,
                            case.name@,
                        ),
                decreases out@.len() - slot,
            {
                slot = slot + 1;
            }
            proof {
                if slot < out@.len() {
                    let q = out@[slot as int] as int;
                    assert(is_winner(cases@, q));
                    assert(is_winner(cases@, i as int));
                    if cases@[q].name@ == cases@[i as int].name@ {
                        assert(beats(cases@, q, i as int));
                        assert(beats(cases@, i as int, q));
                    }
                    text::before_total(cases@[q].name@, cases@[i as int].name@);
                }
            }
            out.insert(slot, i);
            proof {
                inserted_by_name(cases@, prior, slot as int, i);
                assert forall|k: int| 0 <= k < out@.len() implies (#[trigger] out@[k]) < i + 1
                    && is_shown(
                    cases@,
                    failures,
                    errors,
                    wanted,
                    matched@,
                    out@[k] as int,
                ) by {
                    if k < slot {
                        assert(out@[k] == prior[k]);
                    } else if k > slot {
                        assert(out@[k] == prior[k - 1]);
                    }
                }
                assert forall|q: usize|
                    0 <= q < i + 1 && is_shown(
                        cases@,
                        failures,
                        errors,
                        wanted,
                        matched@,
                        q as int,
                    ) implies #[trigger] out@.contains(q) by {
                    if q < i {
                        assert(prior.contains(q));
                        let k = choose|k: int| 0 <= k < prior.len() && prior[k] == q;
                        if k < slot {
                            assert(out@[k] == q);
                        } else {
                            assert(out@[k + 1] == q);
                        }
                    } else {
                        assert(out@[slot as int] == q);
                    }
                }
            }
        }
        i = i + 1;
    }
    proof {
        assert forall|q: usize| 0 <= q < cases@.len() implies (#[trigger] out@.contains(q)
            <==> is_shown(cases@, failures, errors, wanted, matched@, q as int)) by {
            if out@.contains(q) {
                let k = choose|k: int| 0 <= k < out@.len() && out@[k] == q;
                assert(out@[k] == q);
            }
        }
    }
    out
}

proof fn inserted_by_name(cases: Seq<TestcaseXml>, order: Seq<usize>, s: int, x: usize)
    requires
        0 <= s <= order.len(),
        by_name(cases, order),
        forall|k: int|
            0 <= k < s ==> before(
                cases[(#[trigger] order[k]) as int].name@,
                cases[x as int].name@,
            ),
        s < order.len() ==> before(cases[x as int].name@, cases[order[s] as int].name@),
    ensures
        by_name(cases, order.insert(s, x)),
{
    let now = order.insert(s, x);
    assert forall|a: int, b: int| 0 <= a < b < now.len() implies before(
        cases[(#[trigger] now[a]) as int].name@,
        cases[(#[trigger] now[b]) as int].name@,
    ) by {
        assert(now[a] == (if a < s {
            order[a]
        } else if a == s {
            x
        } else {
            order[a - 1]
        }));
        assert(now[b] == (if b < s {
            order[b]
        } else if b == s {
            x
        } else {
            order[b - 1]
        }));
        if a == s && b - 1 > s {
            assert(before(cases[order[s] as int].name@, cases[order[b - 1] as int].name@));
            text::before_transitive(
                cases[x as int].name@,
                cases[order[s] as int].name@,
                cases[order[b - 1] as int].name@,
            );
        }
    }
}

/// What is shown of a failure or an error: its message and its text, as far
/// as there are any.
pub open spec fn detail(f: Option<FailureXml>) -> Seq<Seq<char>> {
    match f {
        Some(x) => (match x.message {
            Some(m) => seq![m@],
            None => Seq::empty(),
        }) + (if x.content@.len() > 0 {
            seq![x.content@]
        } else {
            Seq::empty()
        }),
        None => Seq::empty(),
    }
}

/// The label of a case's status.
pub open spec fn status_label(case: TestcaseXml) -> Seq<char> {
    if case.failure is Some {
        "FAILED"@
    } else if case.error is Some {
        "ERROR"@
    } else {
        "PASSED"@
    }
}

/// What is shown of a case.
pub open spec fn entry(case: TestcaseXml) -> Seq<Seq<char>> {
    seq!["=== "@ + case.name@ + " ["@ + status_label(case) + "] ==="@] + detail(case.failure)
        + detail(case.error) + seq![Seq::empty()]
}

fn push_detail(out: &mut Vec<String>, f: &Option<FailureXml>)
    ensures
        views(final(out)@) == views(old(out)@) + detail(*f),
{
    let ghost prior = views(out@);
    match f {
        Some(x) => {
            match &x.message {
                Some(m) => {
                    out.push(m.clone());
                },
                None => {},
            }
            if !x.content.as_str().is_empty() {
                out.push(x.content.clone());
            }
        },
        None => {},
    }
    proof {
        assert(views(out@) =~= prior + detail(*f));
    }
}

fn push_entry(out: &mut Vec<String>, case: &TestcaseXml)
    ensures
        views(final(out)@) == views(old(out)@) + entry(*case),
{
    let ghost prior = views(out@);
    let status = if case.failure.is_some() {
        "FAILED".to_owned()
    } else if case.error.is_some() {
        "ERROR".to_owned()
    } else {
        "PASSED".to_owned()
    };
    let mut head = "=== ".to_owned();
    head.append(case.name.as_str());
    head.append(" [");
    head.append(status.as_str());
    head.append("] ===");
    out.push(head);
    proof {
        assert(views(out@) =~= prior.push(head@));
    }
    push_detail(out, &case.failure);
    push_detail(out, &case.error);
    let ghost so_far = views(out@);
    out.push(String::new());
    proof {
        assert(out@.last()@ =~= Seq::<char>::empty());
        assert(views(out@) =~= so_far.push(Seq::empty()));
        assert(views(out@) =~= prior + entry(*case));
    }
}

/// What is shown of the first `n` listed cases.
pub open spec fn entries(cases: Seq<TestcaseXml>, order: Seq<usize>, n: int) -> Seq<Seq<char>>
    decreases n,
{
    if n <= 0 || n > order.len() {
        Seq::empty()
    } else {
        entries(cases, order, n - 1) + entry(cases[order[n - 1] as int])
    }
}

/// The lines that show the listed cases.
pub fn log_lines(cases: &Vec<TestcaseXml>, order: &Vec<usize>) -> (r: Vec<String>)
    requires
        forall|k: int| 0 <= k < order@.len() ==> (#[trigger] order@[k]) < cases@.len(),
    ensures
        views(r@) == entries(cases@, order@, order@.len() as int),
{
    let mut out: Vec<String> = Vec::new();
    let mut i: usize = 0;
    proof {
        assert(views(out@) =~= entries(cases@, order@, 0));
    }
    while i < order.len()
        invariant
            0 <= i <= order@.len(),
            forall|k: int| 0 <= k < order@.len() ==> (#[trigger] order@[k]) < cases@.len(),
            views(out@) == entries(cases@, order@, i as int),
        decreases order@.len() - i,
    {
        push_entry(&mut out, &cases[order[i]]);
        i = i + 1;
    }
    out
}

/// Which names match an optional pattern.
pub open spec fn matches_of(cases: Seq<TestcaseXml>, pattern: Option<Seq<char>>) -> Seq<bool> {
    Seq::new(
        cases.len(),
        |i: int|
            match pattern {
                Some(p) => regex_matches(p, cases[i].name@),
                None => true,
            },
    )
}

/// The view of an optional text.
pub open spec fn pattern_view(pattern: Option<&str>) -> Option<Seq<char>> {
    match pattern {
        Some(p) => Some(p@),
        None => None,
    }
}

/// The lines that show the results with the status, the names and the pattern
/// that are asked for. A pattern that is not valid is an error.
pub fn show_logs(
    cases: &Vec<TestcaseXml>,
    failures: bool,
    errors: bool,
    ids: &Vec<String>,
    pattern: Option<&str>,
) -> (r: Result<Vec<String>, String>)
    ensures
        match pattern_view(pattern) {
            Some(p) => match regex_error(p) {
                Some(m) => r matches Err(e) && e@ == "Invalid --test-regex pattern: "@ + m,
                None => shows(cases@, failures, errors, views(ids@), Some(p), r),
            },
            None => shows(cases@, failures, errors, views(ids@), None, r),
        },
{
    match pattern {
        Some(p) => match patterns::check(p) {
            Some(m) => {
                let mut e = "Invalid --test-regex pattern: ".to_owned();
                e.append(m.as_str());
                return Err(e);
            },
            None => {},
        },
        None => {},
    }
    let mut matched: Vec<bool> = Vec::new();
    let mut i: usize = 0;
    while i < cases.len()
        invariant
            0 <= i <= cases@.len(),
            pattern matches Some(p) ==> regex_error(p@) is None,
            matched@.len() == i,
            forall|k: int|
                0 <= k < i ==> #[trigger] matched@[k] == matches_of(
                    cases@,
                    pattern_view(pattern),
                )[k],
        decreases cases@.len() - i,
    {
        let m = match pattern {
            Some(p) => patterns::is_match(p, cases[i].name.as_str()),
            None => true,
        };
        matched.push(m);
        i = i + 1;
    }
    proof {
        assert(matched@ =~= matches_of(cases@, pattern_view(pattern)));
    }
    let order = select(cases, failures, errors, ids, &matched);
    let lines = log_lines(cases, &order);
    proof {
        assert(views(lines@) == entries(cases@, order@, order@.len() as int));
    }
    Ok(lines)
}

/// The result shows the cases that are asked for.
pub open spec fn shows(
    cases: Seq<TestcaseXml>,
    failures: bool,
    errors: bool,
    ids: Seq<Seq<char>>,
    pattern: Option<Seq<char>>,
    r: Result<Vec<String>, String>,
) -> bool {
    r matches Ok(lines) && exists|order: Seq<usize>|
        is_selection(cases, failures, errors, ids, matches_of(cases, pattern), order) && views(
            lines@,
        ) == #[trigger] entries(cases, order, order.len() as int)
}

/// A name that has a bad result is shown with a bad result, however many good
/// ones it has.
pub proof fn bad_result_wins(cases: Seq<TestcaseXml>, i: int, j: int)
    requires
        0 <= i < cases.len(),
        0 <= j < cases.len(),
        is_winner(cases, i),
        cases[j].name@ == cases[i].name@,
        cases[j].bad(),
    ensures
        cases[i].bad(),
{
    if i != j {
        assert(beats(cases, i, j));
    }
}

/// Without a wish every name is shown once, and with a bad result where it
/// has one.
pub proof fn every_name_is_shown(
    cases: Seq<TestcaseXml>,
    matched: Seq<bool>,
    order: Seq<usize>,
    i: int,
)
    requires
        0 <= i < cases.len() <= usize::MAX,
        matched.len() == cases.len(),
        forall|k: int| 0 <= k < matched.len() ==> #[trigger] matched[k],
        is_selection(cases, false, false, Seq::empty(), matched, order),
    ensures
        exists|k: int|
            0 <= k < order.len() && cases[(#[trigger] order[k]) as int].name@ == cases[i].name@ && (
            cases[i].bad() ==> cases[order[k] as int].bad()),
        forall|a: int, b: int|
            0 <= a < b < order.len() ==> cases[(#[trigger] order[a]) as int].name@ != cases[(
            #[trigger] order[b]) as int].name@,
{
    let w = winner_from(cases, i, cases.len() as int);
    assert(is_winner(cases, w)) by {
        assert forall|j: int|
            0 <= j < cases.len() && j != w && (#[trigger] cases[j]).name@
                == cases[w].name@ implies beats(cases, w, j) by {}
    }
    bad_result_wins_or_good(cases, w, i);
    assert(matched[w]);
    assert(is_shown(cases, false, false, Seq::empty(), matched, w));
    assert(order.contains(w as usize));
    let k = choose|k: int| 0 <= k < order.len() && order[k] == w as usize;
    assert(cases[order[k] as int].name@ == cases[i].name@);
    assert forall|a: int, b: int| 0 <= a < b < order.len() implies cases[(
    #[trigger] order[a]) as int].name@ != cases[(#[trigger] order[b]) as int].name@ by {
        text::before_irreflexive(cases[order[a] as int].name@);
    }
}

proof fn bad_result_wins_or_good(cases: Seq<TestcaseXml>, w: int, i: int)
    requires
        0 <= w < cases.len(),
        0 <= i < cases.len(),
        is_winner(cases, w),
        cases[w].name@ == cases[i].name@,
    ensures
        cases[i].bad() ==> cases[w].bad(),
{
    if cases[i].bad() {
        bad_result_wins(cases, w, i);
    }
}

proof fn winner_from(cases: Seq<TestcaseXml>, i: int, n: int) -> (w: int)
    requires
        0 <= i < cases.len(),
        0 <= n <= cases.len(),
    ensures
        0 <= w < cases.len(),
        cases[w].name@ == cases[i].name@,
        forall|j: int|
            0 <= j < n && j != w && (#[trigger] cases[j]).name@ == cases[i].name@ ==> beats(
                cases,
                w,
                j,
            ),
        w < n || w == i,
    decreases n,
{
    if n == 0 {
        i
    } else {
        let w = winner_from(cases, i, n - 1);
        let c = n - 1;
        if cases[c].name@ == cases[i].name@ && w != c && !beats(cases, w, c) {
            assert forall|j: int|
                0 <= j < n && j != c && (#[trigger] cases[j]).name@ == cases[i].name@ implies beats(
                cases,
                c,
                j,
            ) by {
                if j != w {
                    assert(beats(cases, w, j));
                }
            }
            c
        } else {
            w
        }
    }
}

/// Where failures or errors are asked for, only such results are shown; where
/// names are, only these; and a name that does not match is never shown.
pub proof fn only_wanted_are_shown(
    cases: Seq<TestcaseXml>,
    failures: bool,
    errors: bool,
    ids: Seq<Seq<char>>,
    matched: Seq<bool>,
    order: Seq<usize>,
    k: int,
)
    requires
        0 <= k < order.len(),
        is_selection(cases, failures, errors, ids, matched, order),
    ensures
        ({
            let case = cases[order[k] as int];
            &&& failures && !errors ==> case.failure is Some
            &&& errors && !failures ==> case.error is Some
            &&& failures && errors ==> case.failure is Some || case.error is Some
            &&& ids.len() > 0 ==> ids.contains(case.name@)
            &&& matched[order[k] as int]
        }),
{
    assert(order.contains(order[k]));
}

/// A result that is shown as failed has a failure, one that is shown as an
/// error has an error and no failure, and one that is shown as passed has
/// neither.
pub proof fn label_tells_status(case: TestcaseXml)
    ensures
        status_label(case) == "FAILED"@ <==> case.failure is Some,
        status_label(case) == "ERROR"@ <==> case.failure is None && case.error is Some,
        status_label(case) == "PASSED"@ <==> !case.bad(),
{
    reveal_strlit("FAILED");
    reveal_strlit("ERROR");
    reveal_strlit("PASSED");
    assert("FAILED"@[0] == 'F');
    assert("ERROR"@[0] == 'E');
    assert("PASSED"@[0] == 'P');
}

/// The messages and the texts of a failure and an error are shown, those of
/// the failure first.
pub proof fn entry_shows_details(case: TestcaseXml)
    ensures
        entry(case)[0] == "=== "@ + case.name@ + " ["@ + status_label(case) + "] ==="@,
        entry(case).last().len() == 0,
        case.failure matches Some(f) ==> (f.message matches Some(m) ==> entry(case)[1] == m@),
        case.failure matches Some(f) ==> f.content@.len() > 0 ==> entry(case).contains(f.content@),
        case.error matches Some(f) ==> (f.message matches Some(m) ==> entry(case).contains(m@)),
        case.error matches Some(f) ==> f.content@.len() > 0 ==> entry(case).contains(f.content@),
        !case.bad() ==> entry(case).len() == 2,
{
    let e = entry(case);
    let (a, b) = (detail(case.failure), detail(case.error));
    assert forall|k: int| 0 <= k < a.len() implies e[1 + k] == #[trigger] a[k] by {}
    assert forall|k: int| 0 <= k < b.len() implies e[1 + a.len() + k] == #[trigger] b[k] by {}
    match case.failure {
        Some(f) => {
            if f.content@.len() > 0 {
                assert(a[a.len() - 1] == f.content@);
                assert(e[1 + (a.len() - 1)] == f.content@);
            }
        },
        None => {},
    }
    match case.error {
        Some(f) => {
            if f.message is Some {
                assert(b[0] == f.message->Some_0@);
                assert(e[1 + a.len() as int] == f.message->Some_0@);
            }
            if f.content@.len() > 0 {
                assert(b[b.len() - 1] == f.content@);
                assert(e[1 + a.len() + (b.len() - 1)] == f.content@);
            }
        },
        None => {},
    }
}

} // verus!
