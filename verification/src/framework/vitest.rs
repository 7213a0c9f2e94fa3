//! The vitest framework: `vitest list --json` for discovery, JSON reports
//! that are turned into JUnit XML.

use vstd::prelude::*;

use crate::config::{formats_class_and_name, formatted_id, VitestFrameworkConfig};
use crate::framework::name_pattern::{
    all_escaped, alternatives_match_names, escape_keeps_apart, one_of, selects_names, Pattern,
};
use crate::framework::pytest::{
    empty_command, optional_words, split_args, split_command, split_optional, unparsed_args,
    unparsed_command,
};
use crate::framework::{
    bare_record, record_views, FrameworkError, FrameworkResult, TestFramework, TestInstance,
    TestRecord,
};
use crate::order;
use crate::order::{pair_views, strictly_sorted};
use crate::paths;
use crate::paths::{
    begins_component, is_absolute_path, is_plain, is_under, joined_is_under, joined_path, remainder,
};
use crate::patterns;
use crate::patterns::regex_escaped;
use crate::provider::Command;
use crate::shell::shell_words_of;
use crate::text;
use crate::text::{
    chars_of, decimal, find_from, find_from_is_least, has_prefix, joined, lines_of, matches_at,
    occurs, string_between, views,
};
use crate::xml;
use crate::xml::{part_views, xml_text, XmlEvent, XmlPart};

verus! {

/// Test framework for JavaScript/TypeScript vitest projects. Test ids have the
/// form `{file} > {name}`.
#[derive(Debug)]
pub struct VitestFramework {
    /// The configuration.
    pub config: VitestFrameworkConfig,
    /// The program to invoke (first token of the command).
    pub program: String,
    /// The arguments behind it in the command.
    pub prefix_args: Vec<String>,
}

/// A test in the output of `vitest list`.
#[derive(Debug)]
pub struct VitestListItem {
    pub name: String,
    pub file: String,
}

/// A report of vitest.
#[derive(Debug)]
pub struct VitestJsonReport {
    /// The results, file by file.
    pub test_results: Vec<VitestJsonTestResult>,
    /// The time of all reported tests together, in seconds with six decimals.
    pub time: String,
}

/// The results of a test file.
#[derive(Debug)]
pub struct VitestJsonTestResult {
    /// The path of the file.
    pub name: String,
    /// The results of its tests.
    pub assertion_results: Vec<VitestJsonAssertionResult>,
    /// The time of its reported tests together, in seconds with six decimals.
    pub time: String,
}

/// The result of a test.
#[derive(Debug)]
pub struct VitestJsonAssertionResult {
    /// The titles of the suites around the test.
    pub ancestor_titles: Vec<String>,
    /// The title of the test.
    pub title: String,
    /// The status.
    pub status: String,
    /// The time, in seconds with six decimals.
    pub time: String,
    /// What failed.
    pub failure_messages: Vec<String>,
}

/// The path of a listed file relative to the working directory; as it is
/// where it lies elsewhere.
pub open spec fn listed_file(file: Seq<char>, cwd: Seq<char>) -> Seq<char> {
    if is_under(file, cwd) {
        remainder(file, cwd)
    } else {
        file
    }
}

/// The id of a listed test.
pub open spec fn listed_id(item: VitestListItem, cwd: Seq<char>) -> Seq<char> {
    listed_file(item.file@, cwd) + " > "@ + item.name@
}

/// The part of an id behind the first separator; the whole id where there is
/// none.
pub open spec fn name_part(id: Seq<char>) -> Seq<char> {
    match find_from(id, " > "@, 0) {
        Some(i) => id.subrange(i + 3, id.len() as int),
        None => id,
    }
}

fn name_part_of(id: &str) -> (r: String)
    ensures
        r@ == name_part(id@),
{
    proof {
        reveal_strlit(" > ");
    }
    match text::split_once(id, " > ") {
        Some((_, name)) => name,
        None => id.to_owned(),
    }
}

/// The name parts of a sequence of records.
pub open spec fn name_parts(tests: Seq<TestRecord>) -> Seq<Seq<char>> {
    Seq::new(tests.len(), |i: int| name_part(tests[i].id@))
}

/// The name stands more than once among the given ones.
pub open spec fn repeats(names: Seq<Seq<char>>, name: Seq<char>) -> bool {
    exists|i: int, j: int|
        0 <= i < j < names.len() && #[trigger] names[i] == name && #[trigger] names[j] == name
}

/// What is said of repeated names.
pub open spec fn repeated_names_error(names: Seq<Seq<char>>) -> Seq<char> {
    "Duplicate test names found across files: "@ + joined(names, ", "@)
        + ". Vitest --testNamePattern cannot distinguish these."@
}

/// Checks that no two tests share a name part: tests are selected by name
/// alone. The error lists the repeated names in order.
pub fn check_unique_test_names(tests: &Vec<TestRecord>) -> (r: FrameworkResult<()>)
    ensures
        match r {
            Ok(_) => forall|n: Seq<char>| !#[trigger] repeats(name_parts(tests@), n),
            Err(e) => exists|names: Seq<Seq<char>>|
                {
                    &&& strictly_sorted(names)
                    &&& names.len() > 0
                    &&& forall|n: Seq<char>|
                        names.contains(n) <==> #[trigger] repeats(name_parts(tests@), n)
                    &&& e matches FrameworkError::DiscoveryFailed(m) && m@
                        == #[trigger] repeated_names_error(names)
                },
        },
{
    let ghost parts = name_parts(tests@);
    let mut names: Vec<String> = Vec::new();
    let mut i: usize = 0;
    while i < tests.len()
        invariant
            0 <= i <= tests@.len(),
            parts == name_parts(tests@),
            names@.len() == i,
            forall|k: int| 0 <= k < i ==> (#[trigger] names@[k])@ == parts[k],
        decreases tests@.len() - i,
    {
        names.push(name_part_of(tests[i].id.as_str()));
        i = i + 1;
    }
    proof {
        assert(views(names@) =~= parts);
    }
    let mut twice: Vec<String> = Vec::new();
    let mut j: usize = 0;
    while j < names.len()
        invariant
            0 <= j <= names@.len(),
            views(names@) == parts,
            forall|k: int| 0 <= k < twice@.len() ==> repeats(parts, (#[trigger] twice@[k])@),
            forall|a: int, b: int|
                0 <= a < b < j && #[trigger] parts[a] == #[trigger] parts[b] ==> views(
                    twice@,
                ).contains(parts[a]),
        decreases names@.len() - j,
    {
        let mut k: usize = 0;
        let mut seen = false;
        while k < j
            invariant
                0 <= k <= j < names@.len(),
                views(names@) == parts,
                seen <==> exists|m: int| 0 <= m < k && #[trigger] parts[m] == parts[j as int],
            decreases j - k,
        {
            proof {
                assert(views(names@)[k as int] == names@[k as int]@);
                assert(views(names@)[j as int] == names@[j as int]@);
            }
            if text::same(names[k].as_str(), names[j].as_str()) {
                assert(parts[k as int] == parts[j as int]);
                seen = true;
            }
            k = k + 1;
        }
        let ghost before = twice@;
        if seen {
            proof {
                let m = choose|m: int| 0 <= m < j && #[trigger] parts[m] == parts[j as int];
                assert(views(names@)[j as int] == names@[j as int]@);
                assert(parts[m] == names@[j as int]@ && parts[j as int] == names@[j as int]@);
                assert(repeats(parts, names@[j as int]@));
            }
            twice.push(names[j].clone());
        }
        proof {
            assert forall|a: int, b: int|
                0 <= a < b < j + 1 && #[trigger] parts[a] == #[trigger] parts[b] implies views(
                twice@,
            ).contains(parts[a]) by {
                if b < j {
                    assert(views(before).contains(parts[a]));
                    let k = choose|k: int|
                        0 <= k < views(before).len() && views(before)[k] == parts[a];
                    assert(views(twice@)[k] == parts[a]);
                } else {
                    assert(seen);
                    assert(views(names@)[j as int] == names@[j as int]@);
                    assert(views(twice@)[twice@.len() - 1] == parts[a]);
                }
            }
        }
        j = j + 1;
    }
    proof {
        assert forall|n: Seq<char>| views(twice@).contains(n) <==> #[trigger] repeats(parts, n) by {
            if views(twice@).contains(n) {
                let k = choose|k: int| 0 <= k < views(twice@).len() && views(twice@)[k] == n;
                assert(repeats(parts, twice@[k]@));
            }
            if repeats(parts, n) {
                let (a, b) = choose|a: int, b: int|
                    0 <= a < b < parts.len() && #[trigger] parts[a] == n && #[trigger] parts[b]
                        == n;
                assert(views(twice@).contains(parts[a]));
            }
        }
    }
    if twice.len() == 0 {
        proof {
            assert forall|n: Seq<char>| !#[trigger] repeats(parts, n) by {
                if repeats(parts, n) {
                    assert(views(twice@).contains(n));
                }
            }
        }
        return Ok(());
    }
    let sorted = order::sort_dedup(&twice);
    let list = text::join(&sorted, ", ");
    let mut e = "Duplicate test names found across files: ".to_owned();
    e.append(list.as_str());
    e.append(". Vitest --testNamePattern cannot distinguish these.");
    proof {
        let s = views(sorted@);
        assert(e@ == repeated_names_error(s));
        assert(views(twice@)[0] == twice@[0]@);
        assert(views(twice@).contains(twice@[0]@));
        assert(s.contains(twice@[0]@));
        assert forall|n: Seq<char>| s.contains(n) <==> #[trigger] repeats(parts, n) by {
            assert(s.contains(n) <==> views(twice@).contains(n));
        }
    }
    Err(FrameworkError::DiscoveryFailed(e))
}

/// The parts of ids in front of the first separator, or whole ids without
/// one.
pub open spec fn file_part(id: Seq<char>) -> Seq<char> {
    match find_from(id, " > "@, 0) {
        Some(i) => id.subrange(0, i),
        None => id,
    }
}

/// A file selector of one of the tests.
pub open spec fn selects(tests: Seq<TestInstance>, file: Seq<char>) -> bool {
    exists|i: int| 0 <= i < tests.len() && file_part((#[trigger] tests[i]).record.id@) == file
}

/// An escaped name of one of the tests that have a name.
pub open spec fn names_one(tests: Seq<TestInstance>, escaped: Seq<char>) -> bool {
    exists|i: int|
        0 <= i < tests.len() && find_from((#[trigger] tests[i]).record.id@, " > "@, 0) is Some
            && regex_escaped(name_part(tests[i].record.id@)) == escaped
}

/// The arguments that select tests by name.
pub open spec fn name_args(escaped: Seq<Seq<char>>) -> Seq<Seq<char>> {
    if escaped.len() == 0 {
        Seq::empty()
    } else {
        seq!["--testNamePattern"@, "^("@ + joined(escaped, "|"@) + ")$"@]
    }
}

/// A status that counts as a result.
pub open spec fn is_reported(status: Seq<char>) -> bool {
    status != "pending"@ && status != "todo"@ && status != "skipped"@
}

/// Whether a status counts as a result.
pub fn reported(status: &str) -> (b: bool)
    ensures
        b == is_reported(status@),
{
    !(text::same(status, "pending") || text::same(status, "todo") || text::same(status, "skipped"))
}

/// A text without the slashes it begins with.
pub open spec fn without_slashes(s: Seq<char>) -> Seq<char>
    decreases s.len(),
{
    if s.len() > 0 && s[0] == '/' {
        without_slashes(s.subrange(1, s.len() as int))
    } else {
        s
    }
}

/// The path of a reported file relative to the working directory.
pub open spec fn reported_file(name: Seq<char>, cwd: Seq<char>) -> Seq<char> {
    without_slashes(
        if has_prefix(name, cwd) {
            name.subrange(cwd.len() as int, name.len() as int)
        } else {
            name
        },
    )
}

fn strip_slashes(s: &str) -> (r: String)
    ensures
        r@ == without_slashes(s@),
{
    let v = chars_of(s);
    let mut i: usize = 0;
    proof {
        assert(s@.subrange(0, s@.len() as int) =~= s@);
    }
    while i < v.len() && v[i] == '/'
        invariant
            v@ == s@,
            0 <= i <= v@.len(),
            without_slashes(s@) == without_slashes(s@.subrange(i as int, s@.len() as int)),
        decreases v@.len() - i,
    {
        proof {
            let t = s@.subrange(i as int, s@.len() as int);
            assert(t.subrange(1, t.len() as int) =~= s@.subrange(i + 1, s@.len() as int));
        }
        i = i + 1;
    }
    string_between(&v, i, v.len())
}

fn relative_name(name: &str, cwd: &str) -> (r: String)
    ensures
        r@ == reported_file(name@, cwd@),
{
    match text::strip_prefix(name, cwd) {
        Some(rest) => strip_slashes(rest.as_str()),
        None => strip_slashes(name),
    }
}

/// The name of a reported test: the titles around it and its own.
pub open spec fn full_title(a: VitestJsonAssertionResult) -> Seq<char> {
    joined(views(a.ancestor_titles@).push(a.title@), " > "@)
}

/// The message of a reported test that failed.
pub open spec fn failure_of(a: VitestJsonAssertionResult) -> Option<Seq<char>> {
    if a.status@ == "failed"@ && a.failure_messages@.len() > 0 {
        Some(a.failure_messages@[0]@)
    } else {
        None
    }
}

/// The first line of a text; empty where it has none.
pub open spec fn first_line(s: Seq<char>) -> Seq<char> {
    if lines_of(s).len() > 0 {
        lines_of(s)[0]
    } else {
        Seq::empty()
    }
}

/// The attributes of a reported test.
pub open spec fn case_attributes(file: Seq<char>, a: VitestJsonAssertionResult) -> Seq<
    (Seq<char>, Seq<char>),
> {
    seq![("classname"@, file), ("name"@, full_title(a)), ("time"@, a.time@)]
}

/// The document part of a reported test.
pub open spec fn case_parts(file: Seq<char>, a: VitestJsonAssertionResult) -> Seq<XmlPart> {
    match failure_of(a) {
        Some(m) => seq![
            XmlPart::Start { name: "testcase"@, attributes: case_attributes(file, a) },
            XmlPart::Start { name: "failure"@, attributes: seq![("message"@, first_line(m))] },
            XmlPart::Text { content: m },
            XmlPart::End { name: "failure"@ },
            XmlPart::End { name: "testcase"@ },
        ],
        None => seq![
            XmlPart::Empty { name: "testcase"@, attributes: case_attributes(file, a) },
        ],
    }
}

/// The document parts of the first `n` tests of a file that count.
pub open spec fn cases_parts(
    file: Seq<char>,
    tests: Seq<VitestJsonAssertionResult>,
    n: int,
) -> Seq<XmlPart>
    decreases n,
{
    if n <= 0 || n > tests.len() {
        Seq::empty()
    } else if is_reported(tests[n - 1].status@) {
        cases_parts(file, tests, n - 1) + case_parts(file, tests[n - 1])
    } else {
        cases_parts(file, tests, n - 1)
    }
}

/// The number of the first `n` tests of a file that count.
pub open spec fn case_count(tests: Seq<VitestJsonAssertionResult>, n: int) -> nat
    decreases n,
{
    if n <= 0 || n > tests.len() {
        0
    } else {
        case_count(tests, n - 1) + (if is_reported(tests[n - 1].status@) {
            1nat
        } else {
            0nat
        })
    }
}

/// The number of the first `n` tests of a file that failed.
pub open spec fn failure_count(tests: Seq<VitestJsonAssertionResult>, n: int) -> nat
    decreases n,
{
    if n <= 0 || n > tests.len() {
        0
    } else {
        failure_count(tests, n - 1) + (if tests[n - 1].status@ == "failed"@ {
            1nat
        } else {
            0nat
        })
    }
}

/// The number of tests of the first `n` files that count.
pub open spec fn total_count(files: Seq<VitestJsonTestResult>, n: int) -> nat
    decreases n,
{
    if n <= 0 || n > files.len() {
        0
    } else {
        total_count(files, n - 1) + case_count(
            files[n - 1].assertion_results@,
            files[n - 1].assertion_results@.len() as int,
        )
    }
}

/// The number of tests of the first `n` files that failed.
pub open spec fn total_failures(files: Seq<VitestJsonTestResult>, n: int) -> nat
    decreases n,
{
    if n <= 0 || n > files.len() {
        0
    } else {
        total_failures(files, n - 1) + failure_count(
            files[n - 1].assertion_results@,
            files[n - 1].assertion_results@.len() as int,
        )
    }
}

/// The document part of a file; none where no test of it counts.
pub open spec fn suite_parts(f: VitestJsonTestResult, cwd: Seq<char>) -> Seq<XmlPart> {
    let tests = f.assertion_results@;
    let n = tests.len() as int;
    let file = reported_file(f.name@, cwd);
    if case_count(tests, n) == 0 {
        Seq::empty()
    } else {
        seq![
            XmlPart::Start {
                name: "testsuite"@,
                attributes: seq![
                    ("name"@, file),
                    ("tests"@, decimal(case_count(tests, n) as int)),
                    ("failures"@, decimal(failure_count(tests, n) as int)),
                    ("errors"@, "0"@),
                    ("skipped"@, "0"@),
                    ("time"@, f.time@),
                ],
            },
        ] + cases_parts(file, tests, n) + seq![XmlPart::End { name: "testsuite"@ }]
    }
}

/// The document parts of the first `n` files.
pub open spec fn suites_parts(
    files: Seq<VitestJsonTestResult>,
    cwd: Seq<char>,
    n: int,
) -> Seq<XmlPart>
    decreases n,
{
    if n <= 0 || n > files.len() {
        Seq::empty()
    } else {
        suites_parts(files, cwd, n - 1) + suite_parts(files[n - 1], cwd)
    }
}

/// The JUnit document of a report.
pub open spec fn report_parts(report: VitestJsonReport, cwd: Seq<char>) -> Seq<XmlPart> {
    let files = report.test_results@;
    let n = files.len() as int;
    seq![
        XmlPart::Decl { version: "1.0"@, encoding: "UTF-8"@ },
        XmlPart::Start {
            name: "testsuites"@,
            attributes: seq![
                ("name"@, "vitest tests"@),
                ("tests"@, decimal(total_count(files, n) as int)),
                ("failures"@, decimal(total_failures(files, n) as int)),
                ("errors"@, "0"@),
                ("time"@, report.time@),
            ],
        },
    ] + suites_parts(files, cwd, n) + seq![XmlPart::End { name: "testsuites"@ }]
}

/// A reported file under the working directory goes by its path from there.
pub proof fn reported_file_is_relative(cwd: Seq<char>, p: Seq<char>)
    requires
        p.len() > 0 ==> p[0] != '/',
    ensures
        reported_file(cwd + "/"@ + p, cwd) == p,
{
    reveal_strlit("/");
    let name = cwd + "/"@ + p;
    assert(name.subrange(0, cwd.len() as int) =~= cwd);
    let rest = name.subrange(cwd.len() as int, name.len() as int);
    assert(rest =~= "/"@ + p);
    assert(rest.subrange(1, rest.len() as int) =~= p);
    assert(without_slashes(p) == p);
}

/// A listed file under the working directory goes by its path from there.
pub proof fn listed_file_is_relative(cwd: Seq<char>, p: Seq<char>)
    requires
        is_absolute_path(cwd),
        cwd.last() != '/',
        is_plain(p),
    ensures
        listed_file(cwd + "/"@ + p, cwd) == p,
{
    joined_is_under(cwd, p);
    assert(begins_component(p, 0));
    assert(joined_path(cwd, p) == cwd + "/"@ + p);
}

/// The document has, at position `k`, the result of a test: a test case with
/// the file and the title, and in it the failure where there is one.
pub open spec fn result_at(
    parts: Seq<XmlPart>,
    k: int,
    file: Seq<char>,
    title: Seq<char>,
    failure: Option<Seq<char>>,
) -> bool {
    match failure {
        Some(m) => {
            &&& 0 <= k && k + 4 < parts.len()
            &&& parts[k] matches XmlPart::Start { name, attributes } && name == "testcase"@
                && attributes.len() >= 2 && attributes[0] == ("classname"@, file)
                && attributes[1] == ("name"@, title)
            &&& parts[k + 1] matches XmlPart::Start { name, .. } && name == "failure"@
            &&& parts[k + 2] == (XmlPart::Text { content: m })
            &&& parts[k + 3] == (XmlPart::End { name: "failure"@ })
            &&& parts[k + 4] == (XmlPart::End { name: "testcase"@ })
        },
        None => {
            &&& 0 <= k < parts.len()
            &&& parts[k] matches XmlPart::Empty { name, attributes } && name == "testcase"@
                && attributes.len() >= 2 && attributes[0] == ("classname"@, file)
                && attributes[1] == ("name"@, title)
        },
    }
}

/// The document has the result of a test somewhere.
pub open spec fn has_result(
    parts: Seq<XmlPart>,
    file: Seq<char>,
    title: Seq<char>,
    failure: Option<Seq<char>>,
) -> bool {
    exists|k: int| #[trigger] result_at(parts, k, file, title, failure)
}

/// A part of a document that begins a test case.
pub open spec fn is_case(part: XmlPart) -> bool {
    match part {
        XmlPart::Start { name, .. } => name == "testcase"@,
        XmlPart::Empty { name, .. } => name == "testcase"@,
        _ => false,
    }
}

/// A reported test, of which the part is the result.
pub open spec fn is_case_of(part: XmlPart, file: Seq<char>, a: VitestJsonAssertionResult) -> bool {
    &&& is_reported(a.status@)
    &&& match part {
        XmlPart::Start { attributes, .. } => attributes.len() >= 2 && attributes[0] == (
            "classname"@,
            file,
        ) && attributes[1] == ("name"@, full_title(a)) && a.status@ == "failed"@,
        XmlPart::Empty { attributes, .. } => attributes.len() >= 2 && attributes[0] == (
            "classname"@,
            file,
        ) && attributes[1] == ("name"@, full_title(a)) && failure_of(a) is None,
        _ => false,
    }
}

proof fn result_between(
    a: Seq<XmlPart>,
    b: Seq<XmlPart>,
    c: Seq<XmlPart>,
    file: Seq<char>,
    title: Seq<char>,
    failure: Option<Seq<char>>,
)
    requires
        has_result(b, file, title, failure),
    ensures
        has_result(a + b + c, file, title, failure),
{
    let k = choose|k: int| #[trigger] result_at(b, k, file, title, failure);
    let all = a + b + c;
    let n = a.len() as int;
    assert forall|i: int| 0 <= i < b.len() implies all[n + i] == #[trigger] b[i] by {}
    assert(all[n + k] == b[k]);
    if failure is Some {
        assert(all[n + k + 1] == b[k + 1]);
        assert(all[n + k + 2] == b[k + 2]);
        assert(all[n + k + 3] == b[k + 3]);
        assert(all[n + k + 4] == b[k + 4]);
    }
    assert(result_at(all, n + k, file, title, failure));
}

proof fn cases_hold_result(
    file: Seq<char>,
    tests: Seq<VitestJsonAssertionResult>,
    n: int,
    j: int,
)
    requires
        0 <= j < n <= tests.len(),
        is_reported(tests[j].status@),
    ensures
        has_result(
            cases_parts(file, tests, n),
            file,
            full_title(tests[j]),
            failure_of(tests[j]),
        ),
        case_count(tests, n) > 0,
    decreases n,
{
    let none = Seq::<XmlPart>::empty();
    let t = tests[j];
    let rest = cases_parts(file, tests, n - 1);
    let all = cases_parts(file, tests, n);
    if j == n - 1 {
        let own = case_parts(file, t);
        assert(result_at(own, 0, file, full_title(t), failure_of(t)));
        result_between(rest, own, none, file, full_title(t), failure_of(t));
        assert(rest + own + none =~= all);
    } else {
        cases_hold_result(file, tests, n - 1, j);
        let own = if is_reported(tests[n - 1].status@) {
            case_parts(file, tests[n - 1])
        } else {
            none
        };
        result_between(none, rest, own, file, full_title(t), failure_of(t));
        assert(none + rest + own =~= all);
    }
}

proof fn suites_hold_result(
    files: Seq<VitestJsonTestResult>,
    cwd: Seq<char>,
    n: int,
    i: int,
    j: int,
)
    requires
        0 <= i < n <= files.len(),
        0 <= j < files[i].assertion_results@.len(),
        is_reported(files[i].assertion_results@[j].status@),
    ensures
        has_result(
            suites_parts(files, cwd, n),
            reported_file(files[i].name@, cwd),
            full_title(files[i].assertion_results@[j]),
            failure_of(files[i].assertion_results@[j]),
        ),
    decreases n,
{
    let none = Seq::<XmlPart>::empty();
    let tests = files[i].assertion_results@;
    let file = reported_file(files[i].name@, cwd);
    let (title, failure) = (full_title(tests[j]), failure_of(tests[j]));
    let rest = suites_parts(files, cwd, n - 1);
    if i == n - 1 {
        let m = tests.len() as int;
        cases_hold_result(file, tests, m, j);
        let inner = cases_parts(file, tests, m);
        let own = suite_parts(files[i], cwd);
        let head = own.subrange(0, 1);
        let end = seq![XmlPart::End { name: "testsuite"@ }];
        result_between(rest + head, inner, end, file, title, failure);
        assert(rest + head + inner + end =~= rest + own);
    } else {
        suites_hold_result(files, cwd, n - 1, i, j);
        let own = suite_parts(files[n - 1], cwd);
        result_between(none, rest, own, file, title, failure);
        assert(none + rest + own =~= rest + own);
    }
}

/// Every test that passed or failed has its result in the document, under the
/// path of its file from the working directory, with what failed.
pub proof fn every_result_is_reported(
    report: VitestJsonReport,
    cwd: Seq<char>,
    p: Seq<char>,
    i: int,
    j: int,
)
    requires
        0 <= i < report.test_results@.len(),
        report.test_results@[i].name@ == cwd + "/"@ + p,
        p.len() > 0 ==> p[0] != '/',
        0 <= j < report.test_results@[i].assertion_results@.len(),
        ({
            let status = report.test_results@[i].assertion_results@[j].status@;
            status == "passed"@ || status == "failed"@
        }),
    ensures
        ({
            let t = report.test_results@[i].assertion_results@[j];
            has_result(
                report_parts(report, cwd),
                p,
                joined(views(t.ancestor_titles@).push(t.title@), " > "@),
                if t.status@ == "failed"@ && t.failure_messages@.len() > 0 {
                    Some(t.failure_messages@[0]@)
                } else {
                    None
                },
            )
        }),
{
    let files = report.test_results@;
    let t = files[i].assertion_results@[j];
    reported_file_is_relative(cwd, p);
    reveal_strlit("passed");
    reveal_strlit("failed");
    reveal_strlit("pending");
    reveal_strlit("todo");
    reveal_strlit("skipped");
    assert("passed"@.len() == 6 && "failed"@.len() == 6);
    assert("pending"@.len() == 7 && "todo"@.len() == 4 && "skipped"@.len() == 7);
    let n = files.len() as int;
    suites_hold_result(files, cwd, n, i, j);
    let parts = report_parts(report, cwd);
    let inner = suites_parts(files, cwd, n);
    let head = parts.subrange(0, 2);
    let end = seq![XmlPart::End { name: "testsuites"@ }];
    result_between(head, inner, end, p, full_title(t), failure_of(t));
    assert(head + inner + end =~= parts);
}

proof fn cases_are_of_tests(
    file: Seq<char>,
    tests: Seq<VitestJsonAssertionResult>,
    n: int,
    k: int,
)
    requires
        0 <= n <= tests.len(),
        0 <= k < cases_parts(file, tests, n).len(),
        is_case(cases_parts(file, tests, n)[k]),
    ensures
        exists|j: int|
            0 <= j < n && is_case_of(cases_parts(file, tests, n)[k], file, #[trigger] tests[j]),
    decreases n,
{
    if n > 0 {
        let rest = cases_parts(file, tests, n - 1);
        let all = cases_parts(file, tests, n);
        if k < rest.len() {
            assert(all[k] == rest[k]);
            cases_are_of_tests(file, tests, n - 1, k);
            let j = choose|j: int| 0 <= j < n - 1 && is_case_of(rest[k], file, #[trigger] tests[j]);
            assert(is_case_of(all[k], file, tests[j]));
        } else {
            reveal_strlit("failure");
            reveal_strlit("testcase");
            assert("failure"@.len() != "testcase"@.len());
            assert(all[k] == case_parts(file, tests[n - 1])[k - rest.len()]);
            assert(is_case_of(all[k], file, tests[n - 1]));
        }
    }
}

proof fn suites_are_of_files(files: Seq<VitestJsonTestResult>, cwd: Seq<char>, n: int, k: int)
    requires
        0 <= n <= files.len(),
        0 <= k < suites_parts(files, cwd, n).len(),
        is_case(suites_parts(files, cwd, n)[k]),
    ensures
        exists|i: int, j: int|
            0 <= i < n && 0 <= j < files[i].assertion_results@.len() && is_case_of(
                suites_parts(files, cwd, n)[k],
                reported_file(files[i].name@, cwd),
                #[trigger] files[i].assertion_results@[j],
            ),
    decreases n,
{
    if n > 0 {
        let rest = suites_parts(files, cwd, n - 1);
        let all = suites_parts(files, cwd, n);
        if k < rest.len() {
            assert(all[k] == rest[k]);
            suites_are_of_files(files, cwd, n - 1, k);
            let (i, j) = choose|i: int, j: int|
                0 <= i < n - 1 && 0 <= j < files[i].assertion_results@.len() && is_case_of(
                    rest[k],
                    reported_file(files[i].name@, cwd),
                    #[trigger] files[i].assertion_results@[j],
                );
            assert(is_case_of(
                all[k],
                reported_file(files[i].name@, cwd),
                files[i].assertion_results@[j],
            ));
        } else {
            reveal_strlit("testsuite");
            reveal_strlit("testcase");
            assert("testsuite"@.len() != "testcase"@.len());
            let f = files[n - 1];
            let tests = f.assertion_results@;
            let m = tests.len() as int;
            let file = reported_file(f.name@, cwd);
            let own = suite_parts(f, cwd);
            let at = k - rest.len();
            assert(all[k] == own[at]);
            let inner = cases_parts(file, tests, m);
            assert(own[at] == inner[at - 1]);
            cases_are_of_tests(file, tests, m, at - 1);
            let j = choose|j: int|
                0 <= j < m && is_case_of(inner[at - 1], file, #[trigger] tests[j]);
            assert(is_case_of(all[k], file, files[n - 1].assertion_results@[j]));
        }
    }
}

/// Every test case of the document is the result of a test that ran, with its
/// title, and it has a failure only where the test failed.
pub proof fn every_case_is_a_result(report: VitestJsonReport, cwd: Seq<char>, k: int)
    requires
        0 <= k < report_parts(report, cwd).len(),
        is_case(report_parts(report, cwd)[k]),
    ensures
        exists|i: int, j: int|
            0 <= i < report.test_results@.len() && 0 <= j
                < report.test_results@[i].assertion_results@.len() && is_case_of(
                report_parts(report, cwd)[k],
                reported_file(report.test_results@[i].name@, cwd),
                #[trigger] report.test_results@[i].assertion_results@[j],
            ),
{
    let files = report.test_results@;
    let n = files.len() as int;
    let parts = report_parts(report, cwd);
    let inner = suites_parts(files, cwd, n);
    reveal_strlit("testsuites");
    reveal_strlit("testcase");
    assert("testsuites"@.len() != "testcase"@.len());
    assert(parts[k] == inner[k - 2]);
    suites_are_of_files(files, cwd, n, k - 2);
    let (i, j) = choose|i: int, j: int|
        0 <= i < n && 0 <= j < files[i].assertion_results@.len() && is_case_of(
            inner[k - 2],
            reported_file(files[i].name@, cwd),
            #[trigger] files[i].assertion_results@[j],
        );
    assert(is_case_of(
        parts[k],
        reported_file(report.test_results@[i].name@, cwd),
        report.test_results@[i].assertion_results@[j],
    ));
}

/// The suite of a file goes by the path of the file from the working
/// directory.
pub proof fn suite_goes_by_its_file(f: VitestJsonTestResult, cwd: Seq<char>, p: Seq<char>, j: int)
    requires
        f.name@ == cwd + "/"@ + p,
        p.len() > 0 ==> p[0] != '/',
        0 <= j < f.assertion_results@.len(),
        is_reported(f.assertion_results@[j].status@),
    ensures
        suite_parts(f, cwd).len() > 0,
        suite_parts(f, cwd)[0] matches XmlPart::Start { name, attributes } && name == "testsuite"@
            && attributes.len() > 0 && attributes[0] == ("name"@, p),
{
    reported_file_is_relative(cwd, p);
    cases_hold_result(p, f.assertion_results@, f.assertion_results@.len() as int, j);
}

/// A test is reported under the id under which it was listed: the file and the
/// name of its result, with the separator between them, are the id of the
/// listed test of the same file and titles.
pub proof fn results_fit_listed_tests(
    item: VitestListItem,
    t: VitestJsonAssertionResult,
    cwd: Seq<char>,
    p: Seq<char>,
)
    requires
        is_absolute_path(cwd),
        cwd.last() != '/',
        is_plain(p),
        item.file@ == cwd + "/"@ + p,
        item.name@ == joined(views(t.ancestor_titles@).push(t.title@), " > "@),
    ensures
        reported_file(item.file@, cwd) + " > "@ + full_title(t) == listed_id(item, cwd),
        listed_id(item, cwd) == p + " > "@ + item.name@,
        !full_title(t).contains('{') ==> formatted_id(
            "{classname} > {name}"@,
            full_title(t),
            reported_file(item.file@, cwd),
        ) == listed_id(item, cwd),
{
    if !full_title(t).contains('{') {
        let file = reported_file(item.file@, cwd);
        reveal_strlit(" > ");
        reveal_strlit("{classname} > {name}");
        reveal_strlit("{classname}");
        reveal_strlit("{name}");
        let none = Seq::<char>::empty();
        formats_class_and_name(none, " > "@, none, full_title(t), file);
        assert("{classname} > {name}"@ =~= none + "{classname}"@ + " > "@ + "{name}"@ + none);
        assert(none + file + " > "@ + full_title(t) + none =~= file + " > "@ + full_title(t));
    }
    assert(begins_component(p, 0));
    slash_from_starts(p);
    reported_file_is_relative(cwd, p);
    listed_file_is_relative(cwd, p);
}

proof fn slash_from_starts(p: Seq<char>)
    requires
        is_plain(p),
    ensures
        p.len() > 0,
        p[0] != '/',
{
    assert(begins_component(p, 0));
}

fn attribute(list: &mut Vec<(String, String)>, key: &str, value: &str)
    ensures
        pair_views(final(list)@) == pair_views(old(list)@).push((key@, value@)),
{
    let ghost before = list@;
    list.push((key.to_owned(), value.to_owned()));
    proof {
        assert(pair_views(list@) =~= pair_views(before).push((key@, value@)));
    }
}

fn title_of(a: &VitestJsonAssertionResult) -> (r: String)
    ensures
        r@ == full_title(*a),
{
    let mut titles = crate::discovery::clone_strings(&a.ancestor_titles);
    titles.push(a.title.clone());
    proof {
        assert(views(titles@) =~= views(a.ancestor_titles@).push(a.title@));
    }
    text::join(&titles, " > ")
}

fn push_case(out: &mut Vec<XmlEvent>, file: &str, a: &VitestJsonAssertionResult)
    ensures
        part_views(final(out)@) == part_views(old(out)@) + case_parts(file@, *a),
{
    let ghost before = part_views(out@);
    let mut attributes: Vec<(String, String)> = Vec::new();
    proof {
        assert(pair_views(attributes@) =~= Seq::<(Seq<char>, Seq<char>)>::empty());
    }
    attribute(&mut attributes, "classname", file);
    let title = title_of(a);
    attribute(&mut attributes, "name", title.as_str());
    attribute(&mut attributes, "time", a.time.as_str());
    proof {
        assert(pair_views(attributes@) =~= case_attributes(file@, *a));
    }
    if text::same(a.status.as_str(), "failed") && a.failure_messages.len() > 0 {
        let m = &a.failure_messages[0];
        let all = text::lines(m.as_str());
        let line = if all.len() > 0 {
            assert(views(all@)[0] == all@[0]@);
            all[0].clone()
        } else {
            String::new()
        };
        proof {
            assert(views(all@).len() == all@.len());
            assert(line@ =~= first_line(m@));
        }
        let mut message: Vec<(String, String)> = Vec::new();
        proof {
            assert(pair_views(message@) =~= Seq::<(Seq<char>, Seq<char>)>::empty());
        }
        attribute(&mut message, "message", line.as_str());
        proof {
            assert(pair_views(message@) =~= seq![("message"@, first_line(m@))]);
        }
        out.push(XmlEvent::Start { name: "testcase".to_owned(), attributes });
        out.push(XmlEvent::Start { name: "failure".to_owned(), attributes: message });
        out.push(XmlEvent::Text { content: m.clone() });
        out.push(XmlEvent::End { name: "failure".to_owned() });
        out.push(XmlEvent::End { name: "testcase".to_owned() });
    } else {
        out.push(XmlEvent::Empty { name: "testcase".to_owned(), attributes });
    }
    proof {
        assert(part_views(out@) =~= before + case_parts(file@, *a));
    }
}

proof fn counts_bounded(tests: Seq<VitestJsonAssertionResult>, n: int)
    requires
        0 <= n <= tests.len(),
    ensures
        case_count(tests, n) <= n,
        failure_count(tests, n) <= n,
    decreases n,
{
    if n > 0 {
        counts_bounded(tests, n - 1);
    }
}

fn count_cases(tests: &Vec<VitestJsonAssertionResult>) -> (r: (u64, u64))
    ensures
        r.0 == case_count(tests@, tests@.len() as int),
        r.1 == failure_count(tests@, tests@.len() as int),
{
    let mut cases: u64 = 0;
    let mut failures: u64 = 0;
    let mut i: usize = 0;
    while i < tests.len()
        invariant
            0 <= i <= tests@.len(),
            i <= tests.len(),
            cases == case_count(tests@, i as int),
            failures == failure_count(tests@, i as int),
        decreases tests@.len() - i,
    {
        proof {
            counts_bounded(tests@, i as int);
        }
        if reported(tests[i].status.as_str()) {
            cases = cases + 1;
        }
        if text::same(tests[i].status.as_str(), "failed") {
            failures = failures + 1;
        }
        i = i + 1;
    }
    (cases, failures)
}

fn push_suite(out: &mut Vec<XmlEvent>, f: &VitestJsonTestResult, cwd: &str)
    ensures
        part_views(final(out)@) == part_views(old(out)@) + suite_parts(*f, cwd@),
{
    let ghost before = part_views(out@);
    let (cases, failures) = count_cases(&f.assertion_results);
    if cases == 0 {
        proof {
            assert(part_views(out@) =~= before + suite_parts(*f, cwd@));
        }
        return ;
    }
    let file = relative_name(f.name.as_str(), cwd);
    let mut attributes: Vec<(String, String)> = Vec::new();
    proof {
        assert(pair_views(attributes@) =~= Seq::<(Seq<char>, Seq<char>)>::empty());
    }
    attribute(&mut attributes, "name", file.as_str());
    let count = text::decimal_u64(cases);
    attribute(&mut attributes, "tests", count.as_str());
    let failed = text::decimal_u64(failures);
    attribute(&mut attributes, "failures", failed.as_str());
    attribute(&mut attributes, "errors", "0");
    attribute(&mut attributes, "skipped", "0");
    attribute(&mut attributes, "time", f.time.as_str());
    let ghost tests = f.assertion_results@;
    let ghost head = XmlPart::Start {
        name: "testsuite"@,
        attributes: seq![
            ("name"@, file@),
            ("tests"@, decimal(cases as int)),
            ("failures"@, decimal(failures as int)),
            ("errors"@, "0"@),
            ("skipped"@, "0"@),
            ("time"@, f.time@),
        ],
    };
    proof {
        assert(pair_views(attributes@) =~= seq![
            ("name"@, file@),
            ("tests"@, decimal(cases as int)),
            ("failures"@, decimal(failures as int)),
            ("errors"@, "0"@),
            ("skipped"@, "0"@),
            ("time"@, f.time@),
        ]);
    }
    out.push(XmlEvent::Start { name: "testsuite".to_owned(), attributes });
    let mut i: usize = 0;
    proof {
        assert(part_views(out@) =~= before + seq![head] + cases_parts(file@, tests, 0));
    }
    while i < f.assertion_results.len()
        invariant
            0 <= i <= f.assertion_results@.len(),
            tests == f.assertion_results@,
            part_views(out@) == before + seq![head] + cases_parts(file@, tests, i as int),
        decreases f.assertion_results@.len() - i,
    {
        if reported(f.assertion_results[i].status.as_str()) {
            push_case(out, file.as_str(), &f.assertion_results[i]);
            proof {
                assert(part_views(out@) =~= before + seq![head] + cases_parts(file@, tests, i + 1));
            }
        }
        i = i + 1;
    }
    let ghost so_far = part_views(out@);
    out.push(XmlEvent::End { name: "testsuite".to_owned() });
    proof {
        assert(part_views(out@) =~= so_far.push(XmlPart::End { name: "testsuite"@ }));
        assert(part_views(out@) =~= before + suite_parts(*f, cwd@));
    }
}

proof fn totals_monotone(files: Seq<VitestJsonTestResult>, n: int, m: int)
    requires
        0 <= n <= m <= files.len(),
    ensures
        total_count(files, n) <= total_count(files, m),
        total_failures(files, n) <= total_failures(files, m),
    decreases m,
{
    if n < m {
        totals_monotone(files, n, m - 1);
    }
}

/// Turns a report into a JUnit document. Tests that did not run are left out,
/// and so are files of which none ran.
pub fn report_events(report: &VitestJsonReport, cwd: &str) -> (r: Vec<XmlEvent>)
    requires
        total_count(report.test_results@, report.test_results@.len() as int) <= u64::MAX,
        total_failures(report.test_results@, report.test_results@.len() as int) <= u64::MAX,
    ensures
        part_views(r@) == report_parts(*report, cwd@),
{
    let ghost files = report.test_results@;
    let n: usize = report.test_results.len();
    let mut cases: u64 = 0;
    let mut failures: u64 = 0;
    let mut i: usize = 0;
    while i < n
        invariant
            0 <= i <= n,
            n == report.test_results@.len(),
            files == report.test_results@,
            total_count(files, n as int) <= u64::MAX,
            total_failures(files, n as int) <= u64::MAX,
            cases == total_count(files, i as int),
            failures == total_failures(files, i as int),
        decreases n - i,
    {
        let (c, f) = count_cases(&report.test_results[i].assertion_results);
        proof {
            totals_monotone(files, i + 1, n as int);
        }
        cases = cases + c;
        failures = failures + f;
        i = i + 1;
    }
    let mut out: Vec<XmlEvent> = Vec::new();
    out.push(XmlEvent::Decl { version: "1.0".to_owned(), encoding: "UTF-8".to_owned() });
    let mut attributes: Vec<(String, String)> = Vec::new();
    proof {
        assert(pair_views(attributes@) =~= Seq::<(Seq<char>, Seq<char>)>::empty());
    }
    attribute(&mut attributes, "name", "vitest tests");
    let count = text::decimal_u64(cases);
    attribute(&mut attributes, "tests", count.as_str());
    let failed = text::decimal_u64(failures);
    attribute(&mut attributes, "failures", failed.as_str());
    attribute(&mut attributes, "errors", "0");
    attribute(&mut attributes, "time", report.time.as_str());
    let ghost head = seq![
        XmlPart::Decl { version: "1.0"@, encoding: "UTF-8"@ },
        XmlPart::Start {
            name: "testsuites"@,
            attributes: seq![
                ("name"@, "vitest tests"@),
                ("tests"@, decimal(cases as int)),
                ("failures"@, decimal(failures as int)),
                ("errors"@, "0"@),
                ("time"@, report.time@),
            ],
        },
    ];
    proof {
        assert(pair_views(attributes@) =~= seq![
            ("name"@, "vitest tests"@),
            ("tests"@, decimal(cases as int)),
            ("failures"@, decimal(failures as int)),
            ("errors"@, "0"@),
            ("time"@, report.time@),
        ]);
    }
    out.push(XmlEvent::Start { name: "testsuites".to_owned(), attributes });
    let mut k: usize = 0;
    proof {
        assert(part_views(out@) =~= head + suites_parts(files, cwd@, 0));
    }
    while k < n
        invariant
            0 <= k <= n,
            n == report.test_results@.len(),
            files == report.test_results@,
            part_views(out@) == head + suites_parts(files, cwd@, k as int),
        decreases n - k,
    {
        push_suite(&mut out, &report.test_results[k], cwd);
        proof {
            assert(part_views(out@) =~= head + suites_parts(files, cwd@, k + 1));
        }
        k = k + 1;
    }
    let ghost so_far = part_views(out@);
    out.push(XmlEvent::End { name: "testsuites".to_owned() });
    proof {
        assert(part_views(out@) =~= so_far.push(XmlPart::End { name: "testsuites"@ }));
        assert(part_views(out@) =~= report_parts(*report, cwd@));
    }
    out
}

impl VitestFramework {
    /// The command as it was split.
    pub open spec fn command_words(self) -> Seq<Seq<char>> {
        seq![self.program@] + views(self.prefix_args@)
    }

    /// Creates a new vitest framework from its configuration's command.
    pub fn new(config: VitestFrameworkConfig) -> (r: FrameworkResult<Self>)
        ensures
            match shell_words_of(config.command@) {
                None => r matches Err(FrameworkError::DiscoveryFailed(e)) && e@
                    == unparsed_command(config.command@),
                Some(words) => if words.len() == 0 {
                    r matches Err(FrameworkError::DiscoveryFailed(e)) && e@ == empty_command(
                        config.command@,
                    )
                } else {
                    r matches Ok(f) && f.config == config && f.command_words() == words
                },
            },
    {
        match split_command(config.command.as_str()) {
            Ok((program, prefix_args)) => Ok(VitestFramework { config, program, prefix_args }),
            Err(e) => Err(e),
        }
    }

    /// Turns the output of `vitest list` into records, with file paths taken
    /// relative to the working directory.
    pub fn parse_discovery_list(
        &self,
        items: &Vec<VitestListItem>,
        cwd: &str,
        group: &str,
    ) -> (r: Vec<TestRecord>)
        ensures
            record_views(r@) == Seq::new(
                items@.len(),
                |i: int| bare_record(listed_id(items@[i], cwd@), group@),
            ),
    {
        let mut out: Vec<TestRecord> = Vec::new();
        let mut i: usize = 0;
        while i < items.len()
            invariant
                0 <= i <= items@.len(),
                out@.len() == i,
                forall|k: int|
                    0 <= k < i ==> (#[trigger] out@[k])@ == bare_record(
                        listed_id(items@[k], cwd@),
                        group@,
                    ),
            decreases items@.len() - i,
        {
            let mut id = match paths::strip_prefix(items[i].file.as_str(), cwd) {
                Some(rest) => rest,
                None => items[i].file.clone(),
            };
            id.append(" > ");
            id.append(items[i].name.as_str());
            out.push(TestRecord::new(id.as_str(), group));
            i = i + 1;
        }
        proof {
            assert(record_views(out@) =~= Seq::new(
                items@.len(),
                |i: int| bare_record(listed_id(items@[i], cwd@), group@),
            ));
        }
        out
    }

    /// The command that lists the tests of a group.
    pub fn discovery_command(&self, filters: &str) -> (r: FrameworkResult<Command>)
        ensures
            if filters@.len() > 0 && shell_words_of(filters@) is None {
                r matches Err(FrameworkError::DiscoveryFailed(e)) && e@ == unparsed_args(
                    "filter string"@,
                    filters@,
                )
            } else {
                r matches Ok(cmd) && cmd.words() == self.command_words() + seq![
                    "list"@,
                    "--json"@,
                ] + (if filters@.len() == 0 {
                    Seq::empty()
                } else {
                    shell_words_of(filters@)->Some_0
                }) && cmd.env@.len() == 0 && cmd.runs_anywhere()
            },
    {
        let cmd = Command::new(self.program.as_str()).args(&self.prefix_args).arg("list").arg(
            "--json",
        );
        let ghost base = cmd.words();
        proof {
            assert(base =~= self.command_words() + seq!["list"@, "--json"@]);
        }
        if filters.is_empty() {
            proof {
                assert(base + Seq::<Seq<char>>::empty() =~= base);
            }
            return Ok(cmd);
        }
        match split_args("filter string", filters) {
            Ok(args) => Ok(cmd.args(&args)),
            Err(e) => Err(e),
        }
    }

    /// What a listing that failed is rejected for.
    pub fn listing_error(&self, status: &str, stderr: &str) -> (r: FrameworkError)
        ensures
            r matches FrameworkError::DiscoveryFailed(e) && e@ == "vitest list failed (exit "@
                + status@ + "): "@ + stderr@,
    {
        let mut e = "vitest list failed (exit ".to_owned();
        e.append(status);
        e.append("): ");
        e.append(stderr);
        FrameworkError::DiscoveryFailed(e)
    }

    /// Turns a report into JUnit XML.
    pub fn xml_from_report(&self, report: &VitestJsonReport, cwd: &str) -> (r: FrameworkResult<
        String,
    >)
        requires
            total_count(report.test_results@, report.test_results@.len() as int) <= u64::MAX,
            total_failures(report.test_results@, report.test_results@.len() as int) <= u64::MAX,
        ensures
            r matches Ok(s) && s@ == xml_text(report_parts(*report, cwd@), 2),
    {
        let events = report_events(report, cwd);
        match xml::render(&events, 2) {
            Ok(s) => Ok(s),
            Err(m) => {
                let mut e = "Failed to encode JUnit XML as UTF-8: ".to_owned();
                e.append(m.as_str());
                Err(FrameworkError::ParseError(e))
            },
        }
    }
}

impl TestFramework for VitestFramework {
    /// The command runs the files of the tests, and of those the tests whose
    /// names match, each once and in order, with a JSON report.
    fn produce_test_execution_command(
        &self,
        tests: &[TestInstance],
        result_path: &str,
        fail_fast: bool,
    ) -> (r: Command)
        ensures
            exists|files: Seq<Seq<char>>, names: Seq<Seq<char>>|
                {
                    &&& strictly_sorted(files)
                    &&& strictly_sorted(names)
                    &&& forall|f: Seq<char>| files.contains(f) <==> #[trigger] selects(tests@, f)
                    &&& forall|e: Seq<char>| names.contains(e) <==> #[trigger] names_one(tests@, e)
                    &&& r.words() == #[trigger] run_words(*self, files, names, result_path@)
                },
            r.env@.len() == 0,
            r.prepend_path@.len() == 0,
            r.working_dir is None,
            r.timeout_secs is None,
    {
        let mut selectors: Vec<String> = Vec::new();
        let mut escaped: Vec<String> = Vec::new();
        let mut i: usize = 0;
        while i < tests.len()
            invariant
                0 <= i <= tests@.len(),
                forall|f: Seq<char>|
                    views(selectors@).contains(f) <==> #[trigger] selects(tests@.take(i as int), f),
                forall|e: Seq<char>|
                    views(escaped@).contains(e) <==> #[trigger] names_one(tests@.take(i as int), e),
            decreases tests@.len() - i,
        {
            let id = tests[i].id();
            let ghost was_selectors = selectors@;
            let ghost was_escaped = escaped@;
            proof {
                reveal_strlit(" > ");
            }
            match text::split_once(id, " > ") {
                Some((file, name)) => {
                    selectors.push(file);
                    escaped.push(patterns::escape(name.as_str()));
                },
                None => {
                    selectors.push(id.to_owned());
                },
            }
            proof {
                assert(selectors@.take(was_selectors.len() as int) =~= was_selectors);
                assert(escaped@.take(was_escaped.len() as int) =~= was_escaped);
                step_selects(tests@, i as int, was_selectors, selectors@);
                step_names(tests@, i as int, was_escaped, escaped@);
            }
            i = i + 1;
        }
        proof {
            assert(tests@.take(tests@.len() as int) =~= tests@);
        }
        let files = order::sort_dedup(&selectors);
        let names = order::sort_dedup(&escaped);
        let mut cmd = Command::new(self.program.as_str()).args(&self.prefix_args).arg("run").args(
            &files,
        );
        if names.len() > 0 {
            let list = text::join(&names, "|");
            let mut pattern = "^(".to_owned();
            pattern.append(list.as_str());
            pattern.append(")$");
            cmd = cmd.arg("--testNamePattern").arg(pattern.as_str());
        }
        let mut output = "--outputFile=".to_owned();
        output.append(result_path);
        cmd = cmd.arg("--reporter=json").arg(output.as_str());
        let extra = split_optional(&self.config.run_args);
        cmd = cmd.args(&extra);
        proof {
            let f = views(files@);
            let e = views(names@);
            assert(e.len() == names@.len());
            assert(cmd.words() =~= run_words(*self, f, e, result_path@));
            assert forall|x: Seq<char>| f.contains(x) <==> #[trigger] selects(tests@, x) by {
                assert(f.contains(x) <==> views(selectors@).contains(x));
            }
            assert forall|x: Seq<char>| e.contains(x) <==> #[trigger] names_one(tests@, x) by {
                assert(e.contains(x) <==> views(escaped@).contains(x));
            }
        }
        cmd
    }

    fn report_format(&self) -> (r: String)
        ensures
            r@ == "json"@,
    {
        "json".to_owned()
    }
}

/// The words of the command that runs the given files and names.
pub open spec fn run_words(
    framework: VitestFramework,
    files: Seq<Seq<char>>,
    names: Seq<Seq<char>>,
    result_path: Seq<char>,
) -> Seq<Seq<char>> {
    framework.command_words() + seq!["run"@] + files + name_args(names) + seq![
        "--reporter=json"@,
        "--outputFile="@ + result_path,
    ] + optional_words(framework.config.run_args)
}

proof fn step_selects(
    tests: Seq<TestInstance>,
    i: int,
    before: Seq<String>,
    after: Seq<String>,
)
    requires
        0 <= i < tests.len(),
        after.len() == before.len() + 1,
        after.take(before.len() as int) == before,
        after.last()@ == file_part(tests[i].record.id@),
        forall|f: Seq<char>| views(before).contains(f) <==> #[trigger] selects(tests.take(i), f),
    ensures
        forall|f: Seq<char>| views(after).contains(f) <==> #[trigger] selects(tests.take(i + 1), f),
{
    let a = tests.take(i);
    let b = tests.take(i + 1);
    assert forall|f: Seq<char>| views(after).contains(f) <==> #[trigger] selects(b, f) by {
        if views(after).contains(f) {
            let k = choose|k: int| 0 <= k < views(after).len() && views(after)[k] == f;
            if k < before.len() {
                assert(after.take(before.len() as int)[k] == after[k]);
                assert(views(before)[k] == f);
                assert(selects(a, f));
                let m = choose|m: int|
                    0 <= m < a.len() && file_part((#[trigger] a[m]).record.id@) == f;
                assert(b[m] == a[m]);
            } else {
                assert(b[i] == tests[i]);
            }
        }
        if selects(b, f) {
            let m = choose|m: int|
                0 <= m < b.len() && file_part((#[trigger] b[m]).record.id@) == f;
            if m < i {
                assert(a[m] == b[m]);
                assert(selects(a, f));
                assert(views(before).contains(f));
                let k = choose|k: int| 0 <= k < views(before).len() && views(before)[k] == f;
                assert(after.take(before.len() as int)[k] == after[k]);
                assert(views(after)[k] == f);
            } else {
                assert(views(after)[before.len() as int] == f);
            }
        }
    }
}

proof fn step_names(tests: Seq<TestInstance>, i: int, before: Seq<String>, after: Seq<String>)
    requires
        0 <= i < tests.len(),
        find_from(tests[i].record.id@, " > "@, 0) is Some ==> after.len() == before.len() + 1
            && after.take(before.len() as int) == before && after.last()@ == regex_escaped(
            name_part(tests[i].record.id@),
        ),
        find_from(tests[i].record.id@, " > "@, 0) is None ==> after == before,
        forall|e: Seq<char>| views(before).contains(e) <==> #[trigger] names_one(tests.take(i), e),
    ensures
        forall|e: Seq<char>|
            views(after).contains(e) <==> #[trigger] names_one(tests.take(i + 1), e),
{
    let a = tests.take(i);
    let b = tests.take(i + 1);
    assert forall|e: Seq<char>| views(after).contains(e) <==> #[trigger] names_one(b, e) by {
        if views(after).contains(e) {
            let k = choose|k: int| 0 <= k < views(after).len() && views(after)[k] == e;
            if k < before.len() {
                if after.len() > before.len() {
                    assert(after.take(before.len() as int)[k] == after[k]);
                }
                assert(views(before)[k] == e);
                assert(names_one(a, e));
                let m = choose|m: int|
                    0 <= m < a.len() && find_from((#[trigger] a[m]).record.id@, " > "@, 0) is Some
                        && regex_escaped(name_part(a[m].record.id@)) == e;
                assert(b[m] == a[m]);
            } else {
                assert(b[i] == tests[i]);
            }
        }
        if names_one(b, e) {
            let m = choose|m: int|
                0 <= m < b.len() && find_from((#[trigger] b[m]).record.id@, " > "@, 0) is Some
                    && regex_escaped(name_part(b[m].record.id@)) == e;
            if m < i {
                assert(a[m] == b[m]);
                assert(names_one(a, e));
                assert(views(before).contains(e));
                let k = choose|k: int| 0 <= k < views(before).len() && views(before)[k] == e;
                if after.len() > before.len() {
                    assert(after.take(before.len() as int)[k] == after[k]);
                }
                assert(views(after)[k] == e);
            } else {
                assert(views(after)[before.len() as int] == e);
            }
        }
    }
}

/// An id is that of a test of a file: the separator stands between the file
/// and the name, and nowhere before.
pub open spec fn is_test_of(id: Seq<char>, file: Seq<char>, name: Seq<char>) -> bool {
    id == file + " > "@ + name && !occurs(file + " >"@, " > "@)
}

/// The file and the name of a test are the parts of its id around the first
/// separator.
pub proof fn id_has_its_parts(id: Seq<char>, file: Seq<char>, name: Seq<char>)
    ensures
        is_test_of(id, file, name) <==> find_from(id, " > "@, 0) is Some && file_part(id) == file
            && name_part(id) == name,
{
    reveal_strlit(" > ");
    reveal_strlit(" >");
    let sep = " > "@;
    find_from_is_least(id, sep, 0);
    let n = file.len() as int;
    let front = file + " >"@;
    if is_test_of(id, file, name) {
        assert(id.subrange(n, n + 3) =~= sep);
        assert(matches_at(id, sep, n));
        let i = find_from(id, sep, 0)->Some_0;
        if i < n {
            assert(front.subrange(i, i + 3) =~= id.subrange(i, i + 3));
            assert(matches_at(front, sep, i));
        }
        assert(id.subrange(0, n) =~= file);
        assert(id.subrange(n + 3, id.len() as int) =~= name);
    }
    if find_from(id, sep, 0) is Some && file_part(id) == file && name_part(id) == name {
        let i = find_from(id, sep, 0)->Some_0;
        assert(id.subrange(i, i + 3) == sep);
        assert(id =~= id.subrange(0, i) + id.subrange(i, i + 3) + id.subrange(
            i + 3,
            id.len() as int,
        ));
        if occurs(front, sep) {
            let k = choose|k: int| matches_at(front, sep, k);
            assert(id.subrange(k, k + 3) =~= front.subrange(k, k + 3)) by {
                assert(front =~= id.subrange(0, n + 2)) by {
                    assert(id.subrange(i, i + 3)[0] == ' ' && id.subrange(i, i + 3)[1] == '>');
                }
            }
            assert(matches_at(id, sep, k));
        }
    }
}

/// One of the tests has the name.
pub open spec fn is_named(tests: Seq<TestInstance>, name: Seq<char>) -> bool {
    exists|i: int, file: Seq<char>|
        0 <= i < tests.len() && #[trigger] is_test_of(tests[i].record.id@, file, name)
}

/// One of the tests has a name that stands so behind backslashes.
spec fn named_as(tests: Seq<TestInstance>, escaped: Seq<char>, name: Seq<char>) -> bool {
    is_named(tests, name) && regex_escaped(name) == escaped
}

proof fn named_iff_escaped(tests: Seq<TestInstance>, escaped: Seq<char>)
    ensures
        names_one(tests, escaped) <==> exists|n: Seq<char>| named_as(tests, escaped, n),
{
    if names_one(tests, escaped) {
        let i = choose|i: int|
            0 <= i < tests.len() && find_from((#[trigger] tests[i]).record.id@, " > "@, 0) is Some
                && regex_escaped(name_part(tests[i].record.id@)) == escaped;
        let id = tests[i].record.id@;
        id_has_its_parts(id, file_part(id), name_part(id));
        assert(is_test_of(tests[i].record.id@, file_part(id), name_part(id)));
        assert(named_as(tests, escaped, name_part(id)));
    }
    if exists|n: Seq<char>| named_as(tests, escaped, n) {
        let n = choose|n: Seq<char>| named_as(tests, escaped, n);
        let (i, file) = choose|i: int, file: Seq<char>|
            0 <= i < tests.len() && #[trigger] is_test_of(tests[i].record.id@, file, n);
        id_has_its_parts(tests[i].record.id@, file, n);
        assert(find_from(tests[i].record.id@, " > "@, 0) is Some);
    }
}

/// The names by which a batch is run are matched by exactly the tests of the
/// batch, whatever characters they hold and however many they are; where no
/// test has a name there is no pattern.
pub proof fn batch_is_selected_by_name(tests: Seq<TestInstance>, names: Seq<Seq<char>>)
    requires
        forall|e: Seq<char>| names.contains(e) <==> #[trigger] names_one(tests, e),
    ensures
        (exists|n: Seq<char>| is_named(tests, n)) ==> name_args(names).len() == 2 && name_args(
            names,
        )[0] == "--testNamePattern"@ && selects_names(
            name_args(names)[1],
            |n: Seq<char>| is_named(tests, n),
        ),
        !(exists|n: Seq<char>| is_named(tests, n)) ==> name_args(names).len() == 0,
{
    if exists|n: Seq<char>| is_named(tests, n) {
        let some = choose|n: Seq<char>| is_named(tests, n);
        assert(named_as(tests, regex_escaped(some), some));
        named_iff_escaped(tests, regex_escaped(some));
        assert(names.contains(regex_escaped(some)));
        let plain = Seq::new(
            names.len(),
            |k: int| choose|n: Seq<char>| named_as(tests, names[k], n),
        );
        assert forall|k: int| 0 <= k < names.len() implies named_as(
            tests,
            names[k],
            #[trigger] plain[k],
        ) by {
            assert(names.contains(names[k]));
            named_iff_escaped(tests, names[k]);
        }
        assert(all_escaped(plain) =~= names);
        let p = Pattern::Group(Box::new(one_of(plain)));
        assert forall|n: Seq<char>| #[trigger] p.denotes(n) <==> is_named(tests, n) by {
            alternatives_match_names(plain, n);
            assert(p.denotes(n) == one_of(plain).denotes(n));
            if plain.contains(n) {
                let k = choose|k: int| 0 <= k < plain.len() && plain[k] == n;
                assert(named_as(tests, names[k], plain[k]));
            }
            if is_named(tests, n) {
                assert(named_as(tests, regex_escaped(n), n));
                named_iff_escaped(tests, regex_escaped(n));
                assert(names.contains(regex_escaped(n)));
                let k = choose|k: int| 0 <= k < names.len() && names[k] == regex_escaped(n);
                assert(named_as(tests, names[k], plain[k]));
                escape_keeps_apart(n, plain[k]);
                assert(plain[k] == n);
            }
        }
        alternatives_match_names(plain, some);
        reveal_strlit("^(");
        reveal_strlit(")$");
        reveal_strlit("^");
        reveal_strlit("$");
        reveal_strlit("(");
        reveal_strlit(")");
        let inner = joined(names, "|"@);
        assert(p.text() == "("@ + inner + ")"@);
        assert("^"@ + p.text() + "$"@ =~= "^("@ + inner + ")$"@);
        let named = |n: Seq<char>| is_named(tests, n);
        assert(forall|n: Seq<char>| #[trigger] p.denotes(n) <==> named(n));
        assert(selects_names(name_args(names)[1], named));
    } else if names.len() > 0 {
        assert(names.contains(names[0]));
        named_iff_escaped(tests, names[0]);
        let n = choose|n: Seq<char>| named_as(tests, names[0], n);
        assert(is_named(tests, n));
    }
}

/// Every test has its file among the selected ones, and no other file is.
pub proof fn batch_files_are_selected(tests: Seq<TestInstance>, i: int, file: Seq<char>, name: Seq<char>)
    requires
        0 <= i < tests.len(),
        is_test_of(tests[i].record.id@, file, name),
    ensures
        selects(tests, file),
        forall|f: Seq<char>| #[trigger]
            selects(tests, f) ==> exists|j: int|
                0 <= j < tests.len() && ((#[trigger] tests[j]).record.id@ == f || exists|n: Seq<char>|
                    is_test_of(tests[j].record.id@, f, n)),
{
    id_has_its_parts(tests[i].record.id@, file, name);
    assert(file_part(tests[i].record.id@) == file);
    assert forall|f: Seq<char>| #[trigger] selects(tests, f) implies exists|j: int|
        0 <= j < tests.len() && ((#[trigger] tests[j]).record.id@ == f || exists|n: Seq<char>|
            is_test_of(tests[j].record.id@, f, n)) by {
        let j = choose|j: int|
            0 <= j < tests.len() && file_part((#[trigger] tests[j]).record.id@) == f;
        let id = tests[j].record.id@;
        id_has_its_parts(id, f, name_part(id));
        if find_from(id, " > "@, 0) is Some {
            assert(is_test_of(id, f, name_part(id)));
        }
    }
}

/// The command runs the files in their order, then by name, and reports to
/// the given place.
pub proof fn run_words_stand(
    framework: VitestFramework,
    files: Seq<Seq<char>>,
    names: Seq<Seq<char>>,
    result_path: Seq<char>,
)
    ensures
        ({
            let words = run_words(framework, files, names, result_path);
            let n = framework.command_words().len() as int;
            let m = n + 1 + files.len();
            let k = m + name_args(names).len();
            &&& words.take(n) == framework.command_words()
            &&& words[n] == "run"@
            &&& words.subrange(n + 1, m) == files
            &&& words.subrange(m, k) == name_args(names)
            &&& words.subrange(k, k + 2) == seq!["--reporter=json"@, "--outputFile="@ + result_path]
            &&& words.skip(k + 2) == optional_words(framework.config.run_args)
        }),
{
    let words = run_words(framework, files, names, result_path);
    let n = framework.command_words().len() as int;
    let m = n + 1 + files.len();
    let k = m + name_args(names).len();
    assert(words.take(n) =~= framework.command_words());
    assert(words.subrange(n + 1, m) =~= files);
    assert(words.subrange(m, k) =~= name_args(names));
    assert(words.subrange(k, k + 2) =~= seq!["--reporter=json"@, "--outputFile="@ + result_path]);
    assert(words.skip(k + 2) =~= optional_words(framework.config.run_args));
}

/// Two tests share a name exactly where the parts of their ids behind the
/// first separator are the same; a batch with such tests is refused.
pub proof fn shared_name_repeats(
    tests: Seq<TestRecord>,
    i: int,
    j: int,
    files: (Seq<char>, Seq<char>),
    name: Seq<char>,
)
    requires
        0 <= i < j < tests.len(),
        is_test_of(tests[i].id@, files.0, name),
        is_test_of(tests[j].id@, files.1, name),
    ensures
        repeats(name_parts(tests), name),
{
    id_has_its_parts(tests[i].id@, files.0, name);
    id_has_its_parts(tests[j].id@, files.1, name);
    assert(name_parts(tests)[i] == name);
    assert(name_parts(tests)[j] == name);
}

/// The suite of a file counts its tests: those that ran, and of these those
/// that failed.
pub proof fn suite_counts_tests(tests: Seq<VitestJsonAssertionResult>, n: int)
    requires
        0 <= n <= tests.len(),
    ensures
        case_count(tests, n) == tests.take(n).filter(
            |t: VitestJsonAssertionResult| is_reported(t.status@),
        ).len(),
        failure_count(tests, n) == tests.take(n).filter(
            |t: VitestJsonAssertionResult| t.status@ == "failed"@,
        ).len(),
        failure_count(tests, n) <= case_count(tests, n),
    decreases n,
{
    reveal(Seq::filter);
    if n > 0 {
        suite_counts_tests(tests, n - 1);
        assert(tests.take(n).drop_last() =~= tests.take(n - 1));
        assert(tests.take(n).last() == tests[n - 1]);
        reveal_strlit("failed");
        reveal_strlit("pending");
        reveal_strlit("todo");
        reveal_strlit("skipped");
        assert("failed"@[0] == 'f' && "pending"@[0] == 'p' && "todo"@[0] == 't' && "skipped"@[0]
            == 's');
    }
}

/// A test that is waiting, to be written or skipped has no result; every
/// other has.
pub proof fn only_tests_that_ran_count(status: Seq<char>)
    ensures
        is_reported(status) <==> status != "pending"@ && status != "todo"@ && status != "skipped"@,
{
}

} // verus!
