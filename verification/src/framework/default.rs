//! The default framework: custom shell commands for discovery and execution.

use vstd::prelude::*;

use crate::config::{
    format_test_id, formats_class_and_name, formatted_id, DefaultFrameworkConfig,
};
use crate::framework::{
    bare_record, instance_ids, record_views, FrameworkError, FrameworkResult, RecordModel,
    TestFramework, TestInstance, TestRecord,
};
use crate::patterns;
use crate::patterns::{group_views, match_view, regex_captures, regex_error};
use crate::provider::Command;
use crate::report::{apply_ids, resolved_up_to, TestcaseXml};
use crate::shell;
use crate::shell::{quoted_words, shell_words_of};
use crate::text;
use crate::text::{
    counting, is_entry, joined, lines_of, listed_entries_count, listing, matches_at, occurs, replaced,
    views,
};

verus! {

/// Test framework using custom shell commands. Suitable for any test
/// framework.
#[derive(Debug)]
pub struct DefaultFramework {
    /// The configuration.
    pub config: DefaultFrameworkConfig,
}

/// The affinity key that a match gives: its first group, or the whole match
/// where that group is not part of it.
pub open spec fn match_key(groups: Option<Seq<Option<Seq<char>>>>) -> Option<Seq<char>> {
    match groups {
        None => None,
        Some(g) => if g.len() > 1 && g[1] is Some {
            g[1]
        } else if g.len() > 0 {
            g[0]
        } else {
            None
        },
    }
}

/// The record of a discovered test, with the affinity key of its match.
pub open spec fn discovered(
    id: Seq<char>,
    group: Seq<char>,
    groups: Option<Seq<Option<Seq<char>>>>,
) -> RecordModel {
    RecordModel { affinity_key: match_key(groups), ..bare_record(id, group) }
}

/// The match of an optional pattern in a text.
pub open spec fn optional_match(pattern: Option<Seq<char>>, text: Seq<char>) -> Option<
    Seq<Option<Seq<char>>>,
> {
    match pattern {
        Some(p) => regex_captures(p, text),
        None => None,
    }
}

/// The record of a discovered test whose affinity key is derived from a
/// match in its id.
pub fn discovered_record(id: &str, group: &str, found: &Option<Vec<Option<String>>>) -> (r:
    TestRecord)
    ensures
        r@ == discovered(id@, group@, match_view(*found)),
{
    let record = TestRecord::new(id, group);
    match found {
        None => record,
        Some(groups) => {
            if groups.len() > 1 {
                assert(group_views(groups@)[1] == crate::discovery::option_view(groups@[1]));
                match &groups[1] {
                    Some(key) => {
                        return record.with_affinity_key(key.as_str());
                    },
                    None => {},
                }
            }
            if groups.len() > 0 {
                assert(group_views(groups@)[0] == crate::discovery::option_view(groups@[0]));
                match &groups[0] {
                    Some(key) => record.with_affinity_key(key.as_str()),
                    None => record,
                }
            } else {
                record
            }
        },
    }
}

/// The id under which a reported case was run: its formatted id where that is
/// one of the batch, else the one found by other means.
pub open spec fn case_id(
    format: Seq<char>,
    case: TestcaseXml,
    batch: Seq<Seq<char>>,
    matched: Result<String, String>,
    id: Result<String, String>,
) -> bool {
    let canonical = canonical_id(format, case);
    if batch.contains(canonical) {
        id matches Ok(s) && s@ == canonical
    } else {
        id == matched
    }
}

/// The formatted id of a reported case.
pub open spec fn canonical_id(format: Seq<char>, case: TestcaseXml) -> Seq<char> {
    formatted_id(
        format,
        case.name@,
        match case.classname {
            Some(c) => c@,
            None => Seq::empty(),
        },
    )
}

fn canonical_of(format: &str, case: &TestcaseXml) -> (r: String)
    ensures
        r@ == canonical_id(format@, *case),
{
    match &case.classname {
        Some(c) => format_test_id(format, case.name.as_str(), Some(c.as_str())),
        None => format_test_id(format, case.name.as_str(), None),
    }
}

fn contains_text(list: &Vec<String>, s: &str) -> (b: bool)
    ensures
        b == views(list@).contains(s@),
{
    let mut i: usize = 0;
    while i < list.len()
        invariant
            0 <= i <= list@.len(),
            forall|k: int| 0 <= k < i ==> #[trigger] views(list@)[k] != s@,
        decreases list@.len() - i,
    {
        assert(views(list@)[i as int] == list@[i as int]@);
        if text::same(list[i].as_str(), s) {
            return true;
        }
        i = i + 1;
    }
    false
}

/// What is said of a reported case that belongs to no test of the batch.
pub open spec fn unresolved_case(
    name: Seq<char>,
    format: Seq<char>,
    canonical: Seq<char>,
    reason: Seq<char>,
) -> Seq<char> {
    "JUnit testcase '"@ + name + "' (format '"@ + format + "' produced '"@ + canonical
        + "') not resolved: "@ + reason
}

/// The tests that a discovery command prints, each on a line of its own, are
/// discovered, all of them and in order, in front of those of what follows.
pub proof fn printed_tests_are_discovered(ids: Seq<Seq<char>>, rest: Seq<char>)
    requires
        forall|k: int| 0 <= k < ids.len() ==> is_entry(#[trigger] ids[k]),
    ensures
        counting(lines_of(listing(ids) + rest)) == ids + counting(lines_of(rest)),
        counting(lines_of(listing(ids))) == ids,
{
    listed_entries_count(ids, rest);
}

/// A run command has the tests and the place of the results where it asks for
/// them, and stays as it is around these places. What stands there holds no
/// brace.
pub proof fn run_line_names_tests(
    framework: DefaultFramework,
    a: Seq<char>,
    b: Seq<char>,
    c: Seq<char>,
    ids: Seq<Seq<char>>,
    result_path: Seq<char>,
)
    requires
        framework.config.run_command@ == a + "{tests}"@ + b + "{result_file}"@ + c,
        !a.contains('{'),
        !b.contains('{'),
        !c.contains('{'),
        !joined(quoted_words(ids), " "@).contains('{'),
    ensures
        framework.run_line(ids, result_path) == a + joined(quoted_words(ids), " "@) + b
            + result_path + c,
{
    reveal_strlit("{tests}");
    reveal_strlit("{result_file}");
    let (t, f) = ("{tests}"@, "{result_file}"@);
    let list = joined(quoted_words(ids), " "@);
    let rest = b + f + c;
    let command = a + t + rest;
    assert(command =~= a + t + b + f + c);
    assert forall|i: int| 0 <= i < a.len() implies !matches_at(command, t, i) by {
        assert(a.contains(a[i]));
        if matches_at(command, t, i) {
            assert(command.subrange(i, i + t.len())[0] == command[i]);
        }
    }
    text::replaced_at_first(a, t, rest, list);
    if occurs(rest, t) {
        let i = choose|i: int| matches_at(rest, t, i);
        assert(rest.subrange(i, i + t.len())[0] == rest[i]);
        assert(rest.subrange(i, i + t.len())[1] == rest[i + 1]);
        if i < b.len() {
            assert(b.contains(b[i]));
        } else if i < b.len() + f.len() {
            assert(rest[i] == f[i - b.len()]);
        } else {
            assert(c.contains(c[i - b.len() - f.len()]));
        }
    }
    text::replaced_without_occurrence(rest, t, list);
    let front = a + list + b;
    let named = front + f + c;
    assert(a + list + rest =~= named);
    assert forall|i: int| 0 <= i < front.len() implies !matches_at(named, f, i) by {
        if matches_at(named, f, i) {
            assert(named.subrange(i, i + f.len())[0] == named[i]);
            if i < a.len() {
                assert(a.contains(a[i]));
            } else if i < a.len() + list.len() {
                assert(list.contains(list[i - a.len()]));
            } else {
                assert(b.contains(b[i - a.len() - list.len()]));
            }
        }
    }
    text::replaced_at_first(front, f, c, result_path);
    if occurs(c, f) {
        let i = choose|i: int| matches_at(c, f, i);
        assert(c.subrange(i, i + f.len())[0] == c[i]);
        assert(c.contains(c[i]));
    }
    text::replaced_without_occurrence(c, f, result_path);
    assert(front + result_path + c =~= a + list + b + result_path + c);
}

impl DefaultFramework {
    /// Creates a new default framework with the given configuration.
    pub fn new(config: DefaultFrameworkConfig) -> (r: Self)
        ensures
            r.config == config,
    {
        DefaultFramework { config }
    }

    /// Turns the output of the discovery command into records: one test ID per
    /// line, without blank lines and comments. Where a pattern is given, each
    /// test's affinity key is derived from its ID.
    pub fn parse_discover_output(
        &self,
        output: &str,
        group: &str,
        affinity_regex: Option<&str>,
    ) -> (r: Vec<TestRecord>)
        ensures
            ({
                let ids = counting(lines_of(output@));
                let pattern = match affinity_regex {
                    Some(p) => Some(p@),
                    None => None,
                };
                record_views(r@) == Seq::new(
                    ids.len(),
                    |i: int| discovered(ids[i], group@, optional_match(pattern, ids[i])),
                )
            }),
    {
        let ids = text::significant_lines(output);
        let ghost pattern = match affinity_regex {
            Some(p) => Some(p@),
            None => None,
        };
        let mut out: Vec<TestRecord> = Vec::new();
        let mut i: usize = 0;
        while i < ids.len()
            invariant
                0 <= i <= ids@.len(),
                pattern == (match affinity_regex {
                    Some(p) => Some(p@),
                    None => None,
                }),
                out@.len() == i,
                forall|k: int|
                    0 <= k < i ==> (#[trigger] out@[k])@ == discovered(
                        ids@[k]@,
                        group@,
                        optional_match(pattern, ids@[k]@),
                    ),
            decreases ids@.len() - i,
        {
            let found = match affinity_regex {
                Some(p) => patterns::captures(p, ids[i].as_str()),
                None => None,
            };
            out.push(discovered_record(ids[i].as_str(), group, &found));
            i = i + 1;
        }
        proof {
            assert(views(ids@).len() == ids@.len());
            assert(record_views(out@) =~= Seq::new(
                views(ids@).len(),
                |i: int|
                    discovered(views(ids@)[i], group@, optional_match(pattern, views(ids@)[i])),
            ));
        }
        out
    }

    /// The configured pattern for affinity keys, if any. A pattern that is not
    /// valid is an error that names the offending field.
    pub fn compile_affinity_regex(&self) -> (r: FrameworkResult<Option<String>>)
        ensures
            match self.config.affinity_key_regex {
                None => r == Ok::<Option<String>, FrameworkError>(None),
                Some(p) => match regex_error(p@) {
                    None => r matches Ok(Some(q)) && q@ == p@,
                    Some(m) => r matches Err(FrameworkError::DiscoveryFailed(e)) && e@
                        == "invalid affinity_key_regex '"@ + p@ + "': "@ + m,
                },
            },
    {
        match &self.config.affinity_key_regex {
            None => Ok(None),
            Some(p) => match patterns::check(p.as_str()) {
                None => Ok(Some(p.clone())),
                Some(m) => {
                    let mut e = "invalid affinity_key_regex '".to_owned();
                    e.append(p.as_str());
                    e.append("': ");
                    e.append(m.as_str());
                    Err(FrameworkError::DiscoveryFailed(e))
                },
            },
        }
    }

    /// The run command for the given tests.
    pub open spec fn run_line(self, ids: Seq<Seq<char>>, result_path: Seq<char>) -> Seq<char> {
        replaced(
            replaced(self.config.run_command@, "{tests}"@, joined(quoted_words(ids), " "@)),
            "{result_file}"@,
            result_path,
        )
    }

    /// Substitutes the placeholders for tests and result file in the run
    /// command. Test IDs are quoted for the shell.
    pub fn substitute_command(&self, tests: &[TestInstance], result_path: &str) -> (r: String)
        ensures
            r@ == self.run_line(instance_ids(tests@), result_path@),
            tests@.len() > 0 ==> shell_words_of(
                joined(quoted_words(instance_ids(tests@)), " "@),
            ) == Some(instance_ids(tests@)),
    {
        let mut ids: Vec<String> = Vec::new();
        let mut i: usize = 0;
        while i < tests.len()
            invariant
                0 <= i <= tests@.len(),
                ids@.len() == i,
                forall|k: int| 0 <= k < i ==> (#[trigger] ids@[k])@ == tests@[k].record.id@,
            decreases tests@.len() - i,
        {
            ids.push(tests[i].id().to_owned());
            i = i + 1;
        }
        proof {
            reveal_strlit("{tests}");
            reveal_strlit("{result_file}");
            assert(views(ids@) =~= instance_ids(tests@));
        }
        let list = shell::quote_join(&ids);
        let named = text::replace(self.config.run_command.as_str(), "{tests}", list.as_str());
        text::replace(named.as_str(), "{result_file}", result_path)
    }

    /// The directory in which commands run.
    pub open spec fn runs_in(self, cmd: Command) -> bool {
        match self.config.working_dir {
            Some(dir) => cmd.working_dir matches Some(d) && d@ == dir@,
            None => cmd.working_dir is None,
        }
    }

    fn shell_command(&self, line: &str) -> (r: Command)
        ensures
            r.words() == seq!["sh"@, "-c"@, line@],
            self.runs_in(r),
            r.env@.len() == 0,
            r.prepend_path@.len() == 0,
            r.timeout_secs is None,
    {
        let cmd = Command::new("sh").arg("-c").arg(line);
        proof {
            assert(cmd.words() =~= seq!["sh"@, "-c"@, line@]);
        }
        match &self.config.working_dir {
            Some(dir) => cmd.working_dir(dir.as_str()),
            None => cmd,
        }
    }

    /// The discovery command of a group with the given filters.
    pub fn discovery_command(&self, filters: &str) -> (r: Command)
        ensures
            r.words() == seq![
                "sh"@,
                "-c"@,
                replaced(self.config.discover_command@, "{filters}"@, filters@),
            ],
            self.runs_in(r),
            r.env@.len() == 0,
            r.prepend_path@.len() == 0,
            r.timeout_secs is None,
    {
        proof {
            reveal_strlit("{filters}");
        }
        let line = text::replace(self.config.discover_command.as_str(), "{filters}", filters);
        self.shell_command(line.as_str())
    }

    /// What a discovery command that failed is rejected for.
    pub fn discovery_error(&self, filters: &str, status: &str, detail: &str) -> (r: FrameworkError)
        ensures
            r matches FrameworkError::DiscoveryFailed(e) && e@ == "discover_command failed ("@
                + status@ + "):\n  command: sh -c '"@ + replaced(
                self.config.discover_command@,
                "{filters}"@,
                filters@,
            ) + "'\n  "@ + detail@,
    {
        proof {
            reveal_strlit("{filters}");
        }
        let line = text::replace(self.config.discover_command.as_str(), "{filters}", filters);
        let mut e = "discover_command failed (".to_owned();
        e.append(status);
        e.append("):\n  command: sh -c '");
        e.append(line.as_str());
        e.append("'\n  ");
        e.append(detail);
        FrameworkError::DiscoveryFailed(e)
    }

    /// Gives reported cases the ids under which they were run: the formatted
    /// id where the batch has it, else the one in `matched`. The first case
    /// with neither is an error; those before it are resolved, the others are
    /// left as they are.
    pub fn resolve_test_ids(
        &self,
        testcases: &mut Vec<TestcaseXml>,
        batch_test_ids: &Vec<String>,
        matched: &Vec<Result<String, String>>,
    ) -> (r: FrameworkResult<()>)
        requires
            matched@.len() == old(testcases)@.len(),
        ensures
            exists|ids: Seq<Result<String, String>>, n: int|
                {
                    &&& ids.len() == matched@.len()
                    &&& forall|i: int|
                        0 <= i < ids.len() ==> case_id(
                            self.config.test_id_format@,
                            old(testcases)@[i],
                            views(batch_test_ids@),
                            matched@[i],
                            #[trigger] ids[i],
                        )
                    &&& 0 <= n <= ids.len()
                    &&& #[trigger] resolved_up_to(final(testcases)@, old(testcases)@, ids, n)
                    &&& match r {
                        Ok(_) => n == ids.len(),
                        Err(e) => n < ids.len() && (ids[n] matches Err(m) && e matches FrameworkError::Other(
                            t,
                        ) && t@ == unresolved_case(
                            old(testcases)@[n].name@,
                            self.config.test_id_format@,
                            canonical_id(self.config.test_id_format@, old(testcases)@[n]),
                            m@,
                        )),
                    }
                },
    {
        let ghost before = testcases@;
        let format = self.config.test_id_format.as_str();
        let mut ids: Vec<Result<String, String>> = Vec::new();
        let mut i: usize = 0;
        while i < matched.len()
            invariant
                0 <= i <= matched@.len(),
                matched@.len() == testcases@.len(),
                testcases@ == before,
                ids@.len() == i,
                forall|k: int|
                    0 <= k < i ==> case_id(
                        format@,
                        before[k],
                        views(batch_test_ids@),
                        matched@[k],
                        #[trigger] ids@[k],
                    ),
            decreases matched@.len() - i,
        {
            let canonical = canonical_of(format, &testcases[i]);
            if contains_text(batch_test_ids, canonical.as_str()) {
                ids.push(Ok(canonical));
            } else {
                match &matched[i] {
                    Ok(id) => {
                        ids.push(Ok(id.clone()));
                    },
                    Err(m) => {
                        ids.push(Err(m.clone()));
                    },
                }
            }
            i = i + 1;
        }
        match apply_ids(testcases, &ids) {
            Ok(_) => {
                proof {
                    assert(resolved_up_to(testcases@, before, ids@, ids@.len() as int));
                }
                Ok(())
            },
            Err(k) => {
                let canonical = canonical_of(format, &testcases[k]);
                let mut e = "JUnit testcase '".to_owned();
                e.append(testcases[k].name.as_str());
                e.append("' (format '");
                e.append(format);
                e.append("' produced '");
                e.append(canonical.as_str());
                e.append("') not resolved: ");
                match &ids[k] {
                    Err(m) => {
                        e.append(m.as_str());
                    },
                    Ok(_) => {},
                }
                proof {
                    assert(resolved_up_to(testcases@, before, ids@, k as int));
                    assert(testcases@[k as int] == before[k as int]);
                }
                Err(FrameworkError::Other(e))
            },
        }
    }
}

impl TestFramework for DefaultFramework {
    /// The run command for the given tests, through the shell.
    fn produce_test_execution_command(
        &self,
        tests: &[TestInstance],
        result_path: &str,
        fail_fast: bool,
    ) -> (r: Command)
        ensures
            r.words() == seq!["sh"@, "-c"@, self.run_line(instance_ids(tests@), result_path@)],
            self.runs_in(r),
            r.env@.len() == 0,
            r.prepend_path@.len() == 0,
            r.timeout_secs is None,
    {
        let line = self.substitute_command(tests, result_path);
        self.shell_command(line.as_str())
    }
}

/// The affinity key of a test is what the pattern captures in its id, or the
/// whole match where it captures nothing; without a match there is none. The
/// record else has the id and the group alone.
pub proof fn affinity_key_is_captured(
    id: Seq<char>,
    group: Seq<char>,
    whole: Seq<char>,
    captured: Seq<char>,
    more: Seq<Option<Seq<char>>>,
)
    ensures
        discovered(id, group, None).affinity_key is None,
        discovered(id, group, Some(seq![Some(whole)])).affinity_key == Some(whole),
        discovered(id, group, Some(seq![Some(whole), None] + more)).affinity_key == Some(whole),
        discovered(id, group, Some(seq![Some(whole), Some(captured)] + more)).affinity_key == Some(
            captured,
        ),
        forall|groups: Option<Seq<Option<Seq<char>>>>|
            {
                let r = #[trigger] discovered(id, group, groups);
                r.id == id && r.group == group && r.retry_count == 0 && !r.schedule_individual
                    && r.file is None
            },
{
}

/// A reported case whose class and name give the id of a test of the batch is
/// the case of that test, whatever else it could be matched with.
pub proof fn formatted_case_finds_its_test(
    a: Seq<char>,
    b: Seq<char>,
    c: Seq<char>,
    case: TestcaseXml,
    batch: Seq<Seq<char>>,
    matched: Result<String, String>,
    id: Result<String, String>,
)
    requires
        !a.contains('{'),
        !b.contains('{'),
        !c.contains('{'),
        !case.name@.contains('{'),
        case.classname is Some,
        case_id(a + "{classname}"@ + b + "{name}"@ + c, case, batch, matched, id),
    ensures
        batch.contains(a + case.classname->Some_0@ + b + case.name@ + c) ==> (id matches Ok(s) && s@
            == a + case.classname->Some_0@ + b + case.name@ + c),
        !batch.contains(a + case.classname->Some_0@ + b + case.name@ + c) ==> id == matched,
{
    formats_class_and_name(a, b, c, case.name@, case.classname->Some_0@);
}

} // verus!
