//! The cargo framework: `cargo nextest list` for discovery, `cargo nextest
//! run` with a JUnit report for execution.

use vstd::prelude::*;

use crate::config::{formats_class_and_name, formatted_id, CargoFrameworkConfig};
use crate::framework::nextest_filter::{
    can_stand, id_names, ids_name, selects_batch, Filter,
};
use crate::framework::pytest::{split_args, unparsed_args};
use crate::framework::{
    bare_record, instance_ids, record_views, FrameworkError, FrameworkResult, RecordModel,
    TestFramework, TestInstance, TestRecord,
};
use crate::provider::Command;
use crate::shell;
use crate::shell::{quoted_words, shell_words_of};
use crate::text;
use crate::text::{
    find_from, find_from_is_least, joined, matches_at, pieces, pieces_undo_join, views,
};

verus! {

/// Test framework for Rust projects using `cargo nextest`. Test ids have the
/// form `{binary} {test path}`.
#[derive(Debug)]
pub struct CargoFramework {
    /// The configuration.
    pub config: CargoFrameworkConfig,
}

/// A test in the listing of nextest.
#[derive(Debug)]
pub struct NextestTestcase {
    /// The name.
    pub name: String,
    /// Whether the filters match, where filters were applied.
    pub filter_status: Option<String>,
}

/// A test binary in the listing of nextest.
#[derive(Debug)]
pub struct NextestSuite {
    /// The id of the binary.
    pub binary_id: String,
    /// Its tests.
    pub testcases: Vec<NextestTestcase>,
}

/// A test is listed where no filter was applied or the filters match.
pub open spec fn is_listed(case: NextestTestcase) -> bool {
    match case.filter_status {
        Some(s) => s@ == "matches"@,
        None => true,
    }
}

/// The records of the first `n` tests of a suite that are listed.
pub open spec fn suite_records(suite: NextestSuite, group: Seq<char>, n: int) -> Seq<RecordModel>
    decreases n,
{
    if n <= 0 || n > suite.testcases@.len() {
        Seq::empty()
    } else {
        let case = suite.testcases@[n - 1];
        let rest = suite_records(suite, group, n - 1);
        if is_listed(case) {
            rest.push(bare_record(suite.binary_id@ + " "@ + case.name@, group))
        } else {
            rest
        }
    }
}

/// The records of the first `n` suites.
pub open spec fn listing_records(suites: Seq<NextestSuite>, group: Seq<char>, n: int) -> Seq<
    RecordModel,
>
    decreases n,
{
    if n <= 0 || n > suites.len() {
        Seq::empty()
    } else {
        listing_records(suites, group, n - 1) + suite_records(
            suites[n - 1],
            group,
            suites[n - 1].testcases@.len() as int,
        )
    }
}

proof fn suite_lists(suite: NextestSuite, group: Seq<char>, n: int, id: Seq<char>)
    requires
        0 <= n <= suite.testcases@.len(),
    ensures
        (exists|k: int|
            0 <= k < suite_records(suite, group, n).len() && (#[trigger] suite_records(
                suite,
                group,
                n,
            )[k]).id == id) <==> exists|j: int|
            0 <= j < n && is_listed(#[trigger] suite.testcases@[j]) && id == suite.binary_id@ + " "@
                + suite.testcases@[j].name@,
        forall|k: int|
            0 <= k < suite_records(suite, group, n).len() ==> (#[trigger] suite_records(
                suite,
                group,
                n,
            )[k]).group == group,
    decreases n,
{
    if n > 0 {
        suite_lists(suite, group, n - 1, id);
        let rest = suite_records(suite, group, n - 1);
        let all = suite_records(suite, group, n);
        let case = suite.testcases@[n - 1];
        if exists|k: int| 0 <= k < rest.len() && (#[trigger] rest[k]).id == id {
            let k = choose|k: int| 0 <= k < rest.len() && (#[trigger] rest[k]).id == id;
            assert(all[k].id == id);
        }
        if is_listed(case) && id == suite.binary_id@ + " "@ + case.name@ {
            assert(all[rest.len() as int].id == id);
        }
        if exists|k: int| 0 <= k < all.len() && (#[trigger] all[k]).id == id {
            let k = choose|k: int| 0 <= k < all.len() && (#[trigger] all[k]).id == id;
            if k < rest.len() {
                assert(rest[k].id == id);
            } else {
                assert(is_listed(suite.testcases@[n - 1]));
            }
        }
        assert forall|k: int| 0 <= k < all.len() implies (#[trigger] all[k]).group == group by {
            if k < rest.len() {
                assert(all[k] == rest[k]);
            }
        }
    }
}

/// A listing gives the records of its tests and of no others: those without a
/// filter result and those that match, each by its binary and its name.
pub proof fn listing_is_complete(
    suites: Seq<NextestSuite>,
    group: Seq<char>,
    n: int,
    id: Seq<char>,
)
    requires
        0 <= n <= suites.len(),
    ensures
        (exists|k: int|
            0 <= k < listing_records(suites, group, n).len() && (#[trigger] listing_records(
                suites,
                group,
                n,
            )[k]).id == id) <==> exists|i: int, j: int|
            0 <= i < n && 0 <= j < suites[i].testcases@.len() && (
            suites[i].testcases@[j].filter_status is None || suites[i].testcases@[j].filter_status->Some_0@
                == "matches"@) && id == suites[i].binary_id@ + " "@ + (
            #[trigger] suites[i].testcases@[j]).name@,
        forall|k: int|
            0 <= k < listing_records(suites, group, n).len() ==> (#[trigger] listing_records(
                suites,
                group,
                n,
            )[k]).group == group,
    decreases n,
{
    if n > 0 {
        listing_is_complete(suites, group, n - 1, id);
        let suite = suites[n - 1];
        let m = suite.testcases@.len() as int;
        suite_lists(suite, group, m, id);
        let rest = listing_records(suites, group, n - 1);
        let own = suite_records(suite, group, m);
        let all = listing_records(suites, group, n);
        if exists|k: int| 0 <= k < rest.len() && (#[trigger] rest[k]).id == id {
            let k = choose|k: int| 0 <= k < rest.len() && (#[trigger] rest[k]).id == id;
            assert(all[k].id == id);
        }
        if exists|k: int| 0 <= k < own.len() && (#[trigger] own[k]).id == id {
            let k = choose|k: int| 0 <= k < own.len() && (#[trigger] own[k]).id == id;
            assert(all[rest.len() + k].id == id);
            let j = choose|j: int|
                0 <= j < m && is_listed(#[trigger] suite.testcases@[j]) && id == suite.binary_id@
                    + " "@ + suite.testcases@[j].name@;
            assert(id == suites[n - 1].binary_id@ + " "@ + suites[n - 1].testcases@[j].name@);
        }
        if exists|k: int| 0 <= k < all.len() && (#[trigger] all[k]).id == id {
            let k = choose|k: int| 0 <= k < all.len() && (#[trigger] all[k]).id == id;
            if k < rest.len() {
                assert(rest[k].id == id);
            } else {
                assert(own[k - rest.len()].id == id);
            }
        }
        if exists|i: int, j: int|
            0 <= i < n && 0 <= j < suites[i].testcases@.len() && (
            suites[i].testcases@[j].filter_status is None || suites[i].testcases@[j].filter_status->Some_0@
                == "matches"@) && id == suites[i].binary_id@ + " "@ + (
            #[trigger] suites[i].testcases@[j]).name@ {
            let (i, j) = choose|i: int, j: int|
                0 <= i < n && 0 <= j < suites[i].testcases@.len() && (
                suites[i].testcases@[j].filter_status is None
                    || suites[i].testcases@[j].filter_status->Some_0@ == "matches"@) && id
                    == suites[i].binary_id@ + " "@ + (#[trigger] suites[i].testcases@[j]).name@;
            if i == n - 1 {
                assert(is_listed(suite.testcases@[j]));
            } else {
                assert(id == suites[i].binary_id@ + " "@ + suites[i].testcases@[j].name@);
            }
        }
        assert forall|k: int| 0 <= k < all.len() implies (#[trigger] all[k]).group == group by {
            if k < rest.len() {
                assert(all[k] == rest[k]);
            } else {
                assert(all[k] == own[k - rest.len()]);
            }
        }
    }
}

/// A listed test is the one that its id names to nextest, and under the
/// format that cargo tests start with it is reported by the same id.
pub proof fn results_fit_listed_tests(binary: Seq<char>, path: Seq<char>)
    requires
        !path.contains('{'),
    ensures
        id_names(binary + " "@ + path, binary, path),
        formatted_id("{classname} {name}"@, path, binary) == binary + " "@ + path,
{
    reveal_strlit(" ");
    reveal_strlit("{classname} {name}");
    reveal_strlit("{classname}");
    reveal_strlit("{name}");
    assert(" "@ =~= seq![' ']);
    let none = Seq::<char>::empty();
    formats_class_and_name(none, " "@, none, path, binary);
    assert("{classname} {name}"@ =~= none + "{classname}"@ + " "@ + "{name}"@ + none);
    assert(none + binary + " "@ + path + none =~= binary + " "@ + path);
}

/// The filter expression that selects a test: by binary and path where the id
/// has both, else by path alone.
pub open spec fn selection(id: Seq<char>) -> Seq<char> {
    match find_from(id, " "@, 0) {
        Some(i) => "(binary(="@ + id.subrange(0, i) + ") & test(="@ + id.subrange(
            i + 1,
            id.len() as int,
        ) + "))"@,
        None => "test(="@ + id + ")"@,
    }
}

/// The filter expressions of a sequence of ids.
pub open spec fn selections(ids: Seq<Seq<char>>) -> Seq<Seq<char>> {
    Seq::new(ids.len(), |i: int| selection(ids[i]))
}

proof fn selection_text(x: Seq<char>, y: Seq<char>)
    ensures
        "("@ + ("binary(="@ + x + ")"@ + " & "@ + ("test(="@ + y + ")"@)) + ")"@ == "(binary(="@ + x
            + ") & test(="@ + y + "))"@,
{
    reveal_strlit("(binary(=");
    reveal_strlit(") & test(=");
    reveal_strlit("))");
    reveal_strlit("(");
    reveal_strlit(")");
    reveal_strlit("binary(=");
    reveal_strlit("test(=");
    reveal_strlit(" & ");
    assert("("@ + "binary(="@ =~= "(binary(="@);
    assert(")"@ + " & "@ + "test(="@ =~= ") & test(="@);
    assert(")"@ + ")"@ =~= "))"@);
    assert("("@ + ("binary(="@ + x + ")"@ + " & "@ + ("test(="@ + y + ")"@)) + ")"@ =~= ("("@
        + "binary(="@) + x + (")"@ + " & "@ + "test(="@) + y + (")"@ + ")"@));
}

proof fn selection_selects(id: Seq<char>) -> (f: Filter)
    requires
        can_stand(id),
    ensures
        f.is_readable(),
        f.text() == selection(id),
        !(f is Either),
        forall|b: Seq<char>, p: Seq<char>|
            !b.contains(' ') ==> (#[trigger] f.selects(b, p) <==> id_names(id, b, p)),
{
    reveal_strlit(" ");
    assert(" "@ =~= seq![' ']);
    find_from_is_least(id, " "@, 0);
    match find_from(id, " "@, 0) {
        Some(i) => {
            let x = id.subrange(0, i);
            let y = id.subrange(i + 1, id.len() as int);
            assert(id.subrange(i, i + 1)[0] == id[i]);
            assert(id =~= x + seq![' '] + y);
            let inner = Filter::Both(Box::new(Filter::Binary(x)), Box::new(Filter::Path(y)));
            let f = Filter::Bracketed(Box::new(inner));
            reveal_with_fuel(Filter::text, 4);
            reveal_with_fuel(Filter::is_readable, 4);
            reveal_with_fuel(Filter::selects, 4);
            selection_text(x, y);
            assert(f.text() == selection(id));
            assert forall|b: Seq<char>, p: Seq<char>| !b.contains(' ') implies (
            #[trigger] f.selects(b, p) <==> id_names(id, b, p)) by {
                assert(id[i] == ' ');
                assert(id.contains(' '));
                if id == b + seq![' '] + p {
                    assert(id[b.len() as int] == ' ');
                    assert(id.subrange(b.len() as int, b.len() as int + 1) =~= " "@);
                    assert(matches_at(id, " "@, b.len() as int));
                    if i < b.len() {
                        assert(b[i] == id[i]);
                    }
                    assert(i == b.len());
                    assert(x =~= b);
                    assert(y =~= p);
                }
            }
            f
        },
        None => {
            let f = Filter::Path(id);
            assert forall|b: Seq<char>, p: Seq<char>| !b.contains(' ') implies (
            #[trigger] f.selects(b, p) <==> id_names(id, b, p)) by {
                if id.contains(' ') {
                    let k = choose|k: int| 0 <= k < id.len() && id[k] == ' ';
                    assert(id.subrange(k, k + 1) =~= " "@);
                    assert(matches_at(id, " "@, k));
                }
                if id == b + seq![' '] + p {
                    assert(id[b.len() as int] == ' ');
                }
            }
            f
        },
    }
}

proof fn selections_select(ids: Seq<Seq<char>>) -> (f: Filter)
    requires
        ids.len() > 0,
        forall|k: int| 0 <= k < ids.len() ==> can_stand(#[trigger] ids[k]),
    ensures
        f.is_readable(),
        f.text() == joined(selections(ids), " | "@),
        forall|b: Seq<char>, p: Seq<char>|
            !b.contains(' ') ==> (#[trigger] f.selects(b, p) <==> ids_name(ids, b, p)),
    decreases ids.len(),
{
    let x = ids.last();
    assert(can_stand(ids[ids.len() - 1]));
    let g = selection_selects(x);
    let all = selections(ids);
    if ids.len() == 1 {
        assert forall|b: Seq<char>, p: Seq<char>| !b.contains(' ') implies (
        #[trigger] g.selects(b, p) <==> ids_name(ids, b, p)) by {
            assert(ids[0] == x);
        }
        g
    } else {
        let d = ids.drop_last();
        assert forall|k: int| 0 <= k < d.len() implies can_stand(#[trigger] d[k]) by {
            assert(can_stand(ids[k]));
        }
        let f = selections_select(d);
        assert(all.drop_last() =~= selections(d));
        assert(all.last() == selection(x));
        let r = Filter::Either(Box::new(f), Box::new(g));
        assert forall|b: Seq<char>, p: Seq<char>| !b.contains(' ') implies (
        #[trigger] r.selects(b, p) <==> ids_name(ids, b, p)) by {
            assert(r.selects(b, p) == (f.selects(b, p) || g.selects(b, p)));
            if ids_name(d, b, p) {
                let i = choose|i: int| 0 <= i < d.len() && id_names(#[trigger] d[i], b, p);
                assert(id_names(ids[i], b, p));
            }
            if id_names(x, b, p) {
                assert(id_names(ids[ids.len() - 1], b, p));
            }
            if ids_name(ids, b, p) {
                let i = choose|i: int| 0 <= i < ids.len() && id_names(#[trigger] ids[i], b, p);
                if i < d.len() {
                    assert(id_names(d[i], b, p));
                }
            }
        }
        r
    }
}

/// The words run nextest on the tests that the ids name, and on no others: the
/// filter expression among them selects just these.
pub open spec fn runs_batch(args: Seq<Seq<char>>, ids: Seq<Seq<char>>) -> bool {
    &&& args.len() >= 4
    &&& args[0] == "nextest"@
    &&& args[1] == "run"@
    &&& args[args.len() - 2] == "-E"@
    &&& (forall|k: int| 0 <= k < ids.len() ==> can_stand(#[trigger] ids[k])) ==> selects_batch(
        args[args.len() - 1],
        ids,
    )
}

/// A shell that reads the line, behind the text that it starts with, runs cargo
/// with words that run nextest on the tests that the ids name.
pub open spec fn line_runs_batch(line: Seq<char>, ids: Seq<Seq<char>>) -> bool {
    exists|head: Seq<char>, tail: Seq<char>|
        {
            &&& line == #[trigger] (head + "\ncargo "@ + tail)
            &&& shell_words_of(tail) matches Some(args) && runs_batch(args, ids)
        }
}

/// The arguments that run a batch select the tests of the batch and no others,
/// however many there are.
pub proof fn batch_is_selected(
    framework: CargoFramework,
    ids: Seq<Seq<char>>,
    config_path: Seq<char>,
)
    requires
        ids.len() > 0,
    ensures
        runs_batch(framework.run_args(ids, config_path), ids),
{
    let args = framework.run_args(ids, config_path);
    let n = args.len() as int;
    assert(args[n - 2] == "-E"@);
    assert(args[n - 1] == joined(selections(ids), " | "@));
    assert(args[0] == "nextest"@ && args[1] == "run"@);
    if forall|k: int| 0 <= k < ids.len() ==> can_stand(#[trigger] ids[k]) {
        let f = selections_select(ids);
        assert(f.text() == args[n - 1]);
    }
}

fn selection_of(id: &str) -> (r: String)
    ensures
        r@ == selection(id@),
{
    proof {
        reveal_strlit(" ");
    }
    match text::split_once(id, " ") {
        Some((binary, path)) => {
            let mut s = "(binary(=".to_owned();
            s.append(binary.as_str());
            s.append(") & test(=");
            s.append(path.as_str());
            s.append("))");
            s
        },
        None => {
            let mut s = "test(=".to_owned();
            s.append(id);
            s.append(")");
            s
        },
    }
}

impl CargoFramework {
    /// Creates a new cargo test framework with the given configuration.
    pub fn new(config: CargoFrameworkConfig) -> (r: Self)
        ensures
            r.config == config,
    {
        CargoFramework { config }
    }

    /// The arguments that the configuration adds to every command.
    pub open spec fn target_args(self) -> Seq<Seq<char>> {
        (match self.config.package {
            Some(p) => seq!["-p"@, p@],
            None => Seq::empty(),
        }) + (if self.config.features@.len() > 0 {
            seq!["--features"@, joined(views(self.config.features@), ","@)]
        } else {
            Seq::empty()
        }) + (match self.config.bin {
            Some(b) => seq!["--bin"@, b@],
            None => Seq::empty(),
        }) + (if self.config.include_ignored {
            seq!["--run-ignored"@, "only"@]
        } else {
            Seq::empty()
        })
    }

    fn push_target_args(&self, args: &mut Vec<String>)
        ensures
            views(final(args)@) == views(old(args)@) + self.target_args(),
    {
        let ghost before = views(args@);
        match &self.config.package {
            Some(p) => {
                args.push("-p".to_owned());
                args.push(p.clone());
            },
            None => {},
        }
        if self.config.features.len() > 0 {
            args.push("--features".to_owned());
            args.push(text::join(&self.config.features, ","));
        }
        match &self.config.bin {
            Some(b) => {
                args.push("--bin".to_owned());
                args.push(b.clone());
            },
            None => {},
        }
        if self.config.include_ignored {
            args.push("--run-ignored".to_owned());
            args.push("only".to_owned());
        }
        proof {
            assert(views(args@) =~= before + self.target_args());
        }
    }

    /// The records of a listing of nextest. Where filters were applied, only
    /// the tests that they match count.
    pub fn parse_listing(&self, suites: &Vec<NextestSuite>, group: &str) -> (r: Vec<TestRecord>)
        ensures
            record_views(r@) == listing_records(suites@, group@, suites@.len() as int),
    {
        let mut out: Vec<TestRecord> = Vec::new();
        let mut i: usize = 0;
        proof {
            assert(record_views(out@) =~= listing_records(suites@, group@, 0));
        }
        while i < suites.len()
            invariant
                0 <= i <= suites@.len(),
                record_views(out@) == listing_records(suites@, group@, i as int),
            decreases suites@.len() - i,
        {
            let suite = &suites[i];
            let ghost before = record_views(out@);
            let mut j: usize = 0;
            proof {
                assert(before + suite_records(*suite, group@, 0) =~= before);
            }
            while j < suite.testcases.len()
                invariant
                    0 <= j <= suite.testcases@.len(),
                    record_views(out@) == before + suite_records(*suite, group@, j as int),
                decreases suite.testcases@.len() - j,
            {
                let case = &suite.testcases[j];
                let listed = match &case.filter_status {
                    Some(s) => text::same(s.as_str(), "matches"),
                    None => true,
                };
                let ghost prior = out@;
                if listed {
                    let mut id = suite.binary_id.clone();
                    id.append(" ");
                    id.append(case.name.as_str());
                    out.push(TestRecord::new(id.as_str(), group));
                    proof {
                        assert(record_views(out@) =~= record_views(prior).push(out@.last()@));
                    }
                }
                proof {
                    assert(record_views(out@) =~= before + suite_records(*suite, group@, j + 1));
                }
                j = j + 1;
            }
            i = i + 1;
        }
        out
    }

    /// The command that lists the tests of a group.
    pub fn discovery_command(&self, filters: &str) -> (r: FrameworkResult<Command>)
        ensures
            if filters@.len() > 0 && shell_words_of(filters@) is None {
                r matches Err(FrameworkError::DiscoveryFailed(e)) && e@ == unparsed_args(
                    "filter string"@,
                    filters@,
                )
            } else {
                r matches Ok(cmd) && cmd.words() == seq![
                    "cargo"@,
                    "nextest"@,
                    "list"@,
                    "--message-format"@,
                    "json"@,
                ] + self.target_args() + (if filters@.len() == 0 {
                    Seq::empty()
                } else {
                    shell_words_of(filters@)->Some_0
                }) && cmd.env@.len() == 0 && cmd.runs_anywhere()
            },
    {
        let mut args: Vec<String> = Vec::new();
        args.push("nextest".to_owned());
        args.push("list".to_owned());
        args.push("--message-format".to_owned());
        args.push("json".to_owned());
        proof {
            assert(views(args@) =~= seq!["nextest"@, "list"@, "--message-format"@, "json"@]);
        }
        self.push_target_args(&mut args);
        let cmd = Command::new("cargo").args(&args);
        let ghost base = cmd.words();
        proof {
            assert(base =~= seq![
                "cargo"@,
                "nextest"@,
                "list"@,
                "--message-format"@,
                "json"@,
            ] + self.target_args());
        }
        if filters.is_empty() {
            proof {
                assert(base + Seq::<Seq<char>>::empty() =~= base);
            }
            return Ok(cmd);
        }
        match split_args("filter string", filters) {
            Ok(extra) => Ok(cmd.args(&extra)),
            Err(e) => Err(e),
        }
    }

    /// What a listing that failed is rejected for.
    pub fn listing_error(&self, stderr: &str) -> (r: FrameworkError)
        ensures
            r matches FrameworkError::DiscoveryFailed(e) && e@ == "cargo nextest list failed: "@
                + stderr@,
    {
        let mut e = "cargo nextest list failed: ".to_owned();
        e.append(stderr);
        FrameworkError::DiscoveryFailed(e)
    }

    /// The arguments of cargo that run the given tests.
    pub open spec fn run_args(self, ids: Seq<Seq<char>>, config_path: Seq<char>) -> Seq<Seq<char>> {
        seq!["nextest"@, "run"@, "--no-fail-fast"@, "--config-file"@, config_path]
            + self.target_args() + seq!["-E"@, joined(selections(ids), " | "@)]
    }

    /// The shell command that runs the given tests: it writes a configuration
    /// with the place of the report and runs nextest with it.
    pub open spec fn run_line(self, ids: Seq<Seq<char>>, result_path: Seq<char>) -> Seq<char> {
        let config_path = result_path + ".nextest.toml"@;
        "cat > "@ + config_path + " << 'NEXTEST_EOF'\n[profile.default.junit]\npath = \""@
            + result_path + "\"\nNEXTEST_EOF\ncargo "@ + joined(
            quoted_words(self.run_args(ids, config_path)),
            " "@,
        )
    }
}

impl TestFramework for CargoFramework {
    /// The command that runs the given tests with a JUnit report at the given
    /// path.
    fn produce_test_execution_command(
        &self,
        tests: &[TestInstance],
        result_path: &str,
        fail_fast: bool,
    ) -> (r: Command)
        ensures
            r.words() == seq!["sh"@, "-c"@, self.run_line(instance_ids(tests@), result_path@)],
            tests@.len() > 0 ==> line_runs_batch(r.words()[2], instance_ids(tests@)),
            r.env@.len() == 0,
            r.prepend_path@.len() == 0,
            r.working_dir is None,
            r.timeout_secs is None,
    {
        let mut config_path = result_path.to_owned();
        config_path.append(".nextest.toml");
        let mut exprs: Vec<String> = Vec::new();
        let mut i: usize = 0;
        while i < tests.len()
            invariant
                0 <= i <= tests@.len(),
                exprs@.len() == i,
                forall|k: int|
                    0 <= k < i ==> (#[trigger] exprs@[k])@ == selection(tests@[k].record.id@),
            decreases tests@.len() - i,
        {
            exprs.push(selection_of(tests[i].id()));
            i = i + 1;
        }
        proof {
            assert(views(exprs@) =~= selections(instance_ids(tests@)));
        }
        let filter = text::join(&exprs, " | ");
        let mut args: Vec<String> = Vec::new();
        args.push("nextest".to_owned());
        args.push("run".to_owned());
        args.push("--no-fail-fast".to_owned());
        args.push("--config-file".to_owned());
        args.push(config_path.clone());
        proof {
            assert(views(args@) =~= seq![
                "nextest"@,
                "run"@,
                "--no-fail-fast"@,
                "--config-file"@,
                config_path@,
            ]);
        }
        self.push_target_args(&mut args);
        let ghost so_far = views(args@);
        args.push("-E".to_owned());
        args.push(filter);
        proof {
            assert(views(args@) =~= so_far + seq!["-E"@, filter@]);
            assert(views(args@) =~= self.run_args(instance_ids(tests@), config_path@));
        }
        let list = shell::quote_join(&args);
        let mut line = "cat > ".to_owned();
        line.append(config_path.as_str());
        line.append(" << 'NEXTEST_EOF'\n[profile.default.junit]\npath = \"");
        line.append(result_path);
        let ghost begun = line@;
        line.append("\"\nNEXTEST_EOF\ncargo ");
        line.append(list.as_str());
        let cmd = Command::new("sh").arg("-c").arg(line.as_str());
        proof {
            if tests@.len() > 0 {
                batch_is_selected(*self, instance_ids(tests@), config_path@);
                reveal_strlit("\"\nNEXTEST_EOF\ncargo ");
                reveal_strlit("\"\nNEXTEST_EOF");
                reveal_strlit("\ncargo ");
                let head = begun + "\"\nNEXTEST_EOF"@;
                assert(line@ =~= head + "\ncargo "@ + list@);
                assert(line_runs_batch(line@, instance_ids(tests@)));
            }
            assert(cmd.words() =~= seq!["sh"@, "-c"@, line@]);
        }
        cmd
    }
}

impl CargoFramework {
    /// Every command is narrowed to the configured package, features and
    /// binary, each behind its flag, and to ignored tests where they are asked
    /// for; without any of these it is not.
    pub proof fn commands_are_narrowed(self)
        requires
            forall|k: int|
                0 <= k < self.config.features@.len() ==> !(
                #[trigger] views(self.config.features@)[k]).contains(','),
        ensures
            ({
                let args = self.target_args();
                &&& self.config.package matches Some(p) ==> args.len() > 1 && args[0] == "-p"@
                    && args[1] == p@
                &&& self.config.features@.len() > 0 ==> exists|i: int|
                    0 <= i < args.len() - 1 && #[trigger] args[i] == "--features"@ && pieces(
                        args[i + 1],
                        ","@,
                    ) == views(self.config.features@)
                &&& self.config.bin matches Some(b) ==> exists|i: int|
                    0 <= i < args.len() - 1 && #[trigger] args[i] == "--bin"@ && args[i + 1] == b@
                &&& self.config.include_ignored ==> args.len() > 1 && args[args.len() - 2]
                    == "--run-ignored"@ && args.last() == "only"@
                &&& args.len() == (if self.config.package is Some {
                    2int
                } else {
                    0
                }) + (if self.config.features@.len() > 0 {
                    2int
                } else {
                    0
                }) + (if self.config.bin is Some {
                    2int
                } else {
                    0
                }) + (if self.config.include_ignored {
                    2int
                } else {
                    0
                })
            }),
    {
        let args = self.target_args();
        let n: int = if self.config.package is Some {
            2
        } else {
            0
        };
        let m: int = if self.config.features@.len() > 0 {
            2
        } else {
            0
        };
        if self.config.features@.len() > 0 {
            let features = views(self.config.features@);
            reveal_strlit(",");
            assert(","@ =~= seq![',']);
            pieces_undo_join(features, ',');
            assert(args[n] == "--features"@);
            assert(args[n + 1] == joined(features, ","@));
        }
        if self.config.bin is Some {
            assert(args[n + m] == "--bin"@);
            assert(args[n + m + 1] == self.config.bin->Some_0@);
        }
    }
}

} // verus!
