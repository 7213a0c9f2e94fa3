//! Building a thin diff image: the command, its output and its result.

use vstd::prelude::*;

use crate::provider::{OutputLine, ProviderError};
use crate::text;
use crate::text::{decimal, trimmed, views};

verus! {

/// The command that builds a thin diff on the image of a commit.
pub fn thin_diff_command(
    base_image_id: &str,
    checkpoint_sha: &str,
    sandbox_project_root: &str,
) -> (r: String)
    ensures
        r@ == "uv run @modal_sandbox.py prepare --from-checkpoint="@ + base_image_id@
            + " --checkpoint-sha="@ + checkpoint_sha@ + " --sandbox-project-root="@
            + sandbox_project_root@,
{
    let mut s = "uv run @modal_sandbox.py prepare --from-checkpoint=".to_owned();
    s.append(base_image_id);
    s.append(" --checkpoint-sha=");
    s.append(checkpoint_sha);
    s.append(" --sandbox-project-root=");
    s.append(sandbox_project_root);
    s
}

/// Messages that are held back while tests are discovered.
#[derive(Debug)]
pub struct HeldOutput {
    /// The messages held back.
    pub held: Vec<String>,
}

impl HeldOutput {
    /// Nothing is held back.
    pub fn new() -> (r: Self)
        ensures
            r.held@.len() == 0,
    {
        HeldOutput { held: Vec::new() }
    }

    /// Takes a message. While tests are discovered it is held back; otherwise
    /// it comes out behind all that were. No message is lost, and none passes
    /// another.
    pub fn emit(&mut self, message: &str, discovering: bool) -> (r: Vec<String>)
        ensures
            views(r@) + views(final(self).held@) == views(old(self).held@).push(message@),
            discovering ==> r@.len() == 0,
            !discovering ==> final(self).held@.len() == 0,
    {
        let ghost before = self.held@;
        self.held.push(message.to_owned());
        proof {
            assert(views(self.held@) =~= views(before).push(message@));
        }
        if discovering {
            let out: Vec<String> = Vec::new();
            proof {
                assert(views(out@) + views(self.held@) =~= views(self.held@));
            }
            return out;
        }
        self.flush()
    }

    /// Lets out all that is held back.
    pub fn flush(&mut self) -> (r: Vec<String>)
        ensures
            r@ == old(self).held@,
            views(r@) + views(final(self).held@) == views(old(self).held@),
            final(self).held@.len() == 0,
    {
        let mut out: Vec<String> = Vec::new();
        out.append(&mut self.held);
        proof {
            assert(out@ =~= old(self).held@);
            assert(views(out@) + views(self.held@) =~= views(old(self).held@));
        }
        out
    }
}

/// What is shown of a line of output.
pub fn shown_line(line: &OutputLine) -> (r: Option<String>)
    ensures
        match *line {
            OutputLine::Stdout(s) => r matches Some(m) && m@ == "[prepare]   "@ + s@,
            OutputLine::Stderr(s) => r matches Some(m) && m@ == "[prepare]   "@ + s@,
            OutputLine::ExitCode(_) => r is None,
        },
{
    match line {
        OutputLine::Stdout(s) => {
            let mut m = "[prepare]   ".to_owned();
            m.append(s.as_str());
            Some(m)
        },
        OutputLine::Stderr(s) => {
            let mut m = "[prepare]   ".to_owned();
            m.append(s.as_str());
            Some(m)
        },
        OutputLine::ExitCode(_) => None,
    }
}

/// The last line of standard output; empty where there is none.
pub open spec fn last_stdout(lines: Seq<OutputLine>) -> Seq<char>
    decreases lines.len(),
{
    if lines.len() == 0 {
        Seq::empty()
    } else {
        match lines.last() {
            OutputLine::Stdout(s) => s@,
            _ => last_stdout(lines.drop_last()),
        }
    }
}

/// The last exit code; zero where there is none.
pub open spec fn last_code(lines: Seq<OutputLine>) -> i32
    decreases lines.len(),
{
    if lines.len() == 0 {
        0
    } else {
        match lines.last() {
            OutputLine::ExitCode(c) => c,
            _ => last_code(lines.drop_last()),
        }
    }
}

/// The image that the command built: its last line of output.
pub fn thin_diff_image(lines: &Vec<OutputLine>) -> (r: Result<String, ProviderError>)
    ensures
        if last_code(lines@) != 0 {
            r matches Err(ProviderError::ExecFailed(e)) && e@
                == "thin diff prepare command failed with exit code "@ + decimal(
                last_code(lines@) as int,
            )
        } else if trimmed(last_stdout(lines@)).len() == 0 {
            r matches Err(ProviderError::ExecFailed(e)) && e@
                == "thin diff prepare command returned empty image_id"@
        } else {
            r matches Ok(id) && id@ == trimmed(last_stdout(lines@))
        },
{
    let mut last = String::new();
    let mut code: i32 = 0;
    let mut i: usize = 0;
    proof {
        assert(lines@.take(0) =~= Seq::<OutputLine>::empty());
    }
    while i < lines.len()
        invariant
            0 <= i <= lines@.len(),
            last@ == last_stdout(lines@.take(i as int)),
            code == last_code(lines@.take(i as int)),
        decreases lines@.len() - i,
    {
        proof {
            let t = lines@.take(i + 1);
            assert(t.drop_last() =~= lines@.take(i as int));
            assert(t.last() == lines@[i as int]);
        }
        match &lines[i] {
            OutputLine::Stdout(s) => {
                last = s.clone();
            },
            OutputLine::Stderr(_) => {},
            OutputLine::ExitCode(c) => {
                code = *c;
            },
        }
        i = i + 1;
    }
    proof {
        assert(lines@.take(lines@.len() as int) =~= lines@);
    }
    if code != 0 {
        let mut e = "thin diff prepare command failed with exit code ".to_owned();
        let shown = text::decimal_i32(code);
        e.append(shown.as_str());
        return Err(ProviderError::ExecFailed(e));
    }
    let id = text::trim(last.as_str());
    if id.as_str().is_empty() {
        return Err(
            ProviderError::ExecFailed(
                "thin diff prepare command returned empty image_id".to_owned(),
            ),
        );
    }
    Ok(id)
}

/// The exit code that counts is the last one, whatever is printed behind it.
pub proof fn last_code_counts(before: Seq<OutputLine>, code: i32, after: Seq<OutputLine>)
    requires
        forall|i: int| 0 <= i < after.len() ==> !((#[trigger] after[i]) is ExitCode),
    ensures
        last_code(before.push(OutputLine::ExitCode(code)) + after) == code,
        last_code(after) == 0,
    decreases after.len(),
{
    let first = before.push(OutputLine::ExitCode(code));
    let all = first + after;
    if after.len() == 0 {
        assert(all =~= first);
    } else {
        let rest = after.drop_last();
        assert forall|i: int| 0 <= i < rest.len() implies !((#[trigger] rest[i]) is ExitCode) by {
            assert(rest[i] == after[i]);
        }
        last_code_counts(before, code, rest);
        assert(!(after[after.len() - 1] is ExitCode));
        assert(all.drop_last() =~= first + rest);
        assert(all.last() == after.last());
    }
}

/// The line of standard output that counts is the last one, whatever stands
/// behind it on standard error.
pub proof fn last_stdout_counts(before: Seq<OutputLine>, line: String, after: Seq<OutputLine>)
    requires
        forall|i: int| 0 <= i < after.len() ==> !((#[trigger] after[i]) is Stdout),
    ensures
        last_stdout(before.push(OutputLine::Stdout(line)) + after) == line@,
        last_stdout(after).len() == 0,
    decreases after.len(),
{
    let first = before.push(OutputLine::Stdout(line));
    let all = first + after;
    if after.len() == 0 {
        assert(all =~= first);
    } else {
        let rest = after.drop_last();
        assert forall|i: int| 0 <= i < rest.len() implies !((#[trigger] rest[i]) is Stdout) by {
            assert(rest[i] == after[i]);
        }
        last_stdout_counts(before, line, rest);
        assert(!(after[after.len() - 1] is Stdout));
        assert(all.drop_last() =~= first + rest);
        assert(all.last() == after.last());
    }
}

} // verus!
