//! Shell words: splitting command lines and quoting arguments.

use vstd::prelude::*;

use crate::text::{joined, replaced, views};

verus! {

/// The words of a command line, as `shell_words::split` finds them. There are
/// none where a quote is not closed.
pub uninterp spec fn shell_words_of(s: Seq<char>) -> Option<Seq<Seq<char>>>;

/// `shell_words::split` splits a command line into words as a shell does, and
/// fails only where a quote is not closed, with the error given here.
#[verifier::external_body]
pub(crate) fn split(s: &str) -> (r: Result<Vec<String>, String>)
    ensures
        match r {
            Ok(words) => shell_words_of(s@) == Some(views(words@)),
            Err(e) => shell_words_of(s@) is None && e@ == "missing closing quote"@,
        },
{
    match shell_words::split(s) {
        Ok(words) => Ok(words),
        Err(e) => Err(e.to_string()),
    }
}

/// A character that means something else than itself to a shell.
pub open spec fn is_special(c: char) -> bool {
    ||| c == '\n' || c == '\'' || c == '|' || c == '&' || c == ';' || c == '<' || c == '>'
    ||| c == '(' || c == ')' || c == '$' || c == '`' || c == '\\' || c == '"' || c == ' '
    ||| c == '\t' || c == '*' || c == '?' || c == '[' || c == '#' || c == '~' || c == '='
    ||| c == '%'
}

/// A text as one word of a command line: as it is where it can stand so, else
/// in single quotes, with each single quote in it put outside of them behind a
/// backslash.
pub open spec fn shell_quoted(s: Seq<char>) -> Seq<char> {
    if s.len() == 0 || exists|i: int| 0 <= i < s.len() && is_special(#[trigger] s[i]) {
        "'"@ + replaced(s, "'"@, "'\\''"@) + "'"@
    } else {
        s
    }
}

/// A shell takes `q` for the one word `s`: alone it is that word, and in front
/// of a space and anything else it is the first word.
pub open spec fn stands_for_word(q: Seq<char>, s: Seq<char>) -> bool {
    &&& shell_words_of(q) == Some(seq![s])
    &&& forall|rest: Seq<char>| #[trigger]
        shell_words_of(q + " "@ + rest) == (match shell_words_of(rest) {
            Some(words) => Some(seq![s] + words),
            None => None,
        })
}

/// `shell_words::quote` leaves a text as it is or puts it in single quotes, as
/// `shell_quoted` says, so that a shell takes the result for that one word.
#[verifier::external_body]
pub(crate) fn quote(s: &str) -> (r: String)
    ensures
        r@ == shell_quoted(s@),
        stands_for_word(r@, s@),
{
    shell_words::quote(s).into_owned()
}

/// The words of a sequence, each quoted.
pub open spec fn quoted_words(words: Seq<Seq<char>>) -> Seq<Seq<char>> {
    Seq::new(words.len(), |i: int| shell_quoted(words[i]))
}

/// The quoted words of a sequence with spaces between, from the `i`th on.
pub open spec fn quoted_from(words: Seq<Seq<char>>, i: int) -> Seq<char>
    decreases words.len() - i,
{
    if i < 0 || i >= words.len() {
        Seq::empty()
    } else if i + 1 == words.len() {
        shell_quoted(words[i])
    } else {
        shell_quoted(words[i]) + " "@ + quoted_from(words, i + 1)
    }
}

/// Quotes every word.
pub fn quote_all(words: &Vec<String>) -> (r: Vec<String>)
    ensures
        views(r@) == quoted_words(views(words@)),
        forall|k: int|
            0 <= k < words@.len() ==> stands_for_word(
                shell_quoted(#[trigger] views(words@)[k]),
                views(words@)[k],
            ),
{
    let mut out: Vec<String> = Vec::new();
    let mut i: usize = 0;
    while i < words.len()
        invariant
            0 <= i <= words@.len(),
            out@.len() == i,
            forall|k: int| 0 <= k < i ==> (#[trigger] out@[k])@ == shell_quoted(words@[k]@),
            forall|k: int|
                0 <= k < i ==> stands_for_word(
                    shell_quoted(#[trigger] views(words@)[k]),
                    views(words@)[k],
                ),
        decreases words@.len() - i,
    {
        out.push(quote(words[i].as_str()));
        i = i + 1;
    }
    proof {
        assert(views(out@) =~= quoted_words(views(words@)));
    }
    out
}

/// Quotes every word and puts spaces between them. A shell that reads the
/// result finds the words again.
pub fn quote_join(words: &Vec<String>) -> (r: String)
    ensures
        r@ == joined(quoted_words(views(words@)), " "@),
        words@.len() > 0 ==> shell_words_of(r@) == Some(views(words@)),
{
    let quoted = quote_all(words);
    proof {
        let all = views(words@);
        if all.len() > 0 {
            words_found_from(all, 0);
            joined_is_quoted_from(all);
            assert(all.subrange(0, all.len() as int) =~= all);
        }
    }
    crate::text::join(&quoted, " ")
}

proof fn words_found_from(words: Seq<Seq<char>>, i: int)
    requires
        0 <= i < words.len(),
        forall|k: int|
            0 <= k < words.len() ==> stands_for_word(
                shell_quoted(#[trigger] words[k]),
                words[k],
            ),
    ensures
        shell_words_of(quoted_from(words, i)) == Some(words.subrange(i, words.len() as int)),
    decreases words.len() - i,
{
    assert(stands_for_word(shell_quoted(words[i]), words[i]));
    if i + 1 == words.len() {
        assert(words.subrange(i, words.len() as int) =~= seq![words[i]]);
    } else {
        words_found_from(words, i + 1);
        assert(words.subrange(i, words.len() as int) =~= seq![words[i]] + words.subrange(
            i + 1,
            words.len() as int,
        ));
    }
}

/// Joining from either end gives the same text.
proof fn joined_is_quoted_from(words: Seq<Seq<char>>)
    requires
        words.len() > 0,
    ensures
        joined(quoted_words(words), " "@) == quoted_from(words, 0),
{
    let q = quoted_words(words);
    assert(q.take(q.len() as int) =~= q);
    joined_prefix(words, q.len() as int);
}

proof fn joined_prefix(words: Seq<Seq<char>>, n: int)
    requires
        0 < n <= words.len(),
    ensures
        n < words.len() ==> joined(quoted_words(words).take(n), " "@) + " "@ + quoted_from(words, n)
            == quoted_from(words, 0),
        n == words.len() ==> joined(quoted_words(words).take(n), " "@) == quoted_from(words, 0),
    decreases n,
{
    let q = quoted_words(words);
    let t = q.take(n);
    if n == 1 {
        assert(t.len() == 1);
        assert(t[0] == shell_quoted(words[0]));
    } else {
        joined_prefix(words, n - 1);
        assert(t.drop_last() =~= q.take(n - 1));
        assert(t.last() == shell_quoted(words[n - 1]));
        let a = joined(q.take(n - 1), " "@);
        let w = shell_quoted(words[n - 1]);
        if n < words.len() {
            let rest = quoted_from(words, n);
            assert(quoted_from(words, n - 1) == w + " "@ + rest);
            assert(a + " "@ + (w + " "@ + rest) =~= (a + " "@ + w) + " "@ + rest);
        } else {
            assert(quoted_from(words, n - 1) == w);
        }
    }
}

} // verus!
