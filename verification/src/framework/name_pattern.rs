//! What a test name pattern selects, as far as the commands use it: the names
//! that are one of some alternatives. Between `^` and `$` a group must match a
//! name from its beginning to its end.

use vstd::prelude::*;

use crate::patterns::{is_meta, regex_escaped};
use crate::text::joined;

verus! {

/// A pattern.
pub enum Pattern {
    /// The text itself, each special character of it behind a backslash.
    Literal(Seq<char>),
    /// `a|b`: what either matches.
    Either(Box<Pattern>, Box<Pattern>),
    /// A pattern in brackets.
    Group(Box<Pattern>),
}

impl Pattern {
    /// The text of a pattern.
    pub open spec fn text(self) -> Seq<char>
        decreases self,
    {
        match self {
            Pattern::Literal(s) => regex_escaped(s),
            Pattern::Either(a, b) => a.text() + "|"@ + b.text(),
            Pattern::Group(a) => "("@ + a.text() + ")"@,
        }
    }

    /// The pattern matches a name from its beginning to its end.
    pub open spec fn denotes(self, name: Seq<char>) -> bool
        decreases self,
    {
        match self {
            Pattern::Literal(s) => s == name,
            Pattern::Either(a, b) => a.denotes(name) || b.denotes(name),
            Pattern::Group(a) => a.denotes(name),
        }
    }
}

/// A text is a group between `^` and `$` that matches the names of which
/// `named` holds, and no others.
pub open spec fn selects_names(argument: Seq<char>, named: spec_fn(Seq<char>) -> bool) -> bool {
    exists|p: Pattern|
        {
            &&& p is Group
            &&& "^"@ + #[trigger] p.text() + "$"@ == argument
            &&& forall|n: Seq<char>| #[trigger] p.denotes(n) <==> named(n)
        }
}

/// The alternatives of one or more names.
pub open spec fn one_of(names: Seq<Seq<char>>) -> Pattern
    decreases names.len(),
{
    if names.len() <= 1 {
        Pattern::Literal(names[0])
    } else {
        Pattern::Either(
            Box::new(one_of(names.drop_last())),
            Box::new(Pattern::Literal(names.last())),
        )
    }
}

/// Each name with its special characters behind backslashes.
pub open spec fn all_escaped(names: Seq<Seq<char>>) -> Seq<Seq<char>> {
    Seq::new(names.len(), |i: int| regex_escaped(names[i]))
}

/// Alternatives are written with a bar between neighbours, and match exactly
/// the names that they are made of.
pub proof fn alternatives_match_names(names: Seq<Seq<char>>, n: Seq<char>)
    requires
        names.len() > 0,
    ensures
        one_of(names).text() == joined(all_escaped(names), "|"@),
        one_of(names).denotes(n) <==> names.contains(n),
    decreases names.len(),
{
    if names.len() == 1 {
        assert(all_escaped(names).len() == 1);
        if names.contains(n) {
            let k = choose|k: int| 0 <= k < names.len() && names[k] == n;
            assert(k == 0);
        }
    } else {
        let d = names.drop_last();
        alternatives_match_names(d, n);
        let last = Pattern::Literal(names.last());
        assert(last.text() == regex_escaped(names.last()));
        assert(last.denotes(n) == (names.last() == n));
        assert(all_escaped(names).drop_last() =~= all_escaped(d));
        assert(names[names.len() - 1] == names.last());
        if d.contains(n) {
            let k = choose|k: int| 0 <= k < d.len() && d[k] == n;
            assert(names[k] == n);
        }
        if names.contains(n) && n != names.last() {
            let k = choose|k: int| 0 <= k < names.len() && names[k] == n;
            assert(d[k] == n);
        }
    }
}

/// Two names that are the same behind backslashes are the same.
pub proof fn escape_keeps_apart(a: Seq<char>, b: Seq<char>)
    requires
        regex_escaped(a) == regex_escaped(b),
    ensures
        a == b,
    decreases a.len(),
{
    let (x, y) = (regex_escaped(a), regex_escaped(b));
    if a.len() == 0 || b.len() == 0 {
        assert(a =~= b);
    } else {
        let (c, d) = (a.drop_last(), b.drop_last());
        assert(x.last() == a.last());
        assert(y.last() == b.last());
        if is_meta(a.last()) {
            assert(x.take(x.len() - 2) =~= regex_escaped(c));
            assert(y.take(y.len() - 2) =~= regex_escaped(d));
        } else {
            assert(x.drop_last() =~= regex_escaped(c));
            assert(y.drop_last() =~= regex_escaped(d));
        }
        escape_keeps_apart(c, d);
        assert(a =~= c.push(a.last()));
        assert(b =~= d.push(b.last()));
    }
}

} // verus!
