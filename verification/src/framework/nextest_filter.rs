//! What nextest makes of filter expressions, as far as the commands use them:
//! the tests of a binary, the tests of a path, and their unions and
//! intersections. An intersection binds tighter than a union.

use vstd::prelude::*;

verus! {

/// A filter expression.
pub enum Filter {
    /// `binary(=name)`: the tests of the binary.
    Binary(Seq<char>),
    /// `test(=path)`: the tests with the path.
    Path(Seq<char>),
    /// An expression in brackets.
    Bracketed(Box<Filter>),
    /// `a & b`: the tests that both select.
    Both(Box<Filter>, Box<Filter>),
    /// `a | b`: the tests that either selects.
    Either(Box<Filter>, Box<Filter>),
}

/// A name can stand in an expression as it is: nothing in it ends it or is
/// read as something else.
pub open spec fn can_stand(name: Seq<char>) -> bool {
    forall|i: int| 0 <= i < name.len() ==> name[i] != ')' && name[i] != '\\'
}

impl Filter {
    /// The text of an expression.
    pub open spec fn text(self) -> Seq<char>
        decreases self,
    {
        match self {
            Filter::Binary(b) => "binary(="@ + b + ")"@,
            Filter::Path(p) => "test(="@ + p + ")"@,
            Filter::Bracketed(f) => "("@ + f.text() + ")"@,
            Filter::Both(f, g) => f.text() + " & "@ + g.text(),
            Filter::Either(f, g) => f.text() + " | "@ + g.text(),
        }
    }

    /// Read from its text, the expression is the same again: the names can
    /// stand in it, and a union within an intersection stands in brackets.
    pub open spec fn is_readable(self) -> bool
        decreases self,
    {
        match self {
            Filter::Binary(b) => can_stand(b),
            Filter::Path(p) => can_stand(p),
            Filter::Bracketed(f) => f.is_readable(),
            Filter::Both(f, g) => f.is_readable() && g.is_readable() && !(*f is Either) && !(
            *g is Either) && !(*g is Both),
            Filter::Either(f, g) => f.is_readable() && g.is_readable() && !(*g is Either),
        }
    }

    /// The expression selects a test, given by its binary and its path.
    pub open spec fn selects(self, binary: Seq<char>, path: Seq<char>) -> bool
        decreases self,
    {
        match self {
            Filter::Binary(b) => b == binary,
            Filter::Path(p) => p == path,
            Filter::Bracketed(f) => f.selects(binary, path),
            Filter::Both(f, g) => f.selects(binary, path) && g.selects(binary, path),
            Filter::Either(f, g) => f.selects(binary, path) || g.selects(binary, path),
        }
    }
}

/// An id names a test: by binary and path with a space between them, or, where
/// it has no space, by path alone.
pub open spec fn id_names(id: Seq<char>, binary: Seq<char>, path: Seq<char>) -> bool {
    id == binary + seq![' '] + path || (id == path && !id.contains(' '))
}

/// One of the ids names a test.
pub open spec fn ids_name(ids: Seq<Seq<char>>, binary: Seq<char>, path: Seq<char>) -> bool {
    exists|i: int| 0 <= i < ids.len() && id_names(#[trigger] ids[i], binary, path)
}

/// A text is a filter expression that selects the tests that the ids name, and
/// no others. The name of a binary has no space.
pub open spec fn selects_batch(expression: Seq<char>, ids: Seq<Seq<char>>) -> bool {
    exists|f: Filter|
        {
            &&& f.is_readable()
            &&& #[trigger] f.text() == expression
            &&& forall|b: Seq<char>, p: Seq<char>|
                !b.contains(' ') ==> (#[trigger] f.selects(b, p) <==> ids_name(ids, b, p))
        }
}

} // verus!
