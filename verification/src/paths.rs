//! Slash-separated paths as text.

use vstd::prelude::*;

use crate::text;
use crate::text::{chars_of, joined, string_between, views};

verus! {

/// A path is absolute where it begins with a slash.
pub open spec fn is_absolute_path(p: Seq<char>) -> bool {
    p.len() > 0 && p[0] == '/'
}

/// `b` taken relative to `a`.
pub open spec fn joined_path(a: Seq<char>, b: Seq<char>) -> Seq<char> {
    if is_absolute_path(b) || a.len() == 0 {
        b
    } else if a[a.len() - 1] == '/' {
        a + b
    } else {
        a + "/"@ + b
    }
}

/// The position of the first slash at or after `i`, or the length.
pub open spec fn slash_from(p: Seq<char>, i: int) -> int
    decreases p.len() - i,
{
    if i < 0 || i >= p.len() {
        p.len() as int
    } else if p[i] == '/' {
        i
    } else {
        slash_from(p, i + 1)
    }
}

/// The spans of the components of a path from position `i` on. Repeated
/// slashes count as one, and a single dot is a component only where the path
/// begins with it.
pub open spec fn spans_from(p: Seq<char>, i: int) -> Seq<(int, int)>
    decreases p.len() + 1 - i,
{
    if i < 0 || i >= p.len() {
        Seq::empty()
    } else {
        let j = slash_from(p, i);
        if j < i || j > p.len() {
            Seq::empty()
        } else if j == i || (j == i + 1 && p[i] == '.' && i != 0) {
            spans_from(p, j + 1)
        } else {
            seq![(i, j)] + spans_from(p, j + 1)
        }
    }
}

/// The texts that a sequence of spans stands for.
pub open spec fn span_texts(p: Seq<char>, spans: Seq<(int, int)>) -> Seq<Seq<char>> {
    Seq::new(spans.len(), |k: int| p.subrange(spans[k].0, spans[k].1))
}

/// The components of a path, without its root.
pub open spec fn components(p: Seq<char>) -> Seq<Seq<char>> {
    span_texts(p, spans_from(p, 0))
}

/// The components of a path that are not a single dot.
pub open spec fn solid(c: Seq<Seq<char>>) -> Seq<Seq<char>>
    decreases c.len(),
{
    if c.len() == 0 {
        Seq::empty()
    } else if c.last() == seq!['.'] {
        solid(c.drop_last())
    } else {
        solid(c.drop_last()).push(c.last())
    }
}

/// A path without dots, repeated slashes and a slash at its end.
pub open spec fn normalized(p: Seq<char>) -> Seq<char> {
    if is_absolute_path(p) {
        "/"@ + joined(solid(components(p)), "/"@)
    } else {
        joined(solid(components(p)), "/"@)
    }
}

/// `base` is a leading part of `p`, component by component.
pub open spec fn is_under(p: Seq<char>, base: Seq<char>) -> bool {
    let c = components(p);
    let b = components(base);
    &&& b.len() <= c.len()
    &&& c.take(b.len() as int) == b
    &&& is_absolute_path(p) == is_absolute_path(base) || (b.len() == 0 && !is_absolute_path(base))
}

/// What is left of a path that is under `base`: the text from its first
/// component beyond `base` to its last one.
pub open spec fn remainder(p: Seq<char>, base: Seq<char>) -> Seq<char> {
    let spans = spans_from(p, 0);
    let n = components(base).len();
    if is_absolute_path(p) && !is_absolute_path(base) {
        p.subrange(
            0,
            if spans.len() == 0 {
                1
            } else {
                spans.last().1
            },
        )
    } else if n >= spans.len() {
        Seq::empty()
    } else {
        p.subrange(spans[n as int].0, spans.last().1)
    }
}

/// Whether a path is absolute.
pub fn is_absolute(p: &str) -> (b: bool)
    ensures
        b == is_absolute_path(p@),
{
    let v = chars_of(p);
    v.len() > 0 && v[0] == '/'
}

/// `b` taken relative to `a`.
pub fn join(a: &str, b: &str) -> (r: String)
    ensures
        r@ == joined_path(a@, b@),
{
    let v = chars_of(a);
    if is_absolute(b) || v.len() == 0 {
        b.to_owned()
    } else if v[v.len() - 1] == '/' {
        let mut r = a.to_owned();
        r.append(b);
        r
    } else {
        let mut r = a.to_owned();
        r.append("/");
        r.append(b);
        r
    }
}

/// The spans of `p` lie in order within it.
proof fn spans_in_range(p: Seq<char>, i: int)
    requires
        0 <= i,
    ensures
        forall|k: int|
            0 <= k < spans_from(p, i).len() ==> i <= (#[trigger] spans_from(p, i)[k]).0
                < spans_from(p, i)[k].1 <= p.len(),
        forall|k: int, l: int|
            0 <= k < l < spans_from(p, i).len() ==> (#[trigger] spans_from(p, i)[k]).1 < (
            #[trigger] spans_from(p, i)[l]).0,
    decreases p.len() + 1 - i,
{
    if i < p.len() {
        let j = slash_from(p, i);
        if j < i || j > p.len() {
        } else {
            spans_in_range(p, j + 1);
            let rest = spans_from(p, j + 1);
            if !(j == i || (j == i + 1 && p[i] == '.' && i != 0)) {
                assert(spans_from(p, i) == seq![(i, j)] + rest);
                assert forall|k: int| 0 <= k < spans_from(p, i).len() implies i <= (
                #[trigger] spans_from(p, i)[k]).0 < spans_from(p, i)[k].1 <= p.len() by {
                    if k > 0 {
                        assert(spans_from(p, i)[k] == rest[k - 1]);
                    }
                }
                assert forall|k: int, l: int| 0 <= k < l < spans_from(p, i).len() implies (
                #[trigger] spans_from(p, i)[k]).1 < (#[trigger] spans_from(p, i)[l]).0 by {
                    assert(spans_from(p, i)[l] == rest[l - 1]);
                    if k > 0 {
                        assert(spans_from(p, i)[k] == rest[k - 1]);
                    }
                }
            }
        }
    }
}

fn component_spans(v: &Vec<char>) -> (r: Vec<(usize, usize)>)
    ensures
        r@.len() == spans_from(v@, 0).len(),
        forall|k: int|
            0 <= k < r@.len() ==> (#[trigger] r@[k]).0 == spans_from(v@, 0)[k].0 && r@[k].1
                == spans_from(v@, 0)[k].1,
{
    let mut out: Vec<(usize, usize)> = Vec::new();
    let mut i: usize = 0;
    let ghost all = spans_from(v@, 0);
    let ghost mut done: Seq<(int, int)> = Seq::empty();
    proof {
        assert(done + spans_from(v@, 0) =~= all);
    }
    while i < v.len()
        invariant
            0 <= i <= v@.len(),
            all == spans_from(v@, 0),
            done + spans_from(v@, i as int) == all,
            done.len() == out@.len(),
            forall|k: int|
                0 <= k < out@.len() ==> (#[trigger] out@[k]).0 == done[k].0 && out@[k].1
                    == done[k].1,
        decreases v@.len() - i,
    {
        let mut j: usize = i;
        while j < v.len() && v[j] != '/'
            invariant
                i <= j <= v@.len(),
                slash_from(v@, i as int) == slash_from(v@, j as int),
            decreases v@.len() - j,
        {
            j = j + 1;
        }
        proof {
            assert(slash_from(v@, i as int) == j);
        }
        if j == i || (j == i + 1 && v[i] == '.' && i != 0) {
        } else {
            out.push((i, j));
            proof {
                let rest = spans_from(v@, j + 1);
                assert(done + (seq![(i as int, j as int)] + rest) =~= done.push(
                    (i as int, j as int),
                ) + rest);
                done = done.push((i as int, j as int));
            }
        }
        if j < v.len() {
            i = j + 1;
        } else {
            i = j;
            proof {
                assert(spans_from(v@, j + 1) =~= spans_from(v@, j as int));
            }
        }
    }
    proof {
        assert(done + Seq::<(int, int)>::empty() =~= done);
    }
    out
}

/// The components of a path, without its root.
pub fn component_list(p: &str) -> (r: Vec<String>)
    ensures
        views(r@) == components(p@),
{
    let v = chars_of(p);
    let spans = component_spans(&v);
    let mut out: Vec<String> = Vec::new();
    proof {
        spans_in_range(p@, 0);
    }
    let mut k: usize = 0;
    while k < spans.len()
        invariant
            0 <= k <= spans@.len(),
            v@ == p@,
            out@.len() == k,
            spans@.len() == spans_from(p@, 0).len(),
            forall|m: int|
                0 <= m < spans@.len() ==> (#[trigger] spans@[m]).0 == spans_from(p@, 0)[m].0
                    && spans@[m].1 == spans_from(p@, 0)[m].1,
            forall|m: int|
                0 <= m < spans_from(p@, 0).len() ==> 0 <= (#[trigger] spans_from(p@, 0)[m]).0
                    < spans_from(p@, 0)[m].1 <= p@.len(),
            forall|m: int| 0 <= m < k ==> (#[trigger] out@[m])@ == components(p@)[m],
        decreases spans@.len() - k,
    {
        let (i, j) = spans[k];
        proof {
            let m = k as int;
            assert(0 <= spans_from(p@, 0)[m].0 < spans_from(p@, 0)[m].1 <= p@.len());
        }
        out.push(string_between(&v, i, j));
        k = k + 1;
    }
    proof {
        assert(views(out@) =~= components(p@));
    }
    out
}

/// A path without dots, repeated slashes and a slash at its end.
pub fn normalize(p: &str) -> (r: String)
    ensures
        r@ == normalized(p@),
{
    let all = component_list(p);
    let mut kept: Vec<String> = Vec::new();
    let mut k: usize = 0;
    proof {
        assert(components(p@).take(0) =~= Seq::<Seq<char>>::empty());
        reveal_strlit(".");
        assert("."@ =~= seq!['.']);
    }
    while k < all.len()
        invariant
            0 <= k <= all@.len(),
            views(all@) == components(p@),
            "."@ == seq!['.'],
            views(kept@) == solid(components(p@).take(k as int)),
        decreases all@.len() - k,
    {
        let ghost t = components(p@).take(k + 1);
        let ghost before = kept@;
        proof {
            assert(t.drop_last() =~= components(p@).take(k as int));
            assert(t.last() == views(all@)[k as int]);
        }
        if !text::same(all[k].as_str(), ".") {
            let c = all[k].clone();
            kept.push(c);
            proof {
                assert(views(kept@) =~= views(before).push(all@[k as int]@));
            }
        }
        k = k + 1;
    }
    proof {
        assert(components(p@).take(all@.len() as int) =~= components(p@));
    }
    let tail = text::join(&kept, "/");
    if is_absolute(p) {
        let mut r = "/".to_owned();
        r.append(tail.as_str());
        r
    } else {
        tail
    }
}

/// What is left of `p` without its leading part `base`, where it has that.
pub fn strip_prefix(p: &str, base: &str) -> (r: Option<String>)
    ensures
        match r {
            Some(rest) => is_under(p@, base@) && rest@ == remainder(p@, base@),
            None => !is_under(p@, base@),
        },
{
    let c = component_list(p);
    let b = component_list(base);
    let p_abs = is_absolute(p);
    let b_abs = is_absolute(base);
    proof {
        spans_in_range(p@, 0);
        assert(components(p@).len() == views(c@).len());
        assert(components(base@).len() == views(b@).len());
    }
    if b.len() > c.len() || (p_abs != b_abs && (b.len() > 0 || b_abs)) {
        return None;
    }
    let mut k: usize = 0;
    while k < b.len()
        invariant
            0 <= k <= b@.len() <= c@.len(),
            views(c@) == components(p@),
            views(b@) == components(base@),
            forall|m: int| 0 <= m < k ==> (#[trigger] c@[m])@ == b@[m]@,
        decreases b@.len() - k,
    {
        if !text::same(c[k].as_str(), b[k].as_str()) {
            proof {
                assert(components(p@).take(components(base@).len() as int)[k as int]
                    == views(c@)[k as int]);
                assert(components(base@)[k as int] == views(b@)[k as int]);
            }
            return None;
        }
        k = k + 1;
    }
    proof {
        assert forall|m: int| 0 <= m < b@.len() implies components(p@).take(
            components(base@).len() as int,
        )[m] == components(base@)[m] by {
            assert(views(c@)[m] == c@[m]@);
            assert(views(b@)[m] == b@[m]@);
        }
        assert(components(p@).take(components(base@).len() as int) =~= components(base@));
    }
    let v = chars_of(p);
    let spans = component_spans(&v);
    if p_abs && !b_abs {
        if spans.len() == 0 {
            Some(string_between(&v, 0, 1))
        } else {
            let (_, end) = spans[spans.len() - 1];
            Some(string_between(&v, 0, end))
        }
    } else if b.len() >= spans.len() {
        Some(String::new())
    } else {
        let (first, _) = spans[b.len()];
        let (_, end) = spans[spans.len() - 1];
        Some(string_between(&v, first, end))
    }
}

/// A component of a path can begin at `i`: at the start or behind a slash.
pub open spec fn begins_component(p: Seq<char>, i: int) -> bool {
    0 <= i <= p.len() && (i == 0 || p[i - 1] == '/')
}

/// A relative path of ordinary components: it has no doubled slash, no slash at
/// its end, and no component of one or two dots.
pub open spec fn is_plain(p: Seq<char>) -> bool {
    forall|i: int| #[trigger]
        begins_component(p, i) ==> i < slash_from(p, i) && p.subrange(i, slash_from(p, i)) != seq![
            '.',
        ] && p.subrange(i, slash_from(p, i)) != seq!['.', '.']
}

proof fn slash_from_bounds(p: Seq<char>, i: int)
    requires
        0 <= i <= p.len(),
    ensures
        i <= slash_from(p, i) <= p.len(),
        slash_from(p, i) < p.len() ==> p[slash_from(p, i)] == '/',
        forall|k: int| i <= k < slash_from(p, i) ==> p[k] != '/',
    decreases p.len() - i,
{
    if i < p.len() && p[i] != '/' {
        slash_from_bounds(p, i + 1);
    }
}

proof fn slash_from_is(p: Seq<char>, i: int, j: int)
    requires
        0 <= i <= j <= p.len(),
        j < p.len() ==> p[j] == '/',
        forall|k: int| i <= k < j ==> p[k] != '/',
    ensures
        slash_from(p, i) == j,
{
    slash_from_bounds(p, i);
    let f = slash_from(p, i);
    if f < j {
        assert(p[f] != '/');
    }
}

/// Spans moved by `by`.
spec fn moved(spans: Seq<(int, int)>, by: int) -> Seq<(int, int)> {
    Seq::new(spans.len(), |k: int| (spans[k].0 + by, spans[k].1 + by))
}

/// The components of an ordinary path reach from its start to its end.
proof fn plain_spans(p: Seq<char>, i: int)
    requires
        is_plain(p),
        begins_component(p, i),
    ensures
        spans_from(p, i).len() > 0,
        spans_from(p, i)[0].0 == i,
        spans_from(p, i).last().1 == p.len(),
    decreases p.len() - i,
{
    slash_from_bounds(p, i);
    let j = slash_from(p, i);
    if j == i + 1 && p[i] == '.' {
        assert(p.subrange(i, j) =~= seq!['.']);
    }
    let rest = spans_from(p, j + 1);
    assert(spans_from(p, i) == seq![(i, j)] + rest);
    if j < p.len() {
        assert(begins_component(p, j + 1));
        plain_spans(p, j + 1);
        assert(spans_from(p, i).last() == rest.last());
    }
}

/// Behind other text the components of an ordinary path are the same.
proof fn spans_behind(all: Seq<char>, p: Seq<char>, off: int, i: int)
    requires
        is_plain(p),
        begins_component(p, i),
        0 <= off,
        all.len() == off + p.len(),
        all.subrange(off, all.len() as int) == p,
    ensures
        spans_from(all, off + i) == moved(spans_from(p, i), off),
    decreases p.len() - i,
{
    slash_from_bounds(p, i);
    let j = slash_from(p, i);
    assert forall|k: int| 0 <= k < p.len() implies all[off + k] == #[trigger] p[k] by {
        assert(all.subrange(off, all.len() as int)[k] == all[off + k]);
    }
    assert forall|k: int| off + i <= k < off + j implies all[k] != '/' by {
        assert(p[k - off] != '/');
    }
    if j < p.len() {
        assert(all[off + j] == p[j]);
    }
    slash_from_is(all, off + i, off + j);
    assert(all[off + i] == p[i]);
    if j == i + 1 && p[i] == '.' {
        assert(p.subrange(i, j) =~= seq!['.']);
    }
    if j < p.len() {
        assert(begins_component(p, j + 1));
        spans_behind(all, p, off, j + 1);
    } else {
        assert(spans_from(p, j + 1) =~= Seq::<(int, int)>::empty());
        assert(spans_from(all, off + j + 1) =~= Seq::<(int, int)>::empty());
    }
    assert(spans_from(all, off + i) =~= moved(spans_from(p, i), off));
}

/// The components of a path that goes on behind `root` are those of `root` and
/// those behind it.
proof fn spans_before(all: Seq<char>, root: Seq<char>, off: int, i: int)
    requires
        0 < root.len() <= off <= all.len(),
        all.take(root.len() as int) == root,
        off == root.len() ==> root.last() == '/',
        off != root.len() ==> off == root.len() + 1 && root.last() != '/' && all[off - 1] == '/',
        0 <= i <= off,
        i >= root.len() ==> i == off,
    ensures
        spans_from(all, i) == spans_from(root, i) + spans_from(all, off),
    decreases off - i,
{
    if i == off {
        assert(spans_from(root, i) =~= Seq::<(int, int)>::empty());
        assert(spans_from(root, i) + spans_from(all, off) =~= spans_from(all, off));
    } else {
        slash_from_bounds(root, i);
        let j = slash_from(root, i);
        assert forall|k: int| 0 <= k < root.len() implies all[k] == #[trigger] root[k] by {
            assert(all.take(root.len() as int)[k] == all[k]);
        }
        assert forall|k: int| i <= k < j implies all[k] != '/' by {
            assert(root[k] != '/');
        }
        if j < root.len() {
            assert(all[j] == root[j]);
        } else {
            assert(root[root.len() - 1] != '/');
        }
        slash_from_is(all, i, j);
        assert(all[i] == root[i]);
        spans_before(all, root, off, j + 1);
        assert(spans_from(all, i) =~= spans_from(root, i) + spans_from(all, off));
    }
}

/// An ordinary path joined to an absolute one is under it, and is what is left
/// of it there.
pub proof fn joined_is_under(root: Seq<char>, p: Seq<char>)
    requires
        is_absolute_path(root),
        is_plain(p),
    ensures
        is_absolute_path(joined_path(root, p)),
        is_under(joined_path(root, p), root),
        remainder(joined_path(root, p), root) == p,
{
    assert(begins_component(p, 0));
    slash_from_bounds(p, 0);
    assert(p[0] != '/');
    reveal_strlit("/");
    let all = joined_path(root, p);
    let off = all.len() - p.len();
    assert(all.subrange(off, all.len() as int) =~= p);
    assert(all.take(root.len() as int) =~= root);
    plain_spans(p, 0);
    spans_behind(all, p, off, 0);
    spans_before(all, root, off, 0);
    spans_in_range(root, 0);
    let a = spans_from(root, 0);
    let b = spans_from(p, 0);
    let c = spans_from(all, 0);
    let n = components(root).len() as int;
    assert(c == a + moved(b, off));
    assert(components(all).take(n) =~= components(root)) by {
        assert forall|k: int| 0 <= k < n implies components(all).take(n)[k] == components(
            root,
        )[k] by {
            assert(c[k] == a[k]);
            assert(all.subrange(a[k].0, a[k].1) =~= root.subrange(a[k].0, a[k].1)) by {
                assert forall|m: int| a[k].0 <= m < a[k].1 implies all[m] == root[m] by {
                    assert(all.take(root.len() as int)[m] == all[m]);
                }
            }
        }
    }
    assert(all[0] == all.take(root.len() as int)[0]);
    assert(c[n] == moved(b, off)[0]);
    assert(c.last() == moved(b, off).last());
    assert(moved(b, off).last().1 == b.last().1 + off);
}

proof fn plain_rejoins(p: Seq<char>, i: int)
    requires
        is_plain(p),
        begins_component(p, i),
    ensures
        joined(span_texts(p, spans_from(p, i)), "/"@) == p.subrange(i, p.len() as int),
        forall|k: int|
            0 <= k < spans_from(p, i).len() ==> #[trigger] span_texts(p, spans_from(p, i))[k] != seq![
                '.',
            ],
    decreases p.len() - i,
{
    reveal_strlit("/");
    plain_spans(p, i);
    slash_from_bounds(p, i);
    let j = slash_from(p, i);
    if j == i + 1 && p[i] == '.' {
        assert(p.subrange(i, j) =~= seq!['.']);
    }
    let rest = spans_from(p, j + 1);
    let spans = spans_from(p, i);
    assert(spans == seq![(i, j)] + rest);
    let texts = span_texts(p, spans);
    let x = p.subrange(i, j);
    assert(texts =~= seq![x] + span_texts(p, rest));
    assert(x != seq!['.']);
    if j < p.len() {
        assert(begins_component(p, j + 1));
        plain_rejoins(p, j + 1);
        plain_spans(p, j + 1);
        joined_parts(seq![x], span_texts(p, rest), "/"@);
        assert(seq![x].len() == 1);
        assert(joined(seq![x], "/"@) == x);
        assert(p.subrange(i, p.len() as int) =~= x + "/"@ + p.subrange(j + 1, p.len() as int));
        assert forall|k: int| 0 <= k < spans.len() implies #[trigger] texts[k] != seq!['.'] by {
            if k > 0 {
                assert(texts[k] == span_texts(p, rest)[k - 1]);
            }
        }
    } else {
        assert(rest =~= Seq::<(int, int)>::empty());
        assert(texts =~= seq![x]);
    }
}

/// Texts joined in two parts are joined as a whole.
proof fn joined_parts(a: Seq<Seq<char>>, b: Seq<Seq<char>>, sep: Seq<char>)
    requires
        a.len() > 0,
        b.len() > 0,
    ensures
        joined(a + b, sep) == joined(a, sep) + sep + joined(b, sep),
    decreases b.len(),
{
    let all = a + b;
    assert(all.drop_last() =~= a + b.drop_last());
    assert(all.last() == b.last());
    if b.len() == 1 {
        assert(all.drop_last() =~= a);
        assert(joined(b, sep) == b[0]);
    } else {
        joined_parts(a, b.drop_last(), sep);
        assert(joined(a, sep) + sep + joined(b.drop_last(), sep) + sep + b.last() =~= joined(a, sep)
            + sep + (joined(b.drop_last(), sep) + sep + b.last()));
    }
}

proof fn solid_stays(c: Seq<Seq<char>>)
    requires
        forall|k: int| 0 <= k < c.len() ==> #[trigger] c[k] != seq!['.'],
    ensures
        solid(c) == c,
    decreases c.len(),
{
    if c.len() > 0 {
        let d = c.drop_last();
        assert forall|k: int| 0 <= k < d.len() implies #[trigger] d[k] != seq!['.'] by {
            assert(c[k] != seq!['.']);
        }
        solid_stays(d);
        assert(c[c.len() - 1] != seq!['.']);
        assert(d.push(c.last()) =~= c);
    } else {
        assert(solid(c) =~= c);
    }
}

proof fn solid_of_parts(a: Seq<Seq<char>>, b: Seq<Seq<char>>)
    ensures
        solid(a + b) == solid(a) + solid(b),
    decreases b.len(),
{
    if b.len() == 0 {
        assert(a + b =~= a);
        assert(solid(a) + solid(b) =~= solid(a));
    } else {
        solid_of_parts(a, b.drop_last());
        assert((a + b).drop_last() =~= a + b.drop_last());
        assert((a + b).last() == b.last());
        assert((solid(a) + solid(b.drop_last())).push(b.last()) =~= solid(a) + solid(
            b.drop_last(),
        ).push(b.last()));
    }
}

proof fn moved_texts(all: Seq<char>, p: Seq<char>, off: int)
    requires
        is_plain(p),
        0 <= off,
        all.len() == off + p.len(),
        all.subrange(off, all.len() as int) == p,
    ensures
        span_texts(all, spans_from(all, off)) == components(p),
{
    assert(begins_component(p, 0));
    spans_behind(all, p, off, 0);
    spans_in_range(p, 0);
    let s = spans_from(p, 0);
    assert(span_texts(all, moved(s, off)) =~= components(p)) by {
        assert forall|k: int| 0 <= k < s.len() implies span_texts(all, moved(s, off))[k]
            == components(p)[k] by {
            assert(all.subrange(off + s[k].0, off + s[k].1) =~= p.subrange(s[k].0, s[k].1)) by {
                assert forall|m: int| 0 <= m < p.len() implies all[off + m] == #[trigger] p[m] by {
                    assert(all.subrange(off, all.len() as int)[m] == all[off + m]);
                }
            }
        }
    }
}

/// An ordinary path is its own normal form, and so are the paths that only
/// name it otherwise: with a dot in front, or with a slash at the end.
pub proof fn other_names_normalize(p: Seq<char>)
    requires
        is_plain(p),
    ensures
        normalized(p) == p,
        normalized("./"@ + p) == p,
        normalized(p + "/"@) == p,
        normalized("/"@ + p) == "/"@ + p,
{
    reveal_strlit("./");
    reveal_strlit("/");
    assert(begins_component(p, 0));
    plain_rejoins(p, 0);
    plain_spans(p, 0);
    slash_from_bounds(p, 0);
    assert(p[0] != '/');
    solid_stays(components(p));
    assert(p.subrange(0, p.len() as int) =~= p);
    let dotted = "./"@ + p;
    assert(dotted.subrange(2, dotted.len() as int) =~= p);
    moved_texts(dotted, p, 2);
    slash_from_is(dotted, 0, 1);
    let behind = spans_from(dotted, 2);
    assert(spans_from(dotted, 0) == seq![(0int, 1int)] + behind);
    let dot = seq![seq!['.']];
    assert(dotted.subrange(0, 1) =~= seq!['.']);
    assert(components(dotted) =~= dot + span_texts(dotted, behind));
    solid_of_parts(dot, components(p));
    assert(solid(dot) =~= Seq::<Seq<char>>::empty()) by {
        assert(dot.last() == seq!['.']);
        assert(dot.drop_last() =~= Seq::<Seq<char>>::empty());
        assert(solid(dot.drop_last()) =~= Seq::<Seq<char>>::empty());
    }
    assert(Seq::<Seq<char>>::empty() + components(p) =~= components(p));
    with_slash(p);
    let rooted = "/"@ + p;
    assert(rooted.subrange(1, rooted.len() as int) =~= p);
    moved_texts(rooted, p, 1);
    slash_from_is(rooted, 0, 0);
    assert(spans_from(rooted, 0) == spans_from(rooted, 1));
    assert(is_absolute_path(rooted));
}

proof fn with_slash(p: Seq<char>)
    requires
        is_plain(p),
    ensures
        components(p + "/"@) == components(p),
        (p + "/"@)[0] != '/',
{
    reveal_strlit("/");
    let s = p + "/"@;
    assert(begins_component(p, 0));
    slash_from_bounds(p, 0);
    plain_ends(p);
    assert(s.take(p.len() as int) =~= p);
    spans_before(s, p, s.len() as int, 0);
    assert(spans_from(s, s.len() as int) =~= Seq::<(int, int)>::empty());
    assert(spans_from(s, 0) =~= spans_from(p, 0));
    spans_in_range(p, 0);
    let spans = spans_from(p, 0);
    assert(components(s) =~= components(p)) by {
        assert forall|k: int| 0 <= k < spans.len() implies components(s)[k] == components(p)[k] by {
            assert(s.subrange(spans[k].0, spans[k].1) =~= p.subrange(spans[k].0, spans[k].1));
        }
    }
}

proof fn plain_ends(p: Seq<char>)
    requires
        is_plain(p),
    ensures
        p.len() > 0,
        p.last() != '/',
{
    assert(begins_component(p, 0));
    slash_from_bounds(p, 0);
    if p.last() == '/' {
        assert(begins_component(p, p.len() as int));
        slash_from_bounds(p, p.len() as int);
    }
}

/// Between two ordinary paths a slash counts once, and a single dot not at
/// all.
pub proof fn spare_slashes_and_dots_go(a: Seq<char>, b: Seq<char>)
    requires
        is_plain(a),
        is_plain(b),
    ensures
        normalized(a + "/"@ + b) == a + "/"@ + b,
        normalized(a + "//"@ + b) == a + "/"@ + b,
        normalized(a + "/./"@ + b) == a + "/"@ + b,
{
    reveal_strlit("/");
    reveal_strlit("//");
    reveal_strlit("/./");
    let n = a.len() as int;
    let front = a + "/"@;
    let one = a + "/"@ + b;
    assert(one.take(n + 1) =~= front);
    assert(one.subrange(n + 1, one.len() as int) =~= b);
    joined_by(a, b, one, n + 1);
    let two = a + "//"@ + b;
    assert(two.take(n + 1) =~= front);
    assert(two.subrange(n + 2, two.len() as int) =~= b);
    slash_from_is(two, n + 1, n + 1);
    joined_by(a, b, two, n + 2);
    let three = a + "/./"@ + b;
    assert(three.take(n + 1) =~= front);
    assert(three.subrange(n + 3, three.len() as int) =~= b);
    slash_from_is(three, n + 1, n + 2);
    joined_by(a, b, three, n + 3);
}

proof fn joined_by(a: Seq<char>, b: Seq<char>, all: Seq<char>, off: int)
    requires
        is_plain(a),
        is_plain(b),
        a.len() + 1 <= off <= all.len(),
        all.take(a.len() as int + 1) == a + "/"@,
        all.subrange(off, all.len() as int) == b,
        spans_from(all, a.len() as int + 1) == spans_from(all, off),
    ensures
        normalized(all) == a + "/"@ + b,
{
    reveal_strlit("/");
    let front = a + "/"@;
    let n = front.len() as int;
    assert(begins_component(a, 0));
    assert(begins_component(b, 0));
    with_slash(a);
    spans_before(all, front, n, 0);
    moved_texts(all, b, off);
    spans_in_range(front, 0);
    let (s, t) = (spans_from(front, 0), spans_from(all, n));
    assert(spans_from(all, 0) == s + t);
    assert(components(all) =~= components(a) + components(b)) by {
        assert forall|k: int| 0 <= k < s.len() implies components(all)[k] == components(a)[k] by {
            assert(all.subrange(s[k].0, s[k].1) =~= front.subrange(s[k].0, s[k].1)) by {
                assert forall|m: int| 0 <= m < n implies all[m] == #[trigger] front[m] by {
                    assert(all.take(n)[m] == all[m]);
                }
            }
            assert(components(front)[k] == components(a)[k]);
        }
        assert forall|k: int| 0 <= k < t.len() implies components(all)[s.len() + k] == components(
            b,
        )[k] by {
            assert(span_texts(all, t)[k] == components(b)[k]);
        }
    }
    plain_rejoins(a, 0);
    plain_rejoins(b, 0);
    plain_spans(a, 0);
    plain_spans(b, 0);
    solid_stays(components(a));
    solid_stays(components(b));
    solid_of_parts(components(a), components(b));
    joined_parts(components(a), components(b), "/"@);
    assert(a.subrange(0, a.len() as int) =~= a);
    assert(b.subrange(0, b.len() as int) =~= b);
    assert(all[0] == all.take(n)[0]);
}

} // verus!
