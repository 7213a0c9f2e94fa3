//! Strings as sequences of characters: searching, splitting, joining,
//! replacing and ordering.

use vstd::prelude::*;

verus! {

/// `String::push` appends one character.
pub assume_specification[ String::push ](s: &mut String, c: char)
    ensures
        final(s)@ == old(s)@.push(c),
;

/// The characters with the Unicode `White_Space` property.
pub open spec fn is_space(c: char) -> bool {
    ||| 0x9 <= c as int <= 0xd
    ||| c as int == 0x20
    ||| c as int == 0x85
    ||| c as int == 0xa0
    ||| c as int == 0x1680
    ||| 0x2000 <= c as int <= 0x200a
    ||| c as int == 0x2028
    ||| c as int == 0x2029
    ||| c as int == 0x202f
    ||| c as int == 0x205f
    ||| c as int == 0x3000
}

/// `pat` stands in `s` at position `i`.
pub open spec fn matches_at(s: Seq<char>, pat: Seq<char>, i: int) -> bool {
    &&& 0 <= i
    &&& i + pat.len() <= s.len()
    &&& s.subrange(i, i + pat.len()) == pat
}

/// `pat` stands somewhere in `s`.
pub open spec fn occurs(s: Seq<char>, pat: Seq<char>) -> bool {
    exists|i: int| matches_at(s, pat, i)
}

/// `s` begins with `pat`.
pub open spec fn has_prefix(s: Seq<char>, pat: Seq<char>) -> bool {
    matches_at(s, pat, 0)
}

/// The first position at or after `i` where `pat` stands in `s`.
pub open spec fn find_from(s: Seq<char>, pat: Seq<char>, i: int) -> Option<int>
    decreases s.len() + 1 - i,
{
    if i < 0 || i + pat.len() > s.len() {
        None
    } else if matches_at(s, pat, i) {
        Some(i)
    } else {
        find_from(s, pat, i + 1)
    }
}

/// `s` from position `i` on, with every non-overlapping occurrence of `pat`,
/// taken from the left, replaced by `rep`.
pub open spec fn replaced_from(s: Seq<char>, pat: Seq<char>, rep: Seq<char>, i: int) -> Seq<char>
    decreases s.len() - i,
{
    if i < 0 || i >= s.len() {
        Seq::empty()
    } else if pat.len() > 0 && matches_at(s, pat, i) {
        rep + replaced_from(s, pat, rep, i + pat.len())
    } else {
        seq![s[i]] + replaced_from(s, pat, rep, i + 1)
    }
}

/// `s` with every occurrence of the non-empty `pat` replaced by `rep`.
pub open spec fn replaced(s: Seq<char>, pat: Seq<char>, rep: Seq<char>) -> Seq<char> {
    replaced_from(s, pat, rep, 0)
}

/// The pieces of `s` from position `i` on that stand between occurrences of
/// the non-empty `sep`.
pub open spec fn pieces_from(s: Seq<char>, sep: Seq<char>, i: int) -> Seq<Seq<char>>
    decreases s.len() - i,
{
    match find_from(s, sep, i) {
        Some(j) => if sep.len() > 0 && i <= j && j + sep.len() <= s.len() {
            seq![s.subrange(i, j)] + pieces_from(s, sep, j + sep.len())
        } else {
            seq![s.subrange(i, s.len() as int)]
        },
        None => seq![s.subrange(i, s.len() as int)],
    }
}

/// The pieces of `s` between occurrences of the non-empty `sep`.
pub open spec fn pieces(s: Seq<char>, sep: Seq<char>) -> Seq<Seq<char>> {
    pieces_from(s, sep, 0)
}

/// `s` without the white space it begins with.
pub open spec fn trimmed_start(s: Seq<char>) -> Seq<char>
    decreases s.len(),
{
    if s.len() > 0 && is_space(s[0]) {
        trimmed_start(s.subrange(1, s.len() as int))
    } else {
        s
    }
}

/// `s` without the white space it ends with.
pub open spec fn trimmed_end(s: Seq<char>) -> Seq<char>
    decreases s.len(),
{
    if s.len() > 0 && is_space(s[s.len() - 1]) {
        trimmed_end(s.subrange(0, s.len() - 1))
    } else {
        s
    }
}

/// `s` without the white space at either end.
pub open spec fn trimmed(s: Seq<char>) -> Seq<char> {
    trimmed_end(trimmed_start(s))
}

/// A line without the carriage return that may end it.
pub open spec fn without_cr(s: Seq<char>) -> Seq<char> {
    if s.len() > 0 && s[s.len() - 1] == '\r' {
        s.subrange(0, s.len() - 1)
    } else {
        s
    }
}

/// The position of the first line feed at or after `i`, or the length.
pub open spec fn line_end(s: Seq<char>, i: int) -> int
    decreases s.len() - i,
{
    if i < 0 || i >= s.len() {
        s.len() as int
    } else if s[i] == '\n' {
        i
    } else {
        line_end(s, i + 1)
    }
}

/// The lines of `s` from position `i` on. A line feed ends a line, a carriage
/// return before it belongs to the ending, and the end of the text ends the
/// last line where that one is not empty.
pub open spec fn lines_from(s: Seq<char>, i: int) -> Seq<Seq<char>>
    decreases s.len() - i,
{
    if i < 0 || i >= s.len() {
        Seq::empty()
    } else {
        let j = line_end(s, i);
        if i <= j < s.len() {
            seq![without_cr(s.subrange(i, j))] + lines_from(s, j + 1)
        } else {
            seq![s.subrange(i, s.len() as int)]
        }
    }
}

/// The lines of `s`.
pub open spec fn lines_of(s: Seq<char>) -> Seq<Seq<char>> {
    lines_from(s, 0)
}

/// A line counts where it is not blank and is no comment.
pub open spec fn counts(line: Seq<char>) -> bool {
    trimmed(line).len() > 0 && trimmed(line)[0] != '#'
}

/// The lines that count, trimmed.
pub open spec fn counting(lines: Seq<Seq<char>>) -> Seq<Seq<char>>
    decreases lines.len(),
{
    if lines.len() == 0 {
        Seq::empty()
    } else if counts(lines.last()) {
        counting(lines.drop_last()).push(trimmed(lines.last()))
    } else {
        counting(lines.drop_last())
    }
}

/// The position of the first white space at or after `i`, or the length.
pub open spec fn word_end(s: Seq<char>, i: int) -> int
    decreases s.len() - i,
{
    if i < 0 || i >= s.len() {
        s.len() as int
    } else if is_space(s[i]) {
        i
    } else {
        word_end(s, i + 1)
    }
}

/// The maximal runs of `s` from position `i` on that hold no white space.
pub open spec fn words_from(s: Seq<char>, i: int) -> Seq<Seq<char>>
    decreases s.len() - i,
{
    if i < 0 || i >= s.len() {
        Seq::empty()
    } else if is_space(s[i]) {
        words_from(s, i + 1)
    } else {
        let j = word_end(s, i);
        if i < j <= s.len() {
            seq![s.subrange(i, j)] + words_from(s, j)
        } else {
            Seq::empty()
        }
    }
}

/// The maximal runs of `s` that hold no white space.
pub open spec fn words_of(s: Seq<char>) -> Seq<Seq<char>> {
    words_from(s, 0)
}

/// The views of a sequence of strings.
pub open spec fn views(v: Seq<String>) -> Seq<Seq<char>> {
    Seq::new(v.len(), |i: int| v[i]@)
}

/// The strings of `v` with `sep` between neighbours.
pub open spec fn joined(v: Seq<Seq<char>>, sep: Seq<char>) -> Seq<char>
    decreases v.len(),
{
    if v.len() == 0 {
        Seq::empty()
    } else if v.len() == 1 {
        v[0]
    } else {
        joined(v.drop_last(), sep) + sep + v.last()
    }
}

/// The decimal digits of `n`.
pub open spec fn digits(n: nat) -> Seq<char>
    decreases n,
{
    if n < 10 {
        seq![digit_char(n)]
    } else {
        digits(n / 10).push(digit_char(n % 10))
    }
}

/// The character of one decimal digit.
pub open spec fn digit_char(d: nat) -> char {
    (48 + d) as char
}

/// An integer as decimal text, with a minus sign where it is negative.
pub open spec fn decimal(n: int) -> Seq<char> {
    if n < 0 {
        seq!['-'] + digits((-n) as nat)
    } else {
        digits(n as nat)
    }
}

/// The order of two texts by their characters, a proper prefix first.
pub open spec fn before(a: Seq<char>, b: Seq<char>) -> bool
    decreases a.len(),
{
    if b.len() == 0 {
        false
    } else if a.len() == 0 {
        true
    } else if a[0] != b[0] {
        (a[0] as int) < (b[0] as int)
    } else {
        before(a.subrange(1, a.len() as int), b.subrange(1, b.len() as int))
    }
}

/// The number of bytes of a character in UTF-8.
pub open spec fn utf8_width(c: char) -> nat {
    if (c as int) < 0x80 {
        1
    } else if (c as int) < 0x800 {
        2
    } else if (c as int) < 0x10000 {
        3
    } else {
        4
    }
}

/// The number of characters, from position `i` on, that fit in `room` bytes.
pub open spec fn fitting(s: Seq<char>, i: int, room: int) -> nat
    decreases s.len() - i,
{
    if i < 0 || i >= s.len() || utf8_width(s[i]) > room {
        0
    } else {
        1 + fitting(s, i + 1, room - utf8_width(s[i]))
    }
}

/// The longest prefix of `s` that takes at most `room` bytes.
pub open spec fn clipped(s: Seq<char>, room: int) -> Seq<char> {
    s.take(fitting(s, 0, room) as int)
}

/// The views of a map's values.
pub open spec fn value_views(m: Map<Seq<char>, String>) -> Map<Seq<char>, Seq<char>> {
    Map::new(|k: Seq<char>| m.contains_key(k), |k: Seq<char>| m[k]@)
}

/// The characters of a string.
pub fn chars_of(s: &str) -> (v: Vec<char>)
    ensures
        v@ == s@,
{
    let mut v: Vec<char> = Vec::new();
    for c in it: s.chars()
        invariant
            it.seq() == s@,
            v@ == s@.take(it.index() as int),
    {
        proof {
            assert(s@.take(it.index() as int + 1) =~= s@.take(it.index() as int).push(c));
        }
        v.push(c);
    }
    proof {
        assert(s@.take(s@.len() as int) =~= s@);
    }
    v
}

/// The string made of the characters from `i` up to `j`.
pub fn string_between(v: &Vec<char>, i: usize, j: usize) -> (s: String)
    requires
        i <= j <= v@.len(),
    ensures
        s@ == v@.subrange(i as int, j as int),
{
    let mut s = String::new();
    let mut k: usize = i;
    while k < j
        invariant
            i <= k <= j <= v@.len(),
            s@ == v@.subrange(i as int, k as int),
        decreases j - k,
    {
        s.push(v[k]);
        k = k + 1;
        proof {
            assert(v@.subrange(i as int, k as int) =~= v@.subrange(i as int, k - 1).push(v@[k - 1]));
        }
    }
    s
}

/// Whether `c` is white space.
pub fn space(c: char) -> (b: bool)
    ensures
        b == is_space(c),
{
    let n: u32 = c as u32;
    (0x9 <= n && n <= 0xd) || n == 0x20 || n == 0x85 || n == 0xa0 || n == 0x1680 || (0x2000 <= n && n
        <= 0x200a) || n == 0x2028 || n == 0x2029 || n == 0x202f || n == 0x205f || n == 0x3000
}

fn width(c: char) -> (n: usize)
    ensures
        n == utf8_width(c),
{
    let n: u32 = c as u32;
    if n < 0x80 {
        1
    } else if n < 0x800 {
        2
    } else if n < 0x10000 {
        3
    } else {
        4
    }
}

/// The number of characters that fit in `room` bytes.
pub fn count_fitting(v: &Vec<char>, room: usize) -> (n: usize)
    ensures
        n == fitting(v@, 0, room as int),
        n <= v@.len(),
{
    let mut left: usize = room;
    let mut i: usize = 0;
    while i < v.len() && width(v[i]) <= left
        invariant
            0 <= i <= v@.len(),
            fitting(v@, 0, room as int) == i + fitting(v@, i as int, left as int),
        decreases v@.len() - i,
    {
        left = left - width(v[i]);
        i = i + 1;
    }
    i
}

/// The longest prefix of `s` that takes at most `room` bytes.
pub fn clip(s: &str, room: usize) -> (r: String)
    ensures
        r@ == clipped(s@, room as int),
{
    let v = chars_of(s);
    let n: usize = count_fitting(&v, room);
    proof {
        assert(s@.take(n as int) =~= s@.subrange(0, n as int));
    }
    string_between(&v, 0, n)
}

/// Where every character takes one byte, clipping counts characters.
pub proof fn clipped_ascii(s: Seq<char>, room: int)
    requires
        0 <= room,
        forall|i: int| 0 <= i < s.len() ==> (#[trigger] s[i] as int) < 0x80,
    ensures
        clipped(s, room) == s.take(if room < s.len() {
            room
        } else {
            s.len() as int
        }),
{
    fitting_ascii(s, 0, room);
}

proof fn fitting_ascii(s: Seq<char>, i: int, room: int)
    requires
        0 <= i <= s.len(),
        0 <= room,
        forall|i: int| 0 <= i < s.len() ==> (#[trigger] s[i] as int) < 0x80,
    ensures
        fitting(s, i, room) == (if room < s.len() - i {
            room
        } else {
            s.len() - i
        }),
    decreases s.len() - i,
{
    if i < s.len() && room > 0 {
        fitting_ascii(s, i + 1, room - 1);
    }
}

/// Whether two strings hold the same characters.
pub fn same(a: &str, b: &str) -> (r: bool)
    ensures
        r == (a@ == b@),
{
    let x = a.to_owned();
    let y = b.to_owned();
    x == y
}

/// Whether `pat` stands in `v` at position `i`.
pub fn stands_at(v: &Vec<char>, pat: &Vec<char>, i: usize) -> (b: bool)
    ensures
        b == matches_at(v@, pat@, i as int),
{
    if i > v.len() || pat.len() > v.len() - i {
        return false;
    }
    let mut k: usize = 0;
    while k < pat.len()
        invariant
            0 <= k <= pat@.len(),
            i + pat@.len() <= v.len(),
            forall|m: int| 0 <= m < k ==> v@[i + m] == pat@[m],
        decreases pat@.len() - k,
    {
        if v[i + k] != pat[k] {
            proof {
                assert(v@.subrange(i as int, i + pat@.len())[k as int] != pat@[k as int]);
            }
            return false;
        }
        k = k + 1;
    }
    proof {
        assert(v@.subrange(i as int, i + pat@.len()) =~= pat@);
    }
    true
}

/// `find_from` gives the least position at or after `i` where `pat` stands.
pub proof fn find_from_is_least(s: Seq<char>, pat: Seq<char>, i: int)
    requires
        0 <= i,
    ensures
        match find_from(s, pat, i) {
            Some(j) => i <= j && matches_at(s, pat, j) && forall|k: int|
                i <= k < j ==> !matches_at(s, pat, k),
            None => forall|k: int| i <= k ==> !matches_at(s, pat, k),
        },
    decreases s.len() + 1 - i,
{
    if i + pat.len() > s.len() {
    } else if matches_at(s, pat, i) {
    } else {
        find_from_is_least(s, pat, i + 1);
    }
}

/// A text contains `pat` exactly where a search from its start finds it.
pub proof fn occurs_iff_found(s: Seq<char>, pat: Seq<char>)
    ensures
        occurs(s, pat) <==> find_from(s, pat, 0) is Some,
{
    find_from_is_least(s, pat, 0);
}

/// The first position at or after `i` where `pat` stands in `v`.
pub fn find_in(v: &Vec<char>, pat: &Vec<char>, i: usize) -> (r: Option<usize>)
    requires
        i <= v@.len(),
    ensures
        match r {
            Some(j) => find_from(v@, pat@, i as int) == Some(j as int) && j + pat@.len() <= v.len() && i <= j,
            None => find_from(v@, pat@, i as int) is None,
        },
{
    let mut k: usize = i;
    while k <= v.len() && pat.len() <= v.len() - k
        invariant
            i <= k <= v@.len() + 1,
            find_from(v@, pat@, i as int) == find_from(v@, pat@, k as int),
        decreases v@.len() + 1 - k,
    {
        if stands_at(v, pat, k) {
            return Some(k);
        }
        if k == v.len() {
            proof {
                reveal_with_fuel(find_from, 2);
            }
            return None;
        }
        k = k + 1;
    }
    None
}

/// Whether `pat` stands somewhere in `s`.
pub fn contains(s: &str, pat: &str) -> (b: bool)
    ensures
        b == occurs(s@, pat@),
{
    let v = chars_of(s);
    let p = chars_of(pat);
    proof {
        occurs_iff_found(s@, pat@);
    }
    match find_in(&v, &p, 0) {
        Some(_) => true,
        None => false,
    }
}

/// Whether `s` begins with `pat`.
pub fn starts_with(s: &str, pat: &str) -> (b: bool)
    ensures
        b == has_prefix(s@, pat@),
{
    let v = chars_of(s);
    let p = chars_of(pat);
    stands_at(&v, &p, 0)
}

/// `s` without the prefix `pat`, where it has that prefix.
pub fn strip_prefix(s: &str, pat: &str) -> (r: Option<String>)
    ensures
        match r {
            Some(t) => has_prefix(s@, pat@) && t@ == s@.subrange(pat@.len() as int, s@.len() as int),
            None => !has_prefix(s@, pat@),
        },
{
    let v = chars_of(s);
    let p = chars_of(pat);
    if stands_at(&v, &p, 0) {
        Some(string_between(&v, p.len(), v.len()))
    } else {
        None
    }
}

/// `s` with every occurrence of `pat` replaced by `rep`.
pub fn replace(s: &str, pat: &str, rep: &str) -> (r: String)
    requires
        pat@.len() > 0,
    ensures
        r@ == replaced(s@, pat@, rep@),
{
    let v = chars_of(s);
    let p = chars_of(pat);
    let mut out = String::new();
    let mut i: usize = 0;
    while i < v.len()
        invariant
            0 <= i <= v@.len(),
            p@ == pat@,
            v@ == s@,
            p@.len() > 0,
            out@ + replaced_from(s@, pat@, rep@, i as int) == replaced(s@, pat@, rep@),
        decreases v@.len() - i,
    {
        if stands_at(&v, &p, i) {
            proof {
                assert(out@ + (rep@ + replaced_from(s@, pat@, rep@, i + pat@.len())) =~= out@ + rep@
                    + replaced_from(s@, pat@, rep@, i + pat@.len()));
            }
            out.append(rep);
            i = i + p.len();
        } else {
            proof {
                assert(out@ + (seq![s@[i as int]] + replaced_from(s@, pat@, rep@, i + 1))
                    =~= out@.push(s@[i as int]) + replaced_from(s@, pat@, rep@, i + 1));
            }
            out.push(v[i]);
            i = i + 1;
        }
    }
    proof {
        assert(out@ + Seq::<char>::empty() =~= out@);
    }
    out
}

/// A text in which the pattern does not occur is left as it is.
pub proof fn replaced_without_occurrence(s: Seq<char>, pat: Seq<char>, rep: Seq<char>)
    requires
        !occurs(s, pat),
    ensures
        replaced(s, pat, rep) == s,
{
    replaced_tail_without_occurrence(s, pat, rep, 0);
    assert(s.subrange(0, s.len() as int) =~= s);
}

proof fn replaced_tail_without_occurrence(s: Seq<char>, pat: Seq<char>, rep: Seq<char>, i: int)
    requires
        !occurs(s, pat),
        0 <= i <= s.len(),
    ensures
        replaced_from(s, pat, rep, i) == s.subrange(i, s.len() as int),
    decreases s.len() - i,
{
    if i < s.len() {
        assert(!matches_at(s, pat, i));
        replaced_tail_without_occurrence(s, pat, rep, i + 1);
        assert(s.subrange(i, s.len() as int) =~= seq![s[i]] + s.subrange(i + 1, s.len() as int));
    } else {
        assert(s.subrange(i, s.len() as int) =~= Seq::<char>::empty());
    }
}

/// The pieces of `s` between occurrences of `sep`.
pub fn split(s: &str, sep: &str) -> (r: Vec<String>)
    requires
        sep@.len() > 0,
    ensures
        views(r@) == pieces(s@, sep@),
        r@.len() > 0,
{
    let v = chars_of(s);
    let p = chars_of(sep);
    let mut out: Vec<String> = Vec::new();
    let mut i: usize = 0;
    proof {
        assert(views(out@) + pieces_from(s@, sep@, 0) =~= pieces(s@, sep@));
    }
    loop
        invariant
            0 <= i <= v@.len(),
            p@ == sep@,
            v@ == s@,
            p@.len() > 0,
            views(out@) + pieces_from(s@, sep@, i as int) == pieces(s@, sep@),
        decreases v@.len() - i,
    {
        match find_in(&v, &p, i) {
            Some(j) => {
                let piece = string_between(&v, i, j);
                let ghost before_push = out@;
                out.push(piece);
                proof {
                    assert(views(out@) =~= views(before_push).push(s@.subrange(i as int, j as int)));
                    assert(views(out@) + pieces_from(s@, sep@, j + sep@.len()) =~= views(before_push) + (
                    seq![s@.subrange(i as int, j as int)] + pieces_from(s@, sep@, j + sep@.len())));
                }
                i = j + p.len();
            },
            None => {
                let piece = string_between(&v, i, v.len());
                let ghost before_push = out@;
                out.push(piece);
                proof {
                    assert(views(out@) =~= views(before_push) + seq![
                        s@.subrange(i as int, s@.len() as int),
                    ]);
                }
                return out;
            },
        }
    }
}

/// `s` split at the first occurrence of `sep`.
pub fn split_once(s: &str, sep: &str) -> (r: Option<(String, String)>)
    ensures
        match r {
            Some((a, b)) => match find_from(s@, sep@, 0) {
                Some(j) => 0 <= j && j + sep@.len() <= s@.len() && a@ == s@.subrange(0, j) && b@
                    == s@.subrange(j + sep@.len(), s@.len() as int),
                None => false,
            },
            None => find_from(s@, sep@, 0) is None,
        },
{
    let v = chars_of(s);
    let p = chars_of(sep);
    match find_in(&v, &p, 0) {
        Some(j) => Some((string_between(&v, 0, j), string_between(&v, j + p.len(), v.len()))),
        None => None,
    }
}

/// `s` without the white space at either end.
pub fn trim(s: &str) -> (r: String)
    ensures
        r@ == trimmed(s@),
{
    let v = chars_of(s);
    let mut lo: usize = 0;
    proof {
        assert(s@.subrange(0, s@.len() as int) =~= s@);
    }
    while lo < v.len() && space(v[lo])
        invariant
            v@ == s@,
            0 <= lo <= v@.len(),
            trimmed_start(s@) == trimmed_start(s@.subrange(lo as int, s@.len() as int)),
        decreases v@.len() - lo,
    {
        proof {
            let t = s@.subrange(lo as int, s@.len() as int);
            assert(t.subrange(1, t.len() as int) =~= s@.subrange(lo + 1, s@.len() as int));
        }
        lo = lo + 1;
    }
    let ghost mid = s@.subrange(lo as int, s@.len() as int);
    let mut hi: usize = v.len();
    while hi > lo && space(v[hi - 1])
        invariant
            v@ == s@,
            0 <= lo <= hi <= v@.len(),
            trimmed_end(mid) == trimmed_end(s@.subrange(lo as int, hi as int)),
        decreases hi,
    {
        proof {
            let t = s@.subrange(lo as int, hi as int);
            assert(t.subrange(0, t.len() - 1) =~= s@.subrange(lo as int, hi - 1));
        }
        hi = hi - 1;
    }
    string_between(&v, lo, hi)
}

/// The lines of `s`.
pub fn lines(s: &str) -> (r: Vec<String>)
    ensures
        views(r@) == lines_of(s@),
{
    let v = chars_of(s);
    let mut out: Vec<String> = Vec::new();
    let mut i: usize = 0;
    proof {
        assert(views(out@) + lines_from(s@, 0) =~= lines_of(s@));
    }
    while i < v.len()
        invariant
            0 <= i <= v@.len(),
            v@ == s@,
            views(out@) + lines_from(s@, i as int) == lines_of(s@),
        decreases v@.len() - i,
    {
        let mut j: usize = i;
        while j < v.len() && v[j] != '\n'
            invariant
                i <= j <= v@.len(),
                v@ == s@,
                line_end(s@, i as int) == line_end(s@, j as int),
            decreases v@.len() - j,
        {
            j = j + 1;
        }
        let ghost before_push = out@;
        if j < v.len() {
            let mut end: usize = j;
            if j > i && v[j - 1] == '\r' {
                end = j - 1;
            }
            let line = string_between(&v, i, end);
            out.push(line);
            proof {
                let t = s@.subrange(i as int, j as int);
                if end != j {
                    assert(t.subrange(0, t.len() - 1) =~= s@.subrange(i as int, end as int));
                }
                assert(line@ == without_cr(t));
                assert(views(out@) + lines_from(s@, j + 1) =~= views(before_push) + (seq![
                    without_cr(t),
                ] + lines_from(s@, j + 1)));
            }
            i = j + 1;
        } else {
            let line = string_between(&v, i, j);
            out.push(line);
            proof {
                assert(views(out@) + Seq::<Seq<char>>::empty() =~= views(before_push) + seq![
                    s@.subrange(i as int, s@.len() as int),
                ]);
            }
            i = j;
        }
    }
    proof {
        assert(views(out@) + Seq::<Seq<char>>::empty() =~= views(out@));
    }
    out
}

/// The trimmed lines of `s` that are neither blank nor comments.
pub fn significant_lines(s: &str) -> (r: Vec<String>)
    ensures
        views(r@) == counting(lines_of(s@)),
{
    let all = lines(s);
    let mut out: Vec<String> = Vec::new();
    let mut i: usize = 0;
    proof {
        assert(lines_of(s@).take(0) =~= Seq::<Seq<char>>::empty());
    }
    while i < all.len()
        invariant
            0 <= i <= all@.len(),
            views(all@) == lines_of(s@),
            views(out@) == counting(lines_of(s@).take(i as int)),
        decreases all@.len() - i,
    {
        let ghost t = lines_of(s@).take(i + 1);
        let ghost before_push = out@;
        let line = trim(all[i].as_str());
        proof {
            assert(t.drop_last() =~= lines_of(s@).take(i as int));
            assert(t.last() == views(all@)[i as int]);
        }
        let c = chars_of(line.as_str());
        if c.len() > 0 && c[0] != '#' {
            out.push(line);
            proof {
                assert(views(out@) =~= views(before_push).push(line@));
            }
        }
        i = i + 1;
    }
    proof {
        assert(lines_of(s@).take(all@.len() as int) =~= lines_of(s@));
    }
    out
}

/// The maximal runs of `s` that hold no white space.
pub fn words(s: &str) -> (r: Vec<String>)
    ensures
        views(r@) == words_of(s@),
{
    let v = chars_of(s);
    let mut out: Vec<String> = Vec::new();
    let mut i: usize = 0;
    proof {
        assert(views(out@) + words_from(s@, 0) =~= words_of(s@));
    }
    while i < v.len()
        invariant
            0 <= i <= v@.len(),
            v@ == s@,
            views(out@) + words_from(s@, i as int) == words_of(s@),
        decreases v@.len() - i,
    {
        if space(v[i]) {
            i = i + 1;
        } else {
            let mut j: usize = i;
            while j < v.len() && !space(v[j])
                invariant
                    i <= j <= v@.len(),
                    v@ == s@,
                    word_end(s@, i as int) == word_end(s@, j as int),
                decreases v@.len() - j,
            {
                j = j + 1;
            }
            proof {
                reveal_with_fuel(word_end, 2);
            }
            let ghost before_push = out@;
            let word = string_between(&v, i, j);
            out.push(word);
            proof {
                assert(word_end(s@, i as int) == j);
                assert(views(out@) + words_from(s@, j as int) =~= views(before_push) + (seq![
                    s@.subrange(i as int, j as int),
                ] + words_from(s@, j as int)));
            }
            i = j;
        }
    }
    proof {
        assert(views(out@) + Seq::<Seq<char>>::empty() =~= views(out@));
    }
    out
}

/// The strings of `v` with `sep` between neighbours.
pub fn join(v: &Vec<String>, sep: &str) -> (r: String)
    ensures
        r@ == joined(views(v@), sep@),
{
    let mut out = String::new();
    let mut i: usize = 0;
    proof {
        assert(views(v@).take(0) =~= Seq::<Seq<char>>::empty());
    }
    while i < v.len()
        invariant
            0 <= i <= v@.len(),
            out@ == joined(views(v@).take(i as int), sep@),
        decreases v@.len() - i,
    {
        proof {
            let t = views(v@).take(i + 1);
            assert(t.drop_last() =~= views(v@).take(i as int));
            assert(t.last() == v@[i as int]@);
            if i == 0 {
                assert(out@ + v@[0]@ =~= v@[0]@);
            }
        }
        if i > 0 {
            out.append(sep);
        }
        out.append(v[i].as_str());
        i = i + 1;
    }
    proof {
        assert(views(v@).take(v@.len() as int) =~= views(v@));
    }
    out
}

/// `n` in decimal.
pub fn decimal_u64(n: u64) -> (r: String)
    ensures
        r@ == decimal(n as int),
    decreases n,
{
    let c: char = digit((n % 10) as u8);
    if n < 10 {
        let mut s = String::new();
        s.push(c);
        proof {
            assert(s@ =~= seq![digit_char(n as nat)]);
        }
        s
    } else {
        let mut s = decimal_u64(n / 10);
        s.push(c);
        s
    }
}

fn digit(d: u8) -> (c: char)
    requires
        d < 10,
    ensures
        c == digit_char(d as nat),
{
    (48 + d) as char
}

/// `n` in decimal.
pub fn decimal_i32(n: i32) -> (r: String)
    ensures
        r@ == decimal(n as int),
{
    if n < 0 {
        let m: u64 = (-(n as i64)) as u64;
        let mut s = "-".to_owned();
        let rest = decimal_u64(m);
        s.append(rest.as_str());
        proof {
            reveal_strlit("-");
            assert("-"@ =~= seq!['-']);
        }
        s
    } else {
        decimal_u64(n as u64)
    }
}

fn code(c: char) -> (n: u32)
    ensures
        n == c as int,
{
    c as u32
}

/// Whether `a` comes before `b`.
pub fn comes_before(a: &str, b: &str) -> (r: bool)
    ensures
        r == before(a@, b@),
{
    let x = chars_of(a);
    let y = chars_of(b);
    let mut i: usize = 0;
    proof {
        assert(x@.subrange(0, x@.len() as int) =~= a@);
        assert(y@.subrange(0, y@.len() as int) =~= b@);
    }
    while i < x.len() && i < y.len()
        invariant
            x@ == a@,
            y@ == b@,
            0 <= i <= x@.len(),
            i <= y@.len(),
            before(a@, b@) == before(
                x@.subrange(i as int, x@.len() as int),
                y@.subrange(i as int, y@.len() as int),
            ),
        decreases x@.len() - i,
    {
        let c: u32 = code(x[i]);
        let d: u32 = code(y[i]);
        if c != d {
            return c < d;
        }
        proof {
            let xs = x@.subrange(i as int, x@.len() as int);
            let ys = y@.subrange(i as int, y@.len() as int);
            assert(xs.subrange(1, xs.len() as int) =~= x@.subrange(i + 1, x@.len() as int));
            assert(ys.subrange(1, ys.len() as int) =~= y@.subrange(i + 1, y@.len() as int));
        }
        i = i + 1;
    }
    i < y.len()
}

/// No text comes before itself.
pub proof fn before_irreflexive(a: Seq<char>)
    ensures
        !before(a, a),
    decreases a.len(),
{
    if a.len() > 0 {
        before_irreflexive(a.subrange(1, a.len() as int));
    }
}

/// The order of texts is transitive.
pub proof fn before_transitive(a: Seq<char>, b: Seq<char>, c: Seq<char>)
    requires
        before(a, b),
        before(b, c),
    ensures
        before(a, c),
    decreases a.len(),
{
    if a.len() > 0 && a[0] == b[0] && b[0] == c[0] {
        before_transitive(
            a.subrange(1, a.len() as int),
            b.subrange(1, b.len() as int),
            c.subrange(1, c.len() as int),
        );
    }
}

/// Of two different texts one comes before the other.
pub proof fn before_total(a: Seq<char>, b: Seq<char>)
    ensures
        a == b || before(a, b) || before(b, a),
    decreases a.len(),
{
    if a.len() > 0 && b.len() > 0 && a[0] == b[0] {
        let x = a.subrange(1, a.len() as int);
        let y = b.subrange(1, b.len() as int);
        before_total(x, y);
        if x == y {
            assert(a =~= seq![a[0]] + x);
            assert(b =~= seq![b[0]] + y);
        }
    } else if a.len() == 0 && b.len() == 0 {
        assert(a =~= b);
    }
}

/// Every text on a line of its own.
pub open spec fn listing(items: Seq<Seq<char>>) -> Seq<char>
    decreases items.len(),
{
    if items.len() == 0 {
        Seq::empty()
    } else {
        listing(items.drop_last()) + items.last() + seq!['\n']
    }
}

/// A text that can stand on a line of its own.
pub open spec fn is_line(s: Seq<char>) -> bool {
    &&& forall|i: int| 0 <= i < s.len() ==> s[i] != '\n'
    &&& s.len() > 0 ==> s[s.len() - 1] != '\r'
}

proof fn line_end_behind(a: Seq<char>, b: Seq<char>, i: int)
    requires
        0 <= i <= b.len(),
    ensures
        line_end(a + b, a.len() + i) == a.len() + line_end(b, i),
        i <= line_end(b, i) <= b.len(),
    decreases b.len() - i,
{
    if i < b.len() && b[i] != '\n' {
        line_end_behind(a, b, i + 1);
    }
}

proof fn lines_behind(a: Seq<char>, b: Seq<char>, i: int)
    requires
        0 <= i <= b.len(),
    ensures
        lines_from(a + b, a.len() + i) == lines_from(b, i),
    decreases b.len() - i,
{
    if i < b.len() {
        line_end_behind(a, b, i);
        let j = line_end(b, i);
        if j < b.len() {
            lines_behind(a, b, j + 1);
            assert((a + b).subrange(a.len() + i, a.len() + j) =~= b.subrange(i, j));
        } else {
            assert((a + b).subrange(a.len() + i, (a + b).len() as int) =~= b.subrange(
                i,
                b.len() as int,
            ));
        }
    }
}

proof fn line_end_is(s: Seq<char>, i: int, j: int)
    requires
        0 <= i <= j < s.len(),
        s[j] == '\n',
        forall|k: int| i <= k < j ==> s[k] != '\n',
    ensures
        line_end(s, i) == j,
    decreases j - i,
{
    if i < j {
        line_end_is(s, i + 1, j);
    }
}

/// A line feed ends a line: the text in front of it is the first line, and the
/// lines behind it are those of the rest.
pub proof fn first_line_ends(line: Seq<char>, rest: Seq<char>)
    requires
        forall|i: int| 0 <= i < line.len() ==> line[i] != '\n',
    ensures
        lines_of(line + seq!['\n'] + rest) == seq![without_cr(line)] + lines_of(rest),
{
    let s = line + seq!['\n'] + rest;
    let n = line.len() as int;
    line_end_is(s, 0, n);
    assert(s.subrange(0, n) =~= line);
    let head = line + seq!['\n'];
    assert(head + rest =~= s);
    lines_behind(head, rest, 0);
}

/// Texts on lines of their own are the lines of the whole, in order, in front
/// of those of what follows.
pub proof fn listed_lines_return(items: Seq<Seq<char>>, rest: Seq<char>)
    requires
        forall|k: int| 0 <= k < items.len() ==> is_line(#[trigger] items[k]),
    ensures
        lines_of(listing(items) + rest) == items + lines_of(rest),
    decreases items.len(),
{
    if items.len() == 0 {
        assert(listing(items) + rest =~= rest);
        assert(items + lines_of(rest) =~= lines_of(rest));
    } else {
        let d = items.drop_last();
        let x = items.last();
        let more = x + seq!['\n'] + rest;
        assert(listing(items) + rest =~= listing(d) + more);
        listed_lines_return(d, more);
        first_line_ends(x, rest);
        assert(is_line(items[items.len() - 1]));
        assert(d + (seq![x] + lines_of(rest)) =~= items + lines_of(rest));
    }
}

proof fn trimmed_start_is_tail(s: Seq<char>) -> (a: int)
    ensures
        0 <= a <= s.len(),
        trimmed_start(s) == s.subrange(a, s.len() as int),
        forall|i: int| 0 <= i < a ==> is_space(s[i]),
        a < s.len() ==> !is_space(s[a]),
    decreases s.len(),
{
    if s.len() > 0 && is_space(s[0]) {
        let t = s.subrange(1, s.len() as int);
        let b = trimmed_start_is_tail(t);
        assert(t.subrange(b, t.len() as int) =~= s.subrange(b + 1, s.len() as int));
        assert forall|i: int| 0 <= i < b + 1 implies is_space(s[i]) by {
            if i > 0 {
                assert(t[i - 1] == s[i]);
            }
        }
        if b + 1 < s.len() {
            assert(t[b] == s[b + 1]);
        }
        b + 1
    } else {
        assert(s.subrange(0, s.len() as int) =~= s);
        0
    }
}

proof fn trimmed_end_is_head(s: Seq<char>) -> (b: int)
    ensures
        0 <= b <= s.len(),
        trimmed_end(s) == s.subrange(0, b),
        forall|i: int| b <= i < s.len() ==> is_space(s[i]),
        b > 0 ==> !is_space(s[b - 1]),
    decreases s.len(),
{
    if s.len() > 0 && is_space(s[s.len() - 1]) {
        let t = s.subrange(0, s.len() - 1);
        let b = trimmed_end_is_head(t);
        assert(t.subrange(0, b) =~= s.subrange(0, b));
        assert forall|i: int| b <= i < s.len() implies is_space(s[i]) by {
            if i < s.len() - 1 {
                assert(t[i] == s[i]);
            }
        }
        b
    } else {
        assert(s.subrange(0, s.len() as int) =~= s);
        s.len() as int
    }
}

/// Trimming takes white space off both ends and nothing else: what stays is a
/// part of the text with only white space around it, and with none at either
/// end.
pub proof fn trimmed_is_middle(s: Seq<char>) -> (r: (int, int))
    ensures
        0 <= r.0 <= r.1 <= s.len(),
        trimmed(s) == s.subrange(r.0, r.1),
        forall|i: int| 0 <= i < r.0 ==> is_space(s[i]),
        forall|i: int| r.1 <= i < s.len() ==> is_space(s[i]),
        r.0 < r.1 ==> !is_space(s[r.0]) && !is_space(s[r.1 - 1]),
{
    let a = trimmed_start_is_tail(s);
    let t = s.subrange(a, s.len() as int);
    let b = trimmed_end_is_head(t);
    assert(t.subrange(0, b) =~= s.subrange(a, a + b));
    assert forall|i: int| a + b <= i < s.len() implies is_space(s[i]) by {
        assert(t[i - a] == s[i]);
    }
    if b > 0 {
        assert(t[b - 1] == s[a + b - 1]);
        assert(t[0] == s[a]);
    }
    (a, a + b)
}

/// A text without white space at its ends stays as it is when trimmed.
pub proof fn trimmed_unchanged(s: Seq<char>)
    requires
        s.len() > 0 ==> !is_space(s[0]) && !is_space(s[s.len() - 1]),
    ensures
        trimmed(s) == s,
{
    assert(trimmed_start(s) == s);
    assert(trimmed_end(s) == s);
}

/// What stands in a part of a text stands in the text.
pub proof fn occurs_in_whole(s: Seq<char>, i: int, j: int, pat: Seq<char>)
    requires
        0 <= i <= j <= s.len(),
        occurs(s.subrange(i, j), pat),
    ensures
        occurs(s, pat),
{
    let t = s.subrange(i, j);
    let k = choose|k: int| matches_at(t, pat, k);
    assert(s.subrange(i + k, i + k + pat.len()) =~= t.subrange(k, k + pat.len()));
    assert(matches_at(s, pat, i + k));
}

proof fn counting_splits(a: Seq<Seq<char>>, b: Seq<Seq<char>>)
    ensures
        counting(a + b) == counting(a) + counting(b),
    decreases b.len(),
{
    if b.len() == 0 {
        assert(a + b =~= a);
        assert(counting(a) + counting(b) =~= counting(a));
    } else {
        counting_splits(a, b.drop_last());
        assert((a + b).drop_last() =~= a + b.drop_last());
        assert((a + b).last() == b.last());
        if counts(b.last()) {
            assert((counting(a) + counting(b.drop_last())).push(trimmed(b.last())) =~= counting(a)
                + counting(b.drop_last()).push(trimmed(b.last())));
        }
    }
}

/// A text that counts as it is: it is not empty, is no comment, and has no
/// white space at either end.
pub open spec fn is_entry(s: Seq<char>) -> bool {
    &&& s.len() > 0
    &&& s[0] != '#'
    &&& !is_space(s[0])
    &&& !is_space(s[s.len() - 1])
    &&& forall|i: int| 0 <= i < s.len() ==> s[i] != '\n'
}

proof fn entries_count(items: Seq<Seq<char>>)
    requires
        forall|k: int| 0 <= k < items.len() ==> is_entry(#[trigger] items[k]),
    ensures
        counting(items) == items,
    decreases items.len(),
{
    if items.len() > 0 {
        let d = items.drop_last();
        assert(is_entry(items[items.len() - 1]));
        assert forall|k: int| 0 <= k < d.len() implies is_entry(#[trigger] d[k]) by {
            assert(is_entry(items[k]));
        }
        entries_count(d);
        trimmed_unchanged(items.last());
        assert(d.push(items.last()) =~= items);
    } else {
        assert(counting(items) =~= items);
    }
}

/// Entries on lines of their own all count, in order, in front of those of what
/// follows.
pub proof fn listed_entries_count(items: Seq<Seq<char>>, rest: Seq<char>)
    requires
        forall|k: int| 0 <= k < items.len() ==> is_entry(#[trigger] items[k]),
    ensures
        counting(lines_of(listing(items) + rest)) == items + counting(lines_of(rest)),
        counting(lines_of(listing(items))) == items,
{
    assert forall|k: int| 0 <= k < items.len() implies is_line(#[trigger] items[k]) by {
        assert(is_entry(items[k]));
    }
    entries_count(items);
    listed_lines_return(items, rest);
    counting_splits(items, lines_of(rest));
    let none = Seq::<char>::empty();
    listed_lines_return(items, none);
    assert(listing(items) + none =~= listing(items));
    assert(items + lines_of(none) =~= items);
}

/// A blank line and a comment do not count, with white space in front or
/// without.
pub proof fn comments_do_not_count(line: Seq<char>, first: int, rest: Seq<char>)
    requires
        is_line(line),
        0 <= first <= line.len(),
        forall|i: int| 0 <= i < first ==> is_space(line[i]),
        first < line.len() ==> line[first] == '#',
    ensures
        counting(lines_of(line + seq!['\n'] + rest)) == counting(lines_of(rest)),
{
    first_line_ends(line, rest);
    counting_splits(seq![line], lines_of(rest));
    let (a, b) = trimmed_is_middle(line);
    if a < b {
        if a > first {
            assert(is_space(line[first]));
        }
        assert(a == first);
        assert(trimmed(line)[0] == line[a]);
    }
    assert(!counts(line));
    assert(seq![line].last() == line);
    assert(seq![line].drop_last() =~= Seq::<Seq<char>>::empty());
    assert(counting(Seq::<Seq<char>>::empty()) =~= Seq::<Seq<char>>::empty());
    assert(counting(seq![line]) =~= Seq::<Seq<char>>::empty());
    assert(Seq::<Seq<char>>::empty() + counting(lines_of(rest)) =~= counting(lines_of(rest)));
}

proof fn matches_behind(a: Seq<char>, b: Seq<char>, pat: Seq<char>, i: int)
    requires
        0 <= i,
    ensures
        matches_at(a + b, pat, a.len() + i) == matches_at(b, pat, i),
{
    if i + pat.len() <= b.len() {
        assert((a + b).subrange(a.len() + i, a.len() + i + pat.len()) =~= b.subrange(
            i,
            i + pat.len(),
        ));
    }
}

proof fn replaced_behind(a: Seq<char>, b: Seq<char>, pat: Seq<char>, rep: Seq<char>, i: int)
    requires
        0 <= i,
    ensures
        replaced_from(a + b, pat, rep, a.len() + i) == replaced_from(b, pat, rep, i),
    decreases b.len() - i,
{
    if i < b.len() {
        matches_behind(a, b, pat, i);
        if pat.len() > 0 && matches_at(b, pat, i) {
            replaced_behind(a, b, pat, rep, i + pat.len());
        } else {
            replaced_behind(a, b, pat, rep, i + 1);
            assert((a + b)[a.len() + i] == b[i]);
        }
    }
}

proof fn replaced_up_to(s: Seq<char>, pat: Seq<char>, rep: Seq<char>, i: int, n: int)
    requires
        0 <= i <= n <= s.len(),
        pat.len() > 0,
        forall|k: int| i <= k < n ==> !matches_at(s, pat, k),
    ensures
        replaced_from(s, pat, rep, i) == s.subrange(i, n) + replaced_from(s, pat, rep, n),
    decreases n - i,
{
    if i < n {
        replaced_up_to(s, pat, rep, i + 1, n);
        assert(seq![s[i]] + (s.subrange(i + 1, n) + replaced_from(s, pat, rep, n)) =~= s.subrange(
            i,
            n,
        ) + replaced_from(s, pat, rep, n));
    } else {
        assert(s.subrange(i, n) + replaced_from(s, pat, rep, n) =~= replaced_from(s, pat, rep, n));
    }
}

/// Replacing puts the replacement where the pattern stands first, keeps what is
/// in front of it, and goes on behind it.
pub proof fn replaced_at_first(a: Seq<char>, pat: Seq<char>, b: Seq<char>, rep: Seq<char>)
    requires
        pat.len() > 0,
        forall|k: int| 0 <= k < a.len() ==> !matches_at(a + pat + b, pat, k),
    ensures
        replaced(a + pat + b, pat, rep) == a + rep + replaced(b, pat, rep),
{
    let s = a + pat + b;
    let n = a.len() as int;
    replaced_up_to(s, pat, rep, 0, n);
    assert(s.subrange(0, n) =~= a);
    assert(s.subrange(n, n + pat.len()) =~= pat);
    let head = a + pat;
    assert(head + b =~= s);
    replaced_behind(head, b, pat, rep, 0);
    assert(replaced_from(s, pat, rep, n) == rep + replaced(b, pat, rep));
    assert(a + (rep + replaced(b, pat, rep)) =~= a + rep + replaced(b, pat, rep));
}

/// Texts without the separator, joined with it, are its pieces again.
pub proof fn pieces_undo_join(v: Seq<Seq<char>>, c: char)
    requires
        v.len() > 0,
        forall|k: int| 0 <= k < v.len() ==> !(#[trigger] v[k]).contains(c),
    ensures
        pieces(joined(v, seq![c]), seq![c]) == v,
{
    pieces_of_join(v, c, Seq::empty());
    let t = joined(v, seq![c]);
    assert(t + Seq::<char>::empty() =~= t);
}

/// A text to which joined texts are put in front has their pieces in front of
/// its own.
pub proof fn pieces_in_front(v: Seq<Seq<char>>, c: char, rest: Seq<char>)
    requires
        v.len() > 0,
        forall|k: int| 0 <= k < v.len() ==> !(#[trigger] v[k]).contains(c),
    ensures
        pieces(joined(v, seq![c]) + seq![c] + rest, seq![c]) == v + pieces(rest, seq![c]),
    decreases v.len(),
{
    let sep = seq![c];
    let x = v.last();
    let more = x + sep + rest;
    assert(!v[v.len() - 1].contains(c));
    first_piece(x, c, rest);
    if v.len() == 1 {
        assert(v =~= seq![x]);
        assert(joined(v, sep) == x);
    } else {
        let d = v.drop_last();
        assert forall|k: int| 0 <= k < d.len() implies !(#[trigger] d[k]).contains(c) by {
            assert(!v[k].contains(c));
        }
        pieces_in_front(d, c, more);
        assert(joined(v, sep) + sep + rest =~= joined(d, sep) + sep + more);
        assert(d + (seq![x] + pieces(rest, sep)) =~= v + pieces(rest, sep));
    }
}

proof fn pieces_of_join(v: Seq<Seq<char>>, c: char, none: Seq<char>)
    requires
        v.len() > 0,
        none.len() == 0,
        forall|k: int| 0 <= k < v.len() ==> !(#[trigger] v[k]).contains(c),
    ensures
        pieces(joined(v, seq![c]) + none, seq![c]) == v,
{
    let sep = seq![c];
    let x = v.last();
    assert(!v[v.len() - 1].contains(c));
    only_piece(x, c);
    assert(joined(v, sep) + none =~= joined(v, sep));
    if v.len() == 1 {
        assert(v =~= seq![x]);
    } else {
        let d = v.drop_last();
        assert forall|k: int| 0 <= k < d.len() implies !(#[trigger] d[k]).contains(c) by {
            assert(!v[k].contains(c));
        }
        pieces_in_front(d, c, x);
        assert(d + seq![x] =~= v);
    }
}

proof fn only_piece(x: Seq<char>, c: char)
    requires
        !x.contains(c),
    ensures
        pieces(x, seq![c]) == seq![x],
{
    let sep = seq![c];
    find_from_is_least(x, sep, 0);
    match find_from(x, sep, 0) {
        Some(i) => {
            assert(x.subrange(i, i + 1)[0] == x[i]);
        },
        None => {},
    }
    assert(x.subrange(0, x.len() as int) =~= x);
}

proof fn first_piece(x: Seq<char>, c: char, rest: Seq<char>)
    requires
        !x.contains(c),
    ensures
        pieces(x + seq![c] + rest, seq![c]) == seq![x] + pieces(rest, seq![c]),
{
    let sep = seq![c];
    let s = x + sep + rest;
    let n = x.len() as int;
    find_from_is_least(s, sep, 0);
    assert(s.subrange(n, n + 1) =~= sep);
    assert(matches_at(s, sep, n));
    let i = find_from(s, sep, 0)->Some_0;
    if i < n {
        assert(s.subrange(i, i + 1)[0] == s[i]);
        assert(x[i] == c);
    }
    assert(s.subrange(0, n) =~= x);
    let head = x + sep;
    assert(head + rest =~= s);
    pieces_behind(head, rest, sep, 0);
}

proof fn find_behind(a: Seq<char>, b: Seq<char>, pat: Seq<char>, i: int)
    requires
        0 <= i,
    ensures
        find_from(a + b, pat, a.len() + i) == (match find_from(b, pat, i) {
            Some(k) => Some(a.len() + k),
            None => None,
        }),
    decreases b.len() + 1 - i,
{
    if i + pat.len() <= b.len() {
        matches_behind(a, b, pat, i);
        if !matches_at(b, pat, i) {
            find_behind(a, b, pat, i + 1);
        }
    }
}

proof fn pieces_behind(a: Seq<char>, b: Seq<char>, sep: Seq<char>, i: int)
    requires
        0 <= i <= b.len(),
        sep.len() > 0,
    ensures
        pieces_from(a + b, sep, a.len() + i) == pieces_from(b, sep, i),
    decreases b.len() - i,
{
    find_behind(a, b, sep, i);
    find_from_is_least(b, sep, i);
    match find_from(b, sep, i) {
        Some(j) => {
            assert((a + b).subrange(a.len() + i, a.len() + j) =~= b.subrange(i, j));
            pieces_behind(a, b, sep, j + sep.len());
        },
        None => {
            assert((a + b).subrange(a.len() + i, (a + b).len() as int) =~= b.subrange(
                i,
                b.len() as int,
            ));
        },
    }
}

/// The number of bytes of a text in UTF-8.
pub open spec fn utf8_len(s: Seq<char>) -> nat
    decreases s.len(),
{
    if s.len() == 0 {
        0
    } else {
        utf8_len(s.drop_last()) + utf8_width(s.last())
    }
}

proof fn utf8_len_front(s: Seq<char>)
    requires
        s.len() > 0,
    ensures
        utf8_len(s) == utf8_width(s[0]) + utf8_len(s.subrange(1, s.len() as int)),
    decreases s.len(),
{
    let t = s.subrange(1, s.len() as int);
    if s.len() == 1 {
        assert(s.drop_last() =~= Seq::<char>::empty());
        assert(t =~= Seq::<char>::empty());
    } else {
        utf8_len_front(s.drop_last());
        assert(s.drop_last().subrange(1, s.len() - 1) =~= t.drop_last());
        assert(t.last() == s.last());
    }
}

proof fn fitting_fills(s: Seq<char>, i: int, room: int)
    requires
        0 <= i <= s.len(),
        0 <= room,
    ensures
        i + fitting(s, i, room) <= s.len(),
        utf8_len(s.subrange(i, i + fitting(s, i, room))) <= room,
        i + fitting(s, i, room) < s.len() ==> utf8_len(
            s.subrange(i, i + fitting(s, i, room) + 1),
        ) > room,
    decreases s.len() - i,
{
    let n = fitting(s, i, room) as int;
    assert(s.subrange(i, i) =~= Seq::<char>::empty());
    if i < s.len() && utf8_width(s[i]) <= room {
        fitting_fills(s, i + 1, room - utf8_width(s[i]));
        let whole = s.subrange(i, i + n);
        utf8_len_front(whole);
        assert(whole.subrange(1, whole.len() as int) =~= s.subrange(i + 1, i + n));
        if i + n < s.len() {
            let more = s.subrange(i, i + n + 1);
            utf8_len_front(more);
            assert(more.subrange(1, more.len() as int) =~= s.subrange(i + 1, i + n + 1));
        }
    } else if i < s.len() {
        let one = s.subrange(i, i + 1);
        utf8_len_front(one);
        assert(one.subrange(1, 1) =~= Seq::<char>::empty());
    }
}

/// A clipped text is a prefix of the text that keeps to the limit, and with
/// one more character it would not.
pub proof fn clipped_is_longest(s: Seq<char>, room: int)
    requires
        0 <= room,
    ensures
        clipped(s, room).len() <= s.len(),
        clipped(s, room) == s.take(clipped(s, room).len() as int),
        utf8_len(clipped(s, room)) <= room,
        clipped(s, room).len() < s.len() ==> utf8_len(s.take(1 + clipped(s, room).len() as int))
            > room,
{
    fitting_fills(s, 0, room);
    let n = fitting(s, 0, room) as int;
    assert(s.subrange(0, n) =~= s.take(n));
    if n < s.len() {
        assert(s.subrange(0, n + 1) =~= s.take(n + 1));
    }
}

/// The characters in front of a byte position are those that fill the bytes up
/// to it.
pub proof fn front_fits(a: Seq<char>, b: Seq<char>)
    ensures
        fitting(a + b, 0, utf8_len(a) as int) == a.len(),
{
    let s = a + b;
    let room = utf8_len(a) as int;
    fitting_fills(s, 0, room);
    let n = fitting(s, 0, room) as int;
    let t = s.subrange(0, n);
    if n < a.len() {
        let more = s.subrange(0, n + 1);
        assert(more =~= a.subrange(0, n + 1));
        utf8_len_grows(a, n + 1, a.len() as int);
        assert(a.subrange(0, a.len() as int) =~= a);
    } else if n > a.len() {
        utf8_len_grows(s, a.len() as int + 1, n);
        let more = s.subrange(0, a.len() as int + 1);
        assert(more.drop_last() =~= a);
    }
}

proof fn utf8_len_grows(s: Seq<char>, i: int, j: int)
    requires
        0 <= i <= j <= s.len(),
    ensures
        utf8_len(s.subrange(0, i)) <= utf8_len(s.subrange(0, j)),
    decreases j - i,
{
    if i < j {
        utf8_len_grows(s, i, j - 1);
        assert(s.subrange(0, j).drop_last() =~= s.subrange(0, j - 1));
    }
}

/// A text that can stand as a word.
pub open spec fn is_word(s: Seq<char>) -> bool {
    s.len() > 0 && forall|i: int| 0 <= i < s.len() ==> !is_space(#[trigger] s[i])
}

/// Words with a space between neighbours are the words of the text, in their
/// order.
pub proof fn joined_words_return(items: Seq<Seq<char>>)
    requires
        forall|k: int| 0 <= k < items.len() ==> is_word(#[trigger] items[k]),
    ensures
        words_of(joined(items, " "@)) == items,
{
    words_in_front(items, Seq::empty());
    let t = joined(items, " "@);
    assert(t + Seq::<char>::empty() =~= t);
    assert(words_of(Seq::<char>::empty()) =~= Seq::<Seq<char>>::empty());
    assert(items + Seq::<Seq<char>>::empty() =~= items);
}

/// Words with a space between neighbours, followed by nothing or by white
/// space, are the first words of the text.
pub proof fn words_in_front(items: Seq<Seq<char>>, rest: Seq<char>)
    requires
        forall|k: int| 0 <= k < items.len() ==> is_word(#[trigger] items[k]),
        rest.len() > 0 ==> is_space(rest[0]),
    ensures
        words_of(joined(items, " "@) + rest) == items + words_of(rest),
    decreases items.len(),
{
    reveal_strlit(" ");
    if items.len() == 0 {
        assert(joined(items, " "@) + rest =~= rest);
        assert(items + words_of(rest) =~= words_of(rest));
    } else {
        let x = items.last();
        assert(is_word(items[items.len() - 1]));
        first_word(x, rest);
        if items.len() == 1 {
            assert(items =~= seq![x]);
        } else {
            let d = items.drop_last();
            assert forall|k: int| 0 <= k < d.len() implies is_word(#[trigger] d[k]) by {
                assert(is_word(items[k]));
            }
            let more = " "@ + (x + rest);
            assert(more[0] == ' ');
            words_in_front(d, more);
            assert(joined(items, " "@) + rest =~= joined(d, " "@) + more);
            words_behind(" "@, x + rest, 0);
            assert(words_of(more) == words_of(x + rest));
            assert(d + (seq![x] + words_of(rest)) =~= items + words_of(rest));
        }
    }
}

proof fn first_word(x: Seq<char>, rest: Seq<char>)
    requires
        is_word(x),
        rest.len() > 0 ==> is_space(rest[0]),
    ensures
        words_of(x + rest) == seq![x] + words_of(rest),
{
    let s = x + rest;
    let n = x.len() as int;
    assert(s[0] == x[0]);
    word_ends(s, 0, n, x);
    assert(s.subrange(0, n) =~= x);
    words_behind(x, rest, 0);
}

proof fn word_ends(s: Seq<char>, i: int, n: int, x: Seq<char>)
    requires
        0 <= i <= n <= s.len(),
        n == x.len(),
        forall|k: int| 0 <= k < n ==> s[k] == #[trigger] x[k] && !is_space(x[k]),
        n < s.len() ==> is_space(s[n]),
    ensures
        word_end(s, i) == n,
    decreases n - i,
{
    if i < n {
        assert(s[i] == x[i]);
        word_ends(s, i + 1, n, x);
    }
}

/// What stands in front of a text leaves the words behind it as they are.
pub proof fn words_behind(a: Seq<char>, b: Seq<char>, i: int)
    requires
        0 <= i <= b.len(),
    ensures
        words_from(a + b, a.len() + i) == words_from(b, i),
    decreases b.len() - i,
{
    if i < b.len() {
        assert((a + b)[a.len() + i] == b[i]);
        if is_space(b[i]) {
            words_behind(a, b, i + 1);
        } else {
            word_end_behind(a, b, i);
            let j = word_end(b, i);
            if i < j <= b.len() {
                words_behind(a, b, j);
                assert((a + b).subrange(a.len() + i, a.len() + j) =~= b.subrange(i, j));
            }
        }
    }
}

proof fn word_end_behind(a: Seq<char>, b: Seq<char>, i: int)
    requires
        0 <= i <= b.len(),
    ensures
        word_end(a + b, a.len() + i) == a.len() + word_end(b, i),
        i <= word_end(b, i) <= b.len(),
    decreases b.len() - i,
{
    if i < b.len() {
        assert((a + b)[a.len() + i] == b[i]);
        if !is_space(b[i]) {
            word_end_behind(a, b, i + 1);
        }
    }
}

/// Replacing the separator of joined texts joins them with the replacement.
pub proof fn replaced_separator(v: Seq<Seq<char>>, c: char, rep: Seq<char>)
    requires
        forall|k: int| 0 <= k < v.len() ==> !(#[trigger] v[k]).contains(c),
    ensures
        replaced(joined(v, seq![c]), seq![c], rep) == joined(v, rep),
{
    let t = joined(v, seq![c]);
    replaced_separators(v, c, rep, Seq::empty());
    assert(t + Seq::<char>::empty() =~= t);
    assert(replaced(Seq::<char>::empty(), seq![c], rep) =~= Seq::<char>::empty());
    assert(joined(v, rep) + Seq::<char>::empty() =~= joined(v, rep));
}

proof fn replaced_separators(v: Seq<Seq<char>>, c: char, rep: Seq<char>, rest: Seq<char>)
    requires
        forall|k: int| 0 <= k < v.len() ==> !(#[trigger] v[k]).contains(c),
    ensures
        replaced(joined(v, seq![c]) + rest, seq![c], rep) == joined(v, rep) + replaced(
            rest,
            seq![c],
            rep,
        ),
    decreases v.len(),
{
    let sep = seq![c];
    if v.len() == 0 {
        assert(joined(v, sep) + rest =~= rest);
        assert(joined(v, rep) + replaced(rest, sep, rep) =~= replaced(rest, sep, rep));
    } else {
        let x = v.last();
        assert(!v[v.len() - 1].contains(c));
        replaced_plain_front(x, c, rep, rest);
        if v.len() > 1 {
            let d = v.drop_last();
            assert forall|k: int| 0 <= k < d.len() implies !(#[trigger] d[k]).contains(c) by {
                assert(!v[k].contains(c));
            }
            let more = sep + (x + rest);
            replaced_separators(d, c, rep, more);
            assert(joined(v, sep) + rest =~= joined(d, sep) + more);
            let none = Seq::<char>::empty();
            assert(none + sep + (x + rest) =~= more);
            replaced_at_first(none, sep, x + rest, rep);
            assert(none + rep =~= rep);
            assert(joined(d, rep) + (rep + (x + replaced(rest, sep, rep))) =~= joined(v, rep)
                + replaced(rest, sep, rep));
        }
    }
}

proof fn replaced_plain_front(x: Seq<char>, c: char, rep: Seq<char>, rest: Seq<char>)
    requires
        !x.contains(c),
    ensures
        replaced(x + rest, seq![c], rep) == x + replaced(rest, seq![c], rep),
{
    let s = x + rest;
    let sep = seq![c];
    let n = x.len() as int;
    assert forall|k: int| 0 <= k < n implies !matches_at(s, sep, k) by {
        if matches_at(s, sep, k) {
            assert(s.subrange(k, k + 1)[0] == s[k]);
            assert(x[k] == c);
        }
    }
    replaced_up_to(s, sep, rep, 0, n);
    assert(s.subrange(0, n) =~= x);
    replaced_behind(x, rest, sep, rep, 0);
}

/// Texts are ordered as their characters are: where two differ for the first
/// time, the lower character decides, and a text comes before those that go on
/// behind it.
pub proof fn first_difference_decides(
    front: Seq<char>,
    x: char,
    y: char,
    a: Seq<char>,
    b: Seq<char>,
)
    ensures
        x != y ==> (before(front + seq![x] + a, front + seq![y] + b) <==> (x as int) < (y as int)),
        before(front, front + seq![x] + a),
        !before(front + seq![x] + a, front),
    decreases front.len(),
{
    let (s, t) = (front + seq![x] + a, front + seq![y] + b);
    if front.len() == 0 {
        assert(s[0] == x && t[0] == y);
    } else {
        let rest = front.subrange(1, front.len() as int);
        first_difference_decides(rest, x, y, a, b);
        assert(s.subrange(1, s.len() as int) =~= rest + seq![x] + a);
        assert(t.subrange(1, t.len() as int) =~= rest + seq![y] + b);
        assert(s[0] == front[0] && t[0] == front[0]);
    }
}

/// The number that decimal digits stand for.
pub open spec fn number_of(s: Seq<char>) -> int
    decreases s.len(),
{
    if s.len() == 0 {
        0
    } else {
        10 * number_of(s.drop_last()) + (s.last() as int - '0' as int)
    }
}

/// The digits of a number stand for it: they are digits, and no zero is in
/// front of others.
pub proof fn digits_stand_for_number(n: nat)
    ensures
        number_of(digits(n)) == n,
        forall|i: int| 0 <= i < digits(n).len() ==> '0' <= #[trigger] digits(n)[i] <= '9',
        digits(n).len() > 0,
        digits(n).len() > 1 ==> digits(n)[0] != '0',
    decreases n,
{
    let d = digits(n);
    if n < 10 {
        assert(d.drop_last() =~= Seq::<char>::empty());
        assert(number_of(d.drop_last()) == 0);
        assert(d.last() as int == 48 + n);
    } else {
        digits_stand_for_number(n / 10);
        let rest = digits(n / 10);
        assert(d.drop_last() =~= rest);
        assert(d.last() as int == 48 + n % 10);
        assert(n == 10 * (n / 10) + n % 10);
        assert forall|i: int| 0 <= i < d.len() implies '0' <= #[trigger] d[i] <= '9' by {
            if i < rest.len() {
                assert(d[i] == rest[i]);
            }
        }
        if rest.len() == 1 {
            assert(rest.drop_last() =~= Seq::<char>::empty());
            assert(number_of(rest.drop_last()) == 0);
            assert(number_of(rest) == rest[0] as int - 48);
        }
    }
}

/// Decimal text stands for its number; that of a negative one begins with a
/// minus sign.
pub proof fn decimal_stands_for_number(n: int)
    ensures
        n >= 0 ==> number_of(decimal(n)) == n,
        n < 0 ==> decimal(n)[0] == '-' && number_of(decimal(n).skip(1)) == -n,
{
    if n >= 0 {
        digits_stand_for_number(n as nat);
    } else {
        digits_stand_for_number((-n) as nat);
        assert(decimal(n).skip(1) =~= digits((-n) as nat));
    }
}

/// The last piece of a text holds no separator, and is the whole text or
/// stands behind a separator.
pub proof fn last_piece_ends_text(s: Seq<char>, sep: Seq<char>)
    requires
        sep.len() > 0,
    ensures
        ({
            let last = pieces(s, sep).last();
            &&& pieces(s, sep).len() > 0
            &&& !occurs(last, sep)
            &&& last == s || exists|front: Seq<char>| s == #[trigger] (front + sep) + last
        }),
{
    last_piece_from(s, sep, 0);
    let last = pieces(s, sep).last();
    if last.len() < s.len() {
        let n = s.len() - last.len();
        let front = s.subrange(0, n - sep.len());
        assert(s =~= (front + sep) + last) by {
            assert(s.subrange(n - sep.len(), n) == sep);
            assert(s =~= front + s.subrange(n - sep.len(), n) + s.subrange(n, s.len() as int));
        }
    } else {
        assert(s.subrange(0, s.len() as int) =~= s);
    }
}

proof fn last_piece_from(s: Seq<char>, sep: Seq<char>, i: int)
    requires
        sep.len() > 0,
        0 <= i <= s.len(),
        i > 0 ==> i >= sep.len() && s.subrange(i - sep.len(), i) == sep,
    ensures
        ({
            let last = pieces_from(s, sep, i).last();
            let n = s.len() - last.len();
            &&& pieces_from(s, sep, i).len() > 0
            &&& !occurs(last, sep)
            &&& i <= n <= s.len()
            &&& last == s.subrange(n, s.len() as int)
            &&& n > 0 ==> n >= sep.len() && s.subrange(n - sep.len(), n) == sep
        }),
    decreases s.len() - i,
{
    find_from_is_least(s, sep, i);
    match find_from(s, sep, i) {
        Some(j) => {
            let k = j + sep.len();
            assert(s.subrange(j, k) == sep);
            last_piece_from(s, sep, k);
            let rest = pieces_from(s, sep, k);
            assert(pieces_from(s, sep, i) == seq![s.subrange(i, j)] + rest);
            assert(pieces_from(s, sep, i).last() == rest.last());
        },
        None => {
            let last = s.subrange(i, s.len() as int);
            assert(pieces_from(s, sep, i).last() == last);
            if occurs(last, sep) {
                let k = choose|k: int| matches_at(last, sep, k);
                assert(s.subrange(i + k, i + k + sep.len()) =~= last.subrange(k, k + sep.len()));
                assert(matches_at(s, sep, i + k));
            }
        },
    }
}

/// The number of code points, from zero on, that so many bytes of UTF-8 can
/// encode: those of seven, eleven, sixteen and twenty-one bits.
pub open spec fn utf8_capacity(bytes: nat) -> int {
    if bytes <= 1 {
        128
    } else if bytes == 2 {
        2048
    } else if bytes == 3 {
        65536
    } else {
        2097152
    }
}

/// A character takes the fewest bytes that can encode it.
pub proof fn width_is_least(c: char)
    ensures
        1 <= utf8_width(c) <= 4,
        (c as int) < utf8_capacity(utf8_width(c)),
        utf8_width(c) > 1 ==> utf8_capacity((utf8_width(c) - 1) as nat) <= c as int,
{
}

/// A carriage return in front of a line feed belongs to the end of the line.
pub proof fn carriage_return_ends_line(line: Seq<char>, rest: Seq<char>)
    requires
        is_line(line),
    ensures
        lines_of(line + seq!['\r', '\n'] + rest) == seq![line] + lines_of(rest),
{
    let s = line + seq!['\r', '\n'] + rest;
    let n = line.len() as int + 1;
    let head = line + seq!['\r', '\n'];
    line_end_is(s, 0, n);
    assert(s.subrange(0, n) =~= line.push('\r'));
    assert(without_cr(line.push('\r')) =~= line);
    lines_behind(head, rest, 0);
    assert(head + rest =~= s);
}

} // verus!
