//! Sorting texts.

use vstd::prelude::*;

use crate::strmap::distinct_keys;
use crate::text;
use crate::text::{before, views};

verus! {

/// No text comes before one that stands ahead of it.
pub open spec fn sorted(v: Seq<Seq<char>>) -> bool {
    forall|i: int, j: int| 0 <= i < j < v.len() ==> !before(#[trigger] v[j], #[trigger] v[i])
}

/// Each text comes before those that stand behind it.
pub open spec fn strictly_sorted(v: Seq<Seq<char>>) -> bool {
    forall|i: int, j: int| 0 <= i < j < v.len() ==> before(#[trigger] v[i], #[trigger] v[j])
}

/// Puts a text in its place among sorted ones, behind its equals.
pub fn insert_sorted(v: &mut Vec<String>, s: String)
    requires
        sorted(views(old(v)@)),
    ensures
        sorted(views(final(v)@)),
        exists|p: int|
            0 <= p <= old(v)@.len() && final(v)@ == old(v)@.insert(p, s) && views(final(v)@)
                == #[trigger] views(old(v)@).insert(p, s@),
        views(final(v)@).to_multiset() == views(old(v)@).to_multiset().insert(s@),
        strictly_sorted(views(old(v)@)) && !views(old(v)@).contains(s@) ==> strictly_sorted(
            views(final(v)@),
        ),
{
    let mut p: usize = 0;
    while p < v.len() && !text::comes_before(s.as_str(), v[p].as_str())
        invariant
            0 <= p <= v@.len(),
            forall|k: int| 0 <= k < p ==> !before(s@, (#[trigger] v@[k])@),
        decreases v@.len() - p,
    {
        p = p + 1;
    }
    let ghost was = v@;
    let ghost s_view = s@;
    v.insert(p, s);
    proof {
        let a = views(was);
        let b = views(v@);
        assert(b =~= a.insert(p as int, s_view));
        vstd::seq_lib::to_multiset_insert(a, p as int, s_view);
        assert forall|i: int| 0 <= i < p implies !before(s_view, #[trigger] a[i]) by {
            assert(a[i] == was[i]@);
        }
        if p < was.len() {
            assert(before(s_view, a[p as int]));
        }
        assert forall|i: int| p <= i < a.len() implies before(s_view, #[trigger] a[i]) by {
            if i > p {
                assert(!before(a[i], a[p as int]));
                text::before_total(a[p as int], a[i]);
                if a[p as int] != a[i] {
                    text::before_transitive(s_view, a[p as int], a[i]);
                }
            }
        }
        assert forall|i: int, j: int| 0 <= i < j < b.len() implies !before(
            #[trigger] b[j],
            #[trigger] b[i],
        ) by {
            if j == p {
                assert(b[i] == a[i]);
            } else if i == p {
                assert(b[j] == a[j - 1]);
                assert(before(s_view, a[j - 1]));
                if before(a[j - 1], s_view) {
                    text::before_transitive(s_view, a[j - 1], s_view);
                    text::before_irreflexive(s_view);
                }
            } else {
                let ii = if i < p {
                    i
                } else {
                    i - 1
                };
                let jj = if j < p {
                    j
                } else {
                    j - 1
                };
                assert(b[i] == a[ii]);
                assert(b[j] == a[jj]);
            }
        }
        if strictly_sorted(a) && !a.contains(s_view) {
            assert forall|i: int, j: int| 0 <= i < j < b.len() implies before(
                #[trigger] b[i],
                #[trigger] b[j],
            ) by {
                if j == p {
                    assert(b[i] == a[i]);
                    assert(a[i] != s_view);
                    text::before_total(a[i], s_view);
                } else if i == p {
                    assert(b[j] == a[j - 1]);
                } else {
                    let ii = if i < p {
                        i
                    } else {
                        i - 1
                    };
                    let jj = if j < p {
                        j
                    } else {
                        j - 1
                    };
                    assert(b[i] == a[ii]);
                    assert(b[j] == a[jj]);
                }
            }
        }
    }
}

/// Sorts texts and keeps one of each.
pub fn sort_dedup(v: &Vec<String>) -> (r: Vec<String>)
    ensures
        strictly_sorted(views(r@)),
        forall|s: Seq<char>| #[trigger] views(r@).contains(s) <==> views(v@).contains(s),
{
    let mut r: Vec<String> = Vec::new();
    let mut i: usize = 0;
    while i < v.len()
        invariant
            0 <= i <= v@.len(),
            strictly_sorted(views(r@)),
            sorted(views(r@)),
            forall|s: Seq<char>| #[trigger]
                views(r@).contains(s) <==> exists|k: int| 0 <= k < i && (#[trigger] v@[k])@ == s,
        decreases v@.len() - i,
    {
        let mut found = false;
        let mut k: usize = 0;
        while k < r.len()
            invariant
                0 <= k <= r@.len(),
                0 <= i < v@.len(),
                found <==> exists|m: int| 0 <= m < k && (#[trigger] views(r@)[m]) == v@[i as int]@,
            decreases r@.len() - k,
        {
            if text::same(r[k].as_str(), v[i].as_str()) {
                assert(views(r@)[k as int] == v@[i as int]@);
                found = true;
            }
            k = k + 1;
        }
        let ghost before_r = r@;
        if !found {
            let s = v[i].clone();
            assert(!views(r@).contains(s@));
            insert_sorted(&mut r, s);
            proof {
                let p = choose|p: int|
                    0 <= p <= before_r.len() && r@ == before_r.insert(p, s) && views(r@)
                        == #[trigger] views(before_r).insert(p, s@);
                assert forall|t: Seq<char>| #[trigger] views(r@).contains(t) <==> views(
                    before_r,
                ).contains(t) || t == s@ by {
                    let a = views(before_r);
                    let b = views(r@);
                    if b.contains(t) {
                        let m = choose|m: int| 0 <= m < b.len() && b[m] == t;
                        if m < p {
                            assert(a[m] == t);
                        } else if m > p {
                            assert(a[m - 1] == t);
                        }
                    }
                    if a.contains(t) {
                        let m = choose|m: int| 0 <= m < a.len() && a[m] == t;
                        if m < p {
                            assert(b[m] == t);
                        } else {
                            assert(b[m + 1] == t);
                        }
                    }
                    if t == s@ {
                        assert(b[p] == t);
                    }
                }
            }
        }
        proof {
            assert forall|s: Seq<char>| #[trigger] views(r@).contains(s) <==> exists|k: int|
                0 <= k < i + 1 && (#[trigger] v@[k])@ == s by {
                if found {
                    let m = choose|m: int|
                        0 <= m < r@.len() && (#[trigger] views(r@)[m]) == v@[i as int]@;
                    assert(views(r@).contains(v@[i as int]@));
                }
                if exists|k: int| 0 <= k < i && (#[trigger] v@[k])@ == s {
                    assert(views(before_r).contains(s));
                }
                if views(before_r).contains(s) {
                    let k = choose|k: int| 0 <= k < i && (#[trigger] v@[k])@ == s;
                    assert(0 <= k < i + 1 && v@[k]@ == s);
                }
                if s == v@[i as int]@ {
                    assert(0 <= i < i + 1 && v@[i as int]@ == s);
                }
            }
        }
        i = i + 1;
    }
    proof {
        assert forall|s: Seq<char>| #[trigger] views(r@).contains(s) <==> views(v@).contains(s) by {
            if views(v@).contains(s) {
                let k = choose|k: int| 0 <= k < views(v@).len() && views(v@)[k] == s;
                assert(v@[k]@ == s);
            }
            if views(r@).contains(s) {
                let k = choose|k: int| 0 <= k < i && (#[trigger] v@[k])@ == s;
                assert(views(v@)[k] == s);
            }
        }
    }
    r
}

/// The views of a sequence of pairs.
pub open spec fn pair_views(v: Seq<(String, String)>) -> Seq<(Seq<char>, Seq<char>)> {
    Seq::new(v.len(), |i: int| (v[i].0@, v[i].1@))
}

/// The key of each pair comes before those of the pairs behind it.
pub open spec fn keys_sorted(v: Seq<(Seq<char>, Seq<char>)>) -> bool {
    forall|i: int, j: int| 0 <= i < j < v.len() ==> before((#[trigger] v[i]).0, (#[trigger] v[j]).0)
}

/// `r` holds the pairs of `v`, sorted by key.
pub open spec fn sorts_pairs(
    v: Seq<(Seq<char>, Seq<char>)>,
    r: Seq<(Seq<char>, Seq<char>)>,
) -> bool {
    &&& keys_sorted(r)
    &&& r.len() == v.len()
    &&& forall|p: (Seq<char>, Seq<char>)| #[trigger] r.contains(p) <==> v.contains(p)
}

/// Sorts pairs by their keys, which should all be different.
pub fn sort_pairs(v: &Vec<(String, String)>) -> (r: Vec<(String, String)>)
    ensures
        r@.len() == v@.len(),
        distinct_keys(v@) ==> sorts_pairs(pair_views(v@), pair_views(r@)),
{
    let mut r: Vec<(String, String)> = Vec::new();
    let mut i: usize = 0;
    while i < v.len()
        invariant
            0 <= i <= v@.len(),
            r@.len() == i,
            distinct_keys(v@) ==> keys_sorted(pair_views(r@)),
            distinct_keys(v@) ==> forall|p: (Seq<char>, Seq<char>)| #[trigger]
                pair_views(r@).contains(p) <==> pair_views(v@).take(i as int).contains(p),
        decreases v@.len() - i,
    {
        let key = v[i].0.clone();
        let value = v[i].1.clone();
        let ghost x = (key@, value@);
        let mut p: usize = 0;
        while p < r.len() && text::comes_before(r[p].0.as_str(), key.as_str())
            invariant
                0 <= p <= r@.len(),
                forall|k: int| 0 <= k < p ==> before((#[trigger] pair_views(r@)[k]).0, key@),
            decreases r@.len() - p,
        {
            p = p + 1;
        }
        let ghost was = pair_views(r@);
        let ghost taken = pair_views(v@).take(i as int);
        r.insert(p, (key, value));
        proof {
            if distinct_keys(v@) {
                let b = pair_views(r@);
                assert(b =~= was.insert(p as int, x));
                assert(pair_views(v@)[i as int] == x);
                assert forall|k: int| 0 <= k < was.len() implies (#[trigger] was[k]).0 != key@ by {
                    assert(was.contains(was[k]));
                    assert(taken.contains(was[k]));
                    let m = choose|m: int| 0 <= m < taken.len() && taken[m] == was[k];
                    assert(v@[m].0@ != v@[i as int].0@);
                }
                assert forall|k: int| p <= k < was.len() implies before(
                    key@,
                    (#[trigger] was[k]).0,
                ) by {
                    text::before_total(was[p as int].0, key@);
                    if k > p {
                        text::before_transitive(key@, was[p as int].0, was[k].0);
                    }
                }
                assert forall|a: int, c: int| 0 <= a < c < b.len() implies before(
                    (#[trigger] b[a]).0,
                    (#[trigger] b[c]).0,
                ) by {
                    let aa = if a < p {
                        a
                    } else {
                        a - 1
                    };
                    let cc = if c < p {
                        c
                    } else {
                        c - 1
                    };
                    if a == p {
                        assert(b[c] == was[cc]);
                    } else if c == p {
                        assert(b[a] == was[aa]);
                    } else {
                        assert(b[a] == was[aa]);
                        assert(b[c] == was[cc]);
                    }
                }
                let next = pair_views(v@).take(i + 1);
                assert(next =~= taken.push(x));
                assert forall|q: (Seq<char>, Seq<char>)| #[trigger] b.contains(q) <==> next.contains(
                    q,
                ) by {
                    if b.contains(q) {
                        let m = choose|m: int| 0 <= m < b.len() && b[m] == q;
                        if m == p {
                            assert(next[i as int] == q);
                        } else {
                            let mm = if m < p {
                                m
                            } else {
                                m - 1
                            };
                            assert(was[mm] == q);
                            assert(was.contains(q));
                            assert(taken.contains(q));
                            let t = choose|t: int| 0 <= t < taken.len() && taken[t] == q;
                            assert(next[t] == q);
                        }
                    }
                    if next.contains(q) {
                        let t = choose|t: int| 0 <= t < next.len() && next[t] == q;
                        if t == i {
                            assert(b[p as int] == q);
                        } else {
                            assert(taken[t] == q);
                            assert(was.contains(q));
                            let m = choose|m: int| 0 <= m < was.len() && was[m] == q;
                            if m < p {
                                assert(b[m] == q);
                            } else {
                                assert(b[m + 1] == q);
                            }
                        }
                    }
                }
            }
        }
        i = i + 1;
    }
    proof {
        assert(pair_views(v@).take(v@.len() as int) =~= pair_views(v@));
    }
    r
}

/// Sorted texts go up, and of those that go up strictly no two are the same.
pub proof fn sorted_texts_go_up(v: Seq<Seq<char>>, i: int, j: int)
    requires
        0 <= i < j < v.len(),
    ensures
        sorted(v) ==> v[i] == v[j] || before(v[i], v[j]),
        strictly_sorted(v) ==> before(v[i], v[j]) && v[i] != v[j],
{
    text::before_total(v[i], v[j]);
    text::before_irreflexive(v[i]);
}

/// Sorting pairs loses none and adds none, and puts them in the order of their
/// keys.
pub proof fn sorted_pairs_go_up(
    v: Seq<(Seq<char>, Seq<char>)>,
    r: Seq<(Seq<char>, Seq<char>)>,
    i: int,
    j: int,
)
    requires
        sorts_pairs(v, r),
        0 <= i < j < r.len(),
    ensures
        before(r[i].0, r[j].0),
        r[i].0 != r[j].0,
        v.contains(r[i]),
        forall|p: (Seq<char>, Seq<char>)| v.contains(p) ==> r.contains(p),
{
    text::before_irreflexive(r[i].0);
    assert(r.contains(r[i]));
}

} // verus!
