//! A map from strings to values that keeps its entries in the order in which
//! their keys came.

use vstd::prelude::*;

use crate::text;

verus! {

/// The value of the first entry from position `i` on whose key is `k`.
pub open spec fn lookup_from<V>(s: Seq<(String, V)>, k: Seq<char>, i: int) -> Option<V>
    decreases s.len() - i,
{
    if i < 0 || i >= s.len() {
        None
    } else if s[i].0@ == k {
        Some(s[i].1)
    } else {
        lookup_from(s, k, i + 1)
    }
}

/// The value that a list of entries gives to the key `k`.
pub open spec fn lookup<V>(s: Seq<(String, V)>, k: Seq<char>) -> Option<V> {
    lookup_from(s, k, 0)
}

/// No key stands in two entries.
pub open spec fn distinct_keys<V>(s: Seq<(String, V)>) -> bool {
    forall|i: int, j: int| 0 <= i < j < s.len() ==> (#[trigger] s[i]).0@ != (#[trigger] s[j]).0@
}

/// A map from strings to values.
#[derive(Debug)]
pub struct StrMap<V> {
    /// The entries, each key once.
    pub entries: Vec<(String, V)>,
}

impl<V> View for StrMap<V> {
    type V = Map<Seq<char>, V>;

    open spec fn view(&self) -> Map<Seq<char>, V> {
        Map::new(
            |k: Seq<char>| lookup(self.entries@, k) is Some,
            |k: Seq<char>| lookup(self.entries@, k)->Some_0,
        )
    }
}

impl<V> StrMap<V> {
    /// No key stands in two entries.
    pub open spec fn well_formed(&self) -> bool {
        distinct_keys(self.entries@)
    }

    /// The empty map.
    pub fn new() -> (m: StrMap<V>)
        ensures
            m.well_formed(),
            m.entries@.len() == 0,
            m@ == Map::<Seq<char>, V>::empty(),
    {
        let m: StrMap<V> = StrMap { entries: Vec::new() };
        assert(m@ =~= Map::<Seq<char>, V>::empty());
        m
    }

    /// The position of the first entry with the given key.
    pub fn position(&self, key: &str) -> (r: Option<usize>)
        ensures
            match r {
                Some(i) => i < self.entries@.len() && self.entries@[i as int].0@ == key@ && self@.contains_key(
                    key@,
                ) && self@[key@] == self.entries@[i as int].1 && forall|j: int|
                    0 <= j < i ==> (#[trigger] self.entries@[j]).0@ != key@,
                None => !self@.contains_key(key@) && forall|j: int|
                    0 <= j < self.entries@.len() ==> (#[trigger] self.entries@[j]).0@ != key@,
            },
    {
        let mut i: usize = 0;
        while i < self.entries.len()
            invariant
                0 <= i <= self.entries@.len(),
                lookup(self.entries@, key@) == lookup_from(self.entries@, key@, i as int),
                forall|j: int| 0 <= j < i ==> (#[trigger] self.entries@[j]).0@ != key@,
            decreases self.entries@.len() - i,
        {
            if text::same(self.entries[i].0.as_str(), key) {
                return Some(i);
            }
            i = i + 1;
        }
        None
    }

    /// The value of a key.
    pub fn get(&self, key: &str) -> (r: Option<&V>)
        ensures
            match r {
                Some(v) => self@.contains_key(key@) && self@[key@] == *v,
                None => !self@.contains_key(key@),
            },
    {
        match self.position(key) {
            Some(i) => Some(&self.entries[i].1),
            None => None,
        }
    }

    /// Whether the map holds a key.
    pub fn contains_key(&self, key: &str) -> (b: bool)
        ensures
            b == self@.contains_key(key@),
    {
        self.position(key).is_some()
    }

    /// The number of entries.
    pub fn len(&self) -> (n: usize)
        ensures
            n == self.entries@.len(),
    {
        self.entries.len()
    }

    /// Whether the map holds nothing.
    pub fn is_empty(&self) -> (b: bool)
        ensures
            b == (self.entries@.len() == 0),
            b == (self@ == Map::<Seq<char>, V>::empty()),
    {
        proof {
            if self.entries@.len() > 0 {
                assert(lookup(self.entries@, self.entries@[0].0@) is Some);
                assert(self@.contains_key(self.entries@[0].0@));
            } else {
                assert(self@ =~= Map::<Seq<char>, V>::empty());
            }
        }
        self.entries.len() == 0
    }

    /// Gives the key the value: in its place where the key is there already,
    /// else at the end.
    pub fn insert(&mut self, key: String, value: V)
        ensures
            final(self)@ == old(self)@.insert(key@, value),
            old(self).well_formed() ==> final(self).well_formed(),
            old(self)@.contains_key(key@) ==> final(self).entries@.len() == old(self).entries@.len(),
            !old(self)@.contains_key(key@) ==> final(self).entries@ == old(self).entries@.push((key, value)),
    {
        match self.position(key.as_str()) {
            Some(i) => {
                let ghost before = self.entries@;
                self.entries.set(i, (key, value));
                proof {
                    lookup_after_set(before, i as int, key, value);
                    assert(self@ =~= old(self)@.insert(key@, value));
                }
            },
            None => {
                let ghost before = self.entries@;
                self.entries.push((key, value));
                proof {
                    lookup_after_push(before, key, value);
                    assert(self@ =~= old(self)@.insert(key@, value));
                }
            },
        }
    }
}

proof fn lookup_after_set<V>(s: Seq<(String, V)>, i: int, key: String, value: V)
    requires
        0 <= i < s.len(),
        s[i].0@ == key@,
        forall|j: int| 0 <= j < i ==> (#[trigger] s[j]).0@ != key@,
    ensures
        forall|k: Seq<char>| #[trigger]
            lookup(s.update(i, (key, value)), k) == (if k == key@ {
                Some(value)
            } else {
                lookup(s, k)
            }),
{
    assert forall|k: Seq<char>| #[trigger]
        lookup(s.update(i, (key, value)), k) == (if k == key@ {
            Some(value)
        } else {
            lookup(s, k)
        }) by {
        lookup_after_set_from(s, i, key, value, k, 0);
    }
}

proof fn lookup_after_set_from<V>(
    s: Seq<(String, V)>,
    i: int,
    key: String,
    value: V,
    k: Seq<char>,
    from: int,
)
    requires
        0 <= i < s.len(),
        0 <= from <= s.len(),
        s[i].0@ == key@,
        forall|j: int| 0 <= j < i ==> (#[trigger] s[j]).0@ != key@,
    ensures
        k != key@ ==> lookup_from(s.update(i, (key, value)), k, from) == lookup_from(s, k, from),
        k == key@ && from <= i ==> lookup_from(s.update(i, (key, value)), k, from) == Some(value),
    decreases s.len() - from,
{
    if from < s.len() {
        lookup_after_set_from(s, i, key, value, k, from + 1);
    }
}

proof fn lookup_after_push<V>(s: Seq<(String, V)>, key: String, value: V)
    requires
        forall|j: int| 0 <= j < s.len() ==> (#[trigger] s[j]).0@ != key@,
    ensures
        forall|k: Seq<char>| #[trigger]
            lookup(s.push((key, value)), k) == (if k == key@ {
                Some(value)
            } else {
                lookup(s, k)
            }),
{
    assert forall|k: Seq<char>| #[trigger]
        lookup(s.push((key, value)), k) == (if k == key@ {
            Some(value)
        } else {
            lookup(s, k)
        }) by {
        lookup_after_push_from(s, key, value, k, 0);
    }
}

proof fn lookup_after_push_from<V>(
    s: Seq<(String, V)>,
    key: String,
    value: V,
    k: Seq<char>,
    from: int,
)
    requires
        0 <= from <= s.len(),
        forall|j: int| 0 <= j < s.len() ==> (#[trigger] s[j]).0@ != key@,
    ensures
        k != key@ ==> lookup_from(s.push((key, value)), k, from) == lookup_from(s, k, from),
        k == key@ ==> lookup_from(s.push((key, value)), k, from) == Some(value),
    decreases s.len() - from,
{
    if from < s.len() {
        lookup_after_push_from(s, key, value, k, from + 1);
    } else {
        reveal_with_fuel(lookup_from, 2);
    }
}

/// A key that stands in an entry is a key of the map, and in a well-formed map
/// its value is that entry's.
pub proof fn lookup_at<V>(s: Seq<(String, V)>, i: int)
    requires
        0 <= i < s.len(),
        distinct_keys(s),
    ensures
        lookup(s, s[i].0@) == Some(s[i].1),
{
    lookup_at_from(s, i, 0);
}

proof fn lookup_at_from<V>(s: Seq<(String, V)>, i: int, from: int)
    requires
        0 <= from <= i < s.len(),
        distinct_keys(s),
    ensures
        lookup_from(s, s[i].0@, from) == Some(s[i].1),
    decreases s.len() - from,
{
    if from < i {
        lookup_at_from(s, i, from + 1);
    }
}

/// A key that the map holds stands in one of its entries.
pub proof fn lookup_found<V>(s: Seq<(String, V)>, k: Seq<char>)
    requires
        lookup(s, k) is Some,
    ensures
        exists|i: int|
            0 <= i < s.len() && (#[trigger] s[i]).0@ == k && lookup(s, k) == Some(s[i].1),
{
    lookup_found_from(s, k, 0);
}

proof fn lookup_found_from<V>(s: Seq<(String, V)>, k: Seq<char>, from: int)
    requires
        lookup_from(s, k, from) is Some,
    ensures
        exists|i: int|
            0 <= i < s.len() && (#[trigger] s[i]).0@ == k && lookup_from(s, k, from) == Some(s[i].1),
    decreases s.len() - from,
{
    if s[from].0@ != k {
        lookup_found_from(s, k, from + 1);
    }
}

/// The map of the first `n` entries, of which a later one wins.
pub open spec fn leading<V>(s: Seq<(String, V)>, n: int) -> Map<Seq<char>, V>
    decreases n,
{
    if n <= 0 || n > s.len() {
        Map::empty()
    } else {
        leading(s, n - 1).insert(s[n - 1].0@, s[n - 1].1)
    }
}

proof fn leading_has<V>(s: Seq<(String, V)>, n: int, k: Seq<char>)
    requires
        0 <= n <= s.len(),
        distinct_keys(s),
    ensures
        leading(s, n).contains_key(k) <==> exists|i: int| 0 <= i < n && (#[trigger] s[i]).0@ == k,
        forall|i: int| 0 <= i < n && (#[trigger] s[i]).0@ == k ==> leading(s, n)[k] == s[i].1,
    decreases n,
{
    if n > 0 {
        leading_has(s, n - 1, k);
        assert(s[n - 1].0@ == s[n - 1].0@);
    }
}

/// The entries of a well-formed map, taken one after the other, make it up.
pub proof fn leading_is_view<V>(m: StrMap<V>)
    requires
        m.well_formed(),
    ensures
        leading(m.entries@, m.entries@.len() as int) == m@,
{
    let s = m.entries@;
    let n = s.len() as int;
    assert forall|k: Seq<char>| true implies (#[trigger] leading(s, n).contains_key(k)
        <==> m@.contains_key(k)) && (m@.contains_key(k) ==> leading(s, n)[k] == m@[k]) by {
        leading_has(s, n, k);
        if m@.contains_key(k) {
            lookup_found(s, k);
        }
        if exists|i: int| 0 <= i < n && (#[trigger] s[i]).0@ == k {
            let i = choose|i: int| 0 <= i < n && (#[trigger] s[i]).0@ == k;
            lookup_at(s, i);
        }
    }
    assert(leading(s, n) =~= m@);
}

} // verus!
