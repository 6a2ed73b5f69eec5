//! Dictionaries keyed by strings that keep the order in which keys came.

use crate::text::str_eq;
use vstd::prelude::*;

verus! {

/// Whether no key stands twice in `m`.
pub open spec fn unique_keys<T>(m: Seq<(Seq<char>, T)>) -> bool {
    forall|i: int, j: int| 0 <= i < j < m.len() ==> (#[trigger] m[i]).0 != (#[trigger] m[j]).0
}

/// Whether `m` has an entry for `k`.
pub open spec fn has_key<T>(m: Seq<(Seq<char>, T)>, k: Seq<char>) -> bool {
    exists|i: int| 0 <= i < m.len() && (#[trigger] m[i]).0 == k
}

/// A position at which `k` stands in `m`, where it has one.
pub open spec fn index_of<T>(m: Seq<(Seq<char>, T)>, k: Seq<char>) -> int {
    choose|i: int| 0 <= i < m.len() && (#[trigger] m[i]).0 == k
}

/// The value that `m` holds for `k`.
pub open spec fn lookup<T>(m: Seq<(Seq<char>, T)>, k: Seq<char>) -> Option<T> {
    if has_key(m, k) {
        Some(m[index_of(m, k)].1)
    } else {
        None
    }
}

/// `m` with `v` for `k`: in the place of the entry for `k` where there is one,
/// at the end otherwise.
pub open spec fn put<T>(m: Seq<(Seq<char>, T)>, k: Seq<char>, v: T) -> Seq<(Seq<char>, T)> {
    if has_key(m, k) {
        m.update(index_of(m, k), (k, v))
    } else {
        m.push((k, v))
    }
}

/// `m` without its entry for `k`, the others in their order.
pub open spec fn delete<T>(m: Seq<(Seq<char>, T)>, k: Seq<char>) -> Seq<(Seq<char>, T)> {
    if has_key(m, k) {
        m.remove(index_of(m, k))
    } else {
        m
    }
}

/// Where keys are unique, the entry at a position is the one found by its key.
pub proof fn lemma_lookup_at<T>(m: Seq<(Seq<char>, T)>, i: int)
    requires
        unique_keys(m),
        0 <= i < m.len(),
    ensures
        has_key(m, m[i].0),
        index_of(m, m[i].0) == i,
        lookup(m, m[i].0) == Some(m[i].1),
{
    assert(m[i].0 == m[i].0);
    let j = index_of(m, m[i].0);
    if j < i {
        assert(m[j].0 != m[i].0);
    } else if i < j {
        assert(m[i].0 != m[j].0);
    }
}

/// Putting a value keeps keys unique, and the value is then found under its key.
pub proof fn lemma_put_same<T>(m: Seq<(Seq<char>, T)>, k: Seq<char>, v: T)
    requires
        unique_keys(m),
    ensures
        unique_keys(put(m, k, v)),
        lookup(put(m, k, v), k) == Some(v),
{
    let n = put(m, k, v);
    if has_key(m, k) {
        let i = index_of(m, k);
        assert forall|a: int, b: int| 0 <= a < b < n.len() implies (#[trigger] n[a]).0 != (
        #[trigger] n[b]).0 by {
            assert(m[a].0 != m[b].0);
        }
        assert(n[i] == (k, v));
        lemma_lookup_at(n, i);
    } else {
        assert forall|a: int, b: int| 0 <= a < b < n.len() implies (#[trigger] n[a]).0 != (
        #[trigger] n[b]).0 by {
            if b < m.len() {
                assert(m[a].0 != m[b].0);
            } else {
                assert(n[a] == m[a]);
            }
        }
        assert(n[m.len() as int] == (k, v));
        lemma_lookup_at(n, m.len() as int);
    }
}

/// Putting a value under one key changes nothing under another.
pub proof fn lemma_put_other<T>(m: Seq<(Seq<char>, T)>, k: Seq<char>, v: T, other: Seq<char>)
    requires
        unique_keys(m),
        other != k,
    ensures
        lookup(put(m, k, v), other) == lookup(m, other),
{
    let n = put(m, k, v);
    lemma_put_same(m, k, v);
    if has_key(m, other) {
        let i = index_of(m, other);
        if has_key(m, k) {
            assert(index_of(m, k) != i);
        }
        assert(n[i] == m[i]);
        lemma_lookup_at(n, i);
    } else {
        if has_key(n, other) {
            let j = index_of(n, other);
            if j < m.len() {
                if has_key(m, k) && j == index_of(m, k) {
                    assert(n[j].0 == k);
                } else {
                    assert(n[j] == m[j]);
                    assert(m[j].0 == other);
                }
            } else {
                assert(n[j].0 == k);
            }
            assert(false);
        }
    }
}

/// Deleting a key keeps keys unique, leaves nothing under that key and changes
/// nothing under another.
pub proof fn lemma_delete<T>(m: Seq<(Seq<char>, T)>, k: Seq<char>, other: Seq<char>)
    requires
        unique_keys(m),
    ensures
        unique_keys(delete(m, k)),
        lookup(delete(m, k), k) is None,
        other != k ==> lookup(delete(m, k), other) == lookup(m, other),
{
    let n = delete(m, k);
    if has_key(m, k) {
        let i = index_of(m, k);
        assert forall|a: int| 0 <= a < n.len() implies #[trigger] n[a] == m[if a < i {
            a
        } else {
            a + 1
        }] by {}
        assert forall|a: int, b: int| 0 <= a < b < n.len() implies (#[trigger] n[a]).0 != (
        #[trigger] n[b]).0 by {
            let a2 = if a < i {
                a
            } else {
                a + 1
            };
            let b2 = if b < i {
                b
            } else {
                b + 1
            };
            assert(m[a2].0 != m[b2].0);
        }
        if has_key(n, k) {
            let j = index_of(n, k);
            let j2 = if j < i {
                j
            } else {
                j + 1
            };
            assert(n[j] == m[j2]);
            lemma_lookup_at(m, i);
            lemma_lookup_at(m, j2);
            assert(false);
        }
        if other != k {
            if has_key(m, other) {
                let p = index_of(m, other);
                assert(p != i);
                let q = if p < i {
                    p
                } else {
                    p - 1
                };
                assert(n[q] == m[p]);
                lemma_lookup_at(n, q);
            } else {
                if has_key(n, other) {
                    let j = index_of(n, other);
                    let j2 = if j < i {
                        j
                    } else {
                        j + 1
                    };
                    assert(n[j] == m[j2]);
                    assert(m[j2].0 == other);
                    assert(false);
                }
            }
        }
    }
}

/// The content of a list of pairs of a string and a value.
pub open spec fn pairs_view<V: View>(v: Seq<(String, V)>) -> Seq<(Seq<char>, V::V)> {
    Seq::new(v.len(), |i: int| (v[i].0@, v[i].1@))
}

/// The items of `v` from the last to the first.
pub fn reversed<T>(v: Vec<T>) -> (r: Vec<T>)
    ensures
        r@ == v@.reverse(),
{
    let mut v = v;
    let ghost all = v@;
    let mut out: Vec<T> = Vec::new();
    while v.len() > 0
        invariant
            v@.len() + out@.len() == all.len(),
            forall|j: int| 0 <= j < v@.len() ==> v@[j] == all[j],
            forall|j: int| 0 <= j < out@.len() ==> out@[j] == all[all.len() - 1 - j],
        decreases v.len(),
    {
        let item = v.pop().unwrap();
        out.push(item);
    }
    assert(out@ =~= all.reverse());
    out
}

/// A dictionary from strings to values of type `V`. No key stands twice, and
/// the entries stay in the order in which their keys first came.
#[derive(Debug, Clone, PartialEq)]
pub struct Dict<V> {
    entries: Vec<(String, V)>,
}

impl<V: View> View for Dict<V> {
    type V = Seq<(Seq<char>, V::V)>;

    closed spec fn view(&self) -> Seq<(Seq<char>, V::V)> {
        Seq::new(self.entries.len() as nat, |i: int| (self.entries[i].0@, self.entries[i].1@))
    }
}

impl<V: View> Dict<V> {
    /// Whether the dictionary is in order: no key stands twice.
    pub open spec fn wf(&self) -> bool {
        unique_keys(self@)
    }

    /// The empty dictionary.
    pub fn new() -> (r: Dict<V>)
        ensures
            r@ == Seq::<(Seq<char>, V::V)>::empty(),
            r.wf(),
    {
        let r = Dict { entries: Vec::new() };
        assert(r@ =~= Seq::<(Seq<char>, V::V)>::empty());
        r
    }

    /// The number of entries.
    pub fn len(&self) -> (r: usize)
        ensures
            r == self@.len(),
    {
        self.entries.len()
    }

    /// The key of the entry at position `i`.
    pub fn key_at(&self, i: usize) -> (r: &str)
        requires
            i < self@.len(),
        ensures
            r@ == self@[i as int].0,
    {
        self.entries[i].0.as_str()
    }

    /// The value of the entry at position `i`.
    pub fn value_at(&self, i: usize) -> (r: &V)
        requires
            i < self@.len(),
        ensures
            r@ == self@[i as int].1,
    {
        &self.entries[i].1
    }

    /// The position of the entry for `key`, if there is one.
    pub fn find(&self, key: &str) -> (r: Option<usize>)
        ensures
            match r {
                Some(i) => i < self@.len() && self@[i as int].0 == key@,
                None => !has_key(self@, key@),
            },
    {
        let mut i: usize = 0;
        while i < self.entries.len()
            invariant
                i <= self.entries.len(),
                forall|j: int| 0 <= j < i ==> (#[trigger] self@[j]).0 != key@,
            decreases self.entries.len() - i,
        {
            if str_eq(self.entries[i].0.as_str(), key) {
                return Some(i);
            }
            i += 1;
        }
        None
    }

    /// The value for `key`, if there is one.
    pub fn get(&self, key: &str) -> (r: Option<&V>)
        requires
            self.wf(),
        ensures
            match r {
                Some(v) => lookup(self@, key@) == Some(v@),
                None => lookup(self@, key@) is None,
            },
    {
        match self.find(key) {
            Some(i) => {
                proof {
                    lemma_lookup_at(self@, i as int);
                }
                Some(&self.entries[i].1)
            },
            None => None,
        }
    }

    /// Sets the value for `key`, and hands back the value that it had.
    pub fn insert(&mut self, key: String, value: V) -> (r: Option<V>)
        requires
            old(self).wf(),
        ensures
            final(self).wf(),
            final(self)@ == put(old(self)@, key@, value@),
            match r {
                Some(v) => lookup(old(self)@, key@) == Some(v@),
                None => lookup(old(self)@, key@) is None,
            },
    {
        proof {
            lemma_put_same(self@, key@, value@);
        }
        match self.find(key.as_str()) {
            Some(i) => {
                proof {
                    lemma_lookup_at(self@, i as int);
                }
                let mut entry = (key, value);
                self.entries.set_and_swap(i, &mut entry);
                assert(self@ =~= put(old(self)@, key@, value@));
                Some(entry.1)
            },
            None => {
                self.entries.push((key, value));
                assert(self@ =~= put(old(self)@, key@, value@));
                None
            },
        }
    }

    /// Takes out the entry at position `i`; the others keep their order.
    pub fn remove_at(&mut self, i: usize) -> (r: (String, V))
        requires
            old(self).wf(),
            i < old(self)@.len(),
        ensures
            final(self).wf(),
            final(self)@ == old(self)@.remove(i as int),
            (r.0@, r.1@) == old(self)@[i as int],
    {
        proof {
            lemma_lookup_at(self@, i as int);
            lemma_delete(self@, self@[i as int].0, self@[i as int].0);
        }
        let entry = self.entries.remove(i);
        assert(self@ =~= old(self)@.remove(i as int));
        entry
    }

    /// Takes out the entry for `key`, and hands back the value that it had.
    pub fn remove(&mut self, key: &str) -> (r: Option<V>)
        requires
            old(self).wf(),
        ensures
            final(self).wf(),
            final(self)@ == delete(old(self)@, key@),
            match r {
                Some(v) => lookup(old(self)@, key@) == Some(v@),
                None => lookup(old(self)@, key@) is None,
            },
    {
        match self.find(key) {
            Some(i) => {
                proof {
                    lemma_lookup_at(self@, i as int);
                }
                let entry = self.remove_at(i);
                Some(entry.1)
            },
            None => None,
        }
    }

    /// The dictionary with the given entries, in their order, unless a key
    /// stands twice among them.
    pub fn from_pairs(pairs: Vec<(String, V)>) -> (r: Option<Dict<V>>)
        ensures
            match r {
                Some(d) => d.wf() && d@ == pairs_view(pairs@),
                None => !unique_keys(pairs_view(pairs@)),
            },
    {
        let ghost all = pairs_view(pairs@);
        let ghost n = pairs@.len();
        let mut rest = reversed(pairs);
        let mut d: Dict<V> = Dict::new();
        assert(d@ =~= all.take(0));
        while rest.len() > 0
            invariant
                all == pairs_view(pairs@),
                all.len() == n,
                rest@.len() + d@.len() == n,
                d.wf(),
                d@ == all.take(d@.len() as int),
                forall|j: int|
                    0 <= j < rest@.len() ==> ((#[trigger] rest@[j]).0@, rest@[j].1@) == all[n - 1
                        - j],
            decreases rest.len(),
        {
            let ghost k = d@.len() as int;
            let entry = rest.pop().unwrap();
            assert((entry.0@, entry.1@) == all[k]);
            match d.find(entry.0.as_str()) {
                Some(i) => {
                    assert(all[i as int] == d@[i as int]);
                    assert(all[i as int].0 == all[k].0);
                    return None;
                },
                None => {
                    let _ = d.insert(entry.0, entry.1);
                    assert(d@ =~= all.take(k + 1));
                },
            }
        }
        assert(all.take(n as int) =~= all);
        Some(d)
    }
}

} // verus!
