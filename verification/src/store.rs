//! A map from names to values that keeps its entries in name order, as
//! `BTreeMap<String, V>` does; its view is the sequence of its entries.

use vstd::prelude::*;
use crate::order::{
    key_lt, lemma_key_lt_irreflexive, lemma_key_lt_total,
    lemma_key_lt_transitive, str_eq, str_lt,
};

verus! {

broadcast use vstd::string::group_string_axioms;

/// The entries are in strictly increasing name order (so no name occurs twice).
pub open spec fn sorted<T>(s: Seq<(Seq<char>, T)>) -> bool {
    forall|i: int, j: int| 0 <= i < j < s.len() ==> key_lt(#[trigger] s[i].0, #[trigger] s[j].0)
}

/// The number of leading entries whose name comes before `k`: where `k` is,
/// or would be, in the entries.
pub open spec fn lower_bound<T>(s: Seq<(Seq<char>, T)>, k: Seq<char>) -> nat
    decreases s.len(),
{
    if s.len() == 0 {
        0
    } else if key_lt(s[0].0, k) {
        1 + lower_bound(s.drop_first(), k)
    } else {
        0
    }
}

/// Whether the entries hold the name `k`, at the place `lower_bound` gives.
pub open spec fn found<T>(s: Seq<(Seq<char>, T)>, k: Seq<char>) -> bool {
    let i = lower_bound(s, k) as int;
    i < s.len() && s[i].0 == k
}

/// The value stored under `k`, if any.
pub open spec fn lookup<T>(s: Seq<(Seq<char>, T)>, k: Seq<char>) -> Option<T> {
    if found(s, k) {
        Some(s[lower_bound(s, k) as int].1)
    } else {
        None
    }
}

/// The entries with `v` stored under `k`: the entry for `k` is replaced, or a
/// new entry is put in its place in name order.
pub open spec fn put<T>(s: Seq<(Seq<char>, T)>, k: Seq<char>, v: T) -> Seq<(Seq<char>, T)> {
    let i = lower_bound(s, k) as int;
    if found(s, k) {
        s.update(i, (k, v))
    } else {
        s.insert(i, (k, v))
    }
}

/// The entries without the entry for `k`.
pub open spec fn delete<T>(s: Seq<(Seq<char>, T)>, k: Seq<char>) -> Seq<(Seq<char>, T)> {
    if found(s, k) {
        s.remove(lower_bound(s, k) as int)
    } else {
        s
    }
}

/// The names of the entries, in order.
pub open spec fn names_of<T>(s: Seq<(Seq<char>, T)>) -> Seq<Seq<char>> {
    s.map_values(|e: (Seq<char>, T)| e.0)
}

/// The leading `lower_bound` entries come before `k`, the next one does not.
pub proof fn lemma_lower_bound<T>(s: Seq<(Seq<char>, T)>, k: Seq<char>)
    ensures
        lower_bound(s, k) <= s.len(),
        forall|j: int| 0 <= j < lower_bound(s, k) ==> key_lt(#[trigger] s[j].0, k),
        lower_bound(s, k) < s.len() ==> !key_lt(s[lower_bound(s, k) as int].0, k),
    decreases s.len(),
{
    if s.len() > 0 && key_lt(s[0].0, k) {
        lemma_lower_bound(s.drop_first(), k);
        assert forall|j: int| 0 <= j < lower_bound(s, k) implies key_lt(#[trigger] s[j].0, k) by {
            if j > 0 {
                assert(s[j] == s.drop_first()[j - 1]);
            }
        }
    }
}

/// The place where the scan stops is the lower bound.
proof fn lemma_lower_bound_at<T>(s: Seq<(Seq<char>, T)>, k: Seq<char>, i: int)
    requires
        0 <= i <= s.len(),
        forall|j: int| 0 <= j < i ==> key_lt(#[trigger] s[j].0, k),
        i < s.len() ==> !key_lt(s[i].0, k),
    ensures
        lower_bound(s, k) == i,
    decreases i,
{
    if i > 0 {
        assert(key_lt(s[0].0, k));
        assert forall|j: int| 0 <= j < i - 1 implies key_lt(#[trigger] s.drop_first()[j].0, k) by {
            assert(s.drop_first()[j] == s[j + 1]);
        }
        lemma_lower_bound_at(s.drop_first(), k, i - 1);
    }
}

/// In sorted entries, an entry with name `k` stands at the lower bound of `k`.
pub proof fn lemma_key_at_lower_bound<T>(s: Seq<(Seq<char>, T)>, k: Seq<char>, j: int)
    requires
        sorted(s),
        0 <= j < s.len(),
        s[j].0 == k,
    ensures
        found(s, k),
        lower_bound(s, k) == j,
{
    lemma_lower_bound(s, k);
    let i = lower_bound(s, k) as int;
    if j < i {
        lemma_key_lt_irreflexive(k);
    } else if j > i {
        assert(key_lt(s[i].0, s[j].0));
    }
}

/// In sorted entries, `lookup` gives the value of the entry named `k`.
pub proof fn lemma_lookup_entry<T>(s: Seq<(Seq<char>, T)>, k: Seq<char>, j: int)
    requires
        sorted(s),
        0 <= j < s.len(),
        s[j].0 == k,
    ensures
        lookup(s, k) == Some(s[j].1),
{
    lemma_key_at_lower_bound(s, k, j);
}

/// In sorted entries, `lookup` finds nothing exactly when no entry is named `k`.
pub proof fn lemma_lookup_none<T>(s: Seq<(Seq<char>, T)>, k: Seq<char>)
    requires
        sorted(s),
    ensures
        lookup(s, k) is None <==> forall|j: int| 0 <= j < s.len() ==> #[trigger] s[j].0 != k,
{
    if exists|j: int| 0 <= j < s.len() && #[trigger] s[j].0 == k {
        let j = choose|j: int| 0 <= j < s.len() && #[trigger] s[j].0 == k;
        lemma_lookup_entry(s, k, j);
    }
}

/// Inserting at place `i` keeps the entries sorted when the new name fits there.
pub proof fn lemma_insert_sorted<T>(s: Seq<(Seq<char>, T)>, i: int, k: Seq<char>, v: T)
    requires
        sorted(s),
        0 <= i <= s.len(),
        i > 0 ==> key_lt(s[i - 1].0, k),
        i < s.len() ==> key_lt(k, s[i].0),
    ensures
        sorted(s.insert(i, (k, v))),
{
    let t = s.insert(i, (k, v));
    assert forall|a: int, b: int| 0 <= a < b < t.len() implies key_lt(
        #[trigger] t[a].0,
        #[trigger] t[b].0,
    ) by {
        if b < i {
            assert(t[a] == s[a] && t[b] == s[b]);
        } else if b == i {
            assert(t[a] == s[a]);
            if a < i - 1 {
                lemma_key_lt_transitive(s[a].0, s[i - 1].0, k);
            }
        } else if a == i {
            assert(t[b] == s[b - 1]);
            if b - 1 > i {
                lemma_key_lt_transitive(k, s[i].0, s[b - 1].0);
            }
        } else if a < i {
            assert(t[a] == s[a] && t[b] == s[b - 1]);
        } else {
            assert(t[a] == s[a - 1] && t[b] == s[b - 1]);
        }
    }
}

/// Removing an entry keeps the entries sorted.
pub proof fn lemma_remove_sorted<T>(s: Seq<(Seq<char>, T)>, i: int)
    requires
        sorted(s),
        0 <= i < s.len(),
    ensures
        sorted(s.remove(i)),
{
    let t = s.remove(i);
    assert forall|a: int, b: int| 0 <= a < b < t.len() implies key_lt(
        #[trigger] t[a].0,
        #[trigger] t[b].0,
    ) by {
        let a1 = if a < i {
            a
        } else {
            a + 1
        };
        let b1 = if b < i {
            b
        } else {
            b + 1
        };
        assert(t[a] == s[a1] && t[b] == s[b1]);
    }
}

/// Replacing the value of an entry keeps the entries sorted.
pub proof fn lemma_update_sorted<T>(s: Seq<(Seq<char>, T)>, i: int, v: T)
    requires
        sorted(s),
        0 <= i < s.len(),
    ensures
        sorted(s.update(i, (s[i].0, v))),
{
    let t = s.update(i, (s[i].0, v));
    assert forall|a: int, b: int| 0 <= a < b < t.len() implies key_lt(
        #[trigger] t[a].0,
        #[trigger] t[b].0,
    ) by {
        assert(t[a].0 == s[a].0 && t[b].0 == s[b].0);
    }
}

/// `put` keeps the entries sorted.
pub proof fn lemma_put_sorted<T>(s: Seq<(Seq<char>, T)>, k: Seq<char>, v: T)
    requires
        sorted(s),
    ensures
        sorted(put(s, k, v)),
{
    lemma_lower_bound(s, k);
    let i = lower_bound(s, k) as int;
    if found(s, k) {
        lemma_update_sorted(s, i, v);
        assert(s.update(i, (s[i].0, v)) == s.update(i, (k, v)));
    } else {
        if i < s.len() {
            lemma_key_lt_total(s[i].0, k);
        }
        lemma_insert_sorted(s, i, k, v);
    }
}

/// `delete` keeps the entries sorted.
pub proof fn lemma_delete_sorted<T>(s: Seq<(Seq<char>, T)>, k: Seq<char>)
    requires
        sorted(s),
    ensures
        sorted(delete(s, k)),
{
    lemma_lower_bound(s, k);
    if found(s, k) {
        lemma_remove_sorted(s, lower_bound(s, k) as int);
    }
}

/// After `put(s, k, v)`, `k` gives `v` and every other name gives what it gave before.
pub proof fn lemma_put_lookup<T>(s: Seq<(Seq<char>, T)>, k: Seq<char>, v: T, k2: Seq<char>)
    requires
        sorted(s),
    ensures
        lookup(put(s, k, v), k2) == if k2 == k {
            Some(v)
        } else {
            lookup(s, k2)
        },
{
    lemma_put_sorted(s, k, v);
    lemma_lower_bound(s, k);
    let t = put(s, k, v);
    let i = lower_bound(s, k) as int;
    assert(t[i] == (k, v));
    if k2 == k {
        lemma_lookup_entry(t, k, i);
    } else {
        lemma_lookup_none(s, k2);
        lemma_lookup_none(t, k2);
        if exists|j: int| 0 <= j < s.len() && #[trigger] s[j].0 == k2 {
            let j = choose|j: int| 0 <= j < s.len() && #[trigger] s[j].0 == k2;
            lemma_lookup_entry(s, k2, j);
            let j2 = if found(s, k) || j < i {
                j
            } else {
                j + 1
            };
            assert(t[j2] == s[j]);
            lemma_lookup_entry(t, k2, j2);
        } else {
            assert forall|j: int| 0 <= j < t.len() implies #[trigger] t[j].0 != k2 by {
                if j != i {
                    let j1 = if found(s, k) || j < i {
                        j
                    } else {
                        j - 1
                    };
                    assert(t[j] == s[j1]);
                }
            }
        }
    }
}

/// After `delete(s, k)`, `k` gives nothing and every other name gives what it gave before.
pub proof fn lemma_delete_lookup<T>(s: Seq<(Seq<char>, T)>, k: Seq<char>, k2: Seq<char>)
    requires
        sorted(s),
    ensures
        lookup(delete(s, k), k2) == if k2 == k {
            None
        } else {
            lookup(s, k2)
        },
{
    lemma_delete_sorted(s, k);
    lemma_lower_bound(s, k);
    let t = delete(s, k);
    let i = lower_bound(s, k) as int;
    lemma_lookup_none(s, k2);
    lemma_lookup_none(t, k2);
    if !found(s, k) {
        if k2 == k {
            assert forall|j: int| 0 <= j < s.len() implies #[trigger] s[j].0 != k2 by {
                if s[j].0 == k2 {
                    lemma_key_at_lower_bound(s, k, j);
                }
            }
        }
    } else if k2 == k {
        assert forall|j: int| 0 <= j < t.len() implies #[trigger] t[j].0 != k2 by {
            let j1 = if j < i {
                j
            } else {
                j + 1
            };
            assert(t[j] == s[j1]);
            if t[j].0 == k {
                lemma_key_at_lower_bound(s, k, j1);
            }
        }
    } else {
        if exists|j: int| 0 <= j < s.len() && #[trigger] s[j].0 == k2 {
            let j = choose|j: int| 0 <= j < s.len() && #[trigger] s[j].0 == k2;
            lemma_lookup_entry(s, k2, j);
            assert(j != i);
            let j2 = if j < i {
                j
            } else {
                j - 1
            };
            assert(t[j2] == s[j]);
            lemma_lookup_entry(t, k2, j2);
        } else {
            assert forall|j: int| 0 <= j < t.len() implies #[trigger] t[j].0 != k2 by {
                let j1 = if j < i {
                    j
                } else {
                    j + 1
                };
                assert(t[j] == s[j1]);
            }
        }
    }
}

/// Every entry of `put(s, k, v)` is `(k, v)` or the entry of `s` at the
/// place that this gives.
pub proof fn lemma_put_entries<T>(s: Seq<(Seq<char>, T)>, k: Seq<char>, v: T, i: int) -> (j: int)
    requires
        0 <= i < put(s, k, v).len(),
    ensures
        j == -1 ==> put(s, k, v)[i] == (k, v),
        j != -1 ==> 0 <= j < s.len() && put(s, k, v)[i] == s[j],
{
    lemma_lower_bound(s, k);
    let b = lower_bound(s, k) as int;
    if found(s, k) {
        if i != b {
            i
        } else {
            -1
        }
    } else {
        if i < b {
            i
        } else if i > b {
            i - 1
        } else {
            -1
        }
    }
}

/// Every entry of `delete(s, k)` is the entry of `s` at the place that this gives.
pub proof fn lemma_delete_entries<T>(s: Seq<(Seq<char>, T)>, k: Seq<char>, i: int) -> (j: int)
    requires
        0 <= i < delete(s, k).len(),
    ensures
        0 <= j < s.len(),
        delete(s, k)[i] == s[j],
{
    lemma_lower_bound(s, k);
    let b = lower_bound(s, k) as int;
    if found(s, k) && i >= b {
        i + 1
    } else {
        i
    }
}

/// Names mapped to values, kept in name order.
pub struct NameMap<V> {
    entries: Vec<(String, V)>,
}

impl<V: View> View for NameMap<V> {
    type V = Seq<(Seq<char>, V::V)>;

    closed spec fn view(&self) -> Seq<(Seq<char>, V::V)> {
        self.entries@.map_values(|e: (String, V)| (e.0@, e.1@))
    }
}

impl<V: View> NameMap<V> {
    /// The entries are in strictly increasing name order.
    pub open spec fn wf(&self) -> bool {
        sorted(self@)
    }

    /// An empty map.
    pub fn new() -> (m: Self)
        ensures
            m@ == Seq::<(Seq<char>, V::V)>::empty(),
            m.wf(),
    {
        let m = NameMap { entries: Vec::new() };
        assert(m@ =~= Seq::<(Seq<char>, V::V)>::empty());
        m
    }

    /// The number of entries.
    pub fn len(&self) -> (n: usize)
        ensures
            n == self@.len(),
    {
        self.entries.len()
    }

    /// The name of entry `i`.
    pub fn name_at(&self, i: usize) -> (k: &String)
        requires
            i < self@.len(),
        ensures
            k@ == self@[i as int].0,
    {
        &self.entries[i].0
    }

    /// The value of entry `i`.
    pub fn value_at(&self, i: usize) -> (v: &V)
        requires
            i < self@.len(),
        ensures
            v@ == self@[i as int].1,
    {
        &self.entries[i].1
    }

    /// Where `key` is, or would be, and whether it is there.
    pub fn search(&self, key: &str) -> (r: (usize, bool))
        ensures
            r.0 == lower_bound(self@, key@),
            r.1 == found(self@, key@),
    {
        let mut i: usize = 0;
        while i < self.entries.len() && str_lt(self.entries[i].0.as_str(), key)
            invariant
                i <= self@.len(),
                forall|j: int| 0 <= j < i ==> key_lt(#[trigger] self@[j].0, key@),
            decreases self@.len() - i,
        {
            assert(self@[i as int].0 == self.entries@[i as int].0@);
            i = i + 1;
        }
        proof {
            if i < self@.len() {
                assert(self@[i as int].0 == self.entries@[i as int].0@);
            }
            lemma_lower_bound_at(self@, key@, i as int);
        }
        let here = i < self.entries.len() && str_eq(self.entries[i].0.as_str(), key);
        proof {
            if i < self@.len() {
                assert(self@[i as int].0 == self.entries@[i as int].0@);
            }
        }
        (i, here)
    }

    /// Inserts an entry at place `i`, where its name fits in the order.
    pub fn insert_at(&mut self, i: usize, key: String, value: V)
        requires
            old(self).wf(),
            i <= old(self)@.len(),
            i > 0 ==> key_lt(old(self)@[i - 1].0, key@),
            i < old(self)@.len() ==> key_lt(key@, old(self)@[i as int].0),
        ensures
            final(self)@ == old(self)@.insert(i as int, (key@, value@)),
            final(self).wf(),
    {
        let ghost k = key@;
        let ghost v = value@;
        self.entries.insert(i, (key, value));
        assert(self@ =~= old(self)@.insert(i as int, (k, v)));
        proof {
            lemma_insert_sorted(old(self)@, i as int, k, v);
        }
    }

    /// Removes entry `i` and hands it out.
    pub fn remove_at(&mut self, i: usize) -> (e: (String, V))
        requires
            old(self).wf(),
            i < old(self)@.len(),
        ensures
            final(self)@ == old(self)@.remove(i as int),
            (e.0@, e.1@) == old(self)@[i as int],
            final(self).wf(),
    {
        let e = self.entries.remove(i);
        assert(self@ =~= old(self)@.remove(i as int));
        proof {
            lemma_remove_sorted(old(self)@, i as int);
        }
        e
    }

    /// Replaces the value of entry `i` and hands out the old value.
    pub fn replace_at(&mut self, i: usize, value: V) -> (old_value: V)
        requires
            old(self).wf(),
            i < old(self)@.len(),
        ensures
            final(self)@ == old(self)@.update(i as int, (old(self)@[i as int].0, value@)),
            old_value@ == old(self)@[i as int].1,
            final(self).wf(),
    {
        let ghost s = self@;
        let (k, old_value) = self.remove_at(i);
        proof {
            if i > 0 {
                assert(sorted(s));
                assert(key_lt(s[i - 1].0, s[i as int].0));
            }
            if i + 1 < s.len() {
                assert(key_lt(s[i as int].0, s[i + 1].0));
            }
        }
        self.insert_at(i, k, value);
        assert(self@ =~= s.update(i as int, (s[i as int].0, value@)));
        old_value
    }

    /// The value stored under `key`, if any.
    pub fn get(&self, key: &str) -> (r: Option<&V>)
        ensures
            match r {
                Some(v) => lookup(self@, key@) == Some(v@),
                None => lookup(self@, key@) is None,
            },
    {
        let (i, here) = self.search(key);
        if here {
            Some(self.value_at(i))
        } else {
            None
        }
    }

    /// Stores `value` under `key`, replacing any value stored there.
    pub fn insert(&mut self, key: String, value: V)
        requires
            old(self).wf(),
        ensures
            final(self)@ == put(old(self)@, key@, value@),
            final(self).wf(),
    {
        let ghost s = self@;
        let (i, here) = self.search(key.as_str());
        proof {
            lemma_lower_bound(s, key@);
        }
        if here {
            let _ = self.replace_at(i, value);
        } else {
            proof {
                if i < s.len() {
                    lemma_key_lt_total(s[i as int].0, key@);
                }
            }
            self.insert_at(i, key, value);
        }
    }

    /// Removes the entry for `key` and hands out its value, if there was one.
    pub fn remove(&mut self, key: &str) -> (r: Option<V>)
        requires
            old(self).wf(),
        ensures
            final(self)@ == delete(old(self)@, key@),
            match r {
                Some(v) => lookup(old(self)@, key@) == Some(v@),
                None => lookup(old(self)@, key@) is None,
            },
            final(self).wf(),
    {
        let (i, here) = self.search(key);
        if here {
            let (_, v) = self.remove_at(i);
            Some(v)
        } else {
            None
        }
    }

    /// The names, in order.
    pub fn names(&self) -> (r: Vec<String>)
        ensures
            r@.map_values(|k: String| k@) == names_of(self@),
    {
        let mut r: Vec<String> = Vec::new();
        let mut i: usize = 0;
        while i < self.entries.len()
            invariant
                i <= self@.len(),
                r@.map_values(|k: String| k@) == names_of(self@).take(i as int),
            decreases self@.len() - i,
        {
            let ghost before = r@.map_values(|k: String| k@);
            let k = self.entries[i].0.clone();
            assert(self@[i as int].0 == k@);
            r.push(k);
            assert(r@.map_values(|k: String| k@) =~= before.push(k@));
            assert(r@.map_values(|k: String| k@) =~= names_of(self@).take(i + 1));
            i = i + 1;
        }
        assert(names_of(self@).take(self@.len() as int) =~= names_of(self@));
        r
    }
}

} // verus!
