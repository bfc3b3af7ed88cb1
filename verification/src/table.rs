//! Small association tables: a vector of entries with distinct keys, seen as a
//! finite map from the keys' views to the values.
use vstd::prelude::*;

use crate::text::str_eq;

verus! {

/// A key that can be compared by its view.
pub trait TableKey: View + Sized {
    fn same_key(&self, other: &Self) -> (r: bool)
        ensures
            r == (self@ == other@),
    ;
}

impl TableKey for u32 {
    fn same_key(&self, other: &Self) -> (r: bool) {
        *self == *other
    }
}

impl TableKey for (u32, u32) {
    fn same_key(&self, other: &Self) -> (r: bool) {
        self.0 == other.0 && self.1 == other.1
    }
}

impl TableKey for String {
    fn same_key(&self, other: &Self) -> (r: bool) {
        str_eq(self.as_str(), other.as_str())
    }
}

/// No two entries share a key.
pub open spec fn keys_unique<K: View, V>(s: Seq<(K, V)>) -> bool {
    forall|i: int, j: int| 0 <= i < j < s.len() ==> s[i].0@ != s[j].0@
}

/// The entry holding key `k`.
pub open spec fn key_index<K: View, V>(s: Seq<(K, V)>, k: K::V) -> int {
    choose|i: int| #![trigger s[i]] 0 <= i < s.len() && s[i].0@ == k
}

/// Whether some entry holds key `k`.
pub open spec fn has_key<K: View, V>(s: Seq<(K, V)>, k: K::V) -> bool {
    exists|i: int| #![trigger s[i]] 0 <= i < s.len() && s[i].0@ == k
}

/// The map that a list of entries stands for.
pub open spec fn entries_map<K: View, V>(s: Seq<(K, V)>) -> Map<K::V, V> {
    Map::new(|k: K::V| has_key(s, k), |k: K::V| s[key_index(s, k)].1)
}

/// Each entry is in the map with its value.
pub proof fn lemma_entry<K: View, V>(s: Seq<(K, V)>, i: int)
    requires
        keys_unique(s),
        0 <= i < s.len(),
    ensures
        entries_map(s).contains_key(s[i].0@),
        entries_map(s)[s[i].0@] == s[i].1,
{
    assert(has_key(s, s[i].0@));
    let j = key_index(s, s[i].0@);
    assert(j == i);
}

/// Each key of the map comes from an entry.
pub proof fn lemma_key<K: View, V>(s: Seq<(K, V)>, k: K::V)
    requires
        keys_unique(s),
        entries_map(s).contains_key(k),
    ensures
        0 <= key_index(s, k) < s.len(),
        s[key_index(s, k)].0@ == k,
        entries_map(s)[k] == s[key_index(s, k)].1,
{
}

proof fn lemma_push<K: View, V>(s: Seq<(K, V)>, k: K, v: V)
    requires
        keys_unique(s),
        !entries_map(s).contains_key(k@),
    ensures
        keys_unique(s.push((k, v))),
        entries_map(s.push((k, v))) == entries_map(s).insert(k@, v),
{
    let t = s.push((k, v));
    assert forall|i: int| 0 <= i < s.len() implies #[trigger] s[i].0@ != k@ by {
        lemma_entry(s, i);
    }
    assert(keys_unique(t)) by {
        assert forall|i: int, j: int| 0 <= i < j < t.len() implies t[i].0@ != t[j].0@ by {
            if j == s.len() {
                assert(t[i] == s[i]);
            } else {
                assert(t[i] == s[i] && t[j] == s[j]);
            }
        }
    }
    assert forall|kk: K::V| #[trigger] entries_map(t).contains_key(kk) == entries_map(s).insert(k@, v).contains_key(kk) by {
        if has_key(t, kk) && kk != k@ {
            let i = key_index(t, kk);
            assert(t[i] == s[i]);
            assert(has_key(s, kk));
        }
        if has_key(s, kk) {
            let i = key_index(s, kk);
            assert(t[i] == s[i]);
            assert(has_key(t, kk));
        }
        if kk == k@ {
            assert(t[s.len() as int] == (k, v));
            assert(has_key(t, kk));
        }
    }
    assert forall|kk: K::V| #[trigger] entries_map(t).contains_key(kk) implies entries_map(t)[kk] == entries_map(s).insert(k@, v)[kk] by {
        if kk == k@ {
            lemma_entry(t, s.len() as int);
        } else {
            let i = key_index(s, kk);
            lemma_entry(s, i);
            assert(t[i] == s[i]);
            lemma_entry(t, i);
        }
    }
    assert(entries_map(t) =~= entries_map(s).insert(k@, v));
}

proof fn lemma_remove<K: View, V>(s: Seq<(K, V)>, i: int)
    requires
        keys_unique(s),
        0 <= i < s.len(),
    ensures
        keys_unique(s.remove(i)),
        entries_map(s.remove(i)) == entries_map(s).remove(s[i].0@),
{
    let t = s.remove(i);
    let k = s[i].0@;
    assert forall|a: int| 0 <= a < t.len() implies #[trigger] t[a] == (if a < i { s[a] } else { s[a + 1] }) by {}
    assert(keys_unique(t)) by {
        assert forall|a: int, b: int| 0 <= a < b < t.len() implies t[a].0@ != t[b].0@ by {
            assert(t[a] == (if a < i { s[a] } else { s[a + 1] }));
            assert(t[b] == (if b < i { s[b] } else { s[b + 1] }));
        }
    }
    assert forall|kk: K::V| #[trigger] entries_map(t).contains_key(kk) == entries_map(s).remove(k).contains_key(kk) by {
        if has_key(t, kk) {
            let a = key_index(t, kk);
            let b = if a < i { a } else { a + 1 };
            assert(t[a] == s[b]);
            assert(has_key(s, kk));
            if kk == k {
                assert(s[b].0@ == s[i].0@);
            }
        }
        if has_key(s, kk) && kk != k {
            let b = key_index(s, kk);
            assert(b != i);
            let a = if b < i { b } else { b - 1 };
            assert(t[a] == s[b]);
            assert(has_key(t, kk));
        }
    }
    assert forall|kk: K::V| #[trigger] entries_map(t).contains_key(kk) implies entries_map(t)[kk] == entries_map(s).remove(k)[kk] by {
        let a = key_index(t, kk);
        let b = if a < i { a } else { a + 1 };
        assert(t[a] == s[b]);
        lemma_entry(t, a);
        lemma_entry(s, b);
    }
    assert(entries_map(t) =~= entries_map(s).remove(k));
}

/// A finite map kept as a vector of entries with distinct keys.
#[derive(Debug)]
pub struct Table<K, V> {
    entries: Vec<(K, V)>,
}

impl<K: View, V> View for Table<K, V> {
    type V = Map<K::V, V>;

    closed spec fn view(&self) -> Map<K::V, V> {
        entries_map(self.entries@)
    }
}

impl<K: TableKey, V> Table<K, V> {
    /// The entries, in storage order.
    pub closed spec fn entries(&self) -> Seq<(K, V)> {
        self.entries@
    }

    /// Keys are distinct.
    pub closed spec fn wf(&self) -> bool {
        keys_unique(self.entries@)
    }

    /// The entries are exactly the map's pairs.
    pub proof fn lemma_entries(&self)
        requires
            self.wf(),
        ensures
            keys_unique(self.entries()),
            self@ == entries_map(self.entries()),
    {
    }

    /// An empty table.
    pub fn new() -> (t: Self)
        ensures
            t.wf(),
            t@ == Map::<K::V, V>::empty(),
            t.entries().len() == 0,
    {
        let t = Table { entries: Vec::new() };
        assert(entries_map(t.entries@) =~= Map::<K::V, V>::empty());
        t
    }

    /// Number of entries.
    pub fn count(&self) -> (n: usize)
        ensures
            n == self.entries().len(),
    {
        self.entries.len()
    }

    /// Key of the entry at `i`.
    pub fn key_at(&self, i: usize) -> (k: &K)
        requires
            i < self.entries().len(),
        ensures
            *k == self.entries()[i as int].0,
    {
        &self.entries[i].0
    }

    /// Value of the entry at `i`.
    pub fn value_at(&self, i: usize) -> (v: &V)
        requires
            i < self.entries().len(),
        ensures
            *v == self.entries()[i as int].1,
    {
        &self.entries[i].1
    }

    /// Position of the entry holding `k`.
    pub fn find(&self, k: &K) -> (r: Option<usize>)
        requires
            self.wf(),
        ensures
            match r {
                Some(i) => i < self.entries().len() && self.entries()[i as int].0@ == k@
                    && self@.contains_key(k@) && self@[k@] == self.entries()[i as int].1,
                None => !self@.contains_key(k@),
            },
    {
        let mut i: usize = 0;
        while i < self.entries.len()
            invariant
                i <= self.entries@.len(),
                keys_unique(self.entries@),
                forall|j: int| 0 <= j < i ==> #[trigger] self.entries@[j].0@ != k@,
            decreases self.entries@.len() - i,
        {
            if self.entries[i].0.same_key(k) {
                proof {
                    lemma_entry(self.entries@, i as int);
                }
                return Some(i);
            }
            i += 1;
        }
        proof {
            if has_key(self.entries@, k@) {
                let j = key_index(self.entries@, k@);
                assert(self.entries@[j].0@ != k@);
            }
        }
        None
    }

    /// Whether `k` has an entry.
    pub fn contains_key(&self, k: &K) -> (r: bool)
        requires
            self.wf(),
        ensures
            r == self@.contains_key(k@),
    {
        self.find(k).is_some()
    }

    /// The value of `k`.
    pub fn get(&self, k: &K) -> (r: Option<&V>)
        requires
            self.wf(),
        ensures
            match r {
                Some(v) => self@.contains_key(k@) && *v == self@[k@],
                None => !self@.contains_key(k@),
            },
    {
        match self.find(k) {
            Some(i) => Some(&self.entries[i].1),
            None => None,
        }
    }

    /// Set the value of `k`.
    pub fn insert(&mut self, k: K, v: V)
        requires
            old(self).wf(),
        ensures
            final(self).wf(),
            final(self)@ == old(self)@.insert(k@, v),
    {
        match self.find(&k) {
            Some(i) => {
                proof {
                    lemma_remove(self.entries@, i as int);
                }
                let _ = self.entries.remove(i);
            },
            None => {},
        }
        proof {
            lemma_push(self.entries@, k, v);
        }
        let ghost kv = k@;
        self.entries.push((k, v));
        assert(old(self)@.remove(kv).insert(kv, v) =~= old(self)@.insert(kv, v));
    }

    /// Drop the entry of `k`, handing back its value.
    pub fn remove(&mut self, k: &K) -> (r: Option<V>)
        requires
            old(self).wf(),
        ensures
            final(self).wf(),
            final(self)@ == old(self)@.remove(k@),
            r == (if old(self)@.contains_key(k@) { Some(old(self)@[k@]) } else { None::<V> }),
    {
        match self.find(k) {
            Some(i) => {
                proof {
                    lemma_remove(self.entries@, i as int);
                }
                let e = self.entries.remove(i);
                Some(e.1)
            },
            None => {
                assert(old(self)@.remove(k@) =~= old(self)@);
                None
            },
        }
    }
}

} // verus!
