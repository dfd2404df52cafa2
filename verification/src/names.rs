use vstd::prelude::*;
use crate::text::str_eq;

verus! {

/// The mathematical content of a [`NameMap`]: its entries, oldest first.
pub type Entries = Seq<(Seq<char>, Seq<char>)>;

/// No two entries share a key.
pub open spec fn distinct_keys(s: Entries) -> bool {
    forall|i: int, j: int| 0 <= i < j < s.len() ==> (#[trigger] s[i]).0 != (#[trigger] s[j]).0
}

/// Some entry of `s` has the key `key`.
pub open spec fn has_key(s: Entries, key: Seq<char>) -> bool {
    exists|i: int| 0 <= i < s.len() && (#[trigger] s[i]).0 == key
}

/// The position of an entry with the key `key`; with distinct keys there is at most one.
pub open spec fn index_of(s: Entries, key: Seq<char>) -> int {
    choose|i: int| 0 <= i < s.len() && (#[trigger] s[i]).0 == key
}

/// The value stored under `key`, if any.
pub open spec fn value_of(s: Entries, key: Seq<char>) -> Option<Seq<char>> {
    if has_key(s, key) {
        Some(s[index_of(s, key)].1)
    } else {
        None
    }
}

/// `s` after storing `value` under `key`: an existing entry keeps its place and takes the
/// new value, a new key goes to the end.
pub open spec fn with_entry(s: Entries, key: Seq<char>, value: Seq<char>) -> Entries {
    if has_key(s, key) {
        s.update(index_of(s, key), (key, value))
    } else {
        s.push((key, value))
    }
}

/// `s` without the entry for `key`.
pub open spec fn without_key(s: Entries, key: Seq<char>) -> Entries {
    if has_key(s, key) {
        s.remove(index_of(s, key))
    } else {
        s
    }
}

/// With distinct keys, an entry found under `key` is the one that `index_of` names.
pub proof fn lemma_index_of(s: Entries, key: Seq<char>, i: int)
    requires
        distinct_keys(s),
        0 <= i < s.len(),
        s[i].0 == key,
    ensures
        has_key(s, key),
        index_of(s, key) == i,
        value_of(s, key) == Some(s[i].1),
{
    let k = index_of(s, key);
    assert(0 <= k < s.len() && s[k].0 == key);
    if k < i {
        assert(s[k].0 != s[i].0);
    } else if i < k {
        assert(s[i].0 != s[k].0);
    }
}

/// Storing and removing entries keeps the keys distinct, and a stored value is found again
/// while the other keys keep theirs.
pub proof fn lemma_with_entry(s: Entries, key: Seq<char>, value: Seq<char>, other: Seq<char>)
    requires
        distinct_keys(s),
    ensures
        distinct_keys(with_entry(s, key, value)),
        value_of(with_entry(s, key, value), key) == Some(value),
        other != key ==> value_of(with_entry(s, key, value), other) == value_of(s, other),
{
    let t = with_entry(s, key, value);
    if has_key(s, key) {
        let k = index_of(s, key);
        assert forall|i: int, j: int| 0 <= i < j < t.len() implies (#[trigger] t[i]).0 != (
        #[trigger] t[j]).0 by {
            assert(s[i].0 != s[j].0);
        }
        lemma_index_of(t, key, k);
        if other != key {
            if has_key(s, other) {
                let o = index_of(s, other);
                assert(t[o] == s[o]);
                lemma_index_of(t, other, o);
            } else {
                if has_key(t, other) {
                    let o = index_of(t, other);
                    assert(s[o].0 == other);
                }
            }
        }
    } else {
        assert forall|i: int, j: int| 0 <= i < j < t.len() implies (#[trigger] t[i]).0 != (
        #[trigger] t[j]).0 by {
            if j < s.len() {
                assert(s[i].0 != s[j].0);
            } else {
                assert(t[i] == s[i]);
            }
        }
        lemma_index_of(t, key, s.len() as int);
        if other != key {
            if has_key(s, other) {
                let o = index_of(s, other);
                assert(t[o] == s[o]);
                lemma_index_of(t, other, o);
            } else {
                if has_key(t, other) {
                    let o = index_of(t, other);
                    assert(o < s.len());
                    assert(s[o].0 == other);
                }
            }
        }
    }
}

/// Removing a key keeps the keys distinct, forgets that key and leaves the others alone.
pub proof fn lemma_without_key(s: Entries, key: Seq<char>, other: Seq<char>)
    requires
        distinct_keys(s),
    ensures
        distinct_keys(without_key(s, key)),
        value_of(without_key(s, key), key) is None,
        other != key ==> value_of(without_key(s, key), other) == value_of(s, other),
{
    let t = without_key(s, key);
    if has_key(s, key) {
        let k = index_of(s, key);
        assert forall|i: int| 0 <= i < t.len() implies #[trigger] t[i] == s[if i < k {
            i
        } else {
            i + 1
        }] by {}
        assert forall|i: int, j: int| 0 <= i < j < t.len() implies (#[trigger] t[i]).0 != (
        #[trigger] t[j]).0 by {
            let a = if i < k { i } else { i + 1 };
            let b = if j < k { j } else { j + 1 };
            assert(s[a].0 != s[b].0);
        }
        if has_key(t, key) {
            let o = index_of(t, key);
            let a = if o < k { o } else { o + 1 };
            assert(s[a].0 == key);
            lemma_index_of(s, key, a);
        }
        if other != key {
            if has_key(s, other) {
                let o = index_of(s, other);
                let a = if o < k { o } else { o - 1 };
                assert(t[a] == s[o]);
                lemma_index_of(t, other, a);
            } else {
                if has_key(t, other) {
                    let o = index_of(t, other);
                    let a = if o < k { o } else { o + 1 };
                    assert(s[a].0 == other);
                }
            }
        }
    }
}

/// A map from names to string values that keeps its entries in the order in which their
/// keys first came. Keys are unique.
#[derive(Debug)]
pub struct NameMap {
    entries: Vec<(String, String)>,
}

impl View for NameMap {
    type V = Entries;

    closed spec fn view(&self) -> Entries {
        self.entries@.map_values(|e: (String, String)| (e.0@, e.1@))
    }
}

impl NameMap {
    /// The invariant of the type: no key occurs twice.
    pub open spec fn wf(&self) -> bool {
        distinct_keys(self@)
    }

    /// A map without entries.
    pub fn new() -> (r: NameMap)
        ensures
            r@ == Entries::empty(),
            r.wf(),
    {
        let r = NameMap { entries: Vec::new() };
        assert(r@ =~= Entries::empty());
        r
    }

    /// The number of entries.
    pub fn len(&self) -> (r: usize)
        ensures
            r == self@.len(),
    {
        self.entries.len()
    }

    /// Whether the map has no entry.
    pub fn is_empty(&self) -> (r: bool)
        ensures
            r == (self@.len() == 0),
    {
        self.entries.len() == 0
    }

    /// The key of the entry at position `index`.
    pub fn key_at(&self, index: usize) -> (r: &str)
        requires
            index < self@.len(),
        ensures
            r@ == self@[index as int].0,
    {
        self.entries[index].0.as_str()
    }

    /// The value of the entry at position `index`.
    pub fn value_at(&self, index: usize) -> (r: &str)
        requires
            index < self@.len(),
        ensures
            r@ == self@[index as int].1,
    {
        self.entries[index].1.as_str()
    }

    /// The position of the entry for `key`.
    pub fn position(&self, key: &str) -> (r: Option<usize>)
        requires
            self.wf(),
        ensures
            match r {
                Some(i) => has_key(self@, key@) && i == index_of(self@, key@),
                None => !has_key(self@, key@),
            },
    {
        let mut i: usize = 0;
        while i < self.entries.len()
            invariant
                i <= self.entries.len(),
                self.wf(),
                forall|j: int| 0 <= j < i ==> (#[trigger] self@[j]).0 != key@,
            decreases self.entries.len() - i,
        {
            if str_eq(self.entries[i].0.as_str(), key) {
                proof {
                    lemma_index_of(self@, key@, i as int);
                }
                return Some(i);
            }
            i += 1;
        }
        None
    }

    /// Whether the map has an entry for `key`.
    pub fn contains_key(&self, key: &str) -> (r: bool)
        requires
            self.wf(),
        ensures
            r == has_key(self@, key@),
    {
        self.position(key).is_some()
    }

    /// The value stored under `key`.
    pub fn get(&self, key: &str) -> (r: Option<&str>)
        requires
            self.wf(),
        ensures
            match r {
                Some(v) => value_of(self@, key@) == Some(v@),
                None => value_of(self@, key@) is None,
            },
    {
        match self.position(key) {
            Some(i) => Some(self.entries[i].1.as_str()),
            None => None,
        }
    }

    /// Stores `value` under `key` and returns the value that was there before.
    pub fn insert(&mut self, key: String, value: String) -> (r: Option<String>)
        requires
            old(self).wf(),
        ensures
            final(self).wf(),
            final(self)@ == with_entry(old(self)@, key@, value@),
            match r {
                Some(v) => value_of(old(self)@, key@) == Some(v@),
                None => value_of(old(self)@, key@) is None,
            },
    {
        proof {
            lemma_with_entry(self@, key@, value@, key@);
        }
        match self.position(key.as_str()) {
            Some(i) => {
                let previous = self.entries.remove(i);
                self.entries.insert(i, (key, value));
                assert(self@ =~= with_entry(old(self)@, key@, value@));
                Some(previous.1)
            },
            None => {
                self.entries.push((key, value));
                assert(self@ =~= with_entry(old(self)@, key@, value@));
                None
            },
        }
    }

    /// Removes the entry for `key` and returns its value.
    pub fn remove(&mut self, key: &str) -> (r: Option<String>)
        requires
            old(self).wf(),
        ensures
            final(self).wf(),
            final(self)@ == without_key(old(self)@, key@),
            match r {
                Some(v) => value_of(old(self)@, key@) == Some(v@),
                None => value_of(old(self)@, key@) is None,
            },
    {
        proof {
            lemma_without_key(self@, key@, key@);
        }
        match self.position(key) {
            Some(i) => {
                let previous = self.entries.remove(i);
                assert(self@ =~= without_key(old(self)@, key@));
                Some(previous.1)
            },
            None => None,
        }
    }
}

} // verus!
