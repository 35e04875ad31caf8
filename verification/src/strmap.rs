//! String-keyed map and string set with verified contracts, used for
//! connection parameters and file-format options. Keys are unique; entries
//! keep their insertion order, so every rendering of a map is deterministic.

use vstd::prelude::*;

verus! {

/// A map from strings to strings, kept as a vector of entries with pairwise
/// distinct keys.
pub struct StringMap {
    pub entries: Vec<(String, String)>,
}

/// In a vector of entries with pairwise distinct keys, the entry chosen for a
/// key is the one known to carry it.
proof fn lemma_unique_key_value(s: Seq<(String, String)>, k: Seq<char>, j: int)
    requires
        forall|a: int, b: int| 0 <= a < b < s.len() ==> s[a].0@ != s[b].0@,
        0 <= j < s.len(),
        s[j].0@ == k,
    ensures
        (choose|i: int| 0 <= i < s.len() && s[i].0@ == k) == j,
{
    assert(0 <= j < s.len() && s[j].0@ == k);
    let i = choose|i: int| 0 <= i < s.len() && s[i].0@ == k;
    if i < j {
        assert(s[i].0@ != s[j].0@);
    } else if j < i {
        assert(s[j].0@ != s[i].0@);
    }
}

impl StringMap {
    /// Keys are pairwise distinct.
    pub open spec fn wf(&self) -> bool {
        forall|i: int, j: int|
            0 <= i < j < self.entries@.len() ==> self.entries@[i].0@ != self.entries@[j].0@
    }

    /// Whether some entry has key `k`.
    pub open spec fn spec_has_key(&self, k: Seq<char>) -> bool {
        exists|i: int| 0 <= i < self.entries@.len() && self.entries@[i].0@ == k
    }

    /// The value under key `k`, when one is there.
    pub open spec fn spec_get(&self, k: Seq<char>) -> Seq<char> {
        let i = choose|i: int| 0 <= i < self.entries@.len() && self.entries@[i].0@ == k;
        self.entries@[i].1@
    }

    pub fn new() -> (r: StringMap)
        ensures
            r.wf(),
            r.entries@.len() == 0,
    {
        StringMap { entries: Vec::new() }
    }

    pub fn len(&self) -> (r: usize)
        ensures
            r == self.entries@.len(),
    {
        self.entries.len()
    }

    pub fn is_empty(&self) -> (r: bool)
        ensures
            r == (self.entries@.len() == 0),
    {
        self.entries.len() == 0
    }

    /// The key of the entry at position `i`.
    pub fn key_at(&self, i: usize) -> (r: &String)
        requires
            i < self.entries@.len(),
        ensures
            r@ == self.entries@[i as int].0@,
    {
        &self.entries[i].0
    }

    /// The value of the entry at position `i`.
    pub fn value_at(&self, i: usize) -> (r: &String)
        requires
            i < self.entries@.len(),
        ensures
            r@ == self.entries@[i as int].1@,
    {
        &self.entries[i].1
    }

    /// Looks the key up, returning the value stored under it.
    pub fn get(&self, key: &str) -> (r: Option<&String>)
        requires
            self.wf(),
        ensures
            r.is_some() == self.spec_has_key(key@),
            r matches Option::Some(v) ==> v@ == self.spec_get(key@),
    {
        let n = self.entries.len();
        for i in 0..n
            invariant
                n == self.entries@.len(),
                self.wf(),
                forall|j: int| 0 <= j < i ==> self.entries@[j].0@ != key@,
        {
            if crate::text::str_eq(self.entries[i].0.as_str(), key) {
                return Option::Some(&self.entries[i].1);
            }
        }
        Option::None
    }

    /// Whether the map holds the key.
    pub fn contains_key(&self, key: &str) -> (r: bool)
        requires
            self.wf(),
        ensures
            r == self.spec_has_key(key@),
    {
        self.get(key).is_some()
    }

    /// Stores `value` under `key`, replacing any entry already there.
    pub fn insert(&mut self, key: String, value: String)
        requires
            old(self).wf(),
        ensures
            final(self).wf(),
            final(self).spec_has_key(key@),
            final(self).spec_get(key@) == value@,
            forall|k: Seq<char>|
                k != key@ ==> #[trigger] final(self).spec_has_key(k) == old(self).spec_has_key(k),
            forall|k: Seq<char>|
                k != key@ && old(self).spec_has_key(k) ==> #[trigger] final(self).spec_get(k)
                    == old(self).spec_get(k),
    {
        let n = self.entries.len();
        for i in 0..n
            invariant
                n == self.entries@.len(),
                self.wf(),
                *self == *old(self),
                forall|j: int| 0 <= j < i ==> self.entries@[j].0@ != key@,
        {
            if crate::text::str_eq(self.entries[i].0.as_str(), key.as_str()) {
                let kept = self.entries[i].0.clone();
                self.entries[i] = (kept, value);
                proof {
                    let s0 = old(self).entries@;
                    assert(forall|a: int|
                        0 <= a < self.entries@.len() ==> self.entries@[a].0@ == s0[a].0@);
                    assert(self.entries@[i as int].0@ == key@);
                    assert(self.spec_has_key(key@));
                    assert(self.entries@[i as int].1@ == value@);
                    lemma_unique_key_value(self.entries@, key@, i as int);
                    assert forall|k: Seq<char>| k != key@ implies #[trigger] self.spec_has_key(k)
                        == old(self).spec_has_key(k) by {
                        if self.spec_has_key(k) {
                            let j = choose|j: int|
                                0 <= j < self.entries@.len() && self.entries@[j].0@ == k;
                            assert(s0[j].0@ == k);
                        }
                        if old(self).spec_has_key(k) {
                            let j = choose|j: int| 0 <= j < s0.len() && s0[j].0@ == k;
                            assert(self.entries@[j].0@ == k);
                        }
                    }
                    assert forall|k: Seq<char>| k != key@ && old(self).spec_has_key(k) implies #[trigger] self.spec_get(
                        k,
                    ) == old(self).spec_get(k) by {
                        let j = choose|j: int| 0 <= j < s0.len() && s0[j].0@ == k;
                        assert(self.entries@[j].0@ == k);
                        lemma_unique_key_value(self.entries@, k, j);
                        lemma_unique_key_value(s0, k, j);
                    }
                }
                return ;
            }
        }
        self.entries.push((key, value));
        proof {
            let s0 = old(self).entries@;
            let n = s0.len() as int;
            assert(self.entries@[n].0@ == key@);
            assert(self.spec_has_key(key@));
            lemma_unique_key_value(self.entries@, key@, n);
            assert forall|k: Seq<char>| k != key@ implies #[trigger] self.spec_has_key(k) == old(
                self,
            ).spec_has_key(k) by {
                if self.spec_has_key(k) {
                    let j = choose|j: int|
                        0 <= j < self.entries@.len() && self.entries@[j].0@ == k;
                    assert(j < n);
                    assert(s0[j].0@ == k);
                }
                if old(self).spec_has_key(k) {
                    let j = choose|j: int| 0 <= j < s0.len() && s0[j].0@ == k;
                    assert(self.entries@[j].0@ == k);
                }
            }
            assert forall|k: Seq<char>| k != key@ && old(self).spec_has_key(k) implies #[trigger] self.spec_get(
                k,
            ) == old(self).spec_get(k) by {
                let j = choose|j: int| 0 <= j < s0.len() && s0[j].0@ == k;
                assert(self.entries@[j].0@ == k);
                lemma_unique_key_value(self.entries@, k, j);
                lemma_unique_key_value(s0, k, j);
            }
        }
    }
}

/// A set of strings, kept as a vector of pairwise distinct items in insertion
/// order.
pub struct StringSet {
    pub items: Vec<String>,
}

impl StringSet {
    /// Items are pairwise distinct.
    pub open spec fn wf(&self) -> bool {
        forall|i: int, j: int|
            0 <= i < j < self.items@.len() ==> self.items@[i]@ != self.items@[j]@
    }

    /// Whether the set holds `k`.
    pub open spec fn spec_contains(&self, k: Seq<char>) -> bool {
        exists|i: int| 0 <= i < self.items@.len() && self.items@[i]@ == k
    }

    pub fn new() -> (r: StringSet)
        ensures
            r.wf(),
            r.items@.len() == 0,
    {
        StringSet { items: Vec::new() }
    }

    pub fn len(&self) -> (r: usize)
        ensures
            r == self.items@.len(),
    {
        self.items.len()
    }

    /// The item at position `i`.
    pub fn item_at(&self, i: usize) -> (r: &String)
        requires
            i < self.items@.len(),
        ensures
            r@ == self.items@[i as int]@,
    {
        &self.items[i]
    }

    /// Whether the set holds the string.
    pub fn contains(&self, key: &str) -> (r: bool)
        ensures
            r == self.spec_contains(key@),
    {
        let n = self.items.len();
        for i in 0..n
            invariant
                n == self.items@.len(),
                forall|j: int| 0 <= j < i ==> self.items@[j]@ != key@,
        {
            if crate::text::str_eq(self.items[i].as_str(), key) {
                return true;
            }
        }
        false
    }

    /// Adds the string; a string already there stays single.
    pub fn insert(&mut self, key: String)
        requires
            old(self).wf(),
        ensures
            final(self).wf(),
            final(self).spec_contains(key@),
            forall|k: Seq<char>|
                k != key@ ==> #[trigger] final(self).spec_contains(k) == old(self).spec_contains(
                    k,
                ),
    {
        if !self.contains(key.as_str()) {
            self.items.push(key);
            proof {
                let s0 = old(self).items@;
                let n = s0.len() as int;
                assert(self.items@[n]@ == key@);
                assert(self.spec_contains(key@));
                assert forall|k: Seq<char>| k != key@ implies #[trigger] self.spec_contains(k)
                    == old(self).spec_contains(k) by {
                    if self.spec_contains(k) {
                        let j = choose|j: int| 0 <= j < self.items@.len() && self.items@[j]@ == k;
                        assert(j < n);
                        assert(s0[j]@ == k);
                    }
                    if old(self).spec_contains(k) {
                        let j = choose|j: int| 0 <= j < s0.len() && s0[j]@ == k;
                        assert(self.items@[j]@ == k);
                    }
                }
            }
        }
    }
}

} // verus!
