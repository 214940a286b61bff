//! The attribute map of a virtual or live element: unique keys, viewed as a
//! mathematical map from attribute name to attribute value. Insertion order
//! is kept internally but carries no meaning.

use vstd::prelude::*;

verus! {

/// A map from attribute name to attribute value with unique keys.
pub struct AttrMap {
    entries: Vec<(String, String)>,
}

impl View for AttrMap {
    type V = Map<Seq<char>, Seq<char>>;

    closed spec fn view(&self) -> Map<Seq<char>, Seq<char>> {
        Map::new(|k: Seq<char>| self.spec_has(k), |k: Seq<char>| self.spec_at(k))
    }
}

impl AttrMap {
    /// Some entry carries the key `k`.
    pub closed spec fn spec_has(&self, k: Seq<char>) -> bool {
        exists|i: int| 0 <= i < self.entries@.len() && self.entries@[i].0@ == k
    }

    /// The index of the entry carrying the key `k`.
    closed spec fn index_of(&self, k: Seq<char>) -> int {
        choose|i: int| 0 <= i < self.entries@.len() && self.entries@[i].0@ == k
    }

    /// The value stored under the key `k`.
    closed spec fn spec_at(&self, k: Seq<char>) -> Seq<char> {
        self.entries@[self.index_of(k)].1@
    }

    /// No two entries carry the same key.
    pub closed spec fn wf(&self) -> bool {
        forall|i: int, j: int|
            0 <= i < j < self.entries@.len() ==> (#[trigger] self.entries@[i].0@) != (
            #[trigger] self.entries@[j].0@)
    }

    /// How many attributes are stored.
    pub closed spec fn spec_len(&self) -> nat {
        self.entries@.len()
    }

    /// Every entry index carries a key of the view, and the view's value for
    /// it is that entry's value.
    proof fn lemma_entry_in_view(&self, i: int)
        requires
            self.wf(),
            0 <= i < self.entries@.len(),
        ensures
            self@.contains_key(self.entries@[i].0@),
            self@[self.entries@[i].0@] == self.entries@[i].1@,
    {
        let k = self.entries@[i].0@;
        assert(self.spec_has(k));
        let j = self.index_of(k);
        assert(0 <= j < self.entries@.len() && self.entries@[j].0@ == k);
        assert(j == i);
    }

    /// An empty map.
    pub fn new() -> (m: AttrMap)
        ensures
            m.wf(),
            m@ == Map::<Seq<char>, Seq<char>>::empty(),
            m.spec_len() == 0,
    {
        let m = AttrMap { entries: Vec::new() };
        proof {
            assert(m@ =~= Map::<Seq<char>, Seq<char>>::empty());
        }
        m
    }

    /// The number of attributes stored.
    pub fn len(&self) -> (n: usize)
        ensures
            n == self.spec_len(),
    {
        self.entries.len()
    }

    /// Whether `key` is present.
    pub fn contains_key(&self, key: &String) -> (r: bool)
        requires
            self.wf(),
        ensures
            r == self@.contains_key(key@),
    {
        let n = self.entries.len();
        let mut i: usize = 0;
        while i < n
            invariant
                i <= n,
                n == self.entries@.len(),
                forall|j: int| 0 <= j < i ==> (#[trigger] self.entries@[j].0@) != key@,
            decreases n - i,
        {
            if self.entries[i].0.eq(key) {
                proof {
                    assert(self.spec_has(key@));
                }
                return true;
            }
            i = i + 1;
        }
        proof {
            assert(!self.spec_has(key@));
        }
        false
    }

    /// The value stored under `key`, if any.
    pub fn get(&self, key: &String) -> (r: Option<&String>)
        requires
            self.wf(),
        ensures
            match r {
                Some(v) => self@.contains_key(key@) && v@ == self@[key@],
                None => !self@.contains_key(key@),
            },
    {
        let n = self.entries.len();
        let mut i: usize = 0;
        while i < n
            invariant
                self.wf(),
                i <= n,
                n == self.entries@.len(),
                forall|j: int| 0 <= j < i ==> (#[trigger] self.entries@[j].0@) != key@,
            decreases n - i,
        {
            if self.entries[i].0.eq(key) {
                proof {
                    self.lemma_entry_in_view(i as int);
                }
                return Some(&self.entries[i].1);
            }
            i = i + 1;
        }
        proof {
            assert(!self.spec_has(key@));
        }
        None
    }

    /// The key of the entry at position `i`; positions only serve iteration
    /// and carry no meaning.
    pub fn key_at(&self, i: usize) -> (k: &String)
        requires
            self.wf(),
            i < self.spec_len(),
        ensures
            self@.contains_key(k@),
            k@ == self.spec_key_at(i as int),
    {
        proof {
            self.lemma_entry_in_view(i as int);
        }
        &self.entries[i].0
    }

    /// The value of the entry at position `i`.
    pub fn value_at(&self, i: usize) -> (v: &String)
        requires
            self.wf(),
            i < self.spec_len(),
        ensures
            v@ == self@[self.spec_key_at(i as int)],
    {
        proof {
            self.lemma_entry_in_view(i as int);
        }
        &self.entries[i].1
    }

    /// The key stored at position `i`, as a spec value.
    pub closed spec fn spec_key_at(&self, i: int) -> Seq<char> {
        self.entries@[i].0@
    }

    /// Distinct positions hold distinct keys, and every key of the view is
    /// the key of some position.
    pub proof fn lemma_positions(&self)
        requires
            self.wf(),
        ensures
            forall|i: int, j: int|
                0 <= i < j < self.spec_len() ==> (#[trigger] self.spec_key_at(i)) != (
                #[trigger] self.spec_key_at(j)),
            forall|i: int|
                0 <= i < self.spec_len() ==> self@.contains_key(#[trigger] self.spec_key_at(i)),
            forall|k: Seq<char>|
                self@.contains_key(k) ==> exists|i: int|
                    0 <= i < self.spec_len() && #[trigger] self.spec_key_at(i) == k,
    {
        assert forall|i: int|
            0 <= i < self.spec_len() implies self@.contains_key(
            #[trigger] self.spec_key_at(i),
        ) by {
            self.lemma_entry_in_view(i);
        }
        assert forall|k: Seq<char>|
            self@.contains_key(k) implies exists|i: int|
                0 <= i < self.spec_len() && #[trigger] self.spec_key_at(i) == k by {
            let i = self.index_of(k);
            assert(0 <= i < self.entries@.len() && self.entries@[i].0@ == k);
            assert(self.spec_key_at(i) == k);
        }
    }

    /// Store `value` under `key`, replacing any value already stored there.
    pub fn insert(&mut self, key: String, value: String)
        requires
            old(self).wf(),
        ensures
            final(self).wf(),
            final(self)@ == old(self)@.insert(key@, value@),
    {
        let ghost pre = *self;
        let n = self.entries.len();
        let mut i: usize = 0;
        while i < n
            invariant
                *self == pre,
                pre == *old(self),
                pre.wf(),
                i <= n,
                n == self.entries@.len(),
                forall|j: int| 0 <= j < i ==> (#[trigger] self.entries@[j].0@) != key@,
            decreases n - i,
        {
            if self.entries[i].0.eq(&key) {
                self.entries[i].1 = value;
                proof {
                    self.lemma_insert_view(pre, key@, value@, i as int);
                }
                return ;
            }
            i = i + 1;
        }
        self.entries.push((key, value));
        proof {
            assert(!pre.spec_has(key@));
            self.lemma_insert_view(pre, key@, value@, n as int);
        }
    }

    /// Drop the entry stored under `key`, if any.
    pub fn remove(&mut self, key: &String)
        requires
            old(self).wf(),
        ensures
            final(self).wf(),
            final(self)@ == old(self)@.remove(key@),
    {
        let ghost pre = *self;
        let n = self.entries.len();
        let mut i: usize = 0;
        while i < n
            invariant
                *self == pre,
                pre == *old(self),
                pre.wf(),
                i <= n,
                n == self.entries@.len(),
                forall|j: int| 0 <= j < i ==> (#[trigger] self.entries@[j].0@) != key@,
            decreases n - i,
        {
            if self.entries[i].0.eq(key) {
                self.entries.remove(i);
                proof {
                    self.lemma_remove_view(pre, key@, i as int);
                }
                return ;
            }
            i = i + 1;
        }
        proof {
            assert(!pre.spec_has(key@));
            assert(self@ =~= pre@.remove(key@));
        }
    }

    /// After the entry at `i` is overwritten or appended with `(key, value)`
    /// and everything else kept, the view gains exactly that binding.
    proof fn lemma_insert_view(&self, pre: AttrMap, key: Seq<char>, value: Seq<char>, i: int)
        requires
            pre.wf(),
            0 <= i < self.entries@.len(),
            self.entries@[i].0@ == key,
            self.entries@[i].1@ == value,
            // either an overwrite of position i…
            (i < pre.entries@.len() && self.entries@ == pre.entries@.update(
                i,
                self.entries@[i],
            ) && pre.entries@[i].0@ == key) || (
            // …or an append, the key being absent before
            i == pre.entries@.len() && self.entries@ == pre.entries@.push(self.entries@[i])
                && !pre.spec_has(key)),
        ensures
            self.wf(),
            self@ == pre@.insert(key, value),
    {
        if i < pre.entries@.len() {
            assert(self.entries@ == pre.entries@.update(i, self.entries@[i]));
            assert(self.entries@.len() == pre.entries@.len());
            assert forall|a: int|
                0 <= a < self.entries@.len() && a != i implies #[trigger] self.entries@[a]
                == pre.entries@[a] by {
                assert(self.entries@[a] == pre.entries@.update(i, self.entries@[i])[a]);
            }
        } else {
            assert(self.entries@ == pre.entries@.push(self.entries@[i]));
            assert(self.entries@.len() == pre.entries@.len() + 1);
            assert forall|a: int|
                0 <= a < self.entries@.len() && a != i implies #[trigger] self.entries@[a]
                == pre.entries@[a] by {
                assert(self.entries@[a] == pre.entries@.push(self.entries@[i])[a]);
            }
        }
        assert forall|a: int, b: int|
            0 <= a < b < self.entries@.len() implies (#[trigger] self.entries@[a].0@) != (
        #[trigger] self.entries@[b].0@) by {
            assert(self.entries@[a].0@ == pre.entries@[a].0@ || a == i);
            assert(self.entries@[b].0@ == pre.entries@[b].0@ || b == i);
        }
        assert forall|k: Seq<char>| self.spec_has(k) == pre@.insert(key, value).contains_key(
            k,
        ) by {
            if self.spec_has(k) {
                let a = self.index_of(k);
                if a != i {
                    assert(pre.entries@[a].0@ == k);
                    assert(pre.spec_has(k));
                }
            }
            if k != key && pre.spec_has(k) {
                let a = pre.index_of(k);
                assert(self.entries@[a].0@ == k);
                assert(self.spec_has(k));
            }
        }
        assert forall|k: Seq<char>| self.spec_has(k) implies self.spec_at(k) == pre@.insert(
            key,
            value,
        )[k] by {
            let a = self.index_of(k);
            assert(0 <= a < self.entries@.len() && self.entries@[a].0@ == k);
            if k == key {
                assert(a == i);
            } else {
                assert(a != i);
                assert(pre.entries@[a].0@ == k && pre.entries@[a].1@ == self.entries@[a].1@);
                pre.lemma_entry_in_view(a);
            }
        }
        assert(self@ =~= pre@.insert(key, value));
    }

    /// After the entry at `i` — the one carrying `key` — is removed and
    /// everything else kept, the view loses exactly that binding.
    proof fn lemma_remove_view(&self, pre: AttrMap, key: Seq<char>, i: int)
        requires
            pre.wf(),
            0 <= i < pre.entries@.len(),
            pre.entries@[i].0@ == key,
            self.entries@ == pre.entries@.remove(i),
        ensures
            self.wf(),
            self@ == pre@.remove(key),
    {
        assert(self.entries@.len() == pre.entries@.len() - 1);
        assert forall|a: int|
            0 <= a < self.entries@.len() implies #[trigger] self.entries@[a] == (if a < i {
            pre.entries@[a]
        } else {
            pre.entries@[a + 1]
        }) by {
            assert(self.entries@[a] == pre.entries@.remove(i)[a]);
        }
        assert forall|a: int, b: int|
            0 <= a < b < self.entries@.len() implies (#[trigger] self.entries@[a].0@) != (
        #[trigger] self.entries@[b].0@) by {
            let pa = if a < i { a } else { a + 1 };
            let pb = if b < i { b } else { b + 1 };
            assert(self.entries@[a] == pre.entries@[pa]);
            assert(self.entries@[b] == pre.entries@[pb]);
        }
        assert forall|k: Seq<char>| self.spec_has(k) == pre@.remove(key).contains_key(k) by {
            if self.spec_has(k) {
                let a = self.index_of(k);
                let pa = if a < i { a } else { a + 1 };
                assert(pre.entries@[pa].0@ == k);
                assert(pre.spec_has(k));
                assert(k != key);
            }
            if k != key && pre.spec_has(k) {
                let pa = pre.index_of(k);
                assert(pa != i);
                let a = if pa < i { pa } else { pa - 1 };
                assert(self.entries@[a] == pre.entries@[pa]);
                assert(self.spec_has(k));
            }
        }
        assert forall|k: Seq<char>|
            self.spec_has(k) implies self.spec_at(k) == pre@.remove(key).index(k) by {
            let a = self.index_of(k);
            let pa = if a < i { a } else { a + 1 };
            assert(self.entries@[a] == pre.entries@[pa]);
            assert(k != key);
            pre.lemma_entry_in_view(pa);
        }
        assert(self@ =~= pre@.remove(key));
    }
}

} // verus!
