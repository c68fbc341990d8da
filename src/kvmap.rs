//! A small map from string keys to byte blobs.

use vstd::prelude::*;

verus! {

/// Why a key/value operation did not succeed.
#[derive(Clone, Copy, Debug, PartialEq, Eq, Structural)]
pub enum KvError {
    /// No value is stored under the key.
    NotFound,
    /// The backing store could not complete the operation.
    Unavailable,
}

/// Key/value pairs with distinct keys.
#[derive(Debug)]
pub struct BytesMap {
    pairs: Vec<(String, Vec<u8>)>,
}

impl BytesMap {
    /// No two pairs hold the same key.
    pub closed spec fn wf(self) -> bool {
        forall|i: int, j: int|
            0 <= i < self.pairs@.len() && 0 <= j < self.pairs@.len() && i != j
                ==> #[trigger] self.pairs@[i].0@ != #[trigger] self.pairs@[j].0@
    }

    /// Whether some pair holds `k`.
    closed spec fn holds(self, k: Seq<char>) -> bool {
        exists|i: int| 0 <= i < self.pairs@.len() && #[trigger] self.pairs@[i].0@ == k
    }

    /// The position of the pair that holds `k`.
    closed spec fn position(self, k: Seq<char>) -> int {
        choose|i: int| 0 <= i < self.pairs@.len() && #[trigger] self.pairs@[i].0@ == k
    }
}

impl View for BytesMap {
    type V = Map<Seq<char>, Seq<u8>>;

    closed spec fn view(&self) -> Map<Seq<char>, Seq<u8>> {
        Map::new(|k: Seq<char>| self.holds(k), |k: Seq<char>| self.pairs@[self.position(k)].1@)
    }
}

impl BytesMap {
    /// The pair at `i` is what the view holds under its key.
    proof fn lemma_lookup(self, i: int)
        requires
            self.wf(),
            0 <= i < self.pairs@.len(),
        ensures
            self@.contains_key(self.pairs@[i].0@),
            self@[self.pairs@[i].0@] == self.pairs@[i].1@,
    {
        let k = self.pairs@[i].0@;
        assert(self.holds(k));
        let j = self.position(k);
        assert(self.pairs@[j].0@ == k);
    }

    /// An empty map.
    pub fn new() -> (r: BytesMap)
        ensures
            r.wf(),
            r@ == Map::<Seq<char>, Seq<u8>>::empty(),
    {
        let r = BytesMap { pairs: Vec::new() };
        assert(r@ =~= Map::<Seq<char>, Seq<u8>>::empty());
        r
    }

    /// The position of the pair holding `key`, if any.
    fn find(&self, key: &String) -> (r: Option<usize>)
        ensures
            r matches Some(i) ==> i < self.pairs@.len() && self.pairs@[i as int].0@ == key@,
            r is None ==> !self@.contains_key(key@),
    {
        let mut i: usize = 0;
        while i < self.pairs.len()
            invariant
                i <= self.pairs@.len(),
                forall|j: int| 0 <= j < i ==> #[trigger] self.pairs@[j].0@ != key@,
            decreases self.pairs@.len() - i,
        {
            if self.pairs[i].0 == *key {
                return Some(i);
            }
            i = i + 1;
        }
        None
    }

    /// A copy of the value stored under `key`.
    pub fn get(&self, key: &String) -> (r: Option<Vec<u8>>)
        ensures
            self.wf() && self@.contains_key(key@) ==> (r matches Some(v) && v@ == self@[key@]),
            !self@.contains_key(key@) ==> r is None,
    {
        match self.find(key) {
            Some(i) => {
                proof {
                    if self.wf() {
                        self.lemma_lookup(i as int);
                    }
                }
                Some(self.pairs[i].1.clone())
            },
            None => None,
        }
    }

    /// Stores `value` under `key`, replacing any earlier value.
    pub fn insert(&mut self, key: String, value: Vec<u8>)
        ensures
            old(self).wf() ==> final(self).wf() && final(self)@ == old(self)@.insert(key@, value@),
    {
        let ghost before = *self;
        let ghost k = key@;
        let ghost v = value@;
        match self.find(&key) {
            Some(i) => {
                self.pairs.set(i, (key, value));
                proof {
                    if before.wf() {
                        lemma_overwrite(before, *self, i as int, k, v);
                    }
                }
            },
            None => {
                self.pairs.push((key, value));
                proof {
                    if before.wf() {
                        lemma_push(before, *self, k, v);
                    }
                }
            },
        }
    }

    /// Removes the value stored under `key`; tells whether there was one.
    pub fn remove(&mut self, key: &String) -> (r: bool)
        ensures
            r == old(self)@.contains_key(key@),
            old(self).wf() ==> final(self).wf() && final(self)@ == old(self)@.remove(key@),
    {
        let ghost before = *self;
        match self.find(key) {
            Some(i) => {
                proof {
                    assert(before.holds(key@));
                }
                self.pairs.remove(i);
                proof {
                    if before.wf() {
                        lemma_remove(before, *self, i as int, key@);
                    }
                }
                true
            },
            None => {
                assert(before@.remove(key@) =~= before@);
                false
            },
        }
    }
}

/// Overwriting the pair at `i` with a pair for the same key updates that
/// key's value.
proof fn lemma_overwrite(before: BytesMap, after: BytesMap, i: int, k: Seq<char>, v: Seq<u8>)
    requires
        before.wf(),
        0 <= i < before.pairs@.len(),
        before.pairs@[i].0@ == k,
        after.pairs@ == before.pairs@.update(i, after.pairs@[i]),
        after.pairs@[i].0@ == k,
        after.pairs@[i].1@ == v,
    ensures
        after.wf(),
        after@ == before@.insert(k, v),
{
    assert forall|a: int, b: int|
        0 <= a < after.pairs@.len() && 0 <= b < after.pairs@.len() && a != b
            implies #[trigger] after.pairs@[a].0@ != #[trigger] after.pairs@[b].0@ by {
        assert(before.pairs@[a].0@ != before.pairs@[b].0@);
    }
    assert forall|q: Seq<char>| #[trigger] after@.contains_key(q) == before@.insert(
        k,
        v,
    ).contains_key(q) by {
        if after.holds(q) {
            let j = after.position(q);
            if j != i {
                assert(before.pairs@[j].0@ == q);
            }
        }
        if before.holds(q) {
            let j = before.position(q);
            assert(after.pairs@[j].0@ == q);
        }
    }
    assert forall|q: Seq<char>| #[trigger] after@.contains_key(q) implies after@[q] == before@.insert(
        k,
        v,
    )[q] by {
        let j = after.position(q);
        after.lemma_lookup(j);
        if j != i {
            before.lemma_lookup(j);
        }
    }
    assert(after@ =~= before@.insert(k, v));
}

/// Pushing a pair for a key that no pair holds adds that key.
proof fn lemma_push(before: BytesMap, after: BytesMap, k: Seq<char>, v: Seq<u8>)
    requires
        before.wf(),
        !before@.contains_key(k),
        after.pairs@ == before.pairs@.push(after.pairs@.last()),
        after.pairs@.last().0@ == k,
        after.pairs@.last().1@ == v,
    ensures
        after.wf(),
        after@ == before@.insert(k, v),
{
    let n = before.pairs@.len() as int;
    assert forall|a: int, b: int|
        0 <= a < after.pairs@.len() && 0 <= b < after.pairs@.len() && a != b
            implies #[trigger] after.pairs@[a].0@ != #[trigger] after.pairs@[b].0@ by {
        if a < n && b < n {
            assert(before.pairs@[a].0@ != before.pairs@[b].0@);
        } else if a < n {
            assert(before.pairs@[a].0@ != k);
        } else {
            assert(before.pairs@[b].0@ != k);
        }
    }
    assert forall|q: Seq<char>| #[trigger] after@.contains_key(q) == before@.insert(
        k,
        v,
    ).contains_key(q) by {
        if after.holds(q) {
            let j = after.position(q);
            if j != n {
                assert(before.pairs@[j].0@ == q);
            }
        }
        if before.holds(q) {
            let j = before.position(q);
            assert(after.pairs@[j].0@ == q);
        }
        assert(after.pairs@[n].0@ == k);
    }
    assert forall|q: Seq<char>| #[trigger] after@.contains_key(q) implies after@[q] == before@.insert(
        k,
        v,
    )[q] by {
        let j = after.position(q);
        after.lemma_lookup(j);
        if j != n {
            before.lemma_lookup(j);
        }
    }
    assert(after@ =~= before@.insert(k, v));
}

/// Removing the pair at `i` removes its key.
proof fn lemma_remove(before: BytesMap, after: BytesMap, i: int, k: Seq<char>)
    requires
        before.wf(),
        0 <= i < before.pairs@.len(),
        before.pairs@[i].0@ == k,
        after.pairs@ == before.pairs@.remove(i),
    ensures
        after.wf(),
        after@ == before@.remove(k),
{
    let sh = |j: int| if j < i { j } else { j + 1 };
    assert forall|j: int| 0 <= j < after.pairs@.len() implies #[trigger] after.pairs@[j]
        == before.pairs@[sh(j)] by {}
    assert forall|a: int, b: int|
        0 <= a < after.pairs@.len() && 0 <= b < after.pairs@.len() && a != b
            implies #[trigger] after.pairs@[a].0@ != #[trigger] after.pairs@[b].0@ by {
        assert(before.pairs@[sh(a)].0@ != before.pairs@[sh(b)].0@);
    }
    assert forall|q: Seq<char>| #[trigger] after@.contains_key(q) == before@.remove(
        k,
    ).contains_key(q) by {
        if after.holds(q) {
            let j = after.position(q);
            assert(before.pairs@[sh(j)].0@ == q);
        }
        if before.holds(q) && q != k {
            let j = before.position(q);
            if j < i {
                assert(after.pairs@[j].0@ == q);
            } else if j > i {
                assert(after.pairs@[j - 1].0@ == q);
            }
        }
    }
    assert forall|q: Seq<char>| #[trigger] after@.contains_key(q) implies after@[q] == before@.remove(
        k,
    )[q] by {
        let j = after.position(q);
        after.lemma_lookup(j);
        before.lemma_lookup(sh(j));
    }
    assert(after@ =~= before@.remove(k));
}

} // verus!
