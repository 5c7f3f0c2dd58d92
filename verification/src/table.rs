//! A map from text to values that remembers the order of insertion.

use vstd::prelude::*;

verus! {

/// A map from text to values, walked in the order in which its keys came.
#[derive(Clone, Debug)]
pub struct Table<V> {
    pub entries: Vec<(String, V)>,
}

/// Where the first entry for a key stands, if there is one.
pub open spec fn position<V>(entries: Seq<(String, V)>, key: Seq<char>) -> Option<int>
    decreases entries.len(),
{
    if entries.len() == 0 {
        None
    } else {
        match position(entries.drop_last(), key) {
            Some(i) => Some(i),
            None => if entries.last().0@ == key {
                Some(entries.len() - 1)
            } else {
                None
            },
        }
    }
}

/// Whether no key occurs twice.
pub open spec fn distinct_keys<V>(entries: Seq<(String, V)>) -> bool {
    forall|i: int, j: int|
        #![trigger entries[i].0, entries[j].0]
        0 <= i < j < entries.len() ==> entries[i].0@ != entries[j].0@
}

/// `position` finds the first entry with the key, and nothing where there is none.
pub proof fn position_is_first<V>(entries: Seq<(String, V)>, key: Seq<char>)
    ensures
        match position(entries, key) {
            Some(i) => 0 <= i < entries.len() && entries[i].0@ == key && forall|j: int|
                0 <= j < i ==> (#[trigger] entries[j]).0@ != key,
            None => forall|j: int| 0 <= j < entries.len() ==> (#[trigger] entries[j]).0@ != key,
        },
    decreases entries.len(),
{
    if entries.len() > 0 {
        let front = entries.drop_last();
        position_is_first(front, key);
        assert(forall|j: int| 0 <= j < front.len() ==> front[j] == entries[j]);
        match position(front, key) {
            Some(i) => {
                assert forall|j: int| 0 <= j < i implies (#[trigger] entries[j]).0@ != key by {
                    assert(front[j].0@ != key);
                }
            },
            None => {
                assert forall|j: int| 0 <= j < entries.len() - 1 implies (
                #[trigger] entries[j]).0@ != key by {
                    assert(front[j].0@ != key);
                }
            },
        }
    }
}

/// An index that holds the key, with no earlier one that does, is its position.
pub proof fn position_from_first<V>(entries: Seq<(String, V)>, key: Seq<char>, at: int)
    requires
        0 <= at < entries.len(),
        entries[at].0@ == key,
        forall|j: int| 0 <= j < at ==> (#[trigger] entries[j]).0@ != key,
    ensures
        position(entries, key) == Some(at),
{
    position_is_first(entries, key);
    match position(entries, key) {
        Some(i) => {
            if i < at {
                assert(entries[i].0@ != key);
            } else if i > at {
                assert(entries[at].0@ != key);
            }
        },
        None => {
            assert(entries[at].0@ != key);
        },
    }
}

/// Where no entry holds the key, it has no position.
pub proof fn position_of_missing<V>(entries: Seq<(String, V)>, key: Seq<char>)
    requires
        forall|j: int| 0 <= j < entries.len() ==> (#[trigger] entries[j]).0@ != key,
    ensures
        position(entries, key) is None,
{
    position_is_first(entries, key);
}

impl<V> Table<V> {
    /// The value that a key stands for, if it is in the map.
    pub open spec fn lookup(self, key: Seq<char>) -> Option<V> {
        match position(self.entries@, key) {
            Some(i) => Some(self.entries@[i].1),
            None => None,
        }
    }

    /// Whether a key is in the map.
    pub open spec fn holds(self, key: Seq<char>) -> bool {
        position(self.entries@, key) is Some
    }

    /// Whether no key occurs twice.
    pub open spec fn distinct(self) -> bool {
        distinct_keys(self.entries@)
    }

    /// An empty map.
    pub fn new() -> (r: Self)
        ensures
            r.entries@.len() == 0,
            r.distinct(),
            forall|k: Seq<char>| #[trigger] r.lookup(k) is None,
            forall|k: Seq<char>| !#[trigger] r.holds(k),
    {
        Table { entries: Vec::new() }
    }

    /// Where a key stands.
    pub fn find(&self, key: &String) -> (r: Option<usize>)
        ensures
            match r {
                Some(i) => position(self.entries@, key@) == Some(i as int) && i
                    < self.entries@.len() && self.entries@[i as int].0@ == key@,
                None => position(self.entries@, key@) is None,
            },
    {
        let mut i: usize = 0;
        while i < self.entries.len()
            invariant
                i <= self.entries@.len(),
                forall|j: int| 0 <= j < i ==> (#[trigger] self.entries@[j]).0@ != key@,
            decreases self.entries@.len() - i,
        {
            if self.entries[i].0 == *key {
                proof {
                    position_from_first(self.entries@, key@, i as int);
                }
                return Some(i);
            }
            i = i + 1;
        }
        proof {
            position_of_missing(self.entries@, key@);
        }
        None
    }

    /// Whether a key is in the map.
    pub fn contains_key(&self, key: &String) -> (r: bool)
        ensures
            r == self.holds(key@),
    {
        self.find(key).is_some()
    }

    /// The value that a key stands for.
    pub fn get(&self, key: &String) -> (r: Option<&V>)
        ensures
            match r {
                Some(v) => self.lookup(key@) == Some(*v),
                None => self.lookup(key@) is None,
            },
    {
        match self.find(key) {
            Some(i) => Some(&self.entries[i].1),
            None => None,
        }
    }

    /// Sets the value of a key. A new key goes to the end of the walk.
    pub fn insert(&mut self, key: String, value: V)
        ensures
            forall|k: Seq<char>| #[trigger] final(self).lookup(k) == if k == key@ {
                Some(value)
            } else {
                old(self).lookup(k)
            },
            forall|k: Seq<char>| #[trigger]
                final(self).holds(k) == (k == key@ || old(self).holds(k)),
            old(self).distinct() ==> final(self).distinct(),
            final(self).entries@.len() > 0,
            final(self).entries@ == match position(old(self).entries@, key@) {
                Some(i) => old(self).entries@.update(i, (key, value)),
                None => old(self).entries@.push((key, value)),
            },
    {
        match self.find(&key) {
            Some(i) => {
                let ghost before = self.entries@;
                let ghost k0 = key@;
                self.entries[i] = (key, value);
                proof {
                    let after = self.entries@;
                    assert forall|k: Seq<char>| #[trigger] position(after, k) == position(
                        before,
                        k,
                    ) by {
                        position_is_first(before, k);
                        assert(forall|j: int|
                            0 <= j < after.len() ==> after[j].0@ == before[j].0@);
                        match position(before, k) {
                            Some(p) => {
                                position_from_first(after, k, p);
                            },
                            None => {
                                position_of_missing(after, k);
                            },
                        }
                    }
                    assert forall|k: Seq<char>| #[trigger] self.lookup(k) == (if k == k0 {
                        Some(value)
                    } else {
                        old(self).lookup(k)
                    }) by {
                        position_is_first(before, k);
                        assert(position(after, k) == position(before, k));
                        if k != k0 && position(before, k) is Some {
                            assert(before[position(before, k)->0].0@ == k);
                        }
                    }
                    assert forall|k: Seq<char>| #[trigger] self.holds(k) == (k == k0
                        || old(self).holds(k)) by {
                        assert(position(after, k) == position(before, k));
                    }
                }
            },
            None => {
                let ghost before = self.entries@;
                let ghost k0 = key@;
                self.entries.push((key, value));
                proof {
                    let after = self.entries@;
                    assert(after.drop_last() =~= before);
                    position_is_first(before, k0);
                    assert forall|i: int, j: int|
                        #![trigger after[i].0, after[j].0]
                        old(self).distinct() && 0 <= i < j < after.len() implies after[i].0@
                        != after[j].0@ by {
                        if j == after.len() - 1 {
                            assert(before[i].0@ != k0);
                        } else {
                            assert(before[i].0@ != before[j].0@);
                        }
                    }
                    assert forall|k: Seq<char>| #[trigger] self.lookup(k) == (if k == k0 {
                        Some(value)
                    } else {
                        old(self).lookup(k)
                    }) by {
                        position_is_first(before, k);
                    }
                }
            },
        }
    }

    /// Takes a key out of the map.
    pub fn remove(&mut self, key: &String)
        requires
            old(self).distinct(),
        ensures
            forall|k: Seq<char>| #[trigger] final(self).lookup(k) == if k == key@ {
                None
            } else {
                old(self).lookup(k)
            },
            final(self).distinct(),
            final(self).entries@ == match position(old(self).entries@, key@) {
                Some(i) => old(self).entries@.remove(i),
                None => old(self).entries@,
            },
    {
        if let Some(i) = self.find(key) {
            let ghost before = self.entries@;
            self.entries.remove(i);
            proof {
                let after = self.entries@;
                assert(after =~= before.remove(i as int));
                assert forall|a: int, b: int|
                    #![trigger after[a].0, after[b].0]
                    0 <= a < b < after.len() implies after[a].0@ != after[b].0@ by {
                    let pa = if a < i {
                        a
                    } else {
                        a + 1
                    };
                    let pb = if b < i {
                        b
                    } else {
                        b + 1
                    };
                    assert(before[pa].0@ != before[pb].0@);
                }
                assert forall|k: Seq<char>| #[trigger] self.lookup(k) == (if k == key@ {
                    None
                } else {
                    old(self).lookup(k)
                }) by {
                    position_is_first(before, k);
                    if k == key@ {
                        assert forall|j: int| 0 <= j < after.len() implies (
                        #[trigger] after[j]).0@ != k by {
                            let pj = if j < i {
                                j
                            } else {
                                j + 1
                            };
                            if pj < i {
                                assert(before[pj].0@ != before[i as int].0@);
                            } else {
                                assert(before[i as int].0@ != before[pj].0@);
                            }
                        }
                        position_of_missing(after, k);
                    } else {
                        match position(before, k) {
                            Some(p) => {
                                let q = if p < i {
                                    p
                                } else {
                                    p - 1
                                };
                                assert forall|j: int| 0 <= j < q implies (
                                #[trigger] after[j]).0@ != k by {
                                    let pj = if j < i {
                                        j
                                    } else {
                                        j + 1
                                    };
                                    assert(before[pj].0@ != k);
                                }
                                position_from_first(after, k, q);
                            },
                            None => {
                                assert forall|j: int| 0 <= j < after.len() implies (
                                #[trigger] after[j]).0@ != k by {
                                    let pj = if j < i {
                                        j
                                    } else {
                                        j + 1
                                    };
                                    assert(before[pj].0@ != k);
                                }
                                position_of_missing(after, k);
                            },
                        }
                    }
                }
            }
        }
    }

    /// How many keys there are.
    pub fn len(&self) -> (r: usize)
        ensures
            r == self.entries@.len(),
    {
        self.entries.len()
    }

    /// Whether there is no key at all.
    pub fn is_empty(&self) -> (r: bool)
        ensures
            r == (self.entries@.len() == 0),
    {
        self.entries.len() == 0
    }
}

} // verus!
