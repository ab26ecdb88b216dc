//! A string-keyed map that keeps its entries in increasing key order, so that
//! walking it visits keys in the order of a `BTreeMap<String, V>`.

use vstd::prelude::*;

use crate::order::{
    lemma_less_asymmetric, lemma_less_irreflexive, lemma_less_total, lemma_less_transitive,
    seq_less, string_less,
};
use crate::table::{lemma_lookup_push, lemma_lookup_some, lookup};

verus! {

/// The keys of the entries increase strictly.
pub open spec fn keys_sorted<V>(s: Seq<(String, V)>) -> bool {
    forall|i: int, j: int| 0 <= i < j < s.len() ==> seq_less(s[i].0@, s[j].0@)
}

/// No key occurs twice.
pub open spec fn keys_distinct<V>(s: Seq<(String, V)>) -> bool {
    forall|i: int, j: int| 0 <= i < s.len() && 0 <= j < s.len() && i != j ==> s[i].0@ != s[j].0@
}

pub proof fn lemma_sorted_distinct<V>(s: Seq<(String, V)>)
    requires
        keys_sorted(s),
    ensures
        keys_distinct(s),
{
    assert forall|i: int, j: int|
        0 <= i < s.len() && 0 <= j < s.len() && i != j implies s[i].0@ != s[j].0@ by {
        if i < j {
            if s[i].0@ == s[j].0@ {
                lemma_less_irreflexive(s[i].0@);
            }
        } else {
            if s[i].0@ == s[j].0@ {
                lemma_less_irreflexive(s[i].0@);
            }
        }
    }
}

/// With distinct keys, the value stored for the key of entry `i` is that entry's.
pub proof fn lemma_lookup_distinct<V>(s: Seq<(String, V)>, i: int)
    requires
        keys_distinct(s),
        0 <= i < s.len(),
    ensures
        lookup(s, s[i].0@) == Some(s[i].1),
    decreases s.len(),
{
    if i < s.len() - 1 {
        let t = s.drop_last();
        assert(t[i] == s[i]);
        assert(keys_distinct(t)) by {
            assert forall|a: int, b: int|
                0 <= a < t.len() && 0 <= b < t.len() && a != b implies t[a].0@ != t[b].0@ by {
                assert(t[a] == s[a] && t[b] == s[b]);
            }
        }
        lemma_lookup_distinct(t, i);
        assert(s.last().0@ != s[i].0@);
    }
}

/// A sorted string-keyed map.
#[derive(Debug)]
pub struct SortedMap<V> {
    pub entries: Vec<(String, V)>,
}

impl<V> SortedMap<V> {
    pub open spec fn wf(&self) -> bool {
        keys_sorted(self.entries@)
    }

    /// The value stored for `key`.
    pub open spec fn get_spec(&self, key: Seq<char>) -> Option<V> {
        lookup(self.entries@, key)
    }

    /// The keys, in increasing order.
    pub open spec fn keys(&self) -> Seq<Seq<char>> {
        self.entries@.map_values(|e: (String, V)| e.0@)
    }

    /// An empty map.
    pub fn new() -> (m: Self)
        ensures
            m.wf(),
            m.entries@.len() == 0,
            forall|k: Seq<char>| m.get_spec(k) is None,
    {
        SortedMap { entries: Vec::new() }
    }

    /// Where `key` is, or where it would be inserted.
    pub fn position(&self, key: &String) -> (r: Result<usize, usize>)
        requires
            self.wf(),
        ensures
            match r {
                Ok(i) => i < self.entries@.len() && self.entries@[i as int].0@ == key@
                    && self.get_spec(key@) == Some(self.entries@[i as int].1),
                Err(j) => {
                    &&& j <= self.entries@.len()
                    &&& self.get_spec(key@) is None
                    &&& forall|a: int| 0 <= a < j ==> seq_less(self.entries@[a].0@, key@)
                    &&& forall|a: int|
                        j <= a < self.entries@.len() ==> seq_less(key@, self.entries@[a].0@)
                },
            },
    {
        let mut i: usize = 0;
        while i < self.entries.len()
            invariant
                i <= self.entries@.len(),
                forall|a: int| 0 <= a < i ==> seq_less(self.entries@[a].0@, key@),
            ensures
                i <= self.entries@.len(),
                forall|a: int| 0 <= a < i ==> seq_less(self.entries@[a].0@, key@),
                i < self.entries@.len() ==> !seq_less(self.entries@[i as int].0@, key@),
            decreases self.entries@.len() - i,
        {
            if !string_less(&self.entries[i].0, key) {
                break;
            }
            i = i + 1;
        }
        proof {
            lemma_sorted_distinct(self.entries@);
        }
        if i < self.entries.len() && self.entries[i].0 == *key {
            proof {
                lemma_lookup_distinct(self.entries@, i as int);
            }
            return Ok(i);
        }
        proof {
            if i < self.entries@.len() {
                lemma_less_total(self.entries@[i as int].0@, key@);
            }
            assert forall|a: int| i <= a < self.entries@.len() implies seq_less(
                key@,
                self.entries@[a].0@,
            ) by {
                if a > i {
                    lemma_less_transitive(key@, self.entries@[i as int].0@, self.entries@[a].0@);
                }
            }
            lemma_lookup_some(self.entries@, key@);
            if lookup(self.entries@, key@) is Some {
                let a = choose|a: int|
                    0 <= a < self.entries@.len() && (#[trigger] self.entries@[a]).0@ == key@;
                if a < i {
                    lemma_less_irreflexive(key@);
                } else {
                    lemma_less_irreflexive(key@);
                }
            }
        }
        Err(i)
    }

    /// The value stored for `key`.
    pub fn get(&self, key: &String) -> (r: Option<&V>)
        requires
            self.wf(),
        ensures
            match r {
                Some(v) => self.get_spec(key@) == Some(*v),
                None => self.get_spec(key@) is None,
            },
    {
        match self.position(key) {
            Ok(i) => Some(&self.entries[i].1),
            Err(_) => None,
        }
    }

    /// Stores `value` for `key`, replacing the stored value.
    pub fn insert(&mut self, key: String, value: V)
        requires
            old(self).wf(),
        ensures
            final(self).wf(),
            final(self).get_spec(key@) == Some(value),
            forall|k: Seq<char>| k != key@ ==> final(self).get_spec(k) == old(self).get_spec(k),
    {
        let ghost old_entries = self.entries@;
        let ghost kv = key@;
        match self.position(&key) {
            Ok(i) => {
                let ghost e = (key, value);
                self.entries.set(i, (key, value));
                proof {
                    assert(self.entries@ =~= old_entries.update(i as int, e));
                    assert(keys_sorted(self.entries@)) by {
                        assert forall|a: int, b: int|
                            0 <= a < b < self.entries@.len() implies seq_less(
                            self.entries@[a].0@,
                            self.entries@[b].0@,
                        ) by {
                            assert(self.entries@[a].0@ == old_entries[a].0@);
                            assert(self.entries@[b].0@ == old_entries[b].0@);
                        }
                    }
                    lemma_sorted_distinct(self.entries@);
                    lemma_sorted_distinct(old_entries);
                    lemma_lookup_distinct(self.entries@, i as int);
                    assert forall|k: Seq<char>| k != kv implies lookup(self.entries@, k) == lookup(
                        old_entries,
                        k,
                    ) by {
                        lemma_lookup_some(self.entries@, k);
                        lemma_lookup_some(old_entries, k);
                        if lookup(old_entries, k) is Some {
                            let a = choose|a: int|
                                0 <= a < old_entries.len() && (#[trigger] old_entries[a]).0@ == k;
                            lemma_lookup_distinct(old_entries, a);
                            assert(self.entries@[a] == old_entries[a]);
                            lemma_lookup_distinct(self.entries@, a);
                        } else {
                            if lookup(self.entries@, k) is Some {
                                let a = choose|a: int|
                                    0 <= a < self.entries@.len() && (#[trigger] self.entries@[a]).0@
                                        == k;
                                assert(old_entries[a].0@ == k);
                            }
                        }
                    }
                }
            },
            Err(j) => {
                let ghost e = (key, value);
                self.entries.insert(j, (key, value));
                proof {
                    assert(self.entries@ =~= old_entries.insert(j as int, e));
                    assert(keys_sorted(self.entries@)) by {
                        assert forall|a: int, b: int|
                            0 <= a < b < self.entries@.len() implies seq_less(
                            self.entries@[a].0@,
                            self.entries@[b].0@,
                        ) by {
                            if b < j {
                                assert(self.entries@[a] == old_entries[a]);
                                assert(self.entries@[b] == old_entries[b]);
                            } else if b == j {
                                assert(self.entries@[a] == old_entries[a]);
                            } else if a < j {
                                assert(self.entries@[a] == old_entries[a]);
                                assert(self.entries@[b] == old_entries[b - 1]);
                                lemma_less_transitive(
                                    old_entries[a].0@,
                                    kv,
                                    old_entries[b - 1].0@,
                                );
                            } else if a == j {
                                assert(self.entries@[b] == old_entries[b - 1]);
                            } else {
                                assert(self.entries@[a] == old_entries[a - 1]);
                                assert(self.entries@[b] == old_entries[b - 1]);
                            }
                        }
                    }
                    lemma_sorted_distinct(self.entries@);
                    lemma_sorted_distinct(old_entries);
                    lemma_lookup_distinct(self.entries@, j as int);
                    assert forall|k: Seq<char>| k != kv implies lookup(self.entries@, k) == lookup(
                        old_entries,
                        k,
                    ) by {
                        lemma_lookup_some(self.entries@, k);
                        lemma_lookup_some(old_entries, k);
                        if lookup(old_entries, k) is Some {
                            let a = choose|a: int|
                                0 <= a < old_entries.len() && (#[trigger] old_entries[a]).0@ == k;
                            lemma_lookup_distinct(old_entries, a);
                            let b = if a < j {
                                a
                            } else {
                                a + 1
                            };
                            assert(self.entries@[b] == old_entries[a]);
                            lemma_lookup_distinct(self.entries@, b);
                        } else {
                            if lookup(self.entries@, k) is Some {
                                let a = choose|a: int|
                                    0 <= a < self.entries@.len() && (#[trigger] self.entries@[a]).0@
                                        == k;
                                if a < j {
                                    assert(old_entries[a].0@ == k);
                                } else if a > j {
                                    assert(old_entries[a - 1].0@ == k);
                                }
                            }
                        }
                    }
                }
            },
        }
    }

    /// Removes `key`; returns the value it had.
    pub fn remove(&mut self, key: &String) -> (r: Option<V>)
        requires
            old(self).wf(),
        ensures
            final(self).wf(),
            r == old(self).get_spec(key@),
            final(self).get_spec(key@) is None,
            forall|k: Seq<char>| k != key@ ==> final(self).get_spec(k) == old(self).get_spec(k),
    {
        let ghost old_entries = self.entries@;
        proof {
            lemma_sorted_distinct(old_entries);
        }
        match self.position(key) {
            Ok(i) => {
                let e = self.entries.remove(i);
                proof {
                    assert(self.entries@ =~= old_entries.remove(i as int));
                    assert(keys_sorted(self.entries@)) by {
                        assert forall|a: int, b: int|
                            0 <= a < b < self.entries@.len() implies seq_less(
                            self.entries@[a].0@,
                            self.entries@[b].0@,
                        ) by {
                            let a0 = if a < i {
                                a
                            } else {
                                a + 1
                            };
                            let b0 = if b < i {
                                b
                            } else {
                                b + 1
                            };
                            assert(self.entries@[a] == old_entries[a0]);
                            assert(self.entries@[b] == old_entries[b0]);
                        }
                    }
                    lemma_sorted_distinct(self.entries@);
                    lemma_lookup_some(self.entries@, key@);
                    if lookup(self.entries@, key@) is Some {
                        let a = choose|a: int|
                            0 <= a < self.entries@.len() && (#[trigger] self.entries@[a]).0@
                                == key@;
                        let a0 = if a < i {
                            a
                        } else {
                            a + 1
                        };
                        assert(self.entries@[a] == old_entries[a0]);
                    }
                    assert forall|k: Seq<char>| k != key@ implies lookup(self.entries@, k)
                        == lookup(old_entries, k) by {
                        lemma_lookup_some(self.entries@, k);
                        lemma_lookup_some(old_entries, k);
                        if lookup(old_entries, k) is Some {
                            let a = choose|a: int|
                                0 <= a < old_entries.len() && (#[trigger] old_entries[a]).0@ == k;
                            lemma_lookup_distinct(old_entries, a);
                            let b = if a < i {
                                a
                            } else {
                                a - 1
                            };
                            assert(self.entries@[b] == old_entries[a]);
                            lemma_lookup_distinct(self.entries@, b);
                        } else {
                            if lookup(self.entries@, k) is Some {
                                let a = choose|a: int|
                                    0 <= a < self.entries@.len() && (#[trigger] self.entries@[a]).0@
                                        == k;
                                let a0 = if a < i {
                                    a
                                } else {
                                    a + 1
                                };
                                assert(self.entries@[a] == old_entries[a0]);
                            }
                        }
                    }
                }
                Some(e.1)
            },
            Err(_) => None,
        }
    }

    /// Drops the entries whose key `other` does not have.
    pub fn retain_keys_of<W>(&mut self, other: &SortedMap<W>)
        requires
            old(self).wf(),
            other.wf(),
        ensures
            final(self).wf(),
            forall|k: Seq<char>|
                #[trigger] final(self).get_spec(k) == if other.get_spec(k) is Some {
                    old(self).get_spec(k)
                } else {
                    None
                },
    {
        let mut keys: Vec<String> = Vec::new();
        let mut i: usize = 0;
        while i < self.entries.len()
            invariant
                i <= self.entries@.len(),
                keys@.len() == i,
                forall|j: int| 0 <= j < i ==> keys@[j]@ == self.entries@[j].0@,
            decreases self.entries@.len() - i,
        {
            keys.push(self.entries[i].0.clone());
            i = i + 1;
        }
        let ghost start = self.entries@;
        let mut j: usize = 0;
        while j < keys.len()
            invariant
                self.wf(),
                other.wf(),
                j <= keys@.len(),
                keys@.len() == start.len(),
                start == old(self).entries@,
                forall|m: int| 0 <= m < keys@.len() ==> keys@[m]@ == start[m].0@,
                forall|k: Seq<char>|
                    #[trigger] self.get_spec(k) == if other.get_spec(k) is None && (exists|m: int|
                        0 <= m < j && keys@[m]@ == k) {
                        None
                    } else {
                        lookup(start, k)
                    },
            decreases keys@.len() - j,
        {
            if other.get(&keys[j]).is_none() {
                self.remove(&keys[j]);
            }
            j = j + 1;
        }
        proof {
            assert forall|k: Seq<char>|
                #[trigger] self.get_spec(k) == if other.get_spec(k) is Some {
                    lookup(start, k)
                } else {
                    None
                } by {
                if other.get_spec(k) is None && lookup(start, k) is Some {
                    lemma_lookup_some(start, k);
                    let m = choose|m: int| 0 <= m < start.len() && (#[trigger] start[m]).0@ == k;
                    assert(keys@[m]@ == k);
                }
            }
        }
    }

    /// The number of entries.
    pub fn len(&self) -> (r: usize)
        ensures
            r == self.entries@.len(),
    {
        self.entries.len()
    }
}

} // verus!
