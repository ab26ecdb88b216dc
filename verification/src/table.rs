//! A small string-keyed table, modelled as a finite map.

use vstd::prelude::*;

verus! {

/// The value stored for `key`: the last entry with that key wins.
pub open spec fn lookup<V>(entries: Seq<(String, V)>, key: Seq<char>) -> Option<V>
    decreases entries.len(),
{
    if entries.len() == 0 {
        None
    } else if entries.last().0@ == key {
        Some(entries.last().1)
    } else {
        lookup(entries.drop_last(), key)
    }
}

/// A string-keyed table.
pub struct Table<V> {
    pub entries: Vec<(String, V)>,
}

pub proof fn lemma_lookup_push<V>(s: Seq<(String, V)>, e: (String, V), q: Seq<char>)
    ensures
        lookup(s.push(e), q) == if e.0@ == q {
            Some(e.1)
        } else {
            lookup(s, q)
        },
{
    assert(s.push(e).drop_last() =~= s);
}

/// A key of the table has an entry.
pub proof fn lemma_lookup_some<V>(s: Seq<(String, V)>, q: Seq<char>)
    ensures
        lookup(s, q) is Some <==> exists|i: int| 0 <= i < s.len() && (#[trigger] s[i]).0@ == q,
    decreases s.len(),
{
    if s.len() > 0 {
        lemma_lookup_some(s.drop_last(), q);
        if lookup(s.drop_last(), q) is Some {
            let i = choose|i: int| 0 <= i < s.drop_last().len() && (#[trigger] s.drop_last()[i]).0@
                == q;
            assert(s[i] == s.drop_last()[i]);
        }
        assert forall|i: int| 0 <= i < s.len() - 1 implies (#[trigger] s[i]).0@ == s.drop_last()[i].0@ by {}
    }
}

/// A stored value belongs to an entry with that key.
pub proof fn lemma_lookup_value<V>(s: Seq<(String, V)>, q: Seq<char>)
    requires
        lookup(s, q) is Some,
    ensures
        exists|i: int| 0 <= i < s.len() && (#[trigger] s[i]).0@ == q && s[i].1 == lookup(s, q)->0,
    decreases s.len(),
{
    if s.last().0@ != q {
        lemma_lookup_value(s.drop_last(), q);
        let i = choose|i: int|
            0 <= i < s.drop_last().len() && (#[trigger] s.drop_last()[i]).0@ == q
                && s.drop_last()[i].1 == lookup(s.drop_last(), q)->0;
        assert(s[i] == s.drop_last()[i]);
    } else {
        assert(s[s.len() - 1] == s.last());
    }
}

impl<V> Table<V> {
    /// The table as a map.
    pub open spec fn get_spec(&self, key: Seq<char>) -> Option<V> {
        lookup(self.entries@, key)
    }

    /// An empty table.
    pub fn new() -> (t: Self)
        ensures
            forall|k: Seq<char>| t.get_spec(k) is None,
            t.entries@.len() == 0,
    {
        Table { entries: Vec::new() }
    }

    /// The index of the entry that `get_spec` reads for `key`.
    pub fn position(&self, key: &String) -> (r: Option<usize>)
        ensures
            match r {
                Some(i) => i < self.entries@.len() && self.entries@[i as int].0@ == key@
                    && self.get_spec(key@) == Some(self.entries@[i as int].1),
                None => self.get_spec(key@) is None,
            },
    {
        let mut i = self.entries.len();
        assert(self.entries@.take(self.entries@.len() as int) =~= self.entries@);
        while i > 0
            invariant
                i <= self.entries@.len(),
                lookup(self.entries@, key@) == lookup(self.entries@.take(i as int), key@),
            decreases i,
        {
            let ghost pre = self.entries@.take(i as int);
            assert(pre.drop_last() =~= self.entries@.take(i - 1));
            assert(pre.last() == self.entries@[i - 1]);
            if self.entries[i - 1].0 == *key {
                return Some(i - 1);
            }
            i = i - 1;
        }
        None
    }

    /// The value stored for `key`.
    pub fn get(&self, key: &String) -> (r: Option<&V>)
        ensures
            match r {
                Some(v) => self.get_spec(key@) == Some(*v),
                None => self.get_spec(key@) is None,
            },
    {
        match self.position(key) {
            Some(i) => Some(&self.entries[i].1),
            None => None,
        }
    }

    /// Removes every entry for `key`.
    pub fn remove(&mut self, key: &String)
        ensures
            final(self).get_spec(key@) is None,
            forall|k: Seq<char>| k != key@ ==> final(self).get_spec(k) == old(self).get_spec(k),
    {
        let mut taken: Vec<(String, V)> = Vec::new();
        std::mem::swap(&mut taken, &mut self.entries);
        let ghost orig = taken@;
        let mut kept: Vec<(String, V)> = Vec::new();
        for e in it: taken.into_iter()
            invariant
                orig == old(self).entries@,
                it.seq() == orig,
                lookup(kept@, key@) is None,
                forall|q: Seq<char>|
                    q != key@ ==> lookup(kept@, q) == lookup(orig.take(it.index()), q),
        {
            let ghost before = kept@;
            let ghost idx = it.index();
            assert(orig.take(idx + 1) =~= orig.take(idx).push(e));
            let keep = !(e.0 == *key);
            let ghost ev = e;
            if keep {
                kept.push(e);
                proof {
                    lemma_lookup_push(before, ev, key@);
                }
            }
            proof {
                assert forall|q: Seq<char>| q != key@ implies lookup(kept@, q) == lookup(
                    orig.take(idx + 1),
                    q,
                ) by {
                    lemma_lookup_push(orig.take(idx), ev, q);
                    if keep {
                        lemma_lookup_push(before, ev, q);
                    }
                }
            }
        }
        assert(orig.take(orig.len() as int) =~= orig);
        self.entries = kept;
    }

    /// Stores `value` for `key`, replacing what was stored.
    pub fn insert(&mut self, key: String, value: V)
        ensures
            final(self).get_spec(key@) == Some(value),
            forall|k: Seq<char>| k != key@ ==> final(self).get_spec(k) == old(self).get_spec(k),
    {
        self.remove(&key);
        let ghost before = self.entries@;
        let ghost e = (key, value);
        self.entries.push((key, value));
        proof {
            lemma_lookup_push(before, e, e.0@);
            assert forall|k: Seq<char>| k != e.0@ implies lookup(self.entries@, k) == lookup(
                before,
                k,
            ) by {
                lemma_lookup_push(before, e, k);
            }
        }
    }

    /// The number of entries.
    pub fn len(&self) -> (r: usize)
        ensures
            r == self.entries@.len(),
    {
        self.entries.len()
    }
}

} // verus!
