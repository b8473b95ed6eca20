//! A map keyed by strings, kept as a list of entries with distinct keys.

use vstd::prelude::*;
use crate::text::str_eq;

verus! {

/// The map that the entries describe (a later entry wins over an earlier
/// one with the same key).
pub open spec fn entries_map<V>(es: Seq<(String, V)>) -> Map<Seq<char>, V>
    decreases es.len(),
{
    if es.len() == 0 {
        Map::empty()
    } else {
        entries_map(es.drop_last()).insert(es.last().0@, es.last().1)
    }
}

pub open spec fn keys_unique<V>(es: Seq<(String, V)>) -> bool {
    forall|i: int, j: int| 0 <= i < es.len() && 0 <= j < es.len() && i != j ==> #[trigger] es[i].0@ != #[trigger] es[j].0@
}

proof fn lemma_unique_prefix<V>(es: Seq<(String, V)>)
    requires
        keys_unique(es),
        es.len() > 0,
    ensures
        keys_unique(es.drop_last()),
{
    let d = es.drop_last();
    assert forall|a: int, b: int| 0 <= a < d.len() && 0 <= b < d.len() && a != b implies #[trigger] d[a].0@ != #[trigger] d[b].0@ by {
        assert(d[a] == es[a] && d[b] == es[b]);
    }
}

proof fn lemma_lookup<V>(es: Seq<(String, V)>, i: int)
    requires
        keys_unique(es),
        0 <= i < es.len(),
    ensures
        entries_map(es).contains_key(es[i].0@),
        entries_map(es)[es[i].0@] == es[i].1,
    decreases es.len(),
{
    if i < es.len() - 1 {
        let d = es.drop_last();
        assert(d[i] == es[i]);
        lemma_unique_prefix(es);
        lemma_lookup(d, i);
        assert(es.last().0@ != es[i].0@);
    }
}

proof fn lemma_absent<V>(es: Seq<(String, V)>, k: Seq<char>)
    requires
        forall|i: int| 0 <= i < es.len() ==> es[i].0@ != k,
    ensures
        !entries_map(es).contains_key(k),
    decreases es.len(),
{
    if es.len() > 0 {
        let d = es.drop_last();
        assert forall|i: int| 0 <= i < d.len() implies d[i].0@ != k by {
            assert(d[i] == es[i]);
        }
        lemma_absent(d, k);
    }
}

proof fn lemma_keys<V>(es: Seq<(String, V)>, k: Seq<char>)
    requires
        entries_map(es).contains_key(k),
    ensures
        exists|i: int| 0 <= i < es.len() && es[i].0@ == k,
    decreases es.len(),
{
    if es.last().0@ != k {
        let d = es.drop_last();
        lemma_keys(d, k);
        let i = choose|i: int| 0 <= i < d.len() && d[i].0@ == k;
        assert(es[i] == d[i]);
    }
}

proof fn lemma_remove<V>(es: Seq<(String, V)>, k: int)
    requires
        keys_unique(es),
        0 <= k < es.len(),
    ensures
        entries_map(es.remove(k)) == entries_map(es).remove(es[k].0@),
        keys_unique(es.remove(k)),
{
    let r = es.remove(k);
    assert(keys_unique(r)) by {
        assert forall|i: int, j: int| 0 <= i < r.len() && 0 <= j < r.len() && i != j implies #[trigger] r[i].0@ != #[trigger] r[j].0@ by {
            let i2 = if i < k { i } else { i + 1 };
            let j2 = if j < k { j } else { j + 1 };
            assert(r[i] == es[i2] && r[j] == es[j2]);
        }
    }
    let a = entries_map(r);
    let b = entries_map(es).remove(es[k].0@);
    assert forall|p: Seq<char>| #[trigger] a.contains_key(p) <==> b.contains_key(p) by {
        if a.contains_key(p) {
            lemma_keys(r, p);
            let i = choose|i: int| 0 <= i < r.len() && r[i].0@ == p;
            let i2 = if i < k { i } else { i + 1 };
            assert(r[i] == es[i2]);
            lemma_lookup(es, i2);
        }
        if b.contains_key(p) {
            lemma_keys(es, p);
            let i = choose|i: int| 0 <= i < es.len() && es[i].0@ == p;
            assert(i != k);
            let i2 = if i < k { i } else { i - 1 };
            assert(r[i2] == es[i]);
            lemma_lookup(r, i2);
        }
    }
    assert forall|p: Seq<char>| #[trigger] a.contains_key(p) implies a[p] == b[p] by {
        lemma_keys(r, p);
        let i = choose|i: int| 0 <= i < r.len() && r[i].0@ == p;
        let i2 = if i < k { i } else { i + 1 };
        assert(r[i] == es[i2]);
        lemma_lookup(r, i);
        lemma_lookup(es, i2);
    }
    assert(a =~= b);
}

/// A map from strings to values.
#[derive(Debug)]
pub struct KeyedMap<V> {
    entries: Vec<(String, V)>,
}

impl<V> KeyedMap<V> {
    #[verifier::type_invariant]
    spec fn wf(self) -> bool {
        keys_unique(self.entries@)
    }

    pub closed spec fn view(&self) -> Map<Seq<char>, V> {
        entries_map(self.entries@)
    }

    /// An empty map.
    pub fn new() -> (m: Self)
        ensures
            m@ == Map::<Seq<char>, V>::empty(),
    {
        KeyedMap { entries: Vec::new() }
    }

    fn position(&self, key: &str) -> (r: Option<usize>)
        ensures
            match r {
                Some(i) => i < self.entries@.len() && self.entries@[i as int].0@ == key@,
                None => forall|i: int| 0 <= i < self.entries@.len() ==> self.entries@[i].0@ != key@,
            },
    {
        let mut i: usize = 0;
        while i < self.entries.len()
            invariant
                i <= self.entries@.len(),
                forall|k: int| 0 <= k < i ==> self.entries@[k].0@ != key@,
            decreases self.entries@.len() - i,
        {
            if str_eq(self.entries[i].0.as_str(), key) {
                return Some(i);
            }
            i = i + 1;
        }
        None
    }

    /// The value of `key`, if any.
    pub fn get(&self, key: &str) -> (r: Option<&V>)
        ensures
            match r {
                Some(v) => self@.contains_key(key@) && self@[key@] == *v,
                None => !self@.contains_key(key@),
            },
    {
        proof { use_type_invariant(self); }
        match self.position(key) {
            Some(i) => {
                proof { lemma_lookup(self.entries@, i as int); }
                Some(&self.entries[i].1)
            },
            None => {
                proof { lemma_absent(self.entries@, key@); }
                None
            },
        }
    }

    /// Forgets `key`; says whether it was there.
    pub fn remove(&mut self, key: &str) -> (r: bool)
        ensures
            r == old(self)@.contains_key(key@),
            final(self)@ == old(self)@.remove(key@),
    {
        proof { use_type_invariant(&*self); }
        match self.position(key) {
            Some(i) => {
                proof {
                    lemma_lookup(self.entries@, i as int);
                    lemma_remove(self.entries@, i as int);
                }
                let mut es: Vec<(String, V)> = Vec::new();
                std::mem::swap(&mut es, &mut self.entries);
                es.remove(i);
                self.entries = es;
                true
            },
            None => {
                proof {
                    lemma_absent(self.entries@, key@);
                    assert(self@.remove(key@) =~= self@);
                }
                false
            },
        }
    }

    /// Sets the value of `key`.
    pub fn insert(&mut self, key: String, value: V)
        ensures
            final(self)@ == old(self)@.insert(key@, value),
    {
        proof { use_type_invariant(&*self); }
        let ghost m0 = self@;
        let ghost k = key@;
        let found = self.position(key.as_str());
        let mut es: Vec<(String, V)> = Vec::new();
        std::mem::swap(&mut es, &mut self.entries);
        match found {
            Some(p) => {
                proof { lemma_remove(es@, p as int); }
                es.remove(p);
            },
            None => {
                proof {
                    lemma_absent(es@, k);
                    assert(entries_map(es@).remove(k) =~= entries_map(es@));
                }
            },
        }
        let ghost before = es@;
        es.push((key, value));
        proof {
            assert(es@.drop_last() =~= before);
            assert forall|j: int| 0 <= j < before.len() implies before[j].0@ != k by {
                if before[j].0@ == k {
                    lemma_lookup(before, j);
                }
            }
            assert(keys_unique(es@)) by {
                assert forall|a: int, b: int| 0 <= a < es@.len() && 0 <= b < es@.len() && a != b implies #[trigger] es@[a].0@ != #[trigger] es@[b].0@ by {
                    if a < before.len() && b < before.len() {
                        assert(es@[a] == before[a] && es@[b] == before[b]);
                    } else if a < before.len() {
                        assert(es@[a] == before[a]);
                    } else {
                        assert(es@[b] == before[b]);
                    }
                }
            }
            assert(entries_map(es@) =~= m0.insert(k, value));
        }
        self.entries = es;
    }
}

} // verus!
