//! A map from names (function ids) to sets of names (locals), kept as a
//! list of entries with distinct keys.

use vstd::prelude::*;
use crate::escape_analyze::promote::set_of;
use crate::field_cache::collect::{distinct_names, has_name};
use crate::field_cache::ipa::names_view;
use crate::text::{copy_str, str_eq};

verus! {

/// One key with its names.
#[derive(Debug)]
pub struct NamedSet {
    pub key: String,
    pub names: Vec<String>,
}

/// The entries as (key, set of names) pairs.
pub open spec fn pairs_of(es: Seq<NamedSet>) -> Seq<(Seq<char>, Set<Seq<char>>)> {
    es.map_values(|e: NamedSet| (e.key@, set_of(e.names@)))
}

/// The map that the pairs describe (a later pair wins over an earlier one
/// with the same key).
pub open spec fn pairs_map(ps: Seq<(Seq<char>, Set<Seq<char>>)>) -> Map<Seq<char>, Set<Seq<char>>>
    decreases ps.len(),
{
    if ps.len() == 0 {
        Map::empty()
    } else {
        pairs_map(ps.drop_last()).insert(ps.last().0, ps.last().1)
    }
}

/// The sum of the sizes of the sets of the pairs.
pub open spec fn pairs_total(ps: Seq<(Seq<char>, Set<Seq<char>>)>) -> nat
    decreases ps.len(),
{
    if ps.len() == 0 {
        0
    } else {
        pairs_total(ps.drop_last()) + ps.last().1.len()
    }
}

pub open spec fn keys_distinct(ps: Seq<(Seq<char>, Set<Seq<char>>)>) -> bool {
    forall|i: int, j: int| 0 <= i < ps.len() && 0 <= j < ps.len() && i != j ==> #[trigger] ps[i].0 != #[trigger] ps[j].0
}

proof fn lemma_map_lookup(ps: Seq<(Seq<char>, Set<Seq<char>>)>, i: int)
    requires
        keys_distinct(ps),
        0 <= i < ps.len(),
    ensures
        pairs_map(ps).contains_key(ps[i].0),
        pairs_map(ps)[ps[i].0] == ps[i].1,
    decreases ps.len(),
{
    if i < ps.len() - 1 {
        let d = ps.drop_last();
        assert(d[i] == ps[i]);
        assert(keys_distinct(d)) by {
            assert forall|a: int, b: int| 0 <= a < d.len() && 0 <= b < d.len() && a != b implies #[trigger] d[a].0 != #[trigger] d[b].0 by {
                assert(d[a] == ps[a] && d[b] == ps[b]);
            }
        }
        lemma_map_lookup(d, i);
        assert(ps.last().0 != ps[i].0);
    }
}

proof fn lemma_map_absent(ps: Seq<(Seq<char>, Set<Seq<char>>)>, k: Seq<char>)
    requires
        forall|i: int| 0 <= i < ps.len() ==> ps[i].0 != k,
    ensures
        !pairs_map(ps).contains_key(k),
    decreases ps.len(),
{
    if ps.len() > 0 {
        let d = ps.drop_last();
        assert forall|i: int| 0 <= i < d.len() implies d[i].0 != k by {
            assert(d[i] == ps[i]);
        }
        lemma_map_absent(d, k);
    }
}

proof fn lemma_map_keys(ps: Seq<(Seq<char>, Set<Seq<char>>)>, k: Seq<char>)
    requires
        pairs_map(ps).contains_key(k),
    ensures
        exists|i: int| 0 <= i < ps.len() && ps[i].0 == k,
    decreases ps.len(),
{
    if ps.last().0 != k {
        let d = ps.drop_last();
        lemma_map_keys(d, k);
        let i = choose|i: int| 0 <= i < d.len() && d[i].0 == k;
        assert(ps[i] == d[i]);
    }
}

proof fn lemma_map_update(ps: Seq<(Seq<char>, Set<Seq<char>>)>, i: int, s: Set<Seq<char>>)
    requires
        keys_distinct(ps),
        0 <= i < ps.len(),
    ensures
        pairs_map(ps.update(i, (ps[i].0, s))) == pairs_map(ps).insert(ps[i].0, s),
    decreases ps.len(),
{
    let u = ps.update(i, (ps[i].0, s));
    let d = ps.drop_last();
    if i == ps.len() - 1 {
        assert(u.drop_last() =~= d);
        assert(pairs_map(u) =~= pairs_map(ps).insert(ps[i].0, s));
    } else {
        assert(u.drop_last() =~= d.update(i, (d[i].0, s)));
        assert(keys_distinct(d)) by {
            assert forall|a: int, b: int| 0 <= a < d.len() && 0 <= b < d.len() && a != b implies #[trigger] d[a].0 != #[trigger] d[b].0 by {
                assert(d[a] == ps[a] && d[b] == ps[b]);
            }
        }
        lemma_map_update(d, i, s);
        assert(ps.last().0 != ps[i].0);
        assert(u.last() == ps.last());
        assert(pairs_map(u) =~= pairs_map(ps).insert(ps[i].0, s));
    }
}

proof fn lemma_total_update(ps: Seq<(Seq<char>, Set<Seq<char>>)>, i: int, s: Set<Seq<char>>)
    requires
        0 <= i < ps.len(),
    ensures
        pairs_total(ps.update(i, (ps[i].0, s))) + ps[i].1.len() == pairs_total(ps) + s.len(),
    decreases ps.len(),
{
    let u = ps.update(i, (ps[i].0, s));
    let d = ps.drop_last();
    if i == ps.len() - 1 {
        assert(u.drop_last() =~= d);
    } else {
        assert(u.drop_last() =~= d.update(i, (d[i].0, s)));
        lemma_total_update(d, i, s);
    }
}

proof fn lemma_set_of_len(v: Seq<String>)
    requires
        names_view(v).no_duplicates(),
    ensures
        set_of(v).finite(),
        set_of(v).len() == v.len(),
{
    assert(set_of(v) =~= names_view(v).to_set());
    names_view(v).unique_seq_to_set();
}

/// A map from keys to sets of names.
#[derive(Debug)]
pub struct NamedSets {
    entries: Vec<NamedSet>,
}

impl NamedSets {
    #[verifier::type_invariant]
    spec fn wf(self) -> bool {
        &&& keys_distinct(pairs_of(self.entries@))
        &&& forall|i: int| 0 <= i < self.entries@.len() ==> names_view(#[trigger] self.entries@[i].names@).no_duplicates()
    }

    /// The map from keys to sets of names.
    pub closed spec fn view(&self) -> Map<Seq<char>, Set<Seq<char>>> {
        pairs_map(pairs_of(self.entries@))
    }

    /// The sum, over the keys, of the number of names of each key.
    pub closed spec fn total(&self) -> nat {
        pairs_total(pairs_of(self.entries@))
    }

    /// An empty map.
    pub fn new() -> (r: Self)
        ensures
            r@ == Map::<Seq<char>, Set<Seq<char>>>::empty(),
            r.total() == 0,
    {
        let r = NamedSets { entries: Vec::new() };
        assert(pairs_of(r.entries@) =~= Seq::<(Seq<char>, Set<Seq<char>>)>::empty());
        r
    }

    fn position(&self, key: &str) -> (r: Option<usize>)
        ensures
            match r {
                Some(i) => i < self.entries@.len() && self.entries@[i as int].key@ == key@,
                None => forall|i: int| 0 <= i < self.entries@.len() ==> self.entries@[i].key@ != key@,
            },
    {
        let mut i: usize = 0;
        while i < self.entries.len()
            invariant
                i <= self.entries@.len(),
                forall|k: int| 0 <= k < i ==> self.entries@[k].key@ != key@,
            decreases self.entries@.len() - i,
        {
            if str_eq(self.entries[i].key.as_str(), key) {
                return Some(i);
            }
            i = i + 1;
        }
        None
    }

    /// `name` is among the names of `key`.
    pub fn has(&self, key: &str, name: &str) -> (r: bool)
        ensures
            r == (self@.contains_key(key@) && self@[key@].contains(name@)),
    {
        proof { use_type_invariant(self); }
        let ghost ps = pairs_of(self.entries@);
        match self.position(key) {
            Some(i) => {
                proof {
                    assert(ps[i as int].0 == key@);
                    lemma_map_lookup(ps, i as int);
                }
                crate::field_cache::ipa::contains_name(&self.entries[i].names, name)
            },
            None => {
                proof {
                    assert forall|j: int| 0 <= j < ps.len() implies ps[j].0 != key@ by {
                        assert(ps[j].0 == self.entries@[j].key@);
                    }
                    lemma_map_absent(ps, key@);
                }
                false
            },
        }
    }

    /// Some key has at least one name.
    pub fn any_nonempty(&self) -> (r: bool)
        ensures
            r == exists|k: Seq<char>| #[trigger] self@.contains_key(k) && self@[k] != Set::<Seq<char>>::empty(),
    {
        proof { use_type_invariant(self); }
        let ghost ps = pairs_of(self.entries@);
        let mut i: usize = 0;
        while i < self.entries.len()
            invariant
                i <= self.entries@.len(),
                ps == pairs_of(self.entries@),
                keys_distinct(ps),
                forall|k: int| 0 <= k < i ==> self.entries@[k].names@.len() == 0,
            decreases self.entries@.len() - i,
        {
            if self.entries[i].names.len() > 0 {
                proof {
                    lemma_map_lookup(ps, i as int);
                    let k = ps[i as int].0;
                    assert(self@[k].contains(self.entries@[i as int].names@[0]@)) by {
                        assert(names_view(self.entries@[i as int].names@)[0] == self.entries@[i as int].names@[0]@);
                    }
                    assert(self@.contains_key(k) && self@[k] != Set::<Seq<char>>::empty());
                }
                return true;
            }
            i = i + 1;
        }
        proof {
            assert forall|k: Seq<char>| #[trigger] self@.contains_key(k) implies self@[k] == Set::<Seq<char>>::empty() by {
                lemma_map_keys(ps, k);
                let j = choose|j: int| 0 <= j < ps.len() && ps[j].0 == k;
                lemma_map_lookup(ps, j);
                assert(set_of(self.entries@[j].names@) =~= Set::<Seq<char>>::empty());
            }
        }
        false
    }

    /// The number of names over all keys, or `usize::MAX` when that does
    /// not fit.
    pub fn total_count(&self) -> (n: usize)
        ensures
            n == (if self.total() <= usize::MAX { self.total() } else { usize::MAX as nat }),
            (n > 0) == exists|k: Seq<char>| #[trigger] self@.contains_key(k) && self@[k] != Set::<Seq<char>>::empty(),
    {
        proof { use_type_invariant(self); }
        let ghost ps = pairs_of(self.entries@);
        let mut n: usize = 0;
        let mut i: usize = 0;
        while i < self.entries.len()
            invariant
                i <= self.entries@.len(),
                ps == pairs_of(self.entries@),
                forall|k: int| 0 <= k < self.entries@.len() ==> names_view(#[trigger] self.entries@[k].names@).no_duplicates(),
                n == (if pairs_total(ps.subrange(0, i as int)) <= usize::MAX { pairs_total(ps.subrange(0, i as int)) } else { usize::MAX as nat }),
            decreases self.entries@.len() - i,
        {
            proof {
                lemma_set_of_len(self.entries@[i as int].names@);
                assert(ps.subrange(0, i as int + 1).drop_last() =~= ps.subrange(0, i as int));
            }
            n = n.saturating_add(self.entries[i].names.len());
            i = i + 1;
        }
        assert(ps.subrange(0, ps.len() as int) =~= ps);
        proof {
            use_type_invariant(self);
            lemma_total_positive(self.entries@);
            assert(self.total() == pairs_total(pairs_of(self.entries@)));
            assert(self@ == pairs_map(pairs_of(self.entries@)));
            assert((n > 0) == (self.total() > 0));
        }
        n
    }

    /// Sets the names of `key` (replacing any it had).
    pub fn set(&mut self, key: String, names: Vec<String>)
        ensures
            final(self)@ == old(self)@.insert(key@, set_of(names@)),
    {
        proof { use_type_invariant(&*self); }
        let ghost given = set_of(names@);
        let names = distinct_names(&names);
        assert(set_of(names@) =~= given);
        let ghost ps = pairs_of(self.entries@);
        let ghost k = key@;
        let ghost s = set_of(names@);
        let ghost olde = self.entries@;
        let ghost nn = names@;
        match self.position(key.as_str()) {
            Some(i) => {
                let mut es: Vec<NamedSet> = Vec::new();
                std::mem::swap(&mut es, &mut self.entries);
                es.set(i, NamedSet { key, names });
                proof {
                    assert forall|a: int| 0 <= a < es@.len() implies names_view(#[trigger] es@[a].names@).no_duplicates() by {
                        if a != i {
                            assert(es@[a] == olde[a]);
                        }
                    }
                    assert(pairs_of(es@) =~= ps.update(i as int, (ps[i as int].0, s)));
                    lemma_map_update(ps, i as int, s);
                    assert forall|a: int, b: int| 0 <= a < pairs_of(es@).len() && 0 <= b < pairs_of(es@).len() && a != b
                        implies #[trigger] pairs_of(es@)[a].0 != #[trigger] pairs_of(es@)[b].0 by {
                        assert(pairs_of(es@)[a].0 == ps[a].0 && pairs_of(es@)[b].0 == ps[b].0);
                    }
                }
                self.entries = es;
            },
            None => {
                let mut es: Vec<NamedSet> = Vec::new();
                std::mem::swap(&mut es, &mut self.entries);
                es.push(NamedSet { key, names });
                proof {
                    assert forall|a: int| 0 <= a < es@.len() implies names_view(#[trigger] es@[a].names@).no_duplicates() by {
                        if a < olde.len() {
                            assert(es@[a] == olde[a]);
                        }
                    }
                    assert(pairs_of(es@) =~= ps.push((k, s)));
                    assert(pairs_of(es@).drop_last() =~= ps);
                    assert forall|a: int, b: int| 0 <= a < pairs_of(es@).len() && 0 <= b < pairs_of(es@).len() && a != b
                        implies #[trigger] pairs_of(es@)[a].0 != #[trigger] pairs_of(es@)[b].0 by {
                        if a < ps.len() {
                            assert(pairs_of(es@)[a].0 == ps[a].0);
                        }
                        if b < ps.len() {
                            assert(pairs_of(es@)[b].0 == ps[b].0);
                        }
                    }
                }
                self.entries = es;
            },
        }
    }

    /// A copy of the entries.
    pub fn entries(&self) -> (r: Vec<NamedSet>)
        ensures
            pairs_map(pairs_of(r@)) == self@,
            keys_distinct(pairs_of(r@)),
            pairs_total(pairs_of(r@)) == self.total(),
    {
        proof { use_type_invariant(self); }
        let mut r: Vec<NamedSet> = Vec::new();
        let mut i: usize = 0;
        while i < self.entries.len()
            invariant
                i <= self.entries@.len(),
                pairs_of(r@) == pairs_of(self.entries@).subrange(0, i as int),
            decreases self.entries@.len() - i,
        {
            let e = &self.entries[i];
            let mut names: Vec<String> = Vec::new();
            let mut j: usize = 0;
            while j < e.names.len()
                invariant
                    j <= e.names@.len(),
                    names_view(names@) == names_view(e.names@).subrange(0, j as int),
                decreases e.names@.len() - j,
            {
                let ghost before = names@;
                names.push(copy_str(e.names[j].as_str()));
                proof {
                    assert(names@ == before.push(names@.last()));
                    assert(names_view(names@) =~= names_view(before).push(e.names@[j as int]@));
                    assert(names_view(names@) =~= names_view(e.names@).subrange(0, j as int + 1));
                }
                j = j + 1;
            }
            proof {
                assert(names_view(names@) =~= names_view(e.names@));
                assert(set_of(names@) =~= set_of(e.names@));
            }
            let ghost rb = r@;
            r.push(NamedSet { key: copy_str(e.key.as_str()), names });
            proof {
                assert(r@ == rb.push(r@.last()));
                assert(pairs_of(r@) =~= pairs_of(rb).push((e.key@, set_of(e.names@))));
                assert(pairs_of(r@) =~= pairs_of(self.entries@).subrange(0, i as int + 1));
            }
            i = i + 1;
        }
        assert(pairs_of(self.entries@).subrange(0, self.entries@.len() as int) =~= pairs_of(self.entries@));
        r
    }

}

/// The total of entries with distinct keys and duplicate-free names is
/// positive exactly when some key has a name.
proof fn lemma_total_positive(es: Seq<NamedSet>)
    requires
        keys_distinct(pairs_of(es)),
        forall|i: int| 0 <= i < es.len() ==> names_view(#[trigger] es[i].names@).no_duplicates(),
    ensures
        pairs_total(pairs_of(es)) > 0 <==> exists|k: Seq<char>| #[trigger] pairs_map(pairs_of(es)).contains_key(k)
            && pairs_map(pairs_of(es))[k] != Set::<Seq<char>>::empty(),
{
    let ps = pairs_of(es);
    assert forall|i: int| 0 <= i < ps.len() implies (#[trigger] ps[i]).1.finite() by {
        assert(ps[i].1 == set_of(es[i].names@));
        lemma_set_of_len(es[i].names@);
    }
    {
        lemma_pairs_total_positive(ps);
        if pairs_total(ps) > 0 {
            let i = choose|i: int| 0 <= i < ps.len() && (#[trigger] ps[i]).1 != Set::<Seq<char>>::empty();
            lemma_map_lookup(ps, i);
            assert(pairs_map(ps).contains_key(ps[i].0));
        }
        if exists|k: Seq<char>| #[trigger] pairs_map(ps).contains_key(k) && pairs_map(ps)[k] != Set::<Seq<char>>::empty() {
            let k = choose|k: Seq<char>| #[trigger] pairs_map(ps).contains_key(k) && pairs_map(ps)[k] != Set::<Seq<char>>::empty();
            lemma_map_keys(ps, k);
            let i = choose|i: int| 0 <= i < ps.len() && ps[i].0 == k;
            lemma_map_lookup(ps, i);
            assert(ps[i].1 != Set::<Seq<char>>::empty());
        }
    }
}

proof fn lemma_pairs_total_positive(ps: Seq<(Seq<char>, Set<Seq<char>>)>)
    requires
        forall|i: int| 0 <= i < ps.len() ==> (#[trigger] ps[i]).1.finite(),
    ensures
        pairs_total(ps) > 0 <==> exists|i: int| 0 <= i < ps.len() && (#[trigger] ps[i]).1 != Set::<Seq<char>>::empty(),
    decreases ps.len(),
{
    if ps.len() > 0 {
        let d = ps.drop_last();
        assert forall|i: int| 0 <= i < d.len() implies (#[trigger] d[i]).1.finite() by {
            assert(d[i] == ps[i]);
        }
        lemma_pairs_total_positive(d);
        let last = ps.last();
        assert(ps[ps.len() - 1] == last);
        assert(last.1.finite());
        if last.1 != Set::<Seq<char>>::empty() {
            assert(last.1.len() > 0) by {
                if last.1.len() == 0 {
                    last.1.lemma_len0_is_empty();
                }
            }
        } else {
            assert(last.1.len() == 0);
        }
        if exists|i: int| 0 <= i < d.len() && (#[trigger] d[i]).1 != Set::<Seq<char>>::empty() {
            let i = choose|i: int| 0 <= i < d.len() && (#[trigger] d[i]).1 != Set::<Seq<char>>::empty();
            assert(ps[i] == d[i]);
        }
        if exists|i: int| 0 <= i < ps.len() && (#[trigger] ps[i]).1 != Set::<Seq<char>>::empty() {
            let i = choose|i: int| 0 <= i < ps.len() && (#[trigger] ps[i]).1 != Set::<Seq<char>>::empty();
            if i < d.len() {
                assert(d[i] == ps[i]);
            }
        }
    }
}

} // verus!
