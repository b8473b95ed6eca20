//! The write-set and read-set closures of a module, kept in a one-slot
//! cache keyed by the fingerprint of the module's method graph.
//!
//! When the cache is in use, a module whose graph has the fingerprint of
//! the cached one gets the cached closure back; any other module gets its
//! closure computed, and that closure takes the slot.

use vstd::prelude::*;
use crate::ast::{FnDecl, Module};
use crate::field_cache::chain_path::copy_path;
use crate::field_cache::ipa::{lookup_fields, names_view, MethodFields, WriteSets};
use crate::field_cache::scc_cache::{
    bump, callee_view, compute_scc_fingerprint, direct_view, entry_key, fingerprint_of, last_with, pairs_view,
    slot_lookup, ScCache,
};
use crate::field_cache::writeset::{
    body_calls, body_direct, decl_for, decl_of, facts_of, module_facts, module_methods, owner_of, recorded_fields,
    sets_describe, write_sets_of, FieldAccess, MethodFacts,
};
use crate::field_cache::collect::has_name;
use crate::text::{copy_str, str_eq};

verus! {

/// The fields recorded by `ws`, as a map from methods.
pub open spec fn sets_map(ws: WriteSets) -> Map<(Seq<char>, Seq<char>), Set<Seq<char>>> {
    Map::new(
        |k: (Seq<char>, Seq<char>)| recorded_fields(ws, k.0, k.1) is Some,
        |k: (Seq<char>, Seq<char>)| recorded_fields(ws, k.0, k.1).unwrap().to_set(),
    )
}

/// Each declared method of `ds` with the fields it accesses itself.
pub open spec fn own_fields_graph(acc: FieldAccess, ds: Seq<FnDecl>) -> Map<(Seq<char>, Seq<char>), Set<Seq<char>>> {
    Map::new(
        |k: (Seq<char>, Seq<char>)| decl_of(ds, k.0, k.1) is Some,
        |k: (Seq<char>, Seq<char>)| Set::new(|x: Seq<char>| body_direct(acc, decl_of(ds, k.0, k.1).unwrap().body, x)),
    )
}

/// Each declared method of `ds` with the receiver methods it calls itself.
pub open spec fn callee_graph(acc: FieldAccess, ds: Seq<FnDecl>) -> Map<(Seq<char>, Seq<char>), Set<(Seq<char>, Seq<char>)>> {
    Map::new(
        |k: (Seq<char>, Seq<char>)| decl_of(ds, k.0, k.1) is Some,
        |k: (Seq<char>, Seq<char>)| Set::new(|p: (Seq<char>, Seq<char>)| p.0 == k.0 && body_calls(acc, decl_of(ds, k.0, k.1).unwrap().body, p.1)),
    )
}

/// The fingerprint of the method graph of `ds`.
pub open spec fn graph_fingerprint(acc: FieldAccess, ds: Seq<FnDecl>) -> u64 {
    fingerprint_of(own_fields_graph(acc, ds), callee_graph(acc, ds))
}

proof fn lemma_last_decl<V>(es: Seq<(String, String, V)>, ds: Seq<FnDecl>, k: (Seq<char>, Seq<char>), n: int)
    requires
        0 <= n <= es.len(),
        es.len() == ds.len(),
        forall|q: int| 0 <= q < es.len() ==> entry_key(#[trigger] es[q]) == (owner_of(ds[q]), ds[q].name@),
    ensures
        (last_with(es, k, n) >= 0) == (decl_for(ds, n, k.0, k.1) is Some),
        last_with(es, k, n) >= 0 ==> last_with(es, k, n) < n && decl_for(ds, n, k.0, k.1) == Some(ds[last_with(es, k, n)])
            && entry_key(es[last_with(es, k, n)]) == k,
    decreases n,
{
    if n > 0 {
        assert(entry_key(es[n - 1]) == (owner_of(ds[n - 1]), ds[n - 1].name@));
        lemma_last_decl(es, ds, k, n - 1);
    }
}

proof fn lemma_last_lookup(es: Seq<MethodFields>, r: Seq<(String, String, Vec<String>)>, k: (Seq<char>, Seq<char>), n: int)
    requires
        0 <= n <= es.len(),
        es.len() == r.len(),
        forall|q: int| 0 <= q < r.len() ==> entry_key(#[trigger] r[q]) == (es[q].owner_type@, es[q].method@)
            && names_view(r[q].2@) == names_view(es[q].fields@),
    ensures
        (last_with(r, k, n) >= 0) == (lookup_fields(es, n, k.0, k.1) is Some),
        last_with(r, k, n) >= 0 ==> last_with(r, k, n) < n && lookup_fields(es, n, k.0, k.1) == Some(names_view(r[last_with(r, k, n)].2@)),
    decreases n,
{
    if n > 0 {
        assert(entry_key(r[n - 1]) == (es[n - 1].owner_type@, es[n - 1].method@));
        lemma_last_lookup(es, r, k, n - 1);
    }
}

/// The graph of the methods whose direct facts are `facts`: each with its
/// own fields, and each with its callees on the receiver.
fn graph_entries(acc: FieldAccess, facts: &Vec<MethodFacts>, Ghost(ds): Ghost<Seq<FnDecl>>)
    -> (r: (Vec<(String, String, Vec<String>)>, Vec<(String, String, Vec<(String, String)>)>))
    requires
        facts@.len() == ds.len(),
        forall|i: int| 0 <= i < ds.len() ==> facts_of(acc, #[trigger] facts@[i], ds[i]),
    ensures
        direct_view(r.0@) == own_fields_graph(acc, ds),
        callee_view(r.1@) == callee_graph(acc, ds),
{
    let mut d: Vec<(String, String, Vec<String>)> = Vec::new();
    let mut c: Vec<(String, String, Vec<(String, String)>)> = Vec::new();
    let mut i: usize = 0;
    while i < facts.len()
        invariant
            i <= facts@.len(),
            facts@.len() == ds.len(),
            d@.len() == i,
            c@.len() == i,
            forall|q: int| 0 <= q < i ==> entry_key(#[trigger] d@[q]) == (facts@[q].owner_type@, facts@[q].method@)
                && names_view(d@[q].2@) == names_view(facts@[q].writes@),
            forall|q: int| 0 <= q < i ==> entry_key(#[trigger] c@[q]) == (facts@[q].owner_type@, facts@[q].method@)
                && forall|p: (Seq<char>, Seq<char>)| #[trigger] pairs_view(c@[q].2@).contains(p)
                    <==> p.0 == facts@[q].owner_type@ && names_view(facts@[q].calls@).contains(p.1),
        decreases facts@.len() - i,
    {
        let f = &facts[i];
        let mut callees: Vec<(String, String)> = Vec::new();
        let mut j: usize = 0;
        while j < f.calls.len()
            invariant
                j <= f.calls@.len(),
                forall|p: (Seq<char>, Seq<char>)| #[trigger] pairs_view(callees@).contains(p)
                    <==> p.0 == f.owner_type@ && names_view(f.calls@).take(j as int).contains(p.1),
            decreases f.calls@.len() - j,
        {
            let ghost before = pairs_view(callees@);
            callees.push((copy_str(f.owner_type.as_str()), copy_str(f.calls[j].as_str())));
            proof {
                let t0 = names_view(f.calls@).take(j as int);
                let t1 = names_view(f.calls@).take(j as int + 1);
                assert(t1 =~= t0.push(f.calls@[j as int]@));
                assert(pairs_view(callees@) =~= before.push((f.owner_type@, f.calls@[j as int]@)));
                assert forall|p: (Seq<char>, Seq<char>)| #[trigger] pairs_view(callees@).contains(p)
                    <==> p.0 == f.owner_type@ && t1.contains(p.1) by {
                    if pairs_view(callees@).contains(p) {
                        let q = choose|q: int| 0 <= q < pairs_view(callees@).len() && pairs_view(callees@)[q] == p;
                        if q < before.len() {
                            assert(before[q] == p);
                            assert(before.contains(p));
                            let w = choose|w: int| 0 <= w < t0.len() && t0[w] == p.1;
                            assert(t1[w] == p.1);
                        } else {
                            assert(t1[j as int] == p.1);
                        }
                    }
                    if p.0 == f.owner_type@ && t1.contains(p.1) {
                        let q = choose|q: int| 0 <= q < t1.len() && t1[q] == p.1;
                        if q < j {
                            assert(t0[q] == p.1);
                            assert(t0.contains(p.1));
                            assert(before.contains(p));
                            let w = choose|w: int| 0 <= w < before.len() && before[w] == p;
                            assert(pairs_view(callees@)[w] == p);
                        } else {
                            assert(pairs_view(callees@)[before.len() as int] == p);
                        }
                    }
                }
            }
            j = j + 1;
        }
        assert(names_view(f.calls@).take(f.calls@.len() as int) =~= names_view(f.calls@));
        d.push((copy_str(f.owner_type.as_str()), copy_str(f.method.as_str()), copy_path(&f.writes)));
        c.push((copy_str(f.owner_type.as_str()), copy_str(f.method.as_str()), callees));
        i = i + 1;
    }
    proof {
        assert forall|q: int| 0 <= q < d@.len() implies entry_key(#[trigger] d@[q]) == (owner_of(ds[q]), ds[q].name@) by {
            assert(facts_of(acc, facts@[q], ds[q]));
        }
        assert forall|q: int| 0 <= q < c@.len() implies entry_key(#[trigger] c@[q]) == (owner_of(ds[q]), ds[q].name@) by {
            assert(facts_of(acc, facts@[q], ds[q]));
        }
        let g = own_fields_graph(acc, ds);
        assert forall|k: (Seq<char>, Seq<char>)| #![trigger direct_view(d@).dom().contains(k)]
            direct_view(d@).dom().contains(k) == g.dom().contains(k) by {
            lemma_last_decl(d@, ds, k, d@.len() as int);
        }
        assert forall|k: (Seq<char>, Seq<char>)| direct_view(d@).dom().contains(k) implies direct_view(d@)[k] == g[k] by {
            lemma_last_decl(d@, ds, k, d@.len() as int);
            let q = last_with(d@, k, d@.len() as int);
            assert(facts_of(acc, facts@[q], ds[q]));
            assert(entry_key(d@[q]) == (facts@[q].owner_type@, facts@[q].method@));
            assert forall|x: Seq<char>| #[trigger] names_view(d@[q].2@).to_set().contains(x) <==> g[k].contains(x) by {
                assert(has_name(facts@[q].writes@, x) <==> body_direct(acc, ds[q].body, x));
            }
            assert(names_view(d@[q].2@).to_set() =~= g[k]);
        }
        assert(direct_view(d@) =~= g);
        let h = callee_graph(acc, ds);
        assert forall|k: (Seq<char>, Seq<char>)| #![trigger callee_view(c@).dom().contains(k)]
            callee_view(c@).dom().contains(k) == h.dom().contains(k) by {
            lemma_last_decl(c@, ds, k, c@.len() as int);
        }
        assert forall|k: (Seq<char>, Seq<char>)| callee_view(c@).dom().contains(k) implies callee_view(c@)[k] == h[k] by {
            lemma_last_decl(c@, ds, k, c@.len() as int);
            let q = last_with(c@, k, c@.len() as int);
            assert(facts_of(acc, facts@[q], ds[q]));
            assert(entry_key(c@[q]) == (facts@[q].owner_type@, facts@[q].method@));
            assert forall|p: (Seq<char>, Seq<char>)| #[trigger] pairs_view(c@[q].2@).to_set().contains(p) <==> h[k].contains(p) by {
                assert(pairs_view(c@[q].2@).contains(p) <==> p.0 == facts@[q].owner_type@ && names_view(facts@[q].calls@).contains(p.1));
                assert(has_name(facts@[q].calls@, p.1) <==> body_calls(acc, ds[q].body, p.1));
            }
            assert(pairs_view(c@[q].2@).to_set() =~= h[k]);
        }
        assert(callee_view(c@) =~= h);
    }
    (d, c)
}

/// The entries of `ws` as `(owner type, method, fields)`.
fn sets_entries(ws: &WriteSets) -> (r: Vec<(String, String, Vec<String>)>)
    ensures
        direct_view(r@) == sets_map(*ws),
{
    let es = &ws.entries;
    let mut r: Vec<(String, String, Vec<String>)> = Vec::new();
    let mut i: usize = 0;
    while i < es.len()
        invariant
            i <= es@.len(),
            r@.len() == i,
            forall|q: int| 0 <= q < i ==> entry_key(#[trigger] r@[q]) == (es@[q].owner_type@, es@[q].method@)
                && names_view(r@[q].2@) == names_view(es@[q].fields@),
        decreases es@.len() - i,
    {
        r.push((copy_str(es[i].owner_type.as_str()), copy_str(es[i].method.as_str()), copy_path(&es[i].fields)));
        i = i + 1;
    }
    proof { lemma_entries_map(*ws, r@); }
    r
}

/// Field sets with the entries `r`.
fn sets_from_entries(r: &Vec<(String, String, Vec<String>)>) -> (ws: WriteSets)
    ensures
        sets_map(ws) == direct_view(r@),
{
    let mut es: Vec<MethodFields> = Vec::new();
    let mut i: usize = 0;
    while i < r.len()
        invariant
            i <= r@.len(),
            es@.len() == i,
            forall|q: int| 0 <= q < i ==> entry_key(#[trigger] r@[q]) == (es@[q].owner_type@, es@[q].method@)
                && names_view(r@[q].2@) == names_view(es@[q].fields@),
        decreases r@.len() - i,
    {
        es.push(MethodFields { owner_type: copy_str(r[i].0.as_str()), method: copy_str(r[i].1.as_str()), fields: copy_path(&r[i].2) });
        i = i + 1;
    }
    let ws = WriteSets { entries: es };
    proof { lemma_entries_map(ws, r@); }
    ws
}

proof fn lemma_entries_map(ws: WriteSets, r: Seq<(String, String, Vec<String>)>)
    requires
        ws.entries@.len() == r.len(),
        forall|q: int| 0 <= q < r.len() ==> entry_key(#[trigger] r[q]) == (ws.entries@[q].owner_type@, ws.entries@[q].method@)
            && names_view(r[q].2@) == names_view(ws.entries@[q].fields@),
    ensures
        direct_view(r) == sets_map(ws),
{
    let es = ws.entries@;
    assert forall|k: (Seq<char>, Seq<char>)| #![trigger direct_view(r).dom().contains(k)]
        direct_view(r).dom().contains(k) == sets_map(ws).dom().contains(k) by {
        lemma_last_lookup(es, r, k, r.len() as int);
    }
    assert forall|k: (Seq<char>, Seq<char>)| direct_view(r).dom().contains(k) implies direct_view(r)[k] == sets_map(ws)[k] by {
        lemma_last_lookup(es, r, k, r.len() as int);
    }
    assert(direct_view(r) =~= sets_map(ws));
}

/// A setting that turns the closure cache on: `1`, `on`, `true`, `True`
/// or `TRUE`.
pub open spec fn says_cache_on(v: Seq<char>) -> bool {
    v == "1"@ || v == "on"@ || v == "true"@ || v == "True"@ || v == "TRUE"@
}

/// Whether the closure cache is in use, from the setting that turns it on
/// (none: off).
pub fn scc_cache_enabled(value: Option<&str>) -> (r: bool)
    ensures
        r == match value {
            Some(v) => says_cache_on(v@),
            None => false,
        },
{
    match value {
        Some(v) => str_eq(v, "1") || str_eq(v, "on") || str_eq(v, "true") || str_eq(v, "True") || str_eq(v, "TRUE"),
        None => false,
    }
}

/// The closure of `module` for `acc` through the one-slot `cache`, when
/// `enabled`: a module whose graph has the cached fingerprint gets the
/// cached closure (a hit); any other gets its closure computed, which then
/// takes the slot (a miss). When not `enabled` the closure is computed and
/// the cache is left alone.
pub fn module_sets_cached(acc: FieldAccess, module: &Module, cache: &mut ScCache, enabled: bool) -> (ws: WriteSets)
    ensures
        !enabled ==> sets_describe(acc, ws, module_methods(*module)) && *final(cache) == *old(cache),
        enabled ==> final(cache).slot() == Some((graph_fingerprint(acc, module_methods(*module)), sets_map(ws))),
        enabled ==> match slot_lookup(old(cache).slot(), graph_fingerprint(acc, module_methods(*module))) {
            Some(m) => sets_map(ws) == m
                && final(cache).slot() == old(cache).slot()
                && final(cache).hit_count() == bump(old(cache).hit_count())
                && final(cache).miss_count() == old(cache).miss_count(),
            None => sets_describe(acc, ws, module_methods(*module))
                && final(cache).slot() == Some((graph_fingerprint(acc, module_methods(*module)), sets_map(ws)))
                && final(cache).hit_count() == old(cache).hit_count()
                && final(cache).miss_count() == bump(old(cache).miss_count()),
        },
{
    let ghost ds = module_methods(*module);
    let facts = module_facts(acc, module);
    if !enabled {
        return write_sets_of(acc, &facts, Ghost(ds));
    }
    let (direct, callees) = graph_entries(acc, &facts, Ghost(ds));
    let fingerprint = compute_scc_fingerprint(&direct, &callees);
    match cache.lookup(fingerprint) {
        Some(entries) => sets_from_entries(&entries),
        None => {
            let ws = write_sets_of(acc, &facts, Ghost(ds));
            let entries = sets_entries(&ws);
            cache.store(fingerprint, &entries);
            ws
        },
    }
}

/// `module_sets_cached` for the fields the methods write.
pub fn module_write_sets_cached(module: &Module, cache: &mut ScCache, enabled: bool) -> (ws: WriteSets)
    ensures
        !enabled ==> sets_describe(FieldAccess::Write, ws, module_methods(*module)) && *final(cache) == *old(cache),
        enabled ==> final(cache).slot() == Some((graph_fingerprint(FieldAccess::Write, module_methods(*module)), sets_map(ws))),
        enabled ==> match slot_lookup(old(cache).slot(), graph_fingerprint(FieldAccess::Write, module_methods(*module))) {
            Some(m) => sets_map(ws) == m
                && final(cache).slot() == old(cache).slot()
                && final(cache).hit_count() == bump(old(cache).hit_count())
                && final(cache).miss_count() == old(cache).miss_count(),
            None => sets_describe(FieldAccess::Write, ws, module_methods(*module))
                && final(cache).slot() == Some((graph_fingerprint(FieldAccess::Write, module_methods(*module)), sets_map(ws)))
                && final(cache).hit_count() == old(cache).hit_count()
                && final(cache).miss_count() == bump(old(cache).miss_count()),
        },
{
    module_sets_cached(FieldAccess::Write, module, cache, enabled)
}

/// `module_sets_cached` for the fields the methods read.
pub fn module_read_sets_cached(module: &Module, cache: &mut ScCache, enabled: bool) -> (rs: WriteSets)
    ensures
        !enabled ==> sets_describe(FieldAccess::Read, rs, module_methods(*module)) && *final(cache) == *old(cache),
        enabled ==> final(cache).slot() == Some((graph_fingerprint(FieldAccess::Read, module_methods(*module)), sets_map(rs))),
        enabled ==> match slot_lookup(old(cache).slot(), graph_fingerprint(FieldAccess::Read, module_methods(*module))) {
            Some(m) => sets_map(rs) == m
                && final(cache).slot() == old(cache).slot()
                && final(cache).hit_count() == bump(old(cache).hit_count())
                && final(cache).miss_count() == old(cache).miss_count(),
            None => sets_describe(FieldAccess::Read, rs, module_methods(*module))
                && final(cache).slot() == Some((graph_fingerprint(FieldAccess::Read, module_methods(*module)), sets_map(rs)))
                && final(cache).hit_count() == old(cache).hit_count()
                && final(cache).miss_count() == bump(old(cache).miss_count()),
        },
{
    module_sets_cached(FieldAccess::Read, module, cache, enabled)
}

} // verus!
