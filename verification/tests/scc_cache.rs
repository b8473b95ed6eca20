// Fingerprints of the method graph and the one-slot closure cache.

use compiler_codegen::field_cache::scc_cache::{
    canonical_graph_text, compute_scc_fingerprint, fingerprint_from_hash, reset_scc_caches, scc_cache_stats, ScCache,
    SccCaches,
};
use compiler_codegen::field_cache::propagate::{propagate_closure, propagate_closure_cached};

type Direct = Vec<(String, String, Vec<String>)>;
type Callees = Vec<(String, String, Vec<(String, String)>)>;

fn s(x: &str) -> String {
    x.to_string()
}

fn sample_graph() -> (Direct, Callees) {
    let direct = vec![(s("T"), s("a"), vec![s("x")]), (s("T"), s("b"), vec![s("y")])];
    let callees = vec![(s("T"), s("a"), vec![(s("T"), s("b"))])];
    (direct, callees)
}

fn set_fields(d: &mut Direct, t: &str, m: &str, x: &str) {
    match d.iter_mut().find(|e| e.0 == t && e.1 == m) {
        Some(e) => {
            if !e.2.iter().any(|f| f == x) {
                e.2.push(s(x));
            }
        }
        None => d.push((s(t), s(m), vec![s(x)])),
    }
}

fn add_callee(c: &mut Callees, t: &str, m: &str, ct: &str, cm: &str) {
    match c.iter_mut().find(|e| e.0 == t && e.1 == m) {
        Some(e) => {
            if !e.2.iter().any(|p| p.0 == ct && p.1 == cm) {
                e.2.push((s(ct), s(cm)));
            }
        }
        None => c.push((s(t), s(m), vec![(s(ct), s(cm))])),
    }
}

#[test]
fn v74_fingerprint_stable_across_hashmap_order() {
    let (d, c) = sample_graph();
    let fp1 = compute_scc_fingerprint(&d, &c);
    let d2 = d.clone();
    let c2 = c.clone();
    let fp2 = compute_scc_fingerprint(&d2, &c2);
    assert_eq!(fp1, fp2, "fingerprint must be deterministic on equivalent inputs");
}

#[test]
fn v74_empty_graph_fingerprint_nonzero() {
    let direct: Direct = Vec::new();
    let callees: Callees = Vec::new();
    let fp = compute_scc_fingerprint(&direct, &callees);
    assert_ne!(fp, 0, "fingerprint reserves 0 as 'no entry'; the empty graph must hash to a non-zero value");
}

#[test]
fn v74_distinct_graphs_distinct_fingerprints() {
    let (d1, c1) = sample_graph();
    let fp1 = compute_scc_fingerprint(&d1, &c1);
    let (mut d2, c2) = sample_graph();
    set_fields(&mut d2, "T", "a", "z");
    let fp2 = compute_scc_fingerprint(&d2, &c2);
    assert_ne!(fp1, fp2);
    let (d3, mut c3) = sample_graph();
    add_callee(&mut c3, "T", "b", "T", "a");
    let fp3 = compute_scc_fingerprint(&d3, &c3);
    assert_ne!(fp1, fp3);
}

#[test]
fn fingerprint_ignores_entry_and_member_order() {
    let d1 = vec![(s("T"), s("a"), vec![s("x"), s("w")]), (s("T"), s("b"), vec![s("y")])];
    let d2 = vec![(s("T"), s("b"), vec![s("y")]), (s("T"), s("a"), vec![s("w"), s("x"), s("w")])];
    let c1 = vec![(s("T"), s("a"), vec![(s("T"), s("b")), (s("S"), s("c"))])];
    let c2 = vec![(s("T"), s("a"), vec![(s("S"), s("c")), (s("T"), s("b"))])];
    assert_eq!(canonical_graph_text(&d1, &c1), canonical_graph_text(&d2, &c2));
    assert_eq!(compute_scc_fingerprint(&d1, &c1), compute_scc_fingerprint(&d2, &c2));
}

#[test]
fn canonical_text_lists_methods_and_members_in_order() {
    let (d, c) = sample_graph();
    assert_eq!(canonical_graph_text(&d, &c), "2;1:T1:a1;1:x1:T1:b1;1:y1;1:T1:a1;1:T1:b");
    let empty_d: Direct = Vec::new();
    let empty_c: Callees = Vec::new();
    assert_eq!(canonical_graph_text(&empty_d, &empty_c), "0;0;");
}

#[test]
fn later_entry_for_a_method_replaces_earlier() {
    let d1 = vec![(s("T"), s("a"), vec![s("x")]), (s("T"), s("a"), vec![s("y")])];
    let d2 = vec![(s("T"), s("a"), vec![s("y")])];
    let c: Callees = Vec::new();
    assert_eq!(canonical_graph_text(&d1, &c), canonical_graph_text(&d2, &c));
}

#[test]
fn fingerprint_from_hash_moves_zero_only() {
    assert_eq!(fingerprint_from_hash(0), 1);
    assert_eq!(fingerprint_from_hash(1), 1);
    assert_eq!(fingerprint_from_hash(42), 42);
    assert_eq!(fingerprint_from_hash(u64::MAX), u64::MAX);
}

#[test]
fn cache_lookup_after_store_hits() {
    let mut cache = ScCache::new();
    let (d, c) = sample_graph();
    let fp = compute_scc_fingerprint(&d, &c);
    assert!(cache.lookup(fp).is_none());
    assert_eq!((cache.hits, cache.misses), (0, 0));
    cache.store(fp, &d);
    assert_eq!((cache.hits, cache.misses), (0, 1));
    let got = cache.lookup(fp).expect("stored fingerprint must hit");
    assert_eq!(got, d);
    assert_eq!((cache.hits, cache.misses), (1, 1));
    assert!(cache.lookup(fp.wrapping_add(1)).is_none());
    assert_eq!((cache.hits, cache.misses), (1, 1));
}

#[test]
fn cache_reset_clears_slot_and_counters() {
    let mut caches = SccCaches::new();
    let (d, c) = sample_graph();
    let fp = compute_scc_fingerprint(&d, &c);
    caches.write.store(fp, &d);
    assert!(caches.write.lookup(fp).is_some());
    assert!(caches.read.lookup(fp).is_none());
    assert_eq!(scc_cache_stats(&caches), (1, 1, 0, 0));
    reset_scc_caches(&mut caches);
    assert_eq!(scc_cache_stats(&caches), (0, 0, 0, 0));
    assert!(caches.write.lookup(fp).is_none());
}

fn closure_of(r: &Direct, t: &str, m: &str) -> Option<Vec<String>> {
    r.iter().find(|e| e.0 == t && e.1 == m).map(|e| {
        let mut v = e.2.clone();
        v.sort();
        v
    })
}

#[test]
fn closure_follows_call_chains() {
    // a -> b -> c, with own fields x, y, z; d only called, no fields.
    let direct = vec![(s("T"), s("a"), vec![s("x")]), (s("T"), s("b"), vec![s("y")]), (s("T"), s("c"), vec![s("z")])];
    let callees = vec![
        (s("T"), s("a"), vec![(s("T"), s("b"))]),
        (s("T"), s("b"), vec![(s("T"), s("c")), (s("T"), s("d"))]),
    ];
    let r = propagate_closure(&direct, &callees);
    assert_eq!(r.len(), 4);
    assert_eq!(closure_of(&r, "T", "a"), Some(vec![s("x"), s("y"), s("z")]));
    assert_eq!(closure_of(&r, "T", "b"), Some(vec![s("y"), s("z")]));
    assert_eq!(closure_of(&r, "T", "c"), Some(vec![s("z")]));
    assert_eq!(closure_of(&r, "T", "d"), Some(vec![]));
}

#[test]
fn closure_shares_fields_around_a_cycle() {
    // a <-> b, b -> c
    let direct = vec![(s("T"), s("a"), vec![s("x")]), (s("T"), s("b"), vec![s("y")]), (s("T"), s("c"), vec![s("z")])];
    let callees = vec![
        (s("T"), s("a"), vec![(s("T"), s("b"))]),
        (s("T"), s("b"), vec![(s("T"), s("a")), (s("T"), s("c"))]),
    ];
    let r = propagate_closure(&direct, &callees);
    assert_eq!(closure_of(&r, "T", "a"), Some(vec![s("x"), s("y"), s("z")]));
    assert_eq!(closure_of(&r, "T", "b"), Some(vec![s("x"), s("y"), s("z")]));
    assert_eq!(closure_of(&r, "T", "c"), Some(vec![s("z")]));
}

#[test]
fn closure_cache_off_computes_and_leaves_cache() {
    let (mut d, c) = sample_graph();
    let mut cache = ScCache::new();
    propagate_closure_cached(&mut d, &c, &mut cache, false);
    assert_eq!((cache.hits, cache.misses), (0, 0));
    assert_eq!(closure_of(&d, "T", "a"), Some(vec![s("x"), s("y")]));
    assert_eq!(closure_of(&d, "T", "b"), Some(vec![s("y")]));
}

#[test]
fn closure_cache_miss_then_hit() {
    let (d0, c) = sample_graph();
    let mut cache = ScCache::new();
    let mut d1 = d0.clone();
    propagate_closure_cached(&mut d1, &c, &mut cache, true);
    assert_eq!((cache.hits, cache.misses), (0, 1));
    let mut d2 = d0.clone();
    propagate_closure_cached(&mut d2, &c, &mut cache, true);
    assert_eq!((cache.hits, cache.misses), (1, 1));
    assert_eq!(closure_of(&d2, "T", "a"), closure_of(&d1, "T", "a"));
    assert_eq!(closure_of(&d2, "T", "a"), Some(vec![s("x"), s("y")]));
}
