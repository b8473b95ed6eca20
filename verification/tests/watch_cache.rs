// Watch-mode parse cache: the decisions of `refresh` and the bookkeeping of
// `record_parse`, with modification times given as plain numbers.

use std::sync::Arc;
use compiler_codegen::ast::Module;
use compiler_codegen::doc::watch_cache::{CacheOutcome, Probe, Refresh, WatchCache};

fn module(name: &str) -> Arc<Module> {
    Arc::new(Module { name: vec![name.to_string()], items: Vec::new(), peer_files: Vec::new() })
}

#[test]
fn refresh_unknown_file_asks_for_first_parse() {
    let mut cache = WatchCache::new();
    let r = cache.refresh("a.nv", Probe::Modified(10));
    assert!(matches!(r, Refresh::Parse { was_present: false }));
    assert!(cache.is_empty());
    let outcome = cache.record_parse("a.nv", 10, module("a"), false);
    assert_eq!(outcome, CacheOutcome::Miss);
    assert_eq!(cache.len(), 1);
}

#[test]
fn refresh_unchanged_file_reuses_same_module() {
    let mut cache = WatchCache::new();
    let m = module("a");
    cache.record_parse("a.nv", 10, Arc::clone(&m), false);
    match cache.refresh("a.nv", Probe::Modified(10)) {
        Refresh::Reuse(got) => assert!(Arc::ptr_eq(&got, &m)),
        other => panic!("expected reuse, got {:?}", other),
    }
    assert_eq!(cache.len(), 1);
}

#[test]
fn refresh_changed_file_asks_for_reparse_and_records_stale() {
    let mut cache = WatchCache::new();
    cache.record_parse("a.nv", 10, module("a"), false);
    let r = cache.refresh("a.nv", Probe::Modified(11));
    assert!(matches!(r, Refresh::Parse { was_present: true }));
    let outcome = cache.record_parse("a.nv", 11, module("a2"), true);
    assert_eq!(outcome, CacheOutcome::Stale);
    assert_eq!(cache.len(), 1);
    assert_eq!(cache.lookup("a.nv", 11), CacheOutcome::Hit);
    assert_eq!(cache.lookup("a.nv", 10), CacheOutcome::Stale);
}

#[test]
fn refresh_missing_file_evicts_its_entry() {
    let mut cache = WatchCache::new();
    cache.record_parse("a.nv", 10, module("a"), false);
    cache.record_parse("b.nv", 20, module("b"), false);
    assert_eq!(cache.len(), 2);
    assert!(matches!(cache.refresh("a.nv", Probe::Missing), Refresh::Evicted));
    assert_eq!(cache.len(), 1);
    assert_eq!(cache.lookup("a.nv", 10), CacheOutcome::Miss);
    assert_eq!(cache.lookup("b.nv", 20), CacheOutcome::Hit);
}

#[test]
fn refresh_missing_unknown_file_leaves_cache() {
    let mut cache = WatchCache::new();
    cache.record_parse("b.nv", 20, module("b"), false);
    assert!(matches!(cache.refresh("nope.nv", Probe::Missing), Refresh::Evicted));
    assert_eq!(cache.len(), 1);
}

#[test]
fn clear_and_evict_forget_files() {
    let mut cache = WatchCache::new();
    cache.record_parse("a.nv", 1, module("a"), false);
    cache.record_parse("b.nv", 2, module("b"), false);
    assert!(cache.evict("a.nv"));
    assert!(!cache.evict("a.nv"));
    assert_eq!(cache.len(), 1);
    cache.clear();
    assert!(cache.is_empty());
}
