//! The caching pass over a whole module.

use vstd::prelude::*;
use crate::ast::{Item, Module, PeerFile};
use crate::field_cache::ipa::{MethodFields, WriteSets};
use crate::field_cache::pure::{build_pure_methods_registry, cache_pure_calls, pure_cached, pure_methods_in};
use crate::field_cache::scc_cache::pairs_view;
use crate::ast::FnDecl;
use crate::field_cache::chain::{cache_chains, chain_cached};
use crate::field_cache::licm::{hoist_method, licm_done};
use crate::field_cache::method::{cache_method, method_cached};
use crate::field_cache::plan::{build_registry, module_types, registry_of, FieldCacheConfig, FieldRegistry};
use crate::field_cache::writeset::{module_methods, module_read_sets, module_write_sets, sets_describe, write_sets_describe, FieldAccess};

verus! {

/// `b` is function `a` after chain caching, when the pass does it.
pub open spec fn chains_done(a: FnDecl, b: FnDecl, reg: FieldRegistry, cfg: FieldCacheConfig, ws: WriteSets) -> bool {
    if cfg.chain_enabled {
        chain_cached(a, b, reg, cfg, ws)
    } else {
        b == a
    }
}

/// `b` is function `a` after hoisting out of loops, when the pass does it.
pub open spec fn hoists_done(a: FnDecl, b: FnDecl, reg: FieldRegistry, cfg: FieldCacheConfig, ws: WriteSets) -> bool {
    if cfg.licm_enabled {
        licm_done(a, b, reg, cfg, ws)
    } else {
        b == a
    }
}

/// The read sets that pure-call caching uses: those of the module when the
/// pass uses write sets and there are any.
pub open spec fn pure_reads(cfg: FieldCacheConfig, ws: WriteSets, rs: WriteSets) -> Option<Seq<MethodFields>> {
    if cfg.ipa_enabled && ws.entries@.len() > 0 { Some(rs.entries@) } else { None }
}

/// `b` is function `a` after pure-call caching, when the pass does it.
pub open spec fn pures_done(a: FnDecl, b: FnDecl, reg: FieldRegistry, cfg: FieldCacheConfig, ws: WriteSets, pm: Set<(Seq<char>, Seq<char>)>, rs: WriteSets) -> bool {
    if cfg.pure_enabled {
        pure_cached(a, b, reg, cfg, pm, pure_reads(cfg, ws, rs))
    } else {
        b == a
    }
}

/// The context of the pass: the pure methods and the read sets.
pub struct PureCtx {
    pub pm: Set<(Seq<char>, Seq<char>)>,
    pub rs: WriteSets,
}

/// `g` is function `f` after the caching pass: reads hoisted out of loops,
/// then its member chains, then its pure calls, then its fields (see
/// `licm_done`, `chain_cached`, `pure_cached`, `method_cached`).
pub open spec fn fn_cached(f: FnDecl, g: FnDecl, reg: FieldRegistry, cfg: FieldCacheConfig, ws: WriteSets, pc: PureCtx) -> bool {
    exists|m1: FnDecl, m2: FnDecl, m3: FnDecl| #![trigger hoists_done(f, m1, reg, cfg, ws), chains_done(m1, m2, reg, cfg, ws), pures_done(m2, m3, reg, cfg, ws, pc.pm, pc.rs)]
        hoists_done(f, m1, reg, cfg, ws) && chains_done(m1, m2, reg, cfg, ws) && pures_done(m2, m3, reg, cfg, ws, pc.pm, pc.rs)
            && method_cached(m3, g, reg, cfg, ws)
}

/// Items `b` are items `a` with every function cached (see `fn_cached`).
pub open spec fn items_cached(a: Seq<Item>, b: Seq<Item>, reg: FieldRegistry, cfg: FieldCacheConfig, ws: WriteSets, pc: PureCtx) -> bool {
    &&& a.len() == b.len()
    &&& forall|i: int| 0 <= i < a.len() ==> match #[trigger] a[i] {
        Item::Fn(f) => b[i] matches Item::Fn(g) && fn_cached(f, g, reg, cfg, ws, pc),
        _ => b[i] == a[i],
    }
}

/// `new` is module `old` after the caching pass: unchanged when the pass is
/// off; otherwise every function of its items and peer files is cached
/// against the registry of the module's types and, when the pass uses
/// them, the module's write sets.
pub open spec fn module_cached(old: Module, new: Module, cfg: FieldCacheConfig) -> bool {
    if !cfg.enabled {
        new == old
    } else {
        exists|reg: FieldRegistry, ws: WriteSets, rs: WriteSets| #![trigger registry_of(reg, module_types(old)), items_cached(old.items@, new.items@, reg, cfg, ws, module_pure_ctx(old, cfg, rs))] {
            &&& registry_of(reg, module_types(old))
            &&& (if cfg.ipa_enabled { write_sets_describe(ws, module_methods(old)) } else { ws.entries@.len() == 0 })
            &&& (if cfg.ipa_enabled { sets_describe(FieldAccess::Read, rs, module_methods(old)) } else { rs.entries@.len() == 0 })
            &&& new.name == old.name
            &&& items_cached(old.items@, new.items@, reg, cfg, ws, module_pure_ctx(old, cfg, rs))
            &&& new.peer_files@.len() == old.peer_files@.len()
            &&& forall|j: int| 0 <= j < old.peer_files@.len() ==> {
                let (p, q) = (old.peer_files@[j], #[trigger] new.peer_files@[j]);
                &&& q.path == p.path
                &&& q.file_id == p.file_id
                &&& q.is_entry_module == p.is_entry_module
                &&& items_cached(p.items_here@, q.items_here@, reg, cfg, ws, module_pure_ctx(old, cfg, rs))
            }
        }
    }
}

/// The pure methods of module `m` (none when pure-call caching is off) with
/// the read sets `rs`.
pub open spec fn module_pure_ctx(m: Module, cfg: FieldCacheConfig, rs: WriteSets) -> PureCtx {
    PureCtx { pm: if cfg.pure_enabled { pure_methods_in(module_methods(m)) } else { Set::empty() }, rs }
}

/// Caches every function among `items`.
fn cache_items(items: &mut Vec<Item>, reg: &FieldRegistry, cfg: &FieldCacheConfig, ws: &WriteSets, pm: &Vec<(String, String)>, rs: &WriteSets)
    ensures
        items_cached(old(items)@, final(items)@, *reg, *cfg, *ws, PureCtx { pm: pairs_view(pm@).to_set(), rs: *rs }),
{
    let ghost pc = PureCtx { pm: pairs_view(pm@).to_set(), rs: *rs };
    let mut rest: Vec<Item> = Vec::new();
    std::mem::swap(items, &mut rest);
    let ghost orig = rest@;
    let n = rest.len();
    let mut i: usize = 0;
    while i < n
        invariant
            n == orig.len(),
            i <= n,
            rest@ == orig.subrange(i as int, n as int),
            items@.len() == i,
            forall|j: int| 0 <= j < i ==> match #[trigger] orig[j] {
                Item::Fn(f) => items@[j] matches Item::Fn(g) && fn_cached(f, g, *reg, *cfg, *ws, pc),
                _ => items@[j] == orig[j],
            },
            pc == (PureCtx { pm: pairs_view(pm@).to_set(), rs: *rs }),
        decreases n - i,
    {
        let mut it = rest.remove(0);
        assert(it == orig[i as int]);
        match &mut it {
            Item::Fn(f) => {
                let ghost f0 = *f;
                if cfg.licm_enabled {
                    hoist_method(f, reg, cfg, ws);
                }
                let ghost f1 = *f;
                if cfg.chain_enabled {
                    cache_chains(f, reg, cfg, ws);
                }
                let ghost f2 = *f;
                if cfg.pure_enabled {
                    let ipa = if cfg.ipa_enabled && ws.entries.len() > 0 { Some(rs) } else { None };
                    cache_pure_calls(f, reg, cfg, pm, ipa);
                }
                let ghost f3 = *f;
                cache_method(f, reg, cfg, ws);
                assert(hoists_done(f0, f1, *reg, *cfg, *ws));
                assert(chains_done(f1, f2, *reg, *cfg, *ws));
                assert(pures_done(f2, f3, *reg, *cfg, *ws, pc.pm, pc.rs));
            },
            _ => {},
        }
        let ghost before = items@;
        items.push(it);
        proof {
            assert(rest@ =~= orig.subrange(i as int + 1, n as int));
            assert forall|j: int| 0 <= j < i + 1 implies match #[trigger] orig[j] {
                Item::Fn(f) => items@[j] matches Item::Fn(g) && fn_cached(f, g, *reg, *cfg, *ws, pc),
                _ => items@[j] == orig[j],
            } by {
                if j < i {
                    assert(items@[j] == before[j]);
                }
            }
        }
        i = i + 1;
    }
}

/// The caching pass over a module (see `module_cached`): each method reads
/// a receiver field read often enough in a loop into a local before the
/// loop, a member chain `@a.b…` and a receiver field read often enough
/// into a local once, where no write or call can change it in between.
pub fn cache_module(module: &mut Module, cfg: &FieldCacheConfig)
    ensures
        module_cached(*old(module), *final(module), *cfg),
{
    if !cfg.enabled {
        return;
    }
    let ghost m0 = *module;
    let reg = build_registry(module);
    let ws = if cfg.ipa_enabled {
        module_write_sets(module)
    } else {
        WriteSets { entries: Vec::new() }
    };
    let rs = if cfg.ipa_enabled {
        module_read_sets(module)
    } else {
        WriteSets { entries: Vec::new() }
    };
    let pm: Vec<(String, String)> = if cfg.pure_enabled {
        build_pure_methods_registry(module)
    } else {
        Vec::new()
    };
    let ghost pc = module_pure_ctx(m0, *cfg, rs);
    proof {
        if !cfg.pure_enabled {
            assert(pairs_view(pm@).to_set() =~= Set::<(Seq<char>, Seq<char>)>::empty());
        }
        assert(pc == (PureCtx { pm: pairs_view(pm@).to_set(), rs }));
    }
    cache_items(&mut module.items, &reg, cfg, &ws, &pm, &rs);
    let ghost items1 = module.items@;
    let mut rest: Vec<PeerFile> = Vec::new();
    std::mem::swap(&mut module.peer_files, &mut rest);
    let ghost orig = rest@;
    let n = rest.len();
    let mut j: usize = 0;
    while j < n
        invariant
            n == orig.len(),
            orig == m0.peer_files@,
            registry_of(reg, module_types(m0)),
            if cfg.ipa_enabled { write_sets_describe(ws, module_methods(m0)) } else { ws.entries@.len() == 0 },
            if cfg.ipa_enabled { sets_describe(FieldAccess::Read, rs, module_methods(m0)) } else { rs.entries@.len() == 0 },
            pc == module_pure_ctx(m0, *cfg, rs),
            pc == (PureCtx { pm: pairs_view(pm@).to_set(), rs }),
            items_cached(m0.items@, items1, reg, *cfg, ws, pc),
            module.items@ == items1,
            module.name == m0.name,
            j <= n,
            rest@ == orig.subrange(j as int, n as int),
            module.peer_files@.len() == j,
            forall|k: int| 0 <= k < j ==> {
                let (p, q) = (orig[k], #[trigger] module.peer_files@[k]);
                &&& q.path == p.path
                &&& q.file_id == p.file_id
                &&& q.is_entry_module == p.is_entry_module
                &&& items_cached(p.items_here@, q.items_here@, reg, *cfg, ws, pc)
            },
        decreases n - j,
    {
        let mut pf = rest.remove(0);
        assert(pf == orig[j as int]);
        cache_items(&mut pf.items_here, &reg, cfg, &ws, &pm, &rs);
        let ghost before = module.peer_files@;
        module.peer_files.push(pf);
        proof {
            assert(rest@ =~= orig.subrange(j as int + 1, n as int));
            assert forall|k: int| 0 <= k < j + 1 implies {
                let (p, q) = (orig[k], #[trigger] module.peer_files@[k]);
                &&& q.path == p.path
                &&& q.file_id == p.file_id
                &&& q.is_entry_module == p.is_entry_module
                &&& items_cached(p.items_here@, q.items_here@, reg, *cfg, ws, pc)
            } by {
                if k < j {
                    assert(module.peer_files@[k] == before[k]);
                }
            }
        }
        j = j + 1;
    }
    assert(registry_of(reg, module_types(m0)));
    assert(items_cached(m0.items@, module.items@, reg, *cfg, ws, pc));
    assert(module.name == m0.name);
}

} // verus!
