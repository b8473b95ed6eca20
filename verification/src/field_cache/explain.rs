//! What the caching pass does to each method, read back from the cached
//! module: the cache locals it inserted, grouped by kind.
//!
//! A cache local is a top-level `let _at_...` of a method body. Its name
//! says its kind: `_at_<a>_<b>_chain` caches the chain `@a.b`,
//! `_at_<f>_loop` a read hoisted out of a loop, `_at_<m>_call` the result
//! of a pure call; any other `_at_` local bound to `@f` caches the field
//! `f`.

use vstd::prelude::*;
use crate::ast::{Block, FnBody, FnDecl, Item, Module, Pattern, PeerFile, Span, Stmt};
use crate::field_cache::ipa::names_view;
use crate::field_cache::pass::{cache_module, module_cached};
use crate::field_cache::plan::{build_registry, entry_kind, find_type, kind_of, module_types, registry_of, registry_type, FieldCacheConfig, FieldEntry, FieldKind, FieldRegistry};
use crate::field_cache::reads::{self_field, self_field_of};
use crate::text::{copy_str, ends_with_str, has_prefix, has_suffix, split_char, split_on, starts_with_str, substring};

verus! {

/// The caches of one method.
#[derive(Debug)]
pub struct FnCacheInfo {
    /// The receiver type of the method.
    pub receiver_type: String,
    pub fn_name: String,
    pub span: Span,
    /// Read-only fields cached in a local.
    pub ro_caches: Vec<String>,
    /// Mutable fields cached in a local (region by region).
    pub mut_caches: Vec<String>,
    /// Fields whose reads were hoisted out of a loop.
    pub licm_hoists: Vec<String>,
    /// Pure methods whose results were cached.
    pub pure_caches: Vec<String>,
    /// Cached field chains, as their path components.
    pub chain_caches: Vec<Vec<String>>,
}

/// The caches of every method that got at least one.
#[derive(Debug)]
pub struct ExplainReport {
    pub per_fn: Vec<FnCacheInfo>,
}

/// The number of caches recorded in `i`.
pub open spec fn info_total(i: FnCacheInfo) -> nat {
    i.ro_caches@.len() + i.mut_caches@.len() + i.licm_hoists@.len() + i.pure_caches@.len() + i.chain_caches@.len()
}

impl FnCacheInfo {
    /// The number of caches of the method.
    pub fn total(&self) -> (n: usize)
        requires
            info_total(*self) <= usize::MAX,
        ensures
            n == info_total(*self),
    {
        self.ro_caches.len() + self.mut_caches.len() + self.licm_hoists.len() + self.pure_caches.len() + self.chain_caches.len()
    }
}

/// The name and value of a top-level cache local (`let _at_...`).
pub open spec fn at_let(s: Stmt) -> Option<(Seq<char>, crate::ast::Expr)> {
    match s {
        Stmt::Let(d) => match d.pattern {
            Pattern::Ident { name, .. } => if has_prefix(name@, "_at_"@) { Some((name@, d.value)) } else { None },
            _ => None,
        },
        _ => None,
    }
}

/// The kind of a cache local by its name: 0 a chain, 1 a hoisted read,
/// 2 a pure call, 3 a field. A suffix counts only when it does not overlap
/// the `_at_` prefix.
pub open spec fn cache_kind(n: Seq<char>) -> int {
    if n.len() >= 10 && has_suffix(n, "_chain"@) {
        0
    } else if n.len() >= 9 && has_suffix(n, "_loop"@) {
        1
    } else if n.len() >= 9 && has_suffix(n, "_call"@) {
        2
    } else {
        3
    }
}

/// Fields cached by the statements, in order.
pub open spec fn ro_of(ss: Seq<Stmt>) -> Seq<Seq<char>>
    decreases ss.len(),
{
    if ss.len() == 0 {
        Seq::empty()
    } else {
        let prev = ro_of(ss.drop_last());
        match at_let(ss.last()) {
            Some((n, v)) => if cache_kind(n) == 3 {
                match self_field_of(v) {
                    Some(f) => prev.push(f),
                    None => prev,
                }
            } else {
                prev
            },
            None => prev,
        }
    }
}

/// Hoisted reads of the statements (the name between `_at_` and `_loop`).
pub open spec fn licm_of(ss: Seq<Stmt>) -> Seq<Seq<char>>
    decreases ss.len(),
{
    if ss.len() == 0 {
        Seq::empty()
    } else {
        let prev = licm_of(ss.drop_last());
        match at_let(ss.last()) {
            Some((n, v)) => if cache_kind(n) == 1 { prev.push(n.subrange(4, n.len() - 5)) } else { prev },
            None => prev,
        }
    }
}

/// Cached pure calls of the statements (the name between `_at_` and `_call`).
pub open spec fn pure_of(ss: Seq<Stmt>) -> Seq<Seq<char>>
    decreases ss.len(),
{
    if ss.len() == 0 {
        Seq::empty()
    } else {
        let prev = pure_of(ss.drop_last());
        match at_let(ss.last()) {
            Some((n, v)) => if cache_kind(n) == 2 { prev.push(n.subrange(4, n.len() - 5)) } else { prev },
            None => prev,
        }
    }
}

/// Cached chains of the statements (the name between `_at_` and `_chain`
/// split at `_`).
pub open spec fn chain_of(ss: Seq<Stmt>) -> Seq<Seq<Seq<char>>>
    decreases ss.len(),
{
    if ss.len() == 0 {
        Seq::empty()
    } else {
        let prev = chain_of(ss.drop_last());
        match at_let(ss.last()) {
            Some((n, v)) => if cache_kind(n) == 0 { prev.push(split_char(n.subrange(4, n.len() - 6), '_')) } else { prev },
            None => prev,
        }
    }
}

/// The field entries of type `t` in the registry (none when it has no entry).
pub open spec fn owner_fields(reg: FieldRegistry, t: Seq<char>) -> Seq<FieldEntry> {
    match registry_type(reg.types@, reg.types@.len() as int, t) {
        Some(tf) => tf.fields@,
        None => Seq::empty(),
    }
}

/// The field `f` is a mutable one among `es`.
pub open spec fn is_mut_field(es: Seq<FieldEntry>, f: Seq<char>) -> bool {
    entry_kind(es, es.len() as int, f) == Some(FieldKind::Mut)
}

/// The cached fields of the statements that are mutable (`mutable`) or
/// not, by the field entries `es` of the receiver type, in order.
pub open spec fn field_caches_of(ss: Seq<Stmt>, es: Seq<FieldEntry>, mutable: bool) -> Seq<Seq<char>>
    decreases ss.len(),
{
    if ss.len() == 0 {
        Seq::empty()
    } else {
        let prev = field_caches_of(ss.drop_last(), es, mutable);
        match at_let(ss.last()) {
            Some((n, v)) => if cache_kind(n) == 3 {
                match self_field_of(v) {
                    Some(f) => if is_mut_field(es, f) == mutable { prev.push(f) } else { prev },
                    None => prev,
                }
            } else {
                prev
            },
            None => prev,
        }
    }
}

/// The number of caches of a method body.
pub open spec fn caches_in(b: Block) -> nat {
    ro_of(b.stmts@).len() + licm_of(b.stmts@).len() + pure_of(b.stmts@).len() + chain_of(b.stmts@).len()
}

/// `f` is a method with a block body and at least one cache.
pub open spec fn is_explained(f: FnDecl) -> bool {
    &&& f.receiver is Some
    &&& f.body matches FnBody::Block(b) && caches_in(b) > 0
}

/// The explained methods among `items`, in order.
pub open spec fn explained_in(items: Seq<Item>) -> Seq<FnDecl>
    decreases items.len(),
{
    if items.len() == 0 {
        Seq::empty()
    } else {
        let prev = explained_in(items.drop_last());
        match items.last() {
            Item::Fn(f) => if is_explained(f) { prev.push(f) } else { prev },
            _ => prev,
        }
    }
}

/// The explained methods of the first `k` peer files.
pub open spec fn explained_in_peers(pfs: Seq<PeerFile>, k: int) -> Seq<FnDecl>
    decreases k,
{
    if k <= 0 || k > pfs.len() {
        Seq::empty()
    } else {
        explained_in_peers(pfs, k - 1) + explained_in(pfs[k - 1].items_here@)
    }
}

/// The explained methods of a module: its items, then each peer file's.
pub open spec fn explained_fns(m: Module) -> Seq<FnDecl> {
    explained_in(m.items@) + explained_in_peers(m.peer_files@, m.peer_files@.len() as int)
}

/// `i` records the caches of `f`, fields split by their kind in the
/// registry `reg`.
pub open spec fn info_of(i: FnCacheInfo, f: FnDecl, reg: FieldRegistry) -> bool {
    &&& f.receiver matches Some(r) && i.receiver_type@ == r.owner_type@
    &&& i.fn_name@ == f.name@
    &&& i.span == f.span
    &&& f.body matches FnBody::Block(b) && {
        &&& names_view(i.ro_caches@) == field_caches_of(b.stmts@, owner_fields(reg, i.receiver_type@), false)
        &&& names_view(i.mut_caches@) == field_caches_of(b.stmts@, owner_fields(reg, i.receiver_type@), true)
        &&& names_view(i.licm_hoists@) == licm_of(b.stmts@)
        &&& names_view(i.pure_caches@) == pure_of(b.stmts@)
        &&& i.chain_caches@.map_values(|p: Vec<String>| names_view(p@)) == chain_of(b.stmts@)
    }
}

/// The report lists, in order, the caches of the explained methods of `m`.
pub open spec fn report_of(r: Seq<FnCacheInfo>, m: Module, reg: FieldRegistry) -> bool {
    &&& r.len() == explained_fns(m).len()
    &&& forall|i: int| 0 <= i < r.len() ==> info_of(#[trigger] r[i], explained_fns(m)[i], reg)
}

/// The read-only and the mutable field caches together are all of them.
proof fn lemma_field_caches_split(ss: Seq<Stmt>, es: Seq<FieldEntry>)
    ensures
        field_caches_of(ss, es, false).len() + field_caches_of(ss, es, true).len() == ro_of(ss).len(),
    decreases ss.len(),
{
    if ss.len() > 0 {
        lemma_field_caches_split(ss.drop_last(), es);
    }
}

fn push_view(v: &mut Vec<String>, s: String)
    ensures
        names_view(final(v)@) == names_view(old(v)@).push(s@),
{
    v.push(s);
    proof { assert(names_view(v@) =~= names_view(old(v)@).push(s@)); }
}

/// The caches of a method body.
fn explain_body(f: &FnDecl, owner: &str, b: &Block, reg: &FieldRegistry) -> (i: FnCacheInfo)
    requires
        f.receiver matches Some(r) && r.owner_type@ == owner@,
        f.body == FnBody::Block(*b),
    ensures
        info_of(i, *f, *reg),
        info_total(i) == caches_in(*b),
{
    let empty: Vec<FieldEntry> = Vec::new();
    let es: &Vec<FieldEntry> = match find_type(reg, owner) {
        Some(ti) => &reg.types[ti].fields,
        None => &empty,
    };
    assert(es@ == owner_fields(*reg, owner@));
    let mut ro: Vec<String> = Vec::new();
    let mut mt: Vec<String> = Vec::new();
    let mut licm: Vec<String> = Vec::new();
    let mut pure: Vec<String> = Vec::new();
    let mut chain: Vec<Vec<String>> = Vec::new();
    let ghost ss = b.stmts@;
    let mut k: usize = 0;
    assert(names_view(ro@) =~= field_caches_of(ss.subrange(0, 0), es@, false));
    assert(names_view(mt@) =~= field_caches_of(ss.subrange(0, 0), es@, true));
    assert(ro_of(ss.subrange(0, 0)).len() == 0);
    assert(names_view(licm@) =~= licm_of(ss.subrange(0, 0)));
    assert(names_view(pure@) =~= pure_of(ss.subrange(0, 0)));
    assert(chain@.map_values(|p: Vec<String>| names_view(p@)) =~= chain_of(ss.subrange(0, 0)));
    while k < b.stmts.len()
        invariant
            ss == b.stmts@,
            k <= ss.len(),
            names_view(ro@) == field_caches_of(ss.subrange(0, k as int), es@, false),
            names_view(mt@) == field_caches_of(ss.subrange(0, k as int), es@, true),
            names_view(licm@) == licm_of(ss.subrange(0, k as int)),
            names_view(pure@) == pure_of(ss.subrange(0, k as int)),
            chain@.map_values(|p: Vec<String>| names_view(p@)) == chain_of(ss.subrange(0, k as int)),
        decreases ss.len() - k,
    {
        let ghost pre = ss.subrange(0, k as int + 1);
        assert(pre.drop_last() =~= ss.subrange(0, k as int));
        assert(pre.last() == ss[k as int]);
        match &b.stmts[k] {
            Stmt::Let(d) => match &d.pattern {
                Pattern::Ident { name, .. } => {
                    if starts_with_str(name.as_str(), "_at_") {
                        let n = name.unicode_len();
                        if n >= 10 && ends_with_str(name.as_str(), "_chain") {
                            let inner = substring(name.as_str(), 4, n - 6);
                            let parts = split_on(inner.as_str(), '_');
                            let ghost c0 = chain@.map_values(|p: Vec<String>| names_view(p@));
                            chain.push(parts);
                            proof {
                                assert(chain@.map_values(|p: Vec<String>| names_view(p@)) =~= c0.push(split_char(name@.subrange(4, n - 6), '_')));
                            }
                        } else if n >= 9 && ends_with_str(name.as_str(), "_loop") {
                            push_view(&mut licm, substring(name.as_str(), 4, n - 5));
                        } else if n >= 9 && ends_with_str(name.as_str(), "_call") {
                            push_view(&mut pure, substring(name.as_str(), 4, n - 5));
                        } else {
                            match self_field(&d.value) {
                                Some(fname) => {
                                    let is_mut = match kind_of(es, fname.as_str()) {
                                        Some(FieldKind::Mut) => true,
                                        _ => false,
                                    };
                                    if is_mut {
                                        push_view(&mut mt, copy_str(fname.as_str()));
                                    } else {
                                        push_view(&mut ro, copy_str(fname.as_str()));
                                    }
                                },
                                None => {},
                            }
                        }
                    }
                },
                _ => {},
            },
            _ => {},
        }
        k = k + 1;
    }
    assert(ss.subrange(0, ss.len() as int) =~= ss);
    proof { lemma_field_caches_split(ss, es@); }
    let receiver_type = copy_str(owner);
    FnCacheInfo {
        receiver_type,
        fn_name: copy_str(f.name.as_str()),
        span: f.span,
        ro_caches: ro,
        mut_caches: mt,
        licm_hoists: licm,
        pure_caches: pure,
        chain_caches: chain,
    }
}

fn explain_items(items: &Vec<Item>, out: &mut Vec<FnCacheInfo>, reg: &FieldRegistry)
    ensures
        final(out)@.len() == old(out)@.len() + explained_in(items@).len(),
        forall|i: int| 0 <= i < old(out)@.len() ==> final(out)@[i] == old(out)@[i],
        forall|i: int| 0 <= i < explained_in(items@).len() ==> info_of(#[trigger] final(out)@[old(out)@.len() + i], explained_in(items@)[i], *reg),
{
    let ghost o0 = out@;
    let mut k: usize = 0;
    while k < items.len()
        invariant
            k <= items@.len(),
            out@.len() == o0.len() + explained_in(items@.subrange(0, k as int)).len(),
            forall|i: int| 0 <= i < o0.len() ==> out@[i] == o0[i],
            forall|i: int| 0 <= i < explained_in(items@.subrange(0, k as int)).len()
                ==> info_of(#[trigger] out@[o0.len() + i], explained_in(items@.subrange(0, k as int))[i], *reg),
        decreases items@.len() - k,
    {
        let ghost pre = items@.subrange(0, k as int + 1);
        assert(pre.drop_last() =~= items@.subrange(0, k as int));
        assert(pre.last() == items@[k as int]);
        let ghost e0 = explained_in(items@.subrange(0, k as int));
        match &items[k] {
            Item::Fn(f) => {
                match &f.receiver {
                    Some(r) => match &f.body {
                        FnBody::Block(b) => {
                            let info = explain_body(f, r.owner_type.as_str(), b, reg);
                            if info.ro_caches.len() > 0 || info.mut_caches.len() > 0 || info.licm_hoists.len() > 0 || info.pure_caches.len() > 0
                                || info.chain_caches.len() > 0 {
                                let ghost before = out@;
                                out.push(info);
                                proof {
                                    assert(explained_in(pre) == e0.push(*f));
                                    assert forall|i: int| 0 <= i < e0.len() + 1 implies info_of(#[trigger] out@[o0.len() + i], e0.push(*f)[i], *reg) by {
                                        if i < e0.len() {
                                            assert(out@[o0.len() + i] == before[o0.len() + i]);
                                        }
                                    }
                                }
                            } else {
                                assert(explained_in(pre) == e0);
                            }
                        },
                        _ => {
                            assert(explained_in(pre) == e0);
                        },
                    },
                    None => {
                        assert(explained_in(pre) == e0);
                    },
                }
            },
            _ => {
                assert(explained_in(pre) == e0);
            },
        }
        k = k + 1;
    }
    assert(items@.subrange(0, items@.len() as int) =~= items@);
}

/// What the caching pass would do to each method of `module` under `cfg`:
/// nothing when the pass is off; otherwise the caches of every method that
/// gets one, read from the module after the pass.
pub fn analyze_module(module: Module, cfg: &FieldCacheConfig) -> (r: ExplainReport)
    ensures
        !cfg.enabled ==> r.per_fn@.len() == 0,
        cfg.enabled ==> exists|m2: Module, reg: FieldRegistry| #![trigger module_cached(module, m2, *cfg), registry_of(reg, module_types(module))]
            module_cached(module, m2, *cfg) && registry_of(reg, module_types(module)) && report_of(r.per_fn@, m2, reg),
{
    if !cfg.enabled {
        return ExplainReport { per_fn: Vec::new() };
    }
    let reg = build_registry(&module);
    let mut m = module;
    cache_module(&mut m, cfg);
    let mut per_fn: Vec<FnCacheInfo> = Vec::new();
    explain_items(&m.items, &mut per_fn, &reg);
    proof {
        assert(explained_in(m.items@) + explained_in_peers(m.peer_files@, 0) =~= explained_in(m.items@));
        assert forall|i: int| 0 <= i < per_fn@.len() implies info_of(#[trigger] per_fn@[i], (explained_in(m.items@) + explained_in_peers(m.peer_files@, 0))[i], reg) by {
            assert(per_fn@[0 + i] == per_fn@[i]);
        }
    }
    let mut j: usize = 0;
    while j < m.peer_files.len()
        invariant
            j <= m.peer_files@.len(),
            per_fn@.len() == explained_in(m.items@).len() + explained_in_peers(m.peer_files@, j as int).len(),
            forall|i: int| 0 <= i < per_fn@.len() ==> info_of(#[trigger] per_fn@[i], (explained_in(m.items@) + explained_in_peers(m.peer_files@, j as int))[i], reg),
        decreases m.peer_files@.len() - j,
    {
        let ghost before = per_fn@;
        let ghost acc = explained_in(m.items@) + explained_in_peers(m.peer_files@, j as int);
        explain_items(&m.peer_files[j].items_here, &mut per_fn, &reg);
        proof {
            let add = explained_in(m.peer_files@[j as int].items_here@);
            assert(explained_in(m.items@) + explained_in_peers(m.peer_files@, j as int + 1) =~= acc + add);
            assert forall|i: int| 0 <= i < per_fn@.len() implies info_of(#[trigger] per_fn@[i], (acc + add)[i], reg) by {
                if i < before.len() {
                    assert(per_fn@[i] == before[i]);
                } else {
                    let q = i - before.len();
                    assert(per_fn@[before.len() + q] == per_fn@[i]);
                }
            }
        }
        j = j + 1;
    }
    assert(report_of(per_fn@, m, reg));
    ExplainReport { per_fn }
}

} // verus!
