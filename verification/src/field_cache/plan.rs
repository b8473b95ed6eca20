//! What the caching pass decides before it rewrites anything: its
//! configuration, the cacheable fields of each receiver type, and the split
//! of a body into straight-line regions between barriers.

use vstd::prelude::*;
use crate::ast::{Block, Expr, FnBody, Item, Module, PeerFile, RecordField, Span, Stmt, TypeDecl, TypeDeclKind};
use crate::field_cache::collect::{add_name, has_name};
use crate::field_cache::ipa::{names_view, WriteSets};
use crate::field_cache::reads::{cap, reads_block, reads_stmt, reads_expr, count_field_reads_in_block, count_field_reads_in_expr, count_field_reads_in_stmt};
use crate::field_cache::scan::{
    captured_block, captured_expr, captured_in_block, captured_in_expr, invalidates_expr, invalidates_in_expr, invalidates_in_stmt, invalidates_stmt, ipa_view, writes_expr,
    writes_in_expr, writes_in_stmt, writes_stmt,
};
use crate::field_cache::ipa::IpaView;
use crate::text::{copy_str, lemma_seq_lt_total, seq_lt, str_eq, str_lt};

verus! {

/// Settings of the caching pass.
#[derive(Clone, Copy, Debug)]
pub struct FieldCacheConfig {
    pub enabled: bool,
    /// Reads of a field (in one region, for mutable fields) needed before it is cached.
    pub threshold: usize,
    /// Most cache locals per method.
    pub max_per_fn: usize,
    pub licm_enabled: bool,
    pub licm_threshold: usize,
    pub licm_max_per_loop: usize,
    pub pure_enabled: bool,
    pub pure_threshold: usize,
    pub chain_enabled: bool,
    pub chain_threshold: usize,
    pub chain_max_depth: usize,
    /// Use the methods' field write sets to decide whether a call on the
    /// receiver can change a field.
    pub ipa_enabled: bool,
    pub ipa_iter_limit: usize,
}

/// The default settings.
pub open spec fn is_default_config(c: FieldCacheConfig) -> bool {
    &&& c.enabled
    &&& c.threshold == 2
    &&& c.max_per_fn == 8
    &&& c.licm_enabled
    &&& c.licm_threshold == 2
    &&& c.licm_max_per_loop == 4
    &&& c.pure_enabled
    &&& c.pure_threshold == 2
    &&& c.chain_enabled
    &&& c.chain_threshold == 2
    &&& c.chain_max_depth == 4
    &&& c.ipa_enabled
    &&& c.ipa_iter_limit == 10
}

impl Default for FieldCacheConfig {
    fn default() -> (r: Self)
        ensures
            is_default_config(r),
    {
        FieldCacheConfig {
            enabled: true,
            threshold: 2,
            max_per_fn: 8,
            licm_enabled: true,
            licm_threshold: 2,
            licm_max_per_loop: 4,
            pure_enabled: true,
            pure_threshold: 2,
            chain_enabled: true,
            chain_threshold: 2,
            chain_max_depth: 4,
            ipa_enabled: true,
            ipa_iter_limit: 10,
        }
    }
}

impl FieldCacheConfig {
    /// Default settings with the given threshold and per-method cap; a
    /// threshold of 0 turns the pass off (and leaves the threshold at 2).
    pub fn from_threshold(threshold: usize, max_per_fn: usize) -> (r: Self)
        ensures
            r.enabled == (threshold != 0),
            r.threshold == (if threshold == 0 { 2 } else { threshold }),
            r.max_per_fn == max_per_fn,
            is_default_config(FieldCacheConfig { enabled: true, threshold: 2, max_per_fn: 8, ..r }),
    {
        let base = FieldCacheConfig::default();
        if threshold == 0 {
            FieldCacheConfig { enabled: false, threshold: 2, max_per_fn, ..base }
        } else {
            FieldCacheConfig { enabled: true, threshold, max_per_fn, ..base }
        }
    }
}

/// How a field may be cached: read-only fields for the whole body,
/// mutable ones region by region.
#[derive(Clone, Copy, Debug, PartialEq, Eq)]
pub enum FieldKind {
    Ro,
    Mut,
}

/// A cacheable field of a receiver type.
pub struct FieldEntry {
    pub name: String,
    pub kind: FieldKind,
}

/// The cacheable fields of one record type.
pub struct TypeFields {
    pub owner: String,
    pub fields: Vec<FieldEntry>,
}

/// Cacheable fields per type, and the types whose methods are left alone
/// (protocols, effects, opaque, alias, newtype and sum types).
pub struct FieldRegistry {
    pub types: Vec<TypeFields>,
    pub skip_types: Vec<String>,
}

/// The type declarations of some items, in order.
pub open spec fn item_types(items: Seq<Item>) -> Seq<TypeDecl>
    decreases items.len(),
{
    if items.len() == 0 {
        Seq::empty()
    } else {
        item_types(items.drop_last()) + match items.last() {
            Item::Type(t) => seq![t],
            _ => Seq::empty(),
        }
    }
}

pub open spec fn peer_types(pfs: Seq<PeerFile>) -> Seq<TypeDecl>
    decreases pfs.len(),
{
    if pfs.len() == 0 {
        Seq::empty()
    } else {
        peer_types(pfs.drop_last()) + item_types(pfs.last().items_here@)
    }
}

/// The type declarations of a module: its items, then its peer files.
pub open spec fn module_types(m: Module) -> Seq<TypeDecl> {
    item_types(m.items@) + peer_types(m.peer_files@)
}

/// Methods of such a type are never cached.
pub open spec fn is_skip_kind(k: TypeDeclKind) -> bool {
    !(k is Record || k is NamedTuple)
}

/// The kind of field `f` among the first `k` fields of a record (the last
/// one wins); consumed and embedded fields are not cacheable.
pub open spec fn record_kind(fs: Seq<RecordField>, k: int, f: Seq<char>) -> Option<FieldKind>
    decreases k,
{
    if k <= 0 || k > fs.len() {
        None
    } else if fs[k - 1].name@ == f && !fs[k - 1].consume && !fs[k - 1].is_embed {
        Some(if fs[k - 1].readonly { FieldKind::Ro } else { FieldKind::Mut })
    } else {
        record_kind(fs, k - 1, f)
    }
}

/// The kind of field `f` in a declaration: record fields by their flags,
/// named-tuple fields always read-only.
pub open spec fn decl_field_kind(d: TypeDecl, f: Seq<char>) -> Option<FieldKind> {
    match d.kind {
        TypeDeclKind::Record(fs) => record_kind(fs@, fs@.len() as int, f),
        TypeDeclKind::NamedTuple(fs) => if exists|i: int| 0 <= i < fs@.len() && #[trigger] fs@[i].name@ == f {
            Some(FieldKind::Ro)
        } else {
            None
        },
        _ => None,
    }
}

/// The last record or named-tuple declaration named `t` among the first `k`.
pub open spec fn fields_decl(tds: Seq<TypeDecl>, k: int, t: Seq<char>) -> Option<TypeDecl>
    decreases k,
{
    if k <= 0 || k > tds.len() {
        None
    } else if tds[k - 1].name@ == t && !is_skip_kind(tds[k - 1].kind) {
        Some(tds[k - 1])
    } else {
        fields_decl(tds, k - 1, t)
    }
}

/// The kind recorded for `f` among the first `k` entries (the last wins).
pub open spec fn entry_kind(es: Seq<FieldEntry>, k: int, f: Seq<char>) -> Option<FieldKind>
    decreases k,
{
    if k <= 0 || k > es.len() {
        None
    } else if es[k - 1].name@ == f {
        Some(es[k - 1].kind)
    } else {
        entry_kind(es, k - 1, f)
    }
}

/// The registry entry for type `t` among the first `k` (the last wins).
pub open spec fn registry_type(ts: Seq<TypeFields>, k: int, t: Seq<char>) -> Option<TypeFields>
    decreases k,
{
    if k <= 0 || k > ts.len() {
        None
    } else if ts[k - 1].owner@ == t {
        Some(ts[k - 1])
    } else {
        registry_type(ts, k - 1, t)
    }
}

/// The kind of `t.f` in the registry, if it is a cacheable field.
pub open spec fn registry_kind(reg: FieldRegistry, t: Seq<char>, f: Seq<char>) -> Option<FieldKind> {
    match registry_type(reg.types@, reg.types@.len() as int, t) {
        Some(tf) => entry_kind(tf.fields@, tf.fields@.len() as int, f),
        None => None,
    }
}

/// `reg` describes the type declarations `tds`.
pub open spec fn registry_of(reg: FieldRegistry, tds: Seq<TypeDecl>) -> bool {
    &&& forall|t: Seq<char>| #[trigger] registry_type(reg.types@, reg.types@.len() as int, t) is Some
        <==> fields_decl(tds, tds.len() as int, t) is Some
    &&& forall|t: Seq<char>, f: Seq<char>| #[trigger] registry_kind(reg, t, f) == match fields_decl(tds, tds.len() as int, t) {
        Some(d) => decl_field_kind(d, f),
        None => None,
    }
    &&& forall|t: Seq<char>| #[trigger] has_name(reg.skip_types@, t)
        <==> exists|i: int| 0 <= i < tds.len() && #[trigger] tds[i].name@ == t && is_skip_kind(tds[i].kind)
}

proof fn lemma_entry_kind_push(es: Seq<FieldEntry>, x: FieldEntry, k: int, f: Seq<char>)
    requires
        0 <= k <= es.len(),
    ensures
        entry_kind(es.push(x), k, f) == entry_kind(es, k, f),
    decreases k,
{
    if k > 0 {
        assert(es.push(x)[k - 1] == es[k - 1]);
        lemma_entry_kind_push(es, x, k - 1, f);
    }
}

proof fn lemma_registry_type_push(ts: Seq<TypeFields>, x: TypeFields, k: int, t: Seq<char>)
    requires
        0 <= k <= ts.len(),
    ensures
        registry_type(ts.push(x), k, t) == registry_type(ts, k, t),
    decreases k,
{
    if k > 0 {
        assert(ts.push(x)[k - 1] == ts[k - 1]);
        lemma_registry_type_push(ts, x, k - 1, t);
    }
}

proof fn lemma_fields_decl_push(tds: Seq<TypeDecl>, x: TypeDecl, k: int, t: Seq<char>)
    requires
        0 <= k <= tds.len(),
    ensures
        fields_decl(tds.push(x), k, t) == fields_decl(tds, k, t),
    decreases k,
{
    if k > 0 {
        assert(tds.push(x)[k - 1] == tds[k - 1]);
        lemma_fields_decl_push(tds, x, k - 1, t);
    }
}

/// The cacheable fields of a record declaration.
fn record_entries(fs: &Vec<RecordField>) -> (es: Vec<FieldEntry>)
    ensures
        forall|f: Seq<char>| #[trigger] entry_kind(es@, es@.len() as int, f) == record_kind(fs@, fs@.len() as int, f),
{
    let mut es: Vec<FieldEntry> = Vec::new();
    let mut i: usize = 0;
    while i < fs.len()
        invariant
            i <= fs@.len(),
            forall|f: Seq<char>| #[trigger] entry_kind(es@, es@.len() as int, f) == record_kind(fs@, i as int, f),
        decreases fs@.len() - i,
    {
        let r = &fs[i];
        if !r.consume && !r.is_embed {
            let kind = if r.readonly { FieldKind::Ro } else { FieldKind::Mut };
            let ghost es0 = es@;
            let e = FieldEntry { name: copy_str(r.name.as_str()), kind };
            es.push(e);
            proof {
                assert forall|f: Seq<char>| #[trigger] entry_kind(es@, es@.len() as int, f) == record_kind(fs@, i as int + 1, f) by {
                    lemma_entry_kind_push(es0, e, es0.len() as int, f);
                    assert(es@ == es0.push(e));
                }
            }
        }
        i = i + 1;
    }
    es
}

/// The fields of a named tuple, all read-only.
fn tuple_entries(fs: &Vec<RecordField>) -> (es: Vec<FieldEntry>)
    ensures
        forall|f: Seq<char>| #[trigger] entry_kind(es@, es@.len() as int, f) == if exists|i: int|
            0 <= i < fs@.len() && #[trigger] fs@[i].name@ == f {
            Some(FieldKind::Ro)
        } else {
            None
        },
{
    let mut es: Vec<FieldEntry> = Vec::new();
    let mut i: usize = 0;
    while i < fs.len()
        invariant
            i <= fs@.len(),
            es@.len() == i,
            forall|j: int| 0 <= j < i ==> (#[trigger] es@[j]).name@ == fs@[j].name@ && es@[j].kind == FieldKind::Ro,
        decreases fs@.len() - i,
    {
        es.push(FieldEntry { name: copy_str(fs[i].name.as_str()), kind: FieldKind::Ro });
        i = i + 1;
    }
    proof {
        assert forall|f: Seq<char>| #[trigger] entry_kind(es@, es@.len() as int, f) == if exists|i: int|
            0 <= i < fs@.len() && #[trigger] fs@[i].name@ == f {
            Some(FieldKind::Ro)
        } else {
            None
        } by {
            lemma_entry_kind_ro(es@, es@.len() as int, f);
            if exists|i: int| 0 <= i < fs@.len() && #[trigger] fs@[i].name@ == f {
                let i = choose|i: int| 0 <= i < fs@.len() && #[trigger] fs@[i].name@ == f;
                assert(es@[i].name@ == f);
            }
        }
    }
    es
}

proof fn lemma_entry_kind_ro(es: Seq<FieldEntry>, k: int, f: Seq<char>)
    requires
        0 <= k <= es.len(),
        forall|j: int| 0 <= j < es.len() ==> (#[trigger] es[j]).kind == FieldKind::Ro,
    ensures
        entry_kind(es, k, f) == if exists|j: int| 0 <= j < k && #[trigger] es[j].name@ == f {
            Some(FieldKind::Ro)
        } else {
            None
        },
    decreases k,
{
    if k > 0 {
        lemma_entry_kind_ro(es, k - 1, f);
        if es[k - 1].name@ != f {
            if exists|j: int| 0 <= j < k && #[trigger] es[j].name@ == f {
                let j = choose|j: int| 0 <= j < k && #[trigger] es[j].name@ == f;
                assert(j < k - 1);
            }
        }
    }
}

/// Adds the declarations among `items` to the registry.
fn register_items(items: &Vec<Item>, reg: &mut FieldRegistry, Ghost(tds0): Ghost<Seq<TypeDecl>>)
    requires
        registry_of(*old(reg), tds0),
    ensures
        registry_of(*final(reg), tds0 + item_types(items@)),
{
    let mut j: usize = 0;
    assert(tds0 + item_types(items@.subrange(0, 0)) =~= tds0);
    while j < items.len()
        invariant
            j <= items@.len(),
            registry_of(*reg, tds0 + item_types(items@.subrange(0, j as int))),
        decreases items@.len() - j,
    {
        let ghost before = tds0 + item_types(items@.subrange(0, j as int));
        assert(items@.subrange(0, j as int + 1).drop_last() =~= items@.subrange(0, j as int));
        match &items[j] {
            Item::Type(t) => {
                let ghost now = before.push(*t);
                assert(tds0 + item_types(items@.subrange(0, j as int + 1)) =~= now);
                register_type(t, reg, Ghost(before));
            },
            _ => {
                assert(tds0 + item_types(items@.subrange(0, j as int + 1)) =~= before);
            },
        }
        j = j + 1;
    }
    assert(items@.subrange(0, items@.len() as int) =~= items@);
}

/// Adds one declaration to the registry.
fn register_type(t: &TypeDecl, reg: &mut FieldRegistry, Ghost(tds): Ghost<Seq<TypeDecl>>)
    requires
        registry_of(*old(reg), tds),
    ensures
        registry_of(*final(reg), tds.push(*t)),
{
    let ghost now = tds.push(*t);
    let ghost old_reg = *reg;
    match &t.kind {
        TypeDeclKind::Record(fs) => {
            let es = record_entries(fs);
            reg.types.push(TypeFields { owner: copy_str(t.name.as_str()), fields: es });
        },
        TypeDeclKind::NamedTuple(fs) => {
            let es = tuple_entries(fs);
            reg.types.push(TypeFields { owner: copy_str(t.name.as_str()), fields: es });
        },
        _ => {
            add_name(&mut reg.skip_types, t.name.as_str());
        },
    }
    proof {
        assert(now[now.len() - 1] == *t);
        assert(now.drop_last() =~= tds);
        assert forall|u: Seq<char>| fields_decl(now, now.len() as int, u) == (if t.name@ == u && !is_skip_kind(t.kind) {
            Some(*t)
        } else {
            fields_decl(tds, tds.len() as int, u)
        }) by {
            lemma_fields_decl_push(tds, *t, tds.len() as int, u);
        }
        if !is_skip_kind(t.kind) {
            let x = reg.types@[reg.types@.len() - 1];
            assert(reg.types@ == old_reg.types@.push(x));
            assert forall|u: Seq<char>| registry_type(reg.types@, reg.types@.len() as int, u) == (if t.name@ == u {
                Some(x)
            } else {
                registry_type(old_reg.types@, old_reg.types@.len() as int, u)
            }) by {
                lemma_registry_type_push(old_reg.types@, x, old_reg.types@.len() as int, u);
            }
            assert forall|u: Seq<char>, f: Seq<char>| #[trigger] registry_kind(*reg, u, f) == match fields_decl(now, now.len() as int, u) {
                Some(d) => decl_field_kind(d, f),
                None => None,
            } by {
                if t.name@ == u {
                    assert(registry_type(reg.types@, reg.types@.len() as int, u) == Some(x));
                } else {
                    assert(registry_kind(*reg, u, f) == registry_kind(old_reg, u, f));
                }
            }
        } else {
            assert(reg.types@ == old_reg.types@);
            assert forall|u: Seq<char>, f: Seq<char>| #[trigger] registry_kind(*reg, u, f) == match fields_decl(now, now.len() as int, u) {
                Some(d) => decl_field_kind(d, f),
                None => None,
            } by {
                assert(fields_decl(now, now.len() as int, u) == fields_decl(tds, tds.len() as int, u));
                assert(registry_kind(*reg, u, f) == registry_kind(old_reg, u, f));
            }
            assert forall|u: Seq<char>| #[trigger] registry_type(reg.types@, reg.types@.len() as int, u) is Some
                <==> fields_decl(now, now.len() as int, u) is Some by {
                assert(fields_decl(now, now.len() as int, u) == fields_decl(tds, tds.len() as int, u));
            }
        }
        assert forall|u: Seq<char>| #[trigger] has_name(reg.skip_types@, u)
            <==> exists|i: int| 0 <= i < now.len() && #[trigger] now[i].name@ == u && is_skip_kind(now[i].kind) by {
            if exists|i: int| 0 <= i < now.len() && #[trigger] now[i].name@ == u && is_skip_kind(now[i].kind) {
                let i = choose|i: int| 0 <= i < now.len() && #[trigger] now[i].name@ == u && is_skip_kind(now[i].kind);
                if i < tds.len() {
                    assert(tds[i] == now[i]);
                }
            }
            if exists|i: int| 0 <= i < tds.len() && #[trigger] tds[i].name@ == u && is_skip_kind(tds[i].kind) {
                let i = choose|i: int| 0 <= i < tds.len() && #[trigger] tds[i].name@ == u && is_skip_kind(tds[i].kind);
                assert(now[i] == tds[i]);
            }
        }
    }
}

/// The cacheable fields of every record type of a module, and the types
/// that are left alone.
pub fn build_registry(m: &Module) -> (reg: FieldRegistry)
    ensures
        registry_of(reg, module_types(*m)),
{
    let mut reg = FieldRegistry { types: Vec::new(), skip_types: Vec::new() };
    proof {
        assert(names_view(Seq::<String>::empty()) =~= Seq::<Seq<char>>::empty());
    }
    register_items(&m.items, &mut reg, Ghost(Seq::empty()));
    let ghost own = Seq::<TypeDecl>::empty() + item_types(m.items@);
    assert(own =~= item_types(m.items@));
    let mut p: usize = 0;
    assert(peer_types(m.peer_files@.subrange(0, 0)) =~= Seq::<TypeDecl>::empty());
    assert(own + Seq::<TypeDecl>::empty() =~= own);
    while p < m.peer_files.len()
        invariant
            p <= m.peer_files@.len(),
            own == item_types(m.items@),
            registry_of(reg, own + peer_types(m.peer_files@.subrange(0, p as int))),
        decreases m.peer_files@.len() - p,
    {
        let ghost before = own + peer_types(m.peer_files@.subrange(0, p as int));
        assert(m.peer_files@.subrange(0, p as int + 1).drop_last() =~= m.peer_files@.subrange(0, p as int));
        register_items(&m.peer_files[p].items_here, &mut reg, Ghost(before));
        assert(own + peer_types(m.peer_files@.subrange(0, p as int + 1))
            =~= before + item_types(m.peer_files@[p as int].items_here@));
        p = p + 1;
    }
    assert(m.peer_files@.subrange(0, m.peer_files@.len() as int) =~= m.peer_files@);
    reg
}

/// The registry entry for type `t`, if any.
pub fn find_type(reg: &FieldRegistry, t: &str) -> (r: Option<usize>)
    ensures
        match r {
            Some(i) => i < reg.types@.len() && registry_type(reg.types@, reg.types@.len() as int, t@) == Some(reg.types@[i as int]),
            None => registry_type(reg.types@, reg.types@.len() as int, t@) is None,
        },
{
    let n = reg.types.len();
    let mut k: usize = n;
    while k > 0
        invariant
            k <= n,
            n == reg.types@.len(),
            registry_type(reg.types@, n as int, t@) == registry_type(reg.types@, k as int, t@),
        decreases k,
    {
        if str_eq(reg.types[k - 1].owner.as_str(), t) {
            return Some(k - 1);
        }
        k = k - 1;
    }
    None
}

/// The names are strictly increasing in character order.
pub open spec fn sorted_names(v: Seq<String>) -> bool {
    forall|i: int| 0 <= i < v.len() - 1 ==> seq_lt(#[trigger] v[i]@, v[i + 1]@)
}

/// Adds `x` to a sorted list of names, keeping it sorted.
pub fn insert_sorted(r: &mut Vec<String>, x: &str)
    requires
        sorted_names(old(r)@),
    ensures
        sorted_names(final(r)@),
        forall|y: Seq<char>| #[trigger] has_name(final(r)@, y) <==> has_name(old(r)@, y) || y == x@,
{
    let mut k: usize = 0;
    while k < r.len() && str_lt(r[k].as_str(), x)
        invariant
            k <= r@.len(),
            r@ == old(r)@,
            sorted_names(r@),
            forall|j: int| 0 <= j < k ==> seq_lt(#[trigger] r@[j]@, x@),
        decreases r@.len() - k,
    {
        k = k + 1;
    }
    if k < r.len() && str_eq(r[k].as_str(), x) {
        proof {
            assert(names_view(r@)[k as int] == x@);
        }
        return;
    }
    let ghost r0 = r@;
    let item = copy_str(x);
    r.insert(k, item);
    proof {
        r0.insert_ensures(k as int, item);
        if k < r0.len() {
            lemma_seq_lt_total(x@, r0[k as int]@);
        }
        assert forall|i: int| 0 <= i < r@.len() - 1 implies seq_lt(#[trigger] r@[i]@, r@[i + 1]@) by {
            if i < k - 1 {
                assert(r@[i] == r0[i] && r@[i + 1] == r0[i + 1]);
            } else if i == k - 1 {
                assert(r@[i] == r0[i]);
            } else if i == k {
                assert(r@[i + 1] == r0[i]);
            } else {
                assert(r@[i] == r0[i - 1] && r@[i + 1] == r0[i]);
            }
        }
        assert forall|y: Seq<char>| #[trigger] has_name(r@, y) <==> has_name(r0, y) || y == x@ by {
            if has_name(r@, y) {
                let j = choose|j: int| 0 <= j < names_view(r@).len() && names_view(r@)[j] == y;
                if j < k {
                    assert(names_view(r0)[j] == y);
                } else if j > k {
                    assert(names_view(r0)[j - 1] == y);
                }
            }
            if has_name(r0, y) {
                let j = choose|j: int| 0 <= j < names_view(r0).len() && names_view(r0)[j] == y;
                if j < k {
                    assert(names_view(r@)[j] == y);
                } else {
                    assert(names_view(r@)[j + 1] == y);
                }
            }
            if y == x@ {
                assert(names_view(r@)[k as int] == y);
            }
        }
    }
}

proof fn lemma_entry_kind_some(es: Seq<FieldEntry>, k: int, f: Seq<char>)
    requires
        0 <= k <= es.len(),
    ensures
        entry_kind(es, k, f) is Some <==> exists|j: int| 0 <= j < k && #[trigger] es[j].name@ == f,
    decreases k,
{
    if k > 0 {
        lemma_entry_kind_some(es, k - 1, f);
        if es[k - 1].name@ != f {
            if exists|j: int| 0 <= j < k && #[trigger] es[j].name@ == f {
                let j = choose|j: int| 0 <= j < k && #[trigger] es[j].name@ == f;
                assert(j < k - 1);
            }
        }
    }
}

/// The names of the cacheable fields of a type, each once, in character
/// order.
pub fn sorted_field_names(es: &Vec<FieldEntry>) -> (r: Vec<String>)
    ensures
        sorted_names(r@),
        forall|x: Seq<char>| #[trigger] has_name(r@, x) <==> entry_kind(es@, es@.len() as int, x) is Some,
{
    let mut r: Vec<String> = Vec::new();
    proof {
        assert(names_view(Seq::<String>::empty()) =~= Seq::<Seq<char>>::empty());
    }
    let mut i: usize = 0;
    while i < es.len()
        invariant
            i <= es@.len(),
            sorted_names(r@),
            forall|x: Seq<char>| #[trigger] has_name(r@, x) <==> exists|j: int| 0 <= j < i && #[trigger] es@[j].name@ == x,
        decreases es@.len() - i,
    {
        insert_sorted(&mut r, es[i].name.as_str());
        proof {
            assert forall|x: Seq<char>| #[trigger] has_name(r@, x) <==> exists|j: int| 0 <= j < i + 1 && #[trigger] es@[j].name@ == x by {
                if exists|j: int| 0 <= j < i + 1 && #[trigger] es@[j].name@ == x {
                    let j = choose|j: int| 0 <= j < i + 1 && #[trigger] es@[j].name@ == x;
                    if j < i {
                        assert(exists|j2: int| 0 <= j2 < i && #[trigger] es@[j2].name@ == x);
                    }
                }
            }
        }
        i = i + 1;
    }
    proof {
        assert forall|x: Seq<char>| #[trigger] has_name(r@, x) <==> entry_kind(es@, es@.len() as int, x) is Some by {
            lemma_entry_kind_some(es@, es@.len() as int, x);
        }
    }
    r
}

/// The kind of field `f` in a type's entries, if it is one of them.
pub fn kind_of(es: &Vec<FieldEntry>, f: &str) -> (r: Option<FieldKind>)
    ensures
        r == entry_kind(es@, es@.len() as int, f@),
{
    let n = es.len();
    let mut k: usize = n;
    while k > 0
        invariant
            k <= n,
            n == es@.len(),
            entry_kind(es@, n as int, f@) == entry_kind(es@, k as int, f@),
        decreases k,
    {
        if str_eq(es[k - 1].name.as_str(), f) {
            return Some(es[k - 1].kind);
        }
        k = k - 1;
    }
    None
}

/// A straight-line stretch `start..end` of a block's statements with no
/// barrier for one field, with the number of reads of the field in it; the
/// block's final expression belongs to it when `trailing_included`.
#[derive(Clone, Copy, Debug)]
pub struct MutRegion {
    pub start: usize,
    pub end: usize,
    pub reads: usize,
    pub first_span: Span,
    pub trailing_included: bool,
}

/// The source range of a statement.
pub open spec fn stmt_span_of(s: Stmt) -> Span {
    match s {
        Stmt::Let(d) => d.span,
        Stmt::Assign { span, .. } => span,
        Stmt::Expr(e) => e.span,
        Stmt::Return { span, .. } => span,
        Stmt::Break(span) => span,
        Stmt::Continue(span) => span,
    }
}

/// The source range of a statement.
pub fn stmt_span(s: &Stmt) -> (r: Span)
    ensures
        r == stmt_span_of(*s),
{
    match s {
        Stmt::Let(d) => d.span,
        Stmt::Assign { span, .. } => *span,
        Stmt::Expr(e) => e.span,
        Stmt::Return { span, .. } => *span,
        Stmt::Break(span) => *span,
        Stmt::Continue(span) => *span,
    }
}

/// After this statement a cached copy of `@f` may be stale: it writes `@f`
/// or makes a call that may change it.
pub open spec fn is_barrier(s: Stmt, ctx: Option<IpaView>, f: Seq<char>) -> bool {
    writes_stmt(s, f) || invalidates_stmt(s, ctx, f)
}

/// `is_barrier` for an expression.
pub open spec fn is_expr_barrier(e: Expr, ctx: Option<IpaView>, f: Seq<char>) -> bool {
    writes_expr(e, f) || invalidates_expr(e, ctx, f)
}

pub open spec fn span_or(s: Option<Span>, d: Span) -> Span {
    match s {
        Some(x) => x,
        None => d,
    }
}

/// The split of the first `i` statements: the regions closed so far, and
/// the start, read count and first reading statement's range of the open one.
pub open spec fn region_scan(stmts: Seq<Stmt>, i: int, ctx: Option<IpaView>, f: Seq<char>, dflt: Span) -> (Seq<MutRegion>, int, nat, Option<Span>)
    decreases i,
{
    if i <= 0 {
        (Seq::empty(), 0, 0, None)
    } else {
        let st = region_scan(stmts, i - 1, ctx, f, dflt);
        let s = stmts[i - 1];
        if is_barrier(s, ctx, f) {
            (if i - 1 > st.1 {
                st.0.push(MutRegion { start: st.1 as usize, end: (i - 1) as usize, reads: st.2 as usize, first_span: span_or(st.3, dflt), trailing_included: false })
            } else {
                st.0
            }, i, 0, None)
        } else {
            let c = cap(reads_stmt(s, f));
            if c > 0 {
                (st.0, st.1, cap(st.2 + c), if st.3 is None { Some(stmt_span_of(s)) } else { st.3 })
            } else {
                st
            }
        }
    }
}

/// The regions of a block for field `f`: the stretches between barrier
/// statements, the last one running on into the final expression unless
/// that expression is a barrier itself.
pub open spec fn block_regions(b: Block, ctx: Option<IpaView>, f: Seq<char>, dflt: Span) -> Seq<MutRegion> {
    let n = b.stmts@.len() as int;
    let st = region_scan(b.stmts@, n, ctx, f, dflt);
    match b.trailing {
        Some(t) => if is_expr_barrier(*t, ctx, f) {
            if n > st.1 {
                st.0.push(MutRegion { start: st.1 as usize, end: n as usize, reads: st.2 as usize, first_span: span_or(st.3, dflt), trailing_included: false })
            } else {
                st.0
            }
        } else {
            let c = cap(reads_expr(*t, f));
            let rd = if c > 0 { cap(st.2 + c) } else { st.2 };
            let fs = if c > 0 && st.3 is None { Some(t.span) } else { st.3 };
            st.0.push(MutRegion { start: st.1 as usize, end: n as usize, reads: rd as usize, first_span: span_or(fs, dflt), trailing_included: true })
        },
        None => if n > st.1 {
            st.0.push(MutRegion { start: st.1 as usize, end: n as usize, reads: st.2 as usize, first_span: span_or(st.3, dflt), trailing_included: true })
        } else {
            st.0
        },
    }
}

proof fn lemma_region_scan_bounds(stmts: Seq<Stmt>, i: int, ctx: Option<IpaView>, f: Seq<char>, dflt: Span)
    requires
        0 <= i,
    ensures
        0 <= region_scan(stmts, i, ctx, f, dflt).1 <= i,
        region_scan(stmts, i, ctx, f, dflt).2 <= usize::MAX,
    decreases i,
{
    if i > 0 {
        lemma_region_scan_bounds(stmts, i - 1, ctx, f, dflt);
    }
}

/// The regions of block `b` for field `f` (see `block_regions`).
pub fn find_mut_regions_in_block(b: &Block, f: &str, ipa: Option<(&WriteSets, &str)>, dflt: Span) -> (r: Vec<MutRegion>)
    ensures
        r@ == block_regions(*b, ipa_view(ipa), f@, dflt),
{
    let ghost ctx = ipa_view(ipa);
    let mut regions: Vec<MutRegion> = Vec::new();
    let mut start: usize = 0;
    let mut reads: usize = 0;
    let mut first: Option<Span> = None;
    let mut i: usize = 0;
    while i < b.stmts.len()
        invariant
            i <= b.stmts@.len(),
            ctx == ipa_view(ipa),
            (regions@, start as int, reads as nat, first) == region_scan(b.stmts@, i as int, ctx, f@, dflt),
        decreases b.stmts@.len() - i,
    {
        proof { lemma_region_scan_bounds(b.stmts@, i as int, ctx, f@, dflt); }
        let s = &b.stmts[i];
        let barrier = writes_in_stmt(s, f) || invalidates_in_stmt(s, ipa, f);
        if barrier {
            if i > start {
                regions.push(MutRegion { start, end: i, reads, first_span: span_or_exec(first, dflt), trailing_included: false });
            }
            start = i + 1;
            reads = 0;
            first = None;
        } else {
            let c = count_field_reads_in_stmt(s, f);
            if c > 0 {
                reads = reads.saturating_add(c);
                if first.is_none() {
                    first = Some(stmt_span(s));
                }
            }
        }
        i = i + 1;
    }
    let n = b.stmts.len();
    proof { lemma_region_scan_bounds(b.stmts@, n as int, ctx, f@, dflt); }
    match &b.trailing {
        Some(t) => {
            if writes_in_expr(t, f) || invalidates_in_expr(t, ipa, f) {
                if n > start {
                    regions.push(MutRegion { start, end: n, reads, first_span: span_or_exec(first, dflt), trailing_included: false });
                }
            } else {
                let c = count_field_reads_in_expr(t, f);
                if c > 0 {
                    reads = reads.saturating_add(c);
                    if first.is_none() {
                        first = Some(t.span);
                    }
                }
                regions.push(MutRegion { start, end: n, reads, first_span: span_or_exec(first, dflt), trailing_included: true });
            }
        },
        None => {
            if n > start {
                regions.push(MutRegion { start, end: n, reads, first_span: span_or_exec(first, dflt), trailing_included: true });
            }
        },
    }
    regions
}

fn span_or_exec(s: Option<Span>, d: Span) -> (r: Span)
    ensures
        r == span_or(s, d),
{
    match s {
        Some(x) => x,
        None => d,
    }
}

/// Reads of `@f` in a method body (capped).
pub open spec fn body_reads(b: FnBody, f: Seq<char>) -> nat {
    match b {
        FnBody::Block(bl) => cap(reads_block(bl, f)),
        FnBody::Expr(e) => cap(reads_expr(e, f)),
        FnBody::External => 0,
    }
}

/// A closure in the body reads `@f`.
pub open spec fn body_captures(b: FnBody, f: Seq<char>) -> bool {
    match b {
        FnBody::Block(bl) => captured_block(bl, f),
        FnBody::Expr(e) => captured_expr(e, f),
        FnBody::External => false,
    }
}

/// The regions of a body for a mutable field: those of its block, or for an
/// expression body one region made of the expression (with no reads when the
/// expression is a barrier).
pub open spec fn body_regions(b: FnBody, ctx: Option<IpaView>, f: Seq<char>, dflt: Span) -> Seq<MutRegion> {
    match b {
        FnBody::Block(bl) => block_regions(bl, ctx, f, dflt),
        FnBody::Expr(e) => seq![MutRegion {
            start: 0,
            end: 0,
            reads: (if is_expr_barrier(e, ctx, f) { 0 } else { cap(reads_expr(e, f)) }) as usize,
            first_span: e.span,
            trailing_included: true,
        }],
        FnBody::External => Seq::empty(),
    }
}

/// The regions that get a cache local, in order, with their number among
/// the field's chosen regions: those with enough reads, while the method's
/// budget lasts (`total` locals are taken before).
pub open spec fn region_pick(rs: Seq<MutRegion>, k: int, thr: nat, max: nat, total: nat) -> (Seq<(MutRegion, nat)>, nat)
    decreases k,
{
    if k <= 0 {
        (Seq::empty(), total)
    } else {
        let p = region_pick(rs, k - 1, thr, max, total);
        if p.1 >= max || (rs[k - 1].reads as nat) < thr {
            p
        } else {
            (p.0.push((rs[k - 1], p.0.len())), p.1 + 1)
        }
    }
}

/// One cache local for a mutable field: the field, its region, and the
/// region's number among the field's chosen regions.
pub struct MutTarget {
    pub field: String,
    pub region: MutRegion,
    pub region_idx: usize,
}

/// What a method caches: read-only fields (for the whole body) and regions
/// of mutable fields, in the order they are decided.
pub struct CachePlan {
    pub ro: Vec<String>,
    pub muts: Vec<MutTarget>,
}

pub open spec fn target_view(t: MutTarget) -> (Seq<char>, MutRegion, nat) {
    (t.field@, t.region, t.region_idx as nat)
}

/// The decisions for the first `k` of the candidate fields `names` (in
/// order): a field read in a closure is skipped; a read-only field read at
/// least `thr` times is cached; a mutable field gets the regions that
/// `region_pick` chooses; nothing is added once `max` locals are taken.
pub open spec fn field_pick(
    names: Seq<Seq<char>>,
    k: int,
    es: Seq<FieldEntry>,
    body: FnBody,
    ctx: Option<IpaView>,
    thr: nat,
    max: nat,
    dflt: Span,
) -> (Seq<Seq<char>>, Seq<(Seq<char>, MutRegion, nat)>, nat)
    decreases k,
{
    if k <= 0 {
        (Seq::empty(), Seq::empty(), 0)
    } else {
        let p = field_pick(names, k - 1, es, body, ctx, thr, max, dflt);
        let f = names[k - 1];
        if p.2 >= max || body_reads(body, f) == 0 || body_captures(body, f) {
            p
        } else {
            match entry_kind(es, es.len() as int, f) {
                Some(FieldKind::Ro) => if body_reads(body, f) >= thr {
                    (p.0.push(f), p.1, p.2 + 1)
                } else {
                    p
                },
                Some(FieldKind::Mut) => {
                    let rs = body_regions(body, ctx, f, dflt);
                    let q = region_pick(rs, rs.len() as int, thr, max, p.2);
                    (p.0, p.1 + q.0.map_values(|x: (MutRegion, nat)| (f, x.0, x.1)), q.1)
                },
                None => p,
            }
        }
    }
}

/// The regions of a method body for field `f` (see `body_regions`).
pub fn body_mut_regions(body: &FnBody, f: &str, ipa: Option<(&WriteSets, &str)>, dflt: Span) -> (r: Vec<MutRegion>)
    ensures
        r@ == body_regions(*body, ipa_view(ipa), f@, dflt),
{
    match body {
        FnBody::Block(b) => find_mut_regions_in_block(b, f, ipa, dflt),
        FnBody::Expr(e) => {
            let reads = if writes_in_expr(e, f) || invalidates_in_expr(e, ipa, f) {
                0
            } else {
                count_field_reads_in_expr(e, f)
            };
            let mut r: Vec<MutRegion> = Vec::new();
            r.push(MutRegion { start: 0, end: 0, reads, first_span: e.span, trailing_included: true });
            assert(r@ =~= body_regions(*body, ipa_view(ipa), f@, dflt));
            r
        },
        FnBody::External => Vec::new(),
    }
}

/// Reads of `@f` in a method body.
pub fn count_body_reads(body: &FnBody, f: &str) -> (r: usize)
    ensures
        r == body_reads(*body, f@),
{
    match body {
        FnBody::Block(b) => count_field_reads_in_block(b, f),
        FnBody::Expr(e) => count_field_reads_in_expr(e, f),
        FnBody::External => 0,
    }
}

/// A closure in the body reads `@f`.
pub fn body_captures_field(body: &FnBody, f: &str) -> (r: bool)
    ensures
        r == body_captures(*body, f@),
{
    match body {
        FnBody::Block(b) => captured_in_block(b, f),
        FnBody::Expr(e) => captured_in_expr(e, f),
        FnBody::External => false,
    }
}

/// Decides what a method caches, field by field in the order of `names`
/// (see `field_pick`).
pub fn plan_method(
    body: &FnBody,
    names: &Vec<String>,
    es: &Vec<FieldEntry>,
    cfg: &FieldCacheConfig,
    ipa: Option<(&WriteSets, &str)>,
    dflt: Span,
) -> (p: CachePlan)
    ensures
        (p.ro@.map_values(|s: String| s@), p.muts@.map_values(|t: MutTarget| target_view(t)), (p.ro@.len() + p.muts@.len()) as nat)
            == field_pick(names_view(names@), names@.len() as int, es@, *body, ipa_view(ipa), cfg.threshold as nat, cfg.max_per_fn as nat, dflt),
{
    let ghost ctx = ipa_view(ipa);
    let ghost nv = names_view(names@);
    let mut ro: Vec<String> = Vec::new();
    let mut muts: Vec<MutTarget> = Vec::new();
    let mut total: usize = 0;
    let mut i: usize = 0;
    while i < names.len()
        invariant
            i <= names@.len(),
            ctx == ipa_view(ipa),
            nv == names_view(names@),
            total == ro@.len() + muts@.len(),
            total <= cfg.max_per_fn || i == 0,
            (ro@.map_values(|s: String| s@), muts@.map_values(|t: MutTarget| target_view(t)), total as nat)
                == field_pick(nv, i as int, es@, *body, ctx, cfg.threshold as nat, cfg.max_per_fn as nat, dflt),
        decreases names@.len() - i,
    {
        let f = names[i].as_str();
        let ghost p = field_pick(nv, i as int, es@, *body, ctx, cfg.threshold as nat, cfg.max_per_fn as nat, dflt);
        assert(nv[i as int] == f@);
        if total >= cfg.max_per_fn {
            i = i + 1;
            continue;
        }
        let reads = count_body_reads(body, f);
        if reads == 0 || body_captures_field(body, f) {
            i = i + 1;
            continue;
        }
        match kind_of(es, f) {
            Some(FieldKind::Ro) => {
                if reads >= cfg.threshold {
                    let ghost ro0 = ro@;
                    ro.push(copy_str(f));
                    total = total + 1;
                    assert(ro@.map_values(|s: String| s@) =~= ro0.map_values(|s: String| s@).push(f@));
                }
            },
            Some(FieldKind::Mut) => {
                let rs = body_mut_regions(body, f, ipa, dflt);
                let ghost t0 = total as nat;
                let ghost m0 = muts@;
                let mut kept: usize = 0;
                let mut k: usize = 0;
                while k < rs.len()
                    invariant
                        k <= rs@.len(),
                        total == ro@.len() + muts@.len(),
                        m0.len() <= muts@.len(),
                        forall|j: int| 0 <= j < m0.len() ==> muts@[j] == m0[j],
                        total <= cfg.max_per_fn,
                        kept == muts@.len() - m0.len(),
                        (muts@.subrange(m0.len() as int, muts@.len() as int).map_values(|t: MutTarget| (t.region, t.region_idx as nat)), total as nat)
                            == region_pick(rs@, k as int, cfg.threshold as nat, cfg.max_per_fn as nat, t0),
                        forall|j: int| m0.len() <= j < muts@.len() ==> (#[trigger] muts@[j]).field@ == f@,
                    decreases rs@.len() - k,
                {
                    if total < cfg.max_per_fn && rs[k].reads >= cfg.threshold {
                        let ghost before = muts@;
                        muts.push(MutTarget { field: copy_str(f), region: rs[k], region_idx: kept });
                        kept = kept + 1;
                        total = total + 1;
                        assert(muts@.subrange(m0.len() as int, muts@.len() as int)
                            =~= before.subrange(m0.len() as int, before.len() as int).push(muts@[muts@.len() - 1]));
                    }
                    k = k + 1;
                }
                proof {
                    let q = region_pick(rs@, rs@.len() as int, cfg.threshold as nat, cfg.max_per_fn as nat, t0);
                    let added = muts@.subrange(m0.len() as int, muts@.len() as int);
                    assert(muts@ =~= m0 + added);
                    let av = added.map_values(|t: MutTarget| target_view(t));
                    let qv = q.0.map_values(|x: (MutRegion, nat)| (f@, x.0, x.1));
                    let rv = added.map_values(|t: MutTarget| (t.region, t.region_idx as nat));
                    assert(rv == q.0);
                    assert forall|j: int| 0 <= j < added.len() implies #[trigger] av[j] == qv[j] by {
                        assert(rv[j] == q.0[j]);
                        assert(added[j] == muts@[m0.len() + j]);
                    }
                    assert(av =~= qv);
                    assert(muts@.map_values(|t: MutTarget| target_view(t))
                        =~= m0.map_values(|t: MutTarget| target_view(t)) + added.map_values(|t: MutTarget| target_view(t)));
                }
            },
            None => {},
        }
        i = i + 1;
    }
    CachePlan { ro, muts }
}

/// The number of statements of a body taken as a block.
pub open spec fn body_stmt_count(b: FnBody) -> int {
    match b {
        FnBody::Block(bl) => bl.stmts@.len() as int,
        _ => 0,
    }
}

proof fn lemma_region_scan_starts(stmts: Seq<Stmt>, i: int, ctx: Option<IpaView>, f: Seq<char>, dflt: Span)
    requires
        0 <= i <= stmts.len(),
        stmts.len() <= usize::MAX,
    ensures
        forall|q: int| 0 <= q < region_scan(stmts, i, ctx, f, dflt).0.len()
            ==> (#[trigger] region_scan(stmts, i, ctx, f, dflt).0[q]).start <= i,
        region_scan(stmts, i, ctx, f, dflt).1 <= i,
    decreases i,
{
    if i > 0 {
        lemma_region_scan_starts(stmts, i - 1, ctx, f, dflt);
        lemma_region_scan_bounds(stmts, i - 1, ctx, f, dflt);
    }
}

/// Every region of a body starts at or before the end of its statements.
pub proof fn lemma_body_regions_start(b: FnBody, ctx: Option<IpaView>, f: Seq<char>, dflt: Span)
    ensures
        forall|q: int| 0 <= q < body_regions(b, ctx, f, dflt).len()
            ==> (#[trigger] body_regions(b, ctx, f, dflt)[q]).start <= body_stmt_count(b),
{
    match b {
        FnBody::Block(bl) => {
            let n = bl.stmts@.len() as int;
            assert(bl.stmts@.len() == bl.stmts.len());
            lemma_region_scan_starts(bl.stmts@, n, ctx, f, dflt);
            lemma_region_scan_bounds(bl.stmts@, n, ctx, f, dflt);
        },
        _ => {},
    }
}

proof fn lemma_region_pick_from(rs: Seq<MutRegion>, k: int, thr: nat, max: nat, total: nat, bound: int)
    requires
        0 <= k <= rs.len(),
        forall|q: int| 0 <= q < rs.len() ==> (#[trigger] rs[q]).start <= bound,
    ensures
        forall|q: int| 0 <= q < region_pick(rs, k, thr, max, total).0.len()
            ==> (#[trigger] region_pick(rs, k, thr, max, total).0[q]).0.start <= bound,
        region_pick(rs, k, thr, max, total).1 >= total,
        region_pick(rs, k, thr, max, total).1 == total + region_pick(rs, k, thr, max, total).0.len(),
    decreases k,
{
    if k > 0 {
        lemma_region_pick_from(rs, k - 1, thr, max, total, bound);
    }
}

/// Every region chosen for a method starts at or before the end of its
/// statements, and the count of chosen locals is that of the plan.
pub proof fn lemma_field_pick_starts(
    names: Seq<Seq<char>>,
    k: int,
    es: Seq<FieldEntry>,
    body: FnBody,
    ctx: Option<IpaView>,
    thr: nat,
    max: nat,
    dflt: Span,
)
    requires
        0 <= k <= names.len(),
    ensures
        forall|q: int| 0 <= q < field_pick(names, k, es, body, ctx, thr, max, dflt).1.len()
            ==> (#[trigger] field_pick(names, k, es, body, ctx, thr, max, dflt).1[q]).1.start <= body_stmt_count(body),
        field_pick(names, k, es, body, ctx, thr, max, dflt).2
            == field_pick(names, k, es, body, ctx, thr, max, dflt).0.len() + field_pick(names, k, es, body, ctx, thr, max, dflt).1.len(),
    decreases k,
{
    if k > 0 {
        lemma_field_pick_starts(names, k - 1, es, body, ctx, thr, max, dflt);
        let p = field_pick(names, k - 1, es, body, ctx, thr, max, dflt);
        let f = names[k - 1];
        let rs = body_regions(body, ctx, f, dflt);
        lemma_body_regions_start(body, ctx, f, dflt);
        lemma_region_pick_from(rs, rs.len() as int, thr, max, p.2, body_stmt_count(body));
        let r = field_pick(names, k, es, body, ctx, thr, max, dflt);
        if !(p.2 >= max || body_reads(body, f) == 0 || body_captures(body, f)) {
            if entry_kind(es, es.len() as int, f) == Some(FieldKind::Mut) {
                let qq = region_pick(rs, rs.len() as int, thr, max, p.2);
                let added = qq.0.map_values(|x: (MutRegion, nat)| (f, x.0, x.1));
                assert(r.1 == p.1 + added);
                assert forall|q: int| 0 <= q < r.1.len() implies (#[trigger] r.1[q]).1.start <= body_stmt_count(body) by {
                    if q >= p.1.len() {
                        assert(r.1[q] == added[q - p.1.len()]);
                        assert(added[q - p.1.len()].1 == qq.0[q - p.1.len()].0);
                    } else {
                        assert(r.1[q] == p.1[q]);
                    }
                }
            }
        }
    }
}

} // verus!
