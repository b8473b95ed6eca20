//! Caching of pure-method calls: a call `@m(..)` of a pure method of the
//! receiver type with literal arguments, made often enough and in no
//! closure, is made once into `_at_<m><args>_call` at the start of the body
//! and its occurrences read that local.
//!
//! Without read sets the pass only runs on bodies that assign no receiver
//! field; with them a call is kept only when the body assigns no field that
//! the method reads (itself or through the methods it calls).

use vstd::prelude::*;
use crate::ast::{Block, Expr, ExprKind, FnBody, FnDecl, Item, LetDecl, Module, Pattern, Purity, ReceiverKind, Span, Stmt};
use crate::field_cache::collect::{add_name, has_name};
use crate::field_cache::frame::{field_write_block, field_write_collect_block, field_write_collect_expr, field_write_expr};
use crate::field_cache::ipa::{call_invalidates_field, call_may_write, contains_name, names_view, IpaView, MethodFields, WriteSets};
use crate::field_cache::literal_key::{ident_key, sanitize_args_key_for_ident};
use crate::field_cache::method::{body_span, body_span_of, coerced, lemma_taken_ext, same_header, taken_in};
use crate::field_cache::names::{chosen_name, fresh_name, method_binds, method_local_names};
use crate::field_cache::nested::at_block;
use crate::field_cache::plan::{span_or, FieldCacheConfig, FieldRegistry};
use crate::field_cache::pure_rewrite::{
    keys_unique, pure_first_block, pure_locals_view, pure_replaced_expr, pure_replaced_stmt, pure_replaced_stmts, pure_rewrite_block,
    PureLocal,
};
use crate::field_cache::pure_scan::{collect_pure_block, collect_pure_expr, pure_in_block, pure_in_expr, scan_pure_block, scan_pure_expr};
use crate::field_cache::purity::{body_spawns, spawns_in_block, spawns_in_expr};
use crate::field_cache::reads::cap;
use crate::field_cache::scc_cache::pairs_view;
use crate::field_cache::writeset::{instance_methods, is_instance_method, module_methods, owner_of, peer_methods};
use crate::order::{increasing, lemma_increasing_all, lemma_pair_order, pair_lt};
use crate::text::{copy_str, push_char, push_str};

verus! {

/// A key of a pure call: the method and the key of its arguments.
pub open spec fn key_view(k: (String, String)) -> (Seq<char>, Seq<char>) {
    (k.0@, k.1@)
}

/// The pass works on method `f`: an instance method, not external, whose
/// receiver type is not skipped.
pub open spec fn pure_applies(f: FnDecl, reg: FieldRegistry) -> bool {
    match f.receiver {
        Some(r) => r.kind == ReceiverKind::Instance && !has_name(reg.skip_types@, r.owner_type@) && !f.is_external,
        None => false,
    }
}

/// Occurrences of the pure call `key` in a body and the first one's range
/// (see `pure_in_expr`).
pub open spec fn body_pure(b: FnBody, key: (Seq<char>, Seq<char>), pm: Set<(Seq<char>, Seq<char>)>, t: Seq<char>, all: bool) -> (nat, Option<Span>) {
    match b {
        FnBody::Block(bl) => pure_in_block(bl, key, pm, t, all),
        FnBody::Expr(e) => pure_in_expr(e, key, pm, t, all),
        FnBody::External => (0, None),
    }
}

/// The call `key` occurs in a closure: counted with closures it occurs more
/// often than without (counts capped at `usize::MAX`).
pub open spec fn pure_captured(b: FnBody, key: (Seq<char>, Seq<char>), pm: Set<(Seq<char>, Seq<char>)>, t: Seq<char>) -> bool {
    cap(body_pure(b, key, pm, t, true).0) > cap(body_pure(b, key, pm, t, false).0)
}

/// The body assigns the receiver field `w` (literals included, closures not).
pub open spec fn body_field_writes(b: FnBody, w: Seq<char>) -> bool {
    match b {
        FnBody::Block(bl) => field_write_block(bl, w),
        FnBody::Expr(e) => field_write_expr(e, w),
        FnBody::External => false,
    }
}

/// The body assigns some receiver field.
pub open spec fn body_writes_some(b: FnBody) -> bool {
    exists|w: Seq<char>| #[trigger] body_field_writes(b, w)
}

/// The body assigns a field that method `m` of `t` may read by the read
/// sets `rs` (a method without a read set may read any field).
pub open spec fn frame_blocked(b: FnBody, rs: Seq<MethodFields>, t: Seq<char>, m: Seq<char>) -> bool {
    exists|w: Seq<char>| #[trigger] body_field_writes(b, w) && call_may_write(IpaView { entries: rs, recv: t }, m, w)
}

/// The keys among `keys[0..k]` (in order) whose calls get a local, with the
/// range of their first call: made at least the threshold times and in no
/// closure; with read sets `rs`, not blocked by the body's field writes.
/// Once a key is taken and the budget is used up, no more are.
pub open spec fn pure_pick(
    keys: Seq<(Seq<char>, Seq<char>)>,
    k: int,
    b: FnBody,
    cfg: FieldCacheConfig,
    pm: Set<(Seq<char>, Seq<char>)>,
    t: Seq<char>,
    rs: Option<Seq<MethodFields>>,
    dflt: Span,
) -> Seq<((Seq<char>, Seq<char>), Span)>
    decreases k,
{
    if k <= 0 {
        Seq::empty()
    } else {
        let r = pure_pick(keys, k - 1, b, cfg, pm, t, rs, dflt);
        let key = keys[k - 1];
        let outside = body_pure(b, key, pm, t, false);
        if r.len() > 0 && r.len() >= cfg.max_per_fn {
            r
        } else if outside.0 < cfg.pure_threshold || pure_captured(b, key, pm, t)
            || (rs matches Some(e) && frame_blocked(b, e, t, key.0)) {
            r
        } else {
            r.push((key, span_or(outside.1, dflt)))
        }
    }
}

/// The local name for the call `key` before it is made unique:
/// `_at_<method><args key as identifier>_call`.
pub open spec fn pure_local_base(key: (Seq<char>, Seq<char>)) -> Seq<char> {
    seq!['_', 'a', 't', '_'] + key.0 + ident_key(key.1) + seq!['_', 'c', 'a', 'l', 'l']
}

/// The locals of the calls `tc`, each made unique against the names of `f`
/// and the locals before it.
pub open spec fn pure_locals_for(f: FnDecl, tc: Seq<((Seq<char>, Seq<char>), Span)>, locals: Seq<Seq<char>>) -> bool {
    &&& locals.len() == tc.len()
    &&& forall|i: int| 0 <= i < tc.len() ==> chosen_name(taken_in(f, locals.subrange(0, i)), pure_local_base(tc[i].0), #[trigger] locals[i])
}

/// `s` is `let local = @method(args)` at `span`, with the arguments `args`
/// (none when there are none to take).
pub open spec fn is_pure_let(s: Stmt, local: Seq<char>, method: Seq<char>, args: Option<Vec<Expr>>, span: Span) -> bool {
    &&& s matches Stmt::Let(d)
    &&& !d.mutable
    &&& d.ty is None
    &&& d.span == span
    &&& d.pattern matches Pattern::Ident { name, is_mut } && name@ == local && !is_mut
    &&& d.value.span == span
    &&& d.value.kind matches ExprKind::Call { func, args: a2 } && func.span == span
        && (func.kind matches ExprKind::Member { obj, name } && name@ == method && obj.kind is SelfAccess && obj.span == span)
        && a2@ == match args {
            Some(a) => a@,
            None => Seq::empty(),
        }
}

/// The pairs `(key, local)` of the cached calls.
pub open spec fn pure_map(tc: Seq<((Seq<char>, Seq<char>), Span)>, locals: Seq<Seq<char>>) -> Seq<((Seq<char>, Seq<char>), Seq<char>)> {
    Seq::new(tc.len(), |i: int| (tc[i].0, locals[i]))
}

/// `b` is block `a` with the lets of the calls `tc` in front (each with the
/// arguments of the first such call in `a`), and those calls replaced by
/// their locals.
pub open spec fn pure_block_after(
    a: Block,
    b: Block,
    tc: Seq<((Seq<char>, Seq<char>), Span)>,
    locals: Seq<Seq<char>>,
    pm: Set<(Seq<char>, Seq<char>)>,
    t: Seq<char>,
) -> bool {
    let nc = tc.len() as int;
    let m = pure_map(tc, locals);
    &&& b.span == a.span
    &&& b.stmts@.len() == nc + a.stmts@.len()
    &&& forall|i: int| 0 <= i < nc ==> is_pure_let(#[trigger] b.stmts@[i], locals[i], tc[i].0.0, pure_first_block(a, tc[i].0, pm, t), tc[i].1)
    &&& forall|i: int| 0 <= i < a.stmts@.len() ==> pure_replaced_stmt(a.stmts@[i], #[trigger] b.stmts@[nc + i], m, pm, t)
    &&& match a.trailing {
        Some(x) => b.trailing matches Some(y) && pure_replaced_expr(*x, *y, m, pm, t),
        None => b.trailing is None,
    }
}

/// `new` is method `old` after pure-call caching with the pure methods `pm`
/// and, when given, the read sets `rs`: unchanged when the pass does not
/// apply, the body starts concurrent work, the body assigns a receiver field
/// and no read sets are given, or no call is chosen; otherwise its body is a
/// block with the lets and replaced calls that the keys chosen (from the
/// keys of the body in increasing order) call for.
pub open spec fn pure_cached(
    old: FnDecl,
    new: FnDecl,
    reg: FieldRegistry,
    cfg: FieldCacheConfig,
    pm: Set<(Seq<char>, Seq<char>)>,
    rs: Option<Seq<MethodFields>>,
) -> bool {
    if !pure_applies(old, reg) {
        new == old
    } else if body_spawns(old.body) || (rs is None && body_writes_some(old.body)) {
        new == old
    } else {
        let t = owner_of(old);
        exists|keys: Seq<(Seq<char>, Seq<char>)>| #[trigger] increasing(keys, pair_lt())
            && (forall|q: (Seq<char>, Seq<char>)| #[trigger] keys.contains(q) <==> body_pure(old.body, q, pm, t, false).0 > 0)
            && {
            let tc = pure_pick(keys, keys.len() as int, old.body, cfg, pm, t, rs, body_span_of(old.body));
            if tc.len() == 0 {
                new == old
            } else {
                &&& same_header(old, new)
                &&& exists|blk: Block, b: Block, locals: Seq<Seq<char>>| #![trigger pure_locals_for(old, tc, locals), coerced(old.body, blk), at_block(b)]
                    new.body == FnBody::Block(b) && coerced(old.body, blk) && pure_locals_for(old, tc, locals)
                        && pure_block_after(blk, b, tc, locals, pm, t)
            }
        }
    }
}

/// The pure instance methods `(type, name)` among `ds`.
pub open spec fn pure_methods_in(ds: Seq<FnDecl>) -> Set<(Seq<char>, Seq<char>)> {
    Set::new(|p: (Seq<char>, Seq<char>)| exists|i: int| 0 <= i < ds.len() && (#[trigger] ds[i]).purity == Purity::Pure
        && owner_of(ds[i]) == p.0 && ds[i].name@ == p.1)
}

proof fn lemma_pure_methods_push(s: Seq<FnDecl>, d: FnDecl)
    ensures
        forall|p: (Seq<char>, Seq<char>)| #[trigger] pure_methods_in(s.push(d)).contains(p) <==> pure_methods_in(s).contains(p)
            || (d.purity == Purity::Pure && owner_of(d) == p.0 && d.name@ == p.1),
{
    let s2 = s.push(d);
    assert forall|p: (Seq<char>, Seq<char>)| #[trigger] pure_methods_in(s2).contains(p) <==> pure_methods_in(s).contains(p)
        || (d.purity == Purity::Pure && owner_of(d) == p.0 && d.name@ == p.1) by {
        if pure_methods_in(s2).contains(p) {
            let i = choose|i: int| 0 <= i < s2.len() && (#[trigger] s2[i]).purity == Purity::Pure && owner_of(s2[i]) == p.0 && s2[i].name@ == p.1;
            if i < s.len() {
                assert(s[i] == s2[i]);
            }
        }
        if pure_methods_in(s).contains(p) {
            let i = choose|i: int| 0 <= i < s.len() && (#[trigger] s[i]).purity == Purity::Pure && owner_of(s[i]) == p.0 && s[i].name@ == p.1;
            assert(s2[i] == s[i]);
        }
        if d.purity == Purity::Pure && owner_of(d) == p.0 && d.name@ == p.1 {
            assert(s2[s.len() as int] == d);
        }
    }
}

proof fn lemma_pure_methods_concat(a: Seq<FnDecl>, b: Seq<FnDecl>)
    ensures
        forall|p: (Seq<char>, Seq<char>)| #[trigger] pure_methods_in(a + b).contains(p) <==> pure_methods_in(a).contains(p)
            || pure_methods_in(b).contains(p),
{
    let c = a + b;
    assert forall|p: (Seq<char>, Seq<char>)| #[trigger] pure_methods_in(c).contains(p) <==> pure_methods_in(a).contains(p)
        || pure_methods_in(b).contains(p) by {
        if pure_methods_in(c).contains(p) {
            let i = choose|i: int| 0 <= i < c.len() && (#[trigger] c[i]).purity == Purity::Pure && owner_of(c[i]) == p.0 && c[i].name@ == p.1;
            if i < a.len() {
                assert(a[i] == c[i]);
            } else {
                assert(b[i - a.len()] == c[i]);
            }
        }
        if pure_methods_in(a).contains(p) {
            let i = choose|i: int| 0 <= i < a.len() && (#[trigger] a[i]).purity == Purity::Pure && owner_of(a[i]) == p.0 && a[i].name@ == p.1;
            assert(c[i] == a[i]);
        }
        if pure_methods_in(b).contains(p) {
            let i = choose|i: int| 0 <= i < b.len() && (#[trigger] b[i]).purity == Purity::Pure && owner_of(b[i]) == p.0 && b[i].name@ == p.1;
            assert(c[a.len() + i] == b[i]);
        }
    }
}

/// Adds to `out` the pure instance methods among `items`.
pub fn register_pure_items(items: &Vec<Item>, out: &mut Vec<(String, String)>)
    ensures
        forall|p: (Seq<char>, Seq<char>)| #[trigger] pairs_view(final(out)@).contains(p) <==> pairs_view(old(out)@).contains(p)
            || pure_methods_in(instance_methods(items@)).contains(p),
{
    let ghost o = pairs_view(old(out)@);
    let mut j: usize = 0;
    assert(instance_methods(items@.subrange(0, 0)) =~= Seq::<FnDecl>::empty());
    while j < items.len()
        invariant
            j <= items.len(),
            o == pairs_view(old(out)@),
            forall|p: (Seq<char>, Seq<char>)| #[trigger] pairs_view(out@).contains(p) <==> o.contains(p)
                || pure_methods_in(instance_methods(items@.subrange(0, j as int))).contains(p),
        decreases items.len() - j,
    {
        let ghost before = instance_methods(items@.subrange(0, j as int));
        let ghost out0 = pairs_view(out@);
        assert(items@.subrange(0, j as int + 1).drop_last() =~= items@.subrange(0, j as int));
        assert(items@.subrange(0, j as int + 1).last() == items@[j as int]);
        match &items[j] {
            Item::Fn(d) => {
                let inst = match &d.receiver {
                    Some(r) => match r.kind {
                        ReceiverKind::Instance => true,
                        ReceiverKind::Static => false,
                    },
                    None => false,
                };
                if inst {
                    assert(instance_methods(items@.subrange(0, j as int + 1)) =~= before.push(*d));
                    proof { lemma_pure_methods_push(before, *d); }
                    let pure = match d.purity {
                        Purity::Pure => true,
                        Purity::Impure => false,
                    };
                    if pure {
                        let owner = match &d.receiver {
                            Some(r) => copy_str(r.owner_type.as_str()),
                            None => String::new(),
                        };
                        out.push((owner, copy_str(d.name.as_str())));
                        proof {
                            let x = (owner_of(*d), d.name@);
                            assert(pairs_view(out@) =~= out0.push(x));
                            assert forall|p: (Seq<char>, Seq<char>)| #[trigger] pairs_view(out@).contains(p) <==> out0.contains(p) || p == x by {
                                if pairs_view(out@).contains(p) {
                                    let i = choose|i: int| 0 <= i < pairs_view(out@).len() && pairs_view(out@)[i] == p;
                                    if i < out0.len() {
                                        assert(out0[i] == p);
                                    }
                                }
                                if out0.contains(p) {
                                    let i = choose|i: int| 0 <= i < out0.len() && out0[i] == p;
                                    assert(pairs_view(out@)[i] == p);
                                }
                                if p == x {
                                    assert(pairs_view(out@)[out0.len() as int] == p);
                                }
                            }
                        }
                    }
                } else {
                    assert(instance_methods(items@.subrange(0, j as int + 1)) =~= before);
                }
            },
            _ => {
                assert(instance_methods(items@.subrange(0, j as int + 1)) =~= before);
            },
        }
        j = j + 1;
    }
    assert(items@.subrange(0, items@.len() as int) =~= items@);
}

/// The pure instance methods `(type, name)` of a module.
pub fn build_pure_methods_registry(module: &Module) -> (r: Vec<(String, String)>)
    ensures
        pairs_view(r@).to_set() == pure_methods_in(module_methods(*module)),
{
    let mut r: Vec<(String, String)> = Vec::new();
    register_pure_items(&module.items, &mut r);
    let ghost own = instance_methods(module.items@);
    let mut p: usize = 0;
    assert(peer_methods(module.peer_files@.subrange(0, 0)) =~= Seq::<FnDecl>::empty());
    proof { lemma_pure_methods_concat(own, Seq::<FnDecl>::empty()); assert(own + Seq::<FnDecl>::empty() =~= own); }
    while p < module.peer_files.len()
        invariant
            p <= module.peer_files.len(),
            own == instance_methods(module.items@),
            forall|q: (Seq<char>, Seq<char>)| #[trigger] pairs_view(r@).contains(q)
                <==> pure_methods_in(own + peer_methods(module.peer_files@.subrange(0, p as int))).contains(q),
        decreases module.peer_files.len() - p,
    {
        let ghost before = peer_methods(module.peer_files@.subrange(0, p as int));
        let ghost more = instance_methods(module.peer_files@[p as int].items_here@);
        assert(module.peer_files@.subrange(0, p as int + 1).drop_last() =~= module.peer_files@.subrange(0, p as int));
        register_pure_items(&module.peer_files[p].items_here, &mut r);
        proof {
            assert(peer_methods(module.peer_files@.subrange(0, p as int + 1)) =~= before + more);
            assert(own + (before + more) =~= (own + before) + more);
            lemma_pure_methods_concat(own + before, more);
        }
        p = p + 1;
    }
    assert(module.peer_files@.subrange(0, module.peer_files@.len() as int) =~= module.peer_files@);
    assert(pairs_view(r@).to_set() =~= pure_methods_in(module_methods(*module)));
    r
}

/// `_at_<method><args key as identifier>_call`.
fn make_pure_base(m: &str, a: &str) -> (r: String)
    ensures
        r@ == pure_local_base((m@, a@)),
{
    let mut r = String::new();
    push_char(&mut r, '_');
    push_char(&mut r, 'a');
    push_char(&mut r, 't');
    push_char(&mut r, '_');
    push_str(&mut r, m);
    let id = sanitize_args_key_for_ident(a);
    push_str(&mut r, id.as_str());
    push_char(&mut r, '_');
    push_char(&mut r, 'c');
    push_char(&mut r, 'a');
    push_char(&mut r, 'l');
    push_char(&mut r, 'l');
    assert(r@ =~= pure_local_base((m@, a@)));
    r
}

fn body_pure_exec(b: &FnBody, pm: &Vec<(String, String)>, t: &str, km: &str, ka: &str, all: bool) -> (r: (usize, Option<Span>))
    ensures
        r.0 == cap(body_pure(*b, (km@, ka@), pairs_view(pm@).to_set(), t@, all).0),
        r.1 == body_pure(*b, (km@, ka@), pairs_view(pm@).to_set(), t@, all).1,
{
    match b {
        FnBody::Block(bl) => scan_pure_block(bl, pm, t, km, ka, all),
        FnBody::Expr(e) => scan_pure_expr(e, pm, t, km, ka, all),
        FnBody::External => (0, None),
    }
}

/// Whether the body writes `writes` (all the fields it assigns) block the
/// call of method `m` of `t` by the read sets `rs`.
fn blocked_by(writes: &Vec<String>, rs: &WriteSets, t: &str, m: &str) -> (r: bool)
    ensures
        r == exists|j: int| 0 <= j < writes@.len() && call_may_write(IpaView { entries: rs.entries@, recv: t@ }, m@, #[trigger] writes@[j]@),
{
    let mut j: usize = 0;
    while j < writes.len()
        invariant
            j <= writes@.len(),
            forall|q: int| 0 <= q < j ==> !call_may_write(IpaView { entries: rs.entries@, recv: t@ }, m@, #[trigger] writes@[q]@),
        decreases writes@.len() - j,
    {
        if call_invalidates_field(rs, t, m, writes[j].as_str()) {
            return true;
        }
        j = j + 1;
    }
    false
}

/// The entries `(key, range)` by their characters.
pub open spec fn pure_entries_view(tc: Seq<((String, String), Span)>) -> Seq<((Seq<char>, Seq<char>), Span)> {
    tc.map_values(|e: ((String, String), Span)| (key_view(e.0), e.1))
}

proof fn lemma_blocked_iff(writes: Seq<String>, b: FnBody, rs: Seq<MethodFields>, t: Seq<char>, m: Seq<char>)
    requires
        forall|w: Seq<char>| #[trigger] has_name(writes, w) <==> body_field_writes(b, w),
    ensures
        (exists|j: int| 0 <= j < writes.len() && call_may_write(IpaView { entries: rs, recv: t }, m, #[trigger] writes[j]@))
            <==> frame_blocked(b, rs, t, m),
{
    if exists|j: int| 0 <= j < writes.len() && call_may_write(IpaView { entries: rs, recv: t }, m, #[trigger] writes[j]@) {
        let j = choose|j: int| 0 <= j < writes.len() && call_may_write(IpaView { entries: rs, recv: t }, m, #[trigger] writes[j]@);
        assert(names_view(writes)[j] == writes[j]@);
        assert(has_name(writes, writes[j]@));
        assert(body_field_writes(b, writes[j]@));
    }
    if frame_blocked(b, rs, t, m) {
        let w = choose|w: Seq<char>| #[trigger] body_field_writes(b, w) && call_may_write(IpaView { entries: rs, recv: t }, m, w);
        assert(has_name(writes, w));
        let j = choose|j: int| 0 <= j < names_view(writes).len() && names_view(writes)[j] == w;
        assert(writes[j]@ == w);
    }
}

proof fn lemma_pure_pick_stops(
    keys: Seq<(Seq<char>, Seq<char>)>, i: int, j: int, b: FnBody, cfg: FieldCacheConfig,
    pm: Set<(Seq<char>, Seq<char>)>, t: Seq<char>, rs: Option<Seq<MethodFields>>, dflt: Span,
)
    requires
        0 <= i <= j,
        pure_pick(keys, i, b, cfg, pm, t, rs, dflt).len() > 0,
        pure_pick(keys, i, b, cfg, pm, t, rs, dflt).len() >= cfg.max_per_fn,
    ensures
        pure_pick(keys, j, b, cfg, pm, t, rs, dflt) == pure_pick(keys, i, b, cfg, pm, t, rs, dflt),
    decreases j - i,
{
    if j > i {
        lemma_pure_pick_stops(keys, i, j - 1, b, cfg, pm, t, rs, dflt);
    }
}

/// `let local = @method(args)` at `span`.
fn pure_let(local: &str, method: &str, args: Option<Vec<Expr>>, span: Span) -> (s: Stmt)
    ensures
        is_pure_let(s, local@, method@, args, span),
{
    let a = match args {
        Some(v) => v,
        None => Vec::new(),
    };
    let recv = Expr { kind: ExprKind::SelfAccess, span };
    let func = Expr { kind: ExprKind::Member { obj: Box::new(recv), name: copy_str(method) }, span };
    let value = Expr { kind: ExprKind::Call { func: Box::new(func), args: a }, span };
    Stmt::Let(LetDecl { mutable: false, pattern: Pattern::Ident { name: copy_str(local), is_mut: false }, ty: None, value, span })
}

/// Caches the pure calls of one method (see `pure_cached`); `pm` holds the
/// pure methods of the module, `rs` its read sets when they are used.
pub fn cache_pure_calls(f: &mut FnDecl, reg: &FieldRegistry, cfg: &FieldCacheConfig, pm: &Vec<(String, String)>, rs: Option<&WriteSets>)
    ensures
        pure_cached(*old(f), *final(f), *reg, *cfg, pairs_view(pm@).to_set(), match rs {
            Some(w) => Some(w.entries@),
            None => None,
        }),
{
    let ghost f0 = *f;
    let ghost pmv = pairs_view(pm@).to_set();
    let ghost rsv: Option<Seq<MethodFields>> = match rs {
        Some(w) => Some(w.entries@),
        None => None,
    };
    let owner: String = match &f.receiver {
        Some(r) => {
            match r.kind {
                ReceiverKind::Instance => {},
                ReceiverKind::Static => {
                    return;
                },
            }
            if contains_name(&reg.skip_types, r.owner_type.as_str()) {
                return;
            }
            copy_str(r.owner_type.as_str())
        },
        None => {
            return;
        },
    };
    if f.is_external {
        return;
    }
    let ghost t = owner_of(f0);
    assert(pure_applies(f0, *reg));
    assert(owner@ == t);
    let spawns = match &f.body {
        FnBody::Block(b) => spawns_in_block(b),
        FnBody::Expr(e) => spawns_in_expr(e),
        FnBody::External => false,
    };
    if spawns {
        return;
    }
    let mut writes: Vec<String> = Vec::new();
    proof {
        assert(names_view(writes@) =~= Seq::<Seq<char>>::empty());
    }
    match &f.body {
        FnBody::Block(b) => field_write_collect_block(b, &mut writes),
        FnBody::Expr(e) => field_write_collect_expr(e, &mut writes),
        FnBody::External => {},
    }
    assert(forall|w: Seq<char>| #[trigger] has_name(writes@, w) <==> body_field_writes(f0.body, w));
    if rs.is_none() && writes.len() > 0 {
        proof {
            assert(names_view(writes@)[0] == writes@[0]@);
            assert(has_name(writes@, writes@[0]@));
            assert(body_field_writes(f0.body, writes@[0]@));
        }
        return;
    }
    proof {
        if rs is None {
            assert forall|w: Seq<char>| !#[trigger] body_field_writes(f0.body, w) by {
                assert(names_view(writes@).len() == 0);
                assert(!has_name(writes@, w));
            }
        }
    }
    let mut keys: Vec<(String, String)> = Vec::new();
    proof {
        assert(pairs_view(keys@) =~= Seq::<(Seq<char>, Seq<char>)>::empty());
    }
    match &f.body {
        FnBody::Block(b) => collect_pure_block(b, pm, owner.as_str(), &mut keys),
        FnBody::Expr(e) => collect_pure_expr(e, pm, owner.as_str(), &mut keys),
        FnBody::External => {},
    }
    let ghost kv = pairs_view(keys@);
    assert(forall|q: (Seq<char>, Seq<char>)| #[trigger] kv.contains(q) <==> body_pure(f0.body, q, pmv, t, false).0 > 0);
    let span = body_span(&f.body);
    let mut tc: Vec<((String, String), Span)> = Vec::new();
    let mut i: usize = 0;
    proof {
        assert(pure_entries_view(tc@) =~= Seq::<((Seq<char>, Seq<char>), Span)>::empty());
        lemma_pair_order();
        lemma_increasing_all(kv, pair_lt());
    }
    while i < keys.len() && !(tc.len() > 0 && tc.len() >= cfg.max_per_fn)
        invariant
            kv == pairs_view(keys@),
            increasing(kv, pair_lt()),
            forall|a: int, b: int| 0 <= a < b < kv.len() ==> (pair_lt())(kv[a], kv[b]),
            i <= keys@.len(),
            f0 == *f,
            t == owner@,
            pmv == pairs_view(pm@).to_set(),
            rsv == match rs {
                Some(w) => Some(w.entries@),
                None => None,
            },
            forall|w: Seq<char>| #[trigger] has_name(writes@, w) <==> body_field_writes(f0.body, w),
            span == body_span_of(f0.body),
            pure_entries_view(tc@) == pure_pick(kv, i as int, f0.body, *cfg, pmv, t, rsv, span),
            forall|q: int| 0 <= q < tc@.len() ==> exists|a: int| 0 <= a < i && #[trigger] key_view(tc@[q].0) == kv[a],
            forall|q1: int, q2: int| 0 <= q1 < q2 < tc@.len() ==> (pair_lt())(key_view(#[trigger] tc@[q1].0), key_view(#[trigger] tc@[q2].0)),
        decreases keys@.len() - i,
    {
        let k = &keys[i];
        assert(kv[i as int] == key_view(*k));
        let out = body_pure_exec(&f.body, pm, owner.as_str(), k.0.as_str(), k.1.as_str(), false);
        let all = body_pure_exec(&f.body, pm, owner.as_str(), k.0.as_str(), k.1.as_str(), true);
        let blocked = match rs {
            Some(w) => blocked_by(&writes, w, owner.as_str(), k.0.as_str()),
            None => false,
        };
        proof {
            match rs {
                Some(w) => lemma_blocked_iff(writes@, f0.body, w.entries@, t, k.0@),
                None => {},
            }
        }
        if out.0 >= cfg.pure_threshold && !(all.0 > out.0) && !blocked {
            let first = match out.1 {
                Some(s) => s,
                None => span,
            };
            let ghost t0 = pure_entries_view(tc@);
            let ghost tc0 = tc@;
            tc.push(((copy_str(k.0.as_str()), copy_str(k.1.as_str())), first));
            proof {
                assert(pure_entries_view(tc@) =~= t0.push((key_view(*k), first)));
                assert forall|q: int| 0 <= q < tc@.len() implies exists|a: int| 0 <= a < i + 1 && #[trigger] key_view(tc@[q].0) == kv[a] by {
                    if q < tc0.len() {
                        assert(tc@[q] == tc0[q]);
                        let a = choose|a: int| 0 <= a < i && #[trigger] key_view(tc0[q].0) == kv[a];
                        assert(key_view(tc@[q].0) == kv[a]);
                    } else {
                        assert(key_view(tc@[q].0) == kv[i as int]);
                    }
                }
                assert forall|q1: int, q2: int| 0 <= q1 < q2 < tc@.len() implies (pair_lt())(key_view(#[trigger] tc@[q1].0), key_view(#[trigger] tc@[q2].0)) by {
                    if q2 == tc0.len() {
                        assert(tc@[q1] == tc0[q1]);
                        let a = choose|a: int| 0 <= a < i && #[trigger] key_view(tc0[q1].0) == kv[a];
                        assert(key_view(tc@[q2].0) == kv[i as int]);
                        assert((pair_lt())(kv[a], kv[i as int]));
                    } else {
                        assert(tc@[q1] == tc0[q1] && tc@[q2] == tc0[q2]);
                    }
                }
            }
        }
        i = i + 1;
    }
    proof {
        if i < keys@.len() {
            lemma_pure_pick_stops(kv, i as int, kv.len() as int, f0.body, *cfg, pmv, t, rsv, span);
        }
    }
    if tc.len() == 0 {
        return;
    }
    let ghost tv = pure_entries_view(tc@);
    proof {
        lemma_pair_order();
        assert forall|a: int, b: int| 0 <= a < tv.len() && 0 <= b < tv.len() && a != b implies (#[trigger] tv[a]).0 != (#[trigger] tv[b]).0 by {
            assert(tv[a].0 == key_view(tc@[a].0) && tv[b].0 == key_view(tc@[b].0));
            if a < b {
                assert((pair_lt())(key_view(tc@[a].0), key_view(tc@[b].0)));
            } else {
                assert((pair_lt())(key_view(tc@[b].0), key_view(tc@[a].0)));
            }
        }
    }
    let mut used = method_local_names(f);
    let mut locals: Vec<String> = Vec::new();
    let mut q: usize = 0;
    while q < tc.len()
        invariant
            q <= tc@.len(),
            tv == pure_entries_view(tc@),
            locals@.len() == q,
            forall|x: Seq<char>| #[trigger] has_name(used@, x) <==> method_binds(f0, x) || names_view(locals@).contains(x),
            forall|i2: int| 0 <= i2 < q ==> chosen_name(taken_in(f0, names_view(locals@).subrange(0, i2)), pure_local_base(tv[i2].0),
                #[trigger] names_view(locals@)[i2]),
        decreases tc@.len() - q,
    {
        let base = make_pure_base(tc[q].0.0.as_str(), tc[q].0.1.as_str());
        assert(tv[q as int].0 == key_view(tc@[q as int].0));
        let local = fresh_name(&used, base.as_str());
        proof { lemma_taken_ext(f0, used@, names_view(locals@), base@, local@); }
        add_name(&mut used, local.as_str());
        let ghost l0 = names_view(locals@);
        locals.push(copy_str(local.as_str()));
        proof {
            let l1 = names_view(locals@);
            assert(l1 =~= l0.push(local@));
            assert forall|i2: int| 0 <= i2 < q + 1 implies chosen_name(taken_in(f0, l1.subrange(0, i2)), pure_local_base(tv[i2].0),
                #[trigger] l1[i2]) by {
                assert(l1.subrange(0, i2) =~= if i2 < q { l0.subrange(0, i2) } else { l0 });
            }
            assert forall|x: Seq<char>| #[trigger] has_name(used@, x) <==> method_binds(f0, x) || l1.contains(x) by {
                if l1.contains(x) && x != local@ {
                    let j = choose|j: int| 0 <= j < l1.len() && l1[j] == x;
                    assert(l0[j] == x);
                }
                if l0.contains(x) {
                    let j = choose|j: int| 0 <= j < l0.len() && l0[j] == x;
                    assert(l1[j] == x);
                }
                if x == local@ {
                    assert(l1[q as int] == x);
                }
            }
        }
        q = q + 1;
    }
    let ghost lv = names_view(locals@);
    assert(pure_locals_for(f0, tv, lv));
    let mut m: Vec<PureLocal> = Vec::new();
    let mut samples: Vec<Option<Vec<Expr>>> = Vec::new();
    let mut k: usize = 0;
    while k < tc.len()
        invariant
            k <= tc@.len(),
            tv == pure_entries_view(tc@),
            lv == names_view(locals@),
            locals@.len() == tc@.len(),
            pure_locals_view(m@) == pure_map(tv, lv).take(k as int),
            samples@.len() == k,
            forall|j: int| 0 <= j < k ==> samples@[j] is None,
        decreases tc@.len() - k,
    {
        let ghost m0 = pure_locals_view(m@);
        m.push(PureLocal { method: copy_str(tc[k].0.0.as_str()), args_key: copy_str(tc[k].0.1.as_str()), local: copy_str(locals[k].as_str()) });
        samples.push(None);
        proof {
            assert(tv[k as int] == (key_view(tc@[k as int].0), tc@[k as int].1));
            assert(pure_locals_view(m@) =~= m0.push((tv[k as int].0, lv[k as int])));
            assert(pure_map(tv, lv).take(k + 1) =~= pure_map(tv, lv).take(k as int).push((tv[k as int].0, lv[k as int])));
        }
        k = k + 1;
    }
    let ghost mv = pure_map(tv, lv);
    proof {
        assert(pure_map(tv, lv).take(tc@.len() as int) =~= pure_map(tv, lv));
        assert forall|a: int, b: int| 0 <= a < mv.len() && 0 <= b < mv.len() && a != b implies (#[trigger] mv[a]).0 != (#[trigger] mv[b]).0 by {
            assert(mv[a].0 == tv[a].0 && mv[b].0 == tv[b].0);
        }
        assert(keys_unique(pure_locals_view(m@)));
    }
    let mut body = FnBody::External;
    std::mem::swap(&mut body, &mut f.body);
    let blk = match body {
        FnBody::Block(b) => b,
        FnBody::Expr(e) => {
            let sp = e.span;
            Block { stmts: Vec::new(), trailing: Some(Box::new(e)), span: sp }
        },
        FnBody::External => Block { stmts: Vec::new(), trailing: None, span },
    };
    let ghost blk0 = blk;
    let ghost s_init = samples@;
    let rb = pure_rewrite_block(blk, &m, pm, owner.as_str(), &mut samples);
    proof {
        lemma_pure_replaced_stmts_each(blk0.stmts, rb.stmts, blk0.stmts.len() as int, mv, pmv, t);
        assert forall|j: int| 0 <= j < samples@.len() implies #[trigger] samples@[j] == pure_first_block(blk0, tv[j].0, pmv, t) by {
            assert(s_init[j] is None);
            assert(mv[j].0 == tv[j].0);
        }
    }
    let Block { stmts: rstmts, trailing: rtrailing, span: rspan } = rb;
    let mut stmts: Vec<Stmt> = Vec::new();
    let ghost sm = samples@;
    let mut c: usize = 0;
    while c < tc.len()
        invariant
            c <= tc@.len(),
            tv == pure_entries_view(tc@),
            lv == names_view(locals@),
            locals@.len() == tc@.len(),
            sm.len() == tc@.len(),
            forall|j: int| 0 <= j < sm.len() ==> #[trigger] sm[j] == pure_first_block(blk0, tv[j].0, pmv, t),
            samples@ == sm.subrange(c as int, sm.len() as int),
            stmts@.len() == c,
            forall|i2: int| 0 <= i2 < c ==> is_pure_let(#[trigger] stmts@[i2], lv[i2], tv[i2].0.0, pure_first_block(blk0, tv[i2].0, pmv, t), tv[i2].1),
        decreases tc@.len() - c,
    {
        let ghost st0 = stmts@;
        let sample = samples.remove(0);
        proof {
            assert(sample == sm[c as int]);
            assert(samples@ =~= sm.subrange(c as int + 1, sm.len() as int));
            assert(tv[c as int] == (key_view(tc@[c as int].0), tc@[c as int].1));
            assert(lv[c as int] == locals@[c as int]@);
        }
        let st = pure_let(locals[c].as_str(), tc[c].0.0.as_str(), sample, tc[c].1);
        stmts.push(st);
        proof {
            assert forall|i2: int| 0 <= i2 < c + 1 implies is_pure_let(#[trigger] stmts@[i2], lv[i2], tv[i2].0.0, pure_first_block(blk0, tv[i2].0, pmv, t), tv[i2].1) by {
                if i2 < c {
                    assert(stmts@[i2] == st0[i2]);
                }
            }
        }
        c = c + 1;
    }
    let np = stmts.len();
    let ghost pre_stmts = stmts@;
    let mut rest = rstmts;
    let ghost rsq = rest@;
    let ghost mut r: int = 0;
    while rest.len() > 0
        invariant
            np == tc@.len(),
            pre_stmts.len() == np,
            stmts@.len() == np + r,
            0 <= r,
            rest@ == rsq.subrange(r, rsq.len() as int),
            r <= rsq.len(),
            forall|x: int| 0 <= x < np ==> stmts@[x] == pre_stmts[x],
            forall|x: int| 0 <= x < r ==> stmts@[np + x] == rsq[x],
        decreases rest.len(),
    {
        let x = rest.remove(0);
        assert(x == rsq[r]);
        stmts.push(x);
        proof {
            r = r + 1;
        }
        assert(rest@ =~= rsq.subrange(r, rsq.len() as int));
    }
    let nb = Block { stmts, trailing: rtrailing, span: rspan };
    f.body = FnBody::Block(nb);
    proof {
        assert(coerced(f0.body, blk0));
        assert(pure_block_after(blk0, nb, tv, lv, pmv, t)) by {
            assert forall|i2: int| 0 <= i2 < tv.len() implies is_pure_let(#[trigger] nb.stmts@[i2], lv[i2], tv[i2].0.0, pure_first_block(blk0, tv[i2].0, pmv, t), tv[i2].1) by {
                assert(nb.stmts@[i2] == pre_stmts[i2]);
            }
            assert forall|i2: int| 0 <= i2 < blk0.stmts@.len() implies pure_replaced_stmt(blk0.stmts@[i2], #[trigger] nb.stmts@[tv.len() + i2], mv, pmv, t) by {
                assert(nb.stmts@[tv.len() + i2] == rsq[i2]);
            }
        }
        assert(increasing(kv, pair_lt()));
        assert(at_block(nb));
    }
}

proof fn lemma_pure_replaced_stmts_each(a: Vec<Stmt>, b: Vec<Stmt>, k: int, m: Seq<((Seq<char>, Seq<char>), Seq<char>)>, pm: Set<(Seq<char>, Seq<char>)>, t: Seq<char>)
    requires
        0 <= k <= a.len(),
        pure_replaced_stmts(a, b, k, m, pm, t),
    ensures
        a.len() == b.len(),
        forall|i: int| 0 <= i < k ==> pure_replaced_stmt(a[i], b[i], m, pm, t),
    decreases k,
{
    if k > 0 {
        lemma_pure_replaced_stmts_each(a, b, k - 1, m, pm, t);
    }
}

} // verus!
