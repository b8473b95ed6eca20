//! Instance methods that could be annotated `#pure`: not already pure, no
//! declared effects, not external, no receiver field written (directly or
//! through the receiver methods they call), and no concurrent work started
//! in their body.

use vstd::prelude::*;
use crate::ast::{Block, ElseBranch, Expr, ExprKind, FnBody, FnDecl, Item, MatchArm, MatchArmBody, Module, PeerFile, Purity, ReceiverKind, RecordLitField, Span, Stmt};
use crate::field_cache::ipa::{lookup_fields, WriteSets};
use crate::field_cache::writeset::{
    calls_directly, decl_of, is_call_chain, is_known_method, module_methods, module_write_sets, reaches, recorded_fields,
    write_sets_describe, writes_directly, writes_transitively, FieldAccess,
};
use crate::text::{copy_str, str_eq};

verus! {

/// Evaluating `e` starts concurrent work (a spawn), closures aside.
pub open spec fn spawns_expr(e: Expr) -> bool
    decreases e, 0int,
{
    match e.kind {
        ExprKind::Spawn(_) | ExprKind::ParallelFor { .. } => true,
        ExprKind::Block(b) => spawns_block(b),
        ExprKind::If { cond, then, else_ } | ExprKind::IfLet { scrutinee: cond, then, else_, .. } => spawns_expr(*cond) || spawns_block(then) || match else_ {
            Some(ElseBranch::Block(b)) => spawns_block(b),
            Some(ElseBranch::If(y)) => spawns_expr(*y),
            None => false,
        },
        ExprKind::Match { scrutinee, arms } => spawns_expr(*scrutinee) || spawns_arms(arms, arms.len() as int),
        ExprKind::While { cond, body } | ExprKind::WhileLet { scrutinee: cond, body, .. } | ExprKind::For { iter: cond, body, .. } => spawns_expr(*cond) || spawns_block(body),
        ExprKind::Member { obj, .. } => spawns_expr(*obj),
        ExprKind::Unary { operand, .. } | ExprKind::NamedArg { value: operand, .. } | ExprKind::Try(operand) => spawns_expr(*operand),
        ExprKind::Binary { left, right, .. } => spawns_expr(*left) || spawns_expr(*right),
        ExprKind::Index { obj, index } => spawns_expr(*obj) || spawns_expr(*index),
        ExprKind::Call { func, args } => spawns_expr(*func) || spawns_exprs(args, args.len() as int),
        ExprKind::RecordLit { fields, .. } => spawns_fields(fields, fields.len() as int),
        ExprKind::TupleLit(items) | ExprKind::ArrayLit(items) => spawns_exprs(items, items.len() as int),
        _ => false,
    }
}

pub open spec fn spawns_exprs(v: Vec<Expr>, k: int) -> bool
    decreases v, k,
{
    if k <= 0 || k > v.len() {
        false
    } else {
        spawns_exprs(v, k - 1) || spawns_expr(v[k - 1])
    }
}

pub open spec fn spawns_fields(v: Vec<RecordLitField>, k: int) -> bool
    decreases v, k,
{
    if k <= 0 || k > v.len() {
        false
    } else {
        spawns_fields(v, k - 1) || match v[k - 1].value {
            Some(y) => spawns_expr(y),
            None => false,
        }
    }
}

pub open spec fn spawns_arms(v: Vec<MatchArm>, k: int) -> bool
    decreases v, k,
{
    if k <= 0 || k > v.len() {
        false
    } else {
        spawns_arms(v, k - 1) || match v[k - 1].body {
            MatchArmBody::Expr(y) => spawns_expr(y),
            MatchArmBody::Block(b) => spawns_block(b),
        }
    }
}

pub open spec fn spawns_block(b: Block) -> bool
    decreases b, 0int,
{
    spawns_stmts(b.stmts, b.stmts.len() as int) || match b.trailing {
        Some(t) => spawns_expr(*t),
        None => false,
    }
}

pub open spec fn spawns_stmts(v: Vec<Stmt>, k: int) -> bool
    decreases v, k,
{
    if k <= 0 || k > v.len() {
        false
    } else {
        spawns_stmts(v, k - 1) || spawns_stmt(v[k - 1])
    }
}

pub open spec fn spawns_stmt(s: Stmt) -> bool
    decreases s, 0int,
{
    match s {
        Stmt::Let(d) => spawns_expr(d.value),
        Stmt::Expr(y) => spawns_expr(y),
        Stmt::Assign { target, value, .. } => spawns_expr(target) || spawns_expr(value),
        Stmt::Return { value, .. } => match value {
            Some(y) => spawns_expr(y),
            None => false,
        },
        _ => false,
    }
}

/// The body starts concurrent work.
pub open spec fn body_spawns(b: FnBody) -> bool {
    match b {
        FnBody::Block(bl) => spawns_block(bl),
        FnBody::Expr(e) => spawns_expr(e),
        FnBody::External => false,
    }
}

pub fn spawns_in_expr(e: &Expr) -> (r: bool)
    ensures
        r == spawns_expr(*e),
    decreases e, 0int,
{
    match &e.kind {
        ExprKind::Spawn(_) | ExprKind::ParallelFor { .. } => true,
        ExprKind::Block(b) => spawns_in_block(b),
        ExprKind::If { cond, then, else_ } | ExprKind::IfLet { scrutinee: cond, then, else_, .. } => spawns_in_expr(cond) || spawns_in_block(then) || match else_ {
            Some(ElseBranch::Block(b)) => spawns_in_block(b),
            Some(ElseBranch::If(y)) => spawns_in_expr(y),
            None => false,
        },
        ExprKind::Match { scrutinee, arms } => spawns_in_expr(scrutinee) || spawns_in_arms(arms),
        ExprKind::While { cond, body } | ExprKind::WhileLet { scrutinee: cond, body, .. } | ExprKind::For { iter: cond, body, .. } => spawns_in_expr(cond) || spawns_in_block(body),
        ExprKind::Member { obj, .. } => spawns_in_expr(obj),
        ExprKind::Unary { operand, .. } | ExprKind::NamedArg { value: operand, .. } | ExprKind::Try(operand) => spawns_in_expr(operand),
        ExprKind::Binary { left, right, .. } => spawns_in_expr(left) || spawns_in_expr(right),
        ExprKind::Index { obj, index } => spawns_in_expr(obj) || spawns_in_expr(index),
        ExprKind::Call { func, args } => spawns_in_expr(func) || spawns_in_exprs(args),
        ExprKind::RecordLit { fields, .. } => spawns_in_fields(fields),
        ExprKind::TupleLit(items) | ExprKind::ArrayLit(items) => spawns_in_exprs(items),
        _ => false,
    }
}

fn spawns_in_exprs(v: &Vec<Expr>) -> (r: bool)
    ensures
        r == spawns_exprs(*v, v.len() as int),
    decreases v, v.len(),
{
    let mut i: usize = 0;
    while i < v.len()
        invariant
            i <= v.len(),
            !spawns_exprs(*v, i as int),
        decreases v.len() - i,
    {
        proof { assert(decreases_to!(*v => v[i as int])); }
        if spawns_in_expr(&v[i]) {
            proof { lemma_spawns_exprs_mono(*v, i as int + 1, v.len() as int); }
            return true;
        }
        i = i + 1;
    }
    false
}

proof fn lemma_spawns_exprs_mono(v: Vec<Expr>, i: int, j: int)
    requires
        0 <= i <= j <= v.len(),
        spawns_exprs(v, i),
    ensures
        spawns_exprs(v, j),
    decreases j - i,
{
    if i < j {
        lemma_spawns_exprs_mono(v, i, j - 1);
    }
}

fn spawns_in_fields(v: &Vec<RecordLitField>) -> (r: bool)
    ensures
        r == spawns_fields(*v, v.len() as int),
    decreases v, v.len(),
{
    let mut i: usize = 0;
    while i < v.len()
        invariant
            i <= v.len(),
            !spawns_fields(*v, i as int),
        decreases v.len() - i,
    {
        proof { assert(decreases_to!(*v => v[i as int])); }
        let hit = match &v[i].value {
            Some(y) => spawns_in_expr(y),
            None => false,
        };
        if hit {
            proof { lemma_spawns_fields_mono(*v, i as int + 1, v.len() as int); }
            return true;
        }
        i = i + 1;
    }
    false
}

proof fn lemma_spawns_fields_mono(v: Vec<RecordLitField>, i: int, j: int)
    requires
        0 <= i <= j <= v.len(),
        spawns_fields(v, i),
    ensures
        spawns_fields(v, j),
    decreases j - i,
{
    if i < j {
        lemma_spawns_fields_mono(v, i, j - 1);
    }
}

fn spawns_in_arms(v: &Vec<MatchArm>) -> (r: bool)
    ensures
        r == spawns_arms(*v, v.len() as int),
    decreases v, v.len(),
{
    let mut i: usize = 0;
    while i < v.len()
        invariant
            i <= v.len(),
            !spawns_arms(*v, i as int),
        decreases v.len() - i,
    {
        proof { assert(decreases_to!(*v => v[i as int])); }
        let hit = match &v[i].body {
            MatchArmBody::Expr(y) => spawns_in_expr(y),
            MatchArmBody::Block(b) => spawns_in_block(b),
        };
        if hit {
            proof { lemma_spawns_arms_mono(*v, i as int + 1, v.len() as int); }
            return true;
        }
        i = i + 1;
    }
    false
}

proof fn lemma_spawns_arms_mono(v: Vec<MatchArm>, i: int, j: int)
    requires
        0 <= i <= j <= v.len(),
        spawns_arms(v, i),
    ensures
        spawns_arms(v, j),
    decreases j - i,
{
    if i < j {
        lemma_spawns_arms_mono(v, i, j - 1);
    }
}

pub fn spawns_in_block(b: &Block) -> (r: bool)
    ensures
        r == spawns_block(*b),
    decreases b, 0int,
{
    spawns_in_stmts(&b.stmts) || match &b.trailing {
        Some(t) => spawns_in_expr(t),
        None => false,
    }
}

fn spawns_in_stmts(v: &Vec<Stmt>) -> (r: bool)
    ensures
        r == spawns_stmts(*v, v.len() as int),
    decreases v, v.len(),
{
    let mut i: usize = 0;
    while i < v.len()
        invariant
            i <= v.len(),
            !spawns_stmts(*v, i as int),
        decreases v.len() - i,
    {
        proof { assert(decreases_to!(*v => v[i as int])); }
        if spawns_in_stmt(&v[i]) {
            proof { lemma_spawns_stmts_mono(*v, i as int + 1, v.len() as int); }
            return true;
        }
        i = i + 1;
    }
    false
}

proof fn lemma_spawns_stmts_mono(v: Vec<Stmt>, i: int, j: int)
    requires
        0 <= i <= j <= v.len(),
        spawns_stmts(v, i),
    ensures
        spawns_stmts(v, j),
    decreases j - i,
{
    if i < j {
        lemma_spawns_stmts_mono(v, i, j - 1);
    }
}

fn spawns_in_stmt(s: &Stmt) -> (r: bool)
    ensures
        r == spawns_stmt(*s),
    decreases s, 0int,
{
    match s {
        Stmt::Let(d) => spawns_in_expr(&d.value),
        Stmt::Expr(y) => spawns_in_expr(y),
        Stmt::Assign { target, value, .. } => spawns_in_expr(target) || spawns_in_expr(value),
        Stmt::Return { value, .. } => match value {
            Some(y) => spawns_in_expr(y),
            None => false,
        },
        _ => false,
    }
}

/// `t.m` writes no receiver field, itself or through the receiver methods
/// it calls.
pub open spec fn writes_nothing(ds: Seq<FnDecl>, t: Seq<char>, m: Seq<char>) -> bool {
    forall|x: Seq<char>| !#[trigger] writes_transitively(FieldAccess::Write, ds, t, m, x)
}

/// `f` could be annotated `#pure`; `ds` are the module's instance methods.
pub open spec fn is_pure_candidate(f: FnDecl, ds: Seq<FnDecl>) -> bool {
    &&& f.purity != Purity::Pure
    &&& f.receiver matches Some(r) && r.kind == ReceiverKind::Instance && writes_nothing(ds, r.owner_type@, f.name@)
    &&& f.effects@.len() == 0
    &&& !f.is_external
    &&& !body_spawns(f.body)
}

/// The candidates among `items`, in order.
pub open spec fn candidates_in(items: Seq<Item>, ds: Seq<FnDecl>) -> Seq<FnDecl>
    decreases items.len(),
{
    if items.len() == 0 {
        Seq::empty()
    } else {
        let prev = candidates_in(items.drop_last(), ds);
        match items.last() {
            Item::Fn(f) => if is_pure_candidate(f, ds) { prev.push(f) } else { prev },
            _ => prev,
        }
    }
}

pub open spec fn candidates_in_peers(pfs: Seq<PeerFile>, k: int, ds: Seq<FnDecl>) -> Seq<FnDecl>
    decreases k,
{
    if k <= 0 || k > pfs.len() {
        Seq::empty()
    } else {
        candidates_in_peers(pfs, k - 1, ds) + candidates_in(pfs[k - 1].items_here@, ds)
    }
}

/// The candidates of a module: its items, then each peer file's.
pub open spec fn pure_candidates(m: Module) -> Seq<FnDecl> {
    candidates_in(m.items@, module_methods(m)) + candidates_in_peers(m.peer_files@, m.peer_files@.len() as int, module_methods(m))
}

/// An unknown method has no declaration to write with.
proof fn lemma_unknown_writes_nothing(ds: Seq<FnDecl>, t: Seq<char>, m: Seq<char>)
    requires
        decl_of(ds, t, m) is None,
    ensures
        writes_nothing(ds, t, m),
{
    assert forall|x: Seq<char>| !#[trigger] writes_transitively(FieldAccess::Write, ds, t, m, x) by {
        if writes_transitively(FieldAccess::Write, ds, t, m, x) {
            let b = choose|b: Seq<char>| #[trigger] reaches(FieldAccess::Write, ds, t, m, b) && writes_directly(FieldAccess::Write, ds, t, b, x);
            let p = choose|p: Seq<Seq<char>>| #[trigger] is_call_chain(FieldAccess::Write, ds, t, p) && p[0] == m && p.last() == b;
            if p.len() > 1 {
                assert(calls_directly(FieldAccess::Write, ds, t, p[0], p[1]));
            }
        }
    }
}

/// Whether the write set recorded for `t.m` is empty (or none is).
fn records_no_writes(ws: &WriteSets, t: &str, m: &str) -> (r: bool)
    ensures
        r == match recorded_fields(*ws, t@, m@) {
            Some(fs) => fs.len() == 0,
            None => true,
        },
{
    let n = ws.entries.len();
    let mut k: usize = n;
    while k > 0
        invariant
            k <= n,
            n == ws.entries@.len(),
            lookup_fields(ws.entries@, n as int, t@, m@) == lookup_fields(ws.entries@, k as int, t@, m@),
        decreases k,
    {
        let e = &ws.entries[k - 1];
        if str_eq(e.owner_type.as_str(), t) && str_eq(e.method.as_str(), m) {
            return e.fields.len() == 0;
        }
        k = k - 1;
    }
    true
}

fn collect_candidates(items: &Vec<Item>, ws: &WriteSets, Ghost(ds): Ghost<Seq<FnDecl>>, out: &mut Vec<(String, String, Span)>)
    requires
        write_sets_describe(*ws, ds),
    ensures
        final(out)@.len() == old(out)@.len() + candidates_in(items@, ds).len(),
        forall|i: int| 0 <= i < old(out)@.len() ==> final(out)@[i] == old(out)@[i],
        forall|i: int| 0 <= i < candidates_in(items@, ds).len() ==> {
            let (c, f) = (#[trigger] final(out)@[old(out)@.len() + i], candidates_in(items@, ds)[i]);
            &&& f.receiver matches Some(r) && c.0@ == r.owner_type@
            &&& c.1@ == f.name@
            &&& c.2 == f.span
        },
{
    let ghost o0 = out@;
    let mut k: usize = 0;
    while k < items.len()
        invariant
            k <= items@.len(),
            write_sets_describe(*ws, ds),
            out@.len() == o0.len() + candidates_in(items@.subrange(0, k as int), ds).len(),
            forall|i: int| 0 <= i < o0.len() ==> out@[i] == o0[i],
            forall|i: int| 0 <= i < candidates_in(items@.subrange(0, k as int), ds).len() ==> {
                let (c, f) = (#[trigger] out@[o0.len() + i], candidates_in(items@.subrange(0, k as int), ds)[i]);
                &&& f.receiver matches Some(r) && c.0@ == r.owner_type@
                &&& c.1@ == f.name@
                &&& c.2 == f.span
            },
        decreases items@.len() - k,
    {
        let ghost pre = items@.subrange(0, k as int + 1);
        assert(pre.drop_last() =~= items@.subrange(0, k as int));
        assert(pre.last() == items@[k as int]);
        let ghost c0 = candidates_in(items@.subrange(0, k as int), ds);
        let mut pick = false;
        match &items[k] {
            Item::Fn(f) => {
                match &f.receiver {
                    Some(r) => {
                        if f.purity != Purity::Pure && r.kind == ReceiverKind::Instance && f.effects.len() == 0 && !f.is_external {
                            let quiet = records_no_writes(ws, r.owner_type.as_str(), f.name.as_str());
                            proof {
                                let (t, m) = (r.owner_type@, f.name@);
                                match recorded_fields(*ws, t, m) {
                                    Some(fs) => {
                                        if fs.len() == 0 {
                                            assert forall|x: Seq<char>| !#[trigger] writes_transitively(FieldAccess::Write, ds, t, m, x) by {
                                                assert(!fs.contains(x));
                                            }
                                        } else {
                                            assert(fs.contains(fs[0]));
                                            assert(writes_transitively(FieldAccess::Write, ds, t, m, fs[0]));
                                        }
                                    },
                                    None => {
                                        assert(!is_known_method(FieldAccess::Write, ds, t, m));
                                        lemma_unknown_writes_nothing(ds, t, m);
                                    },
                                }
                            }
                            if quiet {
                                let spawns = match &f.body {
                                    FnBody::Block(b) => spawns_in_block(b),
                                    FnBody::Expr(e) => spawns_in_expr(e),
                                    FnBody::External => false,
                                };
                                if !spawns {
                                    let ghost before = out@;
                                    out.push((copy_str(r.owner_type.as_str()), copy_str(f.name.as_str()), f.span));
                                    pick = true;
                                    proof {
                                        assert(candidates_in(pre, ds) == c0.push(*f));
                                        assert forall|i: int| 0 <= i < c0.len() + 1 implies {
                                            let (c, g) = (#[trigger] out@[o0.len() + i], c0.push(*f)[i]);
                                            &&& g.receiver matches Some(r) && c.0@ == r.owner_type@
                                            &&& c.1@ == g.name@
                                            &&& c.2 == g.span
                                        } by {
                                            if i < c0.len() {
                                                assert(out@[o0.len() + i] == before[o0.len() + i]);
                                            }
                                        }
                                    }
                                }
                            }
                        }
                    },
                    None => {},
                }
            },
            _ => {},
        }
        if !pick {
            assert(candidates_in(pre, ds) == c0);
        }
        k = k + 1;
    }
    assert(items@.subrange(0, items@.len() as int) =~= items@);
}

/// The methods of `module` that could be annotated `#pure`, with their
/// receiver type, name and span, in the order of `pure_candidates`.
pub fn pure_annotation_candidates(module: &Module) -> (r: Vec<(String, String, Span)>)
    ensures
        r@.len() == pure_candidates(*module).len(),
        forall|i: int| 0 <= i < r@.len() ==> {
            let (c, f) = (#[trigger] r@[i], pure_candidates(*module)[i]);
            &&& f.receiver matches Some(rc) && c.0@ == rc.owner_type@
            &&& c.1@ == f.name@
            &&& c.2 == f.span
        },
{
    let ws = module_write_sets(module);
    let ghost ds = module_methods(*module);
    let mut out: Vec<(String, String, Span)> = Vec::new();
    collect_candidates(&module.items, &ws, Ghost(ds), &mut out);
    let ghost first = candidates_in(module.items@, ds);
    assert(first + candidates_in_peers(module.peer_files@, 0, ds) =~= first);
    assert forall|i: int| 0 <= i < out@.len() implies {
        let (c, f) = (#[trigger] out@[i], (first + candidates_in_peers(module.peer_files@, 0, ds))[i]);
        &&& f.receiver matches Some(rc) && c.0@ == rc.owner_type@
        &&& c.1@ == f.name@
        &&& c.2 == f.span
    } by {
        assert(out@[0 + i] == out@[i]);
    }
    let mut j: usize = 0;
    while j < module.peer_files.len()
        invariant
            j <= module.peer_files@.len(),
            ds == module_methods(*module),
            write_sets_describe(ws, ds),
            first == candidates_in(module.items@, ds),
            out@.len() == (first + candidates_in_peers(module.peer_files@, j as int, ds)).len(),
            forall|i: int| 0 <= i < out@.len() ==> {
                let (c, f) = (#[trigger] out@[i], (first + candidates_in_peers(module.peer_files@, j as int, ds))[i]);
                &&& f.receiver matches Some(rc) && c.0@ == rc.owner_type@
                &&& c.1@ == f.name@
                &&& c.2 == f.span
            },
        decreases module.peer_files@.len() - j,
    {
        let ghost before = out@;
        let ghost acc = first + candidates_in_peers(module.peer_files@, j as int, ds);
        collect_candidates(&module.peer_files[j].items_here, &ws, Ghost(ds), &mut out);
        proof {
            let add = candidates_in(module.peer_files@[j as int].items_here@, ds);
            assert(first + candidates_in_peers(module.peer_files@, j as int + 1, ds) =~= acc + add);
            assert forall|i: int| 0 <= i < out@.len() implies {
                let (c, f) = (#[trigger] out@[i], (acc + add)[i]);
                &&& f.receiver matches Some(rc) && c.0@ == rc.owner_type@
                &&& c.1@ == f.name@
                &&& c.2 == f.span
            } by {
                if i < before.len() {
                    assert(out@[i] == before[i]);
                } else {
                    let q = i - before.len();
                    assert(out@[before.len() + q] == out@[i]);
                }
            }
        }
        j = j + 1;
    }
    out
}

} // verus!
