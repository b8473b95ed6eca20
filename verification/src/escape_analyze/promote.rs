//! Value-record locals whose address escapes and which must therefore live
//! on the heap.
//!
//! A local is tracked when it is bound by a plain `let` to a value-record
//! type (by its written type, by a record literal of that type, or by the
//! `T.new(..)` constructor idiom) or to a primitive scalar type. A tracked
//! local is promoted when `&x` reaches an escape position: a return (or
//! the value of a function body), an argument of a call, a field of a
//! record literal, the value stored into a field or an element, or the body
//! of a closure. A bare `&x` kept in place, and `raw &x` anywhere, promote
//! nothing.
//!
//! The walk carries the set of tracked names visible at each point: a
//! block sees the names of its enclosing blocks and those bound by its own
//! earlier statements.

use vstd::prelude::*;
use crate::ast::{Block, ElseBranch, Expr, ExprKind, MatchArm, MatchArmBody, Pattern, RecordLitField, Stmt, TypeRef, UnOp};
use crate::escape_analyze::idents::ident_of;
use crate::field_cache::collect::{add_name, add_names, has_name};
use crate::field_cache::ipa::contains_name;
use crate::text::str_eq;

verus! {

/// The names of `v`, as a set.
pub open spec fn set_of(v: Seq<String>) -> Set<Seq<char>> {
    Set::new(|y: Seq<char>| has_name(v, y))
}

/// The segments of a path expression `a.b.c` (identifiers joined by `.`).
pub open spec fn path_of(e: Expr) -> Option<Seq<Seq<char>>>
    decreases e,
{
    match e.kind {
        ExprKind::Ident(n) => Some(seq![n@]),
        ExprKind::Member { obj, name } => match path_of(*obj) {
            Some(p) => Some(p.push(name@)),
            None => None,
        },
        _ => None,
    }
}

/// Value-record types that the runtime defines, whose declarations may be
/// missing from the module.
pub open spec fn is_runtime_ctor_type(n: Seq<char>) -> bool {
    n == "AtomicInt"@
}

/// `segs` is `..T.new` with some segment before `new` naming a value-record
/// type.
pub open spec fn is_ctor_path(segs: Seq<Seq<char>>, vr: Set<Seq<char>>) -> bool {
    &&& segs.len() >= 2
    &&& segs.last() == "new"@
    &&& exists|i: int| 0 <= i < segs.len() - 1 && (vr.contains(#[trigger] segs[i]) || is_runtime_ctor_type(segs[i]))
}

/// The value builds a value record: a record literal of a value-record
/// type, or a constructor call `T.new(..)`.
pub open spec fn builds_value_record(value: Expr, vr: Set<Seq<char>>) -> bool {
    match value.kind {
        ExprKind::RecordLit { type_path, .. } => match type_path {
            Some(p) => p@.len() > 0 && vr.contains(p@.last()@),
            None => false,
        },
        ExprKind::Call { func, .. } => match path_of(*func) {
            Some(segs) => is_ctor_path(segs, vr),
            None => false,
        },
        _ => false,
    }
}

/// Primitive scalar types (`str` is a heap record and is not one).
pub open spec fn is_primitive_for_escape(n: Seq<char>) -> bool {
    ||| n == "int"@
    ||| n == "uint"@
    ||| n == "i8"@
    ||| n == "i16"@
    ||| n == "i32"@
    ||| n == "i64"@
    ||| n == "u8"@
    ||| n == "u16"@
    ||| n == "u32"@
    ||| n == "u64"@
    ||| n == "f32"@
    ||| n == "f64"@
    ||| n == "bool"@
    ||| n == "char"@
}

/// A written type that makes a local tracked.
pub open spec fn tracked_type(ty: Option<TypeRef>, vr: Set<Seq<char>>) -> bool {
    match ty {
        Some(TypeRef::Named(n)) => vr.contains(n@) || is_primitive_for_escape(n@),
        _ => false,
    }
}

/// The name that the statement binds as a tracked local, if any.
pub open spec fn registers(s: Stmt, vr: Set<Seq<char>>) -> Option<Seq<char>> {
    match s {
        Stmt::Let(d) => match d.pattern {
            Pattern::Ident { name, .. } => if tracked_type(d.ty, vr) || builds_value_record(d.value, vr) {
                Some(name@)
            } else {
                None
            },
            _ => None,
        },
        _ => None,
    }
}

/// The tracked names visible after the first `k` statements of a block
/// that starts with `t` visible.
pub open spec fn vis_after(v: Vec<Stmt>, k: int, t: Set<Seq<char>>, vr: Set<Seq<char>>) -> Set<Seq<char>>
    decreases k,
{
    if k <= 0 || k > v.len() {
        t
    } else {
        match registers(v[k - 1], vr) {
            Some(n) => vis_after(v, k - 1, t, vr).insert(n),
            None => vis_after(v, k - 1, t, vr),
        }
    }
}

/// `x` is promoted by walking `e` in place, with the tracked names `t`.
pub open spec fn pr_expr(e: Expr, t: Set<Seq<char>>, vr: Set<Seq<char>>, x: Seq<char>) -> bool
    decreases e, 1int,
{
    match e.kind {
        ExprKind::Unary { operand, .. } => pr_expr(*operand, t, vr, x),
        ExprKind::NamedArg { value, .. } | ExprKind::Try(value) => pr_expr(*value, t, vr, x),
        ExprKind::Block(b) => pr_block(b, false, t, vr, x),
        ExprKind::Binary { left, right, .. } => pr_expr(*left, t, vr, x) || pr_expr(*right, t, vr, x),
        ExprKind::Call { func, args } => pr_expr(*func, t, vr, x) || pr_args(args, args.len() as int, t, vr, x),
        ExprKind::Member { obj, .. } => pr_expr(*obj, t, vr, x),
        ExprKind::Index { obj, index } => pr_expr(*obj, t, vr, x) || pr_expr(*index, t, vr, x),
        ExprKind::If { cond, then, else_ } | ExprKind::IfLet { scrutinee: cond, then, else_, .. } => pr_expr(*cond, t, vr, x) || pr_block(then, false, t, vr, x) || match else_ {
            Some(ElseBranch::Block(b)) => pr_block(b, false, t, vr, x),
            Some(ElseBranch::If(y)) => pr_expr(*y, t, vr, x),
            None => false,
        },
        ExprKind::Match { scrutinee, arms } => pr_expr(*scrutinee, t, vr, x) || pr_arms(arms, arms.len() as int, false, t, vr, x),
        ExprKind::While { cond, body } | ExprKind::WhileLet { scrutinee: cond, body, .. } | ExprKind::For { iter: cond, body, .. } | ExprKind::ParallelFor { iter: cond, body, .. } => pr_expr(*cond, t, vr, x) || pr_block(body, false, t, vr, x),
        ExprKind::Lambda { body, .. } => pr_esc(*body, t, vr, x),
        ExprKind::TupleLit(items) | ExprKind::ArrayLit(items) => pr_exprs(items, items.len() as int, t, vr, x),
        ExprKind::RecordLit { fields, .. } => pr_fields(fields, fields.len() as int, t, vr, x),
        _ => false,
    }
}

/// `x` is promoted by walking `e` in an escape position.
pub open spec fn pr_esc(e: Expr, t: Set<Seq<char>>, vr: Set<Seq<char>>, x: Seq<char>) -> bool
    decreases e, 2int,
{
    match e.kind {
        ExprKind::Unary { op, operand } => if op == UnOp::Ref {
            (ident_of(*operand) == Some(x) && t.contains(x)) || pr_expr(*operand, t, vr, x)
        } else {
            pr_expr(*operand, t, vr, x)
        },
        ExprKind::NamedArg { value, .. } => pr_esc(*value, t, vr, x),
        ExprKind::Block(b) => pr_block(b, true, t, vr, x),
        ExprKind::If { cond, then, else_ } | ExprKind::IfLet { scrutinee: cond, then, else_, .. } => pr_expr(*cond, t, vr, x) || pr_block(then, true, t, vr, x) || match else_ {
            Some(ElseBranch::Block(b)) => pr_block(b, true, t, vr, x),
            Some(ElseBranch::If(y)) => pr_esc(*y, t, vr, x),
            None => false,
        },
        ExprKind::Match { scrutinee, arms } => pr_expr(*scrutinee, t, vr, x) || pr_arms(arms, arms.len() as int, true, t, vr, x),
        _ => pr_expr(e, t, vr, x),
    }
}

/// `x` is promoted by one of the first `k` expressions walked in place.
pub open spec fn pr_exprs(v: Vec<Expr>, k: int, t: Set<Seq<char>>, vr: Set<Seq<char>>, x: Seq<char>) -> bool
    decreases v, k,
{
    if k <= 0 || k > v.len() {
        false
    } else {
        pr_exprs(v, k - 1, t, vr, x) || pr_expr(v[k - 1], t, vr, x)
    }
}

/// `x` is promoted by one of the first `k` call arguments (escape
/// positions).
pub open spec fn pr_args(v: Vec<Expr>, k: int, t: Set<Seq<char>>, vr: Set<Seq<char>>, x: Seq<char>) -> bool
    decreases v, k,
{
    if k <= 0 || k > v.len() {
        false
    } else {
        pr_args(v, k - 1, t, vr, x) || pr_esc(v[k - 1], t, vr, x)
    }
}

/// `x` is promoted by the value of one of the first `k` record-literal
/// fields (escape positions).
pub open spec fn pr_fields(v: Vec<RecordLitField>, k: int, t: Set<Seq<char>>, vr: Set<Seq<char>>, x: Seq<char>) -> bool
    decreases v, k,
{
    if k <= 0 || k > v.len() {
        false
    } else {
        pr_fields(v, k - 1, t, vr, x) || match v[k - 1].value {
            Some(y) => pr_esc(y, t, vr, x),
            None => false,
        }
    }
}

/// `x` is promoted by one of the first `k` arms; an expression arm is an
/// escape position when `esc`, a block arm never is.
pub open spec fn pr_arms(v: Vec<MatchArm>, k: int, esc: bool, t: Set<Seq<char>>, vr: Set<Seq<char>>, x: Seq<char>) -> bool
    decreases v, k,
{
    if k <= 0 || k > v.len() {
        false
    } else {
        pr_arms(v, k - 1, esc, t, vr, x) || match v[k - 1].body {
            MatchArmBody::Expr(y) => if esc { pr_esc(y, t, vr, x) } else { pr_expr(y, t, vr, x) },
            MatchArmBody::Block(b) => pr_block(b, false, t, vr, x),
        }
    }
}

/// `x` is promoted by `b`; its value is an escape position when `tail_esc`.
pub open spec fn pr_block(b: Block, tail_esc: bool, t: Set<Seq<char>>, vr: Set<Seq<char>>, x: Seq<char>) -> bool
    decreases b, 0int,
{
    pr_stmts(b.stmts, b.stmts.len() as int, t, vr, x) || match b.trailing {
        Some(y) => if tail_esc {
            pr_esc(*y, vis_after(b.stmts, b.stmts.len() as int, t, vr), vr, x)
        } else {
            pr_expr(*y, vis_after(b.stmts, b.stmts.len() as int, t, vr), vr, x)
        },
        None => false,
    }
}

pub open spec fn pr_stmts(v: Vec<Stmt>, k: int, t: Set<Seq<char>>, vr: Set<Seq<char>>, x: Seq<char>) -> bool
    decreases v, k,
{
    if k <= 0 || k > v.len() {
        false
    } else {
        pr_stmts(v, k - 1, t, vr, x) || pr_stmt(v[k - 1], vis_after(v, k - 1, t, vr), vr, x)
    }
}

/// `x` is promoted by the statement `s`.
pub open spec fn pr_stmt(s: Stmt, t: Set<Seq<char>>, vr: Set<Seq<char>>, x: Seq<char>) -> bool
    decreases s, 0int,
{
    match s {
        Stmt::Let(d) => pr_expr(d.value, t, vr, x),
        Stmt::Return { value, .. } => match value {
            Some(y) => pr_esc(y, t, vr, x),
            None => false,
        },
        Stmt::Assign { target, value, .. } => pr_expr(target, t, vr, x) || if target.kind is Member || target.kind is Index {
            pr_esc(value, t, vr, x)
        } else {
            pr_expr(value, t, vr, x)
        },
        Stmt::Expr(y) => pr_expr(y, t, vr, x),
        _ => false,
    }
}

/// The segments of a path expression.
fn path_segments(e: &Expr) -> (r: Option<Vec<String>>)
    ensures
        match path_of(*e) {
            Some(p) => r matches Some(v) && v@.map_values(|s: String| s@) == p,
            None => r is None,
        },
    decreases e,
{
    match &e.kind {
        ExprKind::Ident(n) => {
            let mut v: Vec<String> = Vec::new();
            v.push(crate::text::copy_str(n.as_str()));
            proof { assert(v@.map_values(|s: String| s@) =~= seq![n@]); }
            Some(v)
        },
        ExprKind::Member { obj, name } => match path_segments(obj) {
            Some(mut v) => {
                let ghost before = v@;
                v.push(crate::text::copy_str(name.as_str()));
                proof { assert(v@.map_values(|s: String| s@) =~= before.map_values(|s: String| s@).push(name@)); }
                Some(v)
            },
            None => None,
        },
        _ => None,
    }
}

fn is_runtime_ctor(n: &str) -> (r: bool)
    ensures
        r == is_runtime_ctor_type(n@),
{
    str_eq(n, "AtomicInt")
}

fn ctor_path(segs: &Vec<String>, vr: &Vec<String>) -> (r: bool)
    ensures
        r == is_ctor_path(segs@.map_values(|s: String| s@), set_of(vr@)),
{
    let ghost p = segs@.map_values(|s: String| s@);
    if segs.len() < 2 || !str_eq(segs[segs.len() - 1].as_str(), "new") {
        return false;
    }
    let mut i: usize = 0;
    while i < segs.len() - 1
        invariant
            segs@.len() >= 2,
            i <= segs@.len() - 1,
            p.last() == "new"@,
            p == segs@.map_values(|s: String| s@),
            forall|k: int| 0 <= k < i ==> !(set_of(vr@).contains(#[trigger] p[k]) || is_runtime_ctor_type(p[k])),
        decreases segs@.len() - 1 - i,
    {
        assert(p[i as int] == segs@[i as int]@);
        if contains_name(vr, segs[i].as_str()) || is_runtime_ctor(segs[i].as_str()) {
            assert(set_of(vr@).contains(p[i as int]) || is_runtime_ctor_type(p[i as int]));
            return true;
        }
        i = i + 1;
    }
    false
}

fn builds_record(value: &Expr, vr: &Vec<String>) -> (r: bool)
    ensures
        r == builds_value_record(*value, set_of(vr@)),
{
    match &value.kind {
        ExprKind::RecordLit { type_path, .. } => match type_path {
            Some(p) => p.len() > 0 && contains_name(vr, p[p.len() - 1].as_str()),
            None => false,
        },
        ExprKind::Call { func, .. } => match path_segments(func) {
            Some(segs) => ctor_path(&segs, vr),
            None => false,
        },
        _ => false,
    }
}

fn is_primitive(n: &str) -> (r: bool)
    ensures
        r == is_primitive_for_escape(n@),
{
    str_eq(n, "int") || str_eq(n, "uint") || str_eq(n, "i8") || str_eq(n, "i16") || str_eq(n, "i32")
        || str_eq(n, "i64") || str_eq(n, "u8") || str_eq(n, "u16") || str_eq(n, "u32") || str_eq(n, "u64")
        || str_eq(n, "f32") || str_eq(n, "f64") || str_eq(n, "bool") || str_eq(n, "char")
}

/// The name a statement binds as a tracked local.
fn registered<'a>(s: &'a Stmt, vr: &Vec<String>) -> (r: Option<&'a String>)
    ensures
        match registers(*s, set_of(vr@)) {
            Some(n) => r matches Some(m) && m@ == n,
            None => r is None,
        },
{
    match s {
        Stmt::Let(d) => match &d.pattern {
            Pattern::Ident { name, .. } => {
                let typed = match &d.ty {
                    Some(TypeRef::Named(n)) => contains_name(vr, n.as_str()) || is_primitive(n.as_str()),
                    _ => false,
                };
                if typed || builds_record(&d.value, vr) {
                    Some(name)
                } else {
                    None
                }
            },
            _ => None,
        },
        _ => None,
    }
}

/// Adds to `out` the names of `pr_expr(*e, set_of(vis@), set_of(vr@), _)`.
pub fn pr_collect_expr(e: &Expr, vis: &Vec<String>, vr: &Vec<String>, out: &mut Vec<String>)
    ensures
        forall|x: Seq<char>| #[trigger] has_name(final(out)@, x) <==> has_name(old(out)@, x) || pr_expr(*e, set_of(vis@), set_of(vr@), x),
    decreases e, 1int,
{
    match &e.kind {
        ExprKind::Unary { operand, .. } => pr_collect_expr(operand, vis, vr, out),
        ExprKind::NamedArg { value, .. } | ExprKind::Try(value) => pr_collect_expr(value, vis, vr, out),
        ExprKind::Block(b) => pr_collect_block(b, false, vis, vr, out),
        ExprKind::Binary { left, right, .. } => {
            pr_collect_expr(left, vis, vr, out);
            pr_collect_expr(right, vis, vr, out);
        },
        ExprKind::Call { func, args } => {
            pr_collect_expr(func, vis, vr, out);
            pr_collect_args(args, vis, vr, out);
        },
        ExprKind::Member { obj, .. } => pr_collect_expr(obj, vis, vr, out),
        ExprKind::Index { obj, index } => {
            pr_collect_expr(obj, vis, vr, out);
            pr_collect_expr(index, vis, vr, out);
        },
        ExprKind::If { cond, then, else_ } | ExprKind::IfLet { scrutinee: cond, then, else_, .. } => {
            pr_collect_expr(cond, vis, vr, out);
            pr_collect_block(then, false, vis, vr, out);
            match else_ {
                Some(ElseBranch::Block(b)) => pr_collect_block(b, false, vis, vr, out),
                Some(ElseBranch::If(y)) => pr_collect_expr(y, vis, vr, out),
                None => {},
            }
        },
        ExprKind::Match { scrutinee, arms } => {
            pr_collect_expr(scrutinee, vis, vr, out);
            pr_collect_arms(arms, false, vis, vr, out);
        },
        ExprKind::While { cond, body } | ExprKind::WhileLet { scrutinee: cond, body, .. } | ExprKind::For { iter: cond, body, .. } | ExprKind::ParallelFor { iter: cond, body, .. } => {
            pr_collect_expr(cond, vis, vr, out);
            pr_collect_block(body, false, vis, vr, out);
        },
        ExprKind::Lambda { body, .. } => pr_collect_esc(body, vis, vr, out),
        ExprKind::TupleLit(items) | ExprKind::ArrayLit(items) => pr_collect_exprs(items, vis, vr, out),
        ExprKind::RecordLit { fields, .. } => pr_collect_fields(fields, vis, vr, out),
        _ => {},
    }
}

/// Adds to `out` the names of `pr_esc(*e, set_of(vis@), set_of(vr@), _)`.
pub fn pr_collect_esc(e: &Expr, vis: &Vec<String>, vr: &Vec<String>, out: &mut Vec<String>)
    ensures
        forall|x: Seq<char>| #[trigger] has_name(final(out)@, x) <==> has_name(old(out)@, x) || pr_esc(*e, set_of(vis@), set_of(vr@), x),
    decreases e, 2int,
{
    match &e.kind {
        ExprKind::Unary { op, operand } => {
            match op {
                UnOp::Ref => {
                    match &operand.kind {
                        ExprKind::Ident(n) => {
                            if contains_name(vis, n.as_str()) {
                                add_name(out, n.as_str());
                            }
                        },
                        _ => {},
                    }
                },
                _ => {},
            }
            pr_collect_expr(operand, vis, vr, out);
        },
        ExprKind::NamedArg { value, .. } => pr_collect_esc(value, vis, vr, out),
        ExprKind::Block(b) => pr_collect_block(b, true, vis, vr, out),
        ExprKind::If { cond, then, else_ } | ExprKind::IfLet { scrutinee: cond, then, else_, .. } => {
            pr_collect_expr(cond, vis, vr, out);
            pr_collect_block(then, true, vis, vr, out);
            match else_ {
                Some(ElseBranch::Block(b)) => pr_collect_block(b, true, vis, vr, out),
                Some(ElseBranch::If(y)) => pr_collect_esc(y, vis, vr, out),
                None => {},
            }
        },
        ExprKind::Match { scrutinee, arms } => {
            pr_collect_expr(scrutinee, vis, vr, out);
            pr_collect_arms(arms, true, vis, vr, out);
        },
        _ => pr_collect_expr(e, vis, vr, out),
    }
}

fn pr_collect_exprs(v: &Vec<Expr>, vis: &Vec<String>, vr: &Vec<String>, out: &mut Vec<String>)
    ensures
        forall|x: Seq<char>| #[trigger] has_name(final(out)@, x) <==> has_name(old(out)@, x) || pr_exprs(*v, v.len() as int, set_of(vis@), set_of(vr@), x),
    decreases v, v.len(),
{
    let mut i: usize = 0;
    while i < v.len()
        invariant
            i <= v.len(),
            forall|x: Seq<char>| #[trigger] has_name(out@, x) <==> has_name(old(out)@, x) || pr_exprs(*v, i as int, set_of(vis@), set_of(vr@), x),
        decreases v.len() - i,
    {
        proof { assert(decreases_to!(*v => v[i as int])); }
        pr_collect_expr(&v[i], vis, vr, out);
        i = i + 1;
    }
}

fn pr_collect_args(v: &Vec<Expr>, vis: &Vec<String>, vr: &Vec<String>, out: &mut Vec<String>)
    ensures
        forall|x: Seq<char>| #[trigger] has_name(final(out)@, x) <==> has_name(old(out)@, x) || pr_args(*v, v.len() as int, set_of(vis@), set_of(vr@), x),
    decreases v, v.len(),
{
    let mut i: usize = 0;
    while i < v.len()
        invariant
            i <= v.len(),
            forall|x: Seq<char>| #[trigger] has_name(out@, x) <==> has_name(old(out)@, x) || pr_args(*v, i as int, set_of(vis@), set_of(vr@), x),
        decreases v.len() - i,
    {
        proof { assert(decreases_to!(*v => v[i as int])); }
        pr_collect_esc(&v[i], vis, vr, out);
        i = i + 1;
    }
}

fn pr_collect_fields(v: &Vec<RecordLitField>, vis: &Vec<String>, vr: &Vec<String>, out: &mut Vec<String>)
    ensures
        forall|x: Seq<char>| #[trigger] has_name(final(out)@, x) <==> has_name(old(out)@, x) || pr_fields(*v, v.len() as int, set_of(vis@), set_of(vr@), x),
    decreases v, v.len(),
{
    let mut i: usize = 0;
    while i < v.len()
        invariant
            i <= v.len(),
            forall|x: Seq<char>| #[trigger] has_name(out@, x) <==> has_name(old(out)@, x) || pr_fields(*v, i as int, set_of(vis@), set_of(vr@), x),
        decreases v.len() - i,
    {
        proof { assert(decreases_to!(*v => v[i as int])); }
        match &v[i].value {
            Some(y) => pr_collect_esc(y, vis, vr, out),
            None => {},
        }
        i = i + 1;
    }
}

fn pr_collect_arms(v: &Vec<MatchArm>, esc: bool, vis: &Vec<String>, vr: &Vec<String>, out: &mut Vec<String>)
    ensures
        forall|x: Seq<char>| #[trigger] has_name(final(out)@, x) <==> has_name(old(out)@, x) || pr_arms(*v, v.len() as int, esc, set_of(vis@), set_of(vr@), x),
    decreases v, v.len(),
{
    let mut i: usize = 0;
    while i < v.len()
        invariant
            i <= v.len(),
            forall|x: Seq<char>| #[trigger] has_name(out@, x) <==> has_name(old(out)@, x) || pr_arms(*v, i as int, esc, set_of(vis@), set_of(vr@), x),
        decreases v.len() - i,
    {
        proof { assert(decreases_to!(*v => v[i as int])); }
        match &v[i].body {
            MatchArmBody::Expr(y) => {
                if esc {
                    pr_collect_esc(y, vis, vr, out);
                } else {
                    pr_collect_expr(y, vis, vr, out);
                }
            },
            MatchArmBody::Block(b) => pr_collect_block(b, false, vis, vr, out),
        }
        i = i + 1;
    }
}

/// Adds to `out` the names of `pr_block(*b, tail_esc, set_of(vis@), set_of(vr@), _)`.
pub fn pr_collect_block(b: &Block, tail_esc: bool, vis: &Vec<String>, vr: &Vec<String>, out: &mut Vec<String>)
    ensures
        forall|x: Seq<char>| #[trigger] has_name(final(out)@, x) <==> has_name(old(out)@, x) || pr_block(*b, tail_esc, set_of(vis@), set_of(vr@), x),
    decreases b, 0int,
{
    let ghost t = set_of(vis@);
    let ghost w = set_of(vr@);
    let mut inner: Vec<String> = Vec::new();
    add_names(vis, &mut inner);
    assert(set_of(inner@) =~= t);
    let mut i: usize = 0;
    while i < b.stmts.len()
        invariant
            i <= b.stmts@.len(),
            t == set_of(vis@),
            w == set_of(vr@),
            set_of(inner@) == vis_after(b.stmts, i as int, t, w),
            forall|x: Seq<char>| #[trigger] has_name(out@, x) <==> has_name(old(out)@, x) || pr_stmts(b.stmts, i as int, t, w, x),
        decreases b.stmts@.len() - i,
    {
        proof { assert(decreases_to!(b.stmts => b.stmts[i as int])); }
        pr_collect_stmt(&b.stmts[i], &inner, vr, out);
        let ghost before = set_of(inner@);
        match registered(&b.stmts[i], vr) {
            Some(n) => {
                add_name(&mut inner, n.as_str());
                assert(set_of(inner@) =~= before.insert(n@));
            },
            None => {},
        }
        i = i + 1;
    }
    match &b.trailing {
        Some(y) => {
            if tail_esc {
                pr_collect_esc(y, &inner, vr, out);
            } else {
                pr_collect_expr(y, &inner, vr, out);
            }
        },
        None => {},
    }
}

fn pr_collect_stmt(s: &Stmt, vis: &Vec<String>, vr: &Vec<String>, out: &mut Vec<String>)
    ensures
        forall|x: Seq<char>| #[trigger] has_name(final(out)@, x) <==> has_name(old(out)@, x) || pr_stmt(*s, set_of(vis@), set_of(vr@), x),
    decreases s, 0int,
{
    match s {
        Stmt::Let(d) => pr_collect_expr(&d.value, vis, vr, out),
        Stmt::Return { value, .. } => match value {
            Some(y) => pr_collect_esc(y, vis, vr, out),
            None => {},
        },
        Stmt::Assign { target, value, .. } => {
            pr_collect_expr(target, vis, vr, out);
            match &target.kind {
                ExprKind::Member { .. } | ExprKind::Index { .. } => pr_collect_esc(value, vis, vr, out),
                _ => pr_collect_expr(value, vis, vr, out),
            }
        },
        Stmt::Expr(y) => pr_collect_expr(y, vis, vr, out),
        _ => {},
    }
}

} // verus!
