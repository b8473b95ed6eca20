//! Locals whose value, as an identifier, reaches an escape sink: it is
//! returned, thrown into a closure or a spawned task, passed as an argument,
//! stored into a literal or a heap field, aliased by a plain `let` or
//! assignment, or has its address taken. Names only, any type; an
//! imprecise answer always says "escapes".
//!
//! `esc` is the mode of a walk: `true` when the value of the expression
//! leaves the frame, `false` when it is only read in place. The receiver
//! of a method call is walked in place.

use vstd::prelude::*;
use crate::ast::{Block, ElseBranch, Expr, ExprKind, MatchArm, MatchArmBody, RecordLitField, Stmt, UnOp};
use crate::field_cache::collect::{add_name, has_name};

verus! {

/// The name of a bare identifier expression.
pub open spec fn ident_of(e: Expr) -> Option<Seq<char>> {
    match e.kind {
        ExprKind::Ident(n) => Some(n@),
        _ => None,
    }
}

/// The target of an assignment is a field or an element (a heap store).
pub open spec fn is_heap_target(e: Expr) -> bool {
    e.kind is Member || e.kind is Index
}

/// `x` escapes from `e` walked in mode `esc`.
pub open spec fn ie_expr(e: Expr, esc: bool, x: Seq<char>) -> bool
    decreases e, 0int,
{
    match e.kind {
        ExprKind::Ident(n) => esc && n@ == x,
        ExprKind::Call { func, args } => (match func.kind {
            ExprKind::Member { obj, .. } => ie_expr(*obj, false, x),
            _ => ie_expr(*func, false, x),
        }) || ie_exprs(args, args.len() as int, x),
        ExprKind::Member { obj, .. } => ie_expr(*obj, false, x),
        ExprKind::Index { obj, index } => ie_expr(*obj, false, x) || ie_expr(*index, false, x),
        ExprKind::Unary { op, operand } => if op == UnOp::Ref || op == UnOp::RawRef {
            ident_of(*operand) == Some(x) || ie_expr(*operand, false, x)
        } else {
            ie_expr(*operand, esc, x)
        },
        ExprKind::Binary { left, right, .. } => ie_expr(*left, false, x) || ie_expr(*right, false, x),
        ExprKind::Block(b) => ie_block(b, esc, x),
        ExprKind::If { cond, then, else_ } | ExprKind::IfLet { scrutinee: cond, then, else_, .. } => ie_expr(*cond, false, x) || ie_block(then, esc, x) || match else_ {
            Some(ElseBranch::Block(b)) => ie_block(b, esc, x),
            Some(ElseBranch::If(y)) => ie_expr(*y, esc, x),
            None => false,
        },
        ExprKind::Match { scrutinee, arms } => ie_expr(*scrutinee, false, x) || ie_arms(arms, arms.len() as int, esc, x),
        ExprKind::While { cond, body } | ExprKind::WhileLet { scrutinee: cond, body, .. } | ExprKind::For { iter: cond, body, .. } | ExprKind::ParallelFor { iter: cond, body, .. } => ie_expr(*cond, false, x) || ie_block(body, false, x),
        ExprKind::Lambda { body, .. } => mentioned_expr(*body, x),
        ExprKind::Spawn(y) => mentioned_expr(*y, x),
        ExprKind::NamedArg { value, .. } | ExprKind::Try(value) => ie_expr(*value, esc, x),
        ExprKind::TupleLit(items) | ExprKind::ArrayLit(items) => ie_exprs(items, items.len() as int, x),
        ExprKind::RecordLit { fields, .. } => ie_fields(fields, fields.len() as int, x),
        _ => false,
    }
}

/// `x` escapes from one of the first `k` expressions, each walked as
/// leaving the frame.
pub open spec fn ie_exprs(v: Vec<Expr>, k: int, x: Seq<char>) -> bool
    decreases v, k,
{
    if k <= 0 || k > v.len() {
        false
    } else {
        ie_exprs(v, k - 1, x) || ie_expr(v[k - 1], true, x)
    }
}

/// `x` escapes from the value of one of the first `k` fields.
pub open spec fn ie_fields(v: Vec<RecordLitField>, k: int, x: Seq<char>) -> bool
    decreases v, k,
{
    if k <= 0 || k > v.len() {
        false
    } else {
        ie_fields(v, k - 1, x) || match v[k - 1].value {
            Some(y) => ie_expr(y, true, x),
            None => false,
        }
    }
}

/// `x` escapes from the body of one of the first `k` arms.
pub open spec fn ie_arms(v: Vec<MatchArm>, k: int, esc: bool, x: Seq<char>) -> bool
    decreases v, k,
{
    if k <= 0 || k > v.len() {
        false
    } else {
        ie_arms(v, k - 1, esc, x) || match v[k - 1].body {
            MatchArmBody::Expr(y) => ie_expr(y, esc, x),
            MatchArmBody::Block(b) => ie_block(b, esc, x),
        }
    }
}

/// `x` escapes from `b`, whose value leaves the frame when `tail_esc`.
pub open spec fn ie_block(b: Block, tail_esc: bool, x: Seq<char>) -> bool
    decreases b, 0int,
{
    ie_stmts(b.stmts, b.stmts.len() as int, x) || match b.trailing {
        Some(t) => ie_expr(*t, tail_esc, x),
        None => false,
    }
}

pub open spec fn ie_stmts(v: Vec<Stmt>, k: int, x: Seq<char>) -> bool
    decreases v, k,
{
    if k <= 0 || k > v.len() {
        false
    } else {
        ie_stmts(v, k - 1, x) || ie_stmt(v[k - 1], x)
    }
}

/// `x` escapes from the statement `s`.
pub open spec fn ie_stmt(s: Stmt, x: Seq<char>) -> bool
    decreases s, 0int,
{
    match s {
        Stmt::Let(d) => ident_of(d.value) == Some(x) || ie_expr(d.value, false, x),
        Stmt::Return { value, .. } => match value {
            Some(y) => ie_expr(y, true, x),
            None => false,
        },
        Stmt::Assign { target, value, .. } => ie_expr(target, false, x) || ident_of(value) == Some(x)
            || ie_expr(value, is_heap_target(target), x),
        Stmt::Expr(y) => ie_expr(y, false, x),
        _ => false,
    }
}

/// The identifier `x` occurs anywhere in `e` (the body of a closure or of
/// a spawned task: everything it mentions may outlive the frame).
pub open spec fn mentioned_expr(e: Expr, x: Seq<char>) -> bool
    decreases e, 0int,
{
    ident_of(e) == Some(x) || match e.kind {
        ExprKind::Call { func, args } => mentioned_expr(*func, x) || mentioned_exprs(args, args.len() as int, x),
        ExprKind::Member { obj, .. } => mentioned_expr(*obj, x),
        ExprKind::Index { obj, index } => mentioned_expr(*obj, x) || mentioned_expr(*index, x),
        ExprKind::Unary { operand, .. } => mentioned_expr(*operand, x),
        ExprKind::Binary { left, right, .. } => mentioned_expr(*left, x) || mentioned_expr(*right, x),
        ExprKind::Block(b) => mentioned_block(b, x),
        ExprKind::If { cond, then, else_ } | ExprKind::IfLet { scrutinee: cond, then, else_, .. } => mentioned_expr(*cond, x) || mentioned_block(then, x) || match else_ {
            Some(ElseBranch::Block(b)) => mentioned_block(b, x),
            Some(ElseBranch::If(y)) => mentioned_expr(*y, x),
            None => false,
        },
        ExprKind::Match { scrutinee, arms } => mentioned_expr(*scrutinee, x) || mentioned_arms(arms, arms.len() as int, x),
        ExprKind::While { cond, body } | ExprKind::WhileLet { scrutinee: cond, body, .. } | ExprKind::For { iter: cond, body, .. } | ExprKind::ParallelFor { iter: cond, body, .. } => mentioned_expr(*cond, x) || mentioned_block(body, x),
        ExprKind::Lambda { body, .. } => mentioned_expr(*body, x),
        ExprKind::Spawn(y) | ExprKind::NamedArg { value: y, .. } | ExprKind::Try(y) => mentioned_expr(*y, x),
        ExprKind::TupleLit(items) | ExprKind::ArrayLit(items) => mentioned_exprs(items, items.len() as int, x),
        ExprKind::RecordLit { fields, .. } => mentioned_fields(fields, fields.len() as int, x),
        _ => false,
    }
}

pub open spec fn mentioned_exprs(v: Vec<Expr>, k: int, x: Seq<char>) -> bool
    decreases v, k,
{
    if k <= 0 || k > v.len() {
        false
    } else {
        mentioned_exprs(v, k - 1, x) || mentioned_expr(v[k - 1], x)
    }
}

pub open spec fn mentioned_fields(v: Vec<RecordLitField>, k: int, x: Seq<char>) -> bool
    decreases v, k,
{
    if k <= 0 || k > v.len() {
        false
    } else {
        mentioned_fields(v, k - 1, x) || match v[k - 1].value {
            Some(y) => mentioned_expr(y, x),
            None => false,
        }
    }
}

pub open spec fn mentioned_arms(v: Vec<MatchArm>, k: int, x: Seq<char>) -> bool
    decreases v, k,
{
    if k <= 0 || k > v.len() {
        false
    } else {
        mentioned_arms(v, k - 1, x) || match v[k - 1].body {
            MatchArmBody::Expr(y) => mentioned_expr(y, x),
            MatchArmBody::Block(b) => mentioned_block(b, x),
        }
    }
}

/// The identifier `x` occurs in a statement or the value of `b`.
pub open spec fn mentioned_block(b: Block, x: Seq<char>) -> bool
    decreases b, 0int,
{
    mentioned_stmts(b.stmts, b.stmts.len() as int, x) || match b.trailing {
        Some(t) => mentioned_expr(*t, x),
        None => false,
    }
}

pub open spec fn mentioned_stmts(v: Vec<Stmt>, k: int, x: Seq<char>) -> bool
    decreases v, k,
{
    if k <= 0 || k > v.len() {
        false
    } else {
        mentioned_stmts(v, k - 1, x) || mentioned_stmt(v[k - 1], x)
    }
}

pub open spec fn mentioned_stmt(s: Stmt, x: Seq<char>) -> bool
    decreases s, 0int,
{
    match s {
        Stmt::Let(d) => mentioned_expr(d.value, x),
        Stmt::Return { value, .. } => match value {
            Some(y) => mentioned_expr(y, x),
            None => false,
        },
        Stmt::Assign { target, value, .. } => mentioned_expr(target, x) || mentioned_expr(value, x),
        Stmt::Expr(y) => mentioned_expr(y, x),
        _ => false,
    }
}

fn add_ident(e: &Expr, out: &mut Vec<String>)
    ensures
        forall|x: Seq<char>| #[trigger] has_name(final(out)@, x) <==> has_name(old(out)@, x) || ident_of(*e) == Some(x),
{
    match &e.kind {
        ExprKind::Ident(n) => add_name(out, n.as_str()),
        _ => {},
    }
}

/// Adds to `out` the names of `ie_expr(*e, esc, _)`.
pub fn ie_collect_expr(e: &Expr, esc: bool, out: &mut Vec<String>)
    ensures
        forall|x: Seq<char>| #[trigger] has_name(final(out)@, x) <==> has_name(old(out)@, x) || ie_expr(*e, esc, x),
    decreases e, 0int,
{
    match &e.kind {
        ExprKind::Ident(n) => {
            if esc {
                add_name(out, n.as_str());
            }
        },
        ExprKind::Call { func, args } => {
            match &func.kind {
                ExprKind::Member { obj, .. } => ie_collect_expr(obj, false, out),
                _ => ie_collect_expr(func, false, out),
            }
            ie_collect_exprs(args, out);
        },
        ExprKind::Member { obj, .. } => ie_collect_expr(obj, false, out),
        ExprKind::Index { obj, index } => {
            ie_collect_expr(obj, false, out);
            ie_collect_expr(index, false, out);
        },
        ExprKind::Unary { op, operand } => {
            match op {
                UnOp::Ref | UnOp::RawRef => {
                    add_ident(operand, out);
                    ie_collect_expr(operand, false, out);
                },
                _ => ie_collect_expr(operand, esc, out),
            }
        },
        ExprKind::Binary { left, right, .. } => {
            ie_collect_expr(left, false, out);
            ie_collect_expr(right, false, out);
        },
        ExprKind::Block(b) => ie_collect_block(b, esc, out),
        ExprKind::If { cond, then, else_ } | ExprKind::IfLet { scrutinee: cond, then, else_, .. } => {
            ie_collect_expr(cond, false, out);
            ie_collect_block(then, esc, out);
            match else_ {
                Some(ElseBranch::Block(b)) => ie_collect_block(b, esc, out),
                Some(ElseBranch::If(y)) => ie_collect_expr(y, esc, out),
                None => {},
            }
        },
        ExprKind::Match { scrutinee, arms } => {
            ie_collect_expr(scrutinee, false, out);
            ie_collect_arms(arms, esc, out);
        },
        ExprKind::While { cond, body } | ExprKind::WhileLet { scrutinee: cond, body, .. } | ExprKind::For { iter: cond, body, .. } | ExprKind::ParallelFor { iter: cond, body, .. } => {
            ie_collect_expr(cond, false, out);
            ie_collect_block(body, false, out);
        },
        ExprKind::Lambda { body, .. } => mentioned_collect_expr(body, out),
        ExprKind::Spawn(y) => mentioned_collect_expr(y, out),
        ExprKind::NamedArg { value, .. } | ExprKind::Try(value) => ie_collect_expr(value, esc, out),
        ExprKind::TupleLit(items) | ExprKind::ArrayLit(items) => ie_collect_exprs(items, out),
        ExprKind::RecordLit { fields, .. } => ie_collect_fields(fields, out),
        _ => {},
    }
}

fn ie_collect_exprs(v: &Vec<Expr>, out: &mut Vec<String>)
    ensures
        forall|x: Seq<char>| #[trigger] has_name(final(out)@, x) <==> has_name(old(out)@, x) || ie_exprs(*v, v.len() as int, x),
    decreases v, v.len(),
{
    let mut i: usize = 0;
    while i < v.len()
        invariant
            i <= v.len(),
            forall|x: Seq<char>| #[trigger] has_name(out@, x) <==> has_name(old(out)@, x) || ie_exprs(*v, i as int, x),
        decreases v.len() - i,
    {
        proof { assert(decreases_to!(*v => v[i as int])); }
        ie_collect_expr(&v[i], true, out);
        i = i + 1;
    }
}

fn ie_collect_fields(v: &Vec<RecordLitField>, out: &mut Vec<String>)
    ensures
        forall|x: Seq<char>| #[trigger] has_name(final(out)@, x) <==> has_name(old(out)@, x) || ie_fields(*v, v.len() as int, x),
    decreases v, v.len(),
{
    let mut i: usize = 0;
    while i < v.len()
        invariant
            i <= v.len(),
            forall|x: Seq<char>| #[trigger] has_name(out@, x) <==> has_name(old(out)@, x) || ie_fields(*v, i as int, x),
        decreases v.len() - i,
    {
        proof { assert(decreases_to!(*v => v[i as int])); }
        match &v[i].value {
            Some(y) => ie_collect_expr(y, true, out),
            None => {},
        }
        i = i + 1;
    }
}

fn ie_collect_arms(v: &Vec<MatchArm>, esc: bool, out: &mut Vec<String>)
    ensures
        forall|x: Seq<char>| #[trigger] has_name(final(out)@, x) <==> has_name(old(out)@, x) || ie_arms(*v, v.len() as int, esc, x),
    decreases v, v.len(),
{
    let mut i: usize = 0;
    while i < v.len()
        invariant
            i <= v.len(),
            forall|x: Seq<char>| #[trigger] has_name(out@, x) <==> has_name(old(out)@, x) || ie_arms(*v, i as int, esc, x),
        decreases v.len() - i,
    {
        proof { assert(decreases_to!(*v => v[i as int])); }
        match &v[i].body {
            MatchArmBody::Expr(y) => ie_collect_expr(y, esc, out),
            MatchArmBody::Block(b) => ie_collect_block(b, esc, out),
        }
        i = i + 1;
    }
}

/// Adds to `out` the names of `ie_block(*b, tail_esc, _)`.
pub fn ie_collect_block(b: &Block, tail_esc: bool, out: &mut Vec<String>)
    ensures
        forall|x: Seq<char>| #[trigger] has_name(final(out)@, x) <==> has_name(old(out)@, x) || ie_block(*b, tail_esc, x),
    decreases b, 0int,
{
    ie_collect_stmts(&b.stmts, out);
    match &b.trailing {
        Some(t) => ie_collect_expr(t, tail_esc, out),
        None => {},
    }
}

fn ie_collect_stmts(v: &Vec<Stmt>, out: &mut Vec<String>)
    ensures
        forall|x: Seq<char>| #[trigger] has_name(final(out)@, x) <==> has_name(old(out)@, x) || ie_stmts(*v, v.len() as int, x),
    decreases v, v.len(),
{
    let mut i: usize = 0;
    while i < v.len()
        invariant
            i <= v.len(),
            forall|x: Seq<char>| #[trigger] has_name(out@, x) <==> has_name(old(out)@, x) || ie_stmts(*v, i as int, x),
        decreases v.len() - i,
    {
        proof { assert(decreases_to!(*v => v[i as int])); }
        ie_collect_stmt(&v[i], out);
        i = i + 1;
    }
}

fn ie_collect_stmt(s: &Stmt, out: &mut Vec<String>)
    ensures
        forall|x: Seq<char>| #[trigger] has_name(final(out)@, x) <==> has_name(old(out)@, x) || ie_stmt(*s, x),
    decreases s, 0int,
{
    match s {
        Stmt::Let(d) => {
            add_ident(&d.value, out);
            ie_collect_expr(&d.value, false, out);
        },
        Stmt::Return { value, .. } => match value {
            Some(y) => ie_collect_expr(y, true, out),
            None => {},
        },
        Stmt::Assign { target, value, .. } => {
            let heap = match &target.kind {
                ExprKind::Member { .. } | ExprKind::Index { .. } => true,
                _ => false,
            };
            ie_collect_expr(target, false, out);
            add_ident(value, out);
            ie_collect_expr(value, heap, out);
        },
        Stmt::Expr(y) => ie_collect_expr(y, false, out),
        _ => {},
    }
}

/// Adds to `out` the names of `mentioned_expr(*e, _)`.
pub fn mentioned_collect_expr(e: &Expr, out: &mut Vec<String>)
    ensures
        forall|x: Seq<char>| #[trigger] has_name(final(out)@, x) <==> has_name(old(out)@, x) || mentioned_expr(*e, x),
    decreases e, 0int,
{
    add_ident(e, out);
    match &e.kind {
        ExprKind::Call { func, args } => {
            mentioned_collect_expr(func, out);
            mentioned_collect_exprs(args, out);
        },
        ExprKind::Member { obj, .. } => mentioned_collect_expr(obj, out),
        ExprKind::Index { obj, index } => {
            mentioned_collect_expr(obj, out);
            mentioned_collect_expr(index, out);
        },
        ExprKind::Unary { operand, .. } => mentioned_collect_expr(operand, out),
        ExprKind::Binary { left, right, .. } => {
            mentioned_collect_expr(left, out);
            mentioned_collect_expr(right, out);
        },
        ExprKind::Block(b) => mentioned_collect_block(b, out),
        ExprKind::If { cond, then, else_ } | ExprKind::IfLet { scrutinee: cond, then, else_, .. } => {
            mentioned_collect_expr(cond, out);
            mentioned_collect_block(then, out);
            match else_ {
                Some(ElseBranch::Block(b)) => mentioned_collect_block(b, out),
                Some(ElseBranch::If(y)) => mentioned_collect_expr(y, out),
                None => {},
            }
        },
        ExprKind::Match { scrutinee, arms } => {
            mentioned_collect_expr(scrutinee, out);
            mentioned_collect_arms(arms, out);
        },
        ExprKind::While { cond, body } | ExprKind::WhileLet { scrutinee: cond, body, .. } | ExprKind::For { iter: cond, body, .. } | ExprKind::ParallelFor { iter: cond, body, .. } => {
            mentioned_collect_expr(cond, out);
            mentioned_collect_block(body, out);
        },
        ExprKind::Lambda { body, .. } => mentioned_collect_expr(body, out),
        ExprKind::Spawn(y) | ExprKind::NamedArg { value: y, .. } | ExprKind::Try(y) => mentioned_collect_expr(y, out),
        ExprKind::TupleLit(items) | ExprKind::ArrayLit(items) => mentioned_collect_exprs(items, out),
        ExprKind::RecordLit { fields, .. } => mentioned_collect_fields(fields, out),
        _ => {},
    }
}

fn mentioned_collect_exprs(v: &Vec<Expr>, out: &mut Vec<String>)
    ensures
        forall|x: Seq<char>| #[trigger] has_name(final(out)@, x) <==> has_name(old(out)@, x) || mentioned_exprs(*v, v.len() as int, x),
    decreases v, v.len(),
{
    let mut i: usize = 0;
    while i < v.len()
        invariant
            i <= v.len(),
            forall|x: Seq<char>| #[trigger] has_name(out@, x) <==> has_name(old(out)@, x) || mentioned_exprs(*v, i as int, x),
        decreases v.len() - i,
    {
        proof { assert(decreases_to!(*v => v[i as int])); }
        mentioned_collect_expr(&v[i], out);
        i = i + 1;
    }
}

fn mentioned_collect_fields(v: &Vec<RecordLitField>, out: &mut Vec<String>)
    ensures
        forall|x: Seq<char>| #[trigger] has_name(final(out)@, x) <==> has_name(old(out)@, x) || mentioned_fields(*v, v.len() as int, x),
    decreases v, v.len(),
{
    let mut i: usize = 0;
    while i < v.len()
        invariant
            i <= v.len(),
            forall|x: Seq<char>| #[trigger] has_name(out@, x) <==> has_name(old(out)@, x) || mentioned_fields(*v, i as int, x),
        decreases v.len() - i,
    {
        proof { assert(decreases_to!(*v => v[i as int])); }
        match &v[i].value {
            Some(y) => mentioned_collect_expr(y, out),
            None => {},
        }
        i = i + 1;
    }
}

fn mentioned_collect_arms(v: &Vec<MatchArm>, out: &mut Vec<String>)
    ensures
        forall|x: Seq<char>| #[trigger] has_name(final(out)@, x) <==> has_name(old(out)@, x) || mentioned_arms(*v, v.len() as int, x),
    decreases v, v.len(),
{
    let mut i: usize = 0;
    while i < v.len()
        invariant
            i <= v.len(),
            forall|x: Seq<char>| #[trigger] has_name(out@, x) <==> has_name(old(out)@, x) || mentioned_arms(*v, i as int, x),
        decreases v.len() - i,
    {
        proof { assert(decreases_to!(*v => v[i as int])); }
        match &v[i].body {
            MatchArmBody::Expr(y) => mentioned_collect_expr(y, out),
            MatchArmBody::Block(b) => mentioned_collect_block(b, out),
        }
        i = i + 1;
    }
}

fn mentioned_collect_block(b: &Block, out: &mut Vec<String>)
    ensures
        forall|x: Seq<char>| #[trigger] has_name(final(out)@, x) <==> has_name(old(out)@, x) || mentioned_block(*b, x),
    decreases b, 0int,
{
    mentioned_collect_stmts(&b.stmts, out);
    match &b.trailing {
        Some(t) => mentioned_collect_expr(t, out),
        None => {},
    }
}

fn mentioned_collect_stmts(v: &Vec<Stmt>, out: &mut Vec<String>)
    ensures
        forall|x: Seq<char>| #[trigger] has_name(final(out)@, x) <==> has_name(old(out)@, x) || mentioned_stmts(*v, v.len() as int, x),
    decreases v, v.len(),
{
    let mut i: usize = 0;
    while i < v.len()
        invariant
            i <= v.len(),
            forall|x: Seq<char>| #[trigger] has_name(out@, x) <==> has_name(old(out)@, x) || mentioned_stmts(*v, i as int, x),
        decreases v.len() - i,
    {
        proof { assert(decreases_to!(*v => v[i as int])); }
        mentioned_collect_stmt(&v[i], out);
        i = i + 1;
    }
}

fn mentioned_collect_stmt(s: &Stmt, out: &mut Vec<String>)
    ensures
        forall|x: Seq<char>| #[trigger] has_name(final(out)@, x) <==> has_name(old(out)@, x) || mentioned_stmt(*s, x),
    decreases s, 0int,
{
    match s {
        Stmt::Let(d) => mentioned_collect_expr(&d.value, out),
        Stmt::Return { value, .. } => match value {
            Some(y) => mentioned_collect_expr(y, out),
            None => {},
        },
        Stmt::Assign { target, value, .. } => {
            mentioned_collect_expr(target, out);
            mentioned_collect_expr(value, out);
        },
        Stmt::Expr(y) => mentioned_collect_expr(y, out),
        _ => {},
    }
}

} // verus!
