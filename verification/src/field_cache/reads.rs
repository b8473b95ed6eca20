//! Counting `@field` reads.

use vstd::prelude::*;
use crate::text::str_eq;
use crate::ast::{Block, ElseBranch, Expr, ExprKind, MatchArm, MatchArmBody, RecordLitField, Stmt};

verus! {

/// The field name when `e` is `@name` (a member of the receiver).
pub open spec fn self_field_of(e: Expr) -> Option<Seq<char>> {
    match e.kind {
        ExprKind::Member { obj, name } => if obj.kind is SelfAccess { Some(name@) } else { None },
        _ => None,
    }
}

/// Adds two counts, stopping at `usize::MAX`.
pub open spec fn cap(n: nat) -> nat {
    if n > usize::MAX { usize::MAX as nat } else { n }
}

/// Reads of `@f` in `e`, closures not included (they are a scope of their
/// own); `@f(..)` counts as a read of `@f` too.
pub open spec fn reads_expr(e: Expr, f: Seq<char>) -> nat
    decreases e, 0int,
{
    match self_field_of(e) {
        Some(g) => if g == f { 1 } else { 0 },
        None => match e.kind {
            ExprKind::Member { obj, .. } => reads_expr(*obj, f),
            ExprKind::Call { func, args } => reads_expr(*func, f) + reads_exprs(args, args.len() as int, f),
            ExprKind::Binary { left, right, .. } => reads_expr(*left, f) + reads_expr(*right, f),
            ExprKind::Unary { operand, .. } => reads_expr(*operand, f),
            ExprKind::Index { obj, index } => reads_expr(*obj, f) + reads_expr(*index, f),
            ExprKind::If { cond, then, else_ } | ExprKind::IfLet { scrutinee: cond, then, else_, .. } => reads_expr(*cond, f) + reads_block(then, f) + match else_ {
                Some(ElseBranch::Block(b)) => reads_block(b, f),
                Some(ElseBranch::If(x)) => reads_expr(*x, f),
                None => 0,
            },
            ExprKind::While { cond, body } | ExprKind::WhileLet { scrutinee: cond, body, .. } | ExprKind::For { iter: cond, body, .. } | ExprKind::ParallelFor { iter: cond, body, .. } => reads_expr(*cond, f) + reads_block(body, f),
            ExprKind::Match { scrutinee, arms } => reads_expr(*scrutinee, f) + reads_arms(arms, arms.len() as int, f),
            ExprKind::Block(b) => reads_block(b, f),
            ExprKind::Spawn(x) | ExprKind::NamedArg { value: x, .. } | ExprKind::Try(x) => reads_expr(*x, f),
            ExprKind::TupleLit(items) | ExprKind::ArrayLit(items) => reads_exprs(items, items.len() as int, f),
            ExprKind::RecordLit { fields, .. } => reads_fields(fields, fields.len() as int, f),
            _ => 0,
        },
    }
}

/// Reads in the first `k` expressions of `v`.
pub open spec fn reads_exprs(v: Vec<Expr>, k: int, f: Seq<char>) -> nat
    decreases v, k,
{
    if k <= 0 || k > v.len() {
        0
    } else {
        reads_exprs(v, k - 1, f) + reads_expr(v[k - 1], f)
    }
}

/// Reads in the values of the first `k` record-literal fields of `v`.
pub open spec fn reads_fields(v: Vec<RecordLitField>, k: int, f: Seq<char>) -> nat
    decreases v, k,
{
    if k <= 0 || k > v.len() {
        0
    } else {
        reads_fields(v, k - 1, f) + match v[k - 1].value {
            Some(x) => reads_expr(x, f),
            None => 0,
        }
    }
}

/// Reads in the bodies of the first `k` arms of `v`.
pub open spec fn reads_arms(v: Vec<MatchArm>, k: int, f: Seq<char>) -> nat
    decreases v, k,
{
    if k <= 0 || k > v.len() {
        0
    } else {
        reads_arms(v, k - 1, f) + match v[k - 1].body {
            MatchArmBody::Expr(x) => reads_expr(x, f),
            MatchArmBody::Block(b) => reads_block(b, f),
        }
    }
}

/// Reads in a block: its statements and its trailing value.
pub open spec fn reads_block(b: Block, f: Seq<char>) -> nat
    decreases b, 0int,
{
    reads_stmts(b.stmts, b.stmts.len() as int, f) + match b.trailing {
        Some(t) => reads_expr(*t, f),
        None => 0,
    }
}

/// Reads in the first `k` statements of `v`.
pub open spec fn reads_stmts(v: Vec<Stmt>, k: int, f: Seq<char>) -> nat
    decreases v, k,
{
    if k <= 0 || k > v.len() {
        0
    } else {
        reads_stmts(v, k - 1, f) + reads_stmt(v[k - 1], f)
    }
}

/// Reads in a statement; the target of `@g = v` itself is a write, not a read.
pub open spec fn reads_stmt(s: Stmt, f: Seq<char>) -> nat
    decreases s, 0int,
{
    match s {
        Stmt::Let(d) => reads_expr(d.value, f),
        Stmt::Assign { target, value, .. } => (if self_field_of(target) is Some {
            0
        } else {
            reads_expr(target, f)
        }) + reads_expr(value, f),
        Stmt::Expr(x) => reads_expr(x, f),
        Stmt::Return { value, .. } => match value {
            Some(x) => reads_expr(x, f),
            None => 0,
        },
        _ => 0,
    }
}

/// The field name when `e` is `@name`.
pub fn self_field(e: &Expr) -> (r: Option<&String>)
    ensures
        match r {
            Some(n) => self_field_of(*e) == Some(n@),
            None => self_field_of(*e) is None,
        },
{
    match &e.kind {
        ExprKind::Member { obj, name } => {
            if let ExprKind::SelfAccess = obj.kind {
                Some(name)
            } else {
                None
            }
        },
        _ => None,
    }
}

fn sat_add(a: usize, b: usize) -> (r: usize)
    ensures
        r == cap((a + b) as nat),
{
    a.saturating_add(b)
}

/// Reads of `@f` in `e` (see `reads_expr`), capped at `usize::MAX`.
pub fn count_field_reads_in_expr(e: &Expr, f: &str) -> (r: usize)
    ensures
        r == cap(reads_expr(*e, f@)),
    decreases e, 0int,
{
    if let Some(g) = self_field(e) {
        return if str_eq(g.as_str(), f) { 1 } else { 0 };
    }
    match &e.kind {
        ExprKind::Member { obj, .. } => count_field_reads_in_expr(obj, f),
        ExprKind::Call { func, args } => {
            let a = count_field_reads_in_expr(func, f);
            let b = count_reads_exprs(args, f);
            sat_add(a, b)
        },
        ExprKind::Binary { left, right, .. } => sat_add(
            count_field_reads_in_expr(left, f),
            count_field_reads_in_expr(right, f),
        ),
        ExprKind::Unary { operand, .. } => count_field_reads_in_expr(operand, f),
        ExprKind::Index { obj, index } => sat_add(
            count_field_reads_in_expr(obj, f),
            count_field_reads_in_expr(index, f),
        ),
        ExprKind::If { cond, then, else_ } | ExprKind::IfLet { scrutinee: cond, then, else_, .. } => {
            let a = count_field_reads_in_expr(cond, f);
            let b = count_field_reads_in_block(then, f);
            let c = match else_ {
                Some(ElseBranch::Block(eb)) => count_field_reads_in_block(eb, f),
                Some(ElseBranch::If(x)) => count_field_reads_in_expr(x, f),
                None => 0,
            };
            sat_add(sat_add(a, b), c)
        },
        ExprKind::While { cond, body } | ExprKind::WhileLet { scrutinee: cond, body, .. } | ExprKind::For { iter: cond, body, .. } | ExprKind::ParallelFor { iter: cond, body, .. } => sat_add(
            count_field_reads_in_expr(cond, f),
            count_field_reads_in_block(body, f),
        ),
        ExprKind::Match { scrutinee, arms } => sat_add(
            count_field_reads_in_expr(scrutinee, f),
            count_reads_arms(arms, f),
        ),
        ExprKind::Block(b) => count_field_reads_in_block(b, f),
        ExprKind::Spawn(x) | ExprKind::NamedArg { value: x, .. } | ExprKind::Try(x) => count_field_reads_in_expr(x, f),
        ExprKind::TupleLit(items) | ExprKind::ArrayLit(items) => count_reads_exprs(items, f),
        ExprKind::RecordLit { fields, .. } => count_reads_fields(fields, f),
        _ => 0,
    }
}

fn count_reads_exprs(v: &Vec<Expr>, f: &str) -> (r: usize)
    ensures
        r == cap(reads_exprs(*v, v.len() as int, f@)),
    decreases v, v.len(),
{
    let mut c: usize = 0;
    let mut i: usize = 0;
    while i < v.len()
        invariant
            i <= v.len(),
            c == cap(reads_exprs(*v, i as int, f@)),
        decreases v.len() - i,
    {
        proof { assert(decreases_to!(*v => v[i as int])); }
        let x = count_field_reads_in_expr(&v[i], f);
        c = sat_add(c, x);
        i = i + 1;
    }
    c
}

fn count_reads_fields(v: &Vec<RecordLitField>, f: &str) -> (r: usize)
    ensures
        r == cap(reads_fields(*v, v.len() as int, f@)),
    decreases v, v.len(),
{
    let mut c: usize = 0;
    let mut i: usize = 0;
    while i < v.len()
        invariant
            i <= v.len(),
            c == cap(reads_fields(*v, i as int, f@)),
        decreases v.len() - i,
    {
        proof { assert(decreases_to!(*v => v[i as int])); }
        let x = match &v[i].value {
            Some(val) => count_field_reads_in_expr(val, f),
            None => 0,
        };
        c = sat_add(c, x);
        i = i + 1;
    }
    c
}

fn count_reads_arms(v: &Vec<MatchArm>, f: &str) -> (r: usize)
    ensures
        r == cap(reads_arms(*v, v.len() as int, f@)),
    decreases v, v.len(),
{
    let mut c: usize = 0;
    let mut i: usize = 0;
    while i < v.len()
        invariant
            i <= v.len(),
            c == cap(reads_arms(*v, i as int, f@)),
        decreases v.len() - i,
    {
        proof { assert(decreases_to!(*v => v[i as int])); }
        let x = match &v[i].body {
            MatchArmBody::Expr(b) => count_field_reads_in_expr(b, f),
            MatchArmBody::Block(b) => count_field_reads_in_block(b, f),
        };
        c = sat_add(c, x);
        i = i + 1;
    }
    c
}

/// Reads of `@f` in a block, capped at `usize::MAX`.
pub fn count_field_reads_in_block(b: &Block, f: &str) -> (r: usize)
    ensures
        r == cap(reads_block(*b, f@)),
    decreases b, 0int,
{
    let a = count_reads_stmts(&b.stmts, f);
    let t = match &b.trailing {
        Some(x) => count_field_reads_in_expr(x, f),
        None => 0,
    };
    sat_add(a, t)
}

fn count_reads_stmts(v: &Vec<Stmt>, f: &str) -> (r: usize)
    ensures
        r == cap(reads_stmts(*v, v.len() as int, f@)),
    decreases v, v.len(),
{
    let mut c: usize = 0;
    let mut i: usize = 0;
    while i < v.len()
        invariant
            i <= v.len(),
            c == cap(reads_stmts(*v, i as int, f@)),
        decreases v.len() - i,
    {
        proof { assert(decreases_to!(*v => v[i as int])); }
        let x = count_field_reads_in_stmt(&v[i], f);
        c = sat_add(c, x);
        i = i + 1;
    }
    c
}

/// Reads of `@f` in a statement, capped at `usize::MAX`.
pub fn count_field_reads_in_stmt(s: &Stmt, f: &str) -> (r: usize)
    ensures
        r == cap(reads_stmt(*s, f@)),
    decreases s, 0int,
{
    match s {
        Stmt::Let(d) => count_field_reads_in_expr(&d.value, f),
        Stmt::Assign { target, value, .. } => {
            let t = if self_field(target).is_some() {
                0
            } else {
                count_field_reads_in_expr(target, f)
            };
            sat_add(t, count_field_reads_in_expr(value, f))
        },
        Stmt::Expr(x) => count_field_reads_in_expr(x, f),
        Stmt::Return { value, .. } => match value {
            Some(x) => count_field_reads_in_expr(x, f),
            None => 0,
        },
        _ => 0,
    }
}

} // verus!
