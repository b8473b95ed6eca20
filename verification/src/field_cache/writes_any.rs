//! Whether a method body assigns any receiver field.

use vstd::prelude::*;
use crate::ast::{Block, ElseBranch, Expr, ExprKind, FnBody, MatchArm, MatchArmBody, RecordLitField, Stmt};
use crate::field_cache::reads::{self_field, self_field_of};

verus! {

/// Some assignment `@g = v` to a receiver field occurs in `e` (outside
/// closures).
pub open spec fn writes_any_expr(e: Expr) -> bool
    decreases e, 0int,
{
    match self_field_of(e) {
        Some(g) => false,
        None => match e.kind {
            ExprKind::Member { obj, .. } => writes_any_expr(*obj),
            ExprKind::Call { func, args } => writes_any_expr(*func) || writes_any_exprs(args, args.len() as int),
            ExprKind::Binary { left, right, .. } => writes_any_expr(*left) || writes_any_expr(*right),
            ExprKind::Unary { operand, .. } => writes_any_expr(*operand),
            ExprKind::Index { obj, index } => writes_any_expr(*obj) || writes_any_expr(*index),
            ExprKind::If { cond, then, else_ } | ExprKind::IfLet { scrutinee: cond, then, else_, .. } => writes_any_expr(*cond) || writes_any_block(then) || match else_ {
                Some(ElseBranch::Block(b)) => writes_any_block(b),
                Some(ElseBranch::If(x)) => writes_any_expr(*x),
                None => false,
            },
            ExprKind::While { cond, body } | ExprKind::WhileLet { scrutinee: cond, body, .. } | ExprKind::For { iter: cond, body, .. } | ExprKind::ParallelFor { iter: cond, body, .. } => writes_any_expr(*cond) || writes_any_block(body),
            ExprKind::Match { scrutinee, arms } => writes_any_expr(*scrutinee) || writes_any_arms(arms, arms.len() as int),
            ExprKind::Block(b) => writes_any_block(b),
            ExprKind::Lambda { body, .. } => false,
            ExprKind::Spawn(x) | ExprKind::NamedArg { value: x, .. } | ExprKind::Try(x) => writes_any_expr(*x),
            ExprKind::TupleLit(items) | ExprKind::ArrayLit(items) => writes_any_exprs(items, items.len() as int),
            ExprKind::RecordLit { fields, .. } => writes_any_fields(fields, fields.len() as int),
            _ => false,
        },
    }
}

pub open spec fn writes_any_exprs(v: Vec<Expr>, k: int) -> bool
    decreases v, k,
{
    if k <= 0 || k > v.len() { false } else { writes_any_exprs(v, k - 1) || writes_any_expr(v[k - 1]) }
}

pub open spec fn writes_any_fields(v: Vec<RecordLitField>, k: int) -> bool
    decreases v, k,
{
    if k <= 0 || k > v.len() {
        false
    } else {
        writes_any_fields(v, k - 1) || match v[k - 1].value {
            Some(x) => writes_any_expr(x),
            None => false,
        }
    }
}

pub open spec fn writes_any_arms(v: Vec<MatchArm>, k: int) -> bool
    decreases v, k,
{
    if k <= 0 || k > v.len() {
        false
    } else {
        writes_any_arms(v, k - 1) || match v[k - 1].body {
            MatchArmBody::Expr(x) => writes_any_expr(x),
            MatchArmBody::Block(b) => writes_any_block(b),
        }
    }
}

pub open spec fn writes_any_block(b: Block) -> bool
    decreases b, 0int,
{
    writes_any_stmts(b.stmts, b.stmts.len() as int) || match b.trailing {
        Some(t) => writes_any_expr(*t),
        None => false,
    }
}

pub open spec fn writes_any_stmts(v: Vec<Stmt>, k: int) -> bool
    decreases v, k,
{
    if k <= 0 || k > v.len() { false } else { writes_any_stmts(v, k - 1) || writes_any_stmt(v[k - 1]) }
}

pub open spec fn writes_any_stmt(s: Stmt) -> bool
    decreases s, 0int,
{
    match s {
        Stmt::Let(d) => writes_any_expr(d.value),
        Stmt::Assign { target, value, .. } => self_field_of(target) is Some || writes_any_expr(target) || writes_any_expr(value),
        Stmt::Expr(x) => writes_any_expr(x),
        Stmt::Return { value, .. } => match value {
            Some(x) => writes_any_expr(x),
            None => false,
        },
        _ => false,
    }
}

/// Executable form of `writes_any_expr`.
pub fn writes_any_in_expr(e: &Expr) -> (r: bool)
    ensures
        r == writes_any_expr(*e),
    decreases e, 0int,
{
    if self_field(e).is_some() {
        return false;
    }
    match &e.kind {
        ExprKind::Member { obj, .. } => writes_any_in_expr(obj),
        ExprKind::Call { func, args } => {
            writes_any_in_expr(func) || writes_any_in_exprs(args)
        },
        ExprKind::Binary { left, right, .. } => writes_any_in_expr(left) || writes_any_in_expr(right),
        ExprKind::Unary { operand, .. } => writes_any_in_expr(operand),
        ExprKind::Index { obj, index } => writes_any_in_expr(obj) || writes_any_in_expr(index),
        ExprKind::If { cond, then, else_ } | ExprKind::IfLet { scrutinee: cond, then, else_, .. } => {
            if writes_any_in_expr(cond) || writes_any_in_block(then) {
                true
            } else {
                match else_ {
                    Some(ElseBranch::Block(b)) => writes_any_in_block(b),
                    Some(ElseBranch::If(x)) => writes_any_in_expr(x),
                    None => false,
                }
            }
        },
        ExprKind::While { cond, body } | ExprKind::WhileLet { scrutinee: cond, body, .. } | ExprKind::For { iter: cond, body, .. } | ExprKind::ParallelFor { iter: cond, body, .. } => writes_any_in_expr(cond) || writes_any_in_block(body),
        ExprKind::Match { scrutinee, arms } => writes_any_in_expr(scrutinee) || writes_any_in_arms(arms),
        ExprKind::Block(b) => writes_any_in_block(b),
        ExprKind::Lambda { body, .. } => false,
        ExprKind::Spawn(x) | ExprKind::NamedArg { value: x, .. } | ExprKind::Try(x) => writes_any_in_expr(x),
        ExprKind::TupleLit(items) | ExprKind::ArrayLit(items) => writes_any_in_exprs(items),
        ExprKind::RecordLit { fields, .. } => writes_any_in_fields(fields),
        _ => false,
    }
}

fn writes_any_in_exprs(v: &Vec<Expr>) -> (r: bool)
    ensures
        r == writes_any_exprs(*v, v.len() as int),
    decreases v, v.len(),
{
    let mut i: usize = 0;
    while i < v.len()
        invariant
            i <= v.len(),
            !writes_any_exprs(*v, i as int),
        decreases v.len() - i,
    {
        proof { assert(decreases_to!(*v => v[i as int])); }
        if writes_any_in_expr(&v[i]) {
            proof { lemma_writes_any_exprs_mono(*v, i as int + 1, v.len() as int); }
            return true;
        }
        i = i + 1;
    }
    false
}

fn writes_any_in_fields(v: &Vec<RecordLitField>) -> (r: bool)
    ensures
        r == writes_any_fields(*v, v.len() as int),
    decreases v, v.len(),
{
    let mut i: usize = 0;
    while i < v.len()
        invariant
            i <= v.len(),
            !writes_any_fields(*v, i as int),
        decreases v.len() - i,
    {
        proof { assert(decreases_to!(*v => v[i as int])); }
        let hit = match &v[i].value {
            Some(x) => writes_any_in_expr(x),
            None => false,
        };
        if hit {
            proof { lemma_writes_any_fields_mono(*v, i as int + 1, v.len() as int); }
            return true;
        }
        i = i + 1;
    }
    false
}

fn writes_any_in_arms(v: &Vec<MatchArm>) -> (r: bool)
    ensures
        r == writes_any_arms(*v, v.len() as int),
    decreases v, v.len(),
{
    let mut i: usize = 0;
    while i < v.len()
        invariant
            i <= v.len(),
            !writes_any_arms(*v, i as int),
        decreases v.len() - i,
    {
        proof { assert(decreases_to!(*v => v[i as int])); }
        let hit = match &v[i].body {
            MatchArmBody::Expr(x) => writes_any_in_expr(x),
            MatchArmBody::Block(b) => writes_any_in_block(b),
        };
        if hit {
            proof { lemma_writes_any_arms_mono(*v, i as int + 1, v.len() as int); }
            return true;
        }
        i = i + 1;
    }
    false
}

/// Executable form of `writes_any_block`.
pub fn writes_any_in_block(b: &Block) -> (r: bool)
    ensures
        r == writes_any_block(*b),
    decreases b, 0int,
{
    if writes_any_in_stmts(&b.stmts) {
        return true;
    }
    match &b.trailing {
        Some(t) => writes_any_in_expr(t),
        None => false,
    }
}

fn writes_any_in_stmts(v: &Vec<Stmt>) -> (r: bool)
    ensures
        r == writes_any_stmts(*v, v.len() as int),
    decreases v, v.len(),
{
    let mut i: usize = 0;
    while i < v.len()
        invariant
            i <= v.len(),
            !writes_any_stmts(*v, i as int),
        decreases v.len() - i,
    {
        proof { assert(decreases_to!(*v => v[i as int])); }
        if writes_any_in_stmt(&v[i]) {
            proof { lemma_writes_any_stmts_mono(*v, i as int + 1, v.len() as int); }
            return true;
        }
        i = i + 1;
    }
    false
}

/// Executable form of `writes_any_stmt`.
pub fn writes_any_in_stmt(s: &Stmt) -> (r: bool)
    ensures
        r == writes_any_stmt(*s),
    decreases s, 0int,
{
    match s {
        Stmt::Let(d) => writes_any_in_expr(&d.value),
        Stmt::Assign { target, value, .. } => {
            let direct = self_field(target).is_some();
            direct || writes_any_in_expr(target) || writes_any_in_expr(value)
        },
        Stmt::Expr(x) => writes_any_in_expr(x),
        Stmt::Return { value, .. } => match value {
            Some(x) => writes_any_in_expr(x),
            None => false,
        },
        _ => false,
    }
}

proof fn lemma_writes_any_exprs_mono(v: Vec<Expr>, i: int, j: int)
    requires
        0 <= i <= j <= v.len(),
        writes_any_exprs(v, i),
    ensures
        writes_any_exprs(v, j),
    decreases j - i,
{
    if i < j {
        lemma_writes_any_exprs_mono(v, i, j - 1);
    }
}

proof fn lemma_writes_any_fields_mono(v: Vec<RecordLitField>, i: int, j: int)
    requires
        0 <= i <= j <= v.len(),
        writes_any_fields(v, i),
    ensures
        writes_any_fields(v, j),
    decreases j - i,
{
    if i < j {
        lemma_writes_any_fields_mono(v, i, j - 1);
    }
}

proof fn lemma_writes_any_arms_mono(v: Vec<MatchArm>, i: int, j: int)
    requires
        0 <= i <= j <= v.len(),
        writes_any_arms(v, i),
    ensures
        writes_any_arms(v, j),
    decreases j - i,
{
    if i < j {
        lemma_writes_any_arms_mono(v, i, j - 1);
    }
}

proof fn lemma_writes_any_stmts_mono(v: Vec<Stmt>, i: int, j: int)
    requires
        0 <= i <= j <= v.len(),
        writes_any_stmts(v, i),
    ensures
        writes_any_stmts(v, j),
    decreases j - i,
{
    if i < j {
        lemma_writes_any_stmts_mono(v, i, j - 1);
    }
}

/// Some receiver field is assigned in the body.
pub open spec fn body_writes_any(b: FnBody) -> bool {
    match b {
        FnBody::Block(bl) => writes_any_block(bl),
        FnBody::Expr(e) => writes_any_expr(e),
        FnBody::External => false,
    }
}

/// Whether some receiver field is assigned in the body.
pub fn body_writes_any_field(b: &FnBody) -> (r: bool)
    ensures
        r == body_writes_any(*b),
{
    match b {
        FnBody::Block(bl) => writes_any_in_block(bl),
        FnBody::Expr(e) => writes_any_in_expr(e),
        FnBody::External => false,
    }
}

} // verus!
