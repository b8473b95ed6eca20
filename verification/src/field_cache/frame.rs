//! The field reads, the receiver calls seen while reading, and the field
//! writes of a method body, as the read-set registry and the pure-call
//! cache see them (tuple and record literals included, closures not).
//!
//! Each is a predicate over the syntax tree (`*_expr(e, x)`: `x` occurs) and
//! a collector that adds exactly those names to a list.

use vstd::prelude::*;
use crate::ast::{Block, ElseBranch, Expr, ExprKind, MatchArm, MatchArmBody, RecordLitField, Stmt};
use crate::field_cache::collect::{add_name, has_name};
use crate::field_cache::reads::{self_field, self_field_of};

verus! {

/// The receiver field `x` is read (`@x`) somewhere in `e`: a field that is only assigned (`@x = v`) is not read; closures not included.
pub open spec fn field_read_expr(e: Expr, x: Seq<char>) -> bool
    decreases e, 0int,
{
    match self_field_of(e) {
        Some(g) => g == x,
        None => match e.kind {
                ExprKind::Member { obj, .. } => field_read_expr(*obj, x),
                ExprKind::Call { func, args } => (match func.kind { ExprKind::Member { obj, .. } => field_read_expr(*obj, x), _ => field_read_expr(*func, x) }) || field_read_exprs(args, args.len() as int, x),
                ExprKind::Binary { left, right, .. } => field_read_expr(*left, x) || field_read_expr(*right, x),
                ExprKind::Unary { operand, .. } => field_read_expr(*operand, x),
                ExprKind::Index { obj, index } => field_read_expr(*obj, x) || field_read_expr(*index, x),
                ExprKind::If { cond, then, else_ } | ExprKind::IfLet { scrutinee: cond, then, else_, .. } => field_read_expr(*cond, x) || field_read_block(then, x) || match else_ {
                    Some(ElseBranch::Block(b)) => field_read_block(b, x),
                    Some(ElseBranch::If(y)) => field_read_expr(*y, x),
                    None => false,
                },
                ExprKind::While { cond, body } | ExprKind::WhileLet { scrutinee: cond, body, .. } | ExprKind::For { iter: cond, body, .. } | ExprKind::ParallelFor { iter: cond, body, .. } => field_read_expr(*cond, x) || field_read_block(body, x),
                ExprKind::Match { scrutinee, arms } => field_read_expr(*scrutinee, x) || field_read_arms(arms, arms.len() as int, x),
                ExprKind::Block(b) => field_read_block(b, x),
                ExprKind::Spawn(y) | ExprKind::NamedArg { value: y, .. } | ExprKind::Try(y) => field_read_expr(*y, x),
                ExprKind::TupleLit(v) | ExprKind::ArrayLit(v) => field_read_exprs(v, v.len() as int, x),
                ExprKind::RecordLit { fields, .. } => field_read_fields(fields, fields.len() as int, x),
                _ => false,
        },
    }
}

pub open spec fn field_read_exprs(v: Vec<Expr>, k: int, x: Seq<char>) -> bool
    decreases v, k,
{
    if k <= 0 || k > v.len() { false } else { field_read_exprs(v, k - 1, x) || field_read_expr(v[k - 1], x) }
}

pub open spec fn field_read_fields(v: Vec<RecordLitField>, k: int, x: Seq<char>) -> bool
    decreases v, k,
{
    if k <= 0 || k > v.len() {
        false
    } else {
        field_read_fields(v, k - 1, x) || match v[k - 1].value {
            Some(y) => field_read_expr(y, x),
            None => false,
        }
    }
}

pub open spec fn field_read_arms(v: Vec<MatchArm>, k: int, x: Seq<char>) -> bool
    decreases v, k,
{
    if k <= 0 || k > v.len() {
        false
    } else {
        field_read_arms(v, k - 1, x) || match v[k - 1].body {
            MatchArmBody::Expr(y) => field_read_expr(y, x),
            MatchArmBody::Block(b) => field_read_block(b, x),
        }
    }
}

pub open spec fn field_read_block(b: Block, x: Seq<char>) -> bool
    decreases b, 0int,
{
    field_read_stmts(b.stmts, b.stmts.len() as int, x) || match b.trailing {
        Some(t) => field_read_expr(*t, x),
        None => false,
    }
}

pub open spec fn field_read_stmts(v: Vec<Stmt>, k: int, x: Seq<char>) -> bool
    decreases v, k,
{
    if k <= 0 || k > v.len() { false } else { field_read_stmts(v, k - 1, x) || field_read_stmt(v[k - 1], x) }
}

pub open spec fn field_read_stmt(s: Stmt, x: Seq<char>) -> bool
    decreases s, 0int,
{
    match s {
        Stmt::Let(d) => field_read_expr(d.value, x),
        Stmt::Assign { target, value, .. } => (self_field_of(target) is None && field_read_expr(target, x)) || field_read_expr(value, x),
        Stmt::Expr(y) => field_read_expr(y, x),
        Stmt::Return { value, .. } => match value {
            Some(y) => field_read_expr(y, x),
            None => false,
        },
        _ => false,
    }
}

/// Adds to `out` the names `x` with `field_read_expr(*e, x)`.
pub fn field_read_collect_expr(e: &Expr, out: &mut Vec<String>)
    ensures
        forall|x: Seq<char>| #[trigger] has_name(final(out)@, x) <==> has_name(old(out)@, x) || field_read_expr(*e, x),
    decreases e, 0int,
{
    if let Some(g) = self_field(e) {
        add_name(out, g.as_str());
        return;
    }
    match &e.kind {
        ExprKind::Member { obj, .. } => field_read_collect_expr(obj, out),
        ExprKind::Call { func, args } => {
            match &func.kind {
                ExprKind::Member { obj, .. } => field_read_collect_expr(obj, out),
                _ => field_read_collect_expr(func, out),
            }
            field_read_collect_exprs(args, out);
        },
        ExprKind::Binary { left, right, .. } => {
            field_read_collect_expr(left, out);
            field_read_collect_expr(right, out);
        },
        ExprKind::Unary { operand, .. } => field_read_collect_expr(operand, out),
        ExprKind::Index { obj, index } => {
            field_read_collect_expr(obj, out);
            field_read_collect_expr(index, out);
        },
        ExprKind::If { cond, then, else_ } | ExprKind::IfLet { scrutinee: cond, then, else_, .. } => {
            field_read_collect_expr(cond, out);
            field_read_collect_block(then, out);
            match else_ {
                Some(ElseBranch::Block(b)) => field_read_collect_block(b, out),
                Some(ElseBranch::If(y)) => field_read_collect_expr(y, out),
                None => {},
            }
        },
        ExprKind::While { cond, body } | ExprKind::WhileLet { scrutinee: cond, body, .. } | ExprKind::For { iter: cond, body, .. } | ExprKind::ParallelFor { iter: cond, body, .. } => {
            field_read_collect_expr(cond, out);
            field_read_collect_block(body, out);
        },
        ExprKind::Match { scrutinee, arms } => {
            field_read_collect_expr(scrutinee, out);
            field_read_collect_arms(arms, out);
        },
        ExprKind::Block(b) => field_read_collect_block(b, out),
        ExprKind::Spawn(y) | ExprKind::NamedArg { value: y, .. } | ExprKind::Try(y) => field_read_collect_expr(y, out),
        ExprKind::TupleLit(v) | ExprKind::ArrayLit(v) => field_read_collect_exprs(v, out),
        ExprKind::RecordLit { fields, .. } => field_read_collect_fields(fields, out),
        _ => {},
    }
}

fn field_read_collect_exprs(v: &Vec<Expr>, out: &mut Vec<String>)
    ensures
        forall|x: Seq<char>| #[trigger] has_name(final(out)@, x) <==> has_name(old(out)@, x) || field_read_exprs(*v, v.len() as int, x),
    decreases v, v.len(),
{
    let mut i: usize = 0;
    while i < v.len()
        invariant
            i <= v.len(),
            forall|x: Seq<char>| #[trigger] has_name(out@, x) <==> has_name(old(out)@, x) || field_read_exprs(*v, i as int, x),
        decreases v.len() - i,
    {
        proof { assert(decreases_to!(*v => v[i as int])); }
        field_read_collect_expr(&v[i], out);
        i = i + 1;
    }
}

fn field_read_collect_fields(v: &Vec<RecordLitField>, out: &mut Vec<String>)
    ensures
        forall|x: Seq<char>| #[trigger] has_name(final(out)@, x) <==> has_name(old(out)@, x) || field_read_fields(*v, v.len() as int, x),
    decreases v, v.len(),
{
    let mut i: usize = 0;
    while i < v.len()
        invariant
            i <= v.len(),
            forall|x: Seq<char>| #[trigger] has_name(out@, x) <==> has_name(old(out)@, x) || field_read_fields(*v, i as int, x),
        decreases v.len() - i,
    {
        proof { assert(decreases_to!(*v => v[i as int])); }
        match &v[i].value {
            Some(y) => field_read_collect_expr(y, out),
            None => {},
        }
        i = i + 1;
    }
}

fn field_read_collect_arms(v: &Vec<MatchArm>, out: &mut Vec<String>)
    ensures
        forall|x: Seq<char>| #[trigger] has_name(final(out)@, x) <==> has_name(old(out)@, x) || field_read_arms(*v, v.len() as int, x),
    decreases v, v.len(),
{
    let mut i: usize = 0;
    while i < v.len()
        invariant
            i <= v.len(),
            forall|x: Seq<char>| #[trigger] has_name(out@, x) <==> has_name(old(out)@, x) || field_read_arms(*v, i as int, x),
        decreases v.len() - i,
    {
        proof { assert(decreases_to!(*v => v[i as int])); }
        match &v[i].body {
            MatchArmBody::Expr(y) => field_read_collect_expr(y, out),
            MatchArmBody::Block(b) => field_read_collect_block(b, out),
        }
        i = i + 1;
    }
}

/// Adds to `out` the names `x` with `field_read_block(*b, x)`.
pub fn field_read_collect_block(b: &Block, out: &mut Vec<String>)
    ensures
        forall|x: Seq<char>| #[trigger] has_name(final(out)@, x) <==> has_name(old(out)@, x) || field_read_block(*b, x),
    decreases b, 0int,
{
    field_read_collect_stmts(&b.stmts, out);
    match &b.trailing {
        Some(t) => field_read_collect_expr(t, out),
        None => {},
    }
}

fn field_read_collect_stmts(v: &Vec<Stmt>, out: &mut Vec<String>)
    ensures
        forall|x: Seq<char>| #[trigger] has_name(final(out)@, x) <==> has_name(old(out)@, x) || field_read_stmts(*v, v.len() as int, x),
    decreases v, v.len(),
{
    let mut i: usize = 0;
    while i < v.len()
        invariant
            i <= v.len(),
            forall|x: Seq<char>| #[trigger] has_name(out@, x) <==> has_name(old(out)@, x) || field_read_stmts(*v, i as int, x),
        decreases v.len() - i,
    {
        proof { assert(decreases_to!(*v => v[i as int])); }
        field_read_collect_stmt(&v[i], out);
        i = i + 1;
    }
}

fn field_read_collect_stmt(s: &Stmt, out: &mut Vec<String>)
    ensures
        forall|x: Seq<char>| #[trigger] has_name(final(out)@, x) <==> has_name(old(out)@, x) || field_read_stmt(*s, x),
    decreases s, 0int,
{
    match s {
        Stmt::Let(d) => {
            field_read_collect_expr(&d.value, out);
        },
        Stmt::Assign { target, value, .. } => {
            if self_field(target).is_none() {
                field_read_collect_expr(target, out);
            }
            field_read_collect_expr(value, out);
        },
        Stmt::Expr(y) => field_read_collect_expr(y, out),
        Stmt::Return { value, .. } => match value {
            Some(y) => field_read_collect_expr(y, out),
            None => {},
        },
        _ => {},
    }
}

/// The receiver method `x` is called (`@x(..)`) somewhere in `e`, reading the way `field_read_expr` does; closures not included.
pub open spec fn read_call_expr(e: Expr, x: Seq<char>) -> bool
    decreases e, 0int,
{
    match e.kind {
        ExprKind::Member { obj, .. } => read_call_expr(*obj, x),
        ExprKind::Call { func, args } => (match func.kind { ExprKind::Member { obj, name } => (obj.kind is SelfAccess && name@ == x) || read_call_expr(*obj, x), _ => read_call_expr(*func, x) }) || read_call_exprs(args, args.len() as int, x),
        ExprKind::Binary { left, right, .. } => read_call_expr(*left, x) || read_call_expr(*right, x),
        ExprKind::Unary { operand, .. } => read_call_expr(*operand, x),
        ExprKind::Index { obj, index } => read_call_expr(*obj, x) || read_call_expr(*index, x),
        ExprKind::If { cond, then, else_ } | ExprKind::IfLet { scrutinee: cond, then, else_, .. } => read_call_expr(*cond, x) || read_call_block(then, x) || match else_ {
            Some(ElseBranch::Block(b)) => read_call_block(b, x),
            Some(ElseBranch::If(y)) => read_call_expr(*y, x),
            None => false,
        },
        ExprKind::While { cond, body } | ExprKind::WhileLet { scrutinee: cond, body, .. } | ExprKind::For { iter: cond, body, .. } | ExprKind::ParallelFor { iter: cond, body, .. } => read_call_expr(*cond, x) || read_call_block(body, x),
        ExprKind::Match { scrutinee, arms } => read_call_expr(*scrutinee, x) || read_call_arms(arms, arms.len() as int, x),
        ExprKind::Block(b) => read_call_block(b, x),
        ExprKind::Spawn(y) | ExprKind::NamedArg { value: y, .. } | ExprKind::Try(y) => read_call_expr(*y, x),
        ExprKind::TupleLit(v) | ExprKind::ArrayLit(v) => read_call_exprs(v, v.len() as int, x),
        ExprKind::RecordLit { fields, .. } => read_call_fields(fields, fields.len() as int, x),
        _ => false,
    }
}

pub open spec fn read_call_exprs(v: Vec<Expr>, k: int, x: Seq<char>) -> bool
    decreases v, k,
{
    if k <= 0 || k > v.len() { false } else { read_call_exprs(v, k - 1, x) || read_call_expr(v[k - 1], x) }
}

pub open spec fn read_call_fields(v: Vec<RecordLitField>, k: int, x: Seq<char>) -> bool
    decreases v, k,
{
    if k <= 0 || k > v.len() {
        false
    } else {
        read_call_fields(v, k - 1, x) || match v[k - 1].value {
            Some(y) => read_call_expr(y, x),
            None => false,
        }
    }
}

pub open spec fn read_call_arms(v: Vec<MatchArm>, k: int, x: Seq<char>) -> bool
    decreases v, k,
{
    if k <= 0 || k > v.len() {
        false
    } else {
        read_call_arms(v, k - 1, x) || match v[k - 1].body {
            MatchArmBody::Expr(y) => read_call_expr(y, x),
            MatchArmBody::Block(b) => read_call_block(b, x),
        }
    }
}

pub open spec fn read_call_block(b: Block, x: Seq<char>) -> bool
    decreases b, 0int,
{
    read_call_stmts(b.stmts, b.stmts.len() as int, x) || match b.trailing {
        Some(t) => read_call_expr(*t, x),
        None => false,
    }
}

pub open spec fn read_call_stmts(v: Vec<Stmt>, k: int, x: Seq<char>) -> bool
    decreases v, k,
{
    if k <= 0 || k > v.len() { false } else { read_call_stmts(v, k - 1, x) || read_call_stmt(v[k - 1], x) }
}

pub open spec fn read_call_stmt(s: Stmt, x: Seq<char>) -> bool
    decreases s, 0int,
{
    match s {
        Stmt::Let(d) => read_call_expr(d.value, x),
        Stmt::Assign { target, value, .. } => (self_field_of(target) is None && read_call_expr(target, x)) || read_call_expr(value, x),
        Stmt::Expr(y) => read_call_expr(y, x),
        Stmt::Return { value, .. } => match value {
            Some(y) => read_call_expr(y, x),
            None => false,
        },
        _ => false,
    }
}

/// Adds to `out` the names `x` with `read_call_expr(*e, x)`.
pub fn read_call_collect_expr(e: &Expr, out: &mut Vec<String>)
    ensures
        forall|x: Seq<char>| #[trigger] has_name(final(out)@, x) <==> has_name(old(out)@, x) || read_call_expr(*e, x),
    decreases e, 0int,
{
    match &e.kind {
        ExprKind::Member { obj, .. } => read_call_collect_expr(obj, out),
        ExprKind::Call { func, args } => {
            match &func.kind {
                ExprKind::Member { obj, name } => {
                    if let ExprKind::SelfAccess = &obj.kind {
                        add_name(out, name.as_str());
                    }
                    read_call_collect_expr(obj, out);
                },
                _ => read_call_collect_expr(func, out),
            }
            read_call_collect_exprs(args, out);
        },
        ExprKind::Binary { left, right, .. } => {
            read_call_collect_expr(left, out);
            read_call_collect_expr(right, out);
        },
        ExprKind::Unary { operand, .. } => read_call_collect_expr(operand, out),
        ExprKind::Index { obj, index } => {
            read_call_collect_expr(obj, out);
            read_call_collect_expr(index, out);
        },
        ExprKind::If { cond, then, else_ } | ExprKind::IfLet { scrutinee: cond, then, else_, .. } => {
            read_call_collect_expr(cond, out);
            read_call_collect_block(then, out);
            match else_ {
                Some(ElseBranch::Block(b)) => read_call_collect_block(b, out),
                Some(ElseBranch::If(y)) => read_call_collect_expr(y, out),
                None => {},
            }
        },
        ExprKind::While { cond, body } | ExprKind::WhileLet { scrutinee: cond, body, .. } | ExprKind::For { iter: cond, body, .. } | ExprKind::ParallelFor { iter: cond, body, .. } => {
            read_call_collect_expr(cond, out);
            read_call_collect_block(body, out);
        },
        ExprKind::Match { scrutinee, arms } => {
            read_call_collect_expr(scrutinee, out);
            read_call_collect_arms(arms, out);
        },
        ExprKind::Block(b) => read_call_collect_block(b, out),
        ExprKind::Spawn(y) | ExprKind::NamedArg { value: y, .. } | ExprKind::Try(y) => read_call_collect_expr(y, out),
        ExprKind::TupleLit(v) | ExprKind::ArrayLit(v) => read_call_collect_exprs(v, out),
        ExprKind::RecordLit { fields, .. } => read_call_collect_fields(fields, out),
        _ => {},
    }
}

fn read_call_collect_exprs(v: &Vec<Expr>, out: &mut Vec<String>)
    ensures
        forall|x: Seq<char>| #[trigger] has_name(final(out)@, x) <==> has_name(old(out)@, x) || read_call_exprs(*v, v.len() as int, x),
    decreases v, v.len(),
{
    let mut i: usize = 0;
    while i < v.len()
        invariant
            i <= v.len(),
            forall|x: Seq<char>| #[trigger] has_name(out@, x) <==> has_name(old(out)@, x) || read_call_exprs(*v, i as int, x),
        decreases v.len() - i,
    {
        proof { assert(decreases_to!(*v => v[i as int])); }
        read_call_collect_expr(&v[i], out);
        i = i + 1;
    }
}

fn read_call_collect_fields(v: &Vec<RecordLitField>, out: &mut Vec<String>)
    ensures
        forall|x: Seq<char>| #[trigger] has_name(final(out)@, x) <==> has_name(old(out)@, x) || read_call_fields(*v, v.len() as int, x),
    decreases v, v.len(),
{
    let mut i: usize = 0;
    while i < v.len()
        invariant
            i <= v.len(),
            forall|x: Seq<char>| #[trigger] has_name(out@, x) <==> has_name(old(out)@, x) || read_call_fields(*v, i as int, x),
        decreases v.len() - i,
    {
        proof { assert(decreases_to!(*v => v[i as int])); }
        match &v[i].value {
            Some(y) => read_call_collect_expr(y, out),
            None => {},
        }
        i = i + 1;
    }
}

fn read_call_collect_arms(v: &Vec<MatchArm>, out: &mut Vec<String>)
    ensures
        forall|x: Seq<char>| #[trigger] has_name(final(out)@, x) <==> has_name(old(out)@, x) || read_call_arms(*v, v.len() as int, x),
    decreases v, v.len(),
{
    let mut i: usize = 0;
    while i < v.len()
        invariant
            i <= v.len(),
            forall|x: Seq<char>| #[trigger] has_name(out@, x) <==> has_name(old(out)@, x) || read_call_arms(*v, i as int, x),
        decreases v.len() - i,
    {
        proof { assert(decreases_to!(*v => v[i as int])); }
        match &v[i].body {
            MatchArmBody::Expr(y) => read_call_collect_expr(y, out),
            MatchArmBody::Block(b) => read_call_collect_block(b, out),
        }
        i = i + 1;
    }
}

/// Adds to `out` the names `x` with `read_call_block(*b, x)`.
pub fn read_call_collect_block(b: &Block, out: &mut Vec<String>)
    ensures
        forall|x: Seq<char>| #[trigger] has_name(final(out)@, x) <==> has_name(old(out)@, x) || read_call_block(*b, x),
    decreases b, 0int,
{
    read_call_collect_stmts(&b.stmts, out);
    match &b.trailing {
        Some(t) => read_call_collect_expr(t, out),
        None => {},
    }
}

fn read_call_collect_stmts(v: &Vec<Stmt>, out: &mut Vec<String>)
    ensures
        forall|x: Seq<char>| #[trigger] has_name(final(out)@, x) <==> has_name(old(out)@, x) || read_call_stmts(*v, v.len() as int, x),
    decreases v, v.len(),
{
    let mut i: usize = 0;
    while i < v.len()
        invariant
            i <= v.len(),
            forall|x: Seq<char>| #[trigger] has_name(out@, x) <==> has_name(old(out)@, x) || read_call_stmts(*v, i as int, x),
        decreases v.len() - i,
    {
        proof { assert(decreases_to!(*v => v[i as int])); }
        read_call_collect_stmt(&v[i], out);
        i = i + 1;
    }
}

fn read_call_collect_stmt(s: &Stmt, out: &mut Vec<String>)
    ensures
        forall|x: Seq<char>| #[trigger] has_name(final(out)@, x) <==> has_name(old(out)@, x) || read_call_stmt(*s, x),
    decreases s, 0int,
{
    match s {
        Stmt::Let(d) => {
            read_call_collect_expr(&d.value, out);
        },
        Stmt::Assign { target, value, .. } => {
            if self_field(target).is_none() {
                read_call_collect_expr(target, out);
            }
            read_call_collect_expr(value, out);
        },
        Stmt::Expr(y) => read_call_collect_expr(y, out),
        Stmt::Return { value, .. } => match value {
            Some(y) => read_call_collect_expr(y, out),
            None => {},
        },
        _ => {},
    }
}

/// The receiver field `x` is assigned (`@x = v`) somewhere in `e`, literals included, closures not.
pub open spec fn field_write_expr(e: Expr, x: Seq<char>) -> bool
    decreases e, 0int,
{
    match e.kind {
        ExprKind::Member { obj, .. } => field_write_expr(*obj, x),
        ExprKind::Call { func, args } => field_write_expr(*func, x) || field_write_exprs(args, args.len() as int, x),
        ExprKind::Binary { left, right, .. } => field_write_expr(*left, x) || field_write_expr(*right, x),
        ExprKind::Unary { operand, .. } => field_write_expr(*operand, x),
        ExprKind::Index { obj, index } => field_write_expr(*obj, x) || field_write_expr(*index, x),
        ExprKind::If { cond, then, else_ } | ExprKind::IfLet { scrutinee: cond, then, else_, .. } => field_write_expr(*cond, x) || field_write_block(then, x) || match else_ {
            Some(ElseBranch::Block(b)) => field_write_block(b, x),
            Some(ElseBranch::If(y)) => field_write_expr(*y, x),
            None => false,
        },
        ExprKind::While { cond, body } | ExprKind::WhileLet { scrutinee: cond, body, .. } | ExprKind::For { iter: cond, body, .. } | ExprKind::ParallelFor { iter: cond, body, .. } => field_write_expr(*cond, x) || field_write_block(body, x),
        ExprKind::Match { scrutinee, arms } => field_write_expr(*scrutinee, x) || field_write_arms(arms, arms.len() as int, x),
        ExprKind::Block(b) => field_write_block(b, x),
        ExprKind::Spawn(y) | ExprKind::NamedArg { value: y, .. } | ExprKind::Try(y) => field_write_expr(*y, x),
        ExprKind::TupleLit(v) | ExprKind::ArrayLit(v) => field_write_exprs(v, v.len() as int, x),
        ExprKind::RecordLit { fields, .. } => field_write_fields(fields, fields.len() as int, x),
        _ => false,
    }
}

pub open spec fn field_write_exprs(v: Vec<Expr>, k: int, x: Seq<char>) -> bool
    decreases v, k,
{
    if k <= 0 || k > v.len() { false } else { field_write_exprs(v, k - 1, x) || field_write_expr(v[k - 1], x) }
}

pub open spec fn field_write_fields(v: Vec<RecordLitField>, k: int, x: Seq<char>) -> bool
    decreases v, k,
{
    if k <= 0 || k > v.len() {
        false
    } else {
        field_write_fields(v, k - 1, x) || match v[k - 1].value {
            Some(y) => field_write_expr(y, x),
            None => false,
        }
    }
}

pub open spec fn field_write_arms(v: Vec<MatchArm>, k: int, x: Seq<char>) -> bool
    decreases v, k,
{
    if k <= 0 || k > v.len() {
        false
    } else {
        field_write_arms(v, k - 1, x) || match v[k - 1].body {
            MatchArmBody::Expr(y) => field_write_expr(y, x),
            MatchArmBody::Block(b) => field_write_block(b, x),
        }
    }
}

pub open spec fn field_write_block(b: Block, x: Seq<char>) -> bool
    decreases b, 0int,
{
    field_write_stmts(b.stmts, b.stmts.len() as int, x) || match b.trailing {
        Some(t) => field_write_expr(*t, x),
        None => false,
    }
}

pub open spec fn field_write_stmts(v: Vec<Stmt>, k: int, x: Seq<char>) -> bool
    decreases v, k,
{
    if k <= 0 || k > v.len() { false } else { field_write_stmts(v, k - 1, x) || field_write_stmt(v[k - 1], x) }
}

pub open spec fn field_write_stmt(s: Stmt, x: Seq<char>) -> bool
    decreases s, 0int,
{
    match s {
        Stmt::Let(d) => field_write_expr(d.value, x),
        Stmt::Assign { target, value, .. } => (match self_field_of(target) { Some(g) => g == x, None => field_write_expr(target, x) }) || field_write_expr(value, x),
        Stmt::Expr(y) => field_write_expr(y, x),
        Stmt::Return { value, .. } => match value {
            Some(y) => field_write_expr(y, x),
            None => false,
        },
        _ => false,
    }
}

/// Adds to `out` the names `x` with `field_write_expr(*e, x)`.
pub fn field_write_collect_expr(e: &Expr, out: &mut Vec<String>)
    ensures
        forall|x: Seq<char>| #[trigger] has_name(final(out)@, x) <==> has_name(old(out)@, x) || field_write_expr(*e, x),
    decreases e, 0int,
{
    match &e.kind {
        ExprKind::Member { obj, .. } => field_write_collect_expr(obj, out),
        ExprKind::Call { func, args } => {
            field_write_collect_expr(func, out);
            field_write_collect_exprs(args, out);
        },
        ExprKind::Binary { left, right, .. } => {
            field_write_collect_expr(left, out);
            field_write_collect_expr(right, out);
        },
        ExprKind::Unary { operand, .. } => field_write_collect_expr(operand, out),
        ExprKind::Index { obj, index } => {
            field_write_collect_expr(obj, out);
            field_write_collect_expr(index, out);
        },
        ExprKind::If { cond, then, else_ } | ExprKind::IfLet { scrutinee: cond, then, else_, .. } => {
            field_write_collect_expr(cond, out);
            field_write_collect_block(then, out);
            match else_ {
                Some(ElseBranch::Block(b)) => field_write_collect_block(b, out),
                Some(ElseBranch::If(y)) => field_write_collect_expr(y, out),
                None => {},
            }
        },
        ExprKind::While { cond, body } | ExprKind::WhileLet { scrutinee: cond, body, .. } | ExprKind::For { iter: cond, body, .. } | ExprKind::ParallelFor { iter: cond, body, .. } => {
            field_write_collect_expr(cond, out);
            field_write_collect_block(body, out);
        },
        ExprKind::Match { scrutinee, arms } => {
            field_write_collect_expr(scrutinee, out);
            field_write_collect_arms(arms, out);
        },
        ExprKind::Block(b) => field_write_collect_block(b, out),
        ExprKind::Spawn(y) | ExprKind::NamedArg { value: y, .. } | ExprKind::Try(y) => field_write_collect_expr(y, out),
        ExprKind::TupleLit(v) | ExprKind::ArrayLit(v) => field_write_collect_exprs(v, out),
        ExprKind::RecordLit { fields, .. } => field_write_collect_fields(fields, out),
        _ => {},
    }
}

fn field_write_collect_exprs(v: &Vec<Expr>, out: &mut Vec<String>)
    ensures
        forall|x: Seq<char>| #[trigger] has_name(final(out)@, x) <==> has_name(old(out)@, x) || field_write_exprs(*v, v.len() as int, x),
    decreases v, v.len(),
{
    let mut i: usize = 0;
    while i < v.len()
        invariant
            i <= v.len(),
            forall|x: Seq<char>| #[trigger] has_name(out@, x) <==> has_name(old(out)@, x) || field_write_exprs(*v, i as int, x),
        decreases v.len() - i,
    {
        proof { assert(decreases_to!(*v => v[i as int])); }
        field_write_collect_expr(&v[i], out);
        i = i + 1;
    }
}

fn field_write_collect_fields(v: &Vec<RecordLitField>, out: &mut Vec<String>)
    ensures
        forall|x: Seq<char>| #[trigger] has_name(final(out)@, x) <==> has_name(old(out)@, x) || field_write_fields(*v, v.len() as int, x),
    decreases v, v.len(),
{
    let mut i: usize = 0;
    while i < v.len()
        invariant
            i <= v.len(),
            forall|x: Seq<char>| #[trigger] has_name(out@, x) <==> has_name(old(out)@, x) || field_write_fields(*v, i as int, x),
        decreases v.len() - i,
    {
        proof { assert(decreases_to!(*v => v[i as int])); }
        match &v[i].value {
            Some(y) => field_write_collect_expr(y, out),
            None => {},
        }
        i = i + 1;
    }
}

fn field_write_collect_arms(v: &Vec<MatchArm>, out: &mut Vec<String>)
    ensures
        forall|x: Seq<char>| #[trigger] has_name(final(out)@, x) <==> has_name(old(out)@, x) || field_write_arms(*v, v.len() as int, x),
    decreases v, v.len(),
{
    let mut i: usize = 0;
    while i < v.len()
        invariant
            i <= v.len(),
            forall|x: Seq<char>| #[trigger] has_name(out@, x) <==> has_name(old(out)@, x) || field_write_arms(*v, i as int, x),
        decreases v.len() - i,
    {
        proof { assert(decreases_to!(*v => v[i as int])); }
        match &v[i].body {
            MatchArmBody::Expr(y) => field_write_collect_expr(y, out),
            MatchArmBody::Block(b) => field_write_collect_block(b, out),
        }
        i = i + 1;
    }
}

/// Adds to `out` the names `x` with `field_write_block(*b, x)`.
pub fn field_write_collect_block(b: &Block, out: &mut Vec<String>)
    ensures
        forall|x: Seq<char>| #[trigger] has_name(final(out)@, x) <==> has_name(old(out)@, x) || field_write_block(*b, x),
    decreases b, 0int,
{
    field_write_collect_stmts(&b.stmts, out);
    match &b.trailing {
        Some(t) => field_write_collect_expr(t, out),
        None => {},
    }
}

fn field_write_collect_stmts(v: &Vec<Stmt>, out: &mut Vec<String>)
    ensures
        forall|x: Seq<char>| #[trigger] has_name(final(out)@, x) <==> has_name(old(out)@, x) || field_write_stmts(*v, v.len() as int, x),
    decreases v, v.len(),
{
    let mut i: usize = 0;
    while i < v.len()
        invariant
            i <= v.len(),
            forall|x: Seq<char>| #[trigger] has_name(out@, x) <==> has_name(old(out)@, x) || field_write_stmts(*v, i as int, x),
        decreases v.len() - i,
    {
        proof { assert(decreases_to!(*v => v[i as int])); }
        field_write_collect_stmt(&v[i], out);
        i = i + 1;
    }
}

fn field_write_collect_stmt(s: &Stmt, out: &mut Vec<String>)
    ensures
        forall|x: Seq<char>| #[trigger] has_name(final(out)@, x) <==> has_name(old(out)@, x) || field_write_stmt(*s, x),
    decreases s, 0int,
{
    match s {
        Stmt::Let(d) => {
            field_write_collect_expr(&d.value, out);
        },
        Stmt::Assign { target, value, .. } => {
            match self_field(target) {
                Some(g) => add_name(out, g.as_str()),
                None => field_write_collect_expr(target, out),
            }
            field_write_collect_expr(value, out);
        },
        Stmt::Expr(y) => field_write_collect_expr(y, out),
        Stmt::Return { value, .. } => match value {
            Some(y) => field_write_collect_expr(y, out),
            None => {},
        },
        _ => {},
    }
}

} // verus!
