//! Names gathered from method bodies: the receiver fields a body assigns,
//! the receiver methods it calls, and the local names it binds.
//!
//! Each gatherer is a predicate over the syntax tree (`*_expr(e, x)`: `x`
//! occurs) and an executable collector that adds exactly those names to a
//! list.

use vstd::prelude::*;
use crate::ast::{Block, ElseBranch, Expr, ExprKind, MatchArm, MatchArmBody, Pattern, RecordLitField, Stmt};
use crate::field_cache::ipa::{contains_name, names_view};
use crate::field_cache::reads::{self_field, self_field_of};
use crate::text::copy_str;

verus! {

/// `x` is one of the names in `v`.
pub open spec fn has_name(v: Seq<String>, x: Seq<char>) -> bool {
    names_view(v).contains(x)
}

/// Adds `s` to `out` unless it is there already.
pub fn add_name(out: &mut Vec<String>, s: &str)
    ensures
        forall|x: Seq<char>| #[trigger] has_name(final(out)@, x) <==> has_name(old(out)@, x) || x == s@,
        names_view(old(out)@).no_duplicates() ==> names_view(final(out)@).no_duplicates(),
{
    proof {
        assert forall|x: Seq<char>| #[trigger] has_name(old(out)@, x) implies exists|i: int| 0 <= i < old(out)@.len() && old(out)@[i]@ == x by {
            let i = choose|i: int| 0 <= i < names_view(old(out)@).len() && names_view(old(out)@)[i] == x;
            assert(old(out)@[i]@ == x);
        }
    }
    if !contains_name(out, s) {
        let ghost before = out@;
        out.push(copy_str(s));
        proof {
            assert(names_view(out@) =~= names_view(before).push(s@));
            if names_view(before).no_duplicates() {
                assert forall|i: int, j: int| 0 <= i < names_view(out@).len() && 0 <= j < names_view(out@).len() && i != j
                    implies names_view(out@)[i] != names_view(out@)[j] by {
                    if i < before.len() && j < before.len() {
                        assert(names_view(out@)[i] == names_view(before)[i]);
                        assert(names_view(out@)[j] == names_view(before)[j]);
                    } else if i < before.len() {
                        assert(names_view(out@)[i] == names_view(before)[i]);
                    } else {
                        assert(names_view(out@)[j] == names_view(before)[j]);
                    }
                }
            }
        }
        proof {
            assert forall|x: Seq<char>| #[trigger] has_name(out@, x) <==> has_name(old(out)@, x) || x == s@ by {
                if x == s@ {
                    assert(names_view(out@)[out@.len() - 1] == x);
                }
                if has_name(old(out)@, x) {
                    let i = choose|i: int| 0 <= i < old(out)@.len() && old(out)@[i]@ == x;
                    assert(names_view(out@)[i] == x);
                }
                if has_name(out@, x) {
                    let i = choose|i: int| 0 <= i < names_view(out@).len() && names_view(out@)[i] == x;
                    if i < old(out)@.len() {
                        assert(names_view(old(out)@)[i] == x);
                    }
                }
            }
        }
    }
}

/// The receiver field `x` is assigned (`@x = v`) somewhere in `e`, closures, tuple and record literals not included.
pub open spec fn assigns_expr(e: Expr, x: Seq<char>) -> bool
    decreases e, 0int,
{
    match e.kind {
        ExprKind::Member { obj, .. } => assigns_expr(*obj, x),
        ExprKind::Call { func, args } => (match func.kind { ExprKind::Member { obj, .. } => assigns_expr(*obj, x), _ => assigns_expr(*func, x) }) || assigns_exprs(args, args.len() as int, x),
        ExprKind::Binary { left, right, .. } => assigns_expr(*left, x) || assigns_expr(*right, x),
        ExprKind::Unary { operand, .. } => assigns_expr(*operand, x),
        ExprKind::Index { obj, index } => assigns_expr(*obj, x) || assigns_expr(*index, x),
        ExprKind::If { cond, then, else_ } | ExprKind::IfLet { scrutinee: cond, then, else_, .. } => assigns_expr(*cond, x) || assigns_block(then, x) || match else_ {
            Some(ElseBranch::Block(b)) => assigns_block(b, x),
            Some(ElseBranch::If(y)) => assigns_expr(*y, x),
            None => false,
        },
        ExprKind::While { cond, body } | ExprKind::WhileLet { scrutinee: cond, body, .. } | ExprKind::For { iter: cond, body, .. } | ExprKind::ParallelFor { iter: cond, body, .. } => assigns_expr(*cond, x) || assigns_block(body, x),
        ExprKind::Match { scrutinee, arms } => assigns_expr(*scrutinee, x) || assigns_arms(arms, arms.len() as int, x),
        ExprKind::Block(b) => assigns_block(b, x),
        ExprKind::Spawn(y) | ExprKind::NamedArg { value: y, .. } | ExprKind::Try(y) => assigns_expr(*y, x),
        _ => false,
    }
}

pub open spec fn assigns_exprs(v: Vec<Expr>, k: int, x: Seq<char>) -> bool
    decreases v, k,
{
    if k <= 0 || k > v.len() { false } else { assigns_exprs(v, k - 1, x) || assigns_expr(v[k - 1], x) }
}

pub open spec fn assigns_arms(v: Vec<MatchArm>, k: int, x: Seq<char>) -> bool
    decreases v, k,
{
    if k <= 0 || k > v.len() {
        false
    } else {
        assigns_arms(v, k - 1, x) || match v[k - 1].body {
            MatchArmBody::Expr(y) => assigns_expr(y, x),
            MatchArmBody::Block(b) => assigns_block(b, x),
        }
    }
}

pub open spec fn assigns_block(b: Block, x: Seq<char>) -> bool
    decreases b, 0int,
{
    assigns_stmts(b.stmts, b.stmts.len() as int, x) || match b.trailing {
        Some(t) => assigns_expr(*t, x),
        None => false,
    }
}

pub open spec fn assigns_stmts(v: Vec<Stmt>, k: int, x: Seq<char>) -> bool
    decreases v, k,
{
    if k <= 0 || k > v.len() { false } else { assigns_stmts(v, k - 1, x) || assigns_stmt(v[k - 1], x) }
}

pub open spec fn assigns_stmt(s: Stmt, x: Seq<char>) -> bool
    decreases s, 0int,
{
    match s {
        Stmt::Let(d) => assigns_expr(d.value, x),
        Stmt::Assign { target, value, .. } => (match self_field_of(target) { Some(g) => g == x, None => assigns_expr(target, x) }) || assigns_expr(value, x),
        Stmt::Expr(y) => assigns_expr(y, x),
        Stmt::Return { value, .. } => match value {
            Some(y) => assigns_expr(y, x),
            None => false,
        },
        _ => false,
    }
}

/// Adds to `out` the names of `assigns_expr(*e, _)`.
pub fn assigns_collect_expr(e: &Expr, out: &mut Vec<String>)
    ensures
        forall|x: Seq<char>| #[trigger] has_name(final(out)@, x) <==> has_name(old(out)@, x) || assigns_expr(*e, x),
    decreases e, 0int,
{
    match &e.kind {
        ExprKind::Member { obj, .. } => assigns_collect_expr(obj, out),
        ExprKind::Call { func, args } => {
            match &func.kind {
                ExprKind::Member { obj, .. } => assigns_collect_expr(obj, out),
                _ => assigns_collect_expr(func, out),
            }
            assigns_collect_exprs(args, out);
        },
        ExprKind::Binary { left, right, .. } => {
            assigns_collect_expr(left, out);
            assigns_collect_expr(right, out);
        },
        ExprKind::Unary { operand, .. } => assigns_collect_expr(operand, out),
        ExprKind::Index { obj, index } => {
            assigns_collect_expr(obj, out);
            assigns_collect_expr(index, out);
        },
        ExprKind::If { cond, then, else_ } | ExprKind::IfLet { scrutinee: cond, then, else_, .. } => {
            assigns_collect_expr(cond, out);
            assigns_collect_block(then, out);
            match else_ {
                Some(ElseBranch::Block(b)) => assigns_collect_block(b, out),
                Some(ElseBranch::If(y)) => assigns_collect_expr(y, out),
                None => {},
            }
        },
        ExprKind::While { cond, body } | ExprKind::WhileLet { scrutinee: cond, body, .. } | ExprKind::For { iter: cond, body, .. } | ExprKind::ParallelFor { iter: cond, body, .. } => {
            assigns_collect_expr(cond, out);
            assigns_collect_block(body, out);
        },
        ExprKind::Match { scrutinee, arms } => {
            assigns_collect_expr(scrutinee, out);
            assigns_collect_arms(arms, out);
        },
        ExprKind::Block(b) => assigns_collect_block(b, out),
        ExprKind::Spawn(y) | ExprKind::NamedArg { value: y, .. } | ExprKind::Try(y) => assigns_collect_expr(y, out),
        _ => {},
    }
}

fn assigns_collect_exprs(v: &Vec<Expr>, out: &mut Vec<String>)
    ensures
        forall|x: Seq<char>| #[trigger] has_name(final(out)@, x) <==> has_name(old(out)@, x) || assigns_exprs(*v, v.len() as int, x),
    decreases v, v.len(),
{
    let mut i: usize = 0;
    while i < v.len()
        invariant
            i <= v.len(),
            forall|x: Seq<char>| #[trigger] has_name(out@, x) <==> has_name(old(out)@, x) || assigns_exprs(*v, i as int, x),
        decreases v.len() - i,
    {
        proof { assert(decreases_to!(*v => v[i as int])); }
        assigns_collect_expr(&v[i], out);
        i = i + 1;
    }
}

fn assigns_collect_arms(v: &Vec<MatchArm>, out: &mut Vec<String>)
    ensures
        forall|x: Seq<char>| #[trigger] has_name(final(out)@, x) <==> has_name(old(out)@, x) || assigns_arms(*v, v.len() as int, x),
    decreases v, v.len(),
{
    let mut i: usize = 0;
    while i < v.len()
        invariant
            i <= v.len(),
            forall|x: Seq<char>| #[trigger] has_name(out@, x) <==> has_name(old(out)@, x) || assigns_arms(*v, i as int, x),
        decreases v.len() - i,
    {
        proof { assert(decreases_to!(*v => v[i as int])); }
        match &v[i].body {
            MatchArmBody::Expr(y) => assigns_collect_expr(y, out),
            MatchArmBody::Block(b) => assigns_collect_block(b, out),
        }
        i = i + 1;
    }
}

/// Adds to `out` the names of `assigns_block(*b, _)`.
pub fn assigns_collect_block(b: &Block, out: &mut Vec<String>)
    ensures
        forall|x: Seq<char>| #[trigger] has_name(final(out)@, x) <==> has_name(old(out)@, x) || assigns_block(*b, x),
    decreases b, 0int,
{
    assigns_collect_stmts(&b.stmts, out);
    match &b.trailing {
        Some(t) => assigns_collect_expr(t, out),
        None => {},
    }
}

fn assigns_collect_stmts(v: &Vec<Stmt>, out: &mut Vec<String>)
    ensures
        forall|x: Seq<char>| #[trigger] has_name(final(out)@, x) <==> has_name(old(out)@, x) || assigns_stmts(*v, v.len() as int, x),
    decreases v, v.len(),
{
    let mut i: usize = 0;
    while i < v.len()
        invariant
            i <= v.len(),
            forall|x: Seq<char>| #[trigger] has_name(out@, x) <==> has_name(old(out)@, x) || assigns_stmts(*v, i as int, x),
        decreases v.len() - i,
    {
        proof { assert(decreases_to!(*v => v[i as int])); }
        assigns_collect_stmt(&v[i], out);
        i = i + 1;
    }
}

/// Adds to `out` the names of `assigns_stmt(*s, _)`.
pub fn assigns_collect_stmt(s: &Stmt, out: &mut Vec<String>)
    ensures
        forall|x: Seq<char>| #[trigger] has_name(final(out)@, x) <==> has_name(old(out)@, x) || assigns_stmt(*s, x),
    decreases s, 0int,
{
    match s {
        Stmt::Let(d) => {
            assigns_collect_expr(&d.value, out);
        },
        Stmt::Assign { target, value, .. } => {
            match self_field(target) {
                Some(g) => add_name(out, g.as_str()),
                None => assigns_collect_expr(target, out),
            }
            assigns_collect_expr(value, out);
        },
        Stmt::Expr(y) => assigns_collect_expr(y, out),
        Stmt::Return { value, .. } => match value {
            Some(y) => assigns_collect_expr(y, out),
            None => {},
        },
        _ => {},
    }
}
/// The receiver method `x` is called (`@x(..)`) somewhere in `e`, closures, tuple and record literals not included.
pub open spec fn self_calls_expr(e: Expr, x: Seq<char>) -> bool
    decreases e, 0int,
{
    match e.kind {
        ExprKind::Member { obj, .. } => self_calls_expr(*obj, x),
        ExprKind::Call { func, args } => (match func.kind { ExprKind::Member { obj, name } => (obj.kind is SelfAccess && name@ == x) || self_calls_expr(*obj, x), _ => self_calls_expr(*func, x) }) || self_calls_exprs(args, args.len() as int, x),
        ExprKind::Binary { left, right, .. } => self_calls_expr(*left, x) || self_calls_expr(*right, x),
        ExprKind::Unary { operand, .. } => self_calls_expr(*operand, x),
        ExprKind::Index { obj, index } => self_calls_expr(*obj, x) || self_calls_expr(*index, x),
        ExprKind::If { cond, then, else_ } | ExprKind::IfLet { scrutinee: cond, then, else_, .. } => self_calls_expr(*cond, x) || self_calls_block(then, x) || match else_ {
            Some(ElseBranch::Block(b)) => self_calls_block(b, x),
            Some(ElseBranch::If(y)) => self_calls_expr(*y, x),
            None => false,
        },
        ExprKind::While { cond, body } | ExprKind::WhileLet { scrutinee: cond, body, .. } | ExprKind::For { iter: cond, body, .. } | ExprKind::ParallelFor { iter: cond, body, .. } => self_calls_expr(*cond, x) || self_calls_block(body, x),
        ExprKind::Match { scrutinee, arms } => self_calls_expr(*scrutinee, x) || self_calls_arms(arms, arms.len() as int, x),
        ExprKind::Block(b) => self_calls_block(b, x),
        ExprKind::Spawn(y) | ExprKind::NamedArg { value: y, .. } | ExprKind::Try(y) => self_calls_expr(*y, x),
        _ => false,
    }
}

pub open spec fn self_calls_exprs(v: Vec<Expr>, k: int, x: Seq<char>) -> bool
    decreases v, k,
{
    if k <= 0 || k > v.len() { false } else { self_calls_exprs(v, k - 1, x) || self_calls_expr(v[k - 1], x) }
}

pub open spec fn self_calls_arms(v: Vec<MatchArm>, k: int, x: Seq<char>) -> bool
    decreases v, k,
{
    if k <= 0 || k > v.len() {
        false
    } else {
        self_calls_arms(v, k - 1, x) || match v[k - 1].body {
            MatchArmBody::Expr(y) => self_calls_expr(y, x),
            MatchArmBody::Block(b) => self_calls_block(b, x),
        }
    }
}

pub open spec fn self_calls_block(b: Block, x: Seq<char>) -> bool
    decreases b, 0int,
{
    self_calls_stmts(b.stmts, b.stmts.len() as int, x) || match b.trailing {
        Some(t) => self_calls_expr(*t, x),
        None => false,
    }
}

pub open spec fn self_calls_stmts(v: Vec<Stmt>, k: int, x: Seq<char>) -> bool
    decreases v, k,
{
    if k <= 0 || k > v.len() { false } else { self_calls_stmts(v, k - 1, x) || self_calls_stmt(v[k - 1], x) }
}

pub open spec fn self_calls_stmt(s: Stmt, x: Seq<char>) -> bool
    decreases s, 0int,
{
    match s {
        Stmt::Let(d) => self_calls_expr(d.value, x),
        Stmt::Assign { target, value, .. } => (self_field_of(target) is None && self_calls_expr(target, x)) || self_calls_expr(value, x),
        Stmt::Expr(y) => self_calls_expr(y, x),
        Stmt::Return { value, .. } => match value {
            Some(y) => self_calls_expr(y, x),
            None => false,
        },
        _ => false,
    }
}

/// Adds to `out` the names of `self_calls_expr(*e, _)`.
pub fn self_calls_collect_expr(e: &Expr, out: &mut Vec<String>)
    ensures
        forall|x: Seq<char>| #[trigger] has_name(final(out)@, x) <==> has_name(old(out)@, x) || self_calls_expr(*e, x),
    decreases e, 0int,
{
    match &e.kind {
        ExprKind::Member { obj, .. } => self_calls_collect_expr(obj, out),
        ExprKind::Call { func, args } => {
            match &func.kind {
                ExprKind::Member { obj, name } => {
                    if let ExprKind::SelfAccess = &obj.kind {
                        add_name(out, name.as_str());
                    }
                    self_calls_collect_expr(obj, out);
                },
                _ => self_calls_collect_expr(func, out),
            }
            self_calls_collect_exprs(args, out);
        },
        ExprKind::Binary { left, right, .. } => {
            self_calls_collect_expr(left, out);
            self_calls_collect_expr(right, out);
        },
        ExprKind::Unary { operand, .. } => self_calls_collect_expr(operand, out),
        ExprKind::Index { obj, index } => {
            self_calls_collect_expr(obj, out);
            self_calls_collect_expr(index, out);
        },
        ExprKind::If { cond, then, else_ } | ExprKind::IfLet { scrutinee: cond, then, else_, .. } => {
            self_calls_collect_expr(cond, out);
            self_calls_collect_block(then, out);
            match else_ {
                Some(ElseBranch::Block(b)) => self_calls_collect_block(b, out),
                Some(ElseBranch::If(y)) => self_calls_collect_expr(y, out),
                None => {},
            }
        },
        ExprKind::While { cond, body } | ExprKind::WhileLet { scrutinee: cond, body, .. } | ExprKind::For { iter: cond, body, .. } | ExprKind::ParallelFor { iter: cond, body, .. } => {
            self_calls_collect_expr(cond, out);
            self_calls_collect_block(body, out);
        },
        ExprKind::Match { scrutinee, arms } => {
            self_calls_collect_expr(scrutinee, out);
            self_calls_collect_arms(arms, out);
        },
        ExprKind::Block(b) => self_calls_collect_block(b, out),
        ExprKind::Spawn(y) | ExprKind::NamedArg { value: y, .. } | ExprKind::Try(y) => self_calls_collect_expr(y, out),
        _ => {},
    }
}

fn self_calls_collect_exprs(v: &Vec<Expr>, out: &mut Vec<String>)
    ensures
        forall|x: Seq<char>| #[trigger] has_name(final(out)@, x) <==> has_name(old(out)@, x) || self_calls_exprs(*v, v.len() as int, x),
    decreases v, v.len(),
{
    let mut i: usize = 0;
    while i < v.len()
        invariant
            i <= v.len(),
            forall|x: Seq<char>| #[trigger] has_name(out@, x) <==> has_name(old(out)@, x) || self_calls_exprs(*v, i as int, x),
        decreases v.len() - i,
    {
        proof { assert(decreases_to!(*v => v[i as int])); }
        self_calls_collect_expr(&v[i], out);
        i = i + 1;
    }
}

fn self_calls_collect_arms(v: &Vec<MatchArm>, out: &mut Vec<String>)
    ensures
        forall|x: Seq<char>| #[trigger] has_name(final(out)@, x) <==> has_name(old(out)@, x) || self_calls_arms(*v, v.len() as int, x),
    decreases v, v.len(),
{
    let mut i: usize = 0;
    while i < v.len()
        invariant
            i <= v.len(),
            forall|x: Seq<char>| #[trigger] has_name(out@, x) <==> has_name(old(out)@, x) || self_calls_arms(*v, i as int, x),
        decreases v.len() - i,
    {
        proof { assert(decreases_to!(*v => v[i as int])); }
        match &v[i].body {
            MatchArmBody::Expr(y) => self_calls_collect_expr(y, out),
            MatchArmBody::Block(b) => self_calls_collect_block(b, out),
        }
        i = i + 1;
    }
}

/// Adds to `out` the names of `self_calls_block(*b, _)`.
pub fn self_calls_collect_block(b: &Block, out: &mut Vec<String>)
    ensures
        forall|x: Seq<char>| #[trigger] has_name(final(out)@, x) <==> has_name(old(out)@, x) || self_calls_block(*b, x),
    decreases b, 0int,
{
    self_calls_collect_stmts(&b.stmts, out);
    match &b.trailing {
        Some(t) => self_calls_collect_expr(t, out),
        None => {},
    }
}

fn self_calls_collect_stmts(v: &Vec<Stmt>, out: &mut Vec<String>)
    ensures
        forall|x: Seq<char>| #[trigger] has_name(final(out)@, x) <==> has_name(old(out)@, x) || self_calls_stmts(*v, v.len() as int, x),
    decreases v, v.len(),
{
    let mut i: usize = 0;
    while i < v.len()
        invariant
            i <= v.len(),
            forall|x: Seq<char>| #[trigger] has_name(out@, x) <==> has_name(old(out)@, x) || self_calls_stmts(*v, i as int, x),
        decreases v.len() - i,
    {
        proof { assert(decreases_to!(*v => v[i as int])); }
        self_calls_collect_stmt(&v[i], out);
        i = i + 1;
    }
}

/// Adds to `out` the names of `self_calls_stmt(*s, _)`.
pub fn self_calls_collect_stmt(s: &Stmt, out: &mut Vec<String>)
    ensures
        forall|x: Seq<char>| #[trigger] has_name(final(out)@, x) <==> has_name(old(out)@, x) || self_calls_stmt(*s, x),
    decreases s, 0int,
{
    match s {
        Stmt::Let(d) => {
            self_calls_collect_expr(&d.value, out);
        },
        Stmt::Assign { target, value, .. } => {
            if self_field(target).is_none() {
                self_calls_collect_expr(target, out);
            }
            self_calls_collect_expr(value, out);
        },
        Stmt::Expr(y) => self_calls_collect_expr(y, out),
        Stmt::Return { value, .. } => match value {
            Some(y) => self_calls_collect_expr(y, out),
            None => {},
        },
        _ => {},
    }
}

/// The pattern `p` binds the name `x`.
pub open spec fn pattern_binds(p: Pattern, x: Seq<char>) -> bool
    decreases p, 0int,
{
    match p {
        Pattern::Ident { name, .. } => name@ == x,
        Pattern::Tuple(ps) => patterns_bind(ps, ps.len() as int, x),
        Pattern::Variant { args, .. } => patterns_bind(args, args.len() as int, x),
        _ => false,
    }
}

pub open spec fn patterns_bind(v: Vec<Pattern>, k: int, x: Seq<char>) -> bool
    decreases v, k,
{
    if k <= 0 || k > v.len() { false } else { patterns_bind(v, k - 1, x) || pattern_binds(v[k - 1], x) }
}

/// Adds to `out` the names that `p` binds.
pub fn pattern_collect(p: &Pattern, out: &mut Vec<String>)
    ensures
        forall|x: Seq<char>| #[trigger] has_name(final(out)@, x) <==> has_name(old(out)@, x) || pattern_binds(*p, x),
    decreases p, 0int,
{
    match p {
        Pattern::Ident { name, .. } => add_name(out, name.as_str()),
        Pattern::Tuple(ps) => patterns_collect(ps, out),
        Pattern::Variant { args, .. } => patterns_collect(args, out),
        _ => {},
    }
}

fn patterns_collect(v: &Vec<Pattern>, out: &mut Vec<String>)
    ensures
        forall|x: Seq<char>| #[trigger] has_name(final(out)@, x) <==> has_name(old(out)@, x) || patterns_bind(*v, v.len() as int, x),
    decreases v, v.len(),
{
    let mut i: usize = 0;
    while i < v.len()
        invariant
            i <= v.len(),
            forall|x: Seq<char>| #[trigger] has_name(out@, x) <==> has_name(old(out)@, x) || patterns_bind(*v, i as int, x),
        decreases v.len() - i,
    {
        proof { assert(decreases_to!(*v => v[i as int])); }
        pattern_collect(&v[i], out);
        i = i + 1;
    }
}

/// The names of `v`, each once.
pub fn distinct_names(v: &Vec<String>) -> (r: Vec<String>)
    ensures
        names_view(r@).no_duplicates(),
        forall|x: Seq<char>| #[trigger] has_name(r@, x) <==> has_name(v@, x),
{
    let mut r: Vec<String> = Vec::new();
    assert(names_view(r@) =~= Seq::<Seq<char>>::empty());
    add_names(v, &mut r);
    r
}

/// Adds every name of `v` to `out`.
pub fn add_names(v: &Vec<String>, out: &mut Vec<String>)
    ensures
        forall|x: Seq<char>| #[trigger] has_name(final(out)@, x) <==> has_name(old(out)@, x) || has_name(v@, x),
        names_view(old(out)@).no_duplicates() ==> names_view(final(out)@).no_duplicates(),
{
    let mut i: usize = 0;
    while i < v.len()
        invariant
            i <= v.len(),
            names_view(old(out)@).no_duplicates() ==> names_view(out@).no_duplicates(),
            forall|x: Seq<char>| #[trigger] has_name(out@, x) <==> has_name(old(out)@, x) || has_name(v@.subrange(0, i as int), x),
        decreases v.len() - i,
    {
        proof {
            assert forall|x: Seq<char>| #[trigger] has_name(v@.subrange(0, i as int + 1), x) <==> has_name(v@.subrange(0, i as int), x) || x == v@[i as int]@ by {
                let s1 = v@.subrange(0, i as int + 1);
                let s0 = v@.subrange(0, i as int);
                if has_name(s1, x) {
                    let j = choose|j: int| 0 <= j < names_view(s1).len() && names_view(s1)[j] == x;
                    if j < i { assert(names_view(s0)[j] == x); }
                }
                if has_name(s0, x) {
                    let j = choose|j: int| 0 <= j < names_view(s0).len() && names_view(s0)[j] == x;
                    assert(names_view(s1)[j] == x);
                }
                if x == v@[i as int]@ { assert(names_view(s1)[i as int] == x); }
            }
        }
        add_name(out, v[i].as_str());
        i = i + 1;
    }
    assert(v@.subrange(0, v@.len() as int) =~= v@);
}
/// The local name `x` is bound (by a `let`, a `match` arm or a closure parameter) somewhere in `e`.
pub open spec fn binds_expr(e: Expr, x: Seq<char>) -> bool
    decreases e, 0int,
{
    match e.kind {
        ExprKind::Member { obj, .. } => binds_expr(*obj, x),
        ExprKind::Call { func, args } => binds_expr(*func, x) || binds_exprs(args, args.len() as int, x),
        ExprKind::Binary { left, right, .. } => binds_expr(*left, x) || binds_expr(*right, x),
        ExprKind::Unary { operand, .. } => binds_expr(*operand, x),
        ExprKind::Index { obj, index } => binds_expr(*obj, x) || binds_expr(*index, x),
        ExprKind::If { cond, then, else_ } => binds_expr(*cond, x) || binds_block(then, x) || match else_ {
            Some(ElseBranch::Block(b)) => binds_block(b, x),
            Some(ElseBranch::If(y)) => binds_expr(*y, x),
            None => false,
        },
        ExprKind::IfLet { pattern, scrutinee, then, else_ } => pattern_binds(pattern, x) || binds_expr(*scrutinee, x)
            || binds_block(then, x) || match else_ {
            Some(ElseBranch::Block(b)) => binds_block(b, x),
            Some(ElseBranch::If(y)) => binds_expr(*y, x),
            None => false,
        },
        ExprKind::While { cond, body } => binds_expr(*cond, x) || binds_block(body, x),
        ExprKind::WhileLet { pattern, scrutinee, body } => pattern_binds(pattern, x) || binds_expr(*scrutinee, x) || binds_block(body, x),
        ExprKind::For { var, iter, body } => var@ == x || binds_expr(*iter, x) || binds_block(body, x),
        ExprKind::ParallelFor { var, iter, body } => var@ == x || binds_expr(*iter, x) || binds_block(body, x),
        ExprKind::Match { scrutinee, arms } => binds_expr(*scrutinee, x) || binds_arms(arms, arms.len() as int, x),
        ExprKind::Block(b) => binds_block(b, x),
        ExprKind::Spawn(y) | ExprKind::NamedArg { value: y, .. } | ExprKind::Try(y) => binds_expr(*y, x),
            ExprKind::Lambda { params, body } => has_name(params@, x) || binds_expr(*body, x),
            ExprKind::TupleLit(items) | ExprKind::ArrayLit(items) => binds_exprs(items, items.len() as int, x),
            ExprKind::RecordLit { fields, .. } => binds_fields(fields, fields.len() as int, x),
        _ => false,
    }
}

pub open spec fn binds_exprs(v: Vec<Expr>, k: int, x: Seq<char>) -> bool
    decreases v, k,
{
    if k <= 0 || k > v.len() { false } else { binds_exprs(v, k - 1, x) || binds_expr(v[k - 1], x) }
}

pub open spec fn binds_fields(v: Vec<RecordLitField>, k: int, x: Seq<char>) -> bool
    decreases v, k,
{
    if k <= 0 || k > v.len() {
        false
    } else {
        binds_fields(v, k - 1, x) || match v[k - 1].value {
            Some(y) => binds_expr(y, x),
            None => false,
        }
    }
}

pub open spec fn binds_arms(v: Vec<MatchArm>, k: int, x: Seq<char>) -> bool
    decreases v, k,
{
    if k <= 0 || k > v.len() {
        false
    } else {
        binds_arms(v, k - 1, x) || pattern_binds(v[k - 1].pattern, x) || match v[k - 1].body {
            MatchArmBody::Expr(y) => binds_expr(y, x),
            MatchArmBody::Block(b) => binds_block(b, x),
        }
    }
}

pub open spec fn binds_block(b: Block, x: Seq<char>) -> bool
    decreases b, 0int,
{
    binds_stmts(b.stmts, b.stmts.len() as int, x) || match b.trailing {
        Some(t) => binds_expr(*t, x),
        None => false,
    }
}

pub open spec fn binds_stmts(v: Vec<Stmt>, k: int, x: Seq<char>) -> bool
    decreases v, k,
{
    if k <= 0 || k > v.len() { false } else { binds_stmts(v, k - 1, x) || binds_stmt(v[k - 1], x) }
}

pub open spec fn binds_stmt(s: Stmt, x: Seq<char>) -> bool
    decreases s, 0int,
{
    match s {
        Stmt::Let(d) => pattern_binds(d.pattern, x) || binds_expr(d.value, x),
        Stmt::Assign { target, value, .. } => binds_expr(target, x) || binds_expr(value, x),
        Stmt::Expr(y) => binds_expr(y, x),
        Stmt::Return { value, .. } => match value {
            Some(y) => binds_expr(y, x),
            None => false,
        },
        _ => false,
    }
}

/// Adds to `out` the names of `binds_expr(*e, _)`.
pub fn binds_collect_expr(e: &Expr, out: &mut Vec<String>)
    ensures
        forall|x: Seq<char>| #[trigger] has_name(final(out)@, x) <==> has_name(old(out)@, x) || binds_expr(*e, x),
    decreases e, 0int,
{
    match &e.kind {
        ExprKind::Member { obj, .. } => binds_collect_expr(obj, out),
        ExprKind::Call { func, args } => {
            binds_collect_expr(func, out);
            binds_collect_exprs(args, out);
        },
        ExprKind::Binary { left, right, .. } => {
            binds_collect_expr(left, out);
            binds_collect_expr(right, out);
        },
        ExprKind::Unary { operand, .. } => binds_collect_expr(operand, out),
        ExprKind::Index { obj, index } => {
            binds_collect_expr(obj, out);
            binds_collect_expr(index, out);
        },
        ExprKind::If { cond, then, else_ } => {
            binds_collect_expr(cond, out);
            binds_collect_block(then, out);
            match else_ {
                Some(ElseBranch::Block(b)) => binds_collect_block(b, out),
                Some(ElseBranch::If(y)) => binds_collect_expr(y, out),
                None => {},
            }
        },
        ExprKind::IfLet { pattern, scrutinee, then, else_ } => {
            pattern_collect(pattern, out);
            binds_collect_expr(scrutinee, out);
            binds_collect_block(then, out);
            match else_ {
                Some(ElseBranch::Block(b)) => binds_collect_block(b, out),
                Some(ElseBranch::If(y)) => binds_collect_expr(y, out),
                None => {},
            }
        },
        ExprKind::While { cond, body } => {
            binds_collect_expr(cond, out);
            binds_collect_block(body, out);
        },
        ExprKind::WhileLet { pattern, scrutinee, body } => {
            pattern_collect(pattern, out);
            binds_collect_expr(scrutinee, out);
            binds_collect_block(body, out);
        },
        ExprKind::For { var, iter, body } => {
            add_name(out, var.as_str());
            binds_collect_expr(iter, out);
            binds_collect_block(body, out);
        },
        ExprKind::ParallelFor { var, iter, body } => {
            add_name(out, var.as_str());
            binds_collect_expr(iter, out);
            binds_collect_block(body, out);
        },
        ExprKind::Match { scrutinee, arms } => {
            binds_collect_expr(scrutinee, out);
            binds_collect_arms(arms, out);
        },
        ExprKind::Block(b) => binds_collect_block(b, out),
        ExprKind::Spawn(y) | ExprKind::NamedArg { value: y, .. } | ExprKind::Try(y) => binds_collect_expr(y, out),
        ExprKind::Lambda { params, body } => {
            add_names(params, out);
            binds_collect_expr(body, out);
        },
        ExprKind::TupleLit(items) | ExprKind::ArrayLit(items) => binds_collect_exprs(items, out),
        ExprKind::RecordLit { fields, .. } => binds_collect_fields(fields, out),
        _ => {},
    }
}

fn binds_collect_exprs(v: &Vec<Expr>, out: &mut Vec<String>)
    ensures
        forall|x: Seq<char>| #[trigger] has_name(final(out)@, x) <==> has_name(old(out)@, x) || binds_exprs(*v, v.len() as int, x),
    decreases v, v.len(),
{
    let mut i: usize = 0;
    while i < v.len()
        invariant
            i <= v.len(),
            forall|x: Seq<char>| #[trigger] has_name(out@, x) <==> has_name(old(out)@, x) || binds_exprs(*v, i as int, x),
        decreases v.len() - i,
    {
        proof { assert(decreases_to!(*v => v[i as int])); }
        binds_collect_expr(&v[i], out);
        i = i + 1;
    }
}

fn binds_collect_fields(v: &Vec<RecordLitField>, out: &mut Vec<String>)
    ensures
        forall|x: Seq<char>| #[trigger] has_name(final(out)@, x) <==> has_name(old(out)@, x) || binds_fields(*v, v.len() as int, x),
    decreases v, v.len(),
{
    let mut i: usize = 0;
    while i < v.len()
        invariant
            i <= v.len(),
            forall|x: Seq<char>| #[trigger] has_name(out@, x) <==> has_name(old(out)@, x) || binds_fields(*v, i as int, x),
        decreases v.len() - i,
    {
        proof { assert(decreases_to!(*v => v[i as int])); }
        match &v[i].value {
            Some(y) => {
                proof { assert(decreases_to!(v[i as int] => v[i as int].value)); }
                binds_collect_expr(y, out);
            },
            None => {},
        }
        i = i + 1;
    }
}

fn binds_collect_arms(v: &Vec<MatchArm>, out: &mut Vec<String>)
    ensures
        forall|x: Seq<char>| #[trigger] has_name(final(out)@, x) <==> has_name(old(out)@, x) || binds_arms(*v, v.len() as int, x),
    decreases v, v.len(),
{
    let mut i: usize = 0;
    while i < v.len()
        invariant
            i <= v.len(),
            forall|x: Seq<char>| #[trigger] has_name(out@, x) <==> has_name(old(out)@, x) || binds_arms(*v, i as int, x),
        decreases v.len() - i,
    {
        proof { assert(decreases_to!(*v => v[i as int])); }
        pattern_collect(&v[i].pattern, out);
        match &v[i].body {
            MatchArmBody::Expr(y) => binds_collect_expr(y, out),
            MatchArmBody::Block(b) => binds_collect_block(b, out),
        }
        i = i + 1;
    }
}

/// Adds to `out` the names of `binds_block(*b, _)`.
pub fn binds_collect_block(b: &Block, out: &mut Vec<String>)
    ensures
        forall|x: Seq<char>| #[trigger] has_name(final(out)@, x) <==> has_name(old(out)@, x) || binds_block(*b, x),
    decreases b, 0int,
{
    binds_collect_stmts(&b.stmts, out);
    match &b.trailing {
        Some(t) => binds_collect_expr(t, out),
        None => {},
    }
}

fn binds_collect_stmts(v: &Vec<Stmt>, out: &mut Vec<String>)
    ensures
        forall|x: Seq<char>| #[trigger] has_name(final(out)@, x) <==> has_name(old(out)@, x) || binds_stmts(*v, v.len() as int, x),
    decreases v, v.len(),
{
    let mut i: usize = 0;
    while i < v.len()
        invariant
            i <= v.len(),
            forall|x: Seq<char>| #[trigger] has_name(out@, x) <==> has_name(old(out)@, x) || binds_stmts(*v, i as int, x),
        decreases v.len() - i,
    {
        proof { assert(decreases_to!(*v => v[i as int])); }
        binds_collect_stmt(&v[i], out);
        i = i + 1;
    }
}

/// Adds to `out` the names of `binds_stmt(*s, _)`.
pub fn binds_collect_stmt(s: &Stmt, out: &mut Vec<String>)
    ensures
        forall|x: Seq<char>| #[trigger] has_name(final(out)@, x) <==> has_name(old(out)@, x) || binds_stmt(*s, x),
    decreases s, 0int,
{
    match s {
        Stmt::Let(d) => {
            pattern_collect(&d.pattern, out);
            binds_collect_expr(&d.value, out);
        },
        Stmt::Assign { target, value, .. } => {
            binds_collect_expr(target, out);
            binds_collect_expr(value, out);
        },
        Stmt::Expr(y) => binds_collect_expr(y, out),
        Stmt::Return { value, .. } => match value {
            Some(y) => binds_collect_expr(y, out),
            None => {},
        },
        _ => {},
    }
}

} // verus!
