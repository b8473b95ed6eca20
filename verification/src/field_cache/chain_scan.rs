//! Where the member chains `@a.b…` of a method body occur: how often a
//! chain occurs, where it first occurs, and which chains occur at all.
//! A chain longer than the depth limit counts as its prefix of that
//! length; in a call `@a.b.m(..)` the method name is not part of a chain.

use vstd::prelude::*;
use crate::ast::{Block, ElseBranch, Expr, ExprKind, MatchArm, MatchArmBody, RecordLitField, Span, Stmt};
use crate::field_cache::chain_path::{chain_path, chain_path_of, insert_path, paths_view, sorted_paths};
use crate::field_cache::ipa::names_view;
use crate::field_cache::reads::cap;

verus! {

/// The chain that `e` is, when it is one of length `2..=maxd`.
pub open spec fn chain_hit(e: Expr, maxd: nat) -> Option<Seq<Seq<char>>> {
    match chain_path(e) {
        Some(q) => if 2 <= q.len() <= maxd { Some(q) } else { None },
        None => None,
    }
}

/// The first of two optional ranges.
pub open spec fn first_of(a: Option<Span>, b: Option<Span>) -> Option<Span> {
    if a is Some { a } else { b }
}

/// Occurrences of chain `p` in `e`, and the range of the first one; with
/// `all`, also those inside closures, else only those outside.
pub open spec fn chain_in_expr(e: Expr, p: Seq<Seq<char>>, maxd: nat, all: bool) -> (nat, Option<Span>)
    decreases e, 0int,
{
    match chain_hit(e, maxd) {
        Some(q) => if q == p { (1, Some(e.span)) } else { (0, None) },
        None => match e.kind {
            ExprKind::Lambda { body, .. } => if all { chain_in_expr(*body, p, maxd, all) } else { (0, None) },
            ExprKind::Member { obj, .. } => chain_in_expr(*obj, p, maxd, all),
            ExprKind::Call { func, args } => {
                let a = match func.kind {
                    ExprKind::Member { obj, .. } => chain_in_expr(*obj, p, maxd, all),
                    _ => chain_in_expr(*func, p, maxd, all),
                };
                let b = chain_in_exprs(args, args.len() as int, p, maxd, all);
                (a.0 + b.0, first_of(a.1, b.1))
            },
            ExprKind::Binary { left, right, .. } => {
                let a = chain_in_expr(*left, p, maxd, all);
                let b = chain_in_expr(*right, p, maxd, all);
                (a.0 + b.0, first_of(a.1, b.1))
            },
            ExprKind::Unary { operand, .. } => chain_in_expr(*operand, p, maxd, all),
            ExprKind::Index { obj, index } => {
                let a = chain_in_expr(*obj, p, maxd, all);
                let b = chain_in_expr(*index, p, maxd, all);
                (a.0 + b.0, first_of(a.1, b.1))
            },
            ExprKind::If { cond, then, else_ } | ExprKind::IfLet { scrutinee: cond, then, else_, .. } => {
                let a = chain_in_expr(*cond, p, maxd, all);
                let b = chain_in_block(then, p, maxd, all);
                let c = match else_ {
                    Some(ElseBranch::Block(x)) => chain_in_block(x, p, maxd, all),
                    Some(ElseBranch::If(x)) => chain_in_expr(*x, p, maxd, all),
                    None => (0, None),
                };
                (a.0 + b.0 + c.0, first_of(first_of(a.1, b.1), c.1))
            },
            ExprKind::While { cond, body } | ExprKind::WhileLet { scrutinee: cond, body, .. } | ExprKind::For { iter: cond, body, .. } | ExprKind::ParallelFor { iter: cond, body, .. } => {
                let a = chain_in_expr(*cond, p, maxd, all);
                let b = chain_in_block(body, p, maxd, all);
                (a.0 + b.0, first_of(a.1, b.1))
            },
            ExprKind::Match { scrutinee, arms } => {
                let a = chain_in_expr(*scrutinee, p, maxd, all);
                let b = chain_in_arms(arms, arms.len() as int, p, maxd, all);
                (a.0 + b.0, first_of(a.1, b.1))
            },
            ExprKind::Block(x) => chain_in_block(x, p, maxd, all),
            ExprKind::Spawn(x) | ExprKind::NamedArg { value: x, .. } | ExprKind::Try(x) => chain_in_expr(*x, p, maxd, all),
            ExprKind::TupleLit(items) | ExprKind::ArrayLit(items) => chain_in_exprs(items, items.len() as int, p, maxd, all),
            ExprKind::RecordLit { fields, .. } => chain_in_fields(fields, fields.len() as int, p, maxd, all),
            _ => (0, None),
        },
    }
}

pub open spec fn chain_in_exprs(v: Vec<Expr>, k: int, p: Seq<Seq<char>>, maxd: nat, all: bool) -> (nat, Option<Span>)
    decreases v, k,
{
    if k <= 0 || k > v.len() {
        (0, None)
    } else {
        let a = chain_in_exprs(v, k - 1, p, maxd, all);
        let b = chain_in_expr(v[k - 1], p, maxd, all);
        (a.0 + b.0, first_of(a.1, b.1))
    }
}

pub open spec fn chain_in_fields(v: Vec<RecordLitField>, k: int, p: Seq<Seq<char>>, maxd: nat, all: bool) -> (nat, Option<Span>)
    decreases v, k,
{
    if k <= 0 || k > v.len() {
        (0, None)
    } else {
        let a = chain_in_fields(v, k - 1, p, maxd, all);
        let b = match v[k - 1].value {
            Some(x) => chain_in_expr(x, p, maxd, all),
            None => (0, None),
        };
        (a.0 + b.0, first_of(a.1, b.1))
    }
}

pub open spec fn chain_in_arms(v: Vec<MatchArm>, k: int, p: Seq<Seq<char>>, maxd: nat, all: bool) -> (nat, Option<Span>)
    decreases v, k,
{
    if k <= 0 || k > v.len() {
        (0, None)
    } else {
        let a = chain_in_arms(v, k - 1, p, maxd, all);
        let b = match v[k - 1].body {
            MatchArmBody::Expr(x) => chain_in_expr(x, p, maxd, all),
            MatchArmBody::Block(x) => chain_in_block(x, p, maxd, all),
        };
        (a.0 + b.0, first_of(a.1, b.1))
    }
}

pub open spec fn chain_in_block(b: Block, p: Seq<Seq<char>>, maxd: nat, all: bool) -> (nat, Option<Span>)
    decreases b, 0int,
{
    let a = chain_in_stmts(b.stmts, b.stmts.len() as int, p, maxd, all);
    let t = match b.trailing {
        Some(x) => chain_in_expr(*x, p, maxd, all),
        None => (0, None),
    };
    (a.0 + t.0, first_of(a.1, t.1))
}

pub open spec fn chain_in_stmts(v: Vec<Stmt>, k: int, p: Seq<Seq<char>>, maxd: nat, all: bool) -> (nat, Option<Span>)
    decreases v, k,
{
    if k <= 0 || k > v.len() {
        (0, None)
    } else {
        let a = chain_in_stmts(v, k - 1, p, maxd, all);
        let b = chain_in_stmt(v[k - 1], p, maxd, all);
        (a.0 + b.0, first_of(a.1, b.1))
    }
}

pub open spec fn chain_in_stmt(s: Stmt, p: Seq<Seq<char>>, maxd: nat, all: bool) -> (nat, Option<Span>)
    decreases s, 0int,
{
    match s {
        Stmt::Let(d) => chain_in_expr(d.value, p, maxd, all),
        Stmt::Assign { target, value, .. } => {
            let a = chain_in_expr(target, p, maxd, all);
            let b = chain_in_expr(value, p, maxd, all);
            (a.0 + b.0, first_of(a.1, b.1))
        },
        Stmt::Expr(x) => chain_in_expr(x, p, maxd, all),
        Stmt::Return { value, .. } => match value {
            Some(x) => chain_in_expr(x, p, maxd, all),
            None => (0, None),
        },
        _ => (0, None),
    }
}

/// The chain `e` is, when it is one of length `2..=maxd` (see `chain_hit`).
fn chain_hit_of(e: &Expr, maxd: usize) -> (r: Option<Vec<String>>)
    ensures
        match r {
            Some(v) => chain_hit(*e, maxd as nat) == Some(names_view(v@)),
            None => chain_hit(*e, maxd as nat) is None,
        },
{
    match chain_path_of(e) {
        Some(v) => {
            if 2 <= v.len() && v.len() <= maxd {
                Some(v)
            } else {
                None
            }
        },
        None => None,
    }
}

fn add_hits(a: (usize, Option<Span>), b: (usize, Option<Span>)) -> (r: (usize, Option<Span>))
    ensures
        r.0 == cap((a.0 + b.0) as nat),
        r.1 == first_of(a.1, b.1),
{
    (a.0.saturating_add(b.0), if a.1.is_some() { a.1 } else { b.1 })
}

/// Occurrences of chain `p` in `e` (capped) and the first one's range (see
/// `chain_in_expr`).
pub fn scan_chain_expr(e: &Expr, p: &Vec<String>, maxd: usize, all: bool) -> (r: (usize, Option<Span>))
    ensures
        r.0 == cap(chain_in_expr(*e, names_view(p@), maxd as nat, all).0),
        r.1 == chain_in_expr(*e, names_view(p@), maxd as nat, all).1,
    decreases e, 0int,
{
    match chain_hit_of(e, maxd) {
        Some(q) => {
            return if crate::field_cache::chain_path::path_eq(&q, p) { (1, Some(e.span)) } else { (0, None) };
        },
        None => {},
    }
    match &e.kind {
        ExprKind::Lambda { body, .. } => if all { scan_chain_expr(body, p, maxd, all) } else { (0, None) },
        ExprKind::Member { obj, .. } => scan_chain_expr(obj, p, maxd, all),
        ExprKind::Call { func, args } => {
            let a = match &func.kind {
                ExprKind::Member { obj, .. } => scan_chain_expr(obj, p, maxd, all),
                _ => scan_chain_expr(func, p, maxd, all),
            };
            let b = scan_chain_exprs(args, p, maxd, all);
            add_hits(a, b)
        },
        ExprKind::Binary { left, right, .. } => {
            let a = scan_chain_expr(left, p, maxd, all);
            let b = scan_chain_expr(right, p, maxd, all);
            add_hits(a, b)
        },
        ExprKind::Unary { operand, .. } => scan_chain_expr(operand, p, maxd, all),
        ExprKind::Index { obj, index } => {
            let a = scan_chain_expr(obj, p, maxd, all);
            let b = scan_chain_expr(index, p, maxd, all);
            add_hits(a, b)
        },
        ExprKind::If { cond, then, else_ } | ExprKind::IfLet { scrutinee: cond, then, else_, .. } => {
            let a = scan_chain_expr(cond, p, maxd, all);
            let b = scan_chain_block(then, p, maxd, all);
            let c = match else_ {
                Some(ElseBranch::Block(x)) => scan_chain_block(x, p, maxd, all),
                Some(ElseBranch::If(x)) => scan_chain_expr(x, p, maxd, all),
                None => (0, None),
            };
            add_hits(add_hits(a, b), c)
        },
        ExprKind::While { cond, body } | ExprKind::WhileLet { scrutinee: cond, body, .. } | ExprKind::For { iter: cond, body, .. } | ExprKind::ParallelFor { iter: cond, body, .. } => {
            let a = scan_chain_expr(cond, p, maxd, all);
            let b = scan_chain_block(body, p, maxd, all);
            add_hits(a, b)
        },
        ExprKind::Match { scrutinee, arms } => {
            let a = scan_chain_expr(scrutinee, p, maxd, all);
            let b = scan_chain_arms(arms, p, maxd, all);
            add_hits(a, b)
        },
        ExprKind::Block(x) => scan_chain_block(x, p, maxd, all),
        ExprKind::Spawn(x) | ExprKind::NamedArg { value: x, .. } | ExprKind::Try(x) => scan_chain_expr(x, p, maxd, all),
        ExprKind::TupleLit(items) | ExprKind::ArrayLit(items) => scan_chain_exprs(items, p, maxd, all),
        ExprKind::RecordLit { fields, .. } => scan_chain_fields(fields, p, maxd, all),
        _ => (0, None),
    }
}

fn scan_chain_exprs(v: &Vec<Expr>, p: &Vec<String>, maxd: usize, all: bool) -> (r: (usize, Option<Span>))
    ensures
        r.0 == cap(chain_in_exprs(*v, v.len() as int, names_view(p@), maxd as nat, all).0),
        r.1 == chain_in_exprs(*v, v.len() as int, names_view(p@), maxd as nat, all).1,
    decreases v, v.len(),
{
    let mut c: (usize, Option<Span>) = (0, None);
    let mut i: usize = 0;
    while i < v.len()
        invariant
            i <= v.len(),
            c.0 == cap(chain_in_exprs(*v, i as int, names_view(p@), maxd as nat, all).0),
            c.1 == chain_in_exprs(*v, i as int, names_view(p@), maxd as nat, all).1,
        decreases v.len() - i,
    {
        proof { assert(decreases_to!(*v => v[i as int])); }
        let x = scan_chain_expr(&v[i], p, maxd, all);
        c = add_hits(c, x);
        i = i + 1;
    }
    c
}

fn scan_chain_fields(v: &Vec<RecordLitField>, p: &Vec<String>, maxd: usize, all: bool) -> (r: (usize, Option<Span>))
    ensures
        r.0 == cap(chain_in_fields(*v, v.len() as int, names_view(p@), maxd as nat, all).0),
        r.1 == chain_in_fields(*v, v.len() as int, names_view(p@), maxd as nat, all).1,
    decreases v, v.len(),
{
    let mut c: (usize, Option<Span>) = (0, None);
    let mut i: usize = 0;
    while i < v.len()
        invariant
            i <= v.len(),
            c.0 == cap(chain_in_fields(*v, i as int, names_view(p@), maxd as nat, all).0),
            c.1 == chain_in_fields(*v, i as int, names_view(p@), maxd as nat, all).1,
        decreases v.len() - i,
    {
        proof { assert(decreases_to!(*v => v[i as int])); }
        let x = match &v[i].value {
            Some(val) => scan_chain_expr(val, p, maxd, all),
            None => (0, None),
        };
        c = add_hits(c, x);
        i = i + 1;
    }
    c
}

fn scan_chain_arms(v: &Vec<MatchArm>, p: &Vec<String>, maxd: usize, all: bool) -> (r: (usize, Option<Span>))
    ensures
        r.0 == cap(chain_in_arms(*v, v.len() as int, names_view(p@), maxd as nat, all).0),
        r.1 == chain_in_arms(*v, v.len() as int, names_view(p@), maxd as nat, all).1,
    decreases v, v.len(),
{
    let mut c: (usize, Option<Span>) = (0, None);
    let mut i: usize = 0;
    while i < v.len()
        invariant
            i <= v.len(),
            c.0 == cap(chain_in_arms(*v, i as int, names_view(p@), maxd as nat, all).0),
            c.1 == chain_in_arms(*v, i as int, names_view(p@), maxd as nat, all).1,
        decreases v.len() - i,
    {
        proof { assert(decreases_to!(*v => v[i as int])); }
        let x = match &v[i].body {
            MatchArmBody::Expr(b) => scan_chain_expr(b, p, maxd, all),
            MatchArmBody::Block(b) => scan_chain_block(b, p, maxd, all),
        };
        c = add_hits(c, x);
        i = i + 1;
    }
    c
}

/// `scan_chain_expr` for a block.
pub fn scan_chain_block(b: &Block, p: &Vec<String>, maxd: usize, all: bool) -> (r: (usize, Option<Span>))
    ensures
        r.0 == cap(chain_in_block(*b, names_view(p@), maxd as nat, all).0),
        r.1 == chain_in_block(*b, names_view(p@), maxd as nat, all).1,
    decreases b, 0int,
{
    let a = scan_chain_stmts(&b.stmts, p, maxd, all);
    let t = match &b.trailing {
        Some(x) => scan_chain_expr(x, p, maxd, all),
        None => (0, None),
    };
    add_hits(a, t)
}

fn scan_chain_stmts(v: &Vec<Stmt>, p: &Vec<String>, maxd: usize, all: bool) -> (r: (usize, Option<Span>))
    ensures
        r.0 == cap(chain_in_stmts(*v, v.len() as int, names_view(p@), maxd as nat, all).0),
        r.1 == chain_in_stmts(*v, v.len() as int, names_view(p@), maxd as nat, all).1,
    decreases v, v.len(),
{
    let mut c: (usize, Option<Span>) = (0, None);
    let mut i: usize = 0;
    while i < v.len()
        invariant
            i <= v.len(),
            c.0 == cap(chain_in_stmts(*v, i as int, names_view(p@), maxd as nat, all).0),
            c.1 == chain_in_stmts(*v, i as int, names_view(p@), maxd as nat, all).1,
        decreases v.len() - i,
    {
        proof { assert(decreases_to!(*v => v[i as int])); }
        let x = scan_chain_stmt(&v[i], p, maxd, all);
        c = add_hits(c, x);
        i = i + 1;
    }
    c
}

fn scan_chain_stmt(s: &Stmt, p: &Vec<String>, maxd: usize, all: bool) -> (r: (usize, Option<Span>))
    ensures
        r.0 == cap(chain_in_stmt(*s, names_view(p@), maxd as nat, all).0),
        r.1 == chain_in_stmt(*s, names_view(p@), maxd as nat, all).1,
    decreases s, 0int,
{
    match s {
        Stmt::Let(d) => scan_chain_expr(&d.value, p, maxd, all),
        Stmt::Assign { target, value, .. } => {
            let a = scan_chain_expr(target, p, maxd, all);
            let b = scan_chain_expr(value, p, maxd, all);
            add_hits(a, b)
        },
        Stmt::Expr(x) => scan_chain_expr(x, p, maxd, all),
        Stmt::Return { value, .. } => match value {
            Some(x) => scan_chain_expr(x, p, maxd, all),
            None => (0, None),
        },
        _ => (0, None),
    }
}


/// Adds to the sorted list `out` every chain occurring in `e` outside
/// closures.
pub fn collect_chains_expr(e: &Expr, maxd: usize, out: &mut Vec<Vec<String>>)
    requires
        sorted_paths(paths_view(old(out)@)),
    ensures
        sorted_paths(paths_view(final(out)@)),
        forall|q: Seq<Seq<char>>| #[trigger] paths_view(final(out)@).contains(q)
            <==> paths_view(old(out)@).contains(q) || chain_in_expr(*e, q, maxd as nat, false).0 > 0,
    decreases e, 0int,
{
    match chain_hit_of(e, maxd) {
        Some(q) => {
            insert_path(out, &q);
            return;
        },
        None => {},
    }
    match &e.kind {
        ExprKind::Member { obj, .. } => collect_chains_expr(obj, maxd, out),
        ExprKind::Call { func, args } => {
            match &func.kind {
                ExprKind::Member { obj, .. } => collect_chains_expr(obj, maxd, out),
                _ => collect_chains_expr(func, maxd, out),
            }
            collect_chains_exprs(args, maxd, out);
        },
        ExprKind::Binary { left, right, .. } => {
            collect_chains_expr(left, maxd, out);
            collect_chains_expr(right, maxd, out);
        },
        ExprKind::Unary { operand, .. } => collect_chains_expr(operand, maxd, out),
        ExprKind::Index { obj, index } => {
            collect_chains_expr(obj, maxd, out);
            collect_chains_expr(index, maxd, out);
        },
        ExprKind::If { cond, then, else_ } | ExprKind::IfLet { scrutinee: cond, then, else_, .. } => {
            collect_chains_expr(cond, maxd, out);
            collect_chains_block(then, maxd, out);
            match else_ {
                Some(ElseBranch::Block(x)) => collect_chains_block(x, maxd, out),
                Some(ElseBranch::If(x)) => collect_chains_expr(x, maxd, out),
                None => {},
            }
        },
        ExprKind::While { cond, body } | ExprKind::WhileLet { scrutinee: cond, body, .. } | ExprKind::For { iter: cond, body, .. } | ExprKind::ParallelFor { iter: cond, body, .. } => {
            collect_chains_expr(cond, maxd, out);
            collect_chains_block(body, maxd, out);
        },
        ExprKind::Match { scrutinee, arms } => {
            collect_chains_expr(scrutinee, maxd, out);
            collect_chains_arms(arms, maxd, out);
        },
        ExprKind::Block(x) => collect_chains_block(x, maxd, out),
        ExprKind::Spawn(x) | ExprKind::NamedArg { value: x, .. } | ExprKind::Try(x) => collect_chains_expr(x, maxd, out),
        ExprKind::TupleLit(items) | ExprKind::ArrayLit(items) => collect_chains_exprs(items, maxd, out),
        ExprKind::RecordLit { fields, .. } => collect_chains_fields(fields, maxd, out),
        _ => {},
    }
}

fn collect_chains_exprs(v: &Vec<Expr>, maxd: usize, out: &mut Vec<Vec<String>>)
    requires
        sorted_paths(paths_view(old(out)@)),
    ensures
        sorted_paths(paths_view(final(out)@)),
        forall|q: Seq<Seq<char>>| #[trigger] paths_view(final(out)@).contains(q)
            <==> paths_view(old(out)@).contains(q) || chain_in_exprs(*v, v.len() as int, q, maxd as nat, false).0 > 0,
    decreases v, v.len(),
{
    let mut i: usize = 0;
    while i < v.len()
        invariant
            i <= v.len(),
            sorted_paths(paths_view(out@)),
            forall|q: Seq<Seq<char>>| #[trigger] paths_view(out@).contains(q)
                <==> paths_view(old(out)@).contains(q) || chain_in_exprs(*v, i as int, q, maxd as nat, false).0 > 0,
        decreases v.len() - i,
    {
        proof { assert(decreases_to!(*v => v[i as int])); }
        collect_chains_expr(&v[i], maxd, out);
        i = i + 1;
    }
}

fn collect_chains_fields(v: &Vec<RecordLitField>, maxd: usize, out: &mut Vec<Vec<String>>)
    requires
        sorted_paths(paths_view(old(out)@)),
    ensures
        sorted_paths(paths_view(final(out)@)),
        forall|q: Seq<Seq<char>>| #[trigger] paths_view(final(out)@).contains(q)
            <==> paths_view(old(out)@).contains(q) || chain_in_fields(*v, v.len() as int, q, maxd as nat, false).0 > 0,
    decreases v, v.len(),
{
    let mut i: usize = 0;
    while i < v.len()
        invariant
            i <= v.len(),
            sorted_paths(paths_view(out@)),
            forall|q: Seq<Seq<char>>| #[trigger] paths_view(out@).contains(q)
                <==> paths_view(old(out)@).contains(q) || chain_in_fields(*v, i as int, q, maxd as nat, false).0 > 0,
        decreases v.len() - i,
    {
        proof { assert(decreases_to!(*v => v[i as int])); }
        match &v[i].value {
            Some(val) => collect_chains_expr(val, maxd, out),
            None => {},
        }
        i = i + 1;
    }
}

fn collect_chains_arms(v: &Vec<MatchArm>, maxd: usize, out: &mut Vec<Vec<String>>)
    requires
        sorted_paths(paths_view(old(out)@)),
    ensures
        sorted_paths(paths_view(final(out)@)),
        forall|q: Seq<Seq<char>>| #[trigger] paths_view(final(out)@).contains(q)
            <==> paths_view(old(out)@).contains(q) || chain_in_arms(*v, v.len() as int, q, maxd as nat, false).0 > 0,
    decreases v, v.len(),
{
    let mut i: usize = 0;
    while i < v.len()
        invariant
            i <= v.len(),
            sorted_paths(paths_view(out@)),
            forall|q: Seq<Seq<char>>| #[trigger] paths_view(out@).contains(q)
                <==> paths_view(old(out)@).contains(q) || chain_in_arms(*v, i as int, q, maxd as nat, false).0 > 0,
        decreases v.len() - i,
    {
        proof { assert(decreases_to!(*v => v[i as int])); }
        match &v[i].body {
            MatchArmBody::Expr(b) => collect_chains_expr(b, maxd, out),
            MatchArmBody::Block(b) => collect_chains_block(b, maxd, out),
        }
        i = i + 1;
    }
}

/// `collect_chains_expr` for a block.
pub fn collect_chains_block(b: &Block, maxd: usize, out: &mut Vec<Vec<String>>)
    requires
        sorted_paths(paths_view(old(out)@)),
    ensures
        sorted_paths(paths_view(final(out)@)),
        forall|q: Seq<Seq<char>>| #[trigger] paths_view(final(out)@).contains(q)
            <==> paths_view(old(out)@).contains(q) || chain_in_block(*b, q, maxd as nat, false).0 > 0,
    decreases b, 0int,
{
    collect_chains_stmts(&b.stmts, maxd, out);
    match &b.trailing {
        Some(x) => collect_chains_expr(x, maxd, out),
        None => {},
    }
}

fn collect_chains_stmts(v: &Vec<Stmt>, maxd: usize, out: &mut Vec<Vec<String>>)
    requires
        sorted_paths(paths_view(old(out)@)),
    ensures
        sorted_paths(paths_view(final(out)@)),
        forall|q: Seq<Seq<char>>| #[trigger] paths_view(final(out)@).contains(q)
            <==> paths_view(old(out)@).contains(q) || chain_in_stmts(*v, v.len() as int, q, maxd as nat, false).0 > 0,
    decreases v, v.len(),
{
    let mut i: usize = 0;
    while i < v.len()
        invariant
            i <= v.len(),
            sorted_paths(paths_view(out@)),
            forall|q: Seq<Seq<char>>| #[trigger] paths_view(out@).contains(q)
                <==> paths_view(old(out)@).contains(q) || chain_in_stmts(*v, i as int, q, maxd as nat, false).0 > 0,
        decreases v.len() - i,
    {
        proof { assert(decreases_to!(*v => v[i as int])); }
        collect_chains_stmt(&v[i], maxd, out);
        i = i + 1;
    }
}

fn collect_chains_stmt(s: &Stmt, maxd: usize, out: &mut Vec<Vec<String>>)
    requires
        sorted_paths(paths_view(old(out)@)),
    ensures
        sorted_paths(paths_view(final(out)@)),
        forall|q: Seq<Seq<char>>| #[trigger] paths_view(final(out)@).contains(q)
            <==> paths_view(old(out)@).contains(q) || chain_in_stmt(*s, q, maxd as nat, false).0 > 0,
    decreases s, 0int,
{
    match s {
        Stmt::Let(d) => collect_chains_expr(&d.value, maxd, out),
        Stmt::Assign { target, value, .. } => {
            collect_chains_expr(target, maxd, out);
            collect_chains_expr(value, maxd, out);
        },
        Stmt::Expr(x) => collect_chains_expr(x, maxd, out),
        Stmt::Return { value, .. } => match value {
            Some(x) => collect_chains_expr(x, maxd, out),
            None => {},
        },
        _ => {},
    }
}

} // verus!
