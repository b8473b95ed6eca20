//! Where the calls `@m(..)` of pure receiver methods with literal
//! arguments occur in a method body: how often a call with a given key
//! (the method and the key of its arguments) occurs, where it first occurs,
//! and which keys occur at all. A call that matches is not searched further.

use vstd::prelude::*;
use crate::ast::{Block, ElseBranch, Expr, ExprKind, MatchArm, MatchArmBody, RecordLitField, Span, Stmt};
use crate::field_cache::literal_key::{canonical_literal_repr, literal_key};
use crate::field_cache::reads::cap;
use crate::field_cache::scc_cache::{insert_pair, pairs_view};
use crate::order::{increasing, pair_lt};
use crate::text::{copy_str, push_char, push_str, str_eq};

verus! {

/// The key of a call's arguments: `_<key>` for each argument in order, if
/// all are literals.
pub open spec fn args_key(v: Vec<Expr>, k: int) -> Option<Seq<char>>
    decreases k,
{
    if k <= 0 || k > v.len() {
        Some(Seq::empty())
    } else {
        match (args_key(v, k - 1), literal_key(v[k - 1])) {
            (Some(a), Some(r)) => Some(a + seq!['_'] + r),
            _ => None,
        }
    }
}

/// When `e` is `@m(args)` with `(t, m)` among the pure methods `pm` and all
/// arguments literals: its key `(m, args key)`.
pub open spec fn pure_hit(e: Expr, pm: Set<(Seq<char>, Seq<char>)>, t: Seq<char>) -> Option<(Seq<char>, Seq<char>)> {
    match e.kind {
        ExprKind::Call { func, args } => match func.kind {
            ExprKind::Member { obj, name } => if obj.kind is SelfAccess && pm.contains((t, name@)) {
                match args_key(args, args.len() as int) {
                    Some(a) => Some((name@, a)),
                    None => None,
                }
            } else {
                None
            },
            _ => None,
        },
        _ => None,
    }
}

/// `(t, m)` is among `pm`.
pub fn has_pair(pm: &Vec<(String, String)>, t: &str, m: &str) -> (r: bool)
    ensures
        r == pairs_view(pm@).to_set().contains((t@, m@)),
{
    let mut i: usize = 0;
    while i < pm.len()
        invariant
            i <= pm@.len(),
            forall|j: int| 0 <= j < i ==> pairs_view(pm@)[j] != (t@, m@),
        decreases pm@.len() - i,
    {
        if str_eq(pm[i].0.as_str(), t) && str_eq(pm[i].1.as_str(), m) {
            assert(pairs_view(pm@)[i as int] == (t@, m@));
            return true;
        }
        i = i + 1;
    }
    false
}

/// The key of the arguments `v` (see `args_key`).
pub fn args_key_of(v: &Vec<Expr>) -> (r: Option<String>)
    ensures
        match r {
            Some(s) => args_key(*v, v.len() as int) == Some(s@),
            None => args_key(*v, v.len() as int) is None,
        },
{
    let mut s = String::new();
    let mut i: usize = 0;
    while i < v.len()
        invariant
            i <= v.len(),
            args_key(*v, i as int) == Some(s@),
        decreases v.len() - i,
    {
        match canonical_literal_repr(&v[i]) {
            Some(r) => {
                push_char(&mut s, '_');
                push_str(&mut s, r.as_str());
            },
            None => {
                proof { lemma_args_key_none(*v, i as int + 1, v.len() as int); }
                return None;
            },
        }
        i = i + 1;
    }
    Some(s)
}

proof fn lemma_args_key_none(v: Vec<Expr>, k: int, n: int)
    requires
        0 < k <= n <= v.len(),
        args_key(v, k) is None,
    ensures
        args_key(v, n) is None,
    decreases n - k,
{
    if k < n {
        lemma_args_key_none(v, k + 1, n);
    }
}

/// The key of `e` when it is a pure call (see `pure_hit`).
pub fn pure_hit_of(e: &Expr, pm: &Vec<(String, String)>, t: &str) -> (r: Option<(String, String)>)
    ensures
        match r {
            Some(q) => pure_hit(*e, pairs_view(pm@).to_set(), t@) == Some((q.0@, q.1@)),
            None => pure_hit(*e, pairs_view(pm@).to_set(), t@) is None,
        },
{
    match &e.kind {
        ExprKind::Call { func, args } => match &func.kind {
            ExprKind::Member { obj, name } => {
                let is_self = match &obj.kind {
                    ExprKind::SelfAccess => true,
                    _ => false,
                };
                if is_self && has_pair(pm, t, name.as_str()) {
                    match args_key_of(args) {
                        Some(a) => Some((copy_str(name.as_str()), a)),
                        None => None,
                    }
                } else {
                    None
                }
            },
            _ => None,
        },
        _ => None,
    }
}


/// The first of two optional ranges.
pub open spec fn first_of(a: Option<Span>, b: Option<Span>) -> Option<Span> {
    if a is Some { a } else { b }
}

/// Occurrences of the pure call `key` in `e`, and the range of the first one; with
/// `all`, also those inside closures, else only those outside.
pub open spec fn pure_in_expr(e: Expr, key: (Seq<char>, Seq<char>), pm: Set<(Seq<char>, Seq<char>)>, t: Seq<char>, all: bool) -> (nat, Option<Span>)
    decreases e, 0int,
{
    match pure_hit(e, pm, t) {
        Some(q) => if q == key { (1, Some(e.span)) } else { (0, None) },
        None => match e.kind {
            ExprKind::Lambda { body, .. } => if all { pure_in_expr(*body, key, pm, t, all) } else { (0, None) },
            ExprKind::Member { obj, .. } => pure_in_expr(*obj, key, pm, t, all),
            ExprKind::Call { func, args } => {
                let a = match func.kind {
                    ExprKind::Member { obj, .. } => pure_in_expr(*obj, key, pm, t, all),
                    _ => pure_in_expr(*func, key, pm, t, all),
                };
                let b = pure_in_exprs(args, args.len() as int, key, pm, t, all);
                (a.0 + b.0, first_of(a.1, b.1))
            },
            ExprKind::Binary { left, right, .. } => {
                let a = pure_in_expr(*left, key, pm, t, all);
                let b = pure_in_expr(*right, key, pm, t, all);
                (a.0 + b.0, first_of(a.1, b.1))
            },
            ExprKind::Unary { operand, .. } => pure_in_expr(*operand, key, pm, t, all),
            ExprKind::Index { obj, index } => {
                let a = pure_in_expr(*obj, key, pm, t, all);
                let b = pure_in_expr(*index, key, pm, t, all);
                (a.0 + b.0, first_of(a.1, b.1))
            },
            ExprKind::If { cond, then, else_ } | ExprKind::IfLet { scrutinee: cond, then, else_, .. } => {
                let a = pure_in_expr(*cond, key, pm, t, all);
                let b = pure_in_block(then, key, pm, t, all);
                let c = match else_ {
                    Some(ElseBranch::Block(x)) => pure_in_block(x, key, pm, t, all),
                    Some(ElseBranch::If(x)) => pure_in_expr(*x, key, pm, t, all),
                    None => (0, None),
                };
                (a.0 + b.0 + c.0, first_of(first_of(a.1, b.1), c.1))
            },
            ExprKind::While { cond, body } | ExprKind::WhileLet { scrutinee: cond, body, .. } | ExprKind::For { iter: cond, body, .. } | ExprKind::ParallelFor { iter: cond, body, .. } => {
                let a = pure_in_expr(*cond, key, pm, t, all);
                let b = pure_in_block(body, key, pm, t, all);
                (a.0 + b.0, first_of(a.1, b.1))
            },
            ExprKind::Match { scrutinee, arms } => {
                let a = pure_in_expr(*scrutinee, key, pm, t, all);
                let b = pure_in_arms(arms, arms.len() as int, key, pm, t, all);
                (a.0 + b.0, first_of(a.1, b.1))
            },
            ExprKind::Block(x) => pure_in_block(x, key, pm, t, all),
            ExprKind::Spawn(x) | ExprKind::NamedArg { value: x, .. } | ExprKind::Try(x) => pure_in_expr(*x, key, pm, t, all),
            ExprKind::TupleLit(items) | ExprKind::ArrayLit(items) => pure_in_exprs(items, items.len() as int, key, pm, t, all),
            ExprKind::RecordLit { fields, .. } => pure_in_fields(fields, fields.len() as int, key, pm, t, all),
            _ => (0, None),
        },
    }
}

pub open spec fn pure_in_exprs(v: Vec<Expr>, k: int, key: (Seq<char>, Seq<char>), pm: Set<(Seq<char>, Seq<char>)>, t: Seq<char>, all: bool) -> (nat, Option<Span>)
    decreases v, k,
{
    if k <= 0 || k > v.len() {
        (0, None)
    } else {
        let a = pure_in_exprs(v, k - 1, key, pm, t, all);
        let b = pure_in_expr(v[k - 1], key, pm, t, all);
        (a.0 + b.0, first_of(a.1, b.1))
    }
}

pub open spec fn pure_in_fields(v: Vec<RecordLitField>, k: int, key: (Seq<char>, Seq<char>), pm: Set<(Seq<char>, Seq<char>)>, t: Seq<char>, all: bool) -> (nat, Option<Span>)
    decreases v, k,
{
    if k <= 0 || k > v.len() {
        (0, None)
    } else {
        let a = pure_in_fields(v, k - 1, key, pm, t, all);
        let b = match v[k - 1].value {
            Some(x) => pure_in_expr(x, key, pm, t, all),
            None => (0, None),
        };
        (a.0 + b.0, first_of(a.1, b.1))
    }
}

pub open spec fn pure_in_arms(v: Vec<MatchArm>, k: int, key: (Seq<char>, Seq<char>), pm: Set<(Seq<char>, Seq<char>)>, t: Seq<char>, all: bool) -> (nat, Option<Span>)
    decreases v, k,
{
    if k <= 0 || k > v.len() {
        (0, None)
    } else {
        let a = pure_in_arms(v, k - 1, key, pm, t, all);
        let b = match v[k - 1].body {
            MatchArmBody::Expr(x) => pure_in_expr(x, key, pm, t, all),
            MatchArmBody::Block(x) => pure_in_block(x, key, pm, t, all),
        };
        (a.0 + b.0, first_of(a.1, b.1))
    }
}

pub open spec fn pure_in_block(b: Block, key: (Seq<char>, Seq<char>), pm: Set<(Seq<char>, Seq<char>)>, t: Seq<char>, all: bool) -> (nat, Option<Span>)
    decreases b, 0int,
{
    let a = pure_in_stmts(b.stmts, b.stmts.len() as int, key, pm, t, all);
    let t = match b.trailing {
        Some(x) => pure_in_expr(*x, key, pm, t, all),
        None => (0, None),
    };
    (a.0 + t.0, first_of(a.1, t.1))
}

pub open spec fn pure_in_stmts(v: Vec<Stmt>, k: int, key: (Seq<char>, Seq<char>), pm: Set<(Seq<char>, Seq<char>)>, t: Seq<char>, all: bool) -> (nat, Option<Span>)
    decreases v, k,
{
    if k <= 0 || k > v.len() {
        (0, None)
    } else {
        let a = pure_in_stmts(v, k - 1, key, pm, t, all);
        let b = pure_in_stmt(v[k - 1], key, pm, t, all);
        (a.0 + b.0, first_of(a.1, b.1))
    }
}

pub open spec fn pure_in_stmt(s: Stmt, key: (Seq<char>, Seq<char>), pm: Set<(Seq<char>, Seq<char>)>, t: Seq<char>, all: bool) -> (nat, Option<Span>)
    decreases s, 0int,
{
    match s {
        Stmt::Let(d) => pure_in_expr(d.value, key, pm, t, all),
        Stmt::Assign { target, value, .. } => {
            let a = pure_in_expr(target, key, pm, t, all);
            let b = pure_in_expr(value, key, pm, t, all);
            (a.0 + b.0, first_of(a.1, b.1))
        },
        Stmt::Expr(x) => pure_in_expr(x, key, pm, t, all),
        Stmt::Return { value, .. } => match value {
            Some(x) => pure_in_expr(x, key, pm, t, all),
            None => (0, None),
        },
        _ => (0, None),
    }
}

fn add_hits(a: (usize, Option<Span>), b: (usize, Option<Span>)) -> (r: (usize, Option<Span>))
    ensures
        r.0 == cap((a.0 + b.0) as nat),
        r.1 == first_of(a.1, b.1),
{
    (a.0.saturating_add(b.0), if a.1.is_some() { a.1 } else { b.1 })
}

/// Occurrences of the pure call `key` in `e` (capped) and the first one's range (see
/// `pure_in_expr`).
pub fn scan_pure_expr(e: &Expr, pm: &Vec<(String, String)>, t: &str, km: &str, ka: &str, all: bool) -> (r: (usize, Option<Span>))
    ensures
        r.0 == cap(pure_in_expr(*e, (km@, ka@), pairs_view(pm@).to_set(), t@, all).0),
        r.1 == pure_in_expr(*e, (km@, ka@), pairs_view(pm@).to_set(), t@, all).1,
    decreases e, 0int,
{
    match pure_hit_of(e, pm, t) {
        Some(q) => {
            return if str_eq(q.0.as_str(), km) && str_eq(q.1.as_str(), ka) { (1, Some(e.span)) } else { (0, None) };
        },
        None => {},
    }
    match &e.kind {
        ExprKind::Lambda { body, .. } => if all { scan_pure_expr(body, pm, t, km, ka, all) } else { (0, None) },
        ExprKind::Member { obj, .. } => scan_pure_expr(obj, pm, t, km, ka, all),
        ExprKind::Call { func, args } => {
            let a = match &func.kind {
                ExprKind::Member { obj, .. } => scan_pure_expr(obj, pm, t, km, ka, all),
                _ => scan_pure_expr(func, pm, t, km, ka, all),
            };
            let b = scan_pure_exprs(args, pm, t, km, ka, all);
            add_hits(a, b)
        },
        ExprKind::Binary { left, right, .. } => {
            let a = scan_pure_expr(left, pm, t, km, ka, all);
            let b = scan_pure_expr(right, pm, t, km, ka, all);
            add_hits(a, b)
        },
        ExprKind::Unary { operand, .. } => scan_pure_expr(operand, pm, t, km, ka, all),
        ExprKind::Index { obj, index } => {
            let a = scan_pure_expr(obj, pm, t, km, ka, all);
            let b = scan_pure_expr(index, pm, t, km, ka, all);
            add_hits(a, b)
        },
        ExprKind::If { cond, then, else_ } | ExprKind::IfLet { scrutinee: cond, then, else_, .. } => {
            let a = scan_pure_expr(cond, pm, t, km, ka, all);
            let b = scan_pure_block(then, pm, t, km, ka, all);
            let c = match else_ {
                Some(ElseBranch::Block(x)) => scan_pure_block(x, pm, t, km, ka, all),
                Some(ElseBranch::If(x)) => scan_pure_expr(x, pm, t, km, ka, all),
                None => (0, None),
            };
            add_hits(add_hits(a, b), c)
        },
        ExprKind::While { cond, body } | ExprKind::WhileLet { scrutinee: cond, body, .. } | ExprKind::For { iter: cond, body, .. } | ExprKind::ParallelFor { iter: cond, body, .. } => {
            let a = scan_pure_expr(cond, pm, t, km, ka, all);
            let b = scan_pure_block(body, pm, t, km, ka, all);
            add_hits(a, b)
        },
        ExprKind::Match { scrutinee, arms } => {
            let a = scan_pure_expr(scrutinee, pm, t, km, ka, all);
            let b = scan_pure_arms(arms, pm, t, km, ka, all);
            add_hits(a, b)
        },
        ExprKind::Block(x) => scan_pure_block(x, pm, t, km, ka, all),
        ExprKind::Spawn(x) | ExprKind::NamedArg { value: x, .. } | ExprKind::Try(x) => scan_pure_expr(x, pm, t, km, ka, all),
        ExprKind::TupleLit(items) | ExprKind::ArrayLit(items) => scan_pure_exprs(items, pm, t, km, ka, all),
        ExprKind::RecordLit { fields, .. } => scan_pure_fields(fields, pm, t, km, ka, all),
        _ => (0, None),
    }
}

fn scan_pure_exprs(v: &Vec<Expr>, pm: &Vec<(String, String)>, t: &str, km: &str, ka: &str, all: bool) -> (r: (usize, Option<Span>))
    ensures
        r.0 == cap(pure_in_exprs(*v, v.len() as int, (km@, ka@), pairs_view(pm@).to_set(), t@, all).0),
        r.1 == pure_in_exprs(*v, v.len() as int, (km@, ka@), pairs_view(pm@).to_set(), t@, all).1,
    decreases v, v.len(),
{
    let mut c: (usize, Option<Span>) = (0, None);
    let mut i: usize = 0;
    while i < v.len()
        invariant
            i <= v.len(),
            c.0 == cap(pure_in_exprs(*v, i as int, (km@, ka@), pairs_view(pm@).to_set(), t@, all).0),
            c.1 == pure_in_exprs(*v, i as int, (km@, ka@), pairs_view(pm@).to_set(), t@, all).1,
        decreases v.len() - i,
    {
        proof { assert(decreases_to!(*v => v[i as int])); }
        let x = scan_pure_expr(&v[i], pm, t, km, ka, all);
        c = add_hits(c, x);
        i = i + 1;
    }
    c
}

fn scan_pure_fields(v: &Vec<RecordLitField>, pm: &Vec<(String, String)>, t: &str, km: &str, ka: &str, all: bool) -> (r: (usize, Option<Span>))
    ensures
        r.0 == cap(pure_in_fields(*v, v.len() as int, (km@, ka@), pairs_view(pm@).to_set(), t@, all).0),
        r.1 == pure_in_fields(*v, v.len() as int, (km@, ka@), pairs_view(pm@).to_set(), t@, all).1,
    decreases v, v.len(),
{
    let mut c: (usize, Option<Span>) = (0, None);
    let mut i: usize = 0;
    while i < v.len()
        invariant
            i <= v.len(),
            c.0 == cap(pure_in_fields(*v, i as int, (km@, ka@), pairs_view(pm@).to_set(), t@, all).0),
            c.1 == pure_in_fields(*v, i as int, (km@, ka@), pairs_view(pm@).to_set(), t@, all).1,
        decreases v.len() - i,
    {
        proof { assert(decreases_to!(*v => v[i as int])); }
        let x = match &v[i].value {
            Some(val) => scan_pure_expr(val, pm, t, km, ka, all),
            None => (0, None),
        };
        c = add_hits(c, x);
        i = i + 1;
    }
    c
}

fn scan_pure_arms(v: &Vec<MatchArm>, pm: &Vec<(String, String)>, t: &str, km: &str, ka: &str, all: bool) -> (r: (usize, Option<Span>))
    ensures
        r.0 == cap(pure_in_arms(*v, v.len() as int, (km@, ka@), pairs_view(pm@).to_set(), t@, all).0),
        r.1 == pure_in_arms(*v, v.len() as int, (km@, ka@), pairs_view(pm@).to_set(), t@, all).1,
    decreases v, v.len(),
{
    let mut c: (usize, Option<Span>) = (0, None);
    let mut i: usize = 0;
    while i < v.len()
        invariant
            i <= v.len(),
            c.0 == cap(pure_in_arms(*v, i as int, (km@, ka@), pairs_view(pm@).to_set(), t@, all).0),
            c.1 == pure_in_arms(*v, i as int, (km@, ka@), pairs_view(pm@).to_set(), t@, all).1,
        decreases v.len() - i,
    {
        proof { assert(decreases_to!(*v => v[i as int])); }
        let x = match &v[i].body {
            MatchArmBody::Expr(b) => scan_pure_expr(b, pm, t, km, ka, all),
            MatchArmBody::Block(b) => scan_pure_block(b, pm, t, km, ka, all),
        };
        c = add_hits(c, x);
        i = i + 1;
    }
    c
}

/// `scan_pure_expr` for a block.
pub fn scan_pure_block(b: &Block, pm: &Vec<(String, String)>, t: &str, km: &str, ka: &str, all: bool) -> (r: (usize, Option<Span>))
    ensures
        r.0 == cap(pure_in_block(*b, (km@, ka@), pairs_view(pm@).to_set(), t@, all).0),
        r.1 == pure_in_block(*b, (km@, ka@), pairs_view(pm@).to_set(), t@, all).1,
    decreases b, 0int,
{
    let a = scan_pure_stmts(&b.stmts, pm, t, km, ka, all);
    let t = match &b.trailing {
        Some(x) => scan_pure_expr(x, pm, t, km, ka, all),
        None => (0, None),
    };
    add_hits(a, t)
}

fn scan_pure_stmts(v: &Vec<Stmt>, pm: &Vec<(String, String)>, t: &str, km: &str, ka: &str, all: bool) -> (r: (usize, Option<Span>))
    ensures
        r.0 == cap(pure_in_stmts(*v, v.len() as int, (km@, ka@), pairs_view(pm@).to_set(), t@, all).0),
        r.1 == pure_in_stmts(*v, v.len() as int, (km@, ka@), pairs_view(pm@).to_set(), t@, all).1,
    decreases v, v.len(),
{
    let mut c: (usize, Option<Span>) = (0, None);
    let mut i: usize = 0;
    while i < v.len()
        invariant
            i <= v.len(),
            c.0 == cap(pure_in_stmts(*v, i as int, (km@, ka@), pairs_view(pm@).to_set(), t@, all).0),
            c.1 == pure_in_stmts(*v, i as int, (km@, ka@), pairs_view(pm@).to_set(), t@, all).1,
        decreases v.len() - i,
    {
        proof { assert(decreases_to!(*v => v[i as int])); }
        let x = scan_pure_stmt(&v[i], pm, t, km, ka, all);
        c = add_hits(c, x);
        i = i + 1;
    }
    c
}

fn scan_pure_stmt(s: &Stmt, pm: &Vec<(String, String)>, t: &str, km: &str, ka: &str, all: bool) -> (r: (usize, Option<Span>))
    ensures
        r.0 == cap(pure_in_stmt(*s, (km@, ka@), pairs_view(pm@).to_set(), t@, all).0),
        r.1 == pure_in_stmt(*s, (km@, ka@), pairs_view(pm@).to_set(), t@, all).1,
    decreases s, 0int,
{
    match s {
        Stmt::Let(d) => scan_pure_expr(&d.value, pm, t, km, ka, all),
        Stmt::Assign { target, value, .. } => {
            let a = scan_pure_expr(target, pm, t, km, ka, all);
            let b = scan_pure_expr(value, pm, t, km, ka, all);
            add_hits(a, b)
        },
        Stmt::Expr(x) => scan_pure_expr(x, pm, t, km, ka, all),
        Stmt::Return { value, .. } => match value {
            Some(x) => scan_pure_expr(x, pm, t, km, ka, all),
            None => (0, None),
        },
        _ => (0, None),
    }
}


/// Adds to the sorted list `out` every chain occurring in `e` outside
/// closures.
pub fn collect_pure_expr(e: &Expr, pm: &Vec<(String, String)>, t: &str, out: &mut Vec<(String, String)>)
    requires
        increasing(pairs_view(old(out)@), pair_lt()),
    ensures
        increasing(pairs_view(final(out)@), pair_lt()),
        forall|q: (Seq<char>, Seq<char>)| #[trigger] pairs_view(final(out)@).contains(q)
            <==> pairs_view(old(out)@).contains(q) || pure_in_expr(*e, q, pairs_view(pm@).to_set(), t@, false).0 > 0,
    decreases e, 0int,
{
    match pure_hit_of(e, pm, t) {
        Some(q) => {
            insert_pair(out, q.0.as_str(), q.1.as_str());
            return;
        },
        None => {},
    }
    match &e.kind {
        ExprKind::Member { obj, .. } => collect_pure_expr(obj, pm, t, out),
        ExprKind::Call { func, args } => {
            match &func.kind {
                ExprKind::Member { obj, .. } => collect_pure_expr(obj, pm, t, out),
                _ => collect_pure_expr(func, pm, t, out),
            }
            collect_pure_exprs(args, pm, t, out);
        },
        ExprKind::Binary { left, right, .. } => {
            collect_pure_expr(left, pm, t, out);
            collect_pure_expr(right, pm, t, out);
        },
        ExprKind::Unary { operand, .. } => collect_pure_expr(operand, pm, t, out),
        ExprKind::Index { obj, index } => {
            collect_pure_expr(obj, pm, t, out);
            collect_pure_expr(index, pm, t, out);
        },
        ExprKind::If { cond, then, else_ } | ExprKind::IfLet { scrutinee: cond, then, else_, .. } => {
            collect_pure_expr(cond, pm, t, out);
            collect_pure_block(then, pm, t, out);
            match else_ {
                Some(ElseBranch::Block(x)) => collect_pure_block(x, pm, t, out),
                Some(ElseBranch::If(x)) => collect_pure_expr(x, pm, t, out),
                None => {},
            }
        },
        ExprKind::While { cond, body } | ExprKind::WhileLet { scrutinee: cond, body, .. } | ExprKind::For { iter: cond, body, .. } | ExprKind::ParallelFor { iter: cond, body, .. } => {
            collect_pure_expr(cond, pm, t, out);
            collect_pure_block(body, pm, t, out);
        },
        ExprKind::Match { scrutinee, arms } => {
            collect_pure_expr(scrutinee, pm, t, out);
            collect_pure_arms(arms, pm, t, out);
        },
        ExprKind::Block(x) => collect_pure_block(x, pm, t, out),
        ExprKind::Spawn(x) | ExprKind::NamedArg { value: x, .. } | ExprKind::Try(x) => collect_pure_expr(x, pm, t, out),
        ExprKind::TupleLit(items) | ExprKind::ArrayLit(items) => collect_pure_exprs(items, pm, t, out),
        ExprKind::RecordLit { fields, .. } => collect_pure_fields(fields, pm, t, out),
        _ => {},
    }
}

fn collect_pure_exprs(v: &Vec<Expr>, pm: &Vec<(String, String)>, t: &str, out: &mut Vec<(String, String)>)
    requires
        increasing(pairs_view(old(out)@), pair_lt()),
    ensures
        increasing(pairs_view(final(out)@), pair_lt()),
        forall|q: (Seq<char>, Seq<char>)| #[trigger] pairs_view(final(out)@).contains(q)
            <==> pairs_view(old(out)@).contains(q) || pure_in_exprs(*v, v.len() as int, q, pairs_view(pm@).to_set(), t@, false).0 > 0,
    decreases v, v.len(),
{
    let mut i: usize = 0;
    while i < v.len()
        invariant
            i <= v.len(),
            increasing(pairs_view(out@), pair_lt()),
            forall|q: (Seq<char>, Seq<char>)| #[trigger] pairs_view(out@).contains(q)
                <==> pairs_view(old(out)@).contains(q) || pure_in_exprs(*v, i as int, q, pairs_view(pm@).to_set(), t@, false).0 > 0,
        decreases v.len() - i,
    {
        proof { assert(decreases_to!(*v => v[i as int])); }
        collect_pure_expr(&v[i], pm, t, out);
        i = i + 1;
    }
}

fn collect_pure_fields(v: &Vec<RecordLitField>, pm: &Vec<(String, String)>, t: &str, out: &mut Vec<(String, String)>)
    requires
        increasing(pairs_view(old(out)@), pair_lt()),
    ensures
        increasing(pairs_view(final(out)@), pair_lt()),
        forall|q: (Seq<char>, Seq<char>)| #[trigger] pairs_view(final(out)@).contains(q)
            <==> pairs_view(old(out)@).contains(q) || pure_in_fields(*v, v.len() as int, q, pairs_view(pm@).to_set(), t@, false).0 > 0,
    decreases v, v.len(),
{
    let mut i: usize = 0;
    while i < v.len()
        invariant
            i <= v.len(),
            increasing(pairs_view(out@), pair_lt()),
            forall|q: (Seq<char>, Seq<char>)| #[trigger] pairs_view(out@).contains(q)
                <==> pairs_view(old(out)@).contains(q) || pure_in_fields(*v, i as int, q, pairs_view(pm@).to_set(), t@, false).0 > 0,
        decreases v.len() - i,
    {
        proof { assert(decreases_to!(*v => v[i as int])); }
        match &v[i].value {
            Some(val) => collect_pure_expr(val, pm, t, out),
            None => {},
        }
        i = i + 1;
    }
}

fn collect_pure_arms(v: &Vec<MatchArm>, pm: &Vec<(String, String)>, t: &str, out: &mut Vec<(String, String)>)
    requires
        increasing(pairs_view(old(out)@), pair_lt()),
    ensures
        increasing(pairs_view(final(out)@), pair_lt()),
        forall|q: (Seq<char>, Seq<char>)| #[trigger] pairs_view(final(out)@).contains(q)
            <==> pairs_view(old(out)@).contains(q) || pure_in_arms(*v, v.len() as int, q, pairs_view(pm@).to_set(), t@, false).0 > 0,
    decreases v, v.len(),
{
    let mut i: usize = 0;
    while i < v.len()
        invariant
            i <= v.len(),
            increasing(pairs_view(out@), pair_lt()),
            forall|q: (Seq<char>, Seq<char>)| #[trigger] pairs_view(out@).contains(q)
                <==> pairs_view(old(out)@).contains(q) || pure_in_arms(*v, i as int, q, pairs_view(pm@).to_set(), t@, false).0 > 0,
        decreases v.len() - i,
    {
        proof { assert(decreases_to!(*v => v[i as int])); }
        match &v[i].body {
            MatchArmBody::Expr(b) => collect_pure_expr(b, pm, t, out),
            MatchArmBody::Block(b) => collect_pure_block(b, pm, t, out),
        }
        i = i + 1;
    }
}

/// `collect_pure_expr` for a block.
pub fn collect_pure_block(b: &Block, pm: &Vec<(String, String)>, t: &str, out: &mut Vec<(String, String)>)
    requires
        increasing(pairs_view(old(out)@), pair_lt()),
    ensures
        increasing(pairs_view(final(out)@), pair_lt()),
        forall|q: (Seq<char>, Seq<char>)| #[trigger] pairs_view(final(out)@).contains(q)
            <==> pairs_view(old(out)@).contains(q) || pure_in_block(*b, q, pairs_view(pm@).to_set(), t@, false).0 > 0,
    decreases b, 0int,
{
    collect_pure_stmts(&b.stmts, pm, t, out);
    match &b.trailing {
        Some(x) => collect_pure_expr(x, pm, t, out),
        None => {},
    }
}

fn collect_pure_stmts(v: &Vec<Stmt>, pm: &Vec<(String, String)>, t: &str, out: &mut Vec<(String, String)>)
    requires
        increasing(pairs_view(old(out)@), pair_lt()),
    ensures
        increasing(pairs_view(final(out)@), pair_lt()),
        forall|q: (Seq<char>, Seq<char>)| #[trigger] pairs_view(final(out)@).contains(q)
            <==> pairs_view(old(out)@).contains(q) || pure_in_stmts(*v, v.len() as int, q, pairs_view(pm@).to_set(), t@, false).0 > 0,
    decreases v, v.len(),
{
    let mut i: usize = 0;
    while i < v.len()
        invariant
            i <= v.len(),
            increasing(pairs_view(out@), pair_lt()),
            forall|q: (Seq<char>, Seq<char>)| #[trigger] pairs_view(out@).contains(q)
                <==> pairs_view(old(out)@).contains(q) || pure_in_stmts(*v, i as int, q, pairs_view(pm@).to_set(), t@, false).0 > 0,
        decreases v.len() - i,
    {
        proof { assert(decreases_to!(*v => v[i as int])); }
        collect_pure_stmt(&v[i], pm, t, out);
        i = i + 1;
    }
}

fn collect_pure_stmt(s: &Stmt, pm: &Vec<(String, String)>, t: &str, out: &mut Vec<(String, String)>)
    requires
        increasing(pairs_view(old(out)@), pair_lt()),
    ensures
        increasing(pairs_view(final(out)@), pair_lt()),
        forall|q: (Seq<char>, Seq<char>)| #[trigger] pairs_view(final(out)@).contains(q)
            <==> pairs_view(old(out)@).contains(q) || pure_in_stmt(*s, q, pairs_view(pm@).to_set(), t@, false).0 > 0,
    decreases s, 0int,
{
    match s {
        Stmt::Let(d) => collect_pure_expr(&d.value, pm, t, out),
        Stmt::Assign { target, value, .. } => {
            collect_pure_expr(target, pm, t, out);
            collect_pure_expr(value, pm, t, out);
        },
        Stmt::Expr(x) => collect_pure_expr(x, pm, t, out),
        Stmt::Return { value, .. } => match value {
            Some(x) => collect_pure_expr(x, pm, t, out),
            None => {},
        },
        _ => {},
    }
}

} // verus!
