//! Replacing cached pure calls by the locals that hold their results, and
//! keeping the arguments of the first call of each key (the cached value is
//! computed from them).

use vstd::prelude::*;
use crate::ast::{Block, ElseBranch, Expr, ExprKind, LetDecl, MatchArm, MatchArmBody, RecordLitField, Stmt};
use crate::field_cache::pure_scan::{pure_hit, pure_hit_of};
use crate::field_cache::scc_cache::pairs_view;
use crate::text::{copy_str, str_eq};

verus! {

/// A cached pure call: its method, the key of its arguments, and the local
/// that holds its result.
pub struct PureLocal {
    pub method: String,
    pub args_key: String,
    pub local: String,
}

/// The entries `((method, args key), local)` by their characters.
pub open spec fn pure_locals_view(m: Seq<PureLocal>) -> Seq<((Seq<char>, Seq<char>), Seq<char>)> {
    m.map_values(|p: PureLocal| ((p.method@, p.args_key@), p.local@))
}

/// No key occurs twice.
pub open spec fn keys_unique(m: Seq<((Seq<char>, Seq<char>), Seq<char>)>) -> bool {
    forall|i: int, j: int| 0 <= i < m.len() && 0 <= j < m.len() && i != j ==> (#[trigger] m[i]).0 != (#[trigger] m[j]).0
}

/// The local that `m` gives for key `k` (the first entry wins).
pub open spec fn local_for_key(m: Seq<((Seq<char>, Seq<char>), Seq<char>)>, k: (Seq<char>, Seq<char>)) -> Option<Seq<char>>
    decreases m.len(),
{
    if m.len() == 0 {
        None
    } else if m[0].0 == k {
        Some(m[0].1)
    } else {
        local_for_key(m.drop_first(), k)
    }
}

/// The first of two optional argument lists.
pub open spec fn first_args(a: Option<Vec<Expr>>, b: Option<Vec<Expr>>) -> Option<Vec<Expr>> {
    if a is Some { a } else { b }
}

/// The arguments of the first call with key `key` in `e`, outside closures,
/// in the order the rewrite visits `e`.
pub open spec fn pure_first_expr(e: Expr, key: (Seq<char>, Seq<char>), pm: Set<(Seq<char>, Seq<char>)>, t: Seq<char>) -> Option<Vec<Expr>>
    decreases e, 0int,
{
    match pure_hit(e, pm, t) {
        Some(q) => if q == key {
            match e.kind {
                ExprKind::Call { args, .. } => Some(args),
                _ => None,
            }
        } else {
            None
        },
        None => match e.kind {
            ExprKind::Member { obj, .. } => pure_first_expr(*obj, key, pm, t),
            ExprKind::Call { func, args } => first_args(pure_first_expr(*func, key, pm, t), pure_first_exprs(args, args.len() as int, key, pm, t)),
            ExprKind::Binary { left, right, .. } => first_args(pure_first_expr(*left, key, pm, t), pure_first_expr(*right, key, pm, t)),
            ExprKind::Unary { operand, .. } => pure_first_expr(*operand, key, pm, t),
            ExprKind::Index { obj, index } => first_args(pure_first_expr(*obj, key, pm, t), pure_first_expr(*index, key, pm, t)),
            ExprKind::If { cond, then, else_ } | ExprKind::IfLet { scrutinee: cond, then, else_, .. } => first_args(first_args(pure_first_expr(*cond, key, pm, t), pure_first_block(then, key, pm, t)),
                match else_ {
                    Some(ElseBranch::Block(x)) => pure_first_block(x, key, pm, t),
                    Some(ElseBranch::If(x)) => pure_first_expr(*x, key, pm, t),
                    None => None,
                }),
            ExprKind::While { cond, body } | ExprKind::WhileLet { scrutinee: cond, body, .. } | ExprKind::For { iter: cond, body, .. } | ExprKind::ParallelFor { iter: cond, body, .. } => first_args(pure_first_expr(*cond, key, pm, t), pure_first_block(body, key, pm, t)),
            ExprKind::Match { scrutinee, arms } => first_args(pure_first_expr(*scrutinee, key, pm, t), pure_first_arms(arms, arms.len() as int, key, pm, t)),
            ExprKind::Block(x) => pure_first_block(x, key, pm, t),
            ExprKind::Spawn(x) | ExprKind::NamedArg { value: x, .. } | ExprKind::Try(x) => pure_first_expr(*x, key, pm, t),
            ExprKind::TupleLit(items) | ExprKind::ArrayLit(items) => pure_first_exprs(items, items.len() as int, key, pm, t),
            ExprKind::RecordLit { fields, .. } => pure_first_fields(fields, fields.len() as int, key, pm, t),
            _ => None,
        },
    }
}

pub open spec fn pure_first_exprs(v: Vec<Expr>, k: int, key: (Seq<char>, Seq<char>), pm: Set<(Seq<char>, Seq<char>)>, t: Seq<char>) -> Option<Vec<Expr>>
    decreases v, k,
{
    if k <= 0 || k > v.len() { None } else { first_args(pure_first_exprs(v, k - 1, key, pm, t), pure_first_expr(v[k - 1], key, pm, t)) }
}

pub open spec fn pure_first_fields(v: Vec<RecordLitField>, k: int, key: (Seq<char>, Seq<char>), pm: Set<(Seq<char>, Seq<char>)>, t: Seq<char>) -> Option<Vec<Expr>>
    decreases v, k,
{
    if k <= 0 || k > v.len() {
        None
    } else {
        first_args(pure_first_fields(v, k - 1, key, pm, t), match v[k - 1].value {
            Some(x) => pure_first_expr(x, key, pm, t),
            None => None,
        })
    }
}

pub open spec fn pure_first_arms(v: Vec<MatchArm>, k: int, key: (Seq<char>, Seq<char>), pm: Set<(Seq<char>, Seq<char>)>, t: Seq<char>) -> Option<Vec<Expr>>
    decreases v, k,
{
    if k <= 0 || k > v.len() {
        None
    } else {
        first_args(pure_first_arms(v, k - 1, key, pm, t), match v[k - 1].body {
            MatchArmBody::Expr(x) => pure_first_expr(x, key, pm, t),
            MatchArmBody::Block(x) => pure_first_block(x, key, pm, t),
        })
    }
}

pub open spec fn pure_first_block(b: Block, key: (Seq<char>, Seq<char>), pm: Set<(Seq<char>, Seq<char>)>, t: Seq<char>) -> Option<Vec<Expr>>
    decreases b, 0int,
{
    first_args(pure_first_stmts(b.stmts, b.stmts.len() as int, key, pm, t), match b.trailing {
        Some(x) => pure_first_expr(*x, key, pm, t),
        None => None,
    })
}

pub open spec fn pure_first_stmts(v: Vec<Stmt>, k: int, key: (Seq<char>, Seq<char>), pm: Set<(Seq<char>, Seq<char>)>, t: Seq<char>) -> Option<Vec<Expr>>
    decreases v, k,
{
    if k <= 0 || k > v.len() { None } else { first_args(pure_first_stmts(v, k - 1, key, pm, t), pure_first_stmt(v[k - 1], key, pm, t)) }
}

pub open spec fn pure_first_stmt(s: Stmt, key: (Seq<char>, Seq<char>), pm: Set<(Seq<char>, Seq<char>)>, t: Seq<char>) -> Option<Vec<Expr>>
    decreases s, 0int,
{
    match s {
        Stmt::Let(d) => pure_first_expr(d.value, key, pm, t),
        Stmt::Assign { target, value, .. } => first_args(pure_first_expr(target, key, pm, t), pure_first_expr(value, key, pm, t)),
        Stmt::Expr(x) => pure_first_expr(x, key, pm, t),
        Stmt::Return { value, .. } => match value {
            Some(x) => pure_first_expr(x, key, pm, t),
            None => None,
        },
        _ => None,
    }
}

/// `b` is `a` with every pure call `@m(..)` (see `pure_hit`) that `m` maps
/// to a local `l`, outside closures, replaced by the variable `l`; a pure
/// call that `m` does not map is left as it is. Nothing else differs.
pub open spec fn pure_replaced_expr(a: Expr, b: Expr, m: Seq<((Seq<char>, Seq<char>), Seq<char>)>, pm: Set<(Seq<char>, Seq<char>)>, t: Seq<char>) -> bool
    decreases a, 0int,
{
    b.span == a.span && match pure_hit(a, pm, t) {
        Some(q) => match local_for_key(m, q) {
            Some(l) => b.kind matches ExprKind::Ident(n) && n@ == l,
            None => b == a,
        },
        None => match a.kind {
            ExprKind::Member { obj, name } => b.kind matches ExprKind::Member { obj: o2, name: n2 } && n2 == name
                && pure_replaced_expr(*obj, *o2, m, pm, t),
            ExprKind::Call { func, args } => b.kind matches ExprKind::Call { func: f2, args: a2 }
                && pure_replaced_exprs(args, a2, args.len() as int, m, pm, t) && pure_replaced_expr(*func, *f2, m, pm, t),
            ExprKind::Binary { op, left, right } => b.kind matches ExprKind::Binary { op: op2, left: l2, right: r2 }
                && op2 == op && pure_replaced_expr(*left, *l2, m, pm, t) && pure_replaced_expr(*right, *r2, m, pm, t),
            ExprKind::Unary { op, operand } => b.kind matches ExprKind::Unary { op: op2, operand: x2 } && op2 == op
                && pure_replaced_expr(*operand, *x2, m, pm, t),
            ExprKind::Index { obj, index } => b.kind matches ExprKind::Index { obj: o2, index: i2 }
                && pure_replaced_expr(*obj, *o2, m, pm, t) && pure_replaced_expr(*index, *i2, m, pm, t),
            ExprKind::If { cond, then, else_ } => b.kind matches ExprKind::If { cond: c2, then: t2, else_: e2 }
                && pure_replaced_expr(*cond, *c2, m, pm, t) && pure_replaced_block(then, t2, m, pm, t) && match else_ {
                    Some(ElseBranch::Block(x)) => e2 matches Some(ElseBranch::Block(y)) && pure_replaced_block(x, y, m, pm, t),
                    Some(ElseBranch::If(x)) => e2 matches Some(ElseBranch::If(y)) && pure_replaced_expr(*x, *y, m, pm, t),
                    None => e2 is None,
                },
            ExprKind::IfLet { pattern, scrutinee: cond, then, else_ } => b.kind matches ExprKind::IfLet { pattern: p2, scrutinee: c2, then: t2, else_: e2 } && p2 == pattern
                && pure_replaced_expr(*cond, *c2, m, pm, t) && pure_replaced_block(then, t2, m, pm, t) && match else_ {
                    Some(ElseBranch::Block(x)) => e2 matches Some(ElseBranch::Block(y)) && pure_replaced_block(x, y, m, pm, t),
                    Some(ElseBranch::If(x)) => e2 matches Some(ElseBranch::If(y)) && pure_replaced_expr(*x, *y, m, pm, t),
                    None => e2 is None,
                },
            ExprKind::While { cond, body } => b.kind matches ExprKind::While { cond: c2, body: b2 }
                && pure_replaced_expr(*cond, *c2, m, pm, t) && pure_replaced_block(body, b2, m, pm, t),
            ExprKind::WhileLet { pattern, scrutinee: cond, body } => b.kind matches ExprKind::WhileLet { pattern: p2, scrutinee: c2, body: b2 } && p2 == pattern
                && pure_replaced_expr(*cond, *c2, m, pm, t) && pure_replaced_block(body, b2, m, pm, t),
            ExprKind::For { var, iter: cond, body } => b.kind matches ExprKind::For { var: v2, iter: c2, body: b2 } && v2 == var
                && pure_replaced_expr(*cond, *c2, m, pm, t) && pure_replaced_block(body, b2, m, pm, t),
            ExprKind::ParallelFor { var, iter: cond, body } => b.kind matches ExprKind::ParallelFor { var: v2, iter: c2, body: b2 } && v2 == var
                && pure_replaced_expr(*cond, *c2, m, pm, t) && pure_replaced_block(body, b2, m, pm, t),
            ExprKind::Match { scrutinee, arms } => b.kind matches ExprKind::Match { scrutinee: s2, arms: a2 }
                && pure_replaced_expr(*scrutinee, *s2, m, pm, t) && pure_replaced_arms(arms, a2, arms.len() as int, m, pm, t),
            ExprKind::Block(x) => b.kind matches ExprKind::Block(y) && pure_replaced_block(x, y, m, pm, t),
            ExprKind::Spawn(x) => b.kind matches ExprKind::Spawn(y) && pure_replaced_expr(*x, *y, m, pm, t),
            ExprKind::NamedArg { name, value: x } => b.kind matches ExprKind::NamedArg { name: n2, value: y } && n2 == name && pure_replaced_expr(*x, *y, m, pm, t),
            ExprKind::Try(x) => b.kind matches ExprKind::Try(y) && pure_replaced_expr(*x, *y, m, pm, t),
            ExprKind::TupleLit(items) => b.kind matches ExprKind::TupleLit(i2)
                && pure_replaced_exprs(items, i2, items.len() as int, m, pm, t),
            ExprKind::ArrayLit(items) => b.kind matches ExprKind::ArrayLit(i2)
                && pure_replaced_exprs(items, i2, items.len() as int, m, pm, t),
            ExprKind::RecordLit { type_path, fields, inferred_map_v } => b.kind matches ExprKind::RecordLit {
                type_path: t2, fields: f2, inferred_map_v: m2 } && t2 == type_path && m2 == inferred_map_v
                && pure_replaced_fields(fields, f2, fields.len() as int, m, pm, t),
            _ => b == a,
        },
    }
}

/// Element-wise `pure_replaced_expr` over the first `k` entries (same length).
pub open spec fn pure_replaced_exprs(a: Vec<Expr>, b: Vec<Expr>, k: int, m: Seq<((Seq<char>, Seq<char>), Seq<char>)>, pm: Set<(Seq<char>, Seq<char>)>, t: Seq<char>) -> bool
    decreases a, k,
{
    a.len() == b.len() && (k <= 0 || k > a.len() || (pure_replaced_exprs(a, b, k - 1, m, pm, t) && pure_replaced_expr(
        a[k - 1],
        b[k - 1],
        m, pm, t,
    )))
}

pub open spec fn pure_replaced_fields(a: Vec<RecordLitField>, b: Vec<RecordLitField>, k: int, m: Seq<((Seq<char>, Seq<char>), Seq<char>)>, pm: Set<(Seq<char>, Seq<char>)>, t: Seq<char>) -> bool
    decreases a, k,
{
    a.len() == b.len() && (k <= 0 || k > a.len() || (pure_replaced_fields(a, b, k - 1, m, pm, t)
        && b[k - 1].name == a[k - 1].name && b[k - 1].is_spread == a[k - 1].is_spread
        && b[k - 1].at_shorthand == a[k - 1].at_shorthand && b[k - 1].span == a[k - 1].span
        && match a[k - 1].value {
        Some(x) => b[k - 1].value matches Some(y) && pure_replaced_expr(x, y, m, pm, t),
        None => b[k - 1].value is None,
    }))
}

pub open spec fn pure_replaced_arms(a: Vec<MatchArm>, b: Vec<MatchArm>, k: int, m: Seq<((Seq<char>, Seq<char>), Seq<char>)>, pm: Set<(Seq<char>, Seq<char>)>, t: Seq<char>) -> bool
    decreases a, k,
{
    a.len() == b.len() && (k <= 0 || k > a.len() || (pure_replaced_arms(a, b, k - 1, m, pm, t)
        && b[k - 1].pattern == a[k - 1].pattern && match a[k - 1].body {
        MatchArmBody::Expr(x) => b[k - 1].body matches MatchArmBody::Expr(y) && pure_replaced_expr(x, y, m, pm, t),
        MatchArmBody::Block(x) => b[k - 1].body matches MatchArmBody::Block(y) && pure_replaced_block(x, y, m, pm, t),
    }))
}

/// `pure_replaced_expr` for blocks: statements one by one, then the trailing value.
pub open spec fn pure_replaced_block(a: Block, b: Block, m: Seq<((Seq<char>, Seq<char>), Seq<char>)>, pm: Set<(Seq<char>, Seq<char>)>, t: Seq<char>) -> bool
    decreases a, 0int,
{
    b.span == a.span && pure_replaced_stmts(a.stmts, b.stmts, a.stmts.len() as int, m, pm, t) && match a.trailing {
        Some(x) => b.trailing matches Some(y) && pure_replaced_expr(*x, *y, m, pm, t),
        None => b.trailing is None,
    }
}

pub open spec fn pure_replaced_stmts(a: Vec<Stmt>, b: Vec<Stmt>, k: int, m: Seq<((Seq<char>, Seq<char>), Seq<char>)>, pm: Set<(Seq<char>, Seq<char>)>, t: Seq<char>) -> bool
    decreases a, k,
{
    a.len() == b.len() && (k <= 0 || k > a.len() || (pure_replaced_stmts(a, b, k - 1, m, pm, t) && pure_replaced_stmt(
        a[k - 1],
        b[k - 1],
        m, pm, t,
    )))
}

/// `pure_replaced_expr` for statements.
pub open spec fn pure_replaced_stmt(a: Stmt, b: Stmt, m: Seq<((Seq<char>, Seq<char>), Seq<char>)>, pm: Set<(Seq<char>, Seq<char>)>, t: Seq<char>) -> bool
    decreases a, 0int,
{
    match a {
        Stmt::Let(d) => b matches Stmt::Let(d2) && d2.mutable == d.mutable && d2.pattern == d.pattern && d2.ty == d.ty
            && d2.span == d.span && pure_replaced_expr(d.value, d2.value, m, pm, t),
        Stmt::Assign { target, value, span } => b matches Stmt::Assign { target: t2, value: v2, span: s2 }
            && s2 == span && pure_replaced_expr(target, t2, m, pm, t) && pure_replaced_expr(value, v2, m, pm, t),
        Stmt::Expr(x) => b matches Stmt::Expr(y) && pure_replaced_expr(x, y, m, pm, t),
        Stmt::Return { value, span } => b matches Stmt::Return { value: v2, span: s2 } && s2 == span
            && match value {
            Some(x) => v2 matches Some(y) && pure_replaced_expr(x, y, m, pm, t),
            None => v2 is None,
        },
        _ => b == a,
    }
}


/// The index and local of the entry of `m` for key `(km, ka)`.
fn find_pure_local(m: &Vec<PureLocal>, km: &str, ka: &str) -> (r: Option<(usize, String)>)
    ensures
        match r {
            Some((i, l)) => i < m@.len() && pure_locals_view(m@)[i as int].0 == (km@, ka@)
                && local_for_key(pure_locals_view(m@), (km@, ka@)) == Some(l@),
            None => local_for_key(pure_locals_view(m@), (km@, ka@)) is None
                && forall|j: int| 0 <= j < m@.len() ==> pure_locals_view(m@)[j].0 != (km@, ka@),
        },
{
    let ghost mv = pure_locals_view(m@);
    let mut i: usize = 0;
    assert(mv.subrange(0, m@.len() as int) =~= mv);
    while i < m.len()
        invariant
            i <= m@.len(),
            mv == pure_locals_view(m@),
            local_for_key(mv, (km@, ka@)) == local_for_key(mv.subrange(i as int, m@.len() as int), (km@, ka@)),
            forall|j: int| 0 <= j < i ==> mv[j].0 != (km@, ka@),
        decreases m@.len() - i,
    {
        let ghost rest = mv.subrange(i as int, m@.len() as int);
        assert(rest.drop_first() =~= mv.subrange(i as int + 1, m@.len() as int));
        assert(rest[0] == mv[i as int]);
        if str_eq(m[i].method.as_str(), km) && str_eq(m[i].args_key.as_str(), ka) {
            return Some((i, copy_str(m[i].local.as_str())));
        }
        i = i + 1;
    }
    None
}

/// Replaces the pure calls that `m` maps by their locals (see
/// `pure_replaced_expr`), keeping in `samples[j]`, when it is still empty,
/// the arguments of the first call with the key of `m[j]`.
pub fn pure_rewrite_expr(e: Expr, m: &Vec<PureLocal>, pm: &Vec<(String, String)>, t: &str, samples: &mut Vec<Option<Vec<Expr>>>) -> (r: Expr)
    requires
        old(samples)@.len() == m@.len(),
        keys_unique(pure_locals_view(m@)),
    ensures
        pure_replaced_expr(e, r, pure_locals_view(m@), pairs_view(pm@).to_set(), t@),
        final(samples)@.len() == old(samples)@.len(),
        forall|j: int| 0 <= j < old(samples)@.len() ==> #[trigger] final(samples)@[j]
            == first_args(old(samples)@[j], pure_first_expr(e, pure_locals_view(m@)[j].0, pairs_view(pm@).to_set(), t@)),
    decreases e, 0int,
{
    let ghost s0 = samples@;
    match pure_hit_of(&e, pm, t) {
        Some(q) => {
            match find_pure_local(m, q.0.as_str(), q.1.as_str()) {
                Some((i, l)) => {
                    let span = e.span;
                    let args = match e.kind {
                        ExprKind::Call { args, .. } => args,
                        _ => Vec::new(),
                    };
                    let empty = samples[i].is_none();
                    if empty {
                        samples.set(i, Some(args));
                    }
                    proof {
                        assert forall|j: int| 0 <= j < s0.len() implies #[trigger] samples@[j]
                            == first_args(s0[j], pure_first_expr(e, pure_locals_view(m@)[j].0, pairs_view(pm@).to_set(), t@)) by {
                            if j != i {
                                assert(pure_locals_view(m@)[j].0 != pure_locals_view(m@)[i as int].0);
                            }
                        }
                    }
                    return Expr { kind: ExprKind::Ident(l), span };
                },
                None => {
                    return e;
                },
            }
        },
        None => {},
    }
    let span = e.span;
    let kind = match e.kind {
        ExprKind::Member { obj, name } => ExprKind::Member { obj: Box::new(pure_rewrite_expr(*obj, m, pm, t, samples)), name },
        ExprKind::Call { func, args } => {
            let f2 = pure_rewrite_expr(*func, m, pm, t, samples);
            let a2 = pure_rewrite_exprs(args, m, pm, t, samples);
            ExprKind::Call { func: Box::new(f2), args: a2 }
        },
        ExprKind::Binary { op, left, right } => {
            let l2 = pure_rewrite_expr(*left, m, pm, t, samples);
            let r2 = pure_rewrite_expr(*right, m, pm, t, samples);
            ExprKind::Binary { op, left: Box::new(l2), right: Box::new(r2) }
        },
        ExprKind::Unary { op, operand } => ExprKind::Unary { op, operand: Box::new(pure_rewrite_expr(*operand, m, pm, t, samples)) },
        ExprKind::Index { obj, index } => {
            let o2 = pure_rewrite_expr(*obj, m, pm, t, samples);
            let i2 = pure_rewrite_expr(*index, m, pm, t, samples);
            ExprKind::Index { obj: Box::new(o2), index: Box::new(i2) }
        },
        ExprKind::If { cond, then, else_ } => {
            let c2 = pure_rewrite_expr(*cond, m, pm, t, samples);
            let t2 = pure_rewrite_block(then, m, pm, t, samples);
            let e2 = match else_ {
                Some(ElseBranch::Block(x)) => Some(ElseBranch::Block(pure_rewrite_block(x, m, pm, t, samples))),
                Some(ElseBranch::If(x)) => Some(ElseBranch::If(Box::new(pure_rewrite_expr(*x, m, pm, t, samples)))),
                None => None,
            };
            ExprKind::If { cond: Box::new(c2), then: t2, else_: e2 }
        },
        ExprKind::IfLet { pattern, scrutinee: cond, then, else_ } => {
            let c2 = pure_rewrite_expr(*cond, m, pm, t, samples);
            let t2 = pure_rewrite_block(then, m, pm, t, samples);
            let e2 = match else_ {
                Some(ElseBranch::Block(x)) => Some(ElseBranch::Block(pure_rewrite_block(x, m, pm, t, samples))),
                Some(ElseBranch::If(x)) => Some(ElseBranch::If(Box::new(pure_rewrite_expr(*x, m, pm, t, samples)))),
                None => None,
            };
            ExprKind::IfLet { pattern, scrutinee: Box::new(c2), then: t2, else_: e2 }
        },
        ExprKind::While { cond, body } => {
            let c2 = pure_rewrite_expr(*cond, m, pm, t, samples);
            let b2 = pure_rewrite_block(body, m, pm, t, samples);
            ExprKind::While { cond: Box::new(c2), body: b2 }
        },
        ExprKind::WhileLet { pattern, scrutinee: cond, body } => {
            let c2 = pure_rewrite_expr(*cond, m, pm, t, samples);
            let b2 = pure_rewrite_block(body, m, pm, t, samples);
            ExprKind::WhileLet { pattern, scrutinee: Box::new(c2), body: b2 }
        },
        ExprKind::For { var, iter: cond, body } => {
            let c2 = pure_rewrite_expr(*cond, m, pm, t, samples);
            let b2 = pure_rewrite_block(body, m, pm, t, samples);
            ExprKind::For { var, iter: Box::new(c2), body: b2 }
        },
        ExprKind::ParallelFor { var, iter: cond, body } => {
            let c2 = pure_rewrite_expr(*cond, m, pm, t, samples);
            let b2 = pure_rewrite_block(body, m, pm, t, samples);
            ExprKind::ParallelFor { var, iter: Box::new(c2), body: b2 }
        },
        ExprKind::Match { scrutinee, arms } => {
            let s2 = pure_rewrite_expr(*scrutinee, m, pm, t, samples);
            let a2 = pure_rewrite_arms(arms, m, pm, t, samples);
            ExprKind::Match { scrutinee: Box::new(s2), arms: a2 }
        },
        ExprKind::Block(x) => ExprKind::Block(pure_rewrite_block(x, m, pm, t, samples)),
        ExprKind::Spawn(x) => ExprKind::Spawn(Box::new(pure_rewrite_expr(*x, m, pm, t, samples))),
        ExprKind::NamedArg { name, value: x } => ExprKind::NamedArg { name, value: Box::new(pure_rewrite_expr(*x, m, pm, t, samples)) },
        ExprKind::Try(x) => ExprKind::Try(Box::new(pure_rewrite_expr(*x, m, pm, t, samples))),
        ExprKind::TupleLit(items) => ExprKind::TupleLit(pure_rewrite_exprs(items, m, pm, t, samples)),
        ExprKind::ArrayLit(items) => ExprKind::ArrayLit(pure_rewrite_exprs(items, m, pm, t, samples)),
        ExprKind::RecordLit { type_path, fields, inferred_map_v } => ExprKind::RecordLit {
            type_path,
            fields: pure_rewrite_fields(fields, m, pm, t, samples),
            inferred_map_v,
        },
        other => other,
    };
    Expr { kind, span }
}

fn pure_rewrite_exprs(v: Vec<Expr>, m: &Vec<PureLocal>, pm: &Vec<(String, String)>, t: &str, samples: &mut Vec<Option<Vec<Expr>>>) -> (r: Vec<Expr>)
    requires
        old(samples)@.len() == m@.len(),
        keys_unique(pure_locals_view(m@)),
    ensures
        pure_replaced_exprs(v, r, v.len() as int, pure_locals_view(m@), pairs_view(pm@).to_set(), t@),
        final(samples)@.len() == old(samples)@.len(),
        forall|j: int| 0 <= j < old(samples)@.len() ==> #[trigger] final(samples)@[j]
            == first_args(old(samples)@[j], pure_first_exprs(v, v.len() as int, pure_locals_view(m@)[j].0, pairs_view(pm@).to_set(), t@)),
    decreases v, v.len(),
{
    let ghost orig = v;
    let ghost s0 = samples@;
    let mut rest = v;
    let mut out: Vec<Expr> = Vec::new();
    while rest.len() > 0
        invariant
            orig == v,
            s0 == old(samples)@,
            s0.len() == m@.len(),
            keys_unique(pure_locals_view(m@)),
            out.len() + rest.len() == orig.len(),
            rest@ == orig@.subrange(out.len() as int, orig.len() as int),
            forall|i: int| 0 <= i < out.len() ==> pure_replaced_expr(orig[i], out[i], pure_locals_view(m@), pairs_view(pm@).to_set(), t@),
            samples@.len() == s0.len(),
            forall|j: int| 0 <= j < s0.len() ==> #[trigger] samples@[j]
                == first_args(s0[j], pure_first_exprs(orig, out.len() as int, pure_locals_view(m@)[j].0, pairs_view(pm@).to_set(), t@)),
        decreases rest.len(),
    {
        let ghost i = out.len() as int;
        let ghost s1 = samples@;
        let x = rest.remove(0);
        proof {
            assert(x == orig[i]);
            assert(decreases_to!(orig => orig[i]));
        }
        let y = pure_rewrite_expr(x, m, pm, t, samples);
        out.push(y);
        proof {
            assert(rest@ =~= orig@.subrange(out.len() as int, orig.len() as int));
            assert forall|j: int| 0 <= j < s0.len() implies #[trigger] samples@[j]
                == first_args(s0[j], pure_first_exprs(orig, out.len() as int, pure_locals_view(m@)[j].0, pairs_view(pm@).to_set(), t@)) by {
                assert(s1[j] == first_args(s0[j], pure_first_exprs(orig, i, pure_locals_view(m@)[j].0, pairs_view(pm@).to_set(), t@)));
            }
        }
    }
    proof { lemma_pure_replaced_exprs_all(orig, out, orig.len() as int, pure_locals_view(m@), pairs_view(pm@).to_set(), t@); }
    out
}

proof fn lemma_pure_replaced_exprs_all(a: Vec<Expr>, b: Vec<Expr>, k: int, m: Seq<((Seq<char>, Seq<char>), Seq<char>)>, pm: Set<(Seq<char>, Seq<char>)>, t: Seq<char>)
    requires
        a.len() == b.len(),
        0 <= k <= a.len(),
        forall|i: int| 0 <= i < b.len() ==> pure_replaced_expr(a[i], b[i], m, pm, t),
    ensures
        pure_replaced_exprs(a, b, k, m, pm, t),
    decreases k,
{
    if k > 0 {
        lemma_pure_replaced_exprs_all(a, b, k - 1, m, pm, t);
    }
}

spec fn field_pure_replaced(a: RecordLitField, b: RecordLitField, m: Seq<((Seq<char>, Seq<char>), Seq<char>)>, pm: Set<(Seq<char>, Seq<char>)>, t: Seq<char>) -> bool {
    b.name == a.name && b.is_spread == a.is_spread && b.at_shorthand == a.at_shorthand && b.span == a.span
        && match a.value {
        Some(x) => b.value matches Some(y) && pure_replaced_expr(x, y, m, pm, t),
        None => b.value is None,
    }
}

proof fn lemma_pure_replaced_fields_all(a: Vec<RecordLitField>, b: Vec<RecordLitField>, k: int, m: Seq<((Seq<char>, Seq<char>), Seq<char>)>, pm: Set<(Seq<char>, Seq<char>)>, t: Seq<char>)
    requires
        a.len() == b.len(),
        0 <= k <= a.len(),
        forall|i: int| 0 <= i < b.len() ==> field_pure_replaced(a[i], b[i], m, pm, t),
    ensures
        pure_replaced_fields(a, b, k, m, pm, t),
    decreases k,
{
    if k > 0 {
        lemma_pure_replaced_fields_all(a, b, k - 1, m, pm, t);
        assert(field_pure_replaced(a[k - 1], b[k - 1], m, pm, t));
    }
}

fn pure_rewrite_fields(v: Vec<RecordLitField>, m: &Vec<PureLocal>, pm: &Vec<(String, String)>, t: &str, samples: &mut Vec<Option<Vec<Expr>>>) -> (r: Vec<RecordLitField>)
    requires
        old(samples)@.len() == m@.len(),
        keys_unique(pure_locals_view(m@)),
    ensures
        pure_replaced_fields(v, r, v.len() as int, pure_locals_view(m@), pairs_view(pm@).to_set(), t@),
        final(samples)@.len() == old(samples)@.len(),
        forall|j: int| 0 <= j < old(samples)@.len() ==> #[trigger] final(samples)@[j]
            == first_args(old(samples)@[j], pure_first_fields(v, v.len() as int, pure_locals_view(m@)[j].0, pairs_view(pm@).to_set(), t@)),
    decreases v, v.len(),
{
    let ghost orig = v;
    let ghost s0 = samples@;
    let mut rest = v;
    let mut out: Vec<RecordLitField> = Vec::new();
    while rest.len() > 0
        invariant
            orig == v,
            s0 == old(samples)@,
            s0.len() == m@.len(),
            keys_unique(pure_locals_view(m@)),
            out.len() + rest.len() == orig.len(),
            rest@ == orig@.subrange(out.len() as int, orig.len() as int),
            forall|i: int| 0 <= i < out.len() ==> field_pure_replaced(orig[i], out[i], pure_locals_view(m@), pairs_view(pm@).to_set(), t@),
            samples@.len() == s0.len(),
            forall|j: int| 0 <= j < s0.len() ==> #[trigger] samples@[j]
                == first_args(s0[j], pure_first_fields(orig, out.len() as int, pure_locals_view(m@)[j].0, pairs_view(pm@).to_set(), t@)),
        decreases rest.len(),
    {
        let ghost i = out.len() as int;
        let ghost s1 = samples@;
        let x = rest.remove(0);
        proof {
            assert(x == orig[i]);
            assert(decreases_to!(orig => orig[i]));
        }
        let RecordLitField { name, value, is_spread, at_shorthand, span } = x;
        let v2 = match value {
            Some(val) => Some(pure_rewrite_expr(val, m, pm, t, samples)),
            None => None,
        };
        out.push(RecordLitField { name, value: v2, is_spread, at_shorthand, span });
        proof {
            assert(rest@ =~= orig@.subrange(out.len() as int, orig.len() as int));
            assert forall|j: int| 0 <= j < s0.len() implies #[trigger] samples@[j]
                == first_args(s0[j], pure_first_fields(orig, out.len() as int, pure_locals_view(m@)[j].0, pairs_view(pm@).to_set(), t@)) by {
                assert(s1[j] == first_args(s0[j], pure_first_fields(orig, i, pure_locals_view(m@)[j].0, pairs_view(pm@).to_set(), t@)));
            }
        }
    }
    proof { lemma_pure_replaced_fields_all(orig, out, orig.len() as int, pure_locals_view(m@), pairs_view(pm@).to_set(), t@); }
    out
}

spec fn arm_pure_replaced(a: MatchArm, b: MatchArm, m: Seq<((Seq<char>, Seq<char>), Seq<char>)>, pm: Set<(Seq<char>, Seq<char>)>, t: Seq<char>) -> bool {
    b.pattern == a.pattern && match a.body {
        MatchArmBody::Expr(x) => b.body matches MatchArmBody::Expr(y) && pure_replaced_expr(x, y, m, pm, t),
        MatchArmBody::Block(x) => b.body matches MatchArmBody::Block(y) && pure_replaced_block(x, y, m, pm, t),
    }
}

proof fn lemma_pure_replaced_arms_all(a: Vec<MatchArm>, b: Vec<MatchArm>, k: int, m: Seq<((Seq<char>, Seq<char>), Seq<char>)>, pm: Set<(Seq<char>, Seq<char>)>, t: Seq<char>)
    requires
        a.len() == b.len(),
        0 <= k <= a.len(),
        forall|i: int| 0 <= i < b.len() ==> arm_pure_replaced(a[i], b[i], m, pm, t),
    ensures
        pure_replaced_arms(a, b, k, m, pm, t),
    decreases k,
{
    if k > 0 {
        lemma_pure_replaced_arms_all(a, b, k - 1, m, pm, t);
        assert(arm_pure_replaced(a[k - 1], b[k - 1], m, pm, t));
    }
}

fn pure_rewrite_arms(v: Vec<MatchArm>, m: &Vec<PureLocal>, pm: &Vec<(String, String)>, t: &str, samples: &mut Vec<Option<Vec<Expr>>>) -> (r: Vec<MatchArm>)
    requires
        old(samples)@.len() == m@.len(),
        keys_unique(pure_locals_view(m@)),
    ensures
        pure_replaced_arms(v, r, v.len() as int, pure_locals_view(m@), pairs_view(pm@).to_set(), t@),
        final(samples)@.len() == old(samples)@.len(),
        forall|j: int| 0 <= j < old(samples)@.len() ==> #[trigger] final(samples)@[j]
            == first_args(old(samples)@[j], pure_first_arms(v, v.len() as int, pure_locals_view(m@)[j].0, pairs_view(pm@).to_set(), t@)),
    decreases v, v.len(),
{
    let ghost orig = v;
    let ghost s0 = samples@;
    let mut rest = v;
    let mut out: Vec<MatchArm> = Vec::new();
    while rest.len() > 0
        invariant
            orig == v,
            s0 == old(samples)@,
            s0.len() == m@.len(),
            keys_unique(pure_locals_view(m@)),
            out.len() + rest.len() == orig.len(),
            rest@ == orig@.subrange(out.len() as int, orig.len() as int),
            forall|i: int| 0 <= i < out.len() ==> arm_pure_replaced(orig[i], out[i], pure_locals_view(m@), pairs_view(pm@).to_set(), t@),
            samples@.len() == s0.len(),
            forall|j: int| 0 <= j < s0.len() ==> #[trigger] samples@[j]
                == first_args(s0[j], pure_first_arms(orig, out.len() as int, pure_locals_view(m@)[j].0, pairs_view(pm@).to_set(), t@)),
        decreases rest.len(),
    {
        let ghost i = out.len() as int;
        let ghost s1 = samples@;
        let x = rest.remove(0);
        proof {
            assert(x == orig[i]);
            assert(decreases_to!(orig => orig[i]));
        }
        let MatchArm { pattern, body } = x;
        let b2 = match body {
            MatchArmBody::Expr(y) => MatchArmBody::Expr(pure_rewrite_expr(y, m, pm, t, samples)),
            MatchArmBody::Block(y) => MatchArmBody::Block(pure_rewrite_block(y, m, pm, t, samples)),
        };
        out.push(MatchArm { pattern, body: b2 });
        proof {
            assert(rest@ =~= orig@.subrange(out.len() as int, orig.len() as int));
            assert forall|j: int| 0 <= j < s0.len() implies #[trigger] samples@[j]
                == first_args(s0[j], pure_first_arms(orig, out.len() as int, pure_locals_view(m@)[j].0, pairs_view(pm@).to_set(), t@)) by {
                assert(s1[j] == first_args(s0[j], pure_first_arms(orig, i, pure_locals_view(m@)[j].0, pairs_view(pm@).to_set(), t@)));
            }
        }
    }
    proof { lemma_pure_replaced_arms_all(orig, out, orig.len() as int, pure_locals_view(m@), pairs_view(pm@).to_set(), t@); }
    out
}

/// `pure_rewrite_expr` for a block.
pub fn pure_rewrite_block(b: Block, m: &Vec<PureLocal>, pm: &Vec<(String, String)>, t: &str, samples: &mut Vec<Option<Vec<Expr>>>) -> (r: Block)
    requires
        old(samples)@.len() == m@.len(),
        keys_unique(pure_locals_view(m@)),
    ensures
        pure_replaced_block(b, r, pure_locals_view(m@), pairs_view(pm@).to_set(), t@),
        final(samples)@.len() == old(samples)@.len(),
        forall|j: int| 0 <= j < old(samples)@.len() ==> #[trigger] final(samples)@[j]
            == first_args(old(samples)@[j], pure_first_block(b, pure_locals_view(m@)[j].0, pairs_view(pm@).to_set(), t@)),
    decreases b, 0int,
{
    let Block { stmts, trailing, span } = b;
    let s2 = pure_rewrite_stmts(stmts, m, pm, t, samples);
    let t2 = match trailing {
        Some(x) => Some(Box::new(pure_rewrite_expr(*x, m, pm, t, samples))),
        None => None,
    };
    Block { stmts: s2, trailing: t2, span }
}

fn pure_rewrite_stmts(v: Vec<Stmt>, m: &Vec<PureLocal>, pm: &Vec<(String, String)>, t: &str, samples: &mut Vec<Option<Vec<Expr>>>) -> (r: Vec<Stmt>)
    requires
        old(samples)@.len() == m@.len(),
        keys_unique(pure_locals_view(m@)),
    ensures
        pure_replaced_stmts(v, r, v.len() as int, pure_locals_view(m@), pairs_view(pm@).to_set(), t@),
        final(samples)@.len() == old(samples)@.len(),
        forall|j: int| 0 <= j < old(samples)@.len() ==> #[trigger] final(samples)@[j]
            == first_args(old(samples)@[j], pure_first_stmts(v, v.len() as int, pure_locals_view(m@)[j].0, pairs_view(pm@).to_set(), t@)),
    decreases v, v.len(),
{
    let ghost orig = v;
    let ghost s0 = samples@;
    let mut rest = v;
    let mut out: Vec<Stmt> = Vec::new();
    while rest.len() > 0
        invariant
            orig == v,
            s0 == old(samples)@,
            s0.len() == m@.len(),
            keys_unique(pure_locals_view(m@)),
            out.len() + rest.len() == orig.len(),
            rest@ == orig@.subrange(out.len() as int, orig.len() as int),
            forall|i: int| 0 <= i < out.len() ==> pure_replaced_stmt(orig[i], out[i], pure_locals_view(m@), pairs_view(pm@).to_set(), t@),
            samples@.len() == s0.len(),
            forall|j: int| 0 <= j < s0.len() ==> #[trigger] samples@[j]
                == first_args(s0[j], pure_first_stmts(orig, out.len() as int, pure_locals_view(m@)[j].0, pairs_view(pm@).to_set(), t@)),
        decreases rest.len(),
    {
        let ghost i = out.len() as int;
        let ghost s1 = samples@;
        let x = rest.remove(0);
        proof {
            assert(x == orig[i]);
            assert(decreases_to!(orig => orig[i]));
        }
        let y = pure_rewrite_stmt(x, m, pm, t, samples);
        out.push(y);
        proof {
            assert(rest@ =~= orig@.subrange(out.len() as int, orig.len() as int));
            assert forall|j: int| 0 <= j < s0.len() implies #[trigger] samples@[j]
                == first_args(s0[j], pure_first_stmts(orig, out.len() as int, pure_locals_view(m@)[j].0, pairs_view(pm@).to_set(), t@)) by {
                assert(s1[j] == first_args(s0[j], pure_first_stmts(orig, i, pure_locals_view(m@)[j].0, pairs_view(pm@).to_set(), t@)));
            }
        }
    }
    proof { lemma_pure_replaced_stmts_all(orig, out, orig.len() as int, pure_locals_view(m@), pairs_view(pm@).to_set(), t@); }
    out
}

proof fn lemma_pure_replaced_stmts_all(a: Vec<Stmt>, b: Vec<Stmt>, k: int, m: Seq<((Seq<char>, Seq<char>), Seq<char>)>, pm: Set<(Seq<char>, Seq<char>)>, t: Seq<char>)
    requires
        a.len() == b.len(),
        0 <= k <= a.len(),
        forall|i: int| 0 <= i < b.len() ==> pure_replaced_stmt(a[i], b[i], m, pm, t),
    ensures
        pure_replaced_stmts(a, b, k, m, pm, t),
    decreases k,
{
    if k > 0 {
        lemma_pure_replaced_stmts_all(a, b, k - 1, m, pm, t);
    }
}

/// `pure_rewrite_expr` for a statement.
pub fn pure_rewrite_stmt(s: Stmt, m: &Vec<PureLocal>, pm: &Vec<(String, String)>, t: &str, samples: &mut Vec<Option<Vec<Expr>>>) -> (r: Stmt)
    requires
        old(samples)@.len() == m@.len(),
        keys_unique(pure_locals_view(m@)),
    ensures
        pure_replaced_stmt(s, r, pure_locals_view(m@), pairs_view(pm@).to_set(), t@),
        final(samples)@.len() == old(samples)@.len(),
        forall|j: int| 0 <= j < old(samples)@.len() ==> #[trigger] final(samples)@[j]
            == first_args(old(samples)@[j], pure_first_stmt(s, pure_locals_view(m@)[j].0, pairs_view(pm@).to_set(), t@)),
    decreases s, 0int,
{
    match s {
        Stmt::Let(d) => {
            let LetDecl { mutable, pattern, ty, value, span } = d;
            Stmt::Let(LetDecl { mutable, pattern, ty, value: pure_rewrite_expr(value, m, pm, t, samples), span })
        },
        Stmt::Assign { target, value, span } => {
            let t2 = pure_rewrite_expr(target, m, pm, t, samples);
            Stmt::Assign { target: t2, value: pure_rewrite_expr(value, m, pm, t, samples), span }
        },
        Stmt::Expr(x) => Stmt::Expr(pure_rewrite_expr(x, m, pm, t, samples)),
        Stmt::Return { value, span } => Stmt::Return {
            value: match value {
                Some(x) => Some(pure_rewrite_expr(x, m, pm, t, samples)),
                None => None,
            },
            span,
        },
        other => other,
    }
}

} // verus!
