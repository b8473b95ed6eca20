//! Replacing member chains on the receiver by the locals that cache them.

use vstd::prelude::*;
use crate::ast::{Block, ElseBranch, Expr, ExprKind, MatchArm, MatchArmBody, RecordLitField, Stmt};
use crate::field_cache::chain_path::{chain_path, chain_path_of, path_eq};
use crate::field_cache::ipa::names_view;
use crate::text::copy_str;

verus! {

/// The local that `m` gives for chain path `q` (the first pair wins).
pub open spec fn local_for_path(m: Seq<(Seq<Seq<char>>, Seq<char>)>, q: Seq<Seq<char>>) -> Option<Seq<char>>
    decreases m.len(),
{
    if m.len() == 0 {
        None
    } else if m[0].0 == q {
        Some(m[0].1)
    } else {
        local_for_path(m.drop_first(), q)
    }
}

/// The local that `m` gives for the chain `e` is, if any.
pub open spec fn chain_local(m: Seq<(Seq<Seq<char>>, Seq<char>)>, e: Expr) -> Option<Seq<char>> {
    match chain_path(e) {
        Some(q) => local_for_path(m, q),
        None => None,
    }
}

/// The pairs `(path, local)` by their characters.
pub open spec fn chain_pairs_view(m: Seq<(Vec<String>, String)>) -> Seq<(Seq<Seq<char>>, Seq<char>)> {
    m.map_values(|p: (Vec<String>, String)| (names_view(p.0@), p.1@))
}

/// A copy of the local that `m` gives for path `q`.
pub fn find_chain_local(m: &Vec<(Vec<String>, String)>, q: &Vec<String>) -> (r: Option<String>)
    ensures
        match r {
            Some(l) => local_for_path(chain_pairs_view(m@), names_view(q@)) == Some(l@),
            None => local_for_path(chain_pairs_view(m@), names_view(q@)) is None,
        },
{
    let ghost mv = chain_pairs_view(m@);
    let mut i: usize = 0;
    assert(mv.subrange(0, m@.len() as int) =~= mv);
    while i < m.len()
        invariant
            i <= m@.len(),
            mv == chain_pairs_view(m@),
            local_for_path(mv, names_view(q@)) == local_for_path(mv.subrange(i as int, m@.len() as int), names_view(q@)),
        decreases m@.len() - i,
    {
        let ghost rest = mv.subrange(i as int, m@.len() as int);
        assert(rest.drop_first() =~= mv.subrange(i as int + 1, m@.len() as int));
        assert(rest[0] == (names_view(m@[i as int].0@), m@[i as int].1@));
        if path_eq(&m[i].0, q) {
            return Some(copy_str(m[i].1.as_str()));
        }
        i = i + 1;
    }
    None
}

/// `b` is `a` with every chain `@a.b…` that `m` maps to a local `l`,
/// outside closures, replaced by the variable `l` (the longest such chain
/// wins; a chain not mapped is searched for mapped chains inside it); in a
/// call `@a.b.m(..)` the method name is left alone. Nothing else differs.
pub open spec fn chain_replaced_expr(a: Expr, b: Expr, m: Seq<(Seq<Seq<char>>, Seq<char>)>) -> bool
    decreases a, 0int,
{
    b.span == a.span && match chain_local(m, a) {
        Some(l) => b.kind matches ExprKind::Ident(n) && n@ == l,
        None => match a.kind {
            ExprKind::Member { obj, name } => b.kind matches ExprKind::Member { obj: o2, name: n2 } && n2 == name
                && chain_replaced_expr(*obj, *o2, m),
            ExprKind::Call { func, args } => b.kind matches ExprKind::Call { func: f2, args: a2 }
                && chain_replaced_exprs(args, a2, args.len() as int, m) && (match func.kind {
                    ExprKind::Member { obj, name } => (f2.kind matches ExprKind::Member { obj: o2, name: n2 }
                        && n2 == name && chain_replaced_expr(*obj, *o2, m)) && f2.span == func.span,
                    _ => chain_replaced_expr(*func, *f2, m),
                }),
            ExprKind::Binary { op, left, right } => b.kind matches ExprKind::Binary { op: op2, left: l2, right: r2 }
                && op2 == op && chain_replaced_expr(*left, *l2, m) && chain_replaced_expr(*right, *r2, m),
            ExprKind::Unary { op, operand } => b.kind matches ExprKind::Unary { op: op2, operand: x2 } && op2 == op
                && chain_replaced_expr(*operand, *x2, m),
            ExprKind::Index { obj, index } => b.kind matches ExprKind::Index { obj: o2, index: i2 }
                && chain_replaced_expr(*obj, *o2, m) && chain_replaced_expr(*index, *i2, m),
            ExprKind::If { cond, then, else_ } => b.kind matches ExprKind::If { cond: c2, then: t2, else_: e2 }
                && chain_replaced_expr(*cond, *c2, m) && chain_replaced_block(then, t2, m) && match else_ {
                    Some(ElseBranch::Block(x)) => e2 matches Some(ElseBranch::Block(y)) && chain_replaced_block(x, y, m),
                    Some(ElseBranch::If(x)) => e2 matches Some(ElseBranch::If(y)) && chain_replaced_expr(*x, *y, m),
                    None => e2 is None,
                },
            ExprKind::IfLet { pattern, scrutinee: cond, then, else_ } => b.kind matches ExprKind::IfLet { pattern: p2, scrutinee: c2, then: t2, else_: e2 } && p2 == pattern
                && chain_replaced_expr(*cond, *c2, m) && chain_replaced_block(then, t2, m) && match else_ {
                    Some(ElseBranch::Block(x)) => e2 matches Some(ElseBranch::Block(y)) && chain_replaced_block(x, y, m),
                    Some(ElseBranch::If(x)) => e2 matches Some(ElseBranch::If(y)) && chain_replaced_expr(*x, *y, m),
                    None => e2 is None,
                },
            ExprKind::While { cond, body } => b.kind matches ExprKind::While { cond: c2, body: b2 }
                && chain_replaced_expr(*cond, *c2, m) && chain_replaced_block(body, b2, m),
            ExprKind::WhileLet { pattern, scrutinee: cond, body } => b.kind matches ExprKind::WhileLet { pattern: p2, scrutinee: c2, body: b2 } && p2 == pattern
                && chain_replaced_expr(*cond, *c2, m) && chain_replaced_block(body, b2, m),
            ExprKind::For { var, iter: cond, body } => b.kind matches ExprKind::For { var: v2, iter: c2, body: b2 } && v2 == var
                && chain_replaced_expr(*cond, *c2, m) && chain_replaced_block(body, b2, m),
            ExprKind::ParallelFor { var, iter: cond, body } => b.kind matches ExprKind::ParallelFor { var: v2, iter: c2, body: b2 } && v2 == var
                && chain_replaced_expr(*cond, *c2, m) && chain_replaced_block(body, b2, m),
            ExprKind::Match { scrutinee, arms } => b.kind matches ExprKind::Match { scrutinee: s2, arms: a2 }
                && chain_replaced_expr(*scrutinee, *s2, m) && chain_replaced_arms(arms, a2, arms.len() as int, m),
            ExprKind::Block(x) => b.kind matches ExprKind::Block(y) && chain_replaced_block(x, y, m),
            ExprKind::Spawn(x) => b.kind matches ExprKind::Spawn(y) && chain_replaced_expr(*x, *y, m),
            ExprKind::NamedArg { name, value: x } => b.kind matches ExprKind::NamedArg { name: n2, value: y } && n2 == name && chain_replaced_expr(*x, *y, m),
            ExprKind::Try(x) => b.kind matches ExprKind::Try(y) && chain_replaced_expr(*x, *y, m),
            ExprKind::TupleLit(items) => b.kind matches ExprKind::TupleLit(i2)
                && chain_replaced_exprs(items, i2, items.len() as int, m),
            ExprKind::ArrayLit(items) => b.kind matches ExprKind::ArrayLit(i2)
                && chain_replaced_exprs(items, i2, items.len() as int, m),
            ExprKind::RecordLit { type_path, fields, inferred_map_v } => b.kind matches ExprKind::RecordLit {
                type_path: t2, fields: f2, inferred_map_v: m2 } && t2 == type_path && m2 == inferred_map_v
                && chain_replaced_fields(fields, f2, fields.len() as int, m),
            _ => b == a,
        },
    }
}

/// Element-wise `chain_replaced_expr` over the first `k` entries (same length).
pub open spec fn chain_replaced_exprs(a: Vec<Expr>, b: Vec<Expr>, k: int, m: Seq<(Seq<Seq<char>>, Seq<char>)>) -> bool
    decreases a, k,
{
    a.len() == b.len() && (k <= 0 || k > a.len() || (chain_replaced_exprs(a, b, k - 1, m) && chain_replaced_expr(
        a[k - 1],
        b[k - 1],
        m,
    )))
}

pub open spec fn chain_replaced_fields(a: Vec<RecordLitField>, b: Vec<RecordLitField>, k: int, m: Seq<(Seq<Seq<char>>, Seq<char>)>) -> bool
    decreases a, k,
{
    a.len() == b.len() && (k <= 0 || k > a.len() || (chain_replaced_fields(a, b, k - 1, m)
        && b[k - 1].name == a[k - 1].name && b[k - 1].is_spread == a[k - 1].is_spread
        && b[k - 1].at_shorthand == a[k - 1].at_shorthand && b[k - 1].span == a[k - 1].span
        && match a[k - 1].value {
        Some(x) => b[k - 1].value matches Some(y) && chain_replaced_expr(x, y, m),
        None => b[k - 1].value is None,
    }))
}

pub open spec fn chain_replaced_arms(a: Vec<MatchArm>, b: Vec<MatchArm>, k: int, m: Seq<(Seq<Seq<char>>, Seq<char>)>) -> bool
    decreases a, k,
{
    a.len() == b.len() && (k <= 0 || k > a.len() || (chain_replaced_arms(a, b, k - 1, m)
        && b[k - 1].pattern == a[k - 1].pattern && match a[k - 1].body {
        MatchArmBody::Expr(x) => b[k - 1].body matches MatchArmBody::Expr(y) && chain_replaced_expr(x, y, m),
        MatchArmBody::Block(x) => b[k - 1].body matches MatchArmBody::Block(y) && chain_replaced_block(x, y, m),
    }))
}

/// `chain_replaced_expr` for blocks: statements one by one, then the trailing value.
pub open spec fn chain_replaced_block(a: Block, b: Block, m: Seq<(Seq<Seq<char>>, Seq<char>)>) -> bool
    decreases a, 0int,
{
    b.span == a.span && chain_replaced_stmts(a.stmts, b.stmts, a.stmts.len() as int, m) && match a.trailing {
        Some(x) => b.trailing matches Some(y) && chain_replaced_expr(*x, *y, m),
        None => b.trailing is None,
    }
}

pub open spec fn chain_replaced_stmts(a: Vec<Stmt>, b: Vec<Stmt>, k: int, m: Seq<(Seq<Seq<char>>, Seq<char>)>) -> bool
    decreases a, k,
{
    a.len() == b.len() && (k <= 0 || k > a.len() || (chain_replaced_stmts(a, b, k - 1, m) && chain_replaced_stmt(
        a[k - 1],
        b[k - 1],
        m,
    )))
}

/// `chain_replaced_expr` for statements.
pub open spec fn chain_replaced_stmt(a: Stmt, b: Stmt, m: Seq<(Seq<Seq<char>>, Seq<char>)>) -> bool
    decreases a, 0int,
{
    match a {
        Stmt::Let(d) => b matches Stmt::Let(d2) && d2.mutable == d.mutable && d2.pattern == d.pattern && d2.ty == d.ty
            && d2.span == d.span && chain_replaced_expr(d.value, d2.value, m),
        Stmt::Assign { target, value, span } => b matches Stmt::Assign { target: t2, value: v2, span: s2 }
            && s2 == span && chain_replaced_expr(target, t2, m) && chain_replaced_expr(value, v2, m),
        Stmt::Expr(x) => b matches Stmt::Expr(y) && chain_replaced_expr(x, y, m),
        Stmt::Return { value, span } => b matches Stmt::Return { value: v2, span: s2 } && s2 == span
            && match value {
            Some(x) => v2 matches Some(y) && chain_replaced_expr(x, y, m),
            None => v2 is None,
        },
        _ => b == a,
    }
}

/// Replaces the chains that `m` maps by their locals (see
/// `chain_replaced_expr`).
pub fn chain_rewrite_expr(e: Expr, m: &Vec<(Vec<String>, String)>) -> (r: Expr)
    ensures
        chain_replaced_expr(e, r, chain_pairs_view(m@)),
    decreases e, 0int,
{
    match chain_path_of(&e) {
        Some(q) => match find_chain_local(m, &q) {
            Some(l) => {
                return Expr { kind: ExprKind::Ident(l), span: e.span };
            },
            None => {},
        },
        None => {},
    }
    let span = e.span;
    let kind = match e.kind {
        ExprKind::Member { obj, name } => ExprKind::Member { obj: Box::new(chain_rewrite_expr(*obj, m)), name },
        ExprKind::Call { func, args } => {
            let Expr { kind: fkind, span: fspan } = *func;
            let f2 = match fkind {
                ExprKind::Member { obj, name } => Expr {
                    kind: ExprKind::Member { obj: Box::new(chain_rewrite_expr(*obj, m)), name },
                    span: fspan,
                },
                other => chain_rewrite_expr(Expr { kind: other, span: fspan }, m),
            };
            let a2 = chain_rewrite_exprs(args, m);
            ExprKind::Call { func: Box::new(f2), args: a2 }
        },
        ExprKind::Binary { op, left, right } => {
            let l2 = chain_rewrite_expr(*left, m);
            let r2 = chain_rewrite_expr(*right, m);
            ExprKind::Binary { op, left: Box::new(l2), right: Box::new(r2) }
        },
        ExprKind::Unary { op, operand } => ExprKind::Unary { op, operand: Box::new(chain_rewrite_expr(*operand, m)) },
        ExprKind::Index { obj, index } => {
            let o2 = chain_rewrite_expr(*obj, m);
            let i2 = chain_rewrite_expr(*index, m);
            ExprKind::Index { obj: Box::new(o2), index: Box::new(i2) }
        },
        ExprKind::If { cond, then, else_ } => {
            let c2 = chain_rewrite_expr(*cond, m);
            let t2 = chain_rewrite_block(then, m);
            let e2 = match else_ {
                Some(ElseBranch::Block(x)) => Some(ElseBranch::Block(chain_rewrite_block(x, m))),
                Some(ElseBranch::If(x)) => Some(ElseBranch::If(Box::new(chain_rewrite_expr(*x, m)))),
                None => None,
            };
            ExprKind::If { cond: Box::new(c2), then: t2, else_: e2 }
        },
        ExprKind::IfLet { pattern, scrutinee: cond, then, else_ } => {
            let c2 = chain_rewrite_expr(*cond, m);
            let t2 = chain_rewrite_block(then, m);
            let e2 = match else_ {
                Some(ElseBranch::Block(x)) => Some(ElseBranch::Block(chain_rewrite_block(x, m))),
                Some(ElseBranch::If(x)) => Some(ElseBranch::If(Box::new(chain_rewrite_expr(*x, m)))),
                None => None,
            };
            ExprKind::IfLet { pattern, scrutinee: Box::new(c2), then: t2, else_: e2 }
        },
        ExprKind::While { cond, body } => {
            let c2 = chain_rewrite_expr(*cond, m);
            let b2 = chain_rewrite_block(body, m);
            ExprKind::While { cond: Box::new(c2), body: b2 }
        },
        ExprKind::WhileLet { pattern, scrutinee: cond, body } => {
            let c2 = chain_rewrite_expr(*cond, m);
            let b2 = chain_rewrite_block(body, m);
            ExprKind::WhileLet { pattern, scrutinee: Box::new(c2), body: b2 }
        },
        ExprKind::For { var, iter: cond, body } => {
            let c2 = chain_rewrite_expr(*cond, m);
            let b2 = chain_rewrite_block(body, m);
            ExprKind::For { var, iter: Box::new(c2), body: b2 }
        },
        ExprKind::ParallelFor { var, iter: cond, body } => {
            let c2 = chain_rewrite_expr(*cond, m);
            let b2 = chain_rewrite_block(body, m);
            ExprKind::ParallelFor { var, iter: Box::new(c2), body: b2 }
        },
        ExprKind::Match { scrutinee, arms } => {
            let s2 = chain_rewrite_expr(*scrutinee, m);
            let a2 = chain_rewrite_arms(arms, m);
            ExprKind::Match { scrutinee: Box::new(s2), arms: a2 }
        },
        ExprKind::Block(x) => ExprKind::Block(chain_rewrite_block(x, m)),
        ExprKind::Spawn(x) => ExprKind::Spawn(Box::new(chain_rewrite_expr(*x, m))),
        ExprKind::NamedArg { name, value: x } => ExprKind::NamedArg { name, value: Box::new(chain_rewrite_expr(*x, m)) },
        ExprKind::Try(x) => ExprKind::Try(Box::new(chain_rewrite_expr(*x, m))),
        ExprKind::TupleLit(items) => ExprKind::TupleLit(chain_rewrite_exprs(items, m)),
        ExprKind::ArrayLit(items) => ExprKind::ArrayLit(chain_rewrite_exprs(items, m)),
        ExprKind::RecordLit { type_path, fields, inferred_map_v } => ExprKind::RecordLit {
            type_path,
            fields: chain_rewrite_fields(fields, m),
            inferred_map_v,
        },
        other => other,
    };
    Expr { kind, span }
}

fn chain_rewrite_exprs(v: Vec<Expr>, m: &Vec<(Vec<String>, String)>) -> (r: Vec<Expr>)
    ensures
        chain_replaced_exprs(v, r, v.len() as int, chain_pairs_view(m@)),
    decreases v, v.len(),
{
    let ghost orig = v;
    let mut rest = v;
    let mut out: Vec<Expr> = Vec::new();
    while rest.len() > 0
        invariant
            orig == v,
            out.len() + rest.len() == orig.len(),
            rest@ == orig@.subrange(out.len() as int, orig.len() as int),
            forall|i: int| 0 <= i < out.len() ==> chain_replaced_expr(orig[i], out[i], chain_pairs_view(m@)),
        decreases rest.len(),
    {
        let ghost i = out.len() as int;
        let x = rest.remove(0);
        proof {
            assert(x == orig[i]);
            assert(decreases_to!(orig => orig[i]));
        }
        let y = chain_rewrite_expr(x, m);
        out.push(y);
        proof {
            assert(rest@ =~= orig@.subrange(out.len() as int, orig.len() as int));
        }
    }
    proof { lemma_chain_replaced_exprs_all(orig, out, orig.len() as int, chain_pairs_view(m@)); }
    out
}

proof fn lemma_chain_replaced_exprs_all(a: Vec<Expr>, b: Vec<Expr>, k: int, m: Seq<(Seq<Seq<char>>, Seq<char>)>)
    requires
        a.len() == b.len(),
        0 <= k <= a.len(),
        forall|i: int| 0 <= i < b.len() ==> chain_replaced_expr(a[i], b[i], m),
    ensures
        chain_replaced_exprs(a, b, k, m),
    decreases k,
{
    if k > 0 {
        lemma_chain_replaced_exprs_all(a, b, k - 1, m);
    }
}

fn chain_rewrite_fields(v: Vec<RecordLitField>, m: &Vec<(Vec<String>, String)>) -> (r: Vec<RecordLitField>)
    ensures
        chain_replaced_fields(v, r, v.len() as int, chain_pairs_view(m@)),
    decreases v, v.len(),
{
    let ghost orig = v;
    let mut rest = v;
    let mut out: Vec<RecordLitField> = Vec::new();
    while rest.len() > 0
        invariant
            orig == v,
            out.len() + rest.len() == orig.len(),
            rest@ == orig@.subrange(out.len() as int, orig.len() as int),
            forall|i: int| 0 <= i < out.len() ==> field_chain_replaced(orig[i], out[i], chain_pairs_view(m@)),
        decreases rest.len(),
    {
        let ghost i = out.len() as int;
        let x = rest.remove(0);
        proof {
            assert(x == orig[i]);
            assert(decreases_to!(orig => orig[i]));
        }
        let RecordLitField { name, value, is_spread, at_shorthand, span } = x;
        let v2 = match value {
            Some(val) => Some(chain_rewrite_expr(val, m)),
            None => None,
        };
        out.push(RecordLitField { name, value: v2, is_spread, at_shorthand, span });
        proof {
            assert(rest@ =~= orig@.subrange(out.len() as int, orig.len() as int));
        }
    }
    proof { lemma_chain_replaced_fields_all(orig, out, orig.len() as int, chain_pairs_view(m@)); }
    out
}

spec fn field_chain_replaced(a: RecordLitField, b: RecordLitField, m: Seq<(Seq<Seq<char>>, Seq<char>)>) -> bool {
    b.name == a.name && b.is_spread == a.is_spread && b.at_shorthand == a.at_shorthand && b.span == a.span
        && match a.value {
        Some(x) => b.value matches Some(y) && chain_replaced_expr(x, y, m),
        None => b.value is None,
    }
}

proof fn lemma_chain_replaced_fields_all(a: Vec<RecordLitField>, b: Vec<RecordLitField>, k: int, m: Seq<(Seq<Seq<char>>, Seq<char>)>)
    requires
        a.len() == b.len(),
        0 <= k <= a.len(),
        forall|i: int| 0 <= i < b.len() ==> field_chain_replaced(a[i], b[i], m),
    ensures
        chain_replaced_fields(a, b, k, m),
    decreases k,
{
    if k > 0 {
        lemma_chain_replaced_fields_all(a, b, k - 1, m);
        assert(field_chain_replaced(a[k - 1], b[k - 1], m));
    }
}

spec fn arm_chain_replaced(a: MatchArm, b: MatchArm, m: Seq<(Seq<Seq<char>>, Seq<char>)>) -> bool {
    b.pattern == a.pattern && match a.body {
        MatchArmBody::Expr(x) => b.body matches MatchArmBody::Expr(y) && chain_replaced_expr(x, y, m),
        MatchArmBody::Block(x) => b.body matches MatchArmBody::Block(y) && chain_replaced_block(x, y, m),
    }
}

fn chain_rewrite_arms(v: Vec<MatchArm>, m: &Vec<(Vec<String>, String)>) -> (r: Vec<MatchArm>)
    ensures
        chain_replaced_arms(v, r, v.len() as int, chain_pairs_view(m@)),
    decreases v, v.len(),
{
    let ghost orig = v;
    let mut rest = v;
    let mut out: Vec<MatchArm> = Vec::new();
    while rest.len() > 0
        invariant
            orig == v,
            out.len() + rest.len() == orig.len(),
            rest@ == orig@.subrange(out.len() as int, orig.len() as int),
            forall|i: int| 0 <= i < out.len() ==> arm_chain_replaced(orig[i], out[i], chain_pairs_view(m@)),
        decreases rest.len(),
    {
        let ghost i = out.len() as int;
        let x = rest.remove(0);
        proof {
            assert(x == orig[i]);
            assert(decreases_to!(orig => orig[i]));
        }
        let MatchArm { pattern, body } = x;
        let b2 = match body {
            MatchArmBody::Expr(y) => MatchArmBody::Expr(chain_rewrite_expr(y, m)),
            MatchArmBody::Block(y) => MatchArmBody::Block(chain_rewrite_block(y, m)),
        };
        out.push(MatchArm { pattern, body: b2 });
        proof {
            assert(rest@ =~= orig@.subrange(out.len() as int, orig.len() as int));
        }
    }
    proof { lemma_chain_replaced_arms_all(orig, out, orig.len() as int, chain_pairs_view(m@)); }
    out
}

proof fn lemma_chain_replaced_arms_all(a: Vec<MatchArm>, b: Vec<MatchArm>, k: int, m: Seq<(Seq<Seq<char>>, Seq<char>)>)
    requires
        a.len() == b.len(),
        0 <= k <= a.len(),
        forall|i: int| 0 <= i < b.len() ==> arm_chain_replaced(a[i], b[i], m),
    ensures
        chain_replaced_arms(a, b, k, m),
    decreases k,
{
    if k > 0 {
        lemma_chain_replaced_arms_all(a, b, k - 1, m);
        assert(arm_chain_replaced(a[k - 1], b[k - 1], m));
    }
}

/// Replaces the reads of `@f` in a block by the variable `l`.
pub fn chain_rewrite_block(b: Block, m: &Vec<(Vec<String>, String)>) -> (r: Block)
    ensures
        chain_replaced_block(b, r, chain_pairs_view(m@)),
    decreases b, 0int,
{
    let Block { stmts, trailing, span } = b;
    let s2 = chain_rewrite_stmts(stmts, m);
    let t2 = match trailing {
        Some(t) => Some(Box::new(chain_rewrite_expr(*t, m))),
        None => None,
    };
    Block { stmts: s2, trailing: t2, span }
}

fn chain_rewrite_stmts(v: Vec<Stmt>, m: &Vec<(Vec<String>, String)>) -> (r: Vec<Stmt>)
    ensures
        chain_replaced_stmts(v, r, v.len() as int, chain_pairs_view(m@)),
    decreases v, v.len(),
{
    let ghost orig = v;
    let mut rest = v;
    let mut out: Vec<Stmt> = Vec::new();
    while rest.len() > 0
        invariant
            orig == v,
            out.len() + rest.len() == orig.len(),
            rest@ == orig@.subrange(out.len() as int, orig.len() as int),
            forall|i: int| 0 <= i < out.len() ==> chain_replaced_stmt(orig[i], out[i], chain_pairs_view(m@)),
        decreases rest.len(),
    {
        let ghost i = out.len() as int;
        let x = rest.remove(0);
        proof {
            assert(x == orig[i]);
            assert(decreases_to!(orig => orig[i]));
        }
        let y = chain_rewrite_stmt(x, m);
        out.push(y);
        proof {
            assert(rest@ =~= orig@.subrange(out.len() as int, orig.len() as int));
        }
    }
    proof { lemma_chain_replaced_stmts_all(orig, out, orig.len() as int, chain_pairs_view(m@)); }
    out
}

proof fn lemma_chain_replaced_stmts_all(a: Vec<Stmt>, b: Vec<Stmt>, k: int, m: Seq<(Seq<Seq<char>>, Seq<char>)>)
    requires
        a.len() == b.len(),
        0 <= k <= a.len(),
        forall|i: int| 0 <= i < b.len() ==> chain_replaced_stmt(a[i], b[i], m),
    ensures
        chain_replaced_stmts(a, b, k, m),
    decreases k,
{
    if k > 0 {
        lemma_chain_replaced_stmts_all(a, b, k - 1, m);
    }
}

/// Replaces the reads of `@f` in a statement by the variable `l`.
pub fn chain_rewrite_stmt(s: Stmt, m: &Vec<(Vec<String>, String)>) -> (r: Stmt)
    ensures
        chain_replaced_stmt(s, r, chain_pairs_view(m@)),
    decreases s, 0int,
{
    match s {
        Stmt::Let(d) => {
            let crate::ast::LetDecl { mutable, pattern, ty, value, span } = d;
            Stmt::Let(crate::ast::LetDecl { mutable, pattern, ty, value: chain_rewrite_expr(value, m), span })
        },
        Stmt::Assign { target, value, span } => {
            let t2 = chain_rewrite_expr(target, m);
            Stmt::Assign { target: t2, value: chain_rewrite_expr(value, m), span }
        },
        Stmt::Expr(x) => Stmt::Expr(chain_rewrite_expr(x, m)),
        Stmt::Return { value, span } => Stmt::Return {
            value: match value {
                Some(x) => Some(chain_rewrite_expr(x, m)),
                None => None,
            },
            span,
        },
        other => other,
    }
}

} // verus!
