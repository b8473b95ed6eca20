//! Replacing reads of receiver fields by local variables.

use vstd::prelude::*;
use crate::ast::{Block, ElseBranch, Expr, ExprKind, MatchArm, MatchArmBody, RecordLitField, Stmt};
use crate::field_cache::reads::{
    self_field, self_field_of, reads_expr, reads_exprs, reads_fields, reads_arms, reads_block,
    reads_stmts, reads_stmt,
};
use crate::text::str_eq;

verus! {

/// The pairs `(field, local)` by their characters.
pub open spec fn pairs_view(m: Seq<(String, String)>) -> Seq<(Seq<char>, Seq<char>)> {
    m.map_values(|p: (String, String)| (p.0@, p.1@))
}

/// The local that `m` gives for the field `g` (the first pair wins).
pub open spec fn local_for(m: Seq<(Seq<char>, Seq<char>)>, g: Seq<char>) -> Option<Seq<char>>
    decreases m.len(),
{
    if m.len() == 0 {
        None
    } else if m[0].0 == g {
        Some(m[0].1)
    } else {
        local_for(m.drop_first(), g)
    }
}

/// A copy of the local that `m` gives for the field `g`.
pub fn find_local(m: &Vec<(String, String)>, g: &str) -> (r: Option<String>)
    ensures
        match r {
            Some(l) => local_for(pairs_view(m@), g@) == Some(l@),
            None => local_for(pairs_view(m@), g@) is None,
        },
{
    let mut i: usize = 0;
    assert(pairs_view(m@).subrange(0, m@.len() as int) =~= pairs_view(m@));
    while i < m.len()
        invariant
            i <= m@.len(),
            local_for(pairs_view(m@), g@) == local_for(pairs_view(m@).subrange(i as int, m@.len() as int), g@),
        decreases m@.len() - i,
    {
        let ghost rest = pairs_view(m@).subrange(i as int, m@.len() as int);
        assert(rest.drop_first() =~= pairs_view(m@).subrange(i as int + 1, m@.len() as int));
        assert(rest[0] == (m@[i as int].0@, m@[i as int].1@));
        if str_eq(m[i].0.as_str(), g) {
            return Some(m[i].1.clone());
        }
        i = i + 1;
    }
    None
}

/// `b` is `a` with every read of a field `@f` that `m` maps to a local `l`,
/// outside closures (see `reads_expr`), replaced by the variable `l`;
/// nothing else differs.
pub open spec fn replaced_expr(a: Expr, b: Expr, m: Seq<(Seq<char>, Seq<char>)>) -> bool
    decreases a, 0int,
{
    b.span == a.span && match self_field_of(a) {
        Some(g) => match local_for(m, g) {
            Some(l) => b.kind matches ExprKind::Ident(n) && n@ == l,
            None => b == a,
        },
        None => match a.kind {
            ExprKind::Member { obj, name } => b.kind matches ExprKind::Member { obj: o2, name: n2 } && n2 == name
                && replaced_expr(*obj, *o2, m),
            ExprKind::Call { func, args } => b.kind matches ExprKind::Call { func: f2, args: a2 }
                && replaced_expr(*func, *f2, m) && replaced_exprs(args, a2, args.len() as int, m),
            ExprKind::Binary { op, left, right } => b.kind matches ExprKind::Binary { op: op2, left: l2, right: r2 }
                && op2 == op && replaced_expr(*left, *l2, m) && replaced_expr(*right, *r2, m),
            ExprKind::Unary { op, operand } => b.kind matches ExprKind::Unary { op: op2, operand: x2 } && op2 == op
                && replaced_expr(*operand, *x2, m),
            ExprKind::Index { obj, index } => b.kind matches ExprKind::Index { obj: o2, index: i2 }
                && replaced_expr(*obj, *o2, m) && replaced_expr(*index, *i2, m),
            ExprKind::If { cond, then, else_ } => b.kind matches ExprKind::If { cond: c2, then: t2, else_: e2 }
                && replaced_expr(*cond, *c2, m) && replaced_block(then, t2, m) && match else_ {
                    Some(ElseBranch::Block(x)) => e2 matches Some(ElseBranch::Block(y)) && replaced_block(x, y, m),
                    Some(ElseBranch::If(x)) => e2 matches Some(ElseBranch::If(y)) && replaced_expr(*x, *y, m),
                    None => e2 is None,
                },
            ExprKind::IfLet { pattern, scrutinee: cond, then, else_ } => b.kind matches ExprKind::IfLet { pattern: p2, scrutinee: c2, then: t2, else_: e2 } && p2 == pattern
                && replaced_expr(*cond, *c2, m) && replaced_block(then, t2, m) && match else_ {
                    Some(ElseBranch::Block(x)) => e2 matches Some(ElseBranch::Block(y)) && replaced_block(x, y, m),
                    Some(ElseBranch::If(x)) => e2 matches Some(ElseBranch::If(y)) && replaced_expr(*x, *y, m),
                    None => e2 is None,
                },
            ExprKind::While { cond, body } => b.kind matches ExprKind::While { cond: c2, body: b2 }
                && replaced_expr(*cond, *c2, m) && replaced_block(body, b2, m),
            ExprKind::WhileLet { pattern, scrutinee: cond, body } => b.kind matches ExprKind::WhileLet { pattern: p2, scrutinee: c2, body: b2 } && p2 == pattern
                && replaced_expr(*cond, *c2, m) && replaced_block(body, b2, m),
            ExprKind::For { var, iter: cond, body } => b.kind matches ExprKind::For { var: v2, iter: c2, body: b2 } && v2 == var
                && replaced_expr(*cond, *c2, m) && replaced_block(body, b2, m),
            ExprKind::ParallelFor { var, iter: cond, body } => b.kind matches ExprKind::ParallelFor { var: v2, iter: c2, body: b2 } && v2 == var
                && replaced_expr(*cond, *c2, m) && replaced_block(body, b2, m),
            ExprKind::Match { scrutinee, arms } => b.kind matches ExprKind::Match { scrutinee: s2, arms: a2 }
                && replaced_expr(*scrutinee, *s2, m) && replaced_arms(arms, a2, arms.len() as int, m),
            ExprKind::Block(x) => b.kind matches ExprKind::Block(y) && replaced_block(x, y, m),
            ExprKind::Spawn(x) => b.kind matches ExprKind::Spawn(y) && replaced_expr(*x, *y, m),
            ExprKind::NamedArg { name, value: x } => b.kind matches ExprKind::NamedArg { name: n2, value: y } && n2 == name && replaced_expr(*x, *y, m),
            ExprKind::Try(x) => b.kind matches ExprKind::Try(y) && replaced_expr(*x, *y, m),
            ExprKind::TupleLit(items) => b.kind matches ExprKind::TupleLit(i2)
                && replaced_exprs(items, i2, items.len() as int, m),
            ExprKind::ArrayLit(items) => b.kind matches ExprKind::ArrayLit(i2)
                && replaced_exprs(items, i2, items.len() as int, m),
            ExprKind::RecordLit { type_path, fields, inferred_map_v } => b.kind matches ExprKind::RecordLit {
                type_path: t2, fields: f2, inferred_map_v: m2 } && t2 == type_path && m2 == inferred_map_v
                && replaced_fields(fields, f2, fields.len() as int, m),
            _ => b == a,
        },
    }
}

/// Element-wise `replaced_expr` over the first `k` entries (same length).
pub open spec fn replaced_exprs(a: Vec<Expr>, b: Vec<Expr>, k: int, m: Seq<(Seq<char>, Seq<char>)>) -> bool
    decreases a, k,
{
    a.len() == b.len() && (k <= 0 || k > a.len() || (replaced_exprs(a, b, k - 1, m) && replaced_expr(
        a[k - 1],
        b[k - 1],
        m,
    )))
}

pub open spec fn replaced_fields(a: Vec<RecordLitField>, b: Vec<RecordLitField>, k: int, m: Seq<(Seq<char>, Seq<char>)>) -> bool
    decreases a, k,
{
    a.len() == b.len() && (k <= 0 || k > a.len() || (replaced_fields(a, b, k - 1, m)
        && b[k - 1].name == a[k - 1].name && b[k - 1].is_spread == a[k - 1].is_spread
        && b[k - 1].at_shorthand == a[k - 1].at_shorthand && b[k - 1].span == a[k - 1].span
        && match a[k - 1].value {
        Some(x) => b[k - 1].value matches Some(y) && replaced_expr(x, y, m),
        None => b[k - 1].value is None,
    }))
}

pub open spec fn replaced_arms(a: Vec<MatchArm>, b: Vec<MatchArm>, k: int, m: Seq<(Seq<char>, Seq<char>)>) -> bool
    decreases a, k,
{
    a.len() == b.len() && (k <= 0 || k > a.len() || (replaced_arms(a, b, k - 1, m)
        && b[k - 1].pattern == a[k - 1].pattern && match a[k - 1].body {
        MatchArmBody::Expr(x) => b[k - 1].body matches MatchArmBody::Expr(y) && replaced_expr(x, y, m),
        MatchArmBody::Block(x) => b[k - 1].body matches MatchArmBody::Block(y) && replaced_block(x, y, m),
    }))
}

/// `replaced_expr` for blocks: statements one by one, then the trailing value.
pub open spec fn replaced_block(a: Block, b: Block, m: Seq<(Seq<char>, Seq<char>)>) -> bool
    decreases a, 0int,
{
    b.span == a.span && replaced_stmts(a.stmts, b.stmts, a.stmts.len() as int, m) && match a.trailing {
        Some(x) => b.trailing matches Some(y) && replaced_expr(*x, *y, m),
        None => b.trailing is None,
    }
}

pub open spec fn replaced_stmts(a: Vec<Stmt>, b: Vec<Stmt>, k: int, m: Seq<(Seq<char>, Seq<char>)>) -> bool
    decreases a, k,
{
    a.len() == b.len() && (k <= 0 || k > a.len() || (replaced_stmts(a, b, k - 1, m) && replaced_stmt(
        a[k - 1],
        b[k - 1],
        m,
    )))
}

/// `replaced_expr` for statements; the target of `@g = v` stays as it is.
pub open spec fn replaced_stmt(a: Stmt, b: Stmt, m: Seq<(Seq<char>, Seq<char>)>) -> bool
    decreases a, 0int,
{
    match a {
        Stmt::Let(d) => b matches Stmt::Let(d2) && d2.mutable == d.mutable && d2.pattern == d.pattern && d2.ty == d.ty
            && d2.span == d.span && replaced_expr(d.value, d2.value, m),
        Stmt::Assign { target, value, span } => b matches Stmt::Assign { target: t2, value: v2, span: s2 }
            && s2 == span && (if self_field_of(target) is Some {
            t2 == target
        } else {
            replaced_expr(target, t2, m)
        }) && replaced_expr(value, v2, m),
        Stmt::Expr(x) => b matches Stmt::Expr(y) && replaced_expr(x, y, m),
        Stmt::Return { value, span } => b matches Stmt::Return { value: v2, span: s2 } && s2 == span
            && match value {
            Some(x) => v2 matches Some(y) && replaced_expr(x, y, m),
            None => v2 is None,
        },
        _ => b == a,
    }
}

/// Replaces the reads of the fields that `m` maps by their locals (not inside closures).
pub fn rewrite_expr(e: Expr, m: &Vec<(String, String)>) -> (r: Expr)
    ensures
        replaced_expr(e, r, pairs_view(m@)),
    decreases e, 0int,
{
    if let Some(g) = self_field(&e) {
        match find_local(m, g.as_str()) {
            Some(l) => {
                return Expr { kind: ExprKind::Ident(l), span: e.span };
            },
            None => {
                return e;
            },
        }
    }
    let span = e.span;
    let ghost old_e = e;
    let kind = match e.kind {
        ExprKind::Member { obj, name } => ExprKind::Member { obj: Box::new(rewrite_expr(*obj, m)), name },
        ExprKind::Call { func, args } => {
            let f2 = rewrite_expr(*func, m);
            let a2 = rewrite_exprs(args, m);
            ExprKind::Call { func: Box::new(f2), args: a2 }
        },
        ExprKind::Binary { op, left, right } => {
            let l2 = rewrite_expr(*left, m);
            let r2 = rewrite_expr(*right, m);
            ExprKind::Binary { op, left: Box::new(l2), right: Box::new(r2) }
        },
        ExprKind::Unary { op, operand } => ExprKind::Unary { op, operand: Box::new(rewrite_expr(*operand, m)) },
        ExprKind::Index { obj, index } => {
            let o2 = rewrite_expr(*obj, m);
            let i2 = rewrite_expr(*index, m);
            ExprKind::Index { obj: Box::new(o2), index: Box::new(i2) }
        },
        ExprKind::If { cond, then, else_ } => {
            let c2 = rewrite_expr(*cond, m);
            let t2 = rewrite_block(then, m);
            let e2 = match else_ {
                Some(ElseBranch::Block(x)) => Some(ElseBranch::Block(rewrite_block(x, m))),
                Some(ElseBranch::If(x)) => Some(ElseBranch::If(Box::new(rewrite_expr(*x, m)))),
                None => None,
            };
            ExprKind::If { cond: Box::new(c2), then: t2, else_: e2 }
        },
        ExprKind::IfLet { pattern, scrutinee: cond, then, else_ } => {
            let c2 = rewrite_expr(*cond, m);
            let t2 = rewrite_block(then, m);
            let e2 = match else_ {
                Some(ElseBranch::Block(x)) => Some(ElseBranch::Block(rewrite_block(x, m))),
                Some(ElseBranch::If(x)) => Some(ElseBranch::If(Box::new(rewrite_expr(*x, m)))),
                None => None,
            };
            ExprKind::IfLet { pattern, scrutinee: Box::new(c2), then: t2, else_: e2 }
        },
        ExprKind::While { cond, body } => {
            let c2 = rewrite_expr(*cond, m);
            let b2 = rewrite_block(body, m);
            ExprKind::While { cond: Box::new(c2), body: b2 }
        },
        ExprKind::WhileLet { pattern, scrutinee: cond, body } => {
            let c2 = rewrite_expr(*cond, m);
            let b2 = rewrite_block(body, m);
            ExprKind::WhileLet { pattern, scrutinee: Box::new(c2), body: b2 }
        },
        ExprKind::For { var, iter: cond, body } => {
            let c2 = rewrite_expr(*cond, m);
            let b2 = rewrite_block(body, m);
            ExprKind::For { var, iter: Box::new(c2), body: b2 }
        },
        ExprKind::ParallelFor { var, iter: cond, body } => {
            let c2 = rewrite_expr(*cond, m);
            let b2 = rewrite_block(body, m);
            ExprKind::ParallelFor { var, iter: Box::new(c2), body: b2 }
        },
        ExprKind::Match { scrutinee, arms } => {
            let s2 = rewrite_expr(*scrutinee, m);
            let a2 = rewrite_arms(arms, m);
            ExprKind::Match { scrutinee: Box::new(s2), arms: a2 }
        },
        ExprKind::Block(x) => ExprKind::Block(rewrite_block(x, m)),
        ExprKind::Spawn(x) => ExprKind::Spawn(Box::new(rewrite_expr(*x, m))),
        ExprKind::NamedArg { name, value: x } => ExprKind::NamedArg { name, value: Box::new(rewrite_expr(*x, m)) },
        ExprKind::Try(x) => ExprKind::Try(Box::new(rewrite_expr(*x, m))),
        ExprKind::TupleLit(items) => ExprKind::TupleLit(rewrite_exprs(items, m)),
        ExprKind::ArrayLit(items) => ExprKind::ArrayLit(rewrite_exprs(items, m)),
        ExprKind::RecordLit { type_path, fields, inferred_map_v } => ExprKind::RecordLit {
            type_path,
            fields: rewrite_fields(fields, m),
            inferred_map_v,
        },
        other => other,
    };
    Expr { kind, span }
}

fn rewrite_exprs(v: Vec<Expr>, m: &Vec<(String, String)>) -> (r: Vec<Expr>)
    ensures
        replaced_exprs(v, r, v.len() as int, pairs_view(m@)),
    decreases v, v.len(),
{
    let ghost orig = v;
    let mut rest = v;
    let mut out: Vec<Expr> = Vec::new();
    while rest.len() > 0
        invariant
            orig == v,
            out.len() + rest.len() == orig.len(),
            rest@ == orig@.subrange(out.len() as int, orig.len() as int),
            forall|i: int| 0 <= i < out.len() ==> replaced_expr(orig[i], out[i], pairs_view(m@)),
        decreases rest.len(),
    {
        let ghost i = out.len() as int;
        let x = rest.remove(0);
        proof {
            assert(x == orig[i]);
            assert(decreases_to!(orig => orig[i]));
        }
        let y = rewrite_expr(x, m);
        out.push(y);
        proof {
            assert(rest@ =~= orig@.subrange(out.len() as int, orig.len() as int));
        }
    }
    proof { lemma_replaced_exprs_all(orig, out, orig.len() as int, pairs_view(m@)); }
    out
}

proof fn lemma_replaced_exprs_all(a: Vec<Expr>, b: Vec<Expr>, k: int, m: Seq<(Seq<char>, Seq<char>)>)
    requires
        a.len() == b.len(),
        0 <= k <= a.len(),
        forall|i: int| 0 <= i < b.len() ==> replaced_expr(a[i], b[i], m),
    ensures
        replaced_exprs(a, b, k, m),
    decreases k,
{
    if k > 0 {
        lemma_replaced_exprs_all(a, b, k - 1, m);
    }
}

fn rewrite_fields(v: Vec<RecordLitField>, m: &Vec<(String, String)>) -> (r: Vec<RecordLitField>)
    ensures
        replaced_fields(v, r, v.len() as int, pairs_view(m@)),
    decreases v, v.len(),
{
    let ghost orig = v;
    let mut rest = v;
    let mut out: Vec<RecordLitField> = Vec::new();
    while rest.len() > 0
        invariant
            orig == v,
            out.len() + rest.len() == orig.len(),
            rest@ == orig@.subrange(out.len() as int, orig.len() as int),
            forall|i: int| 0 <= i < out.len() ==> field_replaced(orig[i], out[i], pairs_view(m@)),
        decreases rest.len(),
    {
        let ghost i = out.len() as int;
        let x = rest.remove(0);
        proof {
            assert(x == orig[i]);
            assert(decreases_to!(orig => orig[i]));
        }
        let RecordLitField { name, value, is_spread, at_shorthand, span } = x;
        let v2 = match value {
            Some(val) => Some(rewrite_expr(val, m)),
            None => None,
        };
        out.push(RecordLitField { name, value: v2, is_spread, at_shorthand, span });
        proof {
            assert(rest@ =~= orig@.subrange(out.len() as int, orig.len() as int));
        }
    }
    proof { lemma_replaced_fields_all(orig, out, orig.len() as int, pairs_view(m@)); }
    out
}

spec fn field_replaced(a: RecordLitField, b: RecordLitField, m: Seq<(Seq<char>, Seq<char>)>) -> bool {
    b.name == a.name && b.is_spread == a.is_spread && b.at_shorthand == a.at_shorthand && b.span == a.span
        && match a.value {
        Some(x) => b.value matches Some(y) && replaced_expr(x, y, m),
        None => b.value is None,
    }
}

proof fn lemma_replaced_fields_all(a: Vec<RecordLitField>, b: Vec<RecordLitField>, k: int, m: Seq<(Seq<char>, Seq<char>)>)
    requires
        a.len() == b.len(),
        0 <= k <= a.len(),
        forall|i: int| 0 <= i < b.len() ==> field_replaced(a[i], b[i], m),
    ensures
        replaced_fields(a, b, k, m),
    decreases k,
{
    if k > 0 {
        lemma_replaced_fields_all(a, b, k - 1, m);
        assert(field_replaced(a[k - 1], b[k - 1], m));
    }
}

spec fn arm_replaced(a: MatchArm, b: MatchArm, m: Seq<(Seq<char>, Seq<char>)>) -> bool {
    b.pattern == a.pattern && match a.body {
        MatchArmBody::Expr(x) => b.body matches MatchArmBody::Expr(y) && replaced_expr(x, y, m),
        MatchArmBody::Block(x) => b.body matches MatchArmBody::Block(y) && replaced_block(x, y, m),
    }
}

fn rewrite_arms(v: Vec<MatchArm>, m: &Vec<(String, String)>) -> (r: Vec<MatchArm>)
    ensures
        replaced_arms(v, r, v.len() as int, pairs_view(m@)),
    decreases v, v.len(),
{
    let ghost orig = v;
    let mut rest = v;
    let mut out: Vec<MatchArm> = Vec::new();
    while rest.len() > 0
        invariant
            orig == v,
            out.len() + rest.len() == orig.len(),
            rest@ == orig@.subrange(out.len() as int, orig.len() as int),
            forall|i: int| 0 <= i < out.len() ==> arm_replaced(orig[i], out[i], pairs_view(m@)),
        decreases rest.len(),
    {
        let ghost i = out.len() as int;
        let x = rest.remove(0);
        proof {
            assert(x == orig[i]);
            assert(decreases_to!(orig => orig[i]));
        }
        let MatchArm { pattern, body } = x;
        let b2 = match body {
            MatchArmBody::Expr(y) => MatchArmBody::Expr(rewrite_expr(y, m)),
            MatchArmBody::Block(y) => MatchArmBody::Block(rewrite_block(y, m)),
        };
        out.push(MatchArm { pattern, body: b2 });
        proof {
            assert(rest@ =~= orig@.subrange(out.len() as int, orig.len() as int));
        }
    }
    proof { lemma_replaced_arms_all(orig, out, orig.len() as int, pairs_view(m@)); }
    out
}

proof fn lemma_replaced_arms_all(a: Vec<MatchArm>, b: Vec<MatchArm>, k: int, m: Seq<(Seq<char>, Seq<char>)>)
    requires
        a.len() == b.len(),
        0 <= k <= a.len(),
        forall|i: int| 0 <= i < b.len() ==> arm_replaced(a[i], b[i], m),
    ensures
        replaced_arms(a, b, k, m),
    decreases k,
{
    if k > 0 {
        lemma_replaced_arms_all(a, b, k - 1, m);
        assert(arm_replaced(a[k - 1], b[k - 1], m));
    }
}

/// Replaces the reads of `@f` in a block by the variable `l`.
pub fn rewrite_block(b: Block, m: &Vec<(String, String)>) -> (r: Block)
    ensures
        replaced_block(b, r, pairs_view(m@)),
    decreases b, 0int,
{
    let Block { stmts, trailing, span } = b;
    let s2 = rewrite_stmts(stmts, m);
    let t2 = match trailing {
        Some(t) => Some(Box::new(rewrite_expr(*t, m))),
        None => None,
    };
    Block { stmts: s2, trailing: t2, span }
}

fn rewrite_stmts(v: Vec<Stmt>, m: &Vec<(String, String)>) -> (r: Vec<Stmt>)
    ensures
        replaced_stmts(v, r, v.len() as int, pairs_view(m@)),
    decreases v, v.len(),
{
    let ghost orig = v;
    let mut rest = v;
    let mut out: Vec<Stmt> = Vec::new();
    while rest.len() > 0
        invariant
            orig == v,
            out.len() + rest.len() == orig.len(),
            rest@ == orig@.subrange(out.len() as int, orig.len() as int),
            forall|i: int| 0 <= i < out.len() ==> replaced_stmt(orig[i], out[i], pairs_view(m@)),
        decreases rest.len(),
    {
        let ghost i = out.len() as int;
        let x = rest.remove(0);
        proof {
            assert(x == orig[i]);
            assert(decreases_to!(orig => orig[i]));
        }
        let y = rewrite_stmt(x, m);
        out.push(y);
        proof {
            assert(rest@ =~= orig@.subrange(out.len() as int, orig.len() as int));
        }
    }
    proof { lemma_replaced_stmts_all(orig, out, orig.len() as int, pairs_view(m@)); }
    out
}

proof fn lemma_replaced_stmts_all(a: Vec<Stmt>, b: Vec<Stmt>, k: int, m: Seq<(Seq<char>, Seq<char>)>)
    requires
        a.len() == b.len(),
        0 <= k <= a.len(),
        forall|i: int| 0 <= i < b.len() ==> replaced_stmt(a[i], b[i], m),
    ensures
        replaced_stmts(a, b, k, m),
    decreases k,
{
    if k > 0 {
        lemma_replaced_stmts_all(a, b, k - 1, m);
    }
}

/// Replaces the reads of `@f` in a statement by the variable `l`.
pub fn rewrite_stmt(s: Stmt, m: &Vec<(String, String)>) -> (r: Stmt)
    ensures
        replaced_stmt(s, r, pairs_view(m@)),
    decreases s, 0int,
{
    match s {
        Stmt::Let(d) => {
            let crate::ast::LetDecl { mutable, pattern, ty, value, span } = d;
            Stmt::Let(crate::ast::LetDecl { mutable, pattern, ty, value: rewrite_expr(value, m), span })
        },
        Stmt::Assign { target, value, span } => {
            let t2 = if self_field(&target).is_some() {
                target
            } else {
                rewrite_expr(target, m)
            };
            Stmt::Assign { target: t2, value: rewrite_expr(value, m), span }
        },
        Stmt::Expr(x) => Stmt::Expr(rewrite_expr(x, m)),
        Stmt::Return { value, span } => Stmt::Return {
            value: match value {
                Some(x) => Some(rewrite_expr(x, m)),
                None => None,
            },
            span,
        },
        other => other,
    }
}

} // verus!
