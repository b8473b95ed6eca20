//! Loop-invariant code motion for receiver fields: every `while` loop
//! that stands as a statement or as the final value of a block, inner
//! loops first, gets `let _at_<field>_loop = @field` placed in front of it
//! for each field it reads often enough and that nothing in the loop can
//! change (see `licm_step`); the loop then reads the local. Closures and
//! spawned work are left alone.

use vstd::prelude::*;
use crate::ast::{Block, ElseBranch, Expr, ExprKind, FnBody, FnDecl, LetDecl, MatchArm, MatchArmBody, ReceiverKind, RecordLitField, Stmt};
use crate::field_cache::collect::has_name;
use crate::field_cache::ipa::{contains_name, names_view, WriteSets};
use crate::field_cache::licm_step::{hoist_loop, loop_step, LicmCounter, LicmEnv, LicmState};
use crate::field_cache::method::{coerced, method_ctx, method_fields, same_header};
use crate::field_cache::names::{method_binds, method_local_names};
use crate::field_cache::nested::at_block;
use crate::field_cache::plan::{entry_kind, find_type, sorted_field_names, sorted_names, FieldCacheConfig, FieldEntry, FieldRegistry, TypeFields};
use crate::field_cache::scan::ipa_view;

verus! {

/// Always true: a trigger that names a hoisting state between the parts of a
/// construct, so quantifiers over the intermediate values of a
/// relation get instantiated. It states nothing.
pub open spec fn at_lstate(m: LicmState) -> bool {
    true
}

/// Always true: a trigger that names a statement list between the parts of a
/// construct, so quantifiers over the intermediate values of a
/// relation get instantiated. It states nothing.
pub open spec fn at_stmts(s: Seq<Stmt>) -> bool {
    true
}

/// Always true: a trigger that names a statement between the parts of a
/// construct, so quantifiers over the intermediate values of a
/// relation get instantiated. It states nothing.
pub open spec fn at_stmt(s: Stmt) -> bool {
    true
}

/// Always true: a trigger that names an expression between the parts of a
/// construct, so quantifiers over the intermediate values of a
/// relation get instantiated. It states nothing.
pub open spec fn at_expr(e: Expr) -> bool {
    true
}

/// Statement `a` after hoisting from it when it is a `while` loop: the
/// hoisted lets `hs` and the loop with its new body; any other statement
/// stays.
pub open spec fn loop_stmt_step(a: Stmt, hs: Seq<Stmt>, b: Stmt, env: LicmEnv, s0: LicmState, s1: LicmState) -> bool {
    match a {
        Stmt::Expr(e) => match e.kind {
            ExprKind::While { cond, body } => exists|body2: Block| #[trigger] loop_step(body, hs, body2, env, s0, s1)
                && b == Stmt::Expr(Expr { kind: ExprKind::While { cond, body: body2 }, span: e.span }),
            ExprKind::WhileLet { pattern, scrutinee: cond, body } => exists|body2: Block| #[trigger] loop_step(body, hs, body2, env, s0, s1)
                && b == Stmt::Expr(Expr { kind: ExprKind::WhileLet { pattern, scrutinee: cond, body: body2 }, span: e.span }),
            ExprKind::For { var, iter: cond, body } => exists|body2: Block| #[trigger] loop_step(body, hs, body2, env, s0, s1)
                && b == Stmt::Expr(Expr { kind: ExprKind::For { var, iter: cond, body: body2 }, span: e.span }),
            _ => hs.len() == 0 && b == a && s1 == s0,
        },
        _ => hs.len() == 0 && b == a && s1 == s0,
    }
}

/// `loop_stmt_step` for the final value of a block.
pub open spec fn loop_expr_step(a: Expr, hs: Seq<Stmt>, b: Expr, env: LicmEnv, s0: LicmState, s1: LicmState) -> bool {
    match a.kind {
        ExprKind::While { cond, body } => exists|body2: Block| #[trigger] loop_step(body, hs, body2, env, s0, s1)
            && b == (Expr { kind: ExprKind::While { cond, body: body2 }, span: a.span }),
        ExprKind::WhileLet { pattern, scrutinee: cond, body } => exists|body2: Block| #[trigger] loop_step(body, hs, body2, env, s0, s1)
            && b == (Expr { kind: ExprKind::WhileLet { pattern, scrutinee: cond, body: body2 }, span: a.span }),
        ExprKind::For { var, iter: cond, body } => exists|body2: Block| #[trigger] loop_step(body, hs, body2, env, s0, s1)
            && b == (Expr { kind: ExprKind::For { var, iter: cond, body: body2 }, span: a.span }),
        _ => hs.len() == 0 && b == a && s1 == s0,
    }
}

/// `b` is expression `a` after hoisting in the blocks inside it, from
/// state `s0` to `s1`; closures, spawned work and the bodies of parallel
/// loops stay as they are.
pub open spec fn licm_expr(a: Expr, b: Expr, env: LicmEnv, s0: LicmState, s1: LicmState) -> bool
    decreases a, 0int,
{
    b.span == a.span && match a.kind {
        ExprKind::Member { obj, name } => b.kind matches ExprKind::Member { obj: o2, name: n2 } && n2 == name
            && licm_expr(*obj, *o2, env, s0, s1),
        ExprKind::Call { func, args } => b.kind matches ExprKind::Call { func: f2, args: a2 }
            && exists|m: LicmState| #[trigger] at_lstate(m) && licm_expr(*func, *f2, env, s0, m)
                && licm_exprs(args, a2, args.len() as int, env, m, s1),
        ExprKind::Binary { op, left, right } => b.kind matches ExprKind::Binary { op: op2, left: l2, right: r2 }
            && op2 == op && exists|m: LicmState| #[trigger] at_lstate(m) && licm_expr(*left, *l2, env, s0, m)
                && licm_expr(*right, *r2, env, m, s1),
        ExprKind::Unary { op, operand } => b.kind matches ExprKind::Unary { op: op2, operand: x2 } && op2 == op
            && licm_expr(*operand, *x2, env, s0, s1),
        ExprKind::Try(x) => b.kind matches ExprKind::Try(y) && licm_expr(*x, *y, env, s0, s1),
        ExprKind::Index { obj, index } => b.kind matches ExprKind::Index { obj: o2, index: i2 }
            && exists|m: LicmState| #[trigger] at_lstate(m) && licm_expr(*obj, *o2, env, s0, m) && licm_expr(*index, *i2, env, m, s1),
        ExprKind::If { cond, then, else_ } => b.kind matches ExprKind::If { cond: c2, then: t2, else_: e2 }
            && exists|m1: LicmState, m2: LicmState| #![trigger at_lstate(m1), at_lstate(m2)]
                licm_expr(*cond, *c2, env, s0, m1) && licm_block(then, t2, env, m1, m2) && match else_ {
                Some(ElseBranch::Block(x)) => e2 matches Some(ElseBranch::Block(y)) && licm_block(x, y, env, m2, s1),
                Some(ElseBranch::If(x)) => e2 matches Some(ElseBranch::If(y)) && licm_expr(*x, *y, env, m2, s1),
                None => e2 is None && s1 == m2,
            },
        ExprKind::IfLet { pattern, scrutinee: cond, then, else_ } => b.kind matches ExprKind::IfLet { pattern: p2, scrutinee: c2, then: t2, else_: e2 } && p2 == pattern
            && exists|m1: LicmState, m2: LicmState| #![trigger at_lstate(m1), at_lstate(m2)]
                licm_expr(*cond, *c2, env, s0, m1) && licm_block(then, t2, env, m1, m2) && match else_ {
                Some(ElseBranch::Block(x)) => e2 matches Some(ElseBranch::Block(y)) && licm_block(x, y, env, m2, s1),
                Some(ElseBranch::If(x)) => e2 matches Some(ElseBranch::If(y)) && licm_expr(*x, *y, env, m2, s1),
                None => e2 is None && s1 == m2,
            },
        ExprKind::While { cond, body } => b.kind matches ExprKind::While { cond: c2, body: b2 }
            && exists|m: LicmState| #[trigger] at_lstate(m) && licm_expr(*cond, *c2, env, s0, m) && licm_block(body, b2, env, m, s1),
        ExprKind::WhileLet { pattern, scrutinee: cond, body } => b.kind matches ExprKind::WhileLet { pattern: p2, scrutinee: c2, body: b2 } && p2 == pattern
            && exists|m: LicmState| #[trigger] at_lstate(m) && licm_expr(*cond, *c2, env, s0, m) && licm_block(body, b2, env, m, s1),
        ExprKind::For { var, iter: cond, body } => b.kind matches ExprKind::For { var: v2, iter: c2, body: b2 } && v2 == var
            && exists|m: LicmState| #[trigger] at_lstate(m) && licm_expr(*cond, *c2, env, s0, m) && licm_block(body, b2, env, m, s1),
        ExprKind::ParallelFor { var, iter, body } => b.kind matches ExprKind::ParallelFor { var: v2, iter: c2, body: b2 }
            && v2 == var && b2 == body && licm_expr(*iter, *c2, env, s0, s1),
        ExprKind::Match { scrutinee, arms } => b.kind matches ExprKind::Match { scrutinee: x2, arms: a2 }
            && exists|m: LicmState| #[trigger] at_lstate(m) && licm_expr(*scrutinee, *x2, env, s0, m)
                && licm_arms(arms, a2, arms.len() as int, env, m, s1),
        ExprKind::Block(x) => b.kind matches ExprKind::Block(y) && licm_block(x, y, env, s0, s1),
        ExprKind::TupleLit(items) => b.kind matches ExprKind::TupleLit(i2) && licm_exprs(items, i2, items.len() as int, env, s0, s1),
        ExprKind::ArrayLit(items) => b.kind matches ExprKind::ArrayLit(i2) && licm_exprs(items, i2, items.len() as int, env, s0, s1),
        ExprKind::RecordLit { type_path, fields, inferred_map_v } => b.kind matches ExprKind::RecordLit {
            type_path: t2, fields: f2, inferred_map_v: m2 } && t2 == type_path && m2 == inferred_map_v
            && licm_rfields(fields, f2, fields.len() as int, env, s0, s1),
        _ => b == a && s1 == s0,
    }
}

pub open spec fn licm_exprs(a: Vec<Expr>, b: Vec<Expr>, k: int, env: LicmEnv, s0: LicmState, s1: LicmState) -> bool
    decreases a, k,
{
    a.len() == b.len() && if k <= 0 || k > a.len() {
        s1 == s0
    } else {
        exists|m: LicmState| #[trigger] at_lstate(m) && licm_exprs(a, b, k - 1, env, s0, m) && licm_expr(a[k - 1], b[k - 1], env, m, s1)
    }
}

pub open spec fn licm_rfields(a: Vec<RecordLitField>, b: Vec<RecordLitField>, k: int, env: LicmEnv, s0: LicmState, s1: LicmState) -> bool
    decreases a, k,
{
    a.len() == b.len() && if k <= 0 || k > a.len() {
        s1 == s0
    } else {
        exists|m: LicmState| #[trigger] at_lstate(m) && licm_rfields(a, b, k - 1, env, s0, m)
            && b[k - 1].name == a[k - 1].name && b[k - 1].is_spread == a[k - 1].is_spread
            && b[k - 1].at_shorthand == a[k - 1].at_shorthand && b[k - 1].span == a[k - 1].span
            && match a[k - 1].value {
            Some(x) => b[k - 1].value matches Some(y) && licm_expr(x, y, env, m, s1),
            None => b[k - 1].value is None && s1 == m,
        }
    }
}

pub open spec fn licm_arms(a: Vec<MatchArm>, b: Vec<MatchArm>, k: int, env: LicmEnv, s0: LicmState, s1: LicmState) -> bool
    decreases a, k,
{
    a.len() == b.len() && if k <= 0 || k > a.len() {
        s1 == s0
    } else {
        exists|m: LicmState| #[trigger] at_lstate(m) && licm_arms(a, b, k - 1, env, s0, m) && b[k - 1].pattern == a[k - 1].pattern
            && match a[k - 1].body {
            MatchArmBody::Expr(x) => b[k - 1].body matches MatchArmBody::Expr(y) && licm_expr(x, y, env, m, s1),
            MatchArmBody::Block(x) => b[k - 1].body matches MatchArmBody::Block(y) && licm_block(x, y, env, m, s1),
        }
    }
}

/// `licm_expr` for statements.
pub open spec fn licm_stmt(a: Stmt, b: Stmt, env: LicmEnv, s0: LicmState, s1: LicmState) -> bool
    decreases a, 0int,
{
    match a {
        Stmt::Let(d) => b matches Stmt::Let(d2) && d2.mutable == d.mutable && d2.pattern == d.pattern && d2.ty == d.ty
            && d2.span == d.span && licm_expr(d.value, d2.value, env, s0, s1),
        Stmt::Assign { target, value, span } => b matches Stmt::Assign { target: t2, value: v2, span: sp2 } && sp2 == span
            && exists|m: LicmState| #[trigger] at_lstate(m) && licm_expr(target, t2, env, s0, m) && licm_expr(value, v2, env, m, s1),
        Stmt::Expr(x) => b matches Stmt::Expr(y) && licm_expr(x, y, env, s0, s1),
        Stmt::Return { value, span } => b matches Stmt::Return { value: v2, span: sp2 } && sp2 == span && match value {
            Some(x) => v2 matches Some(y) && licm_expr(x, y, env, s0, s1),
            None => v2 is None && s1 == s0,
        },
        _ => b == a && s1 == s0,
    }
}

/// The statements `out` that the first `k` statements of a block become:
/// each statement after hoisting inside it, preceded by the lets hoisted
/// out of it when it is a loop.
pub open spec fn licm_seq(a: Vec<Stmt>, k: int, out: Seq<Stmt>, env: LicmEnv, s0: LicmState, s1: LicmState) -> bool
    decreases a, k,
{
    if k <= 0 || k > a.len() {
        out.len() == 0 && s1 == s0
    } else {
        exists|pre: Seq<Stmt>, m1: LicmState, mid: Stmt, m2: LicmState, hs: Seq<Stmt>, fin: Stmt|
            #![trigger at_stmts(pre), at_lstate(m1), at_stmt(mid), at_lstate(m2), at_stmts(hs), at_stmt(fin)]
            licm_seq(a, k - 1, pre, env, s0, m1) && licm_stmt(a[k - 1], mid, env, m1, m2) && loop_stmt_step(mid, hs, fin, env, m2, s1)
                && out == pre + hs.push(fin)
    }
}

/// `b` is block `a` after hoisting: its statements as `licm_seq` has them,
/// then its final value after hoisting inside it, with the lets hoisted
/// out of it, when it is a loop, at the end of the statements.
pub open spec fn licm_block(a: Block, b: Block, env: LicmEnv, s0: LicmState, s1: LicmState) -> bool
    decreases a, 1int,
{
    b.span == a.span && exists|out: Seq<Stmt>, m: LicmState| #![trigger at_stmts(out), at_lstate(m)]
        licm_seq(a.stmts, a.stmts.len() as int, out, env, s0, m) && match a.trailing {
        Some(t) => exists|t1: Expr, m2: LicmState, hs: Seq<Stmt>, t2: Expr| #![trigger at_expr(t1), at_lstate(m2), at_stmts(hs), at_expr(t2)]
            licm_expr(*t, t1, env, m, m2) && loop_expr_step(t1, hs, t2, env, m2, s1) && b.stmts@ == out + hs
                && b.trailing == Some(Box::new(t2)),
        None => b.stmts@ == out && b.trailing is None && s1 == m,
    }
}

spec fn arm_licm(a: MatchArm, b: MatchArm, env: LicmEnv, s0: LicmState, s1: LicmState) -> bool {
    b.pattern == a.pattern && match a.body {
        MatchArmBody::Expr(x) => b.body matches MatchArmBody::Expr(y) && licm_expr(x, y, env, s0, s1),
        MatchArmBody::Block(x) => b.body matches MatchArmBody::Block(y) && licm_block(x, y, env, s0, s1),
    }
}

spec fn rfield_licm(a: RecordLitField, b: RecordLitField, env: LicmEnv, s0: LicmState, s1: LicmState) -> bool {
    b.name == a.name && b.is_spread == a.is_spread && b.at_shorthand == a.at_shorthand && b.span == a.span
        && match a.value {
        Some(x) => b.value matches Some(y) && licm_expr(x, y, env, s0, s1),
        None => b.value is None && s1 == s0,
    }
}

proof fn lemma_licm_exprs_all(a: Vec<Expr>, b: Vec<Expr>, k: int, env: LicmEnv, sts: Seq<LicmState>)
    requires
        a.len() == b.len(),
        0 <= k <= a.len(),
        sts.len() == a.len() + 1,
        forall|i: int| 0 <= i < a.len() ==> licm_expr(#[trigger] a[i], b[i], env, sts[i], sts[i + 1]),
    ensures
        licm_exprs(a, b, k, env, sts[0], sts[k]),
    decreases k,
{
    if k > 0 {
        lemma_licm_exprs_all(a, b, k - 1, env, sts);
        assert(licm_expr(a[k - 1], b[k - 1], env, sts[k - 1], sts[k]));
        assert(at_lstate(sts[k - 1]));
    }
}

proof fn lemma_licm_rfields_all(a: Vec<RecordLitField>, b: Vec<RecordLitField>, k: int, env: LicmEnv, sts: Seq<LicmState>)
    requires
        a.len() == b.len(),
        0 <= k <= a.len(),
        sts.len() == a.len() + 1,
        forall|i: int| 0 <= i < a.len() ==> rfield_licm(#[trigger] a[i], b[i], env, sts[i], sts[i + 1]),
    ensures
        licm_rfields(a, b, k, env, sts[0], sts[k]),
    decreases k,
{
    if k > 0 {
        lemma_licm_rfields_all(a, b, k - 1, env, sts);
        assert(rfield_licm(a[k - 1], b[k - 1], env, sts[k - 1], sts[k]));
        assert(at_lstate(sts[k - 1]));
    }
}

proof fn lemma_licm_arms_all(a: Vec<MatchArm>, b: Vec<MatchArm>, k: int, env: LicmEnv, sts: Seq<LicmState>)
    requires
        a.len() == b.len(),
        0 <= k <= a.len(),
        sts.len() == a.len() + 1,
        forall|i: int| 0 <= i < a.len() ==> arm_licm(#[trigger] a[i], b[i], env, sts[i], sts[i + 1]),
    ensures
        licm_arms(a, b, k, env, sts[0], sts[k]),
    decreases k,
{
    if k > 0 {
        lemma_licm_arms_all(a, b, k - 1, env, sts);
        assert(arm_licm(a[k - 1], b[k - 1], env, sts[k - 1], sts[k]));
        assert(at_lstate(sts[k - 1]));
    }
}

/// The exec form of the settings of `LicmEnv`.
pub struct LicmCfg<'a> {
    pub names: &'a Vec<String>,
    pub fields: &'a Vec<FieldEntry>,
    pub thr: usize,
    pub per_loop: usize,
    pub max: usize,
    pub ipa: Option<(&'a WriteSets, &'a str)>,
}

impl<'a> LicmCfg<'a> {
    pub open spec fn env(&self) -> LicmEnv {
        LicmEnv {
            names: self.names@.map_values(|s: String| s@),
            fields: self.fields@,
            thr: self.thr as nat,
            per_loop: self.per_loop as nat,
            max: self.max as nat,
            ctx: ipa_view(self.ipa),
        }
    }
}

fn loop_stmt_x(s: Stmt, c: &LicmCfg, ctr: &mut LicmCounter) -> (r: (Vec<Stmt>, Stmt))
    requires
        old(ctr).count <= c.max,
    ensures
        final(ctr).count <= c.max,
        loop_stmt_step(s, r.0@, r.1, c.env(), old(ctr).state(), final(ctr).state()),
{
    match s {
        Stmt::Expr(e) => {
            let Expr { kind, span } = e;
            match kind {
                ExprKind::While { cond, body } => {
                    let (hs, b2) = hoist_loop(body, c.names, c.fields, c.thr, c.per_loop, c.max, c.ipa, ctr, Ghost(c.env()));
                    (hs, Stmt::Expr(Expr { kind: ExprKind::While { cond, body: b2 }, span }))
                },
                ExprKind::WhileLet { pattern, scrutinee: cond, body } => {
                    let (hs, b2) = hoist_loop(body, c.names, c.fields, c.thr, c.per_loop, c.max, c.ipa, ctr, Ghost(c.env()));
                    (hs, Stmt::Expr(Expr { kind: ExprKind::WhileLet { pattern, scrutinee: cond, body: b2 }, span }))
                },
                ExprKind::For { var, iter: cond, body } => {
                    let (hs, b2) = hoist_loop(body, c.names, c.fields, c.thr, c.per_loop, c.max, c.ipa, ctr, Ghost(c.env()));
                    (hs, Stmt::Expr(Expr { kind: ExprKind::For { var, iter: cond, body: b2 }, span }))
                },
                other => (Vec::new(), Stmt::Expr(Expr { kind: other, span })),
            }
        },
        other => (Vec::new(), other),
    }
}

fn loop_expr_x(e: Expr, c: &LicmCfg, ctr: &mut LicmCounter) -> (r: (Vec<Stmt>, Expr))
    requires
        old(ctr).count <= c.max,
    ensures
        final(ctr).count <= c.max,
        loop_expr_step(e, r.0@, r.1, c.env(), old(ctr).state(), final(ctr).state()),
{
    let Expr { kind, span } = e;
    match kind {
        ExprKind::While { cond, body } => {
            let (hs, b2) = hoist_loop(body, c.names, c.fields, c.thr, c.per_loop, c.max, c.ipa, ctr, Ghost(c.env()));
            (hs, Expr { kind: ExprKind::While { cond, body: b2 }, span })
        },
        ExprKind::WhileLet { pattern, scrutinee: cond, body } => {
            let (hs, b2) = hoist_loop(body, c.names, c.fields, c.thr, c.per_loop, c.max, c.ipa, ctr, Ghost(c.env()));
            (hs, Expr { kind: ExprKind::WhileLet { pattern, scrutinee: cond, body: b2 }, span })
        },
        ExprKind::For { var, iter: cond, body } => {
            let (hs, b2) = hoist_loop(body, c.names, c.fields, c.thr, c.per_loop, c.max, c.ipa, ctr, Ghost(c.env()));
            (hs, Expr { kind: ExprKind::For { var, iter: cond, body: b2 }, span })
        },
        other => (Vec::new(), Expr { kind: other, span }),
    }
}

fn licm_expr_x(e: Expr, c: &LicmCfg, ctr: &mut LicmCounter) -> (r: Expr)
    requires
        old(ctr).count <= c.max,
    ensures
        final(ctr).count <= c.max,
        licm_expr(e, r, c.env(), old(ctr).state(), final(ctr).state()),
    decreases e, 0int,
{
    let span = e.span;
    let kind = match e.kind {
        ExprKind::Member { obj, name } => ExprKind::Member { obj: Box::new(licm_expr_x(*obj, c, ctr)), name },
        ExprKind::Call { func, args } => {
            let f2 = licm_expr_x(*func, c, ctr);
            proof { assert(at_lstate(ctr.state())); }
            let a2 = licm_exprs_x(args, c, ctr);
            ExprKind::Call { func: Box::new(f2), args: a2 }
        },
        ExprKind::Binary { op, left, right } => {
            let l2 = licm_expr_x(*left, c, ctr);
            proof { assert(at_lstate(ctr.state())); }
            let r2 = licm_expr_x(*right, c, ctr);
            ExprKind::Binary { op, left: Box::new(l2), right: Box::new(r2) }
        },
        ExprKind::Unary { op, operand } => ExprKind::Unary { op, operand: Box::new(licm_expr_x(*operand, c, ctr)) },
        ExprKind::Try(x) => ExprKind::Try(Box::new(licm_expr_x(*x, c, ctr))),
        ExprKind::Index { obj, index } => {
            let o2 = licm_expr_x(*obj, c, ctr);
            proof { assert(at_lstate(ctr.state())); }
            let i2 = licm_expr_x(*index, c, ctr);
            ExprKind::Index { obj: Box::new(o2), index: Box::new(i2) }
        },
        ExprKind::If { cond, then, else_ } => {
            let c2 = licm_expr_x(*cond, c, ctr);
            proof { assert(at_lstate(ctr.state())); }
            let t2 = licm_block_x(then, c, ctr);
            proof { assert(at_lstate(ctr.state())); }
            let e2 = match else_ {
                Some(ElseBranch::Block(x)) => Some(ElseBranch::Block(licm_block_x(x, c, ctr))),
                Some(ElseBranch::If(x)) => Some(ElseBranch::If(Box::new(licm_expr_x(*x, c, ctr)))),
                None => None,
            };
            ExprKind::If { cond: Box::new(c2), then: t2, else_: e2 }
        },
        ExprKind::IfLet { pattern, scrutinee: cond, then, else_ } => {
            let c2 = licm_expr_x(*cond, c, ctr);
            proof { assert(at_lstate(ctr.state())); }
            let t2 = licm_block_x(then, c, ctr);
            proof { assert(at_lstate(ctr.state())); }
            let e2 = match else_ {
                Some(ElseBranch::Block(x)) => Some(ElseBranch::Block(licm_block_x(x, c, ctr))),
                Some(ElseBranch::If(x)) => Some(ElseBranch::If(Box::new(licm_expr_x(*x, c, ctr)))),
                None => None,
            };
            ExprKind::IfLet { pattern, scrutinee: Box::new(c2), then: t2, else_: e2 }
        },
        ExprKind::While { cond, body } => {
            let c2 = licm_expr_x(*cond, c, ctr);
            proof { assert(at_lstate(ctr.state())); }
            let b2 = licm_block_x(body, c, ctr);
            ExprKind::While { cond: Box::new(c2), body: b2 }
        },
        ExprKind::WhileLet { pattern, scrutinee: cond, body } => {
            let c2 = licm_expr_x(*cond, c, ctr);
            proof { assert(at_lstate(ctr.state())); }
            let b2 = licm_block_x(body, c, ctr);
            ExprKind::WhileLet { pattern, scrutinee: Box::new(c2), body: b2 }
        },
        ExprKind::For { var, iter: cond, body } => {
            let c2 = licm_expr_x(*cond, c, ctr);
            proof { assert(at_lstate(ctr.state())); }
            let b2 = licm_block_x(body, c, ctr);
            ExprKind::For { var, iter: Box::new(c2), body: b2 }
        },
        ExprKind::ParallelFor { var, iter, body } => {
            let c2 = licm_expr_x(*iter, c, ctr);
            ExprKind::ParallelFor { var, iter: Box::new(c2), body }
        },
        ExprKind::Match { scrutinee, arms } => {
            let x2 = licm_expr_x(*scrutinee, c, ctr);
            proof { assert(at_lstate(ctr.state())); }
            let a2 = licm_arms_x(arms, c, ctr);
            ExprKind::Match { scrutinee: Box::new(x2), arms: a2 }
        },
        ExprKind::Block(x) => ExprKind::Block(licm_block_x(x, c, ctr)),
        ExprKind::TupleLit(items) => ExprKind::TupleLit(licm_exprs_x(items, c, ctr)),
        ExprKind::ArrayLit(items) => ExprKind::ArrayLit(licm_exprs_x(items, c, ctr)),
        ExprKind::RecordLit { type_path, fields, inferred_map_v } => ExprKind::RecordLit {
            type_path,
            fields: licm_rfields_x(fields, c, ctr),
            inferred_map_v,
        },
        other => other,
    };
    Expr { kind, span }
}

fn licm_exprs_x(v: Vec<Expr>, c: &LicmCfg, ctr: &mut LicmCounter) -> (r: Vec<Expr>)
    requires
        old(ctr).count <= c.max,
    ensures
        final(ctr).count <= c.max,
        licm_exprs(v, r, v.len() as int, c.env(), old(ctr).state(), final(ctr).state()),
    decreases v, v.len(),
{
    let ghost orig = v;
    let ghost mut sts: Seq<LicmState> = seq![ctr.state()];
    let mut rest = v;
    let mut out: Vec<Expr> = Vec::new();
    while rest.len() > 0
        invariant
            orig == v,
            ctr.count <= c.max,
            out.len() + rest.len() == orig.len(),
            rest@ == orig@.subrange(out.len() as int, orig.len() as int),
            sts.len() == out.len() + 1,
            sts[0] == old(ctr).state(),
            sts.last() == ctr.state(),
            forall|i: int| 0 <= i < out.len() ==> licm_expr(#[trigger] orig[i], out[i], c.env(), sts[i], sts[i + 1]),
        decreases rest.len(),
    {
        let ghost i = out.len() as int;
        let x = rest.remove(0);
        proof {
            assert(x == orig[i]);
            assert(decreases_to!(orig => orig[i]));
        }
        let y = licm_expr_x(x, c, ctr);
        out.push(y);
        proof {
            sts = sts.push(ctr.state());
            assert(rest@ =~= orig@.subrange(out.len() as int, orig.len() as int));
        }
    }
    proof { lemma_licm_exprs_all(orig, out, orig.len() as int, c.env(), sts); }
    out
}

fn licm_rfields_x(v: Vec<RecordLitField>, c: &LicmCfg, ctr: &mut LicmCounter) -> (r: Vec<RecordLitField>)
    requires
        old(ctr).count <= c.max,
    ensures
        final(ctr).count <= c.max,
        licm_rfields(v, r, v.len() as int, c.env(), old(ctr).state(), final(ctr).state()),
    decreases v, v.len(),
{
    let ghost orig = v;
    let ghost mut sts: Seq<LicmState> = seq![ctr.state()];
    let mut rest = v;
    let mut out: Vec<RecordLitField> = Vec::new();
    while rest.len() > 0
        invariant
            orig == v,
            ctr.count <= c.max,
            out.len() + rest.len() == orig.len(),
            rest@ == orig@.subrange(out.len() as int, orig.len() as int),
            sts.len() == out.len() + 1,
            sts[0] == old(ctr).state(),
            sts.last() == ctr.state(),
            forall|i: int| 0 <= i < out.len() ==> rfield_licm(#[trigger] orig[i], out[i], c.env(), sts[i], sts[i + 1]),
        decreases rest.len(),
    {
        let ghost i = out.len() as int;
        let x = rest.remove(0);
        proof {
            assert(x == orig[i]);
            assert(decreases_to!(orig => orig[i]));
        }
        let RecordLitField { name, value, is_spread, at_shorthand, span } = x;
        let v2 = match value {
            Some(y) => Some(licm_expr_x(y, c, ctr)),
            None => None,
        };
        out.push(RecordLitField { name, value: v2, is_spread, at_shorthand, span });
        proof {
            sts = sts.push(ctr.state());
            assert(rest@ =~= orig@.subrange(out.len() as int, orig.len() as int));
        }
    }
    proof { lemma_licm_rfields_all(orig, out, orig.len() as int, c.env(), sts); }
    out
}

fn licm_arms_x(v: Vec<MatchArm>, c: &LicmCfg, ctr: &mut LicmCounter) -> (r: Vec<MatchArm>)
    requires
        old(ctr).count <= c.max,
    ensures
        final(ctr).count <= c.max,
        licm_arms(v, r, v.len() as int, c.env(), old(ctr).state(), final(ctr).state()),
    decreases v, v.len(),
{
    let ghost orig = v;
    let ghost mut sts: Seq<LicmState> = seq![ctr.state()];
    let mut rest = v;
    let mut out: Vec<MatchArm> = Vec::new();
    while rest.len() > 0
        invariant
            orig == v,
            ctr.count <= c.max,
            out.len() + rest.len() == orig.len(),
            rest@ == orig@.subrange(out.len() as int, orig.len() as int),
            sts.len() == out.len() + 1,
            sts[0] == old(ctr).state(),
            sts.last() == ctr.state(),
            forall|i: int| 0 <= i < out.len() ==> arm_licm(#[trigger] orig[i], out[i], c.env(), sts[i], sts[i + 1]),
        decreases rest.len(),
    {
        let ghost i = out.len() as int;
        let x = rest.remove(0);
        proof {
            assert(x == orig[i]);
            assert(decreases_to!(orig => orig[i]));
        }
        let MatchArm { pattern, body } = x;
        let b2 = match body {
            MatchArmBody::Expr(y) => MatchArmBody::Expr(licm_expr_x(y, c, ctr)),
            MatchArmBody::Block(y) => MatchArmBody::Block(licm_block_x(y, c, ctr)),
        };
        out.push(MatchArm { pattern, body: b2 });
        proof {
            sts = sts.push(ctr.state());
            assert(rest@ =~= orig@.subrange(out.len() as int, orig.len() as int));
        }
    }
    proof { lemma_licm_arms_all(orig, out, orig.len() as int, c.env(), sts); }
    out
}

fn licm_stmt_x(s: Stmt, c: &LicmCfg, ctr: &mut LicmCounter) -> (r: Stmt)
    requires
        old(ctr).count <= c.max,
    ensures
        final(ctr).count <= c.max,
        licm_stmt(s, r, c.env(), old(ctr).state(), final(ctr).state()),
    decreases s, 0int,
{
    match s {
        Stmt::Let(d) => {
            let LetDecl { mutable, pattern, ty, value, span } = d;
            Stmt::Let(LetDecl { mutable, pattern, ty, value: licm_expr_x(value, c, ctr), span })
        },
        Stmt::Assign { target, value, span } => {
            let t2 = licm_expr_x(target, c, ctr);
            proof { assert(at_lstate(ctr.state())); }
            let v2 = licm_expr_x(value, c, ctr);
            Stmt::Assign { target: t2, value: v2, span }
        },
        Stmt::Expr(x) => Stmt::Expr(licm_expr_x(x, c, ctr)),
        Stmt::Return { value, span } => Stmt::Return {
            value: match value {
                Some(x) => Some(licm_expr_x(x, c, ctr)),
                None => None,
            },
            span,
        },
        other => other,
    }
}

fn licm_stmts_x(v: Vec<Stmt>, c: &LicmCfg, ctr: &mut LicmCounter) -> (r: Vec<Stmt>)
    requires
        old(ctr).count <= c.max,
    ensures
        final(ctr).count <= c.max,
        licm_seq(v, v.len() as int, r@, c.env(), old(ctr).state(), final(ctr).state()),
    decreases v, v.len(),
{
    let ghost orig = v;
    let ghost s0 = ctr.state();
    let mut rest = v;
    let mut out: Vec<Stmt> = Vec::new();
    let ghost mut done: int = 0;
    while rest.len() > 0
        invariant
            orig == v,
            ctr.count <= c.max,
            0 <= done <= orig.len(),
            rest@ == orig@.subrange(done, orig.len() as int),
            s0 == old(ctr).state(),
            licm_seq(orig, done, out@, c.env(), s0, ctr.state()),
        decreases rest.len(),
    {
        let x = rest.remove(0);
        proof {
            assert(x == orig[done]);
            assert(decreases_to!(orig => orig[done]));
        }
        let ghost pre = out@;
        let ghost m1 = ctr.state();
        let mid = licm_stmt_x(x, c, ctr);
        let ghost mid_s = mid;
        let ghost m2 = ctr.state();
        let (hs, fin) = loop_stmt_x(mid, c, ctr);
        let ghost hsv = hs@;
        let ghost finv = fin;
        let mut hs = hs;
        out.append(&mut hs);
        out.push(fin);
        proof {
            assert(out@ =~= pre + hsv.push(finv));
            assert(at_stmts(pre));
            assert(at_lstate(m1));
            assert(at_stmt(mid_s));
            assert(at_lstate(m2));
            assert(at_stmts(hsv));
            assert(at_stmt(finv));
            done = done + 1;
            assert(rest@ =~= orig@.subrange(done, orig.len() as int));
        }
    }
    out
}

fn licm_block_x(b: Block, c: &LicmCfg, ctr: &mut LicmCounter) -> (r: Block)
    requires
        old(ctr).count <= c.max,
    ensures
        final(ctr).count <= c.max,
        licm_block(b, r, c.env(), old(ctr).state(), final(ctr).state()),
    decreases b, 1int,
{
    let Block { stmts, trailing, span } = b;
    let out = licm_stmts_x(stmts, c, ctr);
    let ghost outv = out@;
    let ghost m = ctr.state();
    proof {
        assert(at_stmts(outv));
        assert(at_lstate(m));
    }
    let mut out = out;
    match trailing {
        Some(t) => {
            let t1 = licm_expr_x(*t, c, ctr);
            let ghost t1v = t1;
            let ghost m2 = ctr.state();
            let (hs, t2) = loop_expr_x(t1, c, ctr);
            let ghost hsv = hs@;
            proof {
                assert(at_expr(t1v));
                assert(at_lstate(m2));
                assert(at_stmts(hsv));
                assert(at_expr(t2));
            }
            let mut hs = hs;
            out.append(&mut hs);
            assert(out@ =~= outv + hsv);
            Block { stmts: out, trailing: Some(Box::new(t2)), span }
        },
        None => Block { stmts: out, trailing: None, span },
    }
}

/// The settings of hoisting in method `f`, the receiver's field names in
/// character order being `names`.
pub open spec fn licm_env(f: FnDecl, tf: TypeFields, names: Seq<String>, cfg: FieldCacheConfig, ws: WriteSets) -> LicmEnv {
    LicmEnv {
        names: names_view(names),
        fields: tf.fields@,
        thr: cfg.licm_threshold as nat,
        per_loop: cfg.licm_max_per_loop as nat,
        max: cfg.max_per_fn as nat,
        ctx: method_ctx(f, cfg, ws),
    }
}

/// Hoisting in method `f` starts with no hoists and the names of `f` in use.
pub open spec fn licm_start(f: FnDecl) -> LicmState {
    LicmState { count: 0, used: Set::new(|x: Seq<char>| method_binds(f, x)) }
}

/// `new` is method `old` after hoisting loop-invariant field reads:
/// unchanged when the pass does not apply; otherwise its body after
/// `licm_block` (a body that is one loop becomes a block so that the lets
/// have a place), deciding over the receiver's fields in character order.
pub open spec fn licm_done(old: FnDecl, new: FnDecl, reg: FieldRegistry, cfg: FieldCacheConfig, ws: WriteSets) -> bool {
    match method_fields(old, reg) {
        None => new == old,
        Some(tf) => exists|names: Seq<String>| #[trigger] sorted_names(names)
            && (forall|x: Seq<char>| #[trigger] has_name(names, x) <==> entry_kind(tf.fields@, tf.fields@.len() as int, x) is Some)
            && {
            let env = licm_env(old, tf, names, cfg, ws);
            &&& same_header(old, new)
            &&& exists|s1: LicmState| #[trigger] at_lstate(s1) && match old.body {
                FnBody::Expr(e) => if e.kind is While || e.kind is WhileLet || e.kind is For {
                    exists|blk: Block, b: Block| #![trigger coerced(old.body, blk), at_block(b)]
                        coerced(old.body, blk) && new.body == FnBody::Block(b) && licm_block(blk, b, env, licm_start(old), s1)
                } else {
                    new.body matches FnBody::Expr(e2) && licm_expr(e, e2, env, licm_start(old), s1)
                },
                FnBody::Block(bl) => new.body matches FnBody::Block(b) && licm_block(bl, b, env, licm_start(old), s1),
                FnBody::External => new == old,
            }
        },
    }
}

/// Hoists the loop-invariant field reads of one method (see `licm_done`).
pub fn hoist_method(f: &mut FnDecl, reg: &FieldRegistry, cfg: &FieldCacheConfig, ws: &WriteSets)
    ensures
        licm_done(*old(f), *final(f), *reg, *cfg, *ws),
{
    let ghost f0 = *f;
    let owner: String = match &f.receiver {
        Some(r) => {
            match r.kind {
                ReceiverKind::Instance => {},
                ReceiverKind::Static => {
                    return;
                },
            }
            if contains_name(&reg.skip_types, r.owner_type.as_str()) {
                return;
            }
            String::from_str(r.owner_type.as_str())
        },
        None => {
            return;
        },
    };
    if f.is_external {
        return;
    }
    match &f.body {
        FnBody::External => {
            return;
        },
        _ => {},
    }
    let ti = match find_type(reg, owner.as_str()) {
        Some(i) => i,
        None => {
            return;
        },
    };
    let tf = &reg.types[ti];
    if tf.fields.len() == 0 {
        return;
    }
    assert(method_fields(f0, *reg) == Some(*tf));
    let names = sorted_field_names(&tf.fields);
    let ipa: Option<(&WriteSets, &str)> = if cfg.ipa_enabled && ws.entries.len() > 0 {
        Some((ws, owner.as_str()))
    } else {
        None
    };
    assert(ipa_view(ipa) == method_ctx(f0, *cfg, *ws));
    let used = method_local_names(f);
    let mut ctr = LicmCounter { count: 0, used };
    proof {
        assert(ctr.state().used =~= licm_start(f0).used);
    }
    let c = LicmCfg {
        names: &names,
        fields: &tf.fields,
        thr: cfg.licm_threshold,
        per_loop: cfg.licm_max_per_loop,
        max: cfg.max_per_fn,
        ipa,
    };
    proof {
        assert(c.env().names =~= names_view(names@));
        assert(c.env() == licm_env(f0, *tf, names@, *cfg, *ws));
    }
    let mut body = FnBody::External;
    std::mem::swap(&mut body, &mut f.body);
    let nb = match body {
        FnBody::Block(b) => FnBody::Block(licm_block_x(b, &c, &mut ctr)),
        FnBody::Expr(e) => {
            let is_loop = match &e.kind {
                ExprKind::While { .. } | ExprKind::WhileLet { .. } | ExprKind::For { .. } => true,
                _ => false,
            };
            if is_loop {
                let sp = e.span;
                let blk = Block { stmts: Vec::new(), trailing: Some(Box::new(e)), span: sp };
                let ghost blk0 = blk;
                let b = licm_block_x(blk, &c, &mut ctr);
                proof {
                    assert(coerced(f0.body, blk0));
                    assert(at_block(b));
                }
                FnBody::Block(b)
            } else {
                FnBody::Expr(licm_expr_x(e, &c, &mut ctr))
            }
        },
        FnBody::External => FnBody::External,
    };
    f.body = nb;
    proof {
        assert(at_lstate(ctr.state()));
        assert(sorted_names(names@));
    }
}

} // verus!
