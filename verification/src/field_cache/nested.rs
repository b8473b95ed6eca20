//! Caching of mutable fields inside nested blocks. Once the top-level
//! statements of a method are cached, every block nested in them (the
//! branches of an `if`, a loop body, a `match` arm, a block expression; not
//! closures) is split into regions between barriers of its own, innermost
//! blocks first, and a region read often enough gets a local
//! `_at_<field>_n<k>`, `k` counting up over the whole method. The
//! method-wide budget of cache locals bounds how many are added.

use vstd::prelude::*;
use crate::ast::{Block, ElseBranch, Expr, ExprKind, LetDecl, MatchArm, MatchArmBody, RecordLitField, Stmt};
use crate::field_cache::apply::{apply_plan, block_after, LocalTarget};
use crate::field_cache::collect::{add_name, has_name};
use crate::field_cache::ipa::{names_view, IpaView, WriteSets};
use crate::field_cache::names::{chosen_name, fresh_name, make_nested_name, nested_name, suffixed};
use crate::field_cache::plan::{block_regions, find_mut_regions_in_block, lemma_body_regions_start, body_regions, MutRegion};
use crate::field_cache::scan::ipa_view;
use crate::text::copy_str;
use crate::ast::FnBody;

verus! {

/// Where the allocation of nested cache locals stands: the next number
/// `k` for `_at_<field>_n<k>`, how many locals the method may still add,
/// and the names in use.
pub struct NestState {
    pub seq: nat,
    pub budget: nat,
    pub used: Set<Seq<char>>,
}

/// What nested caching works on: one mutable field, the read threshold,
/// and the call context that decides which calls are barriers.
pub struct NestEnv {
    pub f: Seq<char>,
    pub thr: nat,
    pub ctx: Option<IpaView>,
}

/// The allocation state as the pass holds it.
pub struct NestCounter {
    pub seq: usize,
    pub budget: usize,
    pub used: Vec<String>,
}

impl NestCounter {
    pub open spec fn state(&self) -> NestState {
        NestState { seq: self.seq as nat, budget: self.budget as nat, used: Set::new(|x: Seq<char>| has_name(self.used@, x)) }
    }

    /// The counter cannot run past `usize::MAX`.
    pub open spec fn fits(&self) -> bool {
        self.seq + self.budget <= usize::MAX
    }
}

/// The name a new local called `base` gets among the names `used` (see
/// `chosen_name`).
pub open spec fn fresh_local(used: Set<Seq<char>>, base: Seq<char>) -> Seq<char> {
    choose|r: Seq<char>| #[trigger] chosen_name(member_of(used), base, r)
}

/// Membership in `used` as a predicate.
pub open spec fn member_of(used: Set<Seq<char>>) -> spec_fn(Seq<char>) -> bool {
    |x: Seq<char>| used.contains(x)
}

/// `chosen_name` picks one name.
pub proof fn lemma_chosen_unique(taken: spec_fn(Seq<char>) -> bool, base: Seq<char>, r1: Seq<char>, r2: Seq<char>)
    requires
        chosen_name(taken, base, r1),
        chosen_name(taken, base, r2),
    ensures
        r1 == r2,
{
    if taken(base) {
        let k1 = choose|k: int| #![trigger suffixed(base, k)] k >= 1 && r1 == suffixed(base, k)
            && forall|j: int| 1 <= j < k ==> taken(#[trigger] suffixed(base, j));
        let k2 = choose|k: int| #![trigger suffixed(base, k)] k >= 1 && r2 == suffixed(base, k)
            && forall|j: int| 1 <= j < k ==> taken(#[trigger] suffixed(base, j));
        if k1 < k2 {
            assert(taken(suffixed(base, k1)));
        } else if k2 < k1 {
            assert(taken(suffixed(base, k2)));
        }
    }
}

/// The regions of `rs` from `k` on that get a nested local, with the
/// local's name, and the state after them: a region read at least
/// `env.thr` times gets one while the budget lasts.
pub open spec fn nested_pick(rs: Seq<MutRegion>, k: nat, env: NestEnv, st: NestState) -> (Seq<(MutRegion, Seq<char>)>, NestState)
    decreases rs.len() - k,
{
    if k >= rs.len() || st.budget == 0 {
        (Seq::empty(), st)
    } else if (rs[k as int].reads as nat) < env.thr {
        nested_pick(rs, k + 1, env, st)
    } else {
        let name = fresh_local(st.used, nested_name(env.f, st.seq));
        let next = NestState { seq: st.seq + 1, budget: (st.budget - 1) as nat, used: st.used.insert(name) };
        let r = nested_pick(rs, k + 1, env, next);
        (seq![(rs[k as int], name)] + r.0, r.1)
    }
}

/// `ts` places the locals `picks` for field `f`.
pub open spec fn targets_of(ts: Seq<LocalTarget>, picks: Seq<(MutRegion, Seq<char>)>, f: Seq<char>) -> bool {
    &&& ts.len() == picks.len()
    &&& forall|q: int| 0 <= q < ts.len() ==> {
        &&& (#[trigger] ts[q]).field@ == f
        &&& ts[q].local@ == picks[q].1
        &&& ts[q].start == picks[q].0.start
        &&& ts[q].end == picks[q].0.end
        &&& ts[q].trailing == picks[q].0.trailing_included
        &&& ts[q].span == picks[q].0.first_span
    }
}

/// `b` is block `a` (whose nested blocks are done) after caching its own
/// regions for `env.f`.
pub open spec fn block_step(a: Block, b: Block, env: NestEnv, s0: NestState, s1: NestState) -> bool {
    if s0.budget == 0 {
        b == a && s1 == s0
    } else {
        let p = nested_pick(block_regions(a, env.ctx, env.f, a.span), 0, env, s0);
        &&& s1 == p.1
        &&& if p.0.len() == 0 {
            b == a
        } else {
            exists|ts: Seq<LocalTarget>| #[trigger] block_after(a, b, Seq::empty(), ts) && targets_of(ts, p.0, env.f)
        }
    }
}

/// Allocates the next nested local for field `f`.
fn alloc_local(f: &str, ctr: &mut NestCounter) -> (name: String)
    requires
        old(ctr).fits(),
        old(ctr).budget > 0,
    ensures
        final(ctr).fits(),
        name@ == fresh_local(old(ctr).state().used, nested_name(f@, old(ctr).state().seq)),
        final(ctr).state() == (NestState {
            seq: old(ctr).state().seq + 1,
            budget: (old(ctr).state().budget - 1) as nat,
            used: old(ctr).state().used.insert(name@),
        }),
{
    let ghost s0 = ctr.state();
    let base = make_nested_name(f, ctr.seq);
    let name = fresh_name(&ctr.used, base.as_str());
    proof {
        let t1 = |x: Seq<char>| has_name(ctr.used@, x);
        let t2 = member_of(s0.used);
        assert(t1 =~= t2);
        assert(chosen_name(t2, base@, name@));
        let r = fresh_local(s0.used, base@);
        assert(chosen_name(t2, base@, r));
        lemma_chosen_unique(t2, base@, name@, r);
    }
    add_name(&mut ctr.used, name.as_str());
    ctr.seq = ctr.seq + 1;
    ctr.budget = ctr.budget - 1;
    proof {
        assert(ctr.state().used =~= s0.used.insert(name@));
    }
    name
}

/// Caches the regions of block `b` itself for field `f` (see `block_step`).
fn step_block(b: Block, f: &str, thr: usize, ipa: Option<(&WriteSets, &str)>, ctr: &mut NestCounter) -> (r: Block)
    requires
        old(ctr).fits(),
    ensures
        final(ctr).fits(),
        block_step(b, r, NestEnv { f: f@, thr: thr as nat, ctx: ipa_view(ipa) }, old(ctr).state(), final(ctr).state()),
{
    let ghost env = NestEnv { f: f@, thr: thr as nat, ctx: ipa_view(ipa) };
    let ghost s0 = ctr.state();
    if ctr.budget == 0 {
        return b;
    }
    let span = b.span;
    let regions = find_mut_regions_in_block(&b, f, ipa, span);
    let ghost rs = regions@;
    proof {
        lemma_body_regions_start(FnBody::Block(b), env.ctx, f@, span);
        assert(body_regions(FnBody::Block(b), env.ctx, f@, span) == rs);
    }
    let mut ts: Vec<LocalTarget> = Vec::new();
    let ghost mut done: Seq<(MutRegion, Seq<char>)> = Seq::empty();
    let mut i: usize = 0;
    while i < regions.len() && ctr.budget > 0
        invariant
            rs == regions@,
            rs == block_regions(b, env.ctx, env.f, b.span),
            env == (NestEnv { f: f@, thr: thr as nat, ctx: ipa_view(ipa) }),
            forall|q: int| 0 <= q < rs.len() ==> (#[trigger] rs[q]).start <= b.stmts@.len(),
            i <= rs.len(),
            ctr.fits(),
            nested_pick(rs, 0, env, s0) == (done + nested_pick(rs, i as nat, env, ctr.state()).0, nested_pick(rs, i as nat, env, ctr.state()).1),
            targets_of(ts@, done, f@),
            forall|q: int| 0 <= q < ts@.len() ==> (#[trigger] ts@[q]).start <= b.stmts@.len(),
        decreases rs.len() - i,
    {
        let reg = regions[i];
        if reg.reads >= thr {
            let ghost sb = ctr.state();
            let name = alloc_local(f, ctr);
            proof {
                let nx = nested_pick(rs, i as nat + 1, env, ctr.state());
                assert(nested_pick(rs, i as nat, env, sb) == (seq![(rs[i as int], name@)] + nx.0, nx.1));
                assert(done + (seq![(rs[i as int], name@)] + nx.0) =~= done.push((rs[i as int], name@)) + nx.0);
                done = done.push((rs[i as int], name@));
            }
            ts.push(LocalTarget { field: copy_str(f), local: name, start: reg.start, end: reg.end, trailing: reg.trailing_included, span: reg.first_span });
        }
        i = i + 1;
    }
    proof {
        assert(nested_pick(rs, i as nat, env, ctr.state()).0.len() == 0);
        assert(done + nested_pick(rs, i as nat, env, ctr.state()).0 =~= done);
    }
    if ts.len() == 0 {
        return b;
    }
    let empty: Vec<LocalTarget> = Vec::new();
    let r = apply_plan(b, &empty, &ts);
    proof {
        assert(empty@ =~= Seq::<LocalTarget>::empty());
    }
    r
}


/// `b` is expression `a` after nested caching for `env.f`, taking the
/// allocation state from `s0` to `s1`: its nested blocks are processed in
/// order (`nested_block`); closures and leaves stay as they are.
pub open spec fn nested_expr(a: Expr, b: Expr, env: NestEnv, s0: NestState, s1: NestState) -> bool
    decreases a, 0int,
{
    if s0.budget == 0 {
        b == a && s1 == s0
    } else {
        b.span == a.span && match a.kind {
            ExprKind::Member { obj, name } => b.kind matches ExprKind::Member { obj: o2, name: n2 } && n2 == name
                && nested_expr(*obj, *o2, env, s0, s1),
            ExprKind::Call { func, args } => b.kind matches ExprKind::Call { func: f2, args: a2 }
                && exists|m: NestState| #[trigger] at_state(m) && nested_expr(*func, *f2, env, s0, m)
                    && nested_exprs(args, a2, args.len() as int, env, m, s1),
            ExprKind::Binary { op, left, right } => b.kind matches ExprKind::Binary { op: op2, left: l2, right: r2 }
                && op2 == op && exists|m: NestState| #[trigger] at_state(m) && nested_expr(*left, *l2, env, s0, m)
                    && nested_expr(*right, *r2, env, m, s1),
            ExprKind::Unary { op, operand } => b.kind matches ExprKind::Unary { op: op2, operand: x2 } && op2 == op
                && nested_expr(*operand, *x2, env, s0, s1),
            ExprKind::Index { obj, index } => b.kind matches ExprKind::Index { obj: o2, index: i2 }
                && exists|m: NestState| #[trigger] at_state(m) && nested_expr(*obj, *o2, env, s0, m) && nested_expr(*index, *i2, env, m, s1),
            ExprKind::If { cond, then, else_ } => b.kind matches ExprKind::If { cond: c2, then: t2, else_: e2 }
                && exists|m1: NestState, m2: NestState| #![trigger at_state(m1), at_state(m2)]
                    nested_expr(*cond, *c2, env, s0, m1) && nested_block(then, t2, env, m1, m2) && match else_ {
                    Some(ElseBranch::Block(x)) => e2 matches Some(ElseBranch::Block(y)) && nested_block(x, y, env, m2, s1),
                    Some(ElseBranch::If(x)) => e2 matches Some(ElseBranch::If(y)) && nested_expr(*x, *y, env, m2, s1),
                    None => e2 is None && s1 == m2,
                },
            ExprKind::IfLet { pattern, scrutinee: cond, then, else_ } => b.kind matches ExprKind::IfLet { pattern: p2, scrutinee: c2, then: t2, else_: e2 } && p2 == pattern
                && exists|m1: NestState, m2: NestState| #![trigger at_state(m1), at_state(m2)]
                    nested_expr(*cond, *c2, env, s0, m1) && nested_block(then, t2, env, m1, m2) && match else_ {
                    Some(ElseBranch::Block(x)) => e2 matches Some(ElseBranch::Block(y)) && nested_block(x, y, env, m2, s1),
                    Some(ElseBranch::If(x)) => e2 matches Some(ElseBranch::If(y)) && nested_expr(*x, *y, env, m2, s1),
                    None => e2 is None && s1 == m2,
                },
            ExprKind::While { cond, body } => b.kind matches ExprKind::While { cond: c2, body: b2 }
                && exists|m: NestState| #[trigger] at_state(m) && nested_expr(*cond, *c2, env, s0, m) && nested_block(body, b2, env, m, s1),
            ExprKind::WhileLet { pattern, scrutinee: cond, body } => b.kind matches ExprKind::WhileLet { pattern: p2, scrutinee: c2, body: b2 } && p2 == pattern
                && exists|m: NestState| #[trigger] at_state(m) && nested_expr(*cond, *c2, env, s0, m) && nested_block(body, b2, env, m, s1),
            ExprKind::For { var, iter: cond, body } => b.kind matches ExprKind::For { var: v2, iter: c2, body: b2 } && v2 == var
                && exists|m: NestState| #[trigger] at_state(m) && nested_expr(*cond, *c2, env, s0, m) && nested_block(body, b2, env, m, s1),
            ExprKind::ParallelFor { var, iter: cond, body } => b.kind matches ExprKind::ParallelFor { var: v2, iter: c2, body: b2 } && v2 == var
                && exists|m: NestState| #[trigger] at_state(m) && nested_expr(*cond, *c2, env, s0, m) && nested_block(body, b2, env, m, s1),
            ExprKind::Match { scrutinee, arms } => b.kind matches ExprKind::Match { scrutinee: x2, arms: a2 }
                && exists|m: NestState| #[trigger] at_state(m) && nested_expr(*scrutinee, *x2, env, s0, m)
                    && nested_arms(arms, a2, arms.len() as int, env, m, s1),
            ExprKind::Block(x) => b.kind matches ExprKind::Block(y) && nested_block(x, y, env, s0, s1),
            ExprKind::Spawn(x) => b.kind matches ExprKind::Spawn(y) && nested_expr(*x, *y, env, s0, s1),
            ExprKind::NamedArg { name, value: x } => b.kind matches ExprKind::NamedArg { name: n2, value: y } && n2 == name && nested_expr(*x, *y, env, s0, s1),
            ExprKind::Try(x) => b.kind matches ExprKind::Try(y) && nested_expr(*x, *y, env, s0, s1),
            ExprKind::TupleLit(items) => b.kind matches ExprKind::TupleLit(i2)
                && nested_exprs(items, i2, items.len() as int, env, s0, s1),
            ExprKind::ArrayLit(items) => b.kind matches ExprKind::ArrayLit(i2)
                && nested_exprs(items, i2, items.len() as int, env, s0, s1),
            ExprKind::RecordLit { type_path, fields, inferred_map_v } => b.kind matches ExprKind::RecordLit {
                type_path: t2, fields: f2, inferred_map_v: m2 } && t2 == type_path && m2 == inferred_map_v
                && nested_rfields(fields, f2, fields.len() as int, env, s0, s1),
            _ => b == a && s1 == s0,
        }
    }
}

/// Always true: a trigger that names an allocation state between the
/// parts of a construct, so quantifiers over the intermediate states get
/// instantiated. It states nothing.
pub open spec fn at_state(m: NestState) -> bool {
    true
}

/// Always true: a trigger that names an intermediate block. It states
/// nothing.
pub open spec fn at_block(b: Block) -> bool {
    true
}

/// `nested_expr` over the first `k` expressions, in order.
pub open spec fn nested_exprs(a: Vec<Expr>, b: Vec<Expr>, k: int, env: NestEnv, s0: NestState, s1: NestState) -> bool
    decreases a, k,
{
    a.len() == b.len() && if k <= 0 || k > a.len() {
        s1 == s0
    } else {
        exists|m: NestState| #[trigger] at_state(m) && nested_exprs(a, b, k - 1, env, s0, m) && nested_expr(a[k - 1], b[k - 1], env, m, s1)
    }
}

/// `nested_expr` over the values of the first `k` record-literal fields.
pub open spec fn nested_rfields(a: Vec<RecordLitField>, b: Vec<RecordLitField>, k: int, env: NestEnv, s0: NestState, s1: NestState) -> bool
    decreases a, k,
{
    a.len() == b.len() && if k <= 0 || k > a.len() {
        s1 == s0
    } else {
        exists|m: NestState| #[trigger] at_state(m) && nested_rfields(a, b, k - 1, env, s0, m)
            && b[k - 1].name == a[k - 1].name && b[k - 1].is_spread == a[k - 1].is_spread
            && b[k - 1].at_shorthand == a[k - 1].at_shorthand && b[k - 1].span == a[k - 1].span
            && match a[k - 1].value {
            Some(x) => b[k - 1].value matches Some(y) && nested_expr(x, y, env, m, s1),
            None => b[k - 1].value is None && s1 == m,
        }
    }
}

/// Nested caching over the bodies of the first `k` arms.
pub open spec fn nested_arms(a: Vec<MatchArm>, b: Vec<MatchArm>, k: int, env: NestEnv, s0: NestState, s1: NestState) -> bool
    decreases a, k,
{
    a.len() == b.len() && if k <= 0 || k > a.len() {
        s1 == s0
    } else {
        exists|m: NestState| #[trigger] at_state(m) && nested_arms(a, b, k - 1, env, s0, m) && b[k - 1].pattern == a[k - 1].pattern
            && match a[k - 1].body {
            MatchArmBody::Expr(x) => b[k - 1].body matches MatchArmBody::Expr(y) && nested_expr(x, y, env, m, s1),
            MatchArmBody::Block(x) => b[k - 1].body matches MatchArmBody::Block(y) && nested_block(x, y, env, m, s1),
        }
    }
}

/// `nested_expr` for statements.
pub open spec fn nested_stmt(a: Stmt, b: Stmt, env: NestEnv, s0: NestState, s1: NestState) -> bool
    decreases a, 0int,
{
    if s0.budget == 0 {
        b == a && s1 == s0
    } else {
        match a {
            Stmt::Let(d) => b matches Stmt::Let(d2) && d2.mutable == d.mutable && d2.pattern == d.pattern && d2.ty == d.ty
                && d2.span == d.span && nested_expr(d.value, d2.value, env, s0, s1),
            Stmt::Assign { target, value, span } => b matches Stmt::Assign { target: t2, value: v2, span: sp2 } && sp2 == span
                && exists|m: NestState| #[trigger] at_state(m) && nested_expr(target, t2, env, s0, m) && nested_expr(value, v2, env, m, s1),
            Stmt::Expr(x) => b matches Stmt::Expr(y) && nested_expr(x, y, env, s0, s1),
            Stmt::Return { value, span } => b matches Stmt::Return { value: v2, span: sp2 } && sp2 == span && match value {
                Some(x) => v2 matches Some(y) && nested_expr(x, y, env, s0, s1),
                None => v2 is None && s1 == s0,
            },
            _ => b == a && s1 == s0,
        }
    }
}

/// `nested_stmt` over the first `k` statements, in order.
pub open spec fn nested_stmts(a: Vec<Stmt>, b: Vec<Stmt>, k: int, env: NestEnv, s0: NestState, s1: NestState) -> bool
    decreases a, k,
{
    a.len() == b.len() && if k <= 0 || k > a.len() {
        s1 == s0
    } else {
        exists|m: NestState| #[trigger] at_state(m) && nested_stmts(a, b, k - 1, env, s0, m) && nested_stmt(a[k - 1], b[k - 1], env, m, s1)
    }
}

/// The blocks nested in the statements and final value of block `a` are
/// processed; `a`'s own statements are not split.
pub open spec fn nested_inner(a: Block, b: Block, env: NestEnv, s0: NestState, s1: NestState) -> bool
    decreases a, 0int,
{
    b.span == a.span && exists|m: NestState| #[trigger] at_state(m) && nested_stmts(a.stmts, b.stmts, a.stmts.len() as int, env, s0, m)
        && match a.trailing {
        Some(x) => b.trailing matches Some(y) && nested_expr(*x, *y, env, m, s1),
        None => b.trailing is None && s1 == m,
    }
}

/// A nested block is processed: first the blocks nested in it, then its
/// own regions (`block_step`).
pub open spec fn nested_block(a: Block, b: Block, env: NestEnv, s0: NestState, s1: NestState) -> bool
    decreases a, 1int,
{
    if s0.budget == 0 {
        b == a && s1 == s0
    } else {
        exists|mid: Block, m: NestState| #![trigger at_block(mid), at_state(m)] nested_inner(a, mid, env, s0, m) && block_step(mid, b, env, m, s1)
    }
}

spec fn arm_nested(a: MatchArm, b: MatchArm, env: NestEnv, s0: NestState, s1: NestState) -> bool {
    b.pattern == a.pattern && match a.body {
        MatchArmBody::Expr(x) => b.body matches MatchArmBody::Expr(y) && nested_expr(x, y, env, s0, s1),
        MatchArmBody::Block(x) => b.body matches MatchArmBody::Block(y) && nested_block(x, y, env, s0, s1),
    }
}

spec fn rfield_nested(a: RecordLitField, b: RecordLitField, env: NestEnv, s0: NestState, s1: NestState) -> bool {
    b.name == a.name && b.is_spread == a.is_spread && b.at_shorthand == a.at_shorthand && b.span == a.span
        && match a.value {
        Some(x) => b.value matches Some(y) && nested_expr(x, y, env, s0, s1),
        None => b.value is None && s1 == s0,
    }
}

proof fn lemma_nested_exprs_all(a: Vec<Expr>, b: Vec<Expr>, k: int, env: NestEnv, sts: Seq<NestState>)
    requires
        a.len() == b.len(),
        0 <= k <= a.len(),
        sts.len() == a.len() + 1,
        forall|i: int| 0 <= i < a.len() ==> nested_expr(#[trigger] a[i], b[i], env, sts[i], sts[i + 1]),
    ensures
        nested_exprs(a, b, k, env, sts[0], sts[k]),
    decreases k,
{
    if k > 0 {
        lemma_nested_exprs_all(a, b, k - 1, env, sts);
        assert(nested_expr(a[k - 1], b[k - 1], env, sts[k - 1], sts[k]));
        assert(at_state(sts[k - 1]));
    }
}

proof fn lemma_nested_rfields_all(a: Vec<RecordLitField>, b: Vec<RecordLitField>, k: int, env: NestEnv, sts: Seq<NestState>)
    requires
        a.len() == b.len(),
        0 <= k <= a.len(),
        sts.len() == a.len() + 1,
        forall|i: int| 0 <= i < a.len() ==> rfield_nested(#[trigger] a[i], b[i], env, sts[i], sts[i + 1]),
    ensures
        nested_rfields(a, b, k, env, sts[0], sts[k]),
    decreases k,
{
    if k > 0 {
        lemma_nested_rfields_all(a, b, k - 1, env, sts);
        assert(rfield_nested(a[k - 1], b[k - 1], env, sts[k - 1], sts[k]));
        assert(at_state(sts[k - 1]));
    }
}

proof fn lemma_nested_arms_all(a: Vec<MatchArm>, b: Vec<MatchArm>, k: int, env: NestEnv, sts: Seq<NestState>)
    requires
        a.len() == b.len(),
        0 <= k <= a.len(),
        sts.len() == a.len() + 1,
        forall|i: int| 0 <= i < a.len() ==> arm_nested(#[trigger] a[i], b[i], env, sts[i], sts[i + 1]),
    ensures
        nested_arms(a, b, k, env, sts[0], sts[k]),
    decreases k,
{
    if k > 0 {
        lemma_nested_arms_all(a, b, k - 1, env, sts);
        assert(arm_nested(a[k - 1], b[k - 1], env, sts[k - 1], sts[k]));
        assert(at_state(sts[k - 1]));
    }
}

proof fn lemma_nested_stmts_all(a: Vec<Stmt>, b: Vec<Stmt>, k: int, env: NestEnv, sts: Seq<NestState>)
    requires
        a.len() == b.len(),
        0 <= k <= a.len(),
        sts.len() == a.len() + 1,
        forall|i: int| 0 <= i < a.len() ==> nested_stmt(#[trigger] a[i], b[i], env, sts[i], sts[i + 1]),
    ensures
        nested_stmts(a, b, k, env, sts[0], sts[k]),
    decreases k,
{
    if k > 0 {
        lemma_nested_stmts_all(a, b, k - 1, env, sts);
        assert(nested_stmt(a[k - 1], b[k - 1], env, sts[k - 1], sts[k]));
        assert(at_state(sts[k - 1]));
    }
}

/// Nested caching of an expression (see `nested_expr`).
fn nest_expr(e: Expr, f: &str, thr: usize, ipa: Option<(&WriteSets, &str)>, ctr: &mut NestCounter) -> (r: Expr)
    requires
        old(ctr).fits(),
    ensures
        final(ctr).fits(),
        nested_expr(e, r, NestEnv { f: f@, thr: thr as nat, ctx: ipa_view(ipa) }, old(ctr).state(), final(ctr).state()),
    decreases e, 0int,
{
    let ghost env = NestEnv { f: f@, thr: thr as nat, ctx: ipa_view(ipa) };
    let ghost s0 = ctr.state();
    if ctr.budget == 0 {
        return e;
    }
    let span = e.span;
    let kind = match e.kind {
        ExprKind::Member { obj, name } => ExprKind::Member { obj: Box::new(nest_expr(*obj, f, thr, ipa, ctr)), name },
        ExprKind::Call { func, args } => {
            let f2 = nest_expr(*func, f, thr, ipa, ctr);
            proof { assert(at_state(ctr.state())); }
            let a2 = nest_exprs(args, f, thr, ipa, ctr);
            ExprKind::Call { func: Box::new(f2), args: a2 }
        },
        ExprKind::Binary { op, left, right } => {
            let l2 = nest_expr(*left, f, thr, ipa, ctr);
            proof { assert(at_state(ctr.state())); }
            let r2 = nest_expr(*right, f, thr, ipa, ctr);
            ExprKind::Binary { op, left: Box::new(l2), right: Box::new(r2) }
        },
        ExprKind::Unary { op, operand } => ExprKind::Unary { op, operand: Box::new(nest_expr(*operand, f, thr, ipa, ctr)) },
        ExprKind::Index { obj, index } => {
            let o2 = nest_expr(*obj, f, thr, ipa, ctr);
            proof { assert(at_state(ctr.state())); }
            let i2 = nest_expr(*index, f, thr, ipa, ctr);
            ExprKind::Index { obj: Box::new(o2), index: Box::new(i2) }
        },
        ExprKind::If { cond, then, else_ } => {
            let c2 = nest_expr(*cond, f, thr, ipa, ctr);
            proof { assert(at_state(ctr.state())); }
            let t2 = nest_block(then, f, thr, ipa, ctr);
            proof { assert(at_state(ctr.state())); }
            let e2 = match else_ {
                Some(ElseBranch::Block(x)) => Some(ElseBranch::Block(nest_block(x, f, thr, ipa, ctr))),
                Some(ElseBranch::If(x)) => Some(ElseBranch::If(Box::new(nest_expr(*x, f, thr, ipa, ctr)))),
                None => None,
            };
            ExprKind::If { cond: Box::new(c2), then: t2, else_: e2 }
        },
        ExprKind::IfLet { pattern, scrutinee: cond, then, else_ } => {
            let c2 = nest_expr(*cond, f, thr, ipa, ctr);
            proof { assert(at_state(ctr.state())); }
            let t2 = nest_block(then, f, thr, ipa, ctr);
            proof { assert(at_state(ctr.state())); }
            let e2 = match else_ {
                Some(ElseBranch::Block(x)) => Some(ElseBranch::Block(nest_block(x, f, thr, ipa, ctr))),
                Some(ElseBranch::If(x)) => Some(ElseBranch::If(Box::new(nest_expr(*x, f, thr, ipa, ctr)))),
                None => None,
            };
            ExprKind::IfLet { pattern, scrutinee: Box::new(c2), then: t2, else_: e2 }
        },
        ExprKind::While { cond, body } => {
            let c2 = nest_expr(*cond, f, thr, ipa, ctr);
            proof { assert(at_state(ctr.state())); }
            let b2 = nest_block(body, f, thr, ipa, ctr);
            ExprKind::While { cond: Box::new(c2), body: b2 }
        },
        ExprKind::WhileLet { pattern, scrutinee: cond, body } => {
            let c2 = nest_expr(*cond, f, thr, ipa, ctr);
            proof { assert(at_state(ctr.state())); }
            let b2 = nest_block(body, f, thr, ipa, ctr);
            ExprKind::WhileLet { pattern, scrutinee: Box::new(c2), body: b2 }
        },
        ExprKind::For { var, iter: cond, body } => {
            let c2 = nest_expr(*cond, f, thr, ipa, ctr);
            proof { assert(at_state(ctr.state())); }
            let b2 = nest_block(body, f, thr, ipa, ctr);
            ExprKind::For { var, iter: Box::new(c2), body: b2 }
        },
        ExprKind::ParallelFor { var, iter: cond, body } => {
            let c2 = nest_expr(*cond, f, thr, ipa, ctr);
            proof { assert(at_state(ctr.state())); }
            let b2 = nest_block(body, f, thr, ipa, ctr);
            ExprKind::ParallelFor { var, iter: Box::new(c2), body: b2 }
        },
        ExprKind::Match { scrutinee, arms } => {
            let x2 = nest_expr(*scrutinee, f, thr, ipa, ctr);
            proof { assert(at_state(ctr.state())); }
            let a2 = nest_arms(arms, f, thr, ipa, ctr);
            ExprKind::Match { scrutinee: Box::new(x2), arms: a2 }
        },
        ExprKind::Block(x) => ExprKind::Block(nest_block(x, f, thr, ipa, ctr)),
        ExprKind::Spawn(x) => ExprKind::Spawn(Box::new(nest_expr(*x, f, thr, ipa, ctr))),
        ExprKind::NamedArg { name, value: x } => ExprKind::NamedArg { name, value: Box::new(nest_expr(*x, f, thr, ipa, ctr)) },
        ExprKind::Try(x) => ExprKind::Try(Box::new(nest_expr(*x, f, thr, ipa, ctr))),
        ExprKind::TupleLit(items) => ExprKind::TupleLit(nest_exprs(items, f, thr, ipa, ctr)),
        ExprKind::ArrayLit(items) => ExprKind::ArrayLit(nest_exprs(items, f, thr, ipa, ctr)),
        ExprKind::RecordLit { type_path, fields, inferred_map_v } => ExprKind::RecordLit {
            type_path,
            fields: nest_rfields(fields, f, thr, ipa, ctr),
            inferred_map_v,
        },
        other => other,
    };
    Expr { kind, span }
}

fn nest_exprs(v: Vec<Expr>, f: &str, thr: usize, ipa: Option<(&WriteSets, &str)>, ctr: &mut NestCounter) -> (r: Vec<Expr>)
    requires
        old(ctr).fits(),
    ensures
        final(ctr).fits(),
        nested_exprs(v, r, v.len() as int, NestEnv { f: f@, thr: thr as nat, ctx: ipa_view(ipa) }, old(ctr).state(), final(ctr).state()),
    decreases v, v.len(),
{
    let ghost env = NestEnv { f: f@, thr: thr as nat, ctx: ipa_view(ipa) };
    let ghost orig = v;
    let ghost mut sts: Seq<NestState> = seq![ctr.state()];
    let mut rest = v;
    let mut out: Vec<Expr> = Vec::new();
    while rest.len() > 0
        invariant
            orig == v,
            env == (NestEnv { f: f@, thr: thr as nat, ctx: ipa_view(ipa) }),
            ctr.fits(),
            out.len() + rest.len() == orig.len(),
            rest@ == orig@.subrange(out.len() as int, orig.len() as int),
            sts.len() == out.len() + 1,
            sts[0] == old(ctr).state(),
            sts.last() == ctr.state(),
            forall|i: int| 0 <= i < out.len() ==> nested_expr(#[trigger] orig[i], out[i], env, sts[i], sts[i + 1]),
        decreases rest.len(),
    {
        let ghost i = out.len() as int;
        let x = rest.remove(0);
        proof {
            assert(x == orig[i]);
            assert(decreases_to!(orig => orig[i]));
        }
        let y = nest_expr(x, f, thr, ipa, ctr);
        out.push(y);
        proof {
            sts = sts.push(ctr.state());
            assert(rest@ =~= orig@.subrange(out.len() as int, orig.len() as int));
        }
    }
    proof { lemma_nested_exprs_all(orig, out, orig.len() as int, env, sts); }
    out
}

fn nest_rfields(v: Vec<RecordLitField>, f: &str, thr: usize, ipa: Option<(&WriteSets, &str)>, ctr: &mut NestCounter) -> (r: Vec<RecordLitField>)
    requires
        old(ctr).fits(),
    ensures
        final(ctr).fits(),
        nested_rfields(v, r, v.len() as int, NestEnv { f: f@, thr: thr as nat, ctx: ipa_view(ipa) }, old(ctr).state(), final(ctr).state()),
    decreases v, v.len(),
{
    let ghost env = NestEnv { f: f@, thr: thr as nat, ctx: ipa_view(ipa) };
    let ghost orig = v;
    let ghost mut sts: Seq<NestState> = seq![ctr.state()];
    let mut rest = v;
    let mut out: Vec<RecordLitField> = Vec::new();
    while rest.len() > 0
        invariant
            orig == v,
            env == (NestEnv { f: f@, thr: thr as nat, ctx: ipa_view(ipa) }),
            ctr.fits(),
            out.len() + rest.len() == orig.len(),
            rest@ == orig@.subrange(out.len() as int, orig.len() as int),
            sts.len() == out.len() + 1,
            sts[0] == old(ctr).state(),
            sts.last() == ctr.state(),
            forall|i: int| 0 <= i < out.len() ==> rfield_nested(#[trigger] orig[i], out[i], env, sts[i], sts[i + 1]),
        decreases rest.len(),
    {
        let ghost i = out.len() as int;
        let x = rest.remove(0);
        proof {
            assert(x == orig[i]);
            assert(decreases_to!(orig => orig[i]));
        }
        let RecordLitField { name, value, is_spread, at_shorthand, span } = x;
        let v2 = match value {
            Some(y) => Some(nest_expr(y, f, thr, ipa, ctr)),
            None => None,
        };
        out.push(RecordLitField { name, value: v2, is_spread, at_shorthand, span });
        proof {
            sts = sts.push(ctr.state());
            assert(rest@ =~= orig@.subrange(out.len() as int, orig.len() as int));
        }
    }
    proof { lemma_nested_rfields_all(orig, out, orig.len() as int, env, sts); }
    out
}

fn nest_arms(v: Vec<MatchArm>, f: &str, thr: usize, ipa: Option<(&WriteSets, &str)>, ctr: &mut NestCounter) -> (r: Vec<MatchArm>)
    requires
        old(ctr).fits(),
    ensures
        final(ctr).fits(),
        nested_arms(v, r, v.len() as int, NestEnv { f: f@, thr: thr as nat, ctx: ipa_view(ipa) }, old(ctr).state(), final(ctr).state()),
    decreases v, v.len(),
{
    let ghost env = NestEnv { f: f@, thr: thr as nat, ctx: ipa_view(ipa) };
    let ghost orig = v;
    let ghost mut sts: Seq<NestState> = seq![ctr.state()];
    let mut rest = v;
    let mut out: Vec<MatchArm> = Vec::new();
    while rest.len() > 0
        invariant
            orig == v,
            env == (NestEnv { f: f@, thr: thr as nat, ctx: ipa_view(ipa) }),
            ctr.fits(),
            out.len() + rest.len() == orig.len(),
            rest@ == orig@.subrange(out.len() as int, orig.len() as int),
            sts.len() == out.len() + 1,
            sts[0] == old(ctr).state(),
            sts.last() == ctr.state(),
            forall|i: int| 0 <= i < out.len() ==> arm_nested(#[trigger] orig[i], out[i], env, sts[i], sts[i + 1]),
        decreases rest.len(),
    {
        let ghost i = out.len() as int;
        let x = rest.remove(0);
        proof {
            assert(x == orig[i]);
            assert(decreases_to!(orig => orig[i]));
        }
        let MatchArm { pattern, body } = x;
        let b2 = match body {
            MatchArmBody::Expr(y) => MatchArmBody::Expr(nest_expr(y, f, thr, ipa, ctr)),
            MatchArmBody::Block(y) => MatchArmBody::Block(nest_block(y, f, thr, ipa, ctr)),
        };
        out.push(MatchArm { pattern, body: b2 });
        proof {
            sts = sts.push(ctr.state());
            assert(rest@ =~= orig@.subrange(out.len() as int, orig.len() as int));
        }
    }
    proof { lemma_nested_arms_all(orig, out, orig.len() as int, env, sts); }
    out
}

/// Nested caching of a statement (see `nested_stmt`).
fn nest_stmt(s: Stmt, f: &str, thr: usize, ipa: Option<(&WriteSets, &str)>, ctr: &mut NestCounter) -> (r: Stmt)
    requires
        old(ctr).fits(),
    ensures
        final(ctr).fits(),
        nested_stmt(s, r, NestEnv { f: f@, thr: thr as nat, ctx: ipa_view(ipa) }, old(ctr).state(), final(ctr).state()),
    decreases s, 0int,
{
    if ctr.budget == 0 {
        return s;
    }
    match s {
        Stmt::Let(d) => {
            let LetDecl { mutable, pattern, ty, value, span } = d;
            Stmt::Let(LetDecl { mutable, pattern, ty, value: nest_expr(value, f, thr, ipa, ctr), span })
        },
        Stmt::Assign { target, value, span } => {
            let t2 = nest_expr(target, f, thr, ipa, ctr);
            proof { assert(at_state(ctr.state())); }
            let v2 = nest_expr(value, f, thr, ipa, ctr);
            Stmt::Assign { target: t2, value: v2, span }
        },
        Stmt::Expr(x) => Stmt::Expr(nest_expr(x, f, thr, ipa, ctr)),
        Stmt::Return { value, span } => Stmt::Return {
            value: match value {
                Some(x) => Some(nest_expr(x, f, thr, ipa, ctr)),
                None => None,
            },
            span,
        },
        other => other,
    }
}

fn nest_stmts(v: Vec<Stmt>, f: &str, thr: usize, ipa: Option<(&WriteSets, &str)>, ctr: &mut NestCounter) -> (r: Vec<Stmt>)
    requires
        old(ctr).fits(),
    ensures
        final(ctr).fits(),
        nested_stmts(v, r, v.len() as int, NestEnv { f: f@, thr: thr as nat, ctx: ipa_view(ipa) }, old(ctr).state(), final(ctr).state()),
    decreases v, v.len(),
{
    let ghost env = NestEnv { f: f@, thr: thr as nat, ctx: ipa_view(ipa) };
    let ghost orig = v;
    let ghost mut sts: Seq<NestState> = seq![ctr.state()];
    let mut rest = v;
    let mut out: Vec<Stmt> = Vec::new();
    while rest.len() > 0
        invariant
            orig == v,
            env == (NestEnv { f: f@, thr: thr as nat, ctx: ipa_view(ipa) }),
            ctr.fits(),
            out.len() + rest.len() == orig.len(),
            rest@ == orig@.subrange(out.len() as int, orig.len() as int),
            sts.len() == out.len() + 1,
            sts[0] == old(ctr).state(),
            sts.last() == ctr.state(),
            forall|i: int| 0 <= i < out.len() ==> nested_stmt(#[trigger] orig[i], out[i], env, sts[i], sts[i + 1]),
        decreases rest.len(),
    {
        let ghost i = out.len() as int;
        let x = rest.remove(0);
        proof {
            assert(x == orig[i]);
            assert(decreases_to!(orig => orig[i]));
        }
        let y = nest_stmt(x, f, thr, ipa, ctr);
        out.push(y);
        proof {
            sts = sts.push(ctr.state());
            assert(rest@ =~= orig@.subrange(out.len() as int, orig.len() as int));
        }
    }
    proof { lemma_nested_stmts_all(orig, out, orig.len() as int, env, sts); }
    out
}

/// Processes the blocks nested in block `b`, not `b`'s own statements (see
/// `nested_inner`).
fn nest_inner(b: Block, f: &str, thr: usize, ipa: Option<(&WriteSets, &str)>, ctr: &mut NestCounter) -> (r: Block)
    requires
        old(ctr).fits(),
    ensures
        final(ctr).fits(),
        nested_inner(b, r, NestEnv { f: f@, thr: thr as nat, ctx: ipa_view(ipa) }, old(ctr).state(), final(ctr).state()),
    decreases b, 0int,
{
    let Block { stmts, trailing, span } = b;
    let s2 = nest_stmts(stmts, f, thr, ipa, ctr);
    proof { assert(at_state(ctr.state())); }
    let t2 = match trailing {
        Some(t) => Some(Box::new(nest_expr(*t, f, thr, ipa, ctr))),
        None => None,
    };
    Block { stmts: s2, trailing: t2, span }
}

/// Processes a nested block: the blocks inside it, then its own regions
/// (see `nested_block`).
fn nest_block(b: Block, f: &str, thr: usize, ipa: Option<(&WriteSets, &str)>, ctr: &mut NestCounter) -> (r: Block)
    requires
        old(ctr).fits(),
    ensures
        final(ctr).fits(),
        nested_block(b, r, NestEnv { f: f@, thr: thr as nat, ctx: ipa_view(ipa) }, old(ctr).state(), final(ctr).state()),
    decreases b, 1int,
{
    if ctr.budget == 0 {
        return b;
    }
    let mid = nest_inner(b, f, thr, ipa, ctr);
    proof {
        assert(at_state(ctr.state()));
        assert(at_block(mid));
    }
    step_block(mid, f, thr, ipa, ctr)
}


/// The top block of a method after nested caching for one field: only the
/// blocks nested in it are processed, its own statements being split by
/// the top-level caching.
pub open spec fn nested_top(a: Block, b: Block, env: NestEnv, s0: NestState, s1: NestState) -> bool {
    if s0.budget == 0 {
        b == a && s1 == s0
    } else {
        nested_inner(a, b, env, s0, s1)
    }
}

/// Nested caching of a method's top block for the fields `fs[0..k]` in
/// turn, sharing one allocation state.
pub open spec fn nested_run(
    a: Block,
    b: Block,
    fs: Seq<Seq<char>>,
    k: int,
    thr: nat,
    ctx: Option<IpaView>,
    s0: NestState,
    s1: NestState,
) -> bool
    decreases k,
{
    if k <= 0 {
        b == a && s1 == s0
    } else {
        exists|mid: Block, m: NestState| #![trigger at_block(mid), at_state(m)]
            nested_run(a, mid, fs, k - 1, thr, ctx, s0, m) && nested_top(mid, b, NestEnv { f: fs[k - 1], thr, ctx }, m, s1)
    }
}

/// Nested caching of a method's top block for each of the fields `fs` in
/// turn (see `nested_run`).
pub fn nest_fields(b: Block, fs: &Vec<String>, thr: usize, ipa: Option<(&WriteSets, &str)>, ctr: &mut NestCounter) -> (r: Block)
    requires
        old(ctr).fits(),
    ensures
        final(ctr).fits(),
        nested_run(b, r, names_view(fs@), fs@.len() as int, thr as nat, ipa_view(ipa), old(ctr).state(), final(ctr).state()),
{
    let ghost fsv = names_view(fs@);
    let ghost s0 = ctr.state();
    let ghost b0 = b;
    let mut cur = b;
    let mut i: usize = 0;
    while i < fs.len()
        invariant
            i <= fs@.len(),
            fsv == names_view(fs@),
            ctr.fits(),
            s0 == old(ctr).state(),
            nested_run(b0, cur, fsv, i as int, thr as nat, ipa_view(ipa), s0, ctr.state()),
        decreases fs@.len() - i,
    {
        let ghost prev = cur;
        let ghost ps = ctr.state();
        proof {
            assert(at_block(prev));
            assert(at_state(ps));
            assert(fsv[i as int] == fs@[i as int]@);
        }
        if ctr.budget > 0 {
            cur = nest_inner(cur, fs[i].as_str(), thr, ipa, ctr);
        }
        i = i + 1;
    }
    cur
}

} // verus!
