//! Carrying out a caching plan on a block: the cache lets are placed at the
//! start of their regions and the reads they cover are replaced.

use vstd::prelude::*;
use crate::ast::{Block, Expr, ExprKind, LetDecl, Pattern, Span, Stmt};
use crate::field_cache::reads::self_field_of;
use crate::field_cache::rewrite::{pairs_view, replaced_expr, replaced_stmt, rewrite_expr, rewrite_stmt};
use crate::text::copy_str;

verus! {

/// One cache local to place: `let local = @field`, put in front of statement
/// `start` (behind all statements when `start` is their number), replacing
/// the reads of `@field` in statements `start..end` and, when `trailing`,
/// in the block's final expression.
pub struct LocalTarget {
    pub field: String,
    pub local: String,
    pub start: usize,
    pub end: usize,
    pub trailing: bool,
    pub span: Span,
}

/// `s` is `let l = @f` (immutable).
pub open spec fn is_cache_let(s: Stmt, f: Seq<char>, l: Seq<char>) -> bool {
    &&& s matches Stmt::Let(d)
    &&& !d.mutable
    &&& d.ty is None
    &&& d.pattern matches Pattern::Ident { name, is_mut } && name@ == l && !is_mut
    &&& self_field_of(d.value) == Some(f)
}

/// The statement `let l = @f` at the given source range.
pub fn cache_let(f: &str, l: &str, span: Span) -> (s: Stmt)
    ensures
        is_cache_let(s, f@, l@),
{
    let access = Expr {
        kind: ExprKind::Member { obj: Box::new(Expr { kind: ExprKind::SelfAccess, span }), name: copy_str(f) },
        span,
    };
    Stmt::Let(LetDecl { mutable: false, pattern: Pattern::Ident { name: copy_str(l), is_mut: false }, ty: None, value: access, span })
}

/// The `(field, local)` pairs of the first `k` targets whose statements
/// cover statement `i`.
pub open spec fn covering(ts: Seq<LocalTarget>, k: int, i: int) -> Seq<(Seq<char>, Seq<char>)>
    decreases k,
{
    if k <= 0 {
        Seq::empty()
    } else if ts[k - 1].start <= i < ts[k - 1].end {
        covering(ts, k - 1, i).push((ts[k - 1].field@, ts[k - 1].local@))
    } else {
        covering(ts, k - 1, i)
    }
}

/// The `(field, local)` pairs of the first `k` targets that cover the final
/// expression.
pub open spec fn covering_trailing(ts: Seq<LocalTarget>, k: int) -> Seq<(Seq<char>, Seq<char>)>
    decreases k,
{
    if k <= 0 {
        Seq::empty()
    } else if ts[k - 1].trailing {
        covering_trailing(ts, k - 1).push((ts[k - 1].field@, ts[k - 1].local@))
    } else {
        covering_trailing(ts, k - 1)
    }
}

/// How many of the first `k` targets start before statement `s`.
pub open spec fn starts_before(ts: Seq<LocalTarget>, k: int, s: int) -> nat
    decreases k,
{
    if k <= 0 {
        0
    } else {
        starts_before(ts, k - 1, s) + if (ts[k - 1].start as int) < s { 1nat } else { 0nat }
    }
}

/// How many of the first `k` targets start at statement `s`.
pub open spec fn starts_at(ts: Seq<LocalTarget>, k: int, s: int) -> nat
    decreases k,
{
    if k <= 0 {
        0
    } else {
        starts_at(ts, k - 1, s) + if ts[k - 1].start as int == s { 1nat } else { 0nat }
    }
}

/// Where statement `i` of the old block stands in the new one: behind the
/// read-only lets, the lets of the targets starting at or before it, and
/// the statements before it.
pub open spec fn stmt_pos(nro: int, ts: Seq<LocalTarget>, i: int) -> int {
    nro + starts_before(ts, ts.len() as int, i + 1) + i
}

/// Where the let of target `q` stands in the new block.
pub open spec fn let_pos(nro: int, ts: Seq<LocalTarget>, q: int) -> int {
    let s = ts[q].start as int;
    nro + starts_before(ts, ts.len() as int, s) + s + starts_at(ts, q, s)
}

/// `b` is block `a` after placing the read-only lets `ro` (in front of
/// everything, replacing their reads throughout) and the region lets `ts`.
pub open spec fn block_after(a: Block, b: Block, ro: Seq<LocalTarget>, ts: Seq<LocalTarget>) -> bool {
    let rv = ro.map_values(|t: LocalTarget| (t.field@, t.local@));
    let nro = ro.len() as int;
    &&& b.span == a.span
    &&& b.stmts@.len() == a.stmts@.len() + ro.len() + ts.len()
    &&& forall|p: int| 0 <= p < nro ==> is_cache_let(#[trigger] b.stmts@[p], ro[p].field@, ro[p].local@)
    &&& forall|q: int| 0 <= q < ts.len() ==> is_cache_let(#[trigger] b.stmts@[let_pos(nro, ts, q)], ts[q].field@, ts[q].local@)
    &&& forall|i: int| 0 <= i < a.stmts@.len() ==> replaced_stmt(a.stmts@[i], #[trigger] b.stmts@[stmt_pos(nro, ts, i)],
        rv + covering(ts, ts.len() as int, i))
    &&& match a.trailing {
        Some(x) => b.trailing matches Some(y) && replaced_expr(*x, *y, rv + covering_trailing(ts, ts.len() as int)),
        None => b.trailing is None,
    }
}

proof fn lemma_starts_split(ts: Seq<LocalTarget>, k: int, s: int)
    requires
        0 <= k <= ts.len(),
    ensures
        starts_before(ts, k, s + 1) == starts_before(ts, k, s) + starts_at(ts, k, s),
    decreases k,
{
    if k > 0 {
        lemma_starts_split(ts, k - 1, s);
    }
}

proof fn lemma_starts_before_zero(ts: Seq<LocalTarget>, k: int)
    requires
        0 <= k <= ts.len(),
    ensures
        starts_before(ts, k, 0) == 0,
    decreases k,
{
    if k > 0 {
        lemma_starts_before_zero(ts, k - 1);
    }
}

/// The `(field, local)` pairs for statement `i`: the read-only ones, then
/// those of the targets covering `i`.
fn pairs_for(ro: &Vec<LocalTarget>, ts: &Vec<LocalTarget>, i: usize, trailing: bool) -> (r: Vec<(String, String)>)
    ensures
        pairs_view(r@) == ro@.map_values(|t: LocalTarget| (t.field@, t.local@)) + if trailing {
            covering_trailing(ts@, ts@.len() as int)
        } else {
            covering(ts@, ts@.len() as int, i as int)
        },
{
    let mut r: Vec<(String, String)> = Vec::new();
    let mut p: usize = 0;
    while p < ro.len()
        invariant
            p <= ro@.len(),
            pairs_view(r@) == ro@.subrange(0, p as int).map_values(|t: LocalTarget| (t.field@, t.local@)),
        decreases ro@.len() - p,
    {
        let ghost r0 = r@;
        r.push((copy_str(ro[p].field.as_str()), copy_str(ro[p].local.as_str())));
        proof {
            assert(pairs_view(r@) =~= pairs_view(r0).push((ro@[p as int].field@, ro@[p as int].local@)));
            assert(ro@.subrange(0, p as int + 1).map_values(|t: LocalTarget| (t.field@, t.local@))
                =~= ro@.subrange(0, p as int).map_values(|t: LocalTarget| (t.field@, t.local@)).push((ro@[p as int].field@, ro@[p as int].local@)));
        }
        p = p + 1;
    }
    assert(ro@.subrange(0, ro@.len() as int) =~= ro@);
    let ghost base = pairs_view(r@);
    let mut q: usize = 0;
    while q < ts.len()
        invariant
            q <= ts@.len(),
            base == ro@.map_values(|t: LocalTarget| (t.field@, t.local@)),
            pairs_view(r@) == base + if trailing {
                covering_trailing(ts@, q as int)
            } else {
                covering(ts@, q as int, i as int)
            },
        decreases ts@.len() - q,
    {
        let t = &ts[q];
        let hit = if trailing { t.trailing } else { t.start <= i && i < t.end };
        if hit {
            let ghost r0 = r@;
            r.push((copy_str(t.field.as_str()), copy_str(t.local.as_str())));
            assert(pairs_view(r@) =~= pairs_view(r0).push((t.field@, t.local@)));
        }
        q = q + 1;
    }
    r
}

/// Appends the lets of the targets starting at statement `s`, in order.
fn push_group(out: &mut Vec<Stmt>, ts: &Vec<LocalTarget>, s: usize)
    ensures
        final(out)@.len() == old(out)@.len() + starts_at(ts@, ts@.len() as int, s as int),
        forall|j: int| 0 <= j < old(out)@.len() ==> final(out)@[j] == old(out)@[j],
        forall|q: int| 0 <= q < ts@.len() && ts@[q].start == s ==>
            is_cache_let(#[trigger] final(out)@[old(out)@.len() as int + starts_at(ts@, q, s as int)], ts@[q].field@, ts@[q].local@),
{
    let ghost l0: int = out@.len() as int;
    let mut q: usize = 0;
    while q < ts.len()
        invariant
            q <= ts@.len(),
            l0 == old(out)@.len(),
            out@.len() == l0 + starts_at(ts@, q as int, s as int),
            forall|j: int| 0 <= j < l0 ==> out@[j] == old(out)@[j],
            forall|q2: int| 0 <= q2 < q && ts@[q2].start == s ==>
                is_cache_let(#[trigger] out@[l0 as int + starts_at(ts@, q2, s as int)], ts@[q2].field@, ts@[q2].local@),
        decreases ts@.len() - q,
    {
        let t = &ts[q];
        let ghost o0 = out@;
        if t.start == s {
            out.push(cache_let(t.field.as_str(), t.local.as_str(), t.span));
        }
        proof {
            assert forall|q2: int| 0 <= q2 < q + 1 && ts@[q2].start == s implies
                is_cache_let(#[trigger] out@[l0 as int + starts_at(ts@, q2, s as int)], ts@[q2].field@, ts@[q2].local@) by {
                if q2 < q {
                    lemma_starts_at_mono(ts@, q2 + 1, q as int, s as int);
                    assert(out@[l0 as int + starts_at(ts@, q2, s as int)] == o0[l0 as int + starts_at(ts@, q2, s as int)]);
                }
            }
        }
        q = q + 1;
    }
}

proof fn lemma_starts_before_mono(ts: Seq<LocalTarget>, k: int, s1: int, s2: int)
    requires
        0 <= k <= ts.len(),
        s1 <= s2,
    ensures
        starts_before(ts, k, s1) <= starts_before(ts, k, s2),
    decreases k,
{
    if k > 0 {
        lemma_starts_before_mono(ts, k - 1, s1, s2);
    }
}

proof fn lemma_starts_at_le(ts: Seq<LocalTarget>, q: int, s: int)
    requires
        0 <= q <= ts.len(),
    ensures
        starts_at(ts, q, s) <= starts_at(ts, ts.len() as int, s),
    decreases ts.len() - q,
{
    if q < ts.len() {
        lemma_starts_at_le(ts, q + 1, s);
    }
}

/// A let of a target starting at or before statement `i` stands before the
/// place of statement `i`.
proof fn lemma_let_pos_bound(nro: int, ts: Seq<LocalTarget>, q: int, i: int)
    requires
        0 <= q < ts.len(),
        ts[q].start <= i,
    ensures
        let_pos(nro, ts, q) < nro + starts_before(ts, ts.len() as int, i + 1) + i,
{
    let s = ts[q].start as int;
    let tl = ts.len() as int;
    lemma_starts_split(ts, tl, s);
    lemma_starts_before_mono(ts, tl, s + 1, i + 1);
    lemma_starts_at_q(ts, q, s);
}

proof fn lemma_starts_at_q(ts: Seq<LocalTarget>, q: int, s: int)
    requires
        0 <= q < ts.len(),
        ts[q].start as int == s,
    ensures
        starts_at(ts, q, s) < starts_at(ts, ts.len() as int, s),
{
    lemma_starts_at_le(ts, q + 1, s);
}

/// Statement `j` of the old block stands before the lets of statement `i + 1`.
proof fn lemma_stmt_pos_bound(nro: int, ts: Seq<LocalTarget>, j: int, i: int)
    requires
        0 <= j <= i,
    ensures
        stmt_pos(nro, ts, j) < nro + starts_before(ts, ts.len() as int, i + 1) + i + 1,
{
    lemma_starts_before_mono(ts, ts.len() as int, j + 1, i + 1);
}

proof fn lemma_starts_at_mono(ts: Seq<LocalTarget>, a: int, b: int, s: int)
    requires
        0 <= a <= b <= ts.len(),
    ensures
        starts_at(ts, a, s) <= starts_at(ts, b, s),
    decreases b - a,
{
    if a < b {
        lemma_starts_at_mono(ts, a, b - 1, s);
    }
}

proof fn lemma_starts_before_all(ts: Seq<LocalTarget>, k: int, n: int)
    requires
        0 <= k <= ts.len(),
        forall|q: int| 0 <= q < ts.len() ==> (#[trigger] ts[q]).start <= n,
    ensures
        starts_before(ts, k, n + 1) == k,
    decreases k,
{
    if k > 0 {
        lemma_starts_before_all(ts, k - 1, n);
    }
}

/// Places the cache lets of a plan in block `a` and replaces the reads they
/// cover (see `block_after`).
pub fn apply_plan(a: Block, ro: &Vec<LocalTarget>, ts: &Vec<LocalTarget>) -> (b: Block)
    requires
        forall|q: int| 0 <= q < ts@.len() ==> (#[trigger] ts@[q]).start <= a.stmts@.len(),
    ensures
        block_after(a, b, ro@, ts@),
{
    let ghost orig = a;
    let ghost rv = ro@.map_values(|t: LocalTarget| (t.field@, t.local@));
    let ghost nro = ro@.len() as int;
    let ghost tl = ts@.len() as int;
    let Block { stmts, trailing, span } = a;
    let n = stmts.len();
    let mut out: Vec<Stmt> = Vec::new();
    let mut p: usize = 0;
    while p < ro.len()
        invariant
            p <= ro@.len(),
            out@.len() == p,
            forall|p2: int| 0 <= p2 < p ==> is_cache_let(#[trigger] out@[p2], ro@[p2].field@, ro@[p2].local@),
        decreases ro@.len() - p,
    {
        out.push(cache_let(ro[p].field.as_str(), ro[p].local.as_str(), ro[p].span));
        p = p + 1;
    }
    proof {
        lemma_starts_before_zero(ts@, tl);
        lemma_starts_split(ts@, tl, 0);
    }
    push_group(&mut out, ts, 0);
    let mut rest = stmts;
    let mut i: usize = 0;
    while i < n
        invariant
            n == orig.stmts@.len(),
            i <= n,
            rest@ == orig.stmts@.subrange(i as int, n as int),
            rv == ro@.map_values(|t: LocalTarget| (t.field@, t.local@)),
            nro == ro@.len(),
            tl == ts@.len(),
            forall|q: int| 0 <= q < ts@.len() ==> (#[trigger] ts@[q]).start <= n,
            out@.len() == nro + starts_before(ts@, tl, i as int + 1) + i,
            forall|p2: int| 0 <= p2 < nro ==> is_cache_let(#[trigger] out@[p2], ro@[p2].field@, ro@[p2].local@),
            forall|q: int| 0 <= q < tl && ts@[q].start <= i ==>
                is_cache_let(#[trigger] out@[let_pos(nro, ts@, q)], ts@[q].field@, ts@[q].local@),
            forall|j: int| 0 <= j < i ==> replaced_stmt(orig.stmts@[j], #[trigger] out@[stmt_pos(nro, ts@, j)],
                rv + covering(ts@, tl, j)),
        decreases n - i,
    {
        let x = rest.remove(0);
        assert(x == orig.stmts@[i as int]);
        let pairs = pairs_for(ro, ts, i, false);
        let y = rewrite_stmt(x, &pairs);
        let ghost l1: int = out@.len() as int;
        let ghost o0 = out@;
        out.push(y);
        proof {
            assert(l1 == stmt_pos(nro, ts@, i as int));
            assert forall|q: int| 0 <= q < tl && ts@[q].start <= i implies
                is_cache_let(#[trigger] out@[let_pos(nro, ts@, q)], ts@[q].field@, ts@[q].local@) by {
                lemma_let_pos_bound(nro, ts@, q, i as int);
                assert(out@[let_pos(nro, ts@, q)] == o0[let_pos(nro, ts@, q)]);
            }
            assert forall|j: int| 0 <= j < i implies replaced_stmt(orig.stmts@[j], #[trigger] out@[stmt_pos(nro, ts@, j)],
                rv + covering(ts@, tl, j)) by {
                lemma_stmt_pos_bound(nro, ts@, j, i as int - 1);
                lemma_starts_before_mono(ts@, tl, i as int, i as int + 1);
                assert(out@[stmt_pos(nro, ts@, j)] == o0[stmt_pos(nro, ts@, j)]);
            }
            assert forall|p2: int| 0 <= p2 < nro implies is_cache_let(#[trigger] out@[p2], ro@[p2].field@, ro@[p2].local@) by {
                assert(out@[p2] == o0[p2]);
            }
            lemma_starts_split(ts@, tl, i as int + 1);
            assert(rest@ =~= orig.stmts@.subrange(i as int + 1, n as int));
        }
        let ghost l2: int = out@.len() as int;
        let ghost o1 = out@;
        proof {
            assert forall|q: int| 0 <= q < tl && ts@[q].start <= i implies
                is_cache_let(#[trigger] o1[let_pos(nro, ts@, q)], ts@[q].field@, ts@[q].local@) by {
                lemma_let_pos_bound(nro, ts@, q, i as int);
            }
        }
        push_group(&mut out, ts, i + 1);
        proof {
            assert forall|q: int| 0 <= q < tl && ts@[q].start <= i + 1 implies
                is_cache_let(#[trigger] out@[let_pos(nro, ts@, q)], ts@[q].field@, ts@[q].local@) by {
                if ts@[q].start == i + 1 {
                    assert(let_pos(nro, ts@, q) == l2 + starts_at(ts@, q, i as int + 1));
                } else {
                    lemma_let_pos_bound(nro, ts@, q, i as int);
                    assert(out@[let_pos(nro, ts@, q)] == o1[let_pos(nro, ts@, q)]);
                }
            }
            assert forall|j: int| 0 <= j < i + 1 implies replaced_stmt(orig.stmts@[j], #[trigger] out@[stmt_pos(nro, ts@, j)],
                rv + covering(ts@, tl, j)) by {
                lemma_stmt_pos_bound(nro, ts@, j, i as int);
                assert(out@[stmt_pos(nro, ts@, j)] == o1[stmt_pos(nro, ts@, j)]);
            }
            assert forall|p2: int| 0 <= p2 < nro implies is_cache_let(#[trigger] out@[p2], ro@[p2].field@, ro@[p2].local@) by {
                assert(out@[p2] == o1[p2]);
            }
        }
        i = i + 1;
    }
    proof {
        assert forall|q: int| 0 <= q < tl implies
            is_cache_let(#[trigger] out@[let_pos(nro, ts@, q)], ts@[q].field@, ts@[q].local@) by {
            assert(ts@[q].start <= n);
            if (ts@[q].start as int) < n as int {
            } else {
                assert(ts@[q].start == n);
            }
        }
    }
    let new_trailing = match trailing {
        Some(t) => {
            let pairs = pairs_for(ro, ts, 0, true);
            Some(Box::new(rewrite_expr(*t, &pairs)))
        },
        None => None,
    };
    let b = Block { stmts: out, trailing: new_trailing, span };
    proof {
        lemma_starts_before_all(ts@, tl, n as int);
    }
    b
}

} // verus!
