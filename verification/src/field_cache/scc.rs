//! Strongly-connected components of the method call graph, leaves first.
//!
//! Each node's reachable set is found by a graph search. Two nodes share a
//! component when each reaches the other. A node reaches at least as many
//! nodes as any node it calls, and strictly more when the callee does not
//! reach it back, so emitting components by increasing size of their
//! reachable set puts every callee's component before its caller's.

use vstd::prelude::*;

verus! {

/// Every edge of `adj` points at a node of the graph.
pub open spec fn edges_in_range(adj: Seq<Vec<usize>>) -> bool {
    forall|u: int, k: int| 0 <= u < adj.len() && 0 <= k < adj[u]@.len() ==> #[trigger] adj[u]@[k] < adj.len()
}

/// The components as sequences of node numbers.
pub open spec fn scc_view(sccs: Seq<Vec<usize>>) -> Seq<Seq<usize>> {
    sccs.map_values(|c: Vec<usize>| c@)
}

/// `sccs` splits the nodes `0..n` into non-empty groups: every node occurs
/// in exactly one group, exactly once, and nothing else occurs.
pub open spec fn is_node_partition(sccs: Seq<Vec<usize>>, n: nat) -> bool {
    let flat = scc_view(sccs).flatten();
    &&& flat.no_duplicates()
    &&& forall|x: usize| flat.contains(x) <==> x < n
    &&& forall|i: int| 0 <= i < sccs.len() ==> #[trigger] sccs[i]@.len() > 0
}

/// How many entries of `s` are `true`.
pub open spec fn count_true(s: Seq<bool>) -> nat
    decreases s.len(),
{
    if s.len() == 0 {
        0
    } else {
        count_true(s.drop_last()) + if s.last() { 1nat } else { 0nat }
    }
}

pub(crate) proof fn lemma_count_true_le(s: Seq<bool>)
    ensures
        count_true(s) <= s.len(),
    decreases s.len(),
{
    if s.len() > 0 {
        lemma_count_true_le(s.drop_last());
    }
}

pub(crate) proof fn lemma_count_true_set(s: Seq<bool>, i: int)
    requires
        0 <= i < s.len(),
        !s[i],
    ensures
        count_true(s.update(i, true)) == count_true(s) + 1,
    decreases s.len(),
{
    let t = s.update(i, true);
    if i == s.len() - 1 {
        assert(t.drop_last() =~= s.drop_last());
    } else {
        lemma_count_true_set(s.drop_last(), i);
        assert(t.drop_last() =~= s.drop_last().update(i, true));
    }
}

pub(crate) proof fn lemma_count_true_all(s: Seq<bool>)
    requires
        forall|i: int| 0 <= i < s.len() ==> !s[i],
    ensures
        count_true(s) == 0,
    decreases s.len(),
{
    if s.len() > 0 {
        lemma_count_true_all(s.drop_last());
    }
}

pub(crate) proof fn lemma_push_contains<A>(s: Seq<A>, w: A)
    ensures
        forall|u: A| #[trigger] s.push(w).contains(u) <==> (s.contains(u) || u == w),
{
    assert forall|u: A| #[trigger] s.push(w).contains(u) <==> (s.contains(u) || u == w) by {
        if s.contains(u) {
            let k = choose|k: int| 0 <= k < s.len() && s[k] == u;
            assert(s.push(w)[k] == u);
        }
        if u == w {
            assert(s.push(w)[s.len() as int] == w);
        }
        if s.push(w).contains(u) && u != w {
            let k = choose|k: int| 0 <= k < s.push(w).len() && s.push(w)[k] == u;
            assert(s[k] == u);
        }
    }
}

proof fn lemma_flat_push(sccs: Seq<Vec<usize>>, c: Vec<usize>)
    ensures
        scc_view(sccs.push(c)).flatten() == scc_view(sccs).flatten() + c@,
{
    assert(scc_view(sccs.push(c)) =~= scc_view(sccs).push(c@));
    scc_view(sccs).lemma_flatten_push(c@);
}


/// `u -> v` is an edge.
pub open spec fn has_edge(adj: Seq<Vec<usize>>, u: usize, v: usize) -> bool {
    u < adj.len() && adj[u as int]@.contains(v)
}

/// Each node of `p` has an edge to the next.
pub open spec fn is_walk(adj: Seq<Vec<usize>>, p: Seq<usize>) -> bool {
    p.len() > 0 && forall|i: int| 0 <= i < p.len() - 1 ==> #[trigger] has_edge(adj, p[i], p[i + 1])
}

/// `a` reaches `b` along zero or more edges.
pub open spec fn reaches(adj: Seq<Vec<usize>>, a: usize, b: usize) -> bool {
    exists|p: Seq<usize>| #[trigger] is_walk(adj, p) && p[0] == a && p.last() == b
}

/// `a` and `b` reach each other.
pub open spec fn mutually_reach(adj: Seq<Vec<usize>>, a: usize, b: usize) -> bool {
    reaches(adj, a, b) && reaches(adj, b, a)
}

pub proof fn lemma_reaches_refl(adj: Seq<Vec<usize>>, a: usize)
    ensures
        reaches(adj, a, a),
{
    assert(is_walk(adj, seq![a]));
}

pub proof fn lemma_reaches_edge(adj: Seq<Vec<usize>>, a: usize, b: usize)
    requires
        has_edge(adj, a, b),
    ensures
        reaches(adj, a, b),
{
    let p = seq![a, b];
    assert(has_edge(adj, p[0], p[1]));
    assert(is_walk(adj, p));
}

/// Reaching is transitive.
pub proof fn lemma_reaches_trans(adj: Seq<Vec<usize>>, a: usize, b: usize, c: usize)
    requires
        reaches(adj, a, b),
        reaches(adj, b, c),
    ensures
        reaches(adj, a, c),
{
    let p = choose|p: Seq<usize>| #[trigger] is_walk(adj, p) && p[0] == a && p.last() == b;
    let q = choose|q: Seq<usize>| #[trigger] is_walk(adj, q) && q[0] == b && q.last() == c;
    let r = p + q.drop_first();
    assert forall|i: int| 0 <= i < r.len() - 1 implies #[trigger] has_edge(adj, r[i], r[i + 1]) by {
        if i < p.len() - 1 {
            assert(r[i] == p[i] && r[i + 1] == p[i + 1]);
        } else {
            let j = i - (p.len() - 1);
            assert(r[i] == q[j]);
            assert(r[i + 1] == q[j + 1]);
            assert(has_edge(adj, q[j], q[j + 1]));
        }
    }
    assert(is_walk(adj, r));
    if q.len() == 1 {
        assert(r =~= p);
    } else {
        assert(r.last() == q.last());
    }
}

/// The marked nodes are closed under edges.
pub open spec fn marks_closed(adj: Seq<Vec<usize>>, vis: Seq<bool>) -> bool {
    forall|u: usize, v: usize| u < adj.len() && v < adj.len() && vis[u as int] && #[trigger] adj[u as int]@.contains(v) ==> vis[v as int]
}

proof fn lemma_walk_marked(adj: Seq<Vec<usize>>, vis: Seq<bool>, p: Seq<usize>, i: int)
    requires
        edges_in_range(adj),
        vis.len() == adj.len(),
        marks_closed(adj, vis),
        is_walk(adj, p),
        p[0] < adj.len(),
        vis[p[0] as int],
        0 <= i < p.len(),
    ensures
        p[i] < adj.len(),
        vis[p[i] as int],
    decreases i,
{
    if i > 0 {
        lemma_walk_marked(adj, vis, p, i - 1);
        assert(has_edge(adj, p[i - 1], p[(i - 1) + 1]));
        let row = adj[p[i - 1] as int]@;
        assert(row.contains(p[i]));
        let k = choose|k: int| 0 <= k < row.len() && #[trigger] row[k] == p[i];
        assert(adj[p[i - 1] as int]@[k] < adj.len());
    }
}

/// The nodes that `s` reaches, by position.
fn reach_row(adj: &Vec<Vec<usize>>, s: usize) -> (vis: Vec<bool>)
    requires
        edges_in_range(adj@),
        s < adj@.len(),
    ensures
        vis@.len() == adj@.len(),
        forall|j: usize| j < adj@.len() ==> (vis@[j as int] <==> reaches(adj@, s, j)),
{
    let n = adj.len();
    let mut vis: Vec<bool> = Vec::new();
    let mut i: usize = 0;
    while i < n
        invariant
            vis@.len() == i,
            i <= n,
            forall|j: int| 0 <= j < i ==> !vis@[j],
        decreases n - i,
    {
        vis.push(false);
        i = i + 1;
    }
    proof {
        lemma_count_true_all(vis@);
        lemma_count_true_set(vis@, s as int);
        lemma_reaches_refl(adj@, s);
    }
    vis.set(s, true);
    let mut stack: Vec<usize> = Vec::new();
    stack.push(s);
    proof {
        lemma_count_true_le(vis@);
        assert(stack@[0] == s);
    }
    while stack.len() > 0
        invariant
            n == adj@.len(),
            edges_in_range(adj@),
            s < n,
            vis@.len() == n,
            vis@[s as int],
            stack@.no_duplicates(),
            forall|q: int| 0 <= q < stack@.len() ==> #[trigger] stack@[q] < n && vis@[stack@[q] as int],
            forall|j: int| 0 <= j < n && #[trigger] vis@[j] ==> reaches(adj@, s, j as usize),
            forall|u: usize, v: usize| u < n && v < n && vis@[u as int] && !stack@.contains(u) && #[trigger] adj@[u as int]@.contains(v) ==> vis@[v as int],
            count_true(vis@) <= n,
        decreases 2 * (n - count_true(vis@)) + stack@.len(),
    {
        let ghost c0 = count_true(vis@);
        let ghost l0 = stack@.len();
        let ghost st0 = stack@;
        let u = match stack.pop() {
            Some(x) => x,
            None => 0,
        };
        proof {
            assert(st0[st0.len() - 1] == u);
            assert(stack@ == st0.drop_last());
            if stack@.contains(u) {
                let q = choose|q: int| 0 <= q < stack@.len() && stack@[q] == u;
                assert(st0[q] == st0[st0.len() - 1]);
            }
            assert forall|q: int| 0 <= q < stack@.len() implies #[trigger] stack@[q] < n && vis@[stack@[q] as int] by {
                assert(stack@[q] == st0[q]);
            }
            assert(stack@.no_duplicates()) by {
                assert forall|x: int, y: int| 0 <= x < stack@.len() && 0 <= y < stack@.len() && x != y implies stack@[x] != stack@[y] by {
                    assert(stack@[x] == st0[x] && stack@[y] == st0[y]);
                }
            }
            assert forall|w: usize| w != u && !stack@.contains(w) implies !st0.contains(w) by {
                if st0.contains(w) {
                    let q = choose|q: int| 0 <= q < st0.len() && st0[q] == w;
                    if q < st0.len() - 1 {
                        assert(stack@[q] == w);
                    }
                }
            }
        }
        let nb = adj[u].len();
        let mut k: usize = 0;
        while k < nb
            invariant
                n == adj@.len(),
                edges_in_range(adj@),
                s < n,
                u < n,
                vis@.len() == n,
                vis@[s as int],
                vis@[u as int],
                !stack@.contains(u),
                nb == adj@[u as int]@.len(),
                k <= nb,
                stack@.no_duplicates(),
                forall|q: int| 0 <= q < k ==> vis@[#[trigger] adj@[u as int]@[q] as int],
                forall|q: int| 0 <= q < stack@.len() ==> #[trigger] stack@[q] < n && vis@[stack@[q] as int],
                forall|j: int| 0 <= j < n && #[trigger] vis@[j] ==> reaches(adj@, s, j as usize),
                forall|w: usize, v: usize| w < n && v < n && w != u && vis@[w as int] && !stack@.contains(w) && #[trigger] adj@[w as int]@.contains(v) ==> vis@[v as int],
                count_true(vis@) <= n,
                2 * (n - count_true(vis@)) + stack@.len() < 2 * (n - c0) + l0,
            decreases nb - k,
        {
            let v = adj[u][k];
            assert(adj@[u as int]@[k as int] == v);
            assert(v < n);
            if !vis[v] {
                proof {
                    assert(adj@[u as int]@.contains(v));
                    assert(has_edge(adj@, u, v));
                    lemma_reaches_edge(adj@, u, v);
                    assert(reaches(adj@, s, u as int as usize));
                    lemma_reaches_trans(adj@, s, u, v);
                    lemma_count_true_set(vis@, v as int);
                    lemma_push_contains(stack@, v);
                }
                let ghost vis0 = vis@;
                let ghost stk0 = stack@;
                vis.set(v, true);
                stack.push(v);
                proof {
                    lemma_count_true_le(vis@);
                    assert forall|q: int| 0 <= q < stack@.len() implies #[trigger] stack@[q] < n && vis@[stack@[q] as int] by {
                        if q < stk0.len() {
                            assert(stack@[q] == stk0[q]);
                        }
                    }
                    assert(stack@.no_duplicates()) by {
                        assert forall|x: int, y: int| 0 <= x < stack@.len() && 0 <= y < stack@.len() && x != y implies stack@[x] != stack@[y] by {
                            if x < stk0.len() && y < stk0.len() {
                                assert(stack@[x] == stk0[x] && stack@[y] == stk0[y]);
                            } else if x < stk0.len() {
                                assert(stack@[x] == stk0[x]);
                                assert(vis0[stk0[x] as int]);
                            } else if y < stk0.len() {
                                assert(stack@[y] == stk0[y]);
                                assert(vis0[stk0[y] as int]);
                            }
                        }
                    }
                    assert forall|j: int| 0 <= j < n && #[trigger] vis@[j] implies reaches(adj@, s, j as usize) by {
                        if j != v as int {
                            assert(vis0[j]);
                        }
                    }
                }
            }
            k = k + 1;
        }
        proof {
            assert forall|v: usize| v < n && #[trigger] adj@[u as int]@.contains(v) implies vis@[v as int] by {
                let q = choose|q: int| 0 <= q < adj@[u as int]@.len() && adj@[u as int]@[q] == v;
                assert(vis@[adj@[u as int]@[q] as int]);
            }
        }
    }
    proof {
        assert(marks_closed(adj@, vis@));
        assert forall|j: usize| j < n implies (vis@[j as int] <==> reaches(adj@, s, j)) by {
            if reaches(adj@, s, j) {
                let p = choose|p: Seq<usize>| #[trigger] is_walk(adj@, p) && p[0] == s && p.last() == j;
                lemma_walk_marked(adj@, vis@, p, p.len() - 1);
            }
        }
    }
    vis
}

proof fn lemma_append_contains(a: Seq<usize>, b: Seq<usize>, x: usize)
    ensures
        (a + b).contains(x) <==> a.contains(x) || b.contains(x),
{
    if (a + b).contains(x) {
        let k = choose|k: int| 0 <= k < (a + b).len() && (a + b)[k] == x;
        if k < a.len() {
            assert(a[k] == x);
        } else {
            assert(b[k - a.len()] == x);
        }
    }
    if a.contains(x) {
        let k = choose|k: int| 0 <= k < a.len() && a[k] == x;
        assert((a + b)[k] == x);
    }
    if b.contains(x) {
        let k = choose|k: int| 0 <= k < b.len() && b[k] == x;
        assert((a + b)[a.len() + k] == x);
    }
}

proof fn lemma_append_push_no_dup(a: Seq<usize>, b: Seq<usize>, v: usize)
    requires
        (a + b).no_duplicates(),
        !a.contains(v),
        !b.contains(v),
    ensures
        (a + b.push(v)).no_duplicates(),
{
    let c = a + b;
    assert(a + b.push(v) =~= c.push(v));
    lemma_append_contains(a, b, v);
    assert forall|i: int, j: int| 0 <= i < c.push(v).len() && 0 <= j < c.push(v).len() && i != j implies c.push(v)[i] != c.push(v)[j] by {
        if i < c.len() && j < c.len() {
            assert(c.push(v)[i] == c[i] && c.push(v)[j] == c[j]);
        } else if i < c.len() {
            assert(c.push(v)[i] == c[i]);
            assert(c.contains(c[i]));
        } else if j < c.len() {
            assert(c.push(v)[j] == c[j]);
            assert(c.contains(c[j]));
        }
    }
}

proof fn lemma_member_in_flat(sccs: Seq<Vec<usize>>, i: int, x: usize)
    requires
        0 <= i < sccs.len(),
        sccs[i]@.contains(x),
    ensures
        scc_view(sccs).flatten().contains(x),
    decreases sccs.len(),
{
    let d = sccs.drop_last();
    assert(sccs =~= d.push(sccs.last()));
    lemma_flat_push(d, sccs.last());
    if i == sccs.len() - 1 {
        lemma_append_contains(scc_view(d).flatten(), sccs.last()@, x);
    } else {
        assert(d[i] == sccs[i]);
        lemma_member_in_flat(d, i, x);
        lemma_append_contains(scc_view(d).flatten(), sccs.last()@, x);
    }
}

proof fn lemma_member_of_some(sccs: Seq<Vec<usize>>, x: usize)
    requires
        scc_view(sccs).flatten().contains(x),
    ensures
        exists|i: int| 0 <= i < sccs.len() && #[trigger] sccs[i]@.contains(x),
    decreases sccs.len(),
{
    if sccs.len() == 0 {
        assert(scc_view(sccs) =~= Seq::<Seq<usize>>::empty());
        assert(scc_view(sccs).flatten() =~= Seq::<usize>::empty());
    } else {
        let d = sccs.drop_last();
        assert(sccs =~= d.push(sccs.last()));
        lemma_flat_push(d, sccs.last());
        lemma_append_contains(scc_view(d).flatten(), sccs.last()@, x);
        if scc_view(d).flatten().contains(x) {
            lemma_member_of_some(d, x);
            let i = choose|i: int| 0 <= i < d.len() && #[trigger] d[i]@.contains(x);
            assert(sccs[i] == d[i]);
        } else {
            assert(sccs[sccs.len() - 1]@.contains(x));
        }
    }
}

proof fn lemma_count_mono(a: Seq<bool>, b: Seq<bool>)
    requires
        a.len() == b.len(),
        forall|i: int| 0 <= i < a.len() && #[trigger] b[i] ==> a[i],
    ensures
        count_true(b) <= count_true(a),
        (exists|i: int| 0 <= i < a.len() && #[trigger] a[i] && !b[i]) ==> count_true(b) < count_true(a),
    decreases a.len(),
{
    if a.len() > 0 {
        let a0 = a.drop_last();
        let b0 = b.drop_last();
        assert forall|i: int| 0 <= i < a0.len() && #[trigger] b0[i] implies a0[i] by {
            assert(b0[i] == b[i] && a0[i] == a[i]);
        }
        lemma_count_mono(a0, b0);
        if exists|i: int| 0 <= i < a.len() && #[trigger] a[i] && !b[i] {
            let i = choose|i: int| 0 <= i < a.len() && #[trigger] a[i] && !b[i];
            if i < a.len() - 1 {
                assert(a0[i] && !b0[i]);
            }
        }
    }
}

/// How many entries of `v` are `true`.
fn count_marks(v: &Vec<bool>) -> (c: usize)
    ensures
        c == count_true(v@),
{
    let mut c: usize = 0;
    let mut i: usize = 0;
    while i < v.len()
        invariant
            i <= v@.len(),
            c == count_true(v@.take(i as int)),
            c <= i,
        decreases v@.len() - i,
    {
        assert(v@.take(i as int + 1).drop_last() =~= v@.take(i as int));
        if v[i] {
            c = c + 1;
        }
        i = i + 1;
    }
    assert(v@.take(v@.len() as int) =~= v@);
    c
}

/// Row `a` of `rows` marks what `a` reaches, and `cnt[a]` counts it.
pub open spec fn rows_ok(adj: Seq<Vec<usize>>, rows: Seq<Vec<bool>>, cnt: Seq<usize>, k: int) -> bool {
    &&& rows.len() == k
    &&& cnt.len() == k
    &&& forall|a: int| 0 <= a < k ==> (#[trigger] rows[a])@.len() == adj.len()
        && cnt[a] == count_true(rows[a]@)
        && forall|j: int| 0 <= j < adj.len() ==> (#[trigger] rows[a]@[j] <==> reaches(adj, a as usize, j as usize))
}

proof fn lemma_count_pos(s: Seq<bool>, i: int)
    requires
        0 <= i < s.len(),
        s[i],
    ensures
        count_true(s) >= 1,
{
    let f = Seq::new(s.len(), |k: int| false);
    lemma_count_true_all(f);
    assert(s[i] && !f[i]);
    lemma_count_mono(s, f);
}

proof fn lemma_mutual_same_count(adj: Seq<Vec<usize>>, rows: Seq<Vec<bool>>, cnt: Seq<usize>, u: usize, v: usize)
    requires
        rows_ok(adj, rows, cnt, adj.len() as int),
        u < adj.len(),
        v < adj.len(),
        mutually_reach(adj, u, v),
    ensures
        cnt[u as int] == cnt[v as int],
{
    let ru = rows[u as int]@;
    let rv = rows[v as int]@;
    assert(rows[u as int] == rows[u as int]);
    assert(rows[v as int] == rows[v as int]);
    assert forall|i: int| 0 <= i < ru.len() && #[trigger] rv[i] implies ru[i] by {
        assert(rows[v as int]@[i] == rv[i]);
        lemma_reaches_trans(adj, u, v, i as usize);
        assert(rows[u as int]@[i] == ru[i]);
    }
    assert forall|i: int| 0 <= i < rv.len() && #[trigger] ru[i] implies rv[i] by {
        assert(rows[u as int]@[i] == ru[i]);
        lemma_reaches_trans(adj, v, u, i as usize);
        assert(rows[v as int]@[i] == rv[i]);
    }
    lemma_count_mono(ru, rv);
    lemma_count_mono(rv, ru);
}

proof fn lemma_callee_count_smaller(adj: Seq<Vec<usize>>, rows: Seq<Vec<bool>>, cnt: Seq<usize>, u: usize, w: usize)
    requires
        rows_ok(adj, rows, cnt, adj.len() as int),
        u < adj.len(),
        w < adj.len(),
        reaches(adj, u, w),
        !reaches(adj, w, u),
    ensures
        cnt[w as int] < cnt[u as int],
{
    let ru = rows[u as int]@;
    let rw = rows[w as int]@;
    assert(rows[u as int] == rows[u as int]);
    assert(rows[w as int] == rows[w as int]);
    assert forall|i: int| 0 <= i < ru.len() && #[trigger] rw[i] implies ru[i] by {
        assert(rows[w as int]@[i] == rw[i]);
        lemma_reaches_trans(adj, u, w, i as usize);
        assert(rows[u as int]@[i] == ru[i]);
    }
    lemma_reaches_refl(adj, u);
    assert(rows[u as int]@[u as int] == ru[u as int]);
    assert(rows[w as int]@[u as int] == rw[u as int]);
    assert(ru[u as int] && !rw[u as int]);
    lemma_count_mono(ru, rw);
}

/// The strongly connected components of `adj` (node `u` has the edges
/// `adj[u]`), leaves first: every node is in exactly one component; two
/// nodes share one exactly when each reaches the other; and a component
/// comes after the components of every node its nodes call.
pub fn scc_leaves_first(adj: &Vec<Vec<usize>>) -> (sccs: Vec<Vec<usize>>)
    requires
        edges_in_range(adj@),
    ensures
        is_node_partition(sccs@, adj@.len()),
        forall|i: int, u: usize, v: usize| 0 <= i < sccs@.len() && #[trigger] sccs@[i]@.contains(u) ==>
            (#[trigger] sccs@[i]@.contains(v) <==> v < adj@.len() && mutually_reach(adj@, u, v)),
        forall|i: int, j: int, u: usize, w: usize| 0 <= i < sccs@.len() && 0 <= j < sccs@.len()
            && #[trigger] sccs@[i]@.contains(u) && #[trigger] sccs@[j]@.contains(w) && has_edge(adj@, u, w) && i != j ==> j < i,
{
    let n = adj.len();
    let mut rows: Vec<Vec<bool>> = Vec::new();
    let mut cnt: Vec<usize> = Vec::new();
    let mut u: usize = 0;
    while u < n
        invariant
            n == adj@.len(),
            edges_in_range(adj@),
            u <= n,
            rows_ok(adj@, rows@, cnt@, u as int),
        decreases n - u,
    {
        let r = reach_row(adj, u);
        let c = count_marks(&r);
        let ghost r0 = rows@;
        let ghost c0 = cnt@;
        rows.push(r);
        cnt.push(c);
        proof {
            assert forall|a: int| 0 <= a < u + 1 implies (#[trigger] rows@[a])@.len() == adj@.len()
                && cnt@[a] == count_true(rows@[a]@)
                && forall|j: int| 0 <= j < adj@.len() ==> (#[trigger] rows@[a]@[j] <==> reaches(adj@, a as usize, j as usize)) by {
                if a < u {
                    assert(rows@[a] == r0[a] && cnt@[a] == c0[a]);
                }
            }
        }
        u = u + 1;
    }
    let mut assigned: Vec<bool> = Vec::new();
    let mut z: usize = 0;
    while z < n
        invariant
            z <= n,
            assigned@.len() == z,
            forall|x: int| 0 <= x < z ==> !assigned@[x],
        decreases n - z,
    {
        assigned.push(false);
        z = z + 1;
    }
    let mut sccs: Vec<Vec<usize>> = Vec::new();
    let ghost mut reps: Seq<usize> = Seq::empty();
    let ghost mut own: Seq<int> = Seq::new(n as nat, |x: int| -1);
    proof {
        assert(scc_view(sccs@) =~= Seq::<Seq<usize>>::empty());
        assert(scc_view(sccs@).flatten() =~= Seq::<usize>::empty());
    }
    proof {
        assert forall|x: int| 0 <= x < n implies cnt@[x] >= 1 by {
            assert(rows@[x] == rows@[x]);
            lemma_reaches_refl(adj@, x as usize);
            assert(rows@[x]@[x]);
            lemma_count_pos(rows@[x]@, x);
        }
    }
    let mut level: usize = 0;
    while level < n
        invariant
            n == adj@.len(),
            edges_in_range(adj@),
            level <= n,
            rows_ok(adj@, rows@, cnt@, n as int),
            assigned@.len() == n,
            own.len() == n,
            reps.len() == sccs@.len(),
            scc_view(sccs@).flatten().no_duplicates(),
            forall|x: usize| #[trigger] scc_view(sccs@).flatten().contains(x) <==> x < n && assigned@[x as int],
            forall|i: int| 0 <= i < sccs@.len() ==> #[trigger] reps[i] < n && sccs@[i]@.len() > 0
                && cnt@[reps[i] as int] <= level,
            forall|i: int, v: usize| 0 <= i < sccs@.len() ==> (#[trigger] sccs@[i]@.contains(v) <==> v < n && mutually_reach(adj@, reps[i], v)),
            forall|i: int, v: usize| 0 <= i < sccs@.len() && #[trigger] sccs@[i]@.contains(v) ==> own[v as int] == i,
            forall|i: int, j: int| 0 <= i < j < sccs@.len() ==> cnt@[#[trigger] reps[i] as int] <= cnt@[#[trigger] reps[j] as int],
            forall|x: int| 0 <= x < n && cnt@[x] <= level ==> #[trigger] assigned@[x],
        decreases n - level,
    {
        let mut u: usize = 0;
        while u < n
            invariant
                n == adj@.len(),
                edges_in_range(adj@),
                level < n,
                u <= n,
                rows_ok(adj@, rows@, cnt@, n as int),
                assigned@.len() == n,
                own.len() == n,
                reps.len() == sccs@.len(),
                scc_view(sccs@).flatten().no_duplicates(),
                forall|x: usize| #[trigger] scc_view(sccs@).flatten().contains(x) <==> x < n && assigned@[x as int],
                forall|i: int| 0 <= i < sccs@.len() ==> #[trigger] reps[i] < n && sccs@[i]@.len() > 0
                    && cnt@[reps[i] as int] <= level + 1,
                forall|i: int, v: usize| 0 <= i < sccs@.len() ==> (#[trigger] sccs@[i]@.contains(v) <==> v < n && mutually_reach(adj@, reps[i], v)),
                forall|i: int, v: usize| 0 <= i < sccs@.len() && #[trigger] sccs@[i]@.contains(v) ==> own[v as int] == i,
                forall|i: int, j: int| 0 <= i < j < sccs@.len() ==> cnt@[#[trigger] reps[i] as int] <= cnt@[#[trigger] reps[j] as int],
                forall|x: int| 0 <= x < n && cnt@[x] <= level ==> #[trigger] assigned@[x],
                forall|x: int| 0 <= x < u && cnt@[x] == level + 1 ==> #[trigger] assigned@[x],
            decreases n - u,
        {
            if !assigned[u] && cnt[u] == level + 1 {
                proof {
                    assert forall|x: usize| x < n && mutually_reach(adj@, u, x) implies !assigned@[x as int] by {
                        if assigned@[x as int] {
                            assert(scc_view(sccs@).flatten().contains(x));
                            lemma_member_of_some(sccs@, x);
                            let i = choose|i: int| 0 <= i < sccs@.len() && #[trigger] sccs@[i]@.contains(x);
                            assert(mutually_reach(adj@, reps[i], x));
                            lemma_reaches_trans(adj@, reps[i], x, u);
                            lemma_reaches_trans(adj@, u, x, reps[i]);
                            assert(sccs@[i]@.contains(u));
                            lemma_member_in_flat(sccs@, i, u);
                        }
                    }
                }
                let mut comp: Vec<usize> = Vec::new();
                let ghost flat0 = scc_view(sccs@).flatten();
                let ghost as0 = assigned@;
                let ghost own0 = own;
                let mut v: usize = 0;
                while v < n
                    invariant
                        n == adj@.len(),
                        u < n,
                        v <= n,
                        rows_ok(adj@, rows@, cnt@, n as int),
                        assigned@.len() == n,
                        own.len() == n,
                        flat0.no_duplicates(),
                        forall|x: usize| #[trigger] flat0.contains(x) <==> x < n && as0[x as int],
                        forall|x: usize| x < n && mutually_reach(adj@, u, x) ==> !as0[x as int],
                        (flat0 + comp@).no_duplicates(),
                        forall|x: usize| #[trigger] comp@.contains(x) <==> x < v && mutually_reach(adj@, u, x),
                        forall|x: int| 0 <= x < n ==> #[trigger] assigned@[x] == (as0[x] || (x < v && mutually_reach(adj@, u, x as usize))),
                        forall|x: int| 0 <= x < n ==> #[trigger] own[x] == (if x < v && mutually_reach(adj@, u, x as usize) { sccs@.len() as int } else { own0[x] }),
                    decreases n - v,
                {
                    if rows[u][v] && rows[v][u] {
                        proof {
                            assert(mutually_reach(adj@, u, v));
                            assert(!as0[v as int]);
                            assert(!flat0.contains(v));
                            assert(!comp@.contains(v));
                            lemma_push_contains(comp@, v);
                            lemma_append_push_no_dup(flat0, comp@, v);
                        }
                        comp.push(v);
                        assigned.set(v, true);
                        proof { own = own.update(v as int, sccs@.len() as int); }
                    } else {
                        proof {
                            assert(!mutually_reach(adj@, u, v));
                        }
                    }
                    v = v + 1;
                }
                proof {
                    lemma_reaches_refl(adj@, u);
                    assert(comp@.contains(u));
                }
                let ghost s0 = sccs@;
                let ghost reps0 = reps;
                proof {
                    lemma_flat_push(sccs@, comp);
                }
                sccs.push(comp);
                proof {
                    reps = reps.push(u);
                    let fl = scc_view(sccs@).flatten();
                    assert(fl == flat0 + comp@);
                    assert forall|x: usize| #[trigger] fl.contains(x) <==> x < n && assigned@[x as int] by {
                        lemma_append_contains(flat0, comp@, x);
                    }
                    assert forall|i: int| 0 <= i < sccs@.len() implies #[trigger] reps[i] < n && sccs@[i]@.len() > 0
                        && cnt@[reps[i] as int] <= level + 1 by {
                        if i < s0.len() {
                            assert(sccs@[i] == s0[i] && reps[i] == reps0[i]);
                        } else {
                            assert(comp@.contains(u));
                        }
                    }
                    assert forall|i: int, x: usize| 0 <= i < sccs@.len() implies (#[trigger] sccs@[i]@.contains(x) <==> x < n && mutually_reach(adj@, reps[i], x)) by {
                        if i < s0.len() {
                            assert(sccs@[i] == s0[i] && reps[i] == reps0[i]);
                        }
                    }
                    assert forall|i: int, x: usize| 0 <= i < sccs@.len() && #[trigger] sccs@[i]@.contains(x) implies own[x as int] == i by {
                        if i < s0.len() {
                            assert(sccs@[i] == s0[i]);
                            assert(mutually_reach(adj@, reps0[i], x));
                            lemma_member_in_flat(s0, i, x);
                            if mutually_reach(adj@, u, x) {
                                assert(!as0[x as int]);
                            }
                        }
                    }
                    assert forall|i: int, j: int| 0 <= i < j < sccs@.len() implies cnt@[#[trigger] reps[i] as int] <= cnt@[#[trigger] reps[j] as int] by {
                        if j < s0.len() {
                            assert(reps[i] == reps0[i] && reps[j] == reps0[j]);
                        } else {
                            assert(reps[i] == reps0[i]);
                            assert(cnt@[reps0[i] as int] <= level + 1);
                        }
                    }
                }
            }
            u = u + 1;
        }
        level = level + 1;
    }
    proof {
        let fl = scc_view(sccs@).flatten();
        assert forall|x: usize| fl.contains(x) <==> x < n by {
            if x < n {
                assert(rows@[x as int] == rows@[x as int]);
                lemma_count_true_le(rows@[x as int]@);
                assert(cnt@[x as int] <= level);
                assert(assigned@[x as int]);
            }
        }
        assert forall|i: int| 0 <= i < sccs@.len() implies #[trigger] sccs@[i]@.len() > 0 by {
            assert(reps[i] < n);
        }
        assert(is_node_partition(sccs@, adj@.len()));
        assert forall|i: int, a: usize, b: usize| 0 <= i < sccs@.len() && #[trigger] sccs@[i]@.contains(a) implies
            (#[trigger] sccs@[i]@.contains(b) <==> b < n && mutually_reach(adj@, a, b)) by {
            let r = reps[i];
            if sccs@[i]@.contains(b) {
                lemma_reaches_trans(adj@, a, r, b);
                lemma_reaches_trans(adj@, b, r, a);
            }
            if b < n && mutually_reach(adj@, a, b) {
                lemma_reaches_trans(adj@, r, a, b);
                lemma_reaches_trans(adj@, b, a, r);
            }
        }
        assert forall|i: int, j: int, a: usize, w: usize| 0 <= i < sccs@.len() && 0 <= j < sccs@.len()
            && #[trigger] sccs@[i]@.contains(a) && #[trigger] sccs@[j]@.contains(w) && has_edge(adj@, a, w) && i != j implies j < i by {
            lemma_reaches_edge(adj@, a, w);
            if reaches(adj@, w, a) {
                assert(sccs@[i]@.contains(w));
                assert(own[w as int] == i && own[w as int] == j);
            }
            lemma_callee_count_smaller(adj@, rows@, cnt@, a, w);
            lemma_mutual_same_count(adj@, rows@, cnt@, reps[i], a);
            lemma_mutual_same_count(adj@, rows@, cnt@, reps[j], w);
            if j > i {
                assert(cnt@[reps[i] as int] <= cnt@[reps[j] as int]);
            }
        }
    }
    sccs
}

} // verus!
