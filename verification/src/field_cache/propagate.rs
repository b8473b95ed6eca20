//! The closure of a method graph given as maps: each method gets the
//! fields of every method it reaches through calls, itself included.
//!
//! `direct` gives each method's own fields and `callees` each method's
//! callees, one entry per method. Every method that appears anywhere, as a
//! key or as a callee, is a node of the graph.

use vstd::prelude::*;
use crate::field_cache::ipa::names_view;
use crate::field_cache::scc_cache::{
    bump, compute_scc_fingerprint, fingerprint_of, slot_lookup, ScCache, callee_view, direct_view, entry_key, insert_name, insert_pair, keys_distinct, last_with, lemma_last_with_distinct,
    lemma_last_with_found, pair_view, pairs_view,
};
use crate::field_cache::scc::{count_true, lemma_count_true_all, lemma_count_true_le, lemma_count_true_set, lemma_push_contains};
use crate::field_cache::writeset::closed_under;
use crate::order::{increasing, lemma_increasing_all, lemma_pair_order, name_lt, pair_lt};
use crate::text::{copy_str, str_eq};

verus! {

/// `a` calls `b`.
pub open spec fn calls_edge(
    c: Map<(Seq<char>, Seq<char>), Set<(Seq<char>, Seq<char>)>>,
    a: (Seq<char>, Seq<char>),
    b: (Seq<char>, Seq<char>),
) -> bool {
    c.contains_key(a) && c[a].contains(b)
}

/// Each method of `p` calls the next.
pub open spec fn is_call_path(c: Map<(Seq<char>, Seq<char>), Set<(Seq<char>, Seq<char>)>>, p: Seq<(Seq<char>, Seq<char>)>) -> bool {
    p.len() > 0 && forall|i: int| 0 <= i < p.len() - 1 ==> #[trigger] calls_edge(c, p[i], p[i + 1])
}

/// `a` reaches `b` through zero or more calls.
pub open spec fn reaches_in(
    c: Map<(Seq<char>, Seq<char>), Set<(Seq<char>, Seq<char>)>>,
    a: (Seq<char>, Seq<char>),
    b: (Seq<char>, Seq<char>),
) -> bool {
    exists|p: Seq<(Seq<char>, Seq<char>)>| #[trigger] is_call_path(c, p) && p[0] == a && p.last() == b
}

/// `k` is a method of the graph: it has own fields, callees, or a caller.
pub open spec fn graph_node(
    d: Map<(Seq<char>, Seq<char>), Set<Seq<char>>>,
    c: Map<(Seq<char>, Seq<char>), Set<(Seq<char>, Seq<char>)>>,
    k: (Seq<char>, Seq<char>),
) -> bool {
    d.contains_key(k) || c.contains_key(k) || exists|a: (Seq<char>, Seq<char>)| #[trigger] calls_edge(c, a, k)
}

/// The fields of every method that `k` reaches.
pub open spec fn reached_fields(
    d: Map<(Seq<char>, Seq<char>), Set<Seq<char>>>,
    c: Map<(Seq<char>, Seq<char>), Set<(Seq<char>, Seq<char>)>>,
    k: (Seq<char>, Seq<char>),
) -> Set<Seq<char>> {
    Set::new(|x: Seq<char>| exists|m: (Seq<char>, Seq<char>)| #[trigger] reaches_in(c, k, m) && d.contains_key(m) && d[m].contains(x))
}

/// The closure: every method of the graph with the fields it reaches.
pub open spec fn propagated(
    d: Map<(Seq<char>, Seq<char>), Set<Seq<char>>>,
    c: Map<(Seq<char>, Seq<char>), Set<(Seq<char>, Seq<char>)>>,
) -> Map<(Seq<char>, Seq<char>), Set<Seq<char>>> {
    Map::new(|k: (Seq<char>, Seq<char>)| graph_node(d, c, k), |k: (Seq<char>, Seq<char>)| reached_fields(d, c, k))
}

proof fn lemma_key_present<V>(es: Seq<(String, String, V)>, k: (Seq<char>, Seq<char>))
    ensures
        (last_with(es, k, es.len() as int) >= 0) <==> exists|q: int| 0 <= q < es.len() && entry_key(#[trigger] es[q]) == k,
{
    if last_with(es, k, es.len() as int) >= 0 {
        lemma_last_with_found(es, k, es.len() as int);
        let q = last_with(es, k, es.len() as int);
        assert(entry_key(es[q]) == k);
    }
    if exists|q: int| 0 <= q < es.len() && entry_key(#[trigger] es[q]) == k {
        let q = choose|q: int| 0 <= q < es.len() && entry_key(#[trigger] es[q]) == k;
        crate::field_cache::scc_cache::lemma_last_with_present(es, k, es.len() as int, q);
    }
}

/// With one entry per method, the callees of the method of entry `q` are
/// the callees that entry lists.
proof fn lemma_callees_of(es: Seq<(String, String, Vec<(String, String)>)>, q: int)
    requires
        keys_distinct(es),
        0 <= q < es.len(),
    ensures
        callee_view(es).contains_key(entry_key(es[q])),
        callee_view(es)[entry_key(es[q])] == pairs_view(es[q].2@).to_set(),
{
    lemma_last_with_distinct(es, entry_key(es[q]), q);
}

/// The nodes of the graph, each once, in increasing order.
fn graph_nodes(
    direct: &Vec<(String, String, Vec<String>)>,
    callees: &Vec<(String, String, Vec<(String, String)>)>,
) -> (ns: Vec<(String, String)>)
    requires
        keys_distinct(callees@),
    ensures
        increasing(pairs_view(ns@), pair_lt()),
        forall|k: (Seq<char>, Seq<char>)| #[trigger] pairs_view(ns@).contains(k)
            <==> graph_node(direct_view(direct@), callee_view(callees@), k),
{
    let ghost d = direct_view(direct@);
    let ghost c = callee_view(callees@);
    let mut ns: Vec<(String, String)> = Vec::new();
    assert(pairs_view(ns@) =~= Seq::<(Seq<char>, Seq<char>)>::empty());
    let mut i: usize = 0;
    while i < direct.len()
        invariant
            i <= direct@.len(),
            increasing(pairs_view(ns@), pair_lt()),
            forall|k: (Seq<char>, Seq<char>)| #[trigger] pairs_view(ns@).contains(k)
                <==> exists|q: int| 0 <= q < i && entry_key(#[trigger] direct@[q]) == k,
        decreases direct@.len() - i,
    {
        insert_pair(&mut ns, direct[i].0.as_str(), direct[i].1.as_str());
        proof {
            assert forall|k: (Seq<char>, Seq<char>)| #[trigger] pairs_view(ns@).contains(k)
                <==> exists|q: int| 0 <= q < i + 1 && entry_key(#[trigger] direct@[q]) == k by {
                if k == entry_key(direct@[i as int]) {
                    assert(entry_key(direct@[i as int]) == k);
                }
            }
        }
        i = i + 1;
    }
    proof {
        assert forall|k: (Seq<char>, Seq<char>)| #[trigger] pairs_view(ns@).contains(k) <==> d.contains_key(k) by {
            lemma_key_present(direct@, k);
        }
    }
    let mut j: usize = 0;
    while j < callees.len()
        invariant
            j <= callees@.len(),
            d == direct_view(direct@),
            c == callee_view(callees@),
            keys_distinct(callees@),
            increasing(pairs_view(ns@), pair_lt()),
            forall|k: (Seq<char>, Seq<char>)| #[trigger] pairs_view(ns@).contains(k)
                <==> d.contains_key(k)
                    || exists|q: int| 0 <= q < j && (entry_key(#[trigger] callees@[q]) == k || pairs_view(callees@[q].2@).contains(k)),
        decreases callees@.len() - j,
    {
        let ghost ns0 = pairs_view(ns@);
        insert_pair(&mut ns, callees[j].0.as_str(), callees[j].1.as_str());
        let ghost ns1 = pairs_view(ns@);
        let cs = &callees[j].2;
        let mut t: usize = 0;
        while t < cs.len()
            invariant
                t <= cs@.len(),
                increasing(pairs_view(ns@), pair_lt()),
                forall|k: (Seq<char>, Seq<char>)| #[trigger] pairs_view(ns@).contains(k)
                    <==> ns1.contains(k) || pairs_view(cs@).take(t as int).contains(k),
            decreases cs@.len() - t,
        {
            insert_pair(&mut ns, cs[t].0.as_str(), cs[t].1.as_str());
            proof {
                let t0 = pairs_view(cs@).take(t as int);
                let t1 = pairs_view(cs@).take(t as int + 1);
                assert(t1 =~= t0.push(pair_view(cs@[t as int])));
                assert forall|k: (Seq<char>, Seq<char>)| #[trigger] t1.contains(k) <==> t0.contains(k) || k == pair_view(cs@[t as int]) by {
                    if t1.contains(k) {
                        let w = choose|w: int| 0 <= w < t1.len() && t1[w] == k;
                        if w < t {
                            assert(t0[w] == k);
                        }
                    }
                    if t0.contains(k) {
                        let w = choose|w: int| 0 <= w < t0.len() && t0[w] == k;
                        assert(t1[w] == k);
                    }
                    if k == pair_view(cs@[t as int]) {
                        assert(t1[t as int] == k);
                    }
                }
            }
            t = t + 1;
        }
        proof {
            assert(pairs_view(cs@).take(cs@.len() as int) =~= pairs_view(cs@));
            assert forall|k: (Seq<char>, Seq<char>)| #[trigger] pairs_view(ns@).contains(k)
                <==> d.contains_key(k)
                    || exists|q: int| 0 <= q < j + 1 && (entry_key(#[trigger] callees@[q]) == k || pairs_view(callees@[q].2@).contains(k)) by {
                if exists|q: int| 0 <= q < j + 1 && (entry_key(#[trigger] callees@[q]) == k || pairs_view(callees@[q].2@).contains(k)) {
                    let q = choose|q: int| 0 <= q < j + 1 && (entry_key(#[trigger] callees@[q]) == k || pairs_view(callees@[q].2@).contains(k));
                    if q < j {
                        assert(ns0.contains(k));
                    }
                }
                if ns1.contains(k) && !ns0.contains(k) {
                    assert(entry_key(callees@[j as int]) == k);
                }
                if pairs_view(cs@).contains(k) {
                    assert(pairs_view(callees@[j as int].2@).contains(k));
                }
            }
        }
        j = j + 1;
    }
    proof {
        assert forall|k: (Seq<char>, Seq<char>)| #[trigger] pairs_view(ns@).contains(k) <==> graph_node(d, c, k) by {
            lemma_key_present(callees@, k);
            if exists|q: int| 0 <= q < callees@.len() && (entry_key(#[trigger] callees@[q]) == k || pairs_view(callees@[q].2@).contains(k)) {
                let q = choose|q: int| 0 <= q < callees@.len() && (entry_key(#[trigger] callees@[q]) == k || pairs_view(callees@[q].2@).contains(k));
                if pairs_view(callees@[q].2@).contains(k) {
                    lemma_callees_of(callees@, q);
                    assert(calls_edge(c, entry_key(callees@[q]), k));
                }
            }
            if exists|a: (Seq<char>, Seq<char>)| #[trigger] calls_edge(c, a, k) {
                let a = choose|a: (Seq<char>, Seq<char>)| #[trigger] calls_edge(c, a, k);
                lemma_key_present(callees@, a);
                let q = choose|q: int| 0 <= q < callees@.len() && entry_key(#[trigger] callees@[q]) == a;
                lemma_callees_of(callees@, q);
                assert(pairs_view(callees@[q].2@).contains(k));
            }
        }
    }
    ns
}

/// The entry about the method `(a, b)`, if any.
fn find_entry<V>(es: &Vec<(String, String, V)>, a: &str, b: &str) -> (r: Option<usize>)
    ensures
        match r {
            Some(q) => q < es@.len() && entry_key(es@[q as int]) == (a@, b@),
            None => forall|q: int| 0 <= q < es@.len() ==> entry_key(#[trigger] es@[q]) != (a@, b@),
        },
{
    let mut q: usize = 0;
    while q < es.len()
        invariant
            q <= es@.len(),
            forall|w: int| 0 <= w < q ==> entry_key(#[trigger] es@[w]) != (a@, b@),
        decreases es@.len() - q,
    {
        if str_eq(es[q].0.as_str(), a) && str_eq(es[q].1.as_str(), b) {
            return Some(q);
        }
        q = q + 1;
    }
    None
}

/// The position of the method `(a, b)` among the nodes, if it is one.
fn node_index(ns: &Vec<(String, String)>, a: &str, b: &str) -> (r: Option<usize>)
    ensures
        match r {
            Some(i) => i < ns@.len() && pair_view(ns@[i as int]) == (a@, b@),
            None => !pairs_view(ns@).contains((a@, b@)),
        },
{
    let mut i: usize = 0;
    while i < ns.len()
        invariant
            i <= ns@.len(),
            forall|w: int| 0 <= w < i ==> pair_view(#[trigger] ns@[w]) != (a@, b@),
        decreases ns@.len() - i,
    {
        if str_eq(ns[i].0.as_str(), a) && str_eq(ns[i].1.as_str(), b) {
            return Some(i);
        }
        i = i + 1;
    }
    proof {
        if pairs_view(ns@).contains((a@, b@)) {
            let w = choose|w: int| 0 <= w < pairs_view(ns@).len() && pairs_view(ns@)[w] == (a@, b@);
            assert(pair_view(ns@[w]) == (a@, b@));
        }
    }
    None
}

/// No method occurs twice among the nodes.
pub open spec fn nodes_distinct(ns: Seq<(String, String)>) -> bool {
    forall|i: int, j: int| 0 <= i < ns.len() && 0 <= j < ns.len() && i != j ==> pair_view(#[trigger] ns[i]) != pair_view(#[trigger] ns[j])
}

proof fn lemma_increasing_distinct(ns: Seq<(String, String)>)
    requires
        increasing(pairs_view(ns), pair_lt()),
    ensures
        nodes_distinct(ns),
{
    lemma_pair_order();
    lemma_increasing_all(pairs_view(ns), pair_lt());
    assert forall|i: int, j: int| 0 <= i < ns.len() && 0 <= j < ns.len() && i != j implies pair_view(#[trigger] ns[i]) != pair_view(#[trigger] ns[j]) by {
        let pv = pairs_view(ns);
        if i < j {
            assert((pair_lt())(pv[i], pv[j]));
        } else {
            assert((pair_lt())(pv[j], pv[i]));
        }
    }
}

/// `adj` holds the calls between the nodes `ns`, by position.
pub open spec fn edges_match(
    adj: Seq<Vec<usize>>,
    ns: Seq<(String, String)>,
    c: Map<(Seq<char>, Seq<char>), Set<(Seq<char>, Seq<char>)>>,
) -> bool {
    &&& adj.len() == ns.len()
    &&& forall|u: int, k: int| 0 <= u < adj.len() && 0 <= k < adj[u]@.len() ==> #[trigger] adj[u]@[k] < adj.len()
    &&& forall|u: int, v: usize| 0 <= u < ns.len() && v < ns.len() ==>
        (#[trigger] adj[u]@.contains(v) <==> calls_edge(c, pair_view(ns[u]), pair_view(ns[v as int])))
}

/// The calls between the nodes, by position.
fn call_edges(
    ns: &Vec<(String, String)>,
    callees: &Vec<(String, String, Vec<(String, String)>)>,
    Ghost(d): Ghost<Map<(Seq<char>, Seq<char>), Set<Seq<char>>>>,
) -> (adj: Vec<Vec<usize>>)
    requires
        keys_distinct(callees@),
        nodes_distinct(ns@),
        forall|k: (Seq<char>, Seq<char>)| #[trigger] pairs_view(ns@).contains(k) <==> graph_node(d, callee_view(callees@), k),
    ensures
        edges_match(adj@, ns@, callee_view(callees@)),
{
    let ghost c = callee_view(callees@);
    let n = ns.len();
    let mut adj: Vec<Vec<usize>> = Vec::new();
    let mut u: usize = 0;
    while u < n
        invariant
            n == ns@.len(),
            u <= n,
            c == callee_view(callees@),
            keys_distinct(callees@),
            nodes_distinct(ns@),
            forall|k: (Seq<char>, Seq<char>)| #[trigger] pairs_view(ns@).contains(k) <==> graph_node(d, c, k),
            adj@.len() == u,
            forall|w: int, k: int| 0 <= w < u && 0 <= k < adj@[w]@.len() ==> #[trigger] adj@[w]@[k] < n,
            forall|w: int, v: usize| 0 <= w < u && v < n ==>
                (#[trigger] adj@[w]@.contains(v) <==> calls_edge(c, pair_view(ns@[w]), pair_view(ns@[v as int]))),
        decreases n - u,
    {
        let mut row: Vec<usize> = Vec::new();
        match find_entry(callees, ns[u].0.as_str(), ns[u].1.as_str()) {
            Some(q) => {
                proof { lemma_callees_of(callees@, q as int); }
                let cs = &callees[q].2;
                let mut t: usize = 0;
                while t < cs.len()
                    invariant
                        n == ns@.len(),
                        u < n,
                        q < callees@.len(),
                        cs@ == callees@[q as int].2@,
                        c == callee_view(callees@),
                        c.contains_key(pair_view(ns@[u as int])),
                        c[pair_view(ns@[u as int])] == pairs_view(cs@).to_set(),
                        nodes_distinct(ns@),
                        forall|k: (Seq<char>, Seq<char>)| #[trigger] pairs_view(ns@).contains(k) <==> graph_node(d, c, k),
                        t <= cs@.len(),
                        forall|k: int| 0 <= k < row@.len() ==> #[trigger] row@[k] < n,
                        forall|v: usize| v < n ==> (#[trigger] row@.contains(v) <==> pairs_view(cs@).take(t as int).contains(pair_view(ns@[v as int]))),
                    decreases cs@.len() - t,
                {
                    let ghost p = pair_view(cs@[t as int]);
                    proof {
                        assert(pairs_view(cs@)[t as int] == p);
                        assert(pairs_view(cs@).to_set().contains(p));
                        assert(calls_edge(c, pair_view(ns@[u as int]), p));
                        assert(graph_node(d, c, p));
                    }
                    let ghost r0 = row@;
                    match node_index(ns, cs[t].0.as_str(), cs[t].1.as_str()) {
                        Some(v) => {
                            row.push(v);
                            proof {
                                let t0 = pairs_view(cs@).take(t as int);
                                let t1 = pairs_view(cs@).take(t as int + 1);
                                assert(t1 =~= t0.push(p));
                                lemma_push_contains(r0, v);
                                lemma_push_contains(t0, p);
                                assert forall|w: usize| w < n implies (#[trigger] row@.contains(w) <==> t1.contains(pair_view(ns@[w as int]))) by {
                                    if w != v && pair_view(ns@[w as int]) == p {
                                        assert(pair_view(ns@[w as int]) == pair_view(ns@[v as int]));
                                    }
                                }
                            }
                        },
                        None => {
                            proof { assert(false); }
                        },
                    }
                    t = t + 1;
                }
                proof {
                    assert(pairs_view(cs@).take(cs@.len() as int) =~= pairs_view(cs@));
                    assert forall|v: usize| v < n implies (#[trigger] row@.contains(v) <==> calls_edge(c, pair_view(ns@[u as int]), pair_view(ns@[v as int]))) by {
                        assert(pairs_view(cs@).to_set().contains(pair_view(ns@[v as int])) <==> pairs_view(cs@).contains(pair_view(ns@[v as int])));
                    }
                }
            },
            None => {
                proof {
                    assert forall|v: usize| v < n implies (#[trigger] row@.contains(v) <==> calls_edge(c, pair_view(ns@[u as int]), pair_view(ns@[v as int]))) by {
                        lemma_key_present(callees@, pair_view(ns@[u as int]));
                    }
                }
            },
        }
        let ghost a0 = adj@;
        adj.push(row);
        proof {
            assert forall|w: int, k: int| 0 <= w < u + 1 && 0 <= k < adj@[w]@.len() implies #[trigger] adj@[w]@[k] < n by {
                if w < u {
                    assert(adj@[w] == a0[w]);
                }
            }
            assert forall|w: int, v: usize| 0 <= w < u + 1 && v < n implies
                (#[trigger] adj@[w]@.contains(v) <==> calls_edge(c, pair_view(ns@[w]), pair_view(ns@[v as int]))) by {
                if w < u {
                    assert(adj@[w] == a0[w]);
                }
            }
        }
        u = u + 1;
    }
    adj
}

proof fn lemma_reaches_self(c: Map<(Seq<char>, Seq<char>), Set<(Seq<char>, Seq<char>)>>, a: (Seq<char>, Seq<char>))
    ensures
        reaches_in(c, a, a),
{
    let p = seq![a];
    assert(is_call_path(c, p));
}

proof fn lemma_reaches_step(
    c: Map<(Seq<char>, Seq<char>), Set<(Seq<char>, Seq<char>)>>,
    a: (Seq<char>, Seq<char>),
    b: (Seq<char>, Seq<char>),
    e: (Seq<char>, Seq<char>),
)
    requires
        reaches_in(c, a, b),
        calls_edge(c, b, e),
    ensures
        reaches_in(c, a, e),
{
    let p = choose|p: Seq<(Seq<char>, Seq<char>)>| #[trigger] is_call_path(c, p) && p[0] == a && p.last() == b;
    let q = p.push(e);
    assert forall|i: int| 0 <= i < q.len() - 1 implies #[trigger] calls_edge(c, q[i], q[i + 1]) by {
        if i < p.len() - 1 {
            assert(q[i] == p[i] && q[i + 1] == p[i + 1]);
        }
    }
    assert(is_call_path(c, q));
}

/// The nodes reached from node `s`, by position.
fn reached_from(
    adj: &Vec<Vec<usize>>,
    s: usize,
    Ghost(ns): Ghost<Seq<(String, String)>>,
    Ghost(c): Ghost<Map<(Seq<char>, Seq<char>), Set<(Seq<char>, Seq<char>)>>>,
) -> (vis: Vec<bool>)
    requires
        edges_match(adj@, ns, c),
        s < adj@.len(),
    ensures
        vis@.len() == adj@.len(),
        vis@[s as int],
        forall|j: int| 0 <= j < vis@.len() && #[trigger] vis@[j] ==> reaches_in(c, pair_view(ns[s as int]), pair_view(ns[j])),
        closed_under(adj@, vis@),
{
    let n = adj.len();
    let ghost a = pair_view(ns[s as int]);
    let mut vis: Vec<bool> = Vec::new();
    let mut i: usize = 0;
    while i < n
        invariant
            vis@.len() == i,
            i <= n,
            forall|j: int| 0 <= j < i ==> !vis@[j],
        decreases n - i,
    {
        vis.push(false);
        i = i + 1;
    }
    proof {
        lemma_count_true_all(vis@);
        lemma_count_true_set(vis@, s as int);
        lemma_reaches_self(c, a);
    }
    vis.set(s, true);
    let mut stack: Vec<usize> = Vec::new();
    stack.push(s);
    proof {
        lemma_count_true_le(vis@);
        assert(stack@[0] == s);
    }
    while stack.len() > 0
        invariant
            n == adj@.len(),
            edges_match(adj@, ns, c),
            s < n,
            a == pair_view(ns[s as int]),
            vis@.len() == n,
            vis@[s as int],
            stack@.no_duplicates(),
            forall|q: int| 0 <= q < stack@.len() ==> #[trigger] stack@[q] < n && vis@[stack@[q] as int],
            forall|j: int| 0 <= j < n && #[trigger] vis@[j] ==> reaches_in(c, a, pair_view(ns[j])),
            forall|u: usize, v: usize| u < n && v < n && vis@[u as int] && !stack@.contains(u) && #[trigger] adj@[u as int]@.contains(v) ==> vis@[v as int],
            count_true(vis@) <= n,
        decreases 2 * (n - count_true(vis@)) + stack@.len(),
    {
        let ghost c0 = count_true(vis@);
        let ghost l0 = stack@.len();
        let ghost st0 = stack@;
        let u = match stack.pop() {
            Some(x) => x,
            None => 0,
        };
        proof {
            assert(st0[st0.len() - 1] == u);
            assert(stack@ == st0.drop_last());
            if stack@.contains(u) {
                let q = choose|q: int| 0 <= q < stack@.len() && stack@[q] == u;
                assert(st0[q] == st0[st0.len() - 1]);
            }
            assert forall|q: int| 0 <= q < stack@.len() implies #[trigger] stack@[q] < n && vis@[stack@[q] as int] by {
                assert(stack@[q] == st0[q]);
            }
            assert(stack@.no_duplicates()) by {
                assert forall|x: int, y: int| 0 <= x < stack@.len() && 0 <= y < stack@.len() && x != y implies stack@[x] != stack@[y] by {
                    assert(stack@[x] == st0[x] && stack@[y] == st0[y]);
                }
            }
            assert forall|w: usize| w != u && !stack@.contains(w) implies !st0.contains(w) by {
                if st0.contains(w) {
                    let q = choose|q: int| 0 <= q < st0.len() && st0[q] == w;
                    if q < st0.len() - 1 {
                        assert(stack@[q] == w);
                    }
                }
            }
        }
        let nb = adj[u].len();
        let mut k: usize = 0;
        while k < nb
            invariant
                n == adj@.len(),
                edges_match(adj@, ns, c),
                s < n,
                u < n,
                a == pair_view(ns[s as int]),
                vis@.len() == n,
                vis@[s as int],
                vis@[u as int],
                !stack@.contains(u),
                nb == adj@[u as int]@.len(),
                k <= nb,
                stack@.no_duplicates(),
                forall|q: int| 0 <= q < k ==> vis@[#[trigger] adj@[u as int]@[q] as int],
                forall|q: int| 0 <= q < stack@.len() ==> #[trigger] stack@[q] < n && vis@[stack@[q] as int],
                forall|j: int| 0 <= j < n && #[trigger] vis@[j] ==> reaches_in(c, a, pair_view(ns[j])),
                forall|w: usize, v: usize| w < n && v < n && w != u && vis@[w as int] && !stack@.contains(w) && #[trigger] adj@[w as int]@.contains(v) ==> vis@[v as int],
                count_true(vis@) <= n,
                2 * (n - count_true(vis@)) + stack@.len() < 2 * (n - c0) + l0,
            decreases nb - k,
        {
            let v = adj[u][k];
            assert(adj@[u as int]@[k as int] == v);
            if !vis[v] {
                proof {
                    assert(adj@[u as int]@.contains(v));
                    lemma_reaches_step(c, a, pair_view(ns[u as int]), pair_view(ns[v as int]));
                    lemma_count_true_set(vis@, v as int);
                    lemma_push_contains(stack@, v);
                }
                let ghost vis0 = vis@;
                let ghost stk0 = stack@;
                vis.set(v, true);
                stack.push(v);
                proof {
                    lemma_count_true_le(vis@);
                    assert forall|q: int| 0 <= q < stack@.len() implies #[trigger] stack@[q] < n && vis@[stack@[q] as int] by {
                        if q < stk0.len() {
                            assert(stack@[q] == stk0[q]);
                        }
                    }
                    assert(stack@.no_duplicates()) by {
                        assert forall|x: int, y: int| 0 <= x < stack@.len() && 0 <= y < stack@.len() && x != y implies stack@[x] != stack@[y] by {
                            if x < stk0.len() && y < stk0.len() {
                                assert(stack@[x] == stk0[x] && stack@[y] == stk0[y]);
                            } else if x < stk0.len() {
                                assert(stack@[x] == stk0[x]);
                                assert(vis0[stk0[x] as int]);
                            } else if y < stk0.len() {
                                assert(stack@[y] == stk0[y]);
                                assert(vis0[stk0[y] as int]);
                            }
                        }
                    }
                    assert forall|j: int| 0 <= j < n && #[trigger] vis@[j] implies reaches_in(c, a, pair_view(ns[j])) by {
                        if j != v as int {
                            assert(vis0[j]);
                        }
                    }
                }
            }
            k = k + 1;
        }
        proof {
            assert forall|v: usize| v < n && #[trigger] adj@[u as int]@.contains(v) implies vis@[v as int] by {
                let q = choose|q: int| 0 <= q < adj@[u as int]@.len() && adj@[u as int]@[q] == v;
                assert(vis@[adj@[u as int]@[q] as int]);
            }
        }
    }
    vis
}

proof fn lemma_path_covered(
    adj: Seq<Vec<usize>>,
    ns: Seq<(String, String)>,
    d: Map<(Seq<char>, Seq<char>), Set<Seq<char>>>,
    c: Map<(Seq<char>, Seq<char>), Set<(Seq<char>, Seq<char>)>>,
    vis: Seq<bool>,
    p: Seq<(Seq<char>, Seq<char>)>,
    i: int,
)
    requires
        edges_match(adj, ns, c),
        vis.len() == ns.len(),
        ns.len() <= usize::MAX,
        closed_under(adj, vis),
        forall|k: (Seq<char>, Seq<char>)| #[trigger] pairs_view(ns).contains(k) <==> graph_node(d, c, k),
        is_call_path(c, p),
        0 <= i < p.len(),
        exists|j: int| 0 <= j < ns.len() && vis[j] && #[trigger] pair_view(ns[j]) == p[0],
    ensures
        exists|j: int| 0 <= j < ns.len() && vis[j] && #[trigger] pair_view(ns[j]) == p[i],
    decreases i,
{
    if i > 0 {
        lemma_path_covered(adj, ns, d, c, vis, p, i - 1);
        let j = choose|j: int| 0 <= j < ns.len() && vis[j] && #[trigger] pair_view(ns[j]) == p[i - 1];
        assert(calls_edge(c, p[i - 1], p[(i - 1) + 1]));
        assert(calls_edge(c, p[i - 1], p[i]));
        assert(graph_node(d, c, p[i]));
        assert(pairs_view(ns).contains(p[i]));
        let v = choose|v: int| 0 <= v < pairs_view(ns).len() && pairs_view(ns)[v] == p[i];
        assert(pair_view(ns[v]) == p[i]);
        let ju = j as usize;
        let vu = v as usize;
        assert(adj[ju as int]@.contains(vu));
        assert(vis[vu as int]);
    }
}

/// Each method of the graph of `direct` (own fields) and `callees` (the
/// methods each one calls), with the fields of every method it reaches
/// through calls, itself included. Both lists hold one entry per method.
pub fn propagate_closure(
    direct: &Vec<(String, String, Vec<String>)>,
    callees: &Vec<(String, String, Vec<(String, String)>)>,
) -> (r: Vec<(String, String, Vec<String>)>)
    requires
        keys_distinct(direct@),
        keys_distinct(callees@),
    ensures
        keys_distinct(r@),
        direct_view(r@) == propagated(direct_view(direct@), callee_view(callees@)),
{
    let ghost d = direct_view(direct@);
    let ghost c = callee_view(callees@);
    let ns = graph_nodes(direct, callees);
    proof { lemma_increasing_distinct(ns@); }
    let adj = call_edges(&ns, callees, Ghost(d));
    let n = ns.len();
    let mut r: Vec<(String, String, Vec<String>)> = Vec::new();
    let mut u: usize = 0;
    while u < n
        invariant
            n == ns@.len(),
            u <= n,
            d == direct_view(direct@),
            c == callee_view(callees@),
            keys_distinct(direct@),
            nodes_distinct(ns@),
            edges_match(adj@, ns@, c),
            forall|k: (Seq<char>, Seq<char>)| #[trigger] pairs_view(ns@).contains(k) <==> graph_node(d, c, k),
            r@.len() == u,
            forall|q: int| 0 <= q < u ==> entry_key(#[trigger] r@[q]) == pair_view(ns@[q])
                && names_view(r@[q].2@).to_set() == reached_fields(d, c, pair_view(ns@[q])),
        decreases n - u,
    {
        let vis = reached_from(&adj, u, Ghost(ns@), Ghost(c));
        let mut pool: Vec<String> = Vec::new();
        assert(names_view(pool@) =~= Seq::<Seq<char>>::empty());
        let mut j: usize = 0;
        while j < n
            invariant
                n == ns@.len(),
                j <= n,
                vis@.len() == n,
                d == direct_view(direct@),
                keys_distinct(direct@),
                increasing(names_view(pool@), name_lt()),
                forall|x: Seq<char>| #[trigger] names_view(pool@).contains(x) <==> exists|w: int| 0 <= w < j && vis@[w]
                    && d.contains_key(#[trigger] pair_view(ns@[w])) && d[pair_view(ns@[w])].contains(x),
            decreases n - j,
        {
            let ghost p0 = names_view(pool@);
            if vis[j] {
                match find_entry(direct, ns[j].0.as_str(), ns[j].1.as_str()) {
                    Some(q) => {
                        proof { lemma_last_with_distinct(direct@, pair_view(ns@[j as int]), q as int); }
                        let fs = &direct[q].2;
                        let mut t: usize = 0;
                        while t < fs.len()
                            invariant
                                t <= fs@.len(),
                                increasing(names_view(pool@), name_lt()),
                                forall|x: Seq<char>| #[trigger] names_view(pool@).contains(x) <==> p0.contains(x) || names_view(fs@).take(t as int).contains(x),
                            decreases fs@.len() - t,
                        {
                            insert_name(&mut pool, fs[t].as_str());
                            proof {
                                let t0 = names_view(fs@).take(t as int);
                                let t1 = names_view(fs@).take(t as int + 1);
                                assert(t1 =~= t0.push(fs@[t as int]@));
                                lemma_push_contains(t0, fs@[t as int]@);
                            }
                            t = t + 1;
                        }
                        proof {
                            assert(names_view(fs@).take(fs@.len() as int) =~= names_view(fs@));
                            assert(d.contains_key(pair_view(ns@[j as int])));
                            assert(d[pair_view(ns@[j as int])] == names_view(fs@).to_set());
                            assert forall|x: Seq<char>| #[trigger] names_view(pool@).contains(x) <==> exists|w: int| 0 <= w < j + 1 && vis@[w]
                                && d.contains_key(#[trigger] pair_view(ns@[w])) && d[pair_view(ns@[w])].contains(x) by {
                                if names_view(fs@).contains(x) {
                                    assert(names_view(fs@).to_set().contains(x));
                                }
                                if exists|w: int| 0 <= w < j + 1 && vis@[w] && d.contains_key(#[trigger] pair_view(ns@[w])) && d[pair_view(ns@[w])].contains(x) {
                                    let w = choose|w: int| 0 <= w < j + 1 && vis@[w] && d.contains_key(#[trigger] pair_view(ns@[w])) && d[pair_view(ns@[w])].contains(x);
                                    if w == j {
                                        assert(names_view(fs@).to_set().contains(x));
                                    }
                                }
                            }
                        }
                    },
                    None => {
                        proof {
                            lemma_key_present(direct@, pair_view(ns@[j as int]));
                        }
                    },
                }
            }
            j = j + 1;
        }
        proof {
            let k = pair_view(ns@[u as int]);
            let pv = names_view(pool@);
            assert forall|x: Seq<char>| #[trigger] pv.to_set().contains(x) <==> reached_fields(d, c, k).contains(x) by {
                if pv.contains(x) {
                    let w = choose|w: int| 0 <= w < n && vis@[w] && d.contains_key(#[trigger] pair_view(ns@[w])) && d[pair_view(ns@[w])].contains(x);
                    assert(reaches_in(c, k, pair_view(ns@[w])));
                }
                if reached_fields(d, c, k).contains(x) {
                    let m = choose|m: (Seq<char>, Seq<char>)| #[trigger] reaches_in(c, k, m) && d.contains_key(m) && d[m].contains(x);
                    let p = choose|p: Seq<(Seq<char>, Seq<char>)>| #[trigger] is_call_path(c, p) && p[0] == k && p.last() == m;
                    assert(pair_view(ns@[u as int]) == p[0]);
                    lemma_path_covered(adj@, ns@, d, c, vis@, p, p.len() - 1);
                    let w = choose|w: int| 0 <= w < ns@.len() && vis@[w] && #[trigger] pair_view(ns@[w]) == p[p.len() - 1];
                    assert(pv.contains(x));
                }
            }
            assert(pv.to_set() =~= reached_fields(d, c, k));
        }
        let ghost r0 = r@;
        r.push((copy_str(ns[u].0.as_str()), copy_str(ns[u].1.as_str()), pool));
        proof {
            assert forall|q: int| 0 <= q < u + 1 implies entry_key(#[trigger] r@[q]) == pair_view(ns@[q])
                && names_view(r@[q].2@).to_set() == reached_fields(d, c, pair_view(ns@[q])) by {
                if q < u {
                    assert(r@[q] == r0[q]);
                }
            }
        }
        u = u + 1;
    }
    proof {
        assert(keys_distinct(r@)) by {
            assert forall|i: int, j: int| 0 <= i < j < r@.len() implies entry_key(#[trigger] r@[i]) != entry_key(#[trigger] r@[j]) by {
                assert(pair_view(ns@[i]) != pair_view(ns@[j]));
            }
        }
        let target = propagated(d, c);
        assert forall|k: (Seq<char>, Seq<char>)| #![trigger direct_view(r@).dom().contains(k)]
            direct_view(r@).dom().contains(k) == target.dom().contains(k) by {
            lemma_key_present(r@, k);
            if pairs_view(ns@).contains(k) {
                let w = choose|w: int| 0 <= w < pairs_view(ns@).len() && pairs_view(ns@)[w] == k;
                assert(entry_key(r@[w]) == k);
            }
            if exists|q: int| 0 <= q < r@.len() && entry_key(#[trigger] r@[q]) == k {
                let q = choose|q: int| 0 <= q < r@.len() && entry_key(#[trigger] r@[q]) == k;
                assert(pairs_view(ns@)[q] == k);
            }
        }
        assert forall|k: (Seq<char>, Seq<char>)| direct_view(r@).dom().contains(k) implies direct_view(r@)[k] == target[k] by {
            lemma_key_present(r@, k);
            let q = choose|q: int| 0 <= q < r@.len() && entry_key(#[trigger] r@[q]) == k;
            lemma_last_with_distinct(r@, k, q);
        }
        assert(direct_view(r@) =~= target);
    }
    r
}

/// The slot holds, if anything, the closure of a graph with the slot's
/// fingerprint.
pub open spec fn closure_slot(slot: Option<(u64, Map<(Seq<char>, Seq<char>), Set<Seq<char>>>)>) -> bool {
    match slot {
        Some((f, m)) => exists|d: Map<(Seq<char>, Seq<char>), Set<Seq<char>>>, c: Map<(Seq<char>, Seq<char>), Set<(Seq<char>, Seq<char>)>>|
            #[trigger] fingerprint_of(d, c) == f && m == propagated(d, c),
        None => true,
    }
}

/// Replaces the own fields of each method by its closure, through the
/// one-slot `cache` when `enabled`: a graph with the cached fingerprint gets
/// the cached closure (a hit); any other gets its closure computed, which
/// then takes the slot (a miss). When not `enabled` the closure is
/// computed and the cache is left alone.
pub fn propagate_closure_cached(
    direct: &mut Vec<(String, String, Vec<String>)>,
    callees: &Vec<(String, String, Vec<(String, String)>)>,
    cache: &mut ScCache,
    enabled: bool,
)
    requires
        keys_distinct(old(direct)@),
        keys_distinct(callees@),
    ensures
        !enabled ==> direct_view(final(direct)@) == propagated(direct_view(old(direct)@), callee_view(callees@))
            && *final(cache) == *old(cache),
        enabled ==> final(cache).slot() == Some((fingerprint_of(direct_view(old(direct)@), callee_view(callees@)), direct_view(final(direct)@))),
        closure_slot(old(cache).slot()) ==> closure_slot(final(cache).slot())
            && exists|d: Map<(Seq<char>, Seq<char>), Set<Seq<char>>>, c: Map<(Seq<char>, Seq<char>), Set<(Seq<char>, Seq<char>)>>|
                #[trigger] fingerprint_of(d, c) == fingerprint_of(direct_view(old(direct)@), callee_view(callees@))
                && direct_view(final(direct)@) == propagated(d, c),
        enabled ==> match slot_lookup(old(cache).slot(), fingerprint_of(direct_view(old(direct)@), callee_view(callees@))) {
            Some(m) => direct_view(final(direct)@) == m
                && final(cache).hit_count() == bump(old(cache).hit_count())
                && final(cache).miss_count() == old(cache).miss_count(),
            None => direct_view(final(direct)@) == propagated(direct_view(old(direct)@), callee_view(callees@))
                && final(cache).hit_count() == old(cache).hit_count()
                && final(cache).miss_count() == bump(old(cache).miss_count()),
        },
{
    let ghost dv = direct_view(direct@);
    let ghost cv = callee_view(callees@);
    if !enabled {
        let r = propagate_closure(direct, callees);
        *direct = r;
        assert(fingerprint_of(dv, cv) == fingerprint_of(dv, cv));
        return;
    }
    let fingerprint = compute_scc_fingerprint(direct, callees);
    match cache.lookup(fingerprint) {
        Some(r) => {
            *direct = r;
        },
        None => {
            let r = propagate_closure(direct, callees);
            cache.store(fingerprint, &r);
            *direct = r;
            assert(fingerprint_of(dv, cv) == fingerprint_of(dv, cv));
        },
    }
}

proof fn lemma_reaches_prepend(
    c: Map<(Seq<char>, Seq<char>), Set<(Seq<char>, Seq<char>)>>,
    a: (Seq<char>, Seq<char>),
    b: (Seq<char>, Seq<char>),
    m: (Seq<char>, Seq<char>),
)
    requires
        calls_edge(c, a, b),
        reaches_in(c, b, m),
    ensures
        reaches_in(c, a, m),
{
    let p = choose|p: Seq<(Seq<char>, Seq<char>)>| #[trigger] is_call_path(c, p) && p[0] == b && p.last() == m;
    let q = seq![a] + p;
    assert forall|i: int| 0 <= i < q.len() - 1 implies #[trigger] calls_edge(c, q[i], q[i + 1]) by {
        if i == 0 {
            assert(q[0] == a && q[1] == p[0]);
        } else {
            assert(q[i] == p[i - 1] && q[i + 1] == p[(i - 1) + 1]);
            assert(calls_edge(c, p[i - 1], p[(i - 1) + 1]));
        }
    }
    assert(is_call_path(c, q));
    assert(q.last() == p.last());
}

/// The closure of a method holds its own fields.
pub proof fn lemma_closure_has_own_fields(
    d: Map<(Seq<char>, Seq<char>), Set<Seq<char>>>,
    c: Map<(Seq<char>, Seq<char>), Set<(Seq<char>, Seq<char>)>>,
    k: (Seq<char>, Seq<char>),
)
    requires
        d.contains_key(k),
    ensures
        propagated(d, c).contains_key(k),
        d[k].subset_of(propagated(d, c)[k]),
{
    lemma_reaches_self(c, k);
}

/// The closure of a caller holds the closure of each method it calls.
pub proof fn lemma_closure_has_callee_closure(
    d: Map<(Seq<char>, Seq<char>), Set<Seq<char>>>,
    c: Map<(Seq<char>, Seq<char>), Set<(Seq<char>, Seq<char>)>>,
    a: (Seq<char>, Seq<char>),
    b: (Seq<char>, Seq<char>),
)
    requires
        calls_edge(c, a, b),
    ensures
        propagated(d, c).contains_key(a),
        propagated(d, c).contains_key(b),
        propagated(d, c)[b].subset_of(propagated(d, c)[a]),
{
    assert(graph_node(d, c, b));
    assert forall|x: Seq<char>| propagated(d, c)[b].contains(x) implies propagated(d, c)[a].contains(x) by {
        let m = choose|m: (Seq<char>, Seq<char>)| #[trigger] reaches_in(c, b, m) && d.contains_key(m) && d[m].contains(x);
        lemma_reaches_prepend(c, a, b, m);
    }
}

} // verus!
