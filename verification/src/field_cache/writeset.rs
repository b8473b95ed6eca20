//! Which receiver fields each method may write: the fields it assigns
//! itself and, transitively, those of the receiver methods it calls.

use vstd::prelude::*;
use crate::ast::{FnBody, FnDecl, Item, Module, PeerFile, ReceiverKind};
use crate::field_cache::collect::{
    add_names, assigns_block, assigns_collect_block, assigns_collect_expr, assigns_expr, has_name,
    self_calls_block, self_calls_collect_block, self_calls_collect_expr, self_calls_expr,
};
use crate::field_cache::frame::{
    field_read_block, field_read_collect_block, field_read_collect_expr, field_read_expr, read_call_block,
    read_call_collect_block, read_call_collect_expr, read_call_expr,
};
use crate::field_cache::ipa::{lookup_fields, names_view, MethodFields, WriteSets};
use crate::field_cache::scc::{count_true, lemma_count_true_all, lemma_count_true_le, lemma_count_true_set, lemma_push_contains};
use crate::text::{copy_str, str_eq};

verus! {

/// The method has a receiver and takes it as an instance (`@`).
pub open spec fn is_instance_method(d: FnDecl) -> bool {
    d.receiver matches Some(r) && r.kind == ReceiverKind::Instance
}

/// The receiver type of a method (empty for free functions).
pub open spec fn owner_of(d: FnDecl) -> Seq<char> {
    match d.receiver {
        Some(r) => r.owner_type@,
        None => Seq::empty(),
    }
}

/// The instance methods among `items`, in order.
pub open spec fn instance_methods(items: Seq<Item>) -> Seq<FnDecl>
    decreases items.len(),
{
    if items.len() == 0 {
        Seq::empty()
    } else {
        instance_methods(items.drop_last()) + match items.last() {
            Item::Fn(d) => if is_instance_method(d) { seq![d] } else { Seq::empty() },
            _ => Seq::empty(),
        }
    }
}

/// The instance methods of the peer files `pfs`, file by file.
pub open spec fn peer_methods(pfs: Seq<PeerFile>) -> Seq<FnDecl>
    decreases pfs.len(),
{
    if pfs.len() == 0 {
        Seq::empty()
    } else {
        peer_methods(pfs.drop_last()) + instance_methods(pfs.last().items_here@)
    }
}

/// The instance methods of a module: its own items, then its peer files.
pub open spec fn module_methods(m: Module) -> Seq<FnDecl> {
    instance_methods(m.items@) + peer_methods(m.peer_files@)
}

/// Which of a method's own field accesses a registry is about.
#[derive(Clone, Copy, Debug, PartialEq, Eq, Structural)]
pub enum FieldAccess {
    /// Fields the body assigns; calls as the write walk sees them.
    Write,
    /// Fields the body reads; calls as the read walk sees them.
    Read,
}

/// The body accesses the receiver field `x` the way `acc` says.
pub open spec fn body_direct(acc: FieldAccess, b: FnBody, x: Seq<char>) -> bool {
    match acc {
        FieldAccess::Write => body_assigns(b, x),
        FieldAccess::Read => body_reads(b, x),
    }
}

/// The body calls the receiver method `x`, as the walk of `acc` sees calls.
pub open spec fn body_calls(acc: FieldAccess, b: FnBody, x: Seq<char>) -> bool {
    match acc {
        FieldAccess::Write => body_self_calls(b, x),
        FieldAccess::Read => body_read_calls(b, x),
    }
}

/// The body reads the receiver field `x`.
pub open spec fn body_reads(b: FnBody, x: Seq<char>) -> bool {
    match b {
        FnBody::Block(bl) => field_read_block(bl, x),
        FnBody::Expr(e) => field_read_expr(e, x),
        FnBody::External => false,
    }
}

/// The body calls the receiver method `x` (read walk).
pub open spec fn body_read_calls(b: FnBody, x: Seq<char>) -> bool {
    match b {
        FnBody::Block(bl) => read_call_block(bl, x),
        FnBody::Expr(e) => read_call_expr(e, x),
        FnBody::External => false,
    }
}

/// The body assigns the receiver field `x`.
pub open spec fn body_assigns(b: FnBody, x: Seq<char>) -> bool {
    match b {
        FnBody::Block(bl) => assigns_block(bl, x),
        FnBody::Expr(e) => assigns_expr(e, x),
        FnBody::External => false,
    }
}

/// The body calls the receiver method `x`.
pub open spec fn body_self_calls(b: FnBody, x: Seq<char>) -> bool {
    match b {
        FnBody::Block(bl) => self_calls_block(bl, x),
        FnBody::Expr(e) => self_calls_expr(e, x),
        FnBody::External => false,
    }
}

/// The declaration of `t.m` among the first `k` of `ds` (the last one wins).
pub open spec fn decl_for(ds: Seq<FnDecl>, k: int, t: Seq<char>, m: Seq<char>) -> Option<FnDecl>
    decreases k,
{
    if k <= 0 || k > ds.len() {
        None
    } else if owner_of(ds[k - 1]) == t && ds[k - 1].name@ == m {
        Some(ds[k - 1])
    } else {
        decl_for(ds, k - 1, t, m)
    }
}

pub open spec fn decl_of(ds: Seq<FnDecl>, t: Seq<char>, m: Seq<char>) -> Option<FnDecl> {
    decl_for(ds, ds.len() as int, t, m)
}

/// `t.m` calls `t.c` itself.
pub open spec fn calls_directly(acc: FieldAccess, ds: Seq<FnDecl>, t: Seq<char>, m: Seq<char>, c: Seq<char>) -> bool {
    match decl_of(ds, t, m) {
        Some(d) => body_calls(acc, d.body, c),
        None => false,
    }
}

/// `t.m` assigns the field `x` itself.
pub open spec fn writes_directly(acc: FieldAccess, ds: Seq<FnDecl>, t: Seq<char>, m: Seq<char>, x: Seq<char>) -> bool {
    match decl_of(ds, t, m) {
        Some(d) => body_direct(acc, d.body, x),
        None => false,
    }
}

/// `p` is a chain of direct calls among the methods of `t`.
pub open spec fn is_call_chain(acc: FieldAccess, ds: Seq<FnDecl>, t: Seq<char>, p: Seq<Seq<char>>) -> bool {
    p.len() >= 1 && forall|i: int| 0 <= i < p.len() - 1 ==> calls_directly(acc, ds, t, #[trigger] p[i], p[i + 1])
}

/// A chain of calls leads from `t.a` to `t.b` (possibly the empty one).
pub open spec fn reaches(acc: FieldAccess, ds: Seq<FnDecl>, t: Seq<char>, a: Seq<char>, b: Seq<char>) -> bool {
    exists|p: Seq<Seq<char>>| #[trigger] is_call_chain(acc, ds, t, p) && p[0] == a && p.last() == b
}

/// `t.m` writes `x` itself or through a chain of receiver-method calls.
pub open spec fn writes_transitively(acc: FieldAccess, ds: Seq<FnDecl>, t: Seq<char>, m: Seq<char>, x: Seq<char>) -> bool {
    exists|b: Seq<char>| #[trigger] reaches(acc, ds, t, m, b) && writes_directly(acc, ds, t, b, x)
}

/// `t.m` is declared, or called by a method of `t`.
pub open spec fn is_known_method(acc: FieldAccess, ds: Seq<FnDecl>, t: Seq<char>, m: Seq<char>) -> bool {
    decl_of(ds, t, m) is Some || exists|i: int|
        0 <= i < ds.len() && owner_of(ds[i]) == t && #[trigger] body_calls(acc, ds[i].body, m)
}

proof fn lemma_chain_push(acc: FieldAccess, ds: Seq<FnDecl>, t: Seq<char>, p: Seq<Seq<char>>, c: Seq<char>)
    requires
        is_call_chain(acc, ds, t, p),
        calls_directly(acc, ds, t, p.last(), c),
    ensures
        is_call_chain(acc, ds, t, p.push(c)),
{
    let q = p.push(c);
    assert forall|i: int| 0 <= i < q.len() - 1 implies calls_directly(acc, ds, t, #[trigger] q[i], q[i + 1]) by {
        if i < p.len() - 1 {
            assert(q[i] == p[i] && q[i + 1] == p[i + 1]);
        } else {
            assert(q[i] == p.last() && q[i + 1] == c);
        }
    }
}

proof fn lemma_chain_prepend(acc: FieldAccess, ds: Seq<FnDecl>, t: Seq<char>, a: Seq<char>, p: Seq<Seq<char>>)
    requires
        is_call_chain(acc, ds, t, p),
        calls_directly(acc, ds, t, a, p[0]),
    ensures
        is_call_chain(acc, ds, t, seq![a] + p),
        (seq![a] + p)[0] == a,
        (seq![a] + p).last() == p.last(),
{
    let q = seq![a] + p;
    assert forall|i: int| 0 <= i < q.len() - 1 implies calls_directly(acc, ds, t, #[trigger] q[i], q[i + 1]) by {
        if i == 0 {
            assert(q[0] == a && q[1] == p[0]);
        } else {
            assert(q[i] == p[i - 1] && q[i + 1] == p[i]);
        }
    }
}

/// Every method reaches itself.
proof fn lemma_reaches_self(acc: FieldAccess, ds: Seq<FnDecl>, t: Seq<char>, m: Seq<char>)
    ensures
        reaches(acc, ds, t, m, m),
{
    let p = seq![m];
    assert(is_call_chain(acc, ds, t, p));
}

proof fn lemma_reaches_step(acc: FieldAccess, ds: Seq<FnDecl>, t: Seq<char>, a: Seq<char>, b: Seq<char>, c: Seq<char>)
    requires
        reaches(acc, ds, t, a, b),
        calls_directly(acc, ds, t, b, c),
    ensures
        reaches(acc, ds, t, a, c),
{
    let p = choose|p: Seq<Seq<char>>| #[trigger] is_call_chain(acc, ds, t, p) && p[0] == a && p.last() == b;
    lemma_chain_push(acc, ds, t, p, c);
    assert(p.push(c)[0] == a);
}

/// A method writes, through its calls, every field that a receiver method
/// it calls writes through its own calls.
pub proof fn lemma_callee_writes_included(acc: FieldAccess, ds: Seq<FnDecl>, t: Seq<char>, m: Seq<char>, c: Seq<char>, x: Seq<char>)
    requires
        calls_directly(acc, ds, t, m, c),
        writes_transitively(acc, ds, t, c, x),
    ensures
        writes_transitively(acc, ds, t, m, x),
{
    let b = choose|b: Seq<char>| #[trigger] reaches(acc, ds, t, c, b) && writes_directly(acc, ds, t, b, x);
    let p = choose|p: Seq<Seq<char>>| #[trigger] is_call_chain(acc, ds, t, p) && p[0] == c && p.last() == b;
    lemma_chain_prepend(acc, ds, t, m, p);
    assert(reaches(acc, ds, t, m, b));
}

/// Every field that a method assigns itself is in its transitive write set.
pub proof fn lemma_direct_writes_included(acc: FieldAccess, ds: Seq<FnDecl>, t: Seq<char>, m: Seq<char>, x: Seq<char>)
    requires
        writes_directly(acc, ds, t, m, x),
    ensures
        writes_transitively(acc, ds, t, m, x),
{
    lemma_reaches_self(acc, ds, t, m);
}

proof fn lemma_decl_for_found(ds: Seq<FnDecl>, k: int, t: Seq<char>, m: Seq<char>)
    requires
        decl_for(ds, k, t, m) is Some,
    ensures
        exists|i: int| 0 <= i < k && i < ds.len() && ds[i] == decl_for(ds, k, t, m).unwrap() && owner_of(ds[i]) == t && ds[i].name@ == m,
    decreases k,
{
    if !(owner_of(ds[k - 1]) == t && ds[k - 1].name@ == m) {
        lemma_decl_for_found(ds, k - 1, t, m);
    }
}

proof fn lemma_decl_for_none(ds: Seq<FnDecl>, k: int, t: Seq<char>, m: Seq<char>, i: int)
    requires
        decl_for(ds, k, t, m) is None,
        0 <= i < k <= ds.len(),
    ensures
        !(owner_of(ds[i]) == t && ds[i].name@ == m),
    decreases k,
{
    if i < k - 1 {
        lemma_decl_for_none(ds, k - 1, t, m, i);
    }
}

proof fn lemma_decl_for_some(ds: Seq<FnDecl>, k: int, i: int)
    requires
        0 <= i < k <= ds.len(),
    ensures
        decl_for(ds, k, owner_of(ds[i]), ds[i].name@) is Some,
    decreases k,
{
    if i < k - 1 {
        lemma_decl_for_some(ds, k - 1, i);
    }
}

/// What one method does to its receiver by itself: the fields it assigns
/// and the receiver methods it calls.
pub struct MethodFacts {
    pub owner_type: String,
    pub method: String,
    pub writes: Vec<String>,
    pub calls: Vec<String>,
}

/// `f` records exactly what the declaration `d` does by itself.
pub open spec fn facts_of(acc: FieldAccess, f: MethodFacts, d: FnDecl) -> bool {
    &&& f.owner_type@ == owner_of(d)
    &&& f.method@ == d.name@
    &&& forall|x: Seq<char>| #[trigger] has_name(f.writes@, x) <==> body_direct(acc, d.body, x)
    &&& forall|x: Seq<char>| #[trigger] has_name(f.calls@, x) <==> body_calls(acc, d.body, x)
}

proof fn lemma_has_name_empty()
    ensures
        forall|x: Seq<char>| !#[trigger] has_name(Seq::<String>::empty(), x),
{
    assert(names_view(Seq::<String>::empty()) =~= Seq::<Seq<char>>::empty());
}

/// The direct facts of one instance method.
pub fn method_facts(acc: FieldAccess, d: &FnDecl) -> (f: MethodFacts)
    requires
        is_instance_method(*d),
    ensures
        facts_of(acc, f, *d),
{
    proof { lemma_has_name_empty(); }
    let owner = match &d.receiver {
        Some(r) => copy_str(r.owner_type.as_str()),
        None => String::new(),
    };
    let mut writes: Vec<String> = Vec::new();
    let mut calls: Vec<String> = Vec::new();
    match acc {
        FieldAccess::Write => match &d.body {
            FnBody::Block(b) => {
                assigns_collect_block(b, &mut writes);
                self_calls_collect_block(b, &mut calls);
            },
            FnBody::Expr(e) => {
                assigns_collect_expr(e, &mut writes);
                self_calls_collect_expr(e, &mut calls);
            },
            FnBody::External => {},
        },
        FieldAccess::Read => match &d.body {
            FnBody::Block(b) => {
                field_read_collect_block(b, &mut writes);
                read_call_collect_block(b, &mut calls);
            },
            FnBody::Expr(e) => {
                field_read_collect_expr(e, &mut writes);
                read_call_collect_expr(e, &mut calls);
            },
            FnBody::External => {},
        },
    }
    MethodFacts { owner_type: owner, method: copy_str(d.name.as_str()), writes, calls }
}

/// Appends the facts of the instance methods among `items`, in order.
pub fn collect_facts(acc: FieldAccess, items: &Vec<Item>, out: &mut Vec<MethodFacts>)
    ensures
        final(out)@.len() == old(out)@.len() + instance_methods(items@).len(),
        forall|i: int| 0 <= i < old(out)@.len() ==> final(out)@[i] == old(out)@[i],
        forall|i: int| 0 <= i < instance_methods(items@).len()
            ==> facts_of(acc, #[trigger] final(out)@[old(out)@.len() + i], instance_methods(items@)[i]),
{
    let ghost o = old(out)@;
    let mut j: usize = 0;
    while j < items.len()
        invariant
            j <= items.len(),
            o == old(out)@,
            out@.len() == o.len() + instance_methods(items@.subrange(0, j as int)).len(),
            forall|i: int| 0 <= i < o.len() ==> out@[i] == o[i],
            forall|i: int| 0 <= i < instance_methods(items@.subrange(0, j as int)).len()
                ==> facts_of(acc, #[trigger] out@[o.len() + i], instance_methods(items@.subrange(0, j as int))[i]),
        decreases items.len() - j,
    {
        let ghost before = instance_methods(items@.subrange(0, j as int));
        assert(items@.subrange(0, j as int + 1).drop_last() =~= items@.subrange(0, j as int));
        assert(items@.subrange(0, j as int + 1).last() == items@[j as int]);
        match &items[j] {
            Item::Fn(d) => {
                let inst = match &d.receiver {
                    Some(r) => match r.kind {
                        ReceiverKind::Instance => true,
                        ReceiverKind::Static => false,
                    },
                    None => false,
                };
                if inst {
                    let f = method_facts(acc, d);
                    out.push(f);
                    assert(instance_methods(items@.subrange(0, j as int + 1)) =~= before.push(*d));
                } else {
                    assert(instance_methods(items@.subrange(0, j as int + 1)) =~= before);
                }
            },
            _ => {
                assert(instance_methods(items@.subrange(0, j as int + 1)) =~= before);
            },
        }
        j = j + 1;
    }
    assert(items@.subrange(0, items@.len() as int) =~= items@);
}

/// The direct facts of every instance method of a module, in the order of
/// `module_methods`.
pub fn module_facts(acc: FieldAccess, m: &Module) -> (fs: Vec<MethodFacts>)
    ensures
        fs@.len() == module_methods(*m).len(),
        forall|i: int| 0 <= i < fs@.len() ==> facts_of(acc, #[trigger] fs@[i], module_methods(*m)[i]),
{
    let mut fs: Vec<MethodFacts> = Vec::new();
    collect_facts(acc, &m.items, &mut fs);
    let ghost own = instance_methods(m.items@);
    assert(peer_methods(m.peer_files@.subrange(0, 0)) =~= Seq::<FnDecl>::empty());
    assert(own + Seq::<FnDecl>::empty() =~= own);
    assert forall|i: int| 0 <= i < fs@.len() implies facts_of(acc, #[trigger] fs@[i], own[i]) by {
        assert(fs@[0 + i] == fs@[i]);
    }
    let mut p: usize = 0;
    while p < m.peer_files.len()
        invariant
            p <= m.peer_files.len(),
            own == instance_methods(m.items@),
            fs@.len() == (own + peer_methods(m.peer_files@.subrange(0, p as int))).len(),
            forall|i: int| 0 <= i < fs@.len()
                ==> facts_of(acc, #[trigger] fs@[i], (own + peer_methods(m.peer_files@.subrange(0, p as int)))[i]),
        decreases m.peer_files.len() - p,
    {
        let ghost before = own + peer_methods(m.peer_files@.subrange(0, p as int));
        let ghost more = instance_methods(m.peer_files@[p as int].items_here@);
        assert(m.peer_files@.subrange(0, p as int + 1).drop_last() =~= m.peer_files@.subrange(0, p as int));
        collect_facts(acc, &m.peer_files[p].items_here, &mut fs);
        assert(own + peer_methods(m.peer_files@.subrange(0, p as int + 1)) =~= before + more);
        assert forall|i: int| 0 <= i < fs@.len()
            implies facts_of(acc, #[trigger] fs@[i], (before + more)[i]) by {
            if i >= before.len() {
                assert(fs@[before.len() + (i - before.len())] == fs@[i]);
            }
        }
        p = p + 1;
    }
    assert(m.peer_files@.subrange(0, m.peer_files@.len() as int) =~= m.peer_files@);
    fs
}

/// Entry `j` of the node list `(ts, ms)` is the method `t.m`.
pub open spec fn node_is(ts: Seq<String>, ms: Seq<String>, j: int, t: Seq<char>, m: Seq<char>) -> bool {
    0 <= j < ts.len() && j < ms.len() && ts[j]@ == t && ms[j]@ == m
}

pub open spec fn has_node(ts: Seq<String>, ms: Seq<String>, t: Seq<char>, m: Seq<char>) -> bool {
    exists|j: int| #[trigger] node_is(ts, ms, j, t, m)
}

/// No method occurs twice in the node list.
pub open spec fn nodes_distinct(ts: Seq<String>, ms: Seq<String>) -> bool {
    ts.len() == ms.len() && forall|i: int, j: int| #![trigger ts[i], ts[j]]
        0 <= i < ts.len() && 0 <= j < ts.len() && i != j ==> !(ts[i]@ == ts[j]@ && ms[i]@ == ms[j]@)
}

/// Every declared method and every method called by one is in the list.
pub open spec fn nodes_complete(acc: FieldAccess, ds: Seq<FnDecl>, ts: Seq<String>, ms: Seq<String>) -> bool {
    &&& forall|i: int| 0 <= i < ds.len() ==> has_node(ts, ms, owner_of(#[trigger] ds[i]), ds[i].name@)
    &&& forall|i: int, c: Seq<char>|
        0 <= i < ds.len() && #[trigger] body_calls(acc, ds[i].body, c) ==> has_node(ts, ms, owner_of(ds[i]), c)
}

/// `adj[u]` holds exactly the nodes that the method of node `u` calls.
pub open spec fn edges_ok(acc: FieldAccess, adj: Seq<Vec<usize>>, ds: Seq<FnDecl>, ts: Seq<String>, ms: Seq<String>) -> bool {
    &&& adj.len() == ts.len()
    &&& ts.len() == ms.len()
    &&& forall|u: int, k: int| 0 <= u < adj.len() && 0 <= k < adj[u]@.len() ==> #[trigger] adj[u]@[k] < adj.len()
    &&& forall|u: int, v: usize| 0 <= u < ts.len() && v < ts.len() ==>
        (#[trigger] adj[u]@.contains(v) <==> (ts[v as int]@ == ts[u]@ && calls_directly(acc, ds, ts[u]@, ms[u]@, ms[v as int]@)))
}

/// The marked nodes are closed under edges.
pub open spec fn closed_under(adj: Seq<Vec<usize>>, vis: Seq<bool>) -> bool {
    forall|u: usize, v: usize| u < adj.len() && v < adj.len() && vis[u as int] && #[trigger] adj[u as int]@.contains(v) ==> vis[v as int]
}

proof fn lemma_has_node_grow(ts0: Seq<String>, ms0: Seq<String>, ts1: Seq<String>, ms1: Seq<String>)
    requires
        ts0.len() <= ts1.len(),
        ms0.len() <= ms1.len(),
        forall|j: int| 0 <= j < ts0.len() ==> ts1[j] == ts0[j],
        forall|j: int| 0 <= j < ms0.len() ==> ms1[j] == ms0[j],
    ensures
        forall|t: Seq<char>, m: Seq<char>| has_node(ts0, ms0, t, m) ==> #[trigger] has_node(ts1, ms1, t, m),
{
    assert forall|t: Seq<char>, m: Seq<char>| has_node(ts0, ms0, t, m) implies #[trigger] has_node(ts1, ms1, t, m) by {
        let j = choose|j: int| #[trigger] node_is(ts0, ms0, j, t, m);
        assert(node_is(ts1, ms1, j, t, m));
    }
}

/// Position of the method `t.m` in the node list.
fn find_node(ts: &Vec<String>, ms: &Vec<String>, t: &str, m: &str) -> (r: Option<usize>)
    requires
        ts@.len() == ms@.len(),
    ensures
        match r {
            Some(j) => node_is(ts@, ms@, j as int, t@, m@),
            None => !has_node(ts@, ms@, t@, m@),
        },
{
    let mut j: usize = 0;
    while j < ts.len()
        invariant
            j <= ts@.len(),
            ts@.len() == ms@.len(),
            forall|i: int| 0 <= i < j ==> !#[trigger] node_is(ts@, ms@, i, t@, m@),
        decreases ts@.len() - j,
    {
        if str_eq(ts[j].as_str(), t) && str_eq(ms[j].as_str(), m) {
            return Some(j);
        }
        j = j + 1;
    }
    None
}

/// Adds the method `t.m` to the node list unless it is there.
fn add_node(ts: &mut Vec<String>, ms: &mut Vec<String>, t: &str, m: &str)
    requires
        nodes_distinct(old(ts)@, old(ms)@),
    ensures
        nodes_distinct(final(ts)@, final(ms)@),
        has_node(final(ts)@, final(ms)@, t@, m@),
        old(ts)@.len() <= final(ts)@.len(),
        forall|j: int| 0 <= j < old(ts)@.len() ==> final(ts)@[j] == old(ts)@[j] && final(ms)@[j] == old(ms)@[j],
        forall|j: int| old(ts)@.len() <= j < final(ts)@.len() ==> final(ts)@[j]@ == t@ && final(ms)@[j]@ == m@,
{
    match find_node(ts, ms, t, m) {
        Some(j) => {},
        None => {
            ts.push(copy_str(t));
            ms.push(copy_str(m));
            assert(node_is(ts@, ms@, ts@.len() - 1, t@, m@));
            assert forall|i: int, j: int| #![trigger ts@[i], ts@[j]]
                0 <= i < ts@.len() && 0 <= j < ts@.len() && i != j implies !(ts@[i]@ == ts@[j]@ && ms@[i]@ == ms@[j]@) by {
                if i == ts@.len() - 1 {
                    assert(!node_is(old(ts)@, old(ms)@, j, t@, m@));
                } else if j == ts@.len() - 1 {
                    assert(!node_is(old(ts)@, old(ms)@, i, t@, m@));
                } else {
                    assert(ts@[i] == old(ts)@[i] && ts@[j] == old(ts)@[j]);
                }
            }
        },
    }
}

/// The methods of the call graph: every declared instance method and every
/// receiver method one of them calls, each once.
fn method_nodes(acc: FieldAccess, facts: &Vec<MethodFacts>, Ghost(ds): Ghost<Seq<FnDecl>>) -> (r: (Vec<String>, Vec<String>))
    requires
        facts@.len() == ds.len(),
        forall|i: int| 0 <= i < ds.len() ==> facts_of(acc, #[trigger] facts@[i], ds[i]),
    ensures
        nodes_distinct(r.0@, r.1@),
        nodes_complete(acc, ds, r.0@, r.1@),
        forall|j: int| 0 <= j < r.0@.len() ==> is_known_method(acc, ds, #[trigger] r.0@[j]@, r.1@[j]@),
{
    let mut ts: Vec<String> = Vec::new();
    let mut ms: Vec<String> = Vec::new();
    let mut i: usize = 0;
    while i < facts.len()
        invariant
            i <= facts@.len(),
            facts@.len() == ds.len(),
            forall|i2: int| 0 <= i2 < ds.len() ==> facts_of(acc, #[trigger] facts@[i2], ds[i2]),
            nodes_distinct(ts@, ms@),
            forall|i2: int| 0 <= i2 < i ==> has_node(ts@, ms@, owner_of(#[trigger] ds[i2]), ds[i2].name@),
            forall|j: int| 0 <= j < ts@.len() ==> is_known_method(acc, ds, #[trigger] ts@[j]@, ms@[j]@),
        decreases facts@.len() - i,
    {
        let ghost ts0 = ts@;
        let ghost ms0 = ms@;
        proof { lemma_decl_for_some(ds, ds.len() as int, i as int); }
        add_node(&mut ts, &mut ms, facts[i].owner_type.as_str(), facts[i].method.as_str());
        proof { lemma_has_node_grow(ts0, ms0, ts@, ms@); }
        assert forall|j: int| 0 <= j < ts@.len() implies is_known_method(acc, ds, #[trigger] ts@[j]@, ms@[j]@) by {
            if j < ts0.len() {
                assert(ts@[j] == ts0[j] && ms@[j] == ms0[j]);
            }
        }
        i = i + 1;
    }
    let mut i: usize = 0;
    while i < facts.len()
        invariant
            i <= facts@.len(),
            facts@.len() == ds.len(),
            forall|i2: int| 0 <= i2 < ds.len() ==> facts_of(acc, #[trigger] facts@[i2], ds[i2]),
            nodes_distinct(ts@, ms@),
            forall|i2: int| 0 <= i2 < ds.len() ==> has_node(ts@, ms@, owner_of(#[trigger] ds[i2]), ds[i2].name@),
            forall|i2: int, c: Seq<char>|
                0 <= i2 < i && #[trigger] body_calls(acc, ds[i2].body, c) ==> has_node(ts@, ms@, owner_of(ds[i2]), c),
            forall|j: int| 0 <= j < ts@.len() ==> is_known_method(acc, ds, #[trigger] ts@[j]@, ms@[j]@),
        decreases facts@.len() - i,
    {
        let calls = &facts[i].calls;
        let mut k: usize = 0;
        while k < calls.len()
            invariant
                i < facts@.len(),
                facts@.len() == ds.len(),
                calls == facts@[i as int].calls,
                k <= calls@.len(),
                forall|i2: int| 0 <= i2 < ds.len() ==> facts_of(acc, #[trigger] facts@[i2], ds[i2]),
                nodes_distinct(ts@, ms@),
                forall|i2: int| 0 <= i2 < ds.len() ==> has_node(ts@, ms@, owner_of(#[trigger] ds[i2]), ds[i2].name@),
                forall|i2: int, c: Seq<char>|
                    0 <= i2 < i && #[trigger] body_calls(acc, ds[i2].body, c) ==> has_node(ts@, ms@, owner_of(ds[i2]), c),
                forall|k2: int| 0 <= k2 < k ==> has_node(ts@, ms@, owner_of(ds[i as int]), #[trigger] calls@[k2]@),
                forall|j: int| 0 <= j < ts@.len() ==> is_known_method(acc, ds, #[trigger] ts@[j]@, ms@[j]@),
            decreases calls@.len() - k,
        {
            let ghost ts0 = ts@;
            let ghost ms0 = ms@;
            proof {
                assert(names_view(calls@)[k as int] == calls@[k as int]@);
                assert(has_name(calls@, calls@[k as int]@));
                assert(body_calls(acc, ds[i as int].body, calls@[k as int]@));
            }
            add_node(&mut ts, &mut ms, facts[i].owner_type.as_str(), calls[k].as_str());
            proof { lemma_has_node_grow(ts0, ms0, ts@, ms@); }
            assert forall|j: int| 0 <= j < ts@.len() implies is_known_method(acc, ds, #[trigger] ts@[j]@, ms@[j]@) by {
                if j < ts0.len() {
                    assert(ts@[j] == ts0[j] && ms@[j] == ms0[j]);
                }
            }
            k = k + 1;
        }
        assert forall|c: Seq<char>| #[trigger] body_calls(acc, ds[i as int].body, c) implies has_node(ts@, ms@, owner_of(ds[i as int]), c) by {
            assert(has_name(calls@, c));
            let k2 = choose|k2: int| 0 <= k2 < names_view(calls@).len() && names_view(calls@)[k2] == c;
            assert(calls@[k2]@ == c);
        }
        i = i + 1;
    }
    (ts, ms)
}

/// The position of the facts that `decl_of` picks for `t.m`.
fn last_fact(acc: FieldAccess, facts: &Vec<MethodFacts>, t: &str, m: &str, Ghost(ds): Ghost<Seq<FnDecl>>) -> (r: Option<usize>)
    requires
        facts@.len() == ds.len(),
        forall|i: int| 0 <= i < ds.len() ==> facts_of(acc, #[trigger] facts@[i], ds[i]),
    ensures
        match r {
            Some(i) => i < ds.len() && decl_of(ds, t@, m@) == Some(ds[i as int]) && owner_of(ds[i as int]) == t@
                && ds[i as int].name@ == m@,
            None => decl_of(ds, t@, m@) is None,
        },
{
    let n = facts.len();
    let mut k: usize = n;
    while k > 0
        invariant
            k <= n,
            n == ds.len(),
            facts@.len() == ds.len(),
            forall|i: int| 0 <= i < ds.len() ==> facts_of(acc, #[trigger] facts@[i], ds[i]),
            decl_of(ds, t@, m@) == decl_for(ds, k as int, t@, m@),
        decreases k,
    {
        let f = &facts[k - 1];
        assert(facts_of(acc, facts@[k - 1], ds[k - 1]));
        if str_eq(f.owner_type.as_str(), t) && str_eq(f.method.as_str(), m) {
            return Some(k - 1);
        }
        k = k - 1;
    }
    None
}

/// The nodes that the method of node `u` calls.
fn node_edges(acc: FieldAccess, facts: &Vec<MethodFacts>, ts: &Vec<String>, ms: &Vec<String>, u: usize, Ghost(ds): Ghost<Seq<FnDecl>>) -> (e: Vec<usize>)
    requires
        facts@.len() == ds.len(),
        forall|i: int| 0 <= i < ds.len() ==> facts_of(acc, #[trigger] facts@[i], ds[i]),
        nodes_distinct(ts@, ms@),
        nodes_complete(acc, ds, ts@, ms@),
        u < ts@.len(),
    ensures
        forall|k: int| 0 <= k < e@.len() ==> #[trigger] e@[k] < ts@.len(),
        forall|v: usize| v < ts@.len() ==>
            (#[trigger] e@.contains(v) <==> (ts@[v as int]@ == ts@[u as int]@ && calls_directly(acc, ds, ts@[u as int]@, ms@[u as int]@, ms@[v as int]@))),
{
    let mut e: Vec<usize> = Vec::new();
    match last_fact(acc, facts, ts[u].as_str(), ms[u].as_str(), Ghost(ds)) {
        None => {
            assert forall|v: usize| v < ts@.len() implies !(#[trigger] e@.contains(v)) by {}
        },
        Some(fi) => {
            let calls = &facts[fi].calls;
            let ghost d = ds[fi as int];
            assert(facts_of(acc, facts@[fi as int], d));
            let mut k: usize = 0;
            while k < calls.len()
                invariant
                    fi < facts@.len(),
                    facts@.len() == ds.len(),
                    d == ds[fi as int],
                    calls == facts@[fi as int].calls,
                    facts_of(acc, facts@[fi as int], d),
                    owner_of(d) == ts@[u as int]@,
                    nodes_distinct(ts@, ms@),
                    nodes_complete(acc, ds, ts@, ms@),
                    u < ts@.len(),
                    k <= calls@.len(),
                    forall|k2: int| 0 <= k2 < e@.len() ==> #[trigger] e@[k2] < ts@.len(),
                    forall|v: usize| v < ts@.len() ==>
                        (#[trigger] e@.contains(v) <==> (ts@[v as int]@ == ts@[u as int]@
                            && exists|k2: int| 0 <= k2 < k && #[trigger] calls@[k2]@ == ms@[v as int]@)),
                decreases calls@.len() - k,
            {
                proof {
                    assert(names_view(calls@)[k as int] == calls@[k as int]@);
                    assert(has_name(calls@, calls@[k as int]@));
                    assert(body_calls(acc, d.body, calls@[k as int]@));
                    assert(has_node(ts@, ms@, owner_of(ds[fi as int]), calls@[k as int]@));
                }
                match find_node(ts, ms, ts[u].as_str(), calls[k].as_str()) {
                    Some(v) => {
                        let ghost e0 = e@;
                        e.push(v);
                        assert forall|w: usize| w < ts@.len() implies
                            (#[trigger] e@.contains(w) <==> (ts@[w as int]@ == ts@[u as int]@
                                && exists|k2: int| 0 <= k2 < k + 1 && #[trigger] calls@[k2]@ == ms@[w as int]@)) by {
                            if e@.contains(w) {
                                if w == v {
                                    assert(calls@[k as int]@ == ms@[w as int]@);
                                } else {
                                    let q = choose|q: int| 0 <= q < e@.len() && e@[q] == w;
                                    assert(e0[q] == w);
                                    assert(e0.contains(w));
                                }
                            }
                            if ts@[w as int]@ == ts@[u as int]@ && exists|k2: int| 0 <= k2 < k + 1 && #[trigger] calls@[k2]@ == ms@[w as int]@ {
                                let k2 = choose|k2: int| 0 <= k2 < k + 1 && #[trigger] calls@[k2]@ == ms@[w as int]@;
                                if k2 == k {
                                    if w != v {
                                        assert(ts@[w as int]@ == ts@[v as int]@ && ms@[w as int]@ == ms@[v as int]@);
                                    }
                                    assert(e@[e@.len() - 1] == v);
                                } else {
                                    assert(e0.contains(w));
                                    let q = choose|q: int| 0 <= q < e0.len() && e0[q] == w;
                                    assert(e@[q] == w);
                                }
                            }
                        }
                    },
                    None => {},
                }
                k = k + 1;
            }
            assert forall|v: usize| v < ts@.len() implies
                (#[trigger] e@.contains(v) <==> (ts@[v as int]@ == ts@[u as int]@ && calls_directly(acc, ds, ts@[u as int]@, ms@[u as int]@, ms@[v as int]@))) by {
                if body_calls(acc, d.body, ms@[v as int]@) {
                    assert(has_name(calls@, ms@[v as int]@));
                    let k2 = choose|k2: int| 0 <= k2 < names_view(calls@).len() && names_view(calls@)[k2] == ms@[v as int]@;
                    assert(calls@[k2]@ == ms@[v as int]@);
                }
                if exists|k2: int| 0 <= k2 < calls@.len() && #[trigger] calls@[k2]@ == ms@[v as int]@ {
                    let k2 = choose|k2: int| 0 <= k2 < calls@.len() && #[trigger] calls@[k2]@ == ms@[v as int]@;
                    assert(names_view(calls@)[k2] == ms@[v as int]@);
                    assert(has_name(calls@, ms@[v as int]@));
                }
            }
        },
    }
    e
}

/// The nodes reachable from node `s` along `adj`.
fn reachable_nodes(acc: FieldAccess, adj: &Vec<Vec<usize>>, s: usize, Ghost(ds): Ghost<Seq<FnDecl>>, Ghost(ts): Ghost<Seq<String>>, Ghost(ms): Ghost<Seq<String>>) -> (vis: Vec<bool>)
    requires
        edges_ok(acc, adj@, ds, ts, ms),
        s < adj@.len(),
    ensures
        vis@.len() == adj@.len(),
        vis@[s as int],
        forall|j: int| 0 <= j < vis@.len() && #[trigger] vis@[j] ==> ts[j]@ == ts[s as int]@ && reaches(acc, ds, ts[s as int]@, ms[s as int]@, ms[j]@),
        closed_under(adj@, vis@),
{
    let n = adj.len();
    let mut vis: Vec<bool> = Vec::new();
    let mut i: usize = 0;
    while i < n
        invariant
            vis@.len() == i,
            i <= n,
            forall|j: int| 0 <= j < i ==> !vis@[j],
        decreases n - i,
    {
        vis.push(false);
        i = i + 1;
    }
    proof {
        lemma_count_true_all(vis@);
        lemma_count_true_set(vis@, s as int);
        lemma_reaches_self(acc, ds, ts[s as int]@, ms[s as int]@);
    }
    vis.set(s, true);
    let mut stack: Vec<usize> = Vec::new();
    stack.push(s);
    proof {
        lemma_count_true_le(vis@);
        assert(stack@[0] == s);
        assert forall|u: usize| u < n && vis@[u as int] implies stack@.contains(u) by {
            assert(u == s);
        }
    }
    while stack.len() > 0
        invariant
            n == adj@.len(),
            edges_ok(acc, adj@, ds, ts, ms),
            s < n,
            vis@.len() == n,
            vis@[s as int],
            stack@.no_duplicates(),
            forall|q: int| 0 <= q < stack@.len() ==> #[trigger] stack@[q] < n && vis@[stack@[q] as int],
            forall|j: int| 0 <= j < n && #[trigger] vis@[j] ==> ts[j]@ == ts[s as int]@ && reaches(acc, ds, ts[s as int]@, ms[s as int]@, ms[j]@),
            forall|u: usize, v: usize| u < n && v < n && vis@[u as int] && !stack@.contains(u) && #[trigger] adj@[u as int]@.contains(v) ==> vis@[v as int],
            count_true(vis@) <= n,
        decreases 2 * (n - count_true(vis@)) + stack@.len(),
    {
        let ghost c0 = count_true(vis@);
        let ghost l0 = stack@.len();
        let ghost st0 = stack@;
        let u = match stack.pop() {
            Some(x) => x,
            None => 0,
        };
        proof {
            assert(st0[st0.len() - 1] == u);
            assert(stack@ == st0.drop_last());
            if stack@.contains(u) {
                let q = choose|q: int| 0 <= q < stack@.len() && stack@[q] == u;
                assert(st0[q] == st0[st0.len() - 1]);
            }
            assert forall|q: int| 0 <= q < stack@.len() implies #[trigger] stack@[q] < n && vis@[stack@[q] as int] by {
                assert(stack@[q] == st0[q]);
            }
            assert(stack@.no_duplicates()) by {
                assert forall|a: int, b: int| 0 <= a < stack@.len() && 0 <= b < stack@.len() && a != b implies stack@[a] != stack@[b] by {
                    assert(stack@[a] == st0[a] && stack@[b] == st0[b]);
                }
            }
        }
        proof {
            assert forall|w: usize| w != u && !stack@.contains(w) implies !st0.contains(w) by {
                if st0.contains(w) {
                    let q = choose|q: int| 0 <= q < st0.len() && st0[q] == w;
                    if q < st0.len() - 1 {
                        assert(stack@[q] == w);
                    }
                }
            }
        }
        let nb = adj[u].len();
        let mut k: usize = 0;
        while k < nb
            invariant
                n == adj@.len(),
                edges_ok(acc, adj@, ds, ts, ms),
                s < n,
                u < n,
                vis@.len() == n,
                vis@[s as int],
                vis@[u as int],
                !stack@.contains(u),
                nb == adj@[u as int]@.len(),
                k <= nb,
                stack@.no_duplicates(),
                forall|q: int| 0 <= q < k ==> vis@[#[trigger] adj@[u as int]@[q] as int],
                forall|q: int| 0 <= q < stack@.len() ==> #[trigger] stack@[q] < n && vis@[stack@[q] as int],
                forall|j: int| 0 <= j < n && #[trigger] vis@[j] ==> ts[j]@ == ts[s as int]@ && reaches(acc, ds, ts[s as int]@, ms[s as int]@, ms[j]@),
                forall|w: usize, v: usize| w < n && v < n && w != u && vis@[w as int] && !stack@.contains(w) && #[trigger] adj@[w as int]@.contains(v) ==> vis@[v as int],
                count_true(vis@) <= n,
                2 * (n - count_true(vis@)) + stack@.len() < 2 * (n - c0) + l0,
            decreases nb - k,
        {
            let v = adj[u][k];
            assert(adj@[u as int]@[k as int] == v);
            if !vis[v] {
                proof {
                    assert(adj@[u as int]@.contains(v));
                    lemma_reaches_step(acc, ds, ts[s as int]@, ms[s as int]@, ms[u as int]@, ms[v as int]@);
                    lemma_count_true_set(vis@, v as int);
                    lemma_push_contains(stack@, v);
                }
                let ghost vis0 = vis@;
                let ghost stk0 = stack@;
                vis.set(v, true);
                stack.push(v);
                proof {
                    lemma_count_true_le(vis@);
                    assert forall|q: int| 0 <= q < stack@.len() implies #[trigger] stack@[q] < n && vis@[stack@[q] as int] by {
                        if q < stk0.len() {
                            assert(stack@[q] == stk0[q]);
                        }
                    }
                    assert(stack@.no_duplicates()) by {
                        assert forall|a: int, b: int| 0 <= a < stack@.len() && 0 <= b < stack@.len() && a != b implies stack@[a] != stack@[b] by {
                            if a < stk0.len() && b < stk0.len() {
                                assert(stack@[a] == stk0[a] && stack@[b] == stk0[b]);
                            } else if a < stk0.len() {
                                assert(stack@[a] == stk0[a]);
                                assert(vis0[stk0[a] as int]);
                            } else if b < stk0.len() {
                                assert(stack@[b] == stk0[b]);
                                assert(vis0[stk0[b] as int]);
                            }
                        }
                    }
                    assert forall|j: int| 0 <= j < n && #[trigger] vis@[j] implies ts[j]@ == ts[s as int]@ && reaches(acc, ds, ts[s as int]@, ms[s as int]@, ms[j]@) by {
                        if j != v as int {
                            assert(vis0[j]);
                        }
                    }
                }
            }
            k = k + 1;
        }
        proof {
            assert forall|v: usize| v < n && #[trigger] adj@[u as int]@.contains(v) implies vis@[v as int] by {
                let q = choose|q: int| 0 <= q < adj@[u as int]@.len() && adj@[u as int]@[q] == v;
                assert(vis@[adj@[u as int]@[q] as int]);
            }
        }
    }
    vis
}

/// Which facts `decl_of` picks for each node.
pub open spec fn fact_index_ok(fidx: Seq<Option<usize>>, ds: Seq<FnDecl>, ts: Seq<String>, ms: Seq<String>) -> bool {
    &&& fidx.len() == ts.len()
    &&& forall|j: int| 0 <= j < fidx.len() ==> match #[trigger] fidx[j] {
        Some(i) => i < ds.len() && decl_of(ds, ts[j]@, ms[j]@) == Some(ds[i as int]),
        None => decl_of(ds, ts[j]@, ms[j]@) is None,
    }
}

/// The fields that the marked nodes assign themselves.
fn marked_writes(acc: FieldAccess, facts: &Vec<MethodFacts>, fidx: &Vec<Option<usize>>, vis: &Vec<bool>, Ghost(ds): Ghost<Seq<FnDecl>>, Ghost(ts): Ghost<Seq<String>>, Ghost(ms): Ghost<Seq<String>>) -> (out: Vec<String>)
    requires
        facts@.len() == ds.len(),
        forall|i: int| 0 <= i < ds.len() ==> facts_of(acc, #[trigger] facts@[i], ds[i]),
        fact_index_ok(fidx@, ds, ts, ms),
        vis@.len() == ts.len(),
        ms.len() == ts.len(),
    ensures
        forall|x: Seq<char>| #[trigger] has_name(out@, x) <==> exists|j: int| 0 <= j < vis@.len() && vis@[j] && #[trigger] writes_directly(acc, ds, ts[j]@, ms[j]@, x),
{
    proof { lemma_has_name_empty(); }
    let mut out: Vec<String> = Vec::new();
    let mut j: usize = 0;
    while j < vis.len()
        invariant
            j <= vis@.len(),
            facts@.len() == ds.len(),
            forall|i: int| 0 <= i < ds.len() ==> facts_of(acc, #[trigger] facts@[i], ds[i]),
            fact_index_ok(fidx@, ds, ts, ms),
            vis@.len() == ts.len(),
            ms.len() == ts.len(),
            forall|x: Seq<char>| #[trigger] has_name(out@, x) <==> exists|j2: int| 0 <= j2 < j && vis@[j2] && #[trigger] writes_directly(acc, ds, ts[j2]@, ms[j2]@, x),
        decreases vis@.len() - j,
    {
        let ghost out0 = out@;
        if vis[j] {
            match fidx[j] {
                Some(i) => {
                    assert(facts_of(acc, facts@[i as int], ds[i as int]));
                    add_names(&facts[i].writes, &mut out);
                },
                None => {},
            }
        }
        assert forall|x: Seq<char>| #[trigger] has_name(out@, x) <==> exists|j2: int| 0 <= j2 < j + 1 && vis@[j2] && #[trigger] writes_directly(acc, ds, ts[j2]@, ms[j2]@, x) by {
            if exists|j2: int| 0 <= j2 < j + 1 && vis@[j2] && #[trigger] writes_directly(acc, ds, ts[j2]@, ms[j2]@, x) {
                let j2 = choose|j2: int| 0 <= j2 < j + 1 && vis@[j2] && #[trigger] writes_directly(acc, ds, ts[j2]@, ms[j2]@, x);
                if j2 < j {
                    assert(exists|j3: int| 0 <= j3 < j && vis@[j3] && #[trigger] writes_directly(acc, ds, ts[j3]@, ms[j3]@, x));
                    assert(has_name(out0, x));
                } else {
                    assert(j2 == j);
                    let i = fidx@[j as int].unwrap();
                    assert(facts_of(acc, facts@[i as int], ds[i as int]));
                    assert(has_name(facts@[i as int].writes@, x));
                }
            }
            if has_name(out@, x) && !has_name(out0, x) {
                assert(vis@[j as int] && fidx@[j as int] is Some);
                let i = fidx@[j as int].unwrap();
                assert(facts_of(acc, facts@[i as int], ds[i as int]));
                assert(writes_directly(acc, ds, ts[j as int]@, ms[j as int]@, x));
            }
            if has_name(out0, x) {
                let j2 = choose|j2: int| 0 <= j2 < j && vis@[j2] && #[trigger] writes_directly(acc, ds, ts[j2]@, ms[j2]@, x);
                assert(0 <= j2 < j + 1 && vis@[j2] && writes_directly(acc, ds, ts[j2]@, ms[j2]@, x));
            }
        }
        j = j + 1;
    }
    out
}

proof fn lemma_chain_covered(acc: FieldAccess, ds: Seq<FnDecl>, ts: Seq<String>, ms: Seq<String>, adj: Seq<Vec<usize>>, vis: Seq<bool>, t: Seq<char>, p: Seq<Seq<char>>, i: int)
    requires
        edges_ok(acc, adj, ds, ts, ms),
        nodes_complete(acc, ds, ts, ms),
        vis.len() == ts.len(),
        ts.len() <= usize::MAX,
        closed_under(adj, vis),
        is_call_chain(acc, ds, t, p),
        0 <= i < p.len(),
        exists|j: int| #[trigger] node_is(ts, ms, j, t, p[0]) && vis[j],
    ensures
        exists|j: int| #[trigger] node_is(ts, ms, j, t, p[i]) && vis[j],
    decreases i,
{
    if i > 0 {
        lemma_chain_covered(acc, ds, ts, ms, adj, vis, t, p, i - 1);
        let j = choose|j: int| #[trigger] node_is(ts, ms, j, t, p[i - 1]) && vis[j];
        assert(calls_directly(acc, ds, t, p[i - 1], p[i]));
        lemma_decl_for_found(ds, ds.len() as int, t, p[i - 1]);
        let d = decl_of(ds, t, p[i - 1]).unwrap();
        let idx = choose|idx: int| 0 <= idx < ds.len() && ds[idx] == d && owner_of(ds[idx]) == t && ds[idx].name@ == p[i - 1];
        assert(body_calls(acc, ds[idx].body, p[i]));
        assert(has_node(ts, ms, t, p[i]));
        let v = choose|v: int| #[trigger] node_is(ts, ms, v, t, p[i]);
        assert(v as usize as int == v);
        assert(adj[j]@.contains(v as usize));
        assert(vis[v]);
    }
}

proof fn lemma_lookup_hit(es: Seq<MethodFields>, k: int, j: int)
    requires
        0 <= j < k <= es.len(),
        forall|a: int, b: int| #![trigger es[a], es[b]] 0 <= a < es.len() && 0 <= b < es.len() && a != b
            ==> !(es[a].owner_type@ == es[b].owner_type@ && es[a].method@ == es[b].method@),
    ensures
        lookup_fields(es, k, es[j].owner_type@, es[j].method@) == Some(names_view(es[j].fields@)),
    decreases k,
{
    if j < k - 1 {
        assert(!(es[k - 1].owner_type@ == es[j].owner_type@ && es[k - 1].method@ == es[j].method@));
        lemma_lookup_hit(es, k - 1, j);
    }
}

proof fn lemma_lookup_found(es: Seq<MethodFields>, k: int, t: Seq<char>, m: Seq<char>)
    requires
        0 <= k <= es.len(),
        lookup_fields(es, k, t, m) is Some,
    ensures
        exists|j: int| 0 <= j < k && #[trigger] es[j].owner_type@ == t && es[j].method@ == m,
    decreases k,
{
    if !(es[k - 1].owner_type@ == t && es[k - 1].method@ == m) {
        lemma_lookup_found(es, k - 1, t, m);
    }
}

/// The fields recorded for `t.m`, if the method is recorded.
pub open spec fn recorded_fields(ws: WriteSets, t: Seq<char>, m: Seq<char>) -> Option<Seq<Seq<char>>> {
    lookup_fields(ws.entries@, ws.entries@.len() as int, t, m)
}

/// `ws` records exactly the methods that `ds` declares or calls on the
/// receiver, each with exactly the fields it writes itself or through its
/// chain of receiver-method calls.
pub open spec fn write_sets_describe(ws: WriteSets, ds: Seq<FnDecl>) -> bool {
    sets_describe(FieldAccess::Write, ws, ds)
}

/// `ws` records exactly the methods that `ds` declares or calls on the
/// receiver (as the walk of `acc` sees calls), each with exactly the fields
/// it accesses itself or through its chain of receiver-method calls.
pub open spec fn sets_describe(acc: FieldAccess, ws: WriteSets, ds: Seq<FnDecl>) -> bool {
    &&& forall|t: Seq<char>, m: Seq<char>| #[trigger] recorded_fields(ws, t, m) is Some <==> is_known_method(acc, ds, t, m)
    &&& forall|t: Seq<char>, m: Seq<char>, x: Seq<char>| recorded_fields(ws, t, m) is Some ==>
        (#[trigger] recorded_fields(ws, t, m).unwrap().contains(x) <==> writes_transitively(acc, ds, t, m, x))
}

/// Transitive write sets of the methods described by `facts` (the direct
/// facts of the declarations `ds`).
pub(crate) fn write_sets_of(acc: FieldAccess, facts: &Vec<MethodFacts>, Ghost(ds): Ghost<Seq<FnDecl>>) -> (ws: WriteSets)
    requires
        facts@.len() == ds.len(),
        forall|i: int| 0 <= i < ds.len() ==> facts_of(acc, #[trigger] facts@[i], ds[i]),
    ensures
        forall|t: Seq<char>, m: Seq<char>| #[trigger] recorded_fields(ws, t, m) is Some <==> is_known_method(acc, ds, t, m),
        forall|t: Seq<char>, m: Seq<char>, x: Seq<char>| recorded_fields(ws, t, m) is Some ==>
            (#[trigger] recorded_fields(ws, t, m).unwrap().contains(x) <==> writes_transitively(acc, ds, t, m, x)),
{
    let (ts, ms) = method_nodes(acc, facts, Ghost(ds));
    let n = ts.len();
    let mut fidx: Vec<Option<usize>> = Vec::new();
    let mut j: usize = 0;
    while j < n
        invariant
            n == ts@.len(),
            j <= n,
            fidx@.len() == j,
            facts@.len() == ds.len(),
            forall|i: int| 0 <= i < ds.len() ==> facts_of(acc, #[trigger] facts@[i], ds[i]),
            nodes_distinct(ts@, ms@),
            forall|q: int| 0 <= q < j ==> match #[trigger] fidx@[q] {
                Some(i) => i < ds.len() && decl_of(ds, ts@[q]@, ms@[q]@) == Some(ds[i as int]),
                None => decl_of(ds, ts@[q]@, ms@[q]@) is None,
            },
        decreases n - j,
    {
        let r = last_fact(acc, facts, ts[j].as_str(), ms[j].as_str(), Ghost(ds));
        fidx.push(r);
        j = j + 1;
    }
    let mut adj: Vec<Vec<usize>> = Vec::new();
    let mut u: usize = 0;
    while u < n
        invariant
            n == ts@.len(),
            u <= n,
            adj@.len() == u,
            facts@.len() == ds.len(),
            forall|i: int| 0 <= i < ds.len() ==> facts_of(acc, #[trigger] facts@[i], ds[i]),
            nodes_distinct(ts@, ms@),
            nodes_complete(acc, ds, ts@, ms@),
            forall|a: int, k: int| 0 <= a < u && 0 <= k < adj@[a]@.len() ==> #[trigger] adj@[a]@[k] < n,
            forall|a: int, v: usize| 0 <= a < u && v < n ==>
                (#[trigger] adj@[a]@.contains(v) <==> (ts@[v as int]@ == ts@[a]@ && calls_directly(acc, ds, ts@[a]@, ms@[a]@, ms@[v as int]@))),
        decreases n - u,
    {
        let e = node_edges(acc, facts, &ts, &ms, u, Ghost(ds));
        adj.push(e);
        u = u + 1;
    }
    assert(edges_ok(acc, adj@, ds, ts@, ms@));
    let mut entries: Vec<MethodFields> = Vec::new();
    let mut s: usize = 0;
    while s < n
        invariant
            n == ts@.len(),
            s <= n,
            entries@.len() == s,
            facts@.len() == ds.len(),
            forall|i: int| 0 <= i < ds.len() ==> facts_of(acc, #[trigger] facts@[i], ds[i]),
            nodes_distinct(ts@, ms@),
            nodes_complete(acc, ds, ts@, ms@),
            edges_ok(acc, adj@, ds, ts@, ms@),
            fact_index_ok(fidx@, ds, ts@, ms@),
            forall|q: int| 0 <= q < s ==> (#[trigger] entries@[q]).owner_type@ == ts@[q]@ && entries@[q].method@ == ms@[q]@,
            forall|q: int, x: Seq<char>| 0 <= q < s ==>
                (#[trigger] names_view(entries@[q].fields@).contains(x) <==> writes_transitively(acc, ds, ts@[q]@, ms@[q]@, x)),
        decreases n - s,
    {
        let vis = reachable_nodes(acc, &adj, s, Ghost(ds), Ghost(ts@), Ghost(ms@));
        let fields = marked_writes(acc, facts, &fidx, &vis, Ghost(ds), Ghost(ts@), Ghost(ms@));
        proof {
            let t = ts@[s as int]@;
            assert forall|x: Seq<char>| #[trigger] names_view(fields@).contains(x) <==> writes_transitively(acc, ds, t, ms@[s as int]@, x) by {
                assert(has_name(fields@, x) == names_view(fields@).contains(x));
                if has_name(fields@, x) {
                    let j = choose|j: int| 0 <= j < vis@.len() && vis@[j] && #[trigger] writes_directly(acc, ds, ts@[j]@, ms@[j]@, x);
                    assert(ts@[j]@ == t && reaches(acc, ds, t, ms@[s as int]@, ms@[j]@));
                }
                if writes_transitively(acc, ds, t, ms@[s as int]@, x) {
                    let b = choose|b: Seq<char>| #[trigger] reaches(acc, ds, t, ms@[s as int]@, b) && writes_directly(acc, ds, t, b, x);
                    let p = choose|p: Seq<Seq<char>>| #[trigger] is_call_chain(acc, ds, t, p) && p[0] == ms@[s as int]@ && p.last() == b;
                    assert(node_is(ts@, ms@, s as int, t, p[0]));
                    lemma_chain_covered(acc, ds, ts@, ms@, adj@, vis@, t, p, p.len() - 1);
                    let j = choose|j: int| #[trigger] node_is(ts@, ms@, j, t, p[p.len() - 1]) && vis@[j];
                    assert(writes_directly(acc, ds, ts@[j]@, ms@[j]@, x));
                }
            }
        }
        entries.push(MethodFields { owner_type: copy_str(ts[s].as_str()), method: copy_str(ms[s].as_str()), fields });
        s = s + 1;
    }
    let ws = WriteSets { entries };
    proof {
        let es = ws.entries@;
        assert forall|a: int, b: int| #![trigger es[a], es[b]] 0 <= a < es.len() && 0 <= b < es.len() && a != b
            implies !(es[a].owner_type@ == es[b].owner_type@ && es[a].method@ == es[b].method@) by {
            assert(es[a].owner_type@ == ts@[a]@ && es[b].owner_type@ == ts@[b]@);
        }
        assert forall|t: Seq<char>, m: Seq<char>| #[trigger] recorded_fields(ws, t, m) is Some <==> is_known_method(acc, ds, t, m) by {
            if recorded_fields(ws, t, m) is Some {
                lemma_lookup_found(es, es.len() as int, t, m);
                let j = choose|j: int| 0 <= j < es.len() && #[trigger] es[j].owner_type@ == t && es[j].method@ == m;
                assert(is_known_method(acc, ds, ts@[j]@, ms@[j]@));
            }
            if is_known_method(acc, ds, t, m) {
                if decl_of(ds, t, m) is Some {
                    lemma_decl_for_found(ds, ds.len() as int, t, m);
                    let i = choose|i: int| 0 <= i < ds.len() && ds[i] == decl_of(ds, t, m).unwrap() && owner_of(ds[i]) == t && ds[i].name@ == m;
                    assert(has_node(ts@, ms@, owner_of(ds[i]), ds[i].name@));
                } else {
                    let i = choose|i: int| 0 <= i < ds.len() && owner_of(ds[i]) == t && #[trigger] body_calls(acc, ds[i].body, m);
                    assert(has_node(ts@, ms@, owner_of(ds[i]), m));
                }
                let j = choose|j: int| #[trigger] node_is(ts@, ms@, j, t, m);
                lemma_lookup_hit(es, es.len() as int, j);
                assert(es[j].owner_type@ == t && es[j].method@ == m);
            }
        }
        assert forall|t: Seq<char>, m: Seq<char>, x: Seq<char>| recorded_fields(ws, t, m) is Some implies
            (#[trigger] recorded_fields(ws, t, m).unwrap().contains(x) <==> writes_transitively(acc, ds, t, m, x)) by {
            lemma_lookup_found(es, es.len() as int, t, m);
            let j = choose|j: int| 0 <= j < es.len() && #[trigger] es[j].owner_type@ == t && es[j].method@ == m;
            lemma_lookup_hit(es, es.len() as int, j);
            assert(names_view(es[j].fields@).contains(x) <==> writes_transitively(acc, ds, ts@[j]@, ms@[j]@, x));
        }
    }
    ws
}

/// Field write sets of a module's instance methods: each method that is
/// declared, or called on the receiver by a declared method, is recorded
/// with exactly the fields it writes itself or through the chain of
/// receiver methods it calls.
pub fn module_write_sets(module: &Module) -> (ws: WriteSets)
    ensures
        write_sets_describe(ws, module_methods(*module)),
{
    let facts = module_facts(FieldAccess::Write, module);
    write_sets_of(FieldAccess::Write, &facts, Ghost(module_methods(*module)))
}

/// Field read sets of a module's instance methods: each method that is
/// declared, or called on the receiver by a declared method, is recorded
/// with exactly the fields it reads itself or through the chain of
/// receiver methods it calls.
pub fn module_read_sets(module: &Module) -> (rs: WriteSets)
    ensures
        sets_describe(FieldAccess::Read, rs, module_methods(*module)),
{
    let facts = module_facts(FieldAccess::Read, module);
    write_sets_of(FieldAccess::Read, &facts, Ghost(module_methods(*module)))
}

} // verus!
