//! Caching of member chains `@a.b.c`: a chain on the receiver read often
//! enough, and in no closure, is read once into `_at_<a>_<b>_<c>_chain` at
//! the start of the body, and its occurrences read that local. Chains that
//! share a prefix read it from a shared local (see `chain_prefix`).

use vstd::prelude::*;
use crate::ast::{Block, FnBody, FnDecl, LetDecl, Pattern, ReceiverKind, Span, Stmt};
use crate::field_cache::chain_path::{chain_local_base, copy_path, is_chain_expr, build_chain, make_chain_base, paths_view, sorted_paths};
use crate::field_cache::chain_prefix::{
    entries_view, lemma_cover_len, lemma_shared_parents, longest_cover, longest_cover_exec, parents_ok, prefix_paths, prefixes_view, shared_prefix_locals, shared_prefixes, PrefixLocal,
    PrefixView,
};
use crate::field_cache::chain_rewrite::{chain_pairs_view, chain_replaced_expr, chain_replaced_stmt, chain_replaced_stmts, chain_rewrite_block};
use crate::field_cache::chain_scan::{chain_in_block, chain_in_expr, collect_chains_block, collect_chains_expr, scan_chain_block, scan_chain_expr};
use crate::field_cache::collect::{add_name, has_name};
use crate::field_cache::ipa::{contains_name, names_view, WriteSets};
use crate::field_cache::method::{body_span, body_span_of, coerced, lemma_taken_ext, method_ctx, same_header, taken_in};
use crate::field_cache::nested::at_block;
use crate::field_cache::names::{chosen_name, fresh_name, method_binds, method_local_names};
use crate::field_cache::plan::{find_type, registry_type, span_or, FieldCacheConfig, FieldRegistry};
use crate::field_cache::purity::{body_spawns, spawns_in_block, spawns_in_expr};
use crate::field_cache::reads::cap;
use crate::field_cache::scan::{ipa_view, writes_block, writes_expr, writes_in_block, writes_in_expr};
use crate::field_cache::writes_any::{body_writes_any, body_writes_any_field};
use crate::text::copy_str;

verus! {

/// The pass works on method `f`: an instance method with a body, not
/// external, whose receiver type is a record or named tuple.
pub open spec fn chain_applies(f: FnDecl, reg: FieldRegistry) -> bool {
    match f.receiver {
        Some(r) => r.kind == ReceiverKind::Instance && !has_name(reg.skip_types@, r.owner_type@)
            && registry_type(reg.types@, reg.types@.len() as int, r.owner_type@) is Some && !f.is_external
            && !(f.body is External),
        None => false,
    }
}

/// The longest chains counted: the configured depth, at least 2.
pub open spec fn chain_depth(cfg: FieldCacheConfig) -> nat {
    if cfg.chain_max_depth > 2 { cfg.chain_max_depth as nat } else { 2 }
}

/// Occurrences of chain `p` in a body and the first one's range (see
/// `chain_in_expr`).
pub open spec fn body_chain(b: FnBody, p: Seq<Seq<char>>, maxd: nat, all: bool) -> (nat, Option<Span>) {
    match b {
        FnBody::Block(bl) => chain_in_block(bl, p, maxd, all),
        FnBody::Expr(e) => chain_in_expr(e, p, maxd, all),
        FnBody::External => (0, None),
    }
}

/// Chain `p` occurs in a closure: counted with closures it occurs more
/// often than without (counts capped at `usize::MAX`).
pub open spec fn chain_captured(b: FnBody, p: Seq<Seq<char>>, maxd: nat) -> bool {
    cap(body_chain(b, p, maxd, true).0) > cap(body_chain(b, p, maxd, false).0)
}

/// The body assigns receiver field `f`.
pub open spec fn body_writes_field(b: FnBody, f: Seq<char>) -> bool {
    match b {
        FnBody::Block(bl) => writes_block(bl, f),
        FnBody::Expr(e) => writes_expr(e, f),
        FnBody::External => false,
    }
}

/// The body assigns a receiver field named like a segment of `p`.
pub open spec fn chain_written(b: FnBody, p: Seq<Seq<char>>) -> bool {
    exists|i: int| 0 <= i < p.len() && body_writes_field(b, #[trigger] p[i])
}

/// The chains among `keys[0..k]` (in order) that get a local, with the range
/// of their first occurrence: read at least the threshold times and in no
/// closure; with `per_root`, none of their segments a field the body
/// assigns. Once a chain is taken and the budget is used up, no more are.
pub open spec fn chain_pick(
    keys: Seq<Seq<Seq<char>>>,
    k: int,
    b: FnBody,
    cfg: FieldCacheConfig,
    per_root: bool,
    dflt: Span,
) -> Seq<(Seq<Seq<char>>, Span)>
    decreases k,
{
    if k <= 0 {
        Seq::empty()
    } else {
        let r = chain_pick(keys, k - 1, b, cfg, per_root, dflt);
        let p = keys[k - 1];
        let outside = body_chain(b, p, chain_depth(cfg), false);
        if r.len() > 0 && r.len() >= cfg.max_per_fn {
            r
        } else if p.len() < 2 || outside.0 < cfg.chain_threshold || chain_captured(b, p, chain_depth(cfg))
            || (per_root && chain_written(b, p)) {
            r
        } else {
            r.push((p, span_or(outside.1, dflt)))
        }
    }
}

/// The locals of the chains `tc`: `_at_<path>_chain`, each made unique
/// against the names of `f` and the locals before it.
pub open spec fn chain_locals_for(f: FnDecl, tc: Seq<(Seq<Seq<char>>, Span)>, locals: Seq<Seq<char>>) -> bool {
    &&& locals.len() == tc.len()
    &&& forall|i: int| 0 <= i < tc.len() ==> chosen_name(taken_in(f, locals.subrange(0, i)), chain_local_base(tc[i].0), #[trigger] locals[i])
}

/// `s` is `let local = root.tail…` at `span`.
pub open spec fn is_chain_let(s: Stmt, local: Seq<char>, root: Option<Seq<char>>, tail: Seq<Seq<char>>, span: Span) -> bool {
    &&& s matches Stmt::Let(d)
    &&& !d.mutable
    &&& d.ty is None
    &&& d.span == span
    &&& d.pattern matches Pattern::Ident { name, is_mut } && name@ == local && !is_mut
    &&& is_chain_expr(d.value, root, tail, span)
}

/// The local of the first shared prefix with path `p`.
pub open spec fn prefix_local_of(out: Seq<PrefixView>, p: Seq<Seq<char>>) -> Seq<char>
    decreases out.len(),
{
    if out.len() == 0 {
        Seq::empty()
    } else if out[0].path == p {
        out[0].local
    } else {
        prefix_local_of(out.drop_first(), p)
    }
}

/// `s` reads path `p` into `local` at `span`: from the local of the longest
/// shared prefix of `out` that covers it, else from `@`.
pub open spec fn reads_path_from(s: Stmt, local: Seq<char>, p: Seq<Seq<char>>, cover: Option<Seq<Seq<char>>>, out: Seq<PrefixView>, span: Span) -> bool {
    match cover {
        Some(q) => is_chain_let(s, local, Some(prefix_local_of(out, q)), p.skip(q.len() as int), span),
        None => is_chain_let(s, local, None, p, span),
    }
}

/// The pairs `(path, local)` of the cached chains.
pub open spec fn chain_map(tc: Seq<(Seq<Seq<char>>, Span)>, locals: Seq<Seq<char>>) -> Seq<(Seq<Seq<char>>, Seq<char>)> {
    Seq::new(tc.len(), |i: int| (tc[i].0, locals[i]))
}

/// `b` is block `a` with the lets of the shared prefixes `out` and then of
/// the chains `tc` in front, and its chains replaced by their locals.
pub open spec fn chain_block_after(a: Block, b: Block, out: Seq<PrefixView>, tc: Seq<(Seq<Seq<char>>, Span)>, locals: Seq<Seq<char>>) -> bool {
    let np = out.len() as int;
    let nc = tc.len() as int;
    let m = chain_map(tc, locals);
    &&& b.span == a.span
    &&& b.stmts@.len() == np + nc + a.stmts@.len()
    &&& forall|j: int| 0 <= j < np ==> reads_path_from(#[trigger] b.stmts@[j], out[j].local, out[j].path, out[j].parent, out, out[j].span)
    &&& forall|i: int| 0 <= i < nc ==> reads_path_from(#[trigger] b.stmts@[np + i], locals[i], tc[i].0,
        longest_cover(prefix_paths(out), tc[i].0, tc[i].0.len() - 1), out, tc[i].1)
    &&& forall|i: int| 0 <= i < a.stmts@.len() ==> chain_replaced_stmt(a.stmts@[i], #[trigger] b.stmts@[np + nc + i], m)
    &&& match a.trailing {
        Some(x) => b.trailing matches Some(y) && chain_replaced_expr(*x, *y, m),
        None => b.trailing is None,
    }
}

/// `new` is method `old` after chain caching: unchanged when the pass does
/// not apply, the body starts concurrent work, the body assigns a receiver
/// field and no write sets are used, or no chain is chosen; otherwise its
/// body is a block with the lets and replaced chains that the chains chosen
/// (from the chains of the body in character order) call for.
pub open spec fn chain_cached(old: FnDecl, new: FnDecl, reg: FieldRegistry, cfg: FieldCacheConfig, ws: WriteSets) -> bool {
    if !chain_applies(old, reg) {
        new == old
    } else {
        let per_root = method_ctx(old, cfg, ws) is Some;
        let maxd = chain_depth(cfg);
        if body_spawns(old.body) || (!per_root && body_writes_any(old.body)) {
            new == old
        } else {
            exists|keys: Seq<Seq<Seq<char>>>| #[trigger] sorted_paths(keys)
                && (forall|q: Seq<Seq<char>>| #[trigger] keys.contains(q) <==> body_chain(old.body, q, maxd, false).0 > 0)
                && {
                let tc = chain_pick(keys, keys.len() as int, old.body, cfg, per_root, body_span_of(old.body));
                if tc.len() == 0 {
                    new == old
                } else {
                    &&& same_header(old, new)
                    &&& exists|blk: Block, b: Block, locals: Seq<Seq<char>>| #![trigger chain_locals_for(old, tc, locals), coerced(old.body, blk), at_block(b)]
                        new.body == FnBody::Block(b) && coerced(old.body, blk) && chain_locals_for(old, tc, locals)
                            && chain_block_after(blk, b, shared_prefixes(tc, cfg.max_per_fn as nat,
                                Set::new(|x: Seq<char>| method_binds(old, x) || locals.contains(x))).out, tc, locals)
                }
            }
        }
    }
}

proof fn lemma_pick_stops(keys: Seq<Seq<Seq<char>>>, i: int, j: int, b: FnBody, cfg: FieldCacheConfig, per_root: bool, dflt: Span)
    requires
        0 <= i <= j,
        chain_pick(keys, i, b, cfg, per_root, dflt).len() > 0,
        chain_pick(keys, i, b, cfg, per_root, dflt).len() >= cfg.max_per_fn,
    ensures
        chain_pick(keys, j, b, cfg, per_root, dflt) == chain_pick(keys, i, b, cfg, per_root, dflt),
    decreases j - i,
{
    if j > i {
        lemma_pick_stops(keys, i, j - 1, b, cfg, per_root, dflt);
    }
}

proof fn lemma_replaced_stmts_each(a: Vec<crate::ast::Stmt>, b: Vec<crate::ast::Stmt>, k: int, m: Seq<(Seq<Seq<char>>, Seq<char>)>)
    requires
        0 <= k <= a.len(),
        chain_replaced_stmts(a, b, k, m),
    ensures
        a.len() == b.len(),
        forall|i: int| 0 <= i < k ==> chain_replaced_stmt(a[i], b[i], m),
    decreases k,
{
    if k > 0 {
        lemma_replaced_stmts_each(a, b, k - 1, m);
    }
}

/// Whether the body assigns a field named like a segment of `p`.
fn path_written(b: &FnBody, p: &Vec<String>) -> (r: bool)
    ensures
        r == chain_written(*b, names_view(p@)),
{
    let ghost pv = names_view(p@);
    let mut i: usize = 0;
    while i < p.len()
        invariant
            pv == names_view(p@),
            i <= p@.len(),
            forall|j: int| 0 <= j < i ==> !body_writes_field(*b, #[trigger] pv[j]),
        decreases p@.len() - i,
    {
        let w = match b {
            FnBody::Block(bl) => writes_in_block(bl, p[i].as_str()),
            FnBody::Expr(e) => writes_in_expr(e, p[i].as_str()),
            FnBody::External => false,
        };
        assert(pv[i as int] == p@[i as int]@);
        if w {
            return true;
        }
        i = i + 1;
    }
    false
}

fn body_chain_exec(b: &FnBody, p: &Vec<String>, maxd: usize, all: bool) -> (r: (usize, Option<Span>))
    ensures
        r.0 == cap(body_chain(*b, names_view(p@), maxd as nat, all).0),
        r.1 == body_chain(*b, names_view(p@), maxd as nat, all).1,
{
    match b {
        FnBody::Block(bl) => scan_chain_block(bl, p, maxd, all),
        FnBody::Expr(e) => scan_chain_expr(e, p, maxd, all),
        FnBody::External => (0, None),
    }
}

/// The local of the first shared prefix with path `p` (see
/// `prefix_local_of`).
fn prefix_local_exec(out: &Vec<PrefixLocal>, p: &Vec<String>) -> (r: String)
    ensures
        r@ == prefix_local_of(prefixes_view(out@), names_view(p@)),
{
    let ghost ov = prefixes_view(out@);
    let mut i: usize = 0;
    assert(ov.skip(0) =~= ov);
    while i < out.len()
        invariant
            ov == prefixes_view(out@),
            i <= out@.len(),
            prefix_local_of(ov, names_view(p@)) == prefix_local_of(ov.skip(i as int), names_view(p@)),
        decreases out@.len() - i,
    {
        let ghost rest = ov.skip(i as int);
        assert(rest.drop_first() =~= ov.skip(i + 1));
        assert(rest[0] == out@[i as int].view_of());
        if crate::field_cache::chain_path::path_eq(&out[i].path, p) {
            return copy_str(out[i].local.as_str());
        }
        i = i + 1;
    }
    String::new()
}

/// `let local = root.p[from..]` at `span`.
fn chain_let(local: &str, root: Option<&str>, p: &Vec<String>, from: usize, span: Span) -> (s: Stmt)
    requires
        from <= p@.len(),
    ensures
        is_chain_let(s, local@, match root { Some(l) => Some(l@), None => None }, names_view(p@).skip(from as int), span),
{
    let value = build_chain(root, p, from, span);
    Stmt::Let(LetDecl { mutable: false, pattern: Pattern::Ident { name: copy_str(local), is_mut: false }, ty: None, value, span })
}

/// The let reading path `p` into `local`, from the longest shared prefix in
/// `out` that covers it, else from `@` (see `reads_path_from`).
fn path_let(local: &str, p: &Vec<String>, cover: Option<Vec<String>>, out: &Vec<PrefixLocal>, span: Span) -> (s: Stmt)
    requires
        match cover {
            Some(q) => q@.len() <= p@.len(),
            None => true,
        },
    ensures
        reads_path_from(s, local@, names_view(p@), match cover { Some(q) => Some(names_view(q@)), None => None }, prefixes_view(out@), span),
{
    match cover {
        Some(q) => {
            let l = prefix_local_exec(out, &q);
            chain_let(local, Some(l.as_str()), p, q.len(), span)
        },
        None => {
            let s = chain_let(local, None, p, 0, span);
            assert(names_view(p@).skip(0) =~= names_view(p@));
            s
        },
    }
}

/// Caches the member chains of one method (see `chain_cached`).
pub fn cache_chains(f: &mut FnDecl, reg: &FieldRegistry, cfg: &FieldCacheConfig, ws: &WriteSets)
    ensures
        chain_cached(*old(f), *final(f), *reg, *cfg, *ws),
{
    let ghost f0 = *f;
    let owner: String = match &f.receiver {
        Some(r) => {
            match r.kind {
                ReceiverKind::Instance => {},
                ReceiverKind::Static => {
                    return;
                },
            }
            if contains_name(&reg.skip_types, r.owner_type.as_str()) {
                return;
            }
            copy_str(r.owner_type.as_str())
        },
        None => {
            return;
        },
    };
    if f.is_external {
        return;
    }
    match &f.body {
        FnBody::External => {
            return;
        },
        _ => {},
    }
    if find_type(reg, owner.as_str()).is_none() {
        return;
    }
    assert(chain_applies(f0, *reg));
    let spawns = match &f.body {
        FnBody::Block(b) => spawns_in_block(b),
        FnBody::Expr(e) => spawns_in_expr(e),
        FnBody::External => false,
    };
    if spawns {
        return;
    }
    let per_root = cfg.ipa_enabled && ws.entries.len() > 0;
    assert(per_root == (method_ctx(f0, *cfg, *ws) is Some));
    if !per_root && body_writes_any_field(&f.body) {
        return;
    }
    let maxd: usize = if cfg.chain_max_depth > 2 { cfg.chain_max_depth } else { 2 };
    let mut keys: Vec<Vec<String>> = Vec::new();
    proof {
        assert(paths_view(keys@) =~= Seq::<Seq<Seq<char>>>::empty());
    }
    match &f.body {
        FnBody::Block(b) => collect_chains_block(b, maxd, &mut keys),
        FnBody::Expr(e) => collect_chains_expr(e, maxd, &mut keys),
        FnBody::External => {},
    }
    let ghost kv = paths_view(keys@);
    let span = body_span(&f.body);
    let mut tc: Vec<(Vec<String>, Span)> = Vec::new();
    let mut i: usize = 0;
    proof {
        assert(entries_view(tc@) =~= Seq::<(Seq<Seq<char>>, Span)>::empty());
    }
    while i < keys.len() && !(tc.len() > 0 && tc.len() >= cfg.max_per_fn)
        invariant
            kv == paths_view(keys@),
            i <= keys@.len(),
            f0 == *f,
            maxd as nat == chain_depth(*cfg),
            span == body_span_of(f0.body),
            entries_view(tc@) == chain_pick(kv, i as int, f0.body, *cfg, per_root, span),
            forall|q: int| 0 <= q < tc@.len() ==> (#[trigger] tc@[q]).0@.len() >= 2,
        decreases keys@.len() - i,
    {
        let p = &keys[i];
        assert(kv[i as int] == names_view(p@));
        let out = body_chain_exec(&f.body, p, maxd, false);
        let all = body_chain_exec(&f.body, p, maxd, true);
        let written = per_root && path_written(&f.body, p);
        if p.len() >= 2 && out.0 >= cfg.chain_threshold && !(all.0 > out.0) && !written {
            let first = match out.1 {
                Some(s) => s,
                None => span,
            };
            let ghost t0 = entries_view(tc@);
            tc.push((copy_path(p), first));
            assert(entries_view(tc@) =~= t0.push((names_view(p@), first)));
        }
        i = i + 1;
    }
    proof {
        if i < keys@.len() {
            lemma_pick_stops(kv, i as int, kv.len() as int, f0.body, *cfg, per_root, span);
        }
    }
    if tc.len() == 0 {
        return;
    }
    let ghost tv = entries_view(tc@);
    let mut used = method_local_names(f);
    let mut locals: Vec<String> = Vec::new();
    let mut q: usize = 0;
    while q < tc.len()
        invariant
            q <= tc@.len(),
            tv == entries_view(tc@),
            locals@.len() == q,
            forall|x: Seq<char>| #[trigger] has_name(used@, x) <==> method_binds(f0, x) || names_view(locals@).contains(x),
            forall|i2: int| 0 <= i2 < q ==> chosen_name(taken_in(f0, names_view(locals@).subrange(0, i2)), chain_local_base(tv[i2].0),
                #[trigger] names_view(locals@)[i2]),
        decreases tc@.len() - q,
    {
        let base = make_chain_base(&tc[q].0);
        assert(tv[q as int].0 == names_view(tc@[q as int].0@));
        let local = fresh_name(&used, base.as_str());
        proof { lemma_taken_ext(f0, used@, names_view(locals@), base@, local@); }
        add_name(&mut used, local.as_str());
        let ghost l0 = names_view(locals@);
        locals.push(copy_str(local.as_str()));
        proof {
            let l1 = names_view(locals@);
            assert(l1 =~= l0.push(local@));
            assert forall|i2: int| 0 <= i2 < q + 1 implies chosen_name(taken_in(f0, l1.subrange(0, i2)), chain_local_base(tv[i2].0),
                #[trigger] l1[i2]) by {
                assert(l1.subrange(0, i2) =~= if i2 < q { l0.subrange(0, i2) } else { l0 });
            }
            assert forall|x: Seq<char>| #[trigger] has_name(used@, x) <==> method_binds(f0, x) || l1.contains(x) by {
                if l1.contains(x) && x != local@ {
                    let j = choose|j: int| 0 <= j < l1.len() && l1[j] == x;
                    assert(l0[j] == x);
                }
                if l0.contains(x) {
                    let j = choose|j: int| 0 <= j < l0.len() && l0[j] == x;
                    assert(l1[j] == x);
                }
                if x == local@ {
                    assert(l1[q as int] == x);
                }
            }
        }
        q = q + 1;
    }
    let ghost lv = names_view(locals@);
    proof {
        assert(Set::new(|x: Seq<char>| has_name(used@, x)) =~= Set::new(|x: Seq<char>| method_binds(f0, x) || lv.contains(x)));
    }
    let pre = shared_prefix_locals(&tc, &mut used, cfg.max_per_fn);
    let ghost ov = prefixes_view(pre@);
    proof {
        lemma_shared_parents(tv, cfg.max_per_fn as nat, Set::new(|x: Seq<char>| method_binds(f0, x) || lv.contains(x)));
    }
    let mut m: Vec<(Vec<String>, String)> = Vec::new();
    let mut k: usize = 0;
    while k < tc.len()
        invariant
            k <= tc@.len(),
            tv == entries_view(tc@),
            lv == names_view(locals@),
            locals@.len() == tc@.len(),
            chain_pairs_view(m@) == chain_map(tv, lv).take(k as int),
        decreases tc@.len() - k,
    {
        let ghost m0 = chain_pairs_view(m@);
        m.push((copy_path(&tc[k].0), copy_str(locals[k].as_str())));
        proof {
            assert(tv[k as int] == (names_view(tc@[k as int].0@), tc@[k as int].1));
            assert(chain_pairs_view(m@) =~= m0.push((tv[k as int].0, lv[k as int])));
            assert(chain_map(tv, lv).take(k + 1) =~= chain_map(tv, lv).take(k as int).push((tv[k as int].0, lv[k as int])));
        }
        k = k + 1;
    }
    proof {
        assert(chain_map(tv, lv).take(tc@.len() as int) =~= chain_map(tv, lv));
    }
    let mut body = FnBody::External;
    std::mem::swap(&mut body, &mut f.body);
    let blk = match body {
        FnBody::Block(b) => b,
        FnBody::Expr(e) => {
            let sp = e.span;
            Block { stmts: Vec::new(), trailing: Some(Box::new(e)), span: sp }
        },
        FnBody::External => Block { stmts: Vec::new(), trailing: None, span },
    };
    let ghost blk0 = blk;
    let rb = chain_rewrite_block(blk, &m);
    proof {
        lemma_replaced_stmts_each(blk0.stmts, rb.stmts, blk0.stmts.len() as int, chain_pairs_view(m@));
    }
    let Block { stmts: rstmts, trailing: rtrailing, span: rspan } = rb;
    let mut stmts: Vec<Stmt> = Vec::new();
    let mut j: usize = 0;
    while j < pre.len()
        invariant
            j <= pre@.len(),
            ov == prefixes_view(pre@),
            parents_ok(ov),
            stmts@.len() == j,
            forall|j2: int| 0 <= j2 < j ==> reads_path_from(#[trigger] stmts@[j2], ov[j2].local, ov[j2].path, ov[j2].parent, ov, ov[j2].span),
        decreases pre@.len() - j,
    {
        let pv = &pre[j];
        assert(ov[j as int] == pv.view_of());
        let cover = match &pv.parent {
            Some(pp) => Some(copy_path(pp)),
            None => None,
        };
        proof {
            assert(parents_ok(ov));
            let _ = ov[j as int];
        }
        let s = path_let(pv.local.as_str(), &pv.path, cover, &pre, pv.span);
        let ghost s0 = stmts@;
        stmts.push(s);
        proof {
            assert forall|j2: int| 0 <= j2 < j + 1 implies reads_path_from(#[trigger] stmts@[j2], ov[j2].local, ov[j2].path, ov[j2].parent, ov, ov[j2].span) by {
                if j2 < j {
                    assert(stmts@[j2] == s0[j2]);
                }
            }
        }
        j = j + 1;
    }
    let mut c: usize = 0;
    while c < tc.len()
        invariant
            c <= tc@.len(),
            tv == entries_view(tc@),
            lv == names_view(locals@),
            locals@.len() == tc@.len(),
            ov == prefixes_view(pre@),
            forall|q2: int| 0 <= q2 < tc@.len() ==> (#[trigger] tc@[q2]).0@.len() >= 2,
            stmts@.len() == pre@.len() + c,
            forall|j2: int| 0 <= j2 < pre@.len() ==> reads_path_from(#[trigger] stmts@[j2], ov[j2].local, ov[j2].path, ov[j2].parent, ov, ov[j2].span),
            forall|i2: int| 0 <= i2 < c ==> reads_path_from(#[trigger] stmts@[pre@.len() + i2], lv[i2], tv[i2].0,
                longest_cover(prefix_paths(ov), tv[i2].0, tv[i2].0.len() - 1), ov, tv[i2].1),
        decreases tc@.len() - c,
    {
        let p = &tc[c].0;
        assert(tv[c as int] == (names_view(p@), tc@[c as int].1));
        assert(lv[c as int] == locals@[c as int]@);
        let cover = longest_cover_exec(&pre, p, p.len() - 1);
        proof {
            if cover is Some {
                assert(longest_cover(prefix_paths(ov), names_view(p@), p@.len() - 1) is Some);
                lemma_cover_len(prefix_paths(ov), names_view(p@), p@.len() - 1);
            }
        }
        let s = path_let(locals[c].as_str(), p, cover, &pre, tc[c].1);
        let ghost s0 = stmts@;
        stmts.push(s);
        proof {
            assert forall|j2: int| 0 <= j2 < pre@.len() implies reads_path_from(#[trigger] stmts@[j2], ov[j2].local, ov[j2].path, ov[j2].parent, ov, ov[j2].span) by {
                assert(stmts@[j2] == s0[j2]);
            }
            assert forall|i2: int| 0 <= i2 < c + 1 implies reads_path_from(#[trigger] stmts@[pre@.len() + i2], lv[i2], tv[i2].0,
                longest_cover(prefix_paths(ov), tv[i2].0, tv[i2].0.len() - 1), ov, tv[i2].1) by {
                if i2 < c {
                    assert(stmts@[pre@.len() + i2] == s0[pre@.len() + i2]);
                }
            }
        }
        c = c + 1;
    }
    let np = stmts.len();
    let ghost pre_stmts = stmts@;
    let mut rest = rstmts;
    let ghost rs = rest@;
    let ghost mut r: int = 0;
    while rest.len() > 0
        invariant
            np == pre@.len() + tc@.len(),
            pre_stmts.len() == np,
            stmts@.len() == np + r,
            0 <= r,
            rest@ == rs.subrange(r, rs.len() as int),
            r <= rs.len(),
            forall|x: int| 0 <= x < np ==> stmts@[x] == pre_stmts[x],
            forall|x: int| 0 <= x < r ==> stmts@[np + x] == rs[x],
        decreases rest.len(),
    {
        let x = rest.remove(0);
        assert(x == rs[r]);
        stmts.push(x);
        proof {
            r = r + 1;
        }
        assert(rest@ =~= rs.subrange(r, rs.len() as int));
    }
    let nb = Block { stmts, trailing: rtrailing, span: rspan };
    f.body = FnBody::Block(nb);
    proof {
        let st = shared_prefixes(tv, cfg.max_per_fn as nat, Set::new(|x: Seq<char>| method_binds(f0, x) || lv.contains(x)));
        assert(st.out == ov);
        assert(chain_locals_for(f0, tv, lv));
        assert(coerced(f0.body, blk0));
        assert(chain_block_after(blk0, nb, ov, tv, lv)) by {
            assert forall|j2: int| 0 <= j2 < ov.len() implies reads_path_from(#[trigger] nb.stmts@[j2], ov[j2].local, ov[j2].path, ov[j2].parent, ov, ov[j2].span) by {
                assert(nb.stmts@[j2] == pre_stmts[j2]);
            }
            assert forall|i2: int| 0 <= i2 < tv.len() implies reads_path_from(#[trigger] nb.stmts@[ov.len() + i2], lv[i2], tv[i2].0,
                longest_cover(prefix_paths(ov), tv[i2].0, tv[i2].0.len() - 1), ov, tv[i2].1) by {
                assert(nb.stmts@[ov.len() + i2] == pre_stmts[ov.len() + i2]);
            }
            assert forall|i2: int| 0 <= i2 < blk0.stmts@.len() implies chain_replaced_stmt(blk0.stmts@[i2], #[trigger] nb.stmts@[ov.len() + tv.len() + i2], chain_map(tv, lv)) by {
                assert(nb.stmts@[ov.len() + tv.len() + i2] == rs[i2]);
            }
        }
        assert(sorted_paths(kv));
        assert(at_block(nb));
    }
}

} // verus!
