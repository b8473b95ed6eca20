//! The caching pass on one method: which fields and regions get a cache
//! local, the locals' names, and the rewritten body.

use vstd::prelude::*;
use crate::ast::{Block, FnBody, FnDecl, ReceiverKind, Span, Stmt};
use crate::field_cache::apply::{apply_plan, block_after, LocalTarget};
use crate::field_cache::nested::{nest_fields, nested_run, NestCounter, NestState};
use crate::text::copy_str;
use crate::field_cache::collect::{add_name, has_name};
use crate::field_cache::ipa::{contains_name, names_view, IpaView, WriteSets};
use crate::field_cache::names::{at_name, chosen_name, first_free, fresh_name, make_region_name, method_binds, method_local_names, region_name, make_at_name};
use crate::field_cache::plan::{
    body_captures, body_captures_field, body_reads, body_stmt_count, lemma_field_pick_starts, count_body_reads, entry_kind, field_pick, find_type, kind_of,
    plan_method, registry_type, sorted_field_names, sorted_names, target_view, CachePlan, FieldCacheConfig, FieldKind,
    FieldRegistry, MutRegion, MutTarget, TypeFields,
};
use crate::field_cache::scan::ipa_view;

verus! {

/// The cacheable fields of the receiver type of `f`, when `f` is a method
/// the pass works on: an instance method with a body, not external, whose
/// receiver type is a record with cacheable fields.
pub open spec fn method_fields(f: FnDecl, reg: FieldRegistry) -> Option<TypeFields> {
    match f.receiver {
        Some(r) => if r.kind == ReceiverKind::Instance && !has_name(reg.skip_types@, r.owner_type@) && !f.is_external
            && !(f.body is External) {
            match registry_type(reg.types@, reg.types@.len() as int, r.owner_type@) {
                Some(tf) => if tf.fields@.len() > 0 { Some(tf) } else { None },
                None => None,
            }
        } else {
            None
        },
        None => None,
    }
}

/// The call context of `f`: the write sets and its receiver type, when the
/// pass uses write sets and has any.
pub open spec fn method_ctx(f: FnDecl, cfg: FieldCacheConfig, ws: WriteSets) -> Option<IpaView> {
    if cfg.ipa_enabled && ws.entries@.len() > 0 {
        match f.receiver {
            Some(r) => Some(IpaView { entries: ws.entries@, recv: r.owner_type@ }),
            None => None,
        }
    } else {
        None
    }
}

/// The source range of a body.
pub open spec fn body_span_of(b: FnBody) -> Span {
    match b {
        FnBody::Block(bl) => bl.span,
        FnBody::Expr(e) => e.span,
        FnBody::External => Span { start: 0, end: 0, file_id: 0 },
    }
}

/// Some mutable field of the receiver is read in the body outside closures
/// and read in no closure.
pub open spec fn has_mut_read(b: FnBody, tf: TypeFields) -> bool {
    exists|x: Seq<char>| entry_kind(tf.fields@, tf.fields@.len() as int, x) == Some(FieldKind::Mut)
        && !body_captures(b, x) && #[trigger] body_reads(b, x) > 0
}

/// `blk` is the body as a block: the block itself, or an expression body as
/// a block with no statements and the expression as its value.
pub open spec fn coerced(b: FnBody, blk: Block) -> bool {
    match b {
        FnBody::Block(x) => blk == x,
        FnBody::Expr(e) => blk.stmts@.len() == 0 && blk.trailing == Some(Box::new(e)) && blk.span == e.span,
        FnBody::External => false,
    }
}

/// Everything but the body is the same.
pub open spec fn same_header(a: FnDecl, b: FnDecl) -> bool {
    &&& b.name == a.name
    &&& b.receiver == a.receiver
    &&& b.params == a.params
    &&& b.effects == a.effects
    &&& b.ret == a.ret
    &&& b.purity == a.purity
    &&& b.is_external == a.is_external
    &&& b.is_export == a.is_export
    &&& b.span == a.span
}

pub open spec fn locals_of(ts: Seq<LocalTarget>) -> Seq<Seq<char>> {
    ts.map_values(|t: LocalTarget| t.local@)
}

/// The names in use in `f` once the locals `extra` are added.
pub open spec fn taken_in(f: FnDecl, extra: Seq<Seq<char>>) -> spec_fn(Seq<char>) -> bool {
    |x: Seq<char>| method_binds(f, x) || extra.contains(x)
}

/// `ro` and `ts` carry out the decisions `plan` for method `f`: the same
/// fields and regions in the same order, each with the local name
/// `_at_<field>` (`_at_<field>_r<n>` for later regions) made unique against
/// the names of `f` and the locals chosen before it.
pub open spec fn targets_for(
    f: FnDecl,
    plan: (Seq<Seq<char>>, Seq<(Seq<char>, MutRegion, nat)>, nat),
    ro: Seq<LocalTarget>,
    ts: Seq<LocalTarget>,
) -> bool {
    &&& ro.len() == plan.0.len()
    &&& ts.len() == plan.1.len()
    &&& forall|p: int| 0 <= p < ro.len() ==> (#[trigger] ro[p]).field@ == plan.0[p]
        && chosen_name(taken_in(f, locals_of(ro.subrange(0, p))), at_name(plan.0[p]), ro[p].local@)
    &&& forall|q: int| 0 <= q < ts.len() ==> {
        let m = plan.1[q];
        &&& (#[trigger] ts[q]).field@ == m.0
        &&& ts[q].start == m.1.start
        &&& ts[q].end == m.1.end
        &&& ts[q].trailing == m.1.trailing_included
        &&& chosen_name(taken_in(f, locals_of(ro) + locals_of(ts.subrange(0, q))),
            if m.2 == 0 { at_name(m.0) } else { region_name(m.0, m.2) }, ts[q].local@)
    }
}

/// The caching decisions for method `f` with field names in the order `names`.
pub open spec fn method_plan(f: FnDecl, tf: TypeFields, names: Seq<String>, cfg: FieldCacheConfig, ws: WriteSets)
    -> (Seq<Seq<char>>, Seq<(Seq<char>, MutRegion, nat)>, nat) {
    field_pick(names_view(names), names.len() as int, tf.fields@, f.body, method_ctx(f, cfg, ws),
        cfg.threshold as nat, cfg.max_per_fn as nat, body_span_of(f.body))
}

/// The mutable fields among `names[0..k]` (in order) that nested caching
/// works on: read in the body outside closures and read in no closure.
pub open spec fn nested_candidates(names: Seq<Seq<char>>, k: int, tf: TypeFields, b: FnBody) -> Seq<Seq<char>>
    decreases k,
{
    if k <= 0 {
        Seq::empty()
    } else {
        let r = nested_candidates(names, k - 1, tf, b);
        let x = names[k - 1];
        if entry_kind(tf.fields@, tf.fields@.len() as int, x) == Some(FieldKind::Mut) && !body_captures(b, x) && body_reads(b, x) > 0 {
            r.push(x)
        } else {
            r
        }
    }
}

/// Where nested caching starts for method `f` after the top-level locals
/// `ro` and `ts`: numbering at 0, the method's budget minus those locals,
/// and the names of `f` and of those locals in use.
pub open spec fn nest_start(f: FnDecl, cfg: FieldCacheConfig, ro: Seq<LocalTarget>, ts: Seq<LocalTarget>) -> NestState {
    NestState {
        seq: 0,
        budget: if cfg.max_per_fn >= ro.len() + ts.len() { (cfg.max_per_fn - ro.len() - ts.len()) as nat } else { 0 },
        used: Set::new(|x: Seq<char>| method_binds(f, x) || (locals_of(ro) + locals_of(ts)).contains(x)),
    }
}

/// `new` is method `old` after caching: unchanged when the pass does not
/// apply or decides nothing (and no mutable field is read at all);
/// otherwise its body is a block holding the lets and replaced reads that
/// the top-level decisions call for (`block_after`), deciding over the
/// receiver's fields in character order, and then the nested blocks cached
/// for each candidate mutable field in turn (`nested_run`).
pub open spec fn method_cached(old: FnDecl, new: FnDecl, reg: FieldRegistry, cfg: FieldCacheConfig, ws: WriteSets) -> bool {
    match method_fields(old, reg) {
        None => new == old,
        Some(tf) => exists|names: Seq<String>| #[trigger] sorted_names(names)
            && (forall|x: Seq<char>| #[trigger] has_name(names, x) <==> entry_kind(tf.fields@, tf.fields@.len() as int, x) is Some)
            && {
            let plan = method_plan(old, tf, names, cfg, ws);
            let fs = nested_candidates(names_view(names), names.len() as int, tf, old.body);
            if plan.0.len() == 0 && plan.1.len() == 0 && !has_mut_read(old.body, tf) {
                new == old
            } else {
                &&& same_header(old, new)
                &&& exists|blk: Block, b: Block, ro: Seq<LocalTarget>, ts: Seq<LocalTarget>, fin: Block, s1: NestState|
                    #![trigger block_after(blk, b, ro, ts), nested_run(b, fin, fs, fs.len() as int, cfg.threshold as nat, method_ctx(old, cfg, ws), nest_start(old, cfg, ro, ts), s1)]
                    new.body == FnBody::Block(fin) && coerced(old.body, blk) && targets_for(old, plan, ro, ts)
                        && block_after(blk, b, ro, ts)
                        && nested_run(b, fin, fs, fs.len() as int, cfg.threshold as nat, method_ctx(old, cfg, ws), nest_start(old, cfg, ro, ts), s1)
            }
        },
    }
}

/// The source range of a body.
pub fn body_span(b: &FnBody) -> (r: Span)
    ensures
        r == body_span_of(*b),
{
    match b {
        FnBody::Block(bl) => bl.span,
        FnBody::Expr(e) => e.span,
        FnBody::External => Span { start: 0, end: 0, file_id: 0 },
    }
}

/// Whether some mutable field among `names` is read in the body outside
/// closures and in no closure.
fn mut_field_read(body: &FnBody, names: &Vec<String>, tf: &TypeFields) -> (r: bool)
    requires
        forall|x: Seq<char>| #[trigger] has_name(names@, x) <==> entry_kind(tf.fields@, tf.fields@.len() as int, x) is Some,
    ensures
        r == has_mut_read(*body, *tf),
{
    let mut i: usize = 0;
    while i < names.len()
        invariant
            i <= names@.len(),
            forall|x: Seq<char>| #[trigger] has_name(names@, x) <==> entry_kind(tf.fields@, tf.fields@.len() as int, x) is Some,
            forall|j: int| 0 <= j < i ==> !(entry_kind(tf.fields@, tf.fields@.len() as int, #[trigger] names@[j]@) == Some(FieldKind::Mut)
                && !body_captures(*body, names@[j]@) && body_reads(*body, names@[j]@) > 0),
        decreases names@.len() - i,
    {
        let f = names[i].as_str();
        match kind_of(&tf.fields, f) {
            Some(FieldKind::Mut) => {
                if !body_captures_field(body, f) && count_body_reads(body, f) > 0 {
                    return true;
                }
            },
            _ => {},
        }
        i = i + 1;
    }
    proof {
        if has_mut_read(*body, *tf) {
            let x = choose|x: Seq<char>| entry_kind(tf.fields@, tf.fields@.len() as int, x) == Some(FieldKind::Mut)
                && !body_captures(*body, x) && #[trigger] body_reads(*body, x) > 0;
            assert(has_name(names@, x));
            let j = choose|j: int| 0 <= j < names_view(names@).len() && names_view(names@)[j] == x;
            assert(names@[j]@ == x);
        }
    }
    false
}

/// The nested-caching candidates among `names` (see `nested_candidates`).
fn nested_field_list(body: &FnBody, names: &Vec<String>, tf: &TypeFields) -> (r: Vec<String>)
    ensures
        names_view(r@) == nested_candidates(names_view(names@), names@.len() as int, *tf, *body),
{
    let ghost nv = names_view(names@);
    let mut r: Vec<String> = Vec::new();
    let mut i: usize = 0;
    while i < names.len()
        invariant
            i <= names@.len(),
            nv == names_view(names@),
            names_view(r@) == nested_candidates(nv, i as int, *tf, *body),
        decreases names@.len() - i,
    {
        let x = names[i].as_str();
        assert(nv[i as int] == x@);
        let is_mut = match kind_of(&tf.fields, x) {
            Some(FieldKind::Mut) => true,
            _ => false,
        };
        if is_mut && !body_captures_field(body, x) && count_body_reads(body, x) > 0 {
            let ghost r0 = r@;
            r.push(copy_str(x));
            assert(names_view(r@) =~= names_view(r0).push(x@));
        }
        i = i + 1;
    }
    r
}

pub proof fn lemma_taken_ext(f: FnDecl, used: Seq<String>, extra: Seq<Seq<char>>, base: Seq<char>, r: Seq<char>)
    requires
        forall|x: Seq<char>| #[trigger] has_name(used, x) <==> method_binds(f, x) || extra.contains(x),
        first_free(used, base, r),
    ensures
        chosen_name(taken_in(f, extra), base, r),
{
    let a = |x: Seq<char>| has_name(used, x);
    let b = taken_in(f, extra);
    assert(a =~= b);
}

/// Caches one method: its top-level statements, then its nested blocks
/// (see `method_cached`).
pub fn cache_method(f: &mut FnDecl, reg: &FieldRegistry, cfg: &FieldCacheConfig, ws: &WriteSets)
    ensures
        method_cached(*old(f), *final(f), *reg, *cfg, *ws),
{
    let ghost f0 = *f;
    let owner: String = match &f.receiver {
        Some(r) => {
            match r.kind {
                ReceiverKind::Instance => {},
                ReceiverKind::Static => {
                    return;
                },
            }
            if contains_name(&reg.skip_types, r.owner_type.as_str()) {
                return;
            }
            String::from_str(r.owner_type.as_str())
        },
        None => {
            return;
        },
    };
    if f.is_external {
        return;
    }
    match &f.body {
        FnBody::External => {
            return;
        },
        _ => {},
    }
    let ti = match find_type(reg, owner.as_str()) {
        Some(i) => i,
        None => {
            return;
        },
    };
    let tf = &reg.types[ti];
    if tf.fields.len() == 0 {
        return;
    }
    assert(method_fields(f0, *reg) == Some(*tf));
    let names = sorted_field_names(&tf.fields);
    let ipa: Option<(&WriteSets, &str)> = if cfg.ipa_enabled && ws.entries.len() > 0 {
        Some((ws, owner.as_str()))
    } else {
        None
    };
    assert(ipa_view(ipa) == method_ctx(f0, *cfg, *ws));
    let span = body_span(&f.body);
    let plan = plan_method(&f.body, &names, &tf.fields, cfg, ipa, span);
    let ghost pv = method_plan(f0, *tf, names@, *cfg, *ws);
    assert(plan.ro@.map_values(|s: String| s@) == pv.0);
    assert(plan.muts@.map_values(|t: MutTarget| target_view(t)) == pv.1);
    if plan.ro.len() == 0 && plan.muts.len() == 0 && !mut_field_read(&f.body, &names, tf) {
        return;
    }
    let fs = nested_field_list(&f.body, &names, tf);
    let mut used = method_local_names(f);
    let ghost extra0: Seq<Seq<char>> = Seq::empty();
    let mut ro_t: Vec<LocalTarget> = Vec::new();
    let mut p: usize = 0;
    while p < plan.ro.len()
        invariant
            p <= plan.ro@.len(),
            ro_t@.len() == p,
            plan.ro@.map_values(|s: String| s@) == pv.0,
            forall|x: Seq<char>| #[trigger] has_name(used@, x) <==> method_binds(f0, x) || locals_of(ro_t@).contains(x),
            forall|p2: int| 0 <= p2 < p ==> (#[trigger] ro_t@[p2]).field@ == pv.0[p2]
                && chosen_name(taken_in(f0, locals_of(ro_t@.subrange(0, p2))), at_name(pv.0[p2]), ro_t@[p2].local@),
        decreases plan.ro@.len() - p,
    {
        let field = plan.ro[p].as_str();
        assert(pv.0[p as int] == field@);
        let base = make_at_name(field);
        let local = fresh_name(&used, base.as_str());
        proof { lemma_taken_ext(f0, used@, locals_of(ro_t@), base@, local@); }
        add_name(&mut used, local.as_str());
        let ghost r0 = ro_t@;
        ro_t.push(LocalTarget { field: String::from_str(field), local, start: 0, end: 0, trailing: false, span });
        proof {
            assert(ro_t@.subrange(0, p as int) =~= r0);
            assert(locals_of(ro_t@) =~= locals_of(r0).push(ro_t@[p as int].local@));
            assert forall|p2: int| 0 <= p2 < p + 1 implies (#[trigger] ro_t@[p2]).field@ == pv.0[p2]
                && chosen_name(taken_in(f0, locals_of(ro_t@.subrange(0, p2))), at_name(pv.0[p2]), ro_t@[p2].local@) by {
                if p2 < p {
                    assert(ro_t@.subrange(0, p2) =~= r0.subrange(0, p2));
                    assert(ro_t@[p2] == r0[p2]);
                }
            }
            assert forall|x: Seq<char>| #[trigger] has_name(used@, x) <==> method_binds(f0, x) || locals_of(ro_t@).contains(x) by {
                let l = ro_t@[p as int].local@;
                if locals_of(ro_t@).contains(x) && x != l {
                    let j = choose|j: int| 0 <= j < locals_of(ro_t@).len() && locals_of(ro_t@)[j] == x;
                    assert(locals_of(r0)[j] == x);
                }
                if locals_of(r0).contains(x) {
                    let j = choose|j: int| 0 <= j < locals_of(r0).len() && locals_of(r0)[j] == x;
                    assert(locals_of(ro_t@)[j] == x);
                }
                if x == l {
                    assert(locals_of(ro_t@)[p as int] == x);
                }
            }
        }
        p = p + 1;
    }
    let mut mt: Vec<LocalTarget> = Vec::new();
    let mut q: usize = 0;
    while q < plan.muts.len()
        invariant
            q <= plan.muts@.len(),
            mt@.len() == q,
            plan.muts@.map_values(|t: MutTarget| target_view(t)) == pv.1,
            forall|x: Seq<char>| #[trigger] has_name(used@, x) <==> method_binds(f0, x) || (locals_of(ro_t@) + locals_of(mt@)).contains(x),
            forall|q2: int| 0 <= q2 < q ==> {
                let m = pv.1[q2];
                &&& (#[trigger] mt@[q2]).field@ == m.0
                &&& mt@[q2].start == m.1.start
                &&& mt@[q2].end == m.1.end
                &&& mt@[q2].trailing == m.1.trailing_included
                &&& mt@[q2].span == m.1.first_span
                &&& chosen_name(taken_in(f0, locals_of(ro_t@) + locals_of(mt@.subrange(0, q2))),
                    if m.2 == 0 { at_name(m.0) } else { region_name(m.0, m.2) }, mt@[q2].local@)
            },
        decreases plan.muts@.len() - q,
    {
        let t = &plan.muts[q];
        assert(target_view(*t) == pv.1[q as int]);
        let base = make_region_name(t.field.as_str(), t.region_idx);
        let local = fresh_name(&used, base.as_str());
        proof { lemma_taken_ext(f0, used@, locals_of(ro_t@) + locals_of(mt@), base@, local@); }
        add_name(&mut used, local.as_str());
        let ghost m0 = mt@;
        mt.push(LocalTarget {
            field: String::from_str(t.field.as_str()),
            local,
            start: t.region.start,
            end: t.region.end,
            trailing: t.region.trailing_included,
            span: t.region.first_span,
        });
        proof {
            assert(mt@.subrange(0, q as int) =~= m0);
            let all0 = locals_of(ro_t@) + locals_of(m0);
            let all1 = locals_of(ro_t@) + locals_of(mt@);
            assert(all1 =~= all0.push(mt@[q as int].local@));
            assert forall|q2: int| 0 <= q2 < q + 1 implies {
                let m = pv.1[q2];
                &&& (#[trigger] mt@[q2]).field@ == m.0
                &&& mt@[q2].start == m.1.start
                &&& mt@[q2].end == m.1.end
                &&& mt@[q2].trailing == m.1.trailing_included
                &&& mt@[q2].span == m.1.first_span
                &&& chosen_name(taken_in(f0, locals_of(ro_t@) + locals_of(mt@.subrange(0, q2))),
                    if m.2 == 0 { at_name(m.0) } else { region_name(m.0, m.2) }, mt@[q2].local@)
            } by {
                if q2 < q {
                    assert(mt@.subrange(0, q2) =~= m0.subrange(0, q2));
                    assert(mt@[q2] == m0[q2]);
                }
            }
            assert forall|x: Seq<char>| #[trigger] has_name(used@, x) <==> method_binds(f0, x) || all1.contains(x) by {
                let l = mt@[q as int].local@;
                if all1.contains(x) && x != l {
                    let j = choose|j: int| 0 <= j < all1.len() && all1[j] == x;
                    assert(all0[j] == x);
                }
                if all0.contains(x) {
                    let j = choose|j: int| 0 <= j < all0.len() && all0[j] == x;
                    assert(all1[j] == x);
                }
                if x == l {
                    assert(all1[all0.len() as int] == x);
                }
            }
        }
        q = q + 1;
    }
    let mut body = FnBody::External;
    std::mem::swap(&mut body, &mut f.body);
    let blk = match body {
        FnBody::Block(b) => b,
        FnBody::Expr(e) => {
            let sp = e.span;
            Block { stmts: Vec::new(), trailing: Some(Box::new(e)), span: sp }
        },
        FnBody::External => Block { stmts: Vec::new(), trailing: None, span },
    };
    proof {
        lemma_field_pick_starts(names_view(names@), names@.len() as int, tf.fields@, f0.body, method_ctx(f0, *cfg, *ws),
            cfg.threshold as nat, cfg.max_per_fn as nat, body_span_of(f0.body));
        assert forall|q2: int| 0 <= q2 < mt@.len() implies (#[trigger] mt@[q2]).start <= blk.stmts@.len() by {
            assert(mt@[q2].start == pv.1[q2].1.start);
        }
    }
    let nb = apply_plan(blk, &ro_t, &mt);
    let ghost b1 = nb;
    let budget = cfg.max_per_fn.saturating_sub(ro_t.len()).saturating_sub(mt.len());
    let mut ctr = NestCounter { seq: 0, budget, used };
    proof {
        let st = nest_start(f0, *cfg, ro_t@, mt@);
        assert(ctr.state().used =~= st.used);
        assert(ctr.state() == st);
    }
    let fin = nest_fields(nb, &fs, cfg.threshold, ipa, &mut ctr);
    f.body = FnBody::Block(fin);
    proof {
        let fsv = nested_candidates(names_view(names@), names@.len() as int, *tf, f0.body);
        assert(block_after(blk, b1, ro_t@, mt@));
        assert(nested_run(b1, fin, fsv, fsv.len() as int, cfg.threshold as nat, method_ctx(f0, *cfg, *ws),
            nest_start(f0, *cfg, ro_t@, mt@), ctr.state()));
        assert(sorted_names(names@));
    }
}

} // verus!
