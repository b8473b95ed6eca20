//! A static estimate of the cycles the caches save, per cache kind.
//!
//! Each field or mutable-field cache saves a load; a hoisted read saves a
//! load per loop iteration; a cached pure call saves a call; a cached
//! chain saves one load per component. All arithmetic saturates at
//! `u64::MAX`, except the sum over the chains of one method, which must
//! fit.

use vstd::prelude::*;
use crate::field_cache::explain::{ExplainReport, FnCacheInfo};
use crate::field_cache::env_config::{opt_num, parse_usize};

verus! {

/// The cost model.
#[derive(Clone, Copy, Debug, PartialEq, Eq)]
pub struct CycleWeights {
    /// Cycles of a memory load.
    pub load_cycles: u64,
    /// Cycles of a call.
    pub call_cycles: u64,
    /// Iterations assumed for a loop.
    pub loop_iters: u64,
}

impl CycleWeights {
    /// The default model: 4 cycles a load, 40 a call, 8 iterations a loop.
    pub fn standard() -> (w: Self)
        ensures
            w.load_cycles == 4,
            w.call_cycles == 40,
            w.loop_iters == 8,
    {
        CycleWeights { load_cycles: 4, call_cycles: 40, loop_iters: 8 }
    }

    /// The model with each weight overridden by its setting, where the
    /// setting reads as a positive number (the settings come from
    /// `NOVA_FC_LOAD_CYCLES`, `NOVA_FC_CALL_CYCLES` and `NOVA_FC_LOOP_ITERS`).
    pub fn from_settings(load: &Option<String>, call: &Option<String>, iters: &Option<String>) -> (w: Self)
        ensures
            w.load_cycles == weight_setting(*load, 4),
            w.call_cycles == weight_setting(*call, 40),
            w.loop_iters == weight_setting(*iters, 8),
    {
        CycleWeights { load_cycles: weight(load, 4), call_cycles: weight(call, 40), loop_iters: weight(iters, 8) }
    }
}

/// A weight's setting: the number it holds where that is positive, else `dflt`.
pub open spec fn weight_setting(o: Option<String>, dflt: u64) -> u64 {
    if opt_num(o) is Some && opt_num(o).unwrap() > 0 { opt_num(o).unwrap() as u64 } else { dflt }
}

fn weight(o: &Option<String>, dflt: u64) -> (r: u64)
    ensures
        r == weight_setting(*o, dflt),
{
    match o {
        Some(v) => match parse_usize(v.as_str()) {
            Some(n) => if n > 0 { n as u64 } else { dflt },
            None => dflt,
        },
        None => dflt,
    }
}

/// The estimate for a report.
#[derive(Clone, Copy, Debug, Default, PartialEq, Eq)]
pub struct CpuSavingsReport {
    /// All layers of all methods.
    pub estimated_cycles_saved: u64,
    pub layer_ro: u64,
    pub layer_mut: u64,
    pub layer_licm: u64,
    pub layer_pure: u64,
    pub layer_chain: u64,
    /// Methods that save anything.
    pub methods_with_savings: usize,
}

/// `n` capped at `u64::MAX`.
pub open spec fn sat(n: int) -> u64 {
    if n > u64::MAX { u64::MAX } else { n as u64 }
}

/// The cycles the chains save: one load per component of each chain.
pub open spec fn chain_cycles(ps: Seq<Vec<String>>, load: u64) -> int
    decreases ps.len(),
{
    if ps.len() == 0 {
        0
    } else {
        chain_cycles(ps.drop_last(), load) + sat(ps.last()@.len() * load)
    }
}

pub open spec fn ro_cycles(i: FnCacheInfo, w: CycleWeights) -> u64 {
    sat(i.ro_caches@.len() * w.load_cycles)
}

pub open spec fn mut_cycles(i: FnCacheInfo, w: CycleWeights) -> u64 {
    sat(i.mut_caches@.len() * w.load_cycles)
}

pub open spec fn licm_cycles(i: FnCacheInfo, w: CycleWeights) -> u64 {
    sat(i.licm_hoists@.len() * sat(w.loop_iters * w.load_cycles))
}

pub open spec fn pure_cycles(i: FnCacheInfo, w: CycleWeights) -> u64 {
    sat(i.pure_caches@.len() * w.call_cycles)
}

/// The cycles one method saves.
pub open spec fn fn_cycles(i: FnCacheInfo, w: CycleWeights) -> u64 {
    sat(sat(sat(sat(ro_cycles(i, w) + mut_cycles(i, w)) + licm_cycles(i, w)) + pure_cycles(i, w)) + chain_cycles(i.chain_caches@, w.load_cycles))
}

/// The estimate after the methods `infos`.
pub open spec fn savings_of(infos: Seq<FnCacheInfo>, w: CycleWeights) -> CpuSavingsReport
    decreases infos.len(),
{
    if infos.len() == 0 {
        CpuSavingsReport {
            estimated_cycles_saved: 0,
            layer_ro: 0,
            layer_mut: 0,
            layer_licm: 0,
            layer_pure: 0,
            layer_chain: 0,
            methods_with_savings: 0,
        }
    } else {
        let p = savings_of(infos.drop_last(), w);
        let i = infos.last();
        CpuSavingsReport {
            estimated_cycles_saved: sat(p.estimated_cycles_saved + fn_cycles(i, w)),
            layer_ro: sat(p.layer_ro + ro_cycles(i, w)),
            layer_mut: sat(p.layer_mut + mut_cycles(i, w)),
            layer_licm: sat(p.layer_licm + licm_cycles(i, w)),
            layer_pure: sat(p.layer_pure + pure_cycles(i, w)),
            layer_chain: sat(p.layer_chain + chain_cycles(i.chain_caches@, w.load_cycles)),
            methods_with_savings: if fn_cycles(i, w) > 0 {
                (p.methods_with_savings + 1) as usize
            } else {
                p.methods_with_savings
            },
        }
    }
}

/// Each method's chain savings fit in a `u64`.
pub open spec fn chains_fit(infos: Seq<FnCacheInfo>, w: CycleWeights) -> bool {
    forall|k: int| 0 <= k < infos.len() ==> chain_cycles((#[trigger] infos[k]).chain_caches@, w.load_cycles) <= u64::MAX
}

proof fn lemma_methods_bound(infos: Seq<FnCacheInfo>, w: CycleWeights)
    ensures
        savings_of(infos, w).methods_with_savings <= infos.len(),
    decreases infos.len(),
{
    if infos.len() > 0 {
        lemma_methods_bound(infos.drop_last(), w);
    }
}

fn sat_mul(a: u64, b: u64) -> (r: u64)
    ensures
        r == sat(a * b),
{
    match a.checked_mul(b) {
        Some(v) => v,
        None => u64::MAX,
    }
}

fn chain_sum(ps: &Vec<Vec<String>>, load: u64) -> (n: u64)
    requires
        chain_cycles(ps@, load) <= u64::MAX,
    ensures
        n == chain_cycles(ps@, load),
{
    let mut n: u64 = 0;
    let mut k: usize = 0;
    while k < ps.len()
        invariant
            k <= ps@.len(),
            chain_cycles(ps@, load) <= u64::MAX,
            n == chain_cycles(ps@.subrange(0, k as int), load),
        decreases ps@.len() - k,
    {
        proof {
            assert(ps@.subrange(0, k as int + 1).drop_last() =~= ps@.subrange(0, k as int));
            lemma_chain_prefix(ps@, k as int + 1, load);
        }
        let len = ps[k].len() as u64;
        n = n + sat_mul(len, load);
        k = k + 1;
    }
    assert(ps@.subrange(0, ps@.len() as int) =~= ps@);
    n
}

proof fn lemma_chain_prefix(ps: Seq<Vec<String>>, k: int, load: u64)
    requires
        0 <= k <= ps.len(),
    ensures
        chain_cycles(ps.subrange(0, k), load) <= chain_cycles(ps, load),
    decreases ps.len(),
{
    if k < ps.len() {
        assert(ps.drop_last().subrange(0, k) =~= ps.subrange(0, k));
        lemma_chain_prefix(ps.drop_last(), k, load);
    } else {
        assert(ps.subrange(0, k) =~= ps);
    }
}

/// Estimates the cycles saved by the caches of `report` under `w`.
pub fn cpu_savings_estimate(report: &ExplainReport, w: &CycleWeights) -> (r: CpuSavingsReport)
    requires
        chains_fit(report.per_fn@, *w),
    ensures
        r == savings_of(report.per_fn@, *w),
{
    let mut out = CpuSavingsReport {
        estimated_cycles_saved: 0,
        layer_ro: 0,
        layer_mut: 0,
        layer_licm: 0,
        layer_pure: 0,
        layer_chain: 0,
        methods_with_savings: 0,
    };
    let ghost infos = report.per_fn@;
    let mut k: usize = 0;
    while k < report.per_fn.len()
        invariant
            infos == report.per_fn@,
            k <= infos.len(),
            chains_fit(infos, *w),
            out == savings_of(infos.subrange(0, k as int), *w),
        decreases infos.len() - k,
    {
        let info = &report.per_fn[k];
        proof {
            assert(infos.subrange(0, k as int + 1).drop_last() =~= infos.subrange(0, k as int));
            assert(infos.subrange(0, k as int + 1).last() == infos[k as int]);
            lemma_methods_bound(infos.subrange(0, k as int), *w);
            assert(chain_cycles(infos[k as int].chain_caches@, w.load_cycles) <= u64::MAX);
        }
        let ro = sat_mul(info.ro_caches.len() as u64, w.load_cycles);
        let mu = sat_mul(info.mut_caches.len() as u64, w.load_cycles);
        let licm = sat_mul(info.licm_hoists.len() as u64, sat_mul(w.loop_iters, w.load_cycles));
        let pure = sat_mul(info.pure_caches.len() as u64, w.call_cycles);
        let chain = chain_sum(&info.chain_caches, w.load_cycles);
        out.layer_ro = out.layer_ro.saturating_add(ro);
        out.layer_mut = out.layer_mut.saturating_add(mu);
        out.layer_licm = out.layer_licm.saturating_add(licm);
        out.layer_pure = out.layer_pure.saturating_add(pure);
        out.layer_chain = out.layer_chain.saturating_add(chain);
        let fn_total = ro.saturating_add(mu).saturating_add(licm).saturating_add(pure).saturating_add(chain);
        if fn_total > 0 {
            out.methods_with_savings = out.methods_with_savings + 1;
        }
        out.estimated_cycles_saved = out.estimated_cycles_saved.saturating_add(fn_total);
        k = k + 1;
    }
    assert(infos.subrange(0, infos.len() as int) =~= infos);
    out
}

} // verus!

verus! {

/// The product `a * b`, or `u64::MAX` where it does not fit.
pub open spec fn capped_product(a: int, b: int) -> int {
    if a * b > u64::MAX { u64::MAX as int } else { a * b }
}

/// A method whose only caches are `n` reads hoisted out of loops saves, in
/// the hoisting layer and in all, `n` times the cycles of one load per
/// assumed loop iteration (each product capped at `u64::MAX`); the other
/// layers save nothing, and the method counts as saving exactly when
/// `n`, the iterations and the load cost are all positive.
pub proof fn lemma_hoist_only_savings(i: FnCacheInfo, w: CycleWeights, r: CpuSavingsReport)
    requires
        r == savings_of(seq![i], w),
        i.ro_caches@.len() == 0,
        i.mut_caches@.len() == 0,
        i.pure_caches@.len() == 0,
        i.chain_caches@.len() == 0,
    ensures
        r.layer_licm as int == capped_product(i.licm_hoists@.len() as int, capped_product(w.loop_iters as int, w.load_cycles as int)),
        r.estimated_cycles_saved == r.layer_licm,
        r.layer_ro == 0 && r.layer_mut == 0 && r.layer_pure == 0 && r.layer_chain == 0,
        r.methods_with_savings == (if i.licm_hoists@.len() > 0 && w.loop_iters > 0 && w.load_cycles > 0 { 1usize } else { 0usize }),
{
    let s = seq![i];
    assert(s.drop_last() =~= Seq::<FnCacheInfo>::empty());
    assert(s.last() == i);
    let p0 = savings_of(s.drop_last(), w);
    assert(p0 == savings_of(Seq::<FnCacheInfo>::empty(), w));
    assert(p0.layer_licm == 0 && p0.estimated_cycles_saved == 0 && p0.methods_with_savings == 0);
    assert(chain_cycles(i.chain_caches@, w.load_cycles) == 0);
    assert(ro_cycles(i, w) == 0);
    assert(mut_cycles(i, w) == 0);
    assert(pure_cycles(i, w) == 0);
    assert(sat(w.loop_iters * w.load_cycles) as int == capped_product(w.loop_iters as int, w.load_cycles as int));
    assert(licm_cycles(i, w) as int == capped_product(i.licm_hoists@.len() as int, capped_product(w.loop_iters as int, w.load_cycles as int)));
    assert(fn_cycles(i, w) == licm_cycles(i, w));
    assert(r.layer_licm == licm_cycles(i, w));
    let p = w.loop_iters as int * w.load_cycles as int;
    let n = i.licm_hoists@.len() as int;
    if p > 0 {
        assert(capped_product(w.loop_iters as int, w.load_cycles as int) > 0);
        if n > 0 {
            let c = capped_product(w.loop_iters as int, w.load_cycles as int);
            assert(n * c >= c) by (nonlinear_arith)
                requires n > 0, c > 0;
        }
    } else {
        assert(p == 0) by (nonlinear_arith)
            requires p == w.loop_iters as int * w.load_cycles as int, w.loop_iters >= 0, w.load_cycles >= 0, !(p > 0);
        assert(w.loop_iters == 0 || w.load_cycles == 0) by (nonlinear_arith)
            requires p == w.loop_iters as int * w.load_cycles as int, p == 0;
        assert(n * 0 == 0) by (nonlinear_arith);
    }
    let c = capped_product(w.loop_iters as int, w.load_cycles as int);
    if n == 0 {
        assert(n * c == 0) by (nonlinear_arith) requires n == 0;
    }
    if p == 0 {
        assert(c == 0);
        assert(n * c == 0) by (nonlinear_arith) requires c == 0;
    }
    assert(licm_cycles(i, w) > 0 <==> (n > 0 && p > 0));
    assert((p > 0) <==> (w.loop_iters > 0 && w.load_cycles > 0)) by (nonlinear_arith)
        requires p == w.loop_iters as int * w.load_cycles as int, w.loop_iters >= 0, w.load_cycles >= 0;
}

/// More assumed loop iterations never lower what hoisting saves, and
/// raise it while nothing is capped.
pub proof fn lemma_hoist_savings_grow_with_iterations(i: FnCacheInfo, w1: CycleWeights, w2: CycleWeights)
    requires
        w1.load_cycles == w2.load_cycles,
        w1.call_cycles == w2.call_cycles,
        w1.loop_iters <= w2.loop_iters,
    ensures
        savings_of(seq![i], w1).layer_licm <= savings_of(seq![i], w2).layer_licm,
        i.licm_hoists@.len() > 0 && w1.load_cycles > 0 && w1.loop_iters < w2.loop_iters
            && i.licm_hoists@.len() * (w2.loop_iters * w2.load_cycles) <= u64::MAX
            ==> savings_of(seq![i], w1).layer_licm < savings_of(seq![i], w2).layer_licm,
{
    let s = seq![i];
    assert(s.drop_last() =~= Seq::<FnCacheInfo>::empty());
    assert(s.last() == i);
    assert(savings_of(s.drop_last(), w1).layer_licm == 0);
    assert(savings_of(s.drop_last(), w2).layer_licm == 0);
    assert(savings_of(s, w1).layer_licm == licm_cycles(i, w1));
    assert(savings_of(s, w2).layer_licm == licm_cycles(i, w2));
    let n = i.licm_hoists@.len() as int;
    let l = w1.load_cycles as int;
    let a = w1.loop_iters as int;
    let b = w2.loop_iters as int;
    assert(a * l <= b * l) by (nonlinear_arith) requires a <= b, l >= 0;
    let ca = capped_product(a, l);
    let cb = capped_product(b, l);
    assert(ca <= cb);
    assert(n * ca <= n * cb) by (nonlinear_arith) requires ca <= cb, n >= 0;
    if n > 0 && l > 0 && a < b && n * (b * l) <= u64::MAX {
        assert(a * l < b * l) by (nonlinear_arith) requires a < b, l > 0;
        assert(b * l <= n * (b * l)) by (nonlinear_arith) requires n > 0, b * l >= 0;
        assert(n * (a * l) < n * (b * l)) by (nonlinear_arith) requires a * l < b * l, n > 0;
    }
}


/// For one method, each cache saves its cost once per cache: a read-only or
/// mutable field cache one load, a hoisted read one load per assumed loop
/// iteration, a pure-call cache one call (each product capped at
/// `u64::MAX`); the total is their capped sum with the chain layer.
pub proof fn lemma_one_method_layers(i: FnCacheInfo, w: CycleWeights, r: CpuSavingsReport)
    requires
        r == savings_of(seq![i], w),
    ensures
        r.layer_ro as int == capped_product(i.ro_caches@.len() as int, w.load_cycles as int),
        r.layer_mut as int == capped_product(i.mut_caches@.len() as int, w.load_cycles as int),
        r.layer_licm as int == capped_product(i.licm_hoists@.len() as int, capped_product(w.loop_iters as int, w.load_cycles as int)),
        r.layer_pure as int == capped_product(i.pure_caches@.len() as int, w.call_cycles as int),
        r.layer_ro + r.layer_mut + r.layer_licm + r.layer_pure + r.layer_chain <= u64::MAX
            ==> r.estimated_cycles_saved == r.layer_ro + r.layer_mut + r.layer_licm + r.layer_pure + r.layer_chain,
        r.estimated_cycles_saved >= r.layer_ro && r.estimated_cycles_saved >= r.layer_mut
            && r.estimated_cycles_saved >= r.layer_licm && r.estimated_cycles_saved >= r.layer_pure,
        r.methods_with_savings == (if r.estimated_cycles_saved > 0 { 1usize } else { 0usize }),
{
    let s = seq![i];
    assert(s.drop_last() =~= Seq::<FnCacheInfo>::empty());
    assert(s.last() == i);
    let p0 = savings_of(s.drop_last(), w);
    assert(p0 == savings_of(Seq::<FnCacheInfo>::empty(), w));
    assert(sat(w.loop_iters * w.load_cycles) as int == capped_product(w.loop_iters as int, w.load_cycles as int));
    lemma_chain_cycles_nonneg(i.chain_caches@, w.load_cycles);
}

proof fn lemma_chain_cycles_nonneg(ps: Seq<Vec<String>>, load: u64)
    ensures
        chain_cycles(ps, load) >= 0,
    decreases ps.len(),
{
    if ps.len() > 0 {
        lemma_chain_cycles_nonneg(ps.drop_last(), load);
    }
}

/// A report with one more method saves, in each layer, what it saved before
/// plus what that method alone saves (capped at `u64::MAX`).
pub proof fn lemma_methods_add_up(infos: Seq<FnCacheInfo>, i: FnCacheInfo, w: CycleWeights)
    requires
        infos.len() < usize::MAX,
    ensures
        ({
            let before = savings_of(infos, w);
            let alone = savings_of(seq![i], w);
            let after = savings_of(infos.push(i), w);
            &&& after.layer_ro as int == capped_product(1, before.layer_ro + alone.layer_ro)
            &&& after.layer_mut as int == capped_product(1, before.layer_mut + alone.layer_mut)
            &&& after.layer_licm as int == capped_product(1, before.layer_licm + alone.layer_licm)
            &&& after.layer_pure as int == capped_product(1, before.layer_pure + alone.layer_pure)
            &&& after.layer_chain as int == capped_product(1, before.layer_chain + alone.layer_chain)
            &&& after.estimated_cycles_saved as int == capped_product(1, before.estimated_cycles_saved + alone.estimated_cycles_saved)
            &&& after.methods_with_savings == before.methods_with_savings + alone.methods_with_savings
        }),
{
    let s = seq![i];
    assert(s.drop_last() =~= Seq::<FnCacheInfo>::empty());
    assert(s.last() == i);
    assert(infos.push(i).drop_last() =~= infos);
    assert(infos.push(i).last() == i);
    assert(savings_of(s.drop_last(), w) == savings_of(Seq::<FnCacheInfo>::empty(), w));
    lemma_chain_cycles_nonneg(i.chain_caches@, w.load_cycles);
    lemma_methods_bound(infos, w);
}

} // verus!
