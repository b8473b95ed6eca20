//! Hoisting loop-invariant field reads out of one loop: which receiver
//! fields of a loop body get `_at_<field>_loop`, and the loop body that
//! reads the locals instead.

use vstd::prelude::*;
use crate::ast::{Block, Span, Stmt};
use crate::field_cache::apply::{cache_let, is_cache_let};
use crate::field_cache::collect::{add_name, has_name};
use crate::field_cache::ipa::{IpaView, WriteSets};
use crate::field_cache::names::{chosen_name, fresh_name};
use crate::field_cache::nested::{fresh_local, lemma_chosen_unique, member_of};
use crate::field_cache::plan::{entry_kind, kind_of, FieldEntry, FieldKind};
use crate::field_cache::purity::{spawns_block, spawns_in_block};
use crate::field_cache::reads::{cap, count_field_reads_in_block, reads_block};
use crate::field_cache::rewrite::{pairs_view, replaced_block, rewrite_block};
use crate::field_cache::scan::{captured_block, captured_in_block, invalidates_block, invalidates_in_block, ipa_view, writes_block, writes_in_block};
use crate::text::{copy_str, push_char, push_str};

verus! {

/// What hoisting works with in one method: the receiver's cacheable fields
/// (`names` in character order, `fields` with their kinds), the read
/// threshold, the most hoists per loop and per method, and the call
/// context.
pub struct LicmEnv {
    pub names: Seq<Seq<char>>,
    pub fields: Seq<FieldEntry>,
    pub thr: nat,
    pub per_loop: nat,
    pub max: nat,
    pub ctx: Option<IpaView>,
}

/// Hoists made so far in the method and the names in use.
pub struct LicmState {
    pub count: nat,
    pub used: Set<Seq<char>>,
}

/// `_at_<f>_loop`, the base name of a hoisted local.
pub open spec fn loop_local_base(f: Seq<char>) -> Seq<char> {
    seq!['_', 'a', 't', '_'] + f + seq!['_', 'l', 'o', 'o', 'p']
}

/// The fields among `names[0..k]` (in order) whose reads can leave loop
/// body `body`: read at least the threshold times, not assigned, read in no
/// closure, and, for a mutable field, changed by no call in the body.
pub open spec fn licm_candidates(body: Block, env: LicmEnv, k: int) -> Seq<Seq<char>>
    decreases k,
{
    if k <= 0 {
        Seq::empty()
    } else {
        let r = licm_candidates(body, env, k - 1);
        let f = env.names[k - 1];
        let kind = entry_kind(env.fields, env.fields.len() as int, f);
        if kind is None || cap(reads_block(body, f)) < env.thr || writes_block(body, f) || captured_block(body, f)
            || (kind == Some(FieldKind::Mut) && invalidates_block(body, env.ctx, f)) {
            r
        } else {
            r.push(f)
        }
    }
}

/// The fields hoisted from loop body `body`: none when it starts concurrent
/// work.
pub open spec fn loop_fields(body: Block, env: LicmEnv) -> Seq<Seq<char>> {
    if spawns_block(body) {
        Seq::empty()
    } else {
        licm_candidates(body, env, env.names.len() as int)
    }
}

pub open spec fn min_nat(a: nat, b: nat) -> nat {
    if a <= b { a } else { b }
}

/// How many of the fields `fs` are hoisted from one loop: at most the
/// per-loop limit and what the method's budget leaves.
pub open spec fn hoist_take(fs: Seq<Seq<char>>, env: LicmEnv, st: LicmState) -> nat {
    min_nat(min_nat(fs.len(), env.per_loop), if env.max >= st.count { (env.max - st.count) as nat } else { 0 })
}

/// The locals of the fields `fs[k..take]`, in order, and the state after them.
pub open spec fn hoist_pick(fs: Seq<Seq<char>>, k: nat, take: nat, st: LicmState) -> (Seq<(Seq<char>, Seq<char>)>, LicmState)
    decreases take - k,
{
    if k >= take || k >= fs.len() {
        (Seq::empty(), st)
    } else {
        let name = fresh_local(st.used, loop_local_base(fs[k as int]));
        let next = LicmState { count: st.count + 1, used: st.used.insert(name) };
        let r = hoist_pick(fs, k + 1, take, next);
        (seq![(fs[k as int], name)] + r.0, r.1)
    }
}

/// `hoists` and `body2` are what hoisting from loop body `body` gives:
/// a `let local = @field` for each field hoisted, and the body with those
/// fields' reads replaced by the locals.
pub open spec fn loop_step(body: Block, hoists: Seq<Stmt>, body2: Block, env: LicmEnv, s0: LicmState, s1: LicmState) -> bool {
    let fs = loop_fields(body, env);
    let p = hoist_pick(fs, 0, hoist_take(fs, env, s0), s0);
    &&& s1 == p.1
    &&& hoists.len() == p.0.len()
    &&& forall|j: int| 0 <= j < hoists.len() ==> is_cache_let(#[trigger] hoists[j], p.0[j].0, p.0[j].1)
    &&& if p.0.len() == 0 { body2 == body } else { replaced_block(body, body2, p.0) }
}

/// The hoisting state as the pass holds it.
pub struct LicmCounter {
    pub count: usize,
    pub used: Vec<String>,
}

impl LicmCounter {
    pub open spec fn state(&self) -> LicmState {
        LicmState { count: self.count as nat, used: Set::new(|x: Seq<char>| has_name(self.used@, x)) }
    }
}

/// `_at_<f>_loop`.
fn make_loop_base(f: &str) -> (r: String)
    ensures
        r@ == loop_local_base(f@),
{
    let mut r = String::new();
    push_char(&mut r, '_');
    push_char(&mut r, 'a');
    push_char(&mut r, 't');
    push_char(&mut r, '_');
    push_str(&mut r, f);
    push_char(&mut r, '_');
    push_char(&mut r, 'l');
    push_char(&mut r, 'o');
    push_char(&mut r, 'o');
    push_char(&mut r, 'p');
    assert(r@ =~= loop_local_base(f@));
    r
}

/// The fields hoisted from loop body `body` (see `loop_fields`).
fn loop_fields_exec(body: &Block, names: &Vec<String>, fields: &Vec<FieldEntry>, thr: usize, ipa: Option<(&WriteSets, &str)>,
    Ghost(env): Ghost<LicmEnv>) -> (r: Vec<String>)
    requires
        env.names == names@.map_values(|s: String| s@),
        env.fields == fields@,
        env.thr == thr as nat,
        env.ctx == ipa_view(ipa),
    ensures
        r@.map_values(|s: String| s@) == loop_fields(*body, env),
{
    let mut r: Vec<String> = Vec::new();
    if spawns_in_block(body) {
        assert(r@.map_values(|s: String| s@) =~= Seq::<Seq<char>>::empty());
        return r;
    }
    let mut i: usize = 0;
    assert(r@.map_values(|s: String| s@) =~= licm_candidates(*body, env, 0));
    while i < names.len()
        invariant
            i <= names@.len(),
            env.names == names@.map_values(|s: String| s@),
            env.fields == fields@,
            env.thr == thr as nat,
            env.ctx == ipa_view(ipa),
            r@.map_values(|s: String| s@) == licm_candidates(*body, env, i as int),
        decreases names@.len() - i,
    {
        let f = names[i].as_str();
        assert(env.names[i as int] == f@);
        let kind = kind_of(fields, f);
        let skip = match kind {
            None => true,
            Some(k) => {
                count_field_reads_in_block(body, f) < thr || writes_in_block(body, f) || captured_in_block(body, f)
                    || (match k {
                    FieldKind::Mut => invalidates_in_block(body, ipa, f),
                    FieldKind::Ro => false,
                })
            },
        };
        if !skip {
            let ghost r0 = r@.map_values(|s: String| s@);
            r.push(copy_str(f));
            assert(r@.map_values(|s: String| s@) =~= r0.push(f@));
        }
        i = i + 1;
    }
    r
}

/// Hoists from loop body `body` (see `loop_step`): the lets to place before
/// the loop and the new body.
pub fn hoist_loop(body: Block, names: &Vec<String>, fields: &Vec<FieldEntry>, thr: usize, per_loop: usize, max: usize,
    ipa: Option<(&WriteSets, &str)>, ctr: &mut LicmCounter, Ghost(env): Ghost<LicmEnv>) -> (r: (Vec<Stmt>, Block))
    requires
        env.names == names@.map_values(|s: String| s@),
        env.fields == fields@,
        env.thr == thr as nat,
        env.per_loop == per_loop as nat,
        env.max == max as nat,
        env.ctx == ipa_view(ipa),
        old(ctr).count <= max,
    ensures
        final(ctr).count <= max,
        loop_step(body, r.0@, r.1, env, old(ctr).state(), final(ctr).state()),
{
    let ghost s0 = ctr.state();
    let fs = loop_fields_exec(&body, names, fields, thr, ipa, Ghost(env));
    let ghost fv = fs@.map_values(|s: String| s@);
    let left = max - ctr.count;
    let mut take = fs.len();
    if per_loop < take {
        take = per_loop;
    }
    if left < take {
        take = left;
    }
    assert(take as nat == hoist_take(fv, env, s0));
    let mut hoists: Vec<Stmt> = Vec::new();
    let mut pairs: Vec<(String, String)> = Vec::new();
    let mut k: usize = 0;
    while k < take
        invariant
            fv == fs@.map_values(|s: String| s@),
            take <= fs@.len(),
            k <= take,
            ctr.count == s0.count + k,
            s0.count + take <= max,
            hoists@.len() == k,
            pairs@.len() == k,
            hoist_pick(fv, 0, take as nat, s0) == (pairs_view(pairs@) + hoist_pick(fv, k as nat, take as nat, ctr.state()).0,
                hoist_pick(fv, k as nat, take as nat, ctr.state()).1),
            forall|j: int| 0 <= j < k ==> is_cache_let(#[trigger] hoists@[j], pairs_view(pairs@)[j].0, pairs_view(pairs@)[j].1),
        decreases take - k,
    {
        let f = fs[k].as_str();
        assert(fv[k as int] == f@);
        let ghost sb = ctr.state();
        let base = make_loop_base(f);
        let local = fresh_name(&ctr.used, base.as_str());
        proof {
            let t1 = |x: Seq<char>| has_name(ctr.used@, x);
            let t2 = member_of(sb.used);
            assert(t1 =~= t2);
            let r0 = fresh_local(sb.used, base@);
            assert(chosen_name(t2, base@, local@));
            assert(chosen_name(t2, base@, r0));
            lemma_chosen_unique(t2, base@, local@, r0);
        }
        add_name(&mut ctr.used, local.as_str());
        ctr.count = ctr.count + 1;
        proof {
            assert(ctr.state().used =~= sb.used.insert(local@));
            let nx = hoist_pick(fv, k as nat + 1, take as nat, ctr.state());
            assert(hoist_pick(fv, k as nat, take as nat, sb) == (seq![(f@, local@)] + nx.0, nx.1));
        }
        let ghost lv = local@;
        let ghost h0 = hoists@;
        hoists.push(cache_let(f, local.as_str(), body.span));
        let ghost p0 = pairs_view(pairs@);
        pairs.push((copy_str(f), local));
        proof {
            assert(pairs_view(pairs@) =~= p0.push((f@, lv)));
            assert forall|j: int| 0 <= j < k + 1 implies is_cache_let(#[trigger] hoists@[j], pairs_view(pairs@)[j].0, pairs_view(pairs@)[j].1) by {
                if j < k {
                    assert(hoists@[j] == h0[j]);
                }
            }
            assert(pairs_view(pairs@) + hoist_pick(fv, k as nat + 1, take as nat, ctr.state()).0
                =~= p0 + (seq![(f@, lv)] + hoist_pick(fv, k as nat + 1, take as nat, ctr.state()).0));
        }
        k = k + 1;
    }
    proof {
        assert(pairs_view(pairs@) + hoist_pick(fv, k as nat, take as nat, ctr.state()).0 =~= pairs_view(pairs@));
    }
    if pairs.len() == 0 {
        return (hoists, body);
    }
    let b2 = rewrite_block(body, &pairs);
    (hoists, b2)
}

} // verus!
