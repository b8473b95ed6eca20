//! Shared prefixes of cached chains: when two or more cached chains start
//! with the same prefix of length `L` (and go on past it), that prefix gets
//! a local `_at_<prefix>_pre` of its own, read from the longest shorter
//! shared prefix when there is one. Lengths are tried from 2 up; the
//! locals count against the method's budget.

use vstd::prelude::*;
use crate::ast::Span;
use crate::field_cache::chain_path::{copy_path, make_prefix_base, path_eq, prefix_local_base};
use crate::field_cache::collect::{add_name, has_name};
use crate::field_cache::ipa::names_view;
use crate::field_cache::names::{chosen_name, fresh_name};
use crate::field_cache::nested::{fresh_local, member_of};

verus! {

/// Entry `e` goes on past the prefix `q`.
pub open spec fn extends(e: (Seq<Seq<char>>, Span), q: Seq<Seq<char>>) -> bool {
    e.0.len() > q.len() && e.0.take(q.len() as int) == q
}

/// How many of the chains `tc[0..k]` go on past prefix `q`.
pub open spec fn count_extending(tc: Seq<(Seq<Seq<char>>, Span)>, k: int, q: Seq<Seq<char>>) -> nat
    decreases k,
{
    if k <= 0 {
        0
    } else {
        count_extending(tc, k - 1, q) + if extends(tc[k - 1], q) { 1nat } else { 0nat }
    }
}

/// The first range with the least start among the chains `tc[0..k]` that go
/// on past `q`.
pub open spec fn earliest_span(tc: Seq<(Seq<Seq<char>>, Span)>, k: int, q: Seq<Seq<char>>) -> Option<Span>
    decreases k,
{
    if k <= 0 {
        None
    } else {
        let r = earliest_span(tc, k - 1, q);
        if extends(tc[k - 1], q) {
            match r {
                Some(s) => if tc[k - 1].1.start < s.start { Some(tc[k - 1].1) } else { r },
                None => Some(tc[k - 1].1),
            }
        } else {
            r
        }
    }
}

/// The distinct prefixes of length `l` of the chains `tc[0..k]` longer than
/// `l`, in the order they first come.
pub open spec fn level_prefixes(tc: Seq<(Seq<Seq<char>>, Span)>, l: nat, k: int) -> Seq<Seq<Seq<char>>>
    decreases k,
{
    if k <= 0 {
        Seq::empty()
    } else {
        let r = level_prefixes(tc, l, k - 1);
        let p = tc[k - 1].0;
        if p.len() > l && !r.contains(p.take(l as int)) {
            r.push(p.take(l as int))
        } else {
            r
        }
    }
}

/// The longest prefix of `q` of length `2..=len` among `paths`, if any.
pub open spec fn longest_cover(paths: Seq<Seq<Seq<char>>>, q: Seq<Seq<char>>, len: int) -> Option<Seq<Seq<char>>>
    decreases len,
{
    if len < 2 || len > q.len() {
        None
    } else if paths.contains(q.take(len)) {
        Some(q.take(len))
    } else {
        longest_cover(paths, q, len - 1)
    }
}

/// One shared prefix: its path, its local, the range of its let, and the
/// shorter shared prefix it is read from.
pub struct PrefixView {
    pub path: Seq<Seq<char>>,
    pub local: Seq<char>,
    pub span: Span,
    pub parent: Option<Seq<Seq<char>>>,
}

/// The shared prefixes chosen so far, how many locals the method has, and
/// the names in use.
pub struct PrefixState {
    pub out: Seq<PrefixView>,
    pub emitted: nat,
    pub used: Set<Seq<char>>,
}

pub open spec fn prefix_paths(out: Seq<PrefixView>) -> Seq<Seq<Seq<char>>> {
    out.map_values(|x: PrefixView| x.path)
}

/// The state after the candidate prefixes `qs[k..]` of one length: a prefix
/// that two or more chains go on past gets a local while the budget lasts;
/// the first such prefix beyond the budget ends the length.
pub open spec fn prefix_level(tc: Seq<(Seq<Seq<char>>, Span)>, qs: Seq<Seq<Seq<char>>>, k: nat, max: nat, st: PrefixState) -> PrefixState
    decreases qs.len() - k,
{
    if k >= qs.len() {
        st
    } else {
        let q = qs[k as int];
        if count_extending(tc, tc.len() as int, q) < 2 {
            prefix_level(tc, qs, k + 1, max, st)
        } else if st.emitted >= max {
            st
        } else {
            let name = fresh_local(st.used, prefix_local_base(q));
            let v = PrefixView {
                path: q,
                local: name,
                span: earliest_span(tc, tc.len() as int, q).unwrap(),
                parent: longest_cover(prefix_paths(st.out), q, q.len() - 1),
            };
            prefix_level(tc, qs, k + 1, max, PrefixState { out: st.out.push(v), emitted: st.emitted + 1, used: st.used.insert(name) })
        }
    }
}

/// The state after the prefix lengths `l..maxlen`.
pub open spec fn prefix_levels(tc: Seq<(Seq<Seq<char>>, Span)>, l: nat, maxlen: nat, max: nat, st: PrefixState) -> PrefixState
    decreases maxlen - l,
{
    if l >= maxlen || st.emitted >= max {
        st
    } else {
        prefix_levels(tc, l + 1, maxlen, max, prefix_level(tc, level_prefixes(tc, l, tc.len() as int), 0, max, st))
    }
}

/// The longest chain length among `tc[0..k]`.
pub open spec fn longest_chain(tc: Seq<(Seq<Seq<char>>, Span)>, k: int) -> nat
    decreases k,
{
    if k <= 0 {
        0
    } else {
        let r = longest_chain(tc, k - 1);
        if tc[k - 1].0.len() > r { tc[k - 1].0.len() } else { r }
    }
}

/// The shared prefixes of the cached chains `tc` (`used`: the names in use;
/// `max`: the method's budget, of which the chains take `tc.len()`).
pub open spec fn shared_prefixes(tc: Seq<(Seq<Seq<char>>, Span)>, max: nat, used: Set<Seq<char>>) -> PrefixState {
    let st = PrefixState { out: Seq::empty(), emitted: tc.len(), used };
    if tc.len() < 2 {
        st
    } else {
        prefix_levels(tc, 2, longest_chain(tc, tc.len() as int), max, st)
    }
}

/// A shared prefix as the pass holds it.
pub struct PrefixLocal {
    pub path: Vec<String>,
    pub local: String,
    pub span: Span,
    pub parent: Option<Vec<String>>,
}

impl PrefixLocal {
    pub open spec fn view_of(&self) -> PrefixView {
        PrefixView {
            path: names_view(self.path@),
            local: self.local@,
            span: self.span,
            parent: match self.parent {
                Some(p) => Some(names_view(p@)),
                None => None,
            },
        }
    }
}

pub open spec fn prefixes_view(v: Seq<PrefixLocal>) -> Seq<PrefixView> {
    v.map_values(|x: PrefixLocal| x.view_of())
}

pub open spec fn entries_view(tc: Seq<(Vec<String>, Span)>) -> Seq<(Seq<Seq<char>>, Span)> {
    tc.map_values(|e: (Vec<String>, Span)| (names_view(e.0@), e.1))
}

/// The first `l` segments of `p`.
fn take_path(p: &Vec<String>, l: usize) -> (r: Vec<String>)
    requires
        l <= p@.len(),
    ensures
        names_view(r@) == names_view(p@).take(l as int),
{
    let mut r: Vec<String> = Vec::new();
    let mut i: usize = 0;
    while i < l
        invariant
            l <= p@.len(),
            i <= l,
            names_view(r@) == names_view(p@).take(i as int),
        decreases l - i,
    {
        let ghost r0 = r@;
        r.push(crate::text::copy_str(p[i].as_str()));
        assert(names_view(r@) =~= names_view(r0).push(p@[i as int]@));
        assert(names_view(p@).take(i + 1) =~= names_view(p@).take(i as int).push(p@[i as int]@));
        i = i + 1;
    }
    r
}

/// Whether entry path `p` goes on past `q`.
fn extends_exec(p: &Vec<String>, q: &Vec<String>) -> (r: bool)
    ensures
        r == (names_view(p@).len() > names_view(q@).len() && names_view(p@).take(names_view(q@).len() as int) == names_view(q@)),
{
    if p.len() <= q.len() {
        return false;
    }
    let t = take_path(p, q.len());
    path_eq(&t, q)
}

fn count_extending_exec(tc: &Vec<(Vec<String>, Span)>, q: &Vec<String>) -> (r: usize)
    ensures
        r as nat == count_extending(entries_view(tc@), tc@.len() as int, names_view(q@)),
{
    let ghost tv = entries_view(tc@);
    let mut c: usize = 0;
    let mut i: usize = 0;
    while i < tc.len()
        invariant
            tv == entries_view(tc@),
            i <= tc@.len(),
            c <= i,
            c as nat == count_extending(tv, i as int, names_view(q@)),
        decreases tc@.len() - i,
    {
        assert(tv[i as int] == (names_view(tc@[i as int].0@), tc@[i as int].1));
        if extends_exec(&tc[i].0, q) {
            c = c + 1;
        }
        i = i + 1;
    }
    c
}

fn earliest_span_exec(tc: &Vec<(Vec<String>, Span)>, q: &Vec<String>) -> (r: Option<Span>)
    ensures
        r == earliest_span(entries_view(tc@), tc@.len() as int, names_view(q@)),
{
    let ghost tv = entries_view(tc@);
    let mut best: Option<Span> = None;
    let mut i: usize = 0;
    while i < tc.len()
        invariant
            tv == entries_view(tc@),
            i <= tc@.len(),
            best == earliest_span(tv, i as int, names_view(q@)),
        decreases tc@.len() - i,
    {
        assert(tv[i as int] == (names_view(tc@[i as int].0@), tc@[i as int].1));
        if extends_exec(&tc[i].0, q) {
            let s = tc[i].1;
            best = match best {
                Some(b) => if s.start < b.start { Some(s) } else { Some(b) },
                None => Some(s),
            };
        }
        i = i + 1;
    }
    best
}

/// Whether `q` is among `v`.
fn contains_path(v: &Vec<Vec<String>>, q: &Vec<String>) -> (r: bool)
    ensures
        r == v@.map_values(|p: Vec<String>| names_view(p@)).contains(names_view(q@)),
{
    let ghost vv = v@.map_values(|p: Vec<String>| names_view(p@));
    let mut i: usize = 0;
    while i < v.len()
        invariant
            vv == v@.map_values(|p: Vec<String>| names_view(p@)),
            i <= v@.len(),
            forall|j: int| 0 <= j < i ==> vv[j] != names_view(q@),
        decreases v@.len() - i,
    {
        if path_eq(&v[i], q) {
            assert(vv[i as int] == names_view(q@));
            return true;
        }
        i = i + 1;
    }
    false
}

fn level_prefixes_exec(tc: &Vec<(Vec<String>, Span)>, l: usize) -> (r: Vec<Vec<String>>)
    ensures
        r@.map_values(|p: Vec<String>| names_view(p@)) == level_prefixes(entries_view(tc@), l as nat, tc@.len() as int),
{
    let ghost tv = entries_view(tc@);
    let mut r: Vec<Vec<String>> = Vec::new();
    let mut i: usize = 0;
    while i < tc.len()
        invariant
            tv == entries_view(tc@),
            i <= tc@.len(),
            r@.map_values(|p: Vec<String>| names_view(p@)) == level_prefixes(tv, l as nat, i as int),
        decreases tc@.len() - i,
    {
        assert(tv[i as int] == (names_view(tc@[i as int].0@), tc@[i as int].1));
        if tc[i].0.len() > l {
            let q = take_path(&tc[i].0, l);
            if !contains_path(&r, &q) {
                let ghost r0 = r@;
                r.push(q);
                assert(r@.map_values(|p: Vec<String>| names_view(p@)) =~= r0.map_values(|p: Vec<String>| names_view(p@)).push(names_view(q@)));
            }
        }
        i = i + 1;
    }
    r
}

pub fn longest_cover_exec(out: &Vec<PrefixLocal>, q: &Vec<String>, len: usize) -> (r: Option<Vec<String>>)
    requires
        len <= q@.len(),
    ensures
        match r {
            Some(p) => longest_cover(prefix_paths(prefixes_view(out@)), names_view(q@), len as int) == Some(names_view(p@)),
            None => longest_cover(prefix_paths(prefixes_view(out@)), names_view(q@), len as int) is None,
        },
{
    let ghost paths = prefix_paths(prefixes_view(out@));
    let mut l: usize = len;
    while l >= 2
        invariant
            l <= len <= q@.len(),
            paths == prefix_paths(prefixes_view(out@)),
            longest_cover(paths, names_view(q@), len as int) == longest_cover(paths, names_view(q@), l as int),
        decreases l,
    {
        let t = take_path(q, l);
        let mut i: usize = 0;
        while i < out.len()
            invariant
                i <= out@.len(),
                2 <= l <= len <= q@.len(),
                names_view(t@) == names_view(q@).take(l as int),
                paths == prefix_paths(prefixes_view(out@)),
                longest_cover(paths, names_view(q@), len as int) == longest_cover(paths, names_view(q@), l as int),
                forall|j: int| 0 <= j < i ==> paths[j] != names_view(t@),
            decreases out@.len() - i,
        {
            if path_eq(&out[i].path, &t) {
                assert(paths[i as int] == names_view(t@));
                assert(paths.contains(names_view(t@)));
                assert(longest_cover(paths, names_view(q@), l as int) == Some(names_view(q@).take(l as int)));
                return Some(t);
            }
            i = i + 1;
        }
        l = l - 1;
    }
    None
}

/// The shared prefixes of the cached chains `tc` (see `shared_prefixes`);
/// `used` gains their locals.
pub fn shared_prefix_locals(tc: &Vec<(Vec<String>, Span)>, used: &mut Vec<String>, max: usize) -> (r: Vec<PrefixLocal>)
    ensures
        ({
            let st = shared_prefixes(entries_view(tc@), max as nat, Set::new(|x: Seq<char>| has_name(old(used)@, x)));
            &&& prefixes_view(r@) == st.out
            &&& Set::new(|x: Seq<char>| has_name(final(used)@, x)) == st.used
        }),
{
    let ghost tv = entries_view(tc@);
    let ghost u0 = Set::new(|x: Seq<char>| has_name(used@, x));
    let ghost st0 = PrefixState { out: Seq::empty(), emitted: tc@.len() as nat, used: u0 };
    let mut out: Vec<PrefixLocal> = Vec::new();
    if tc.len() < 2 {
        proof {
            assert(prefixes_view(out@) =~= Seq::<PrefixView>::empty());
        }
        return out;
    }
    let mut maxlen: usize = 0;
    let mut i: usize = 0;
    while i < tc.len()
        invariant
            tv == entries_view(tc@),
            i <= tc@.len(),
            maxlen as nat == longest_chain(tv, i as int),
        decreases tc@.len() - i,
    {
        assert(tv[i as int] == (names_view(tc@[i as int].0@), tc@[i as int].1));
        if tc[i].0.len() > maxlen {
            maxlen = tc[i].0.len();
        }
        i = i + 1;
    }
    let mut emitted: usize = tc.len();
    let mut l: usize = 2;
    proof {
        assert(prefixes_view(out@) =~= Seq::<PrefixView>::empty());
    }
    while l < maxlen && emitted < max
        invariant
            tv == entries_view(tc@),
            2 <= l,
            maxlen as nat == longest_chain(tv, tv.len() as int),
            shared_prefixes(tv, max as nat, u0) == prefix_levels(tv, l as nat, maxlen as nat, max as nat,
                PrefixState { out: prefixes_view(out@), emitted: emitted as nat, used: Set::new(|x: Seq<char>| has_name(used@, x)) }),
        decreases maxlen - l,
    {
        let ghost stl = PrefixState { out: prefixes_view(out@), emitted: emitted as nat, used: Set::new(|x: Seq<char>| has_name(used@, x)) };
        let qs = level_prefixes_exec(tc, l);
        let ghost qv = qs@.map_values(|p: Vec<String>| names_view(p@));
        let mut k: usize = 0;
        let mut done = false;
        while k < qs.len() && !done
            invariant
                tv == entries_view(tc@),
                qv == qs@.map_values(|p: Vec<String>| names_view(p@)),
                k <= qs@.len(),
                done ==> emitted >= max,
                prefix_level(tv, qv, 0, max as nat, stl) == if done {
                    PrefixState { out: prefixes_view(out@), emitted: emitted as nat, used: Set::new(|x: Seq<char>| has_name(used@, x)) }
                } else {
                    prefix_level(tv, qv, k as nat, max as nat,
                        PrefixState { out: prefixes_view(out@), emitted: emitted as nat, used: Set::new(|x: Seq<char>| has_name(used@, x)) })
                },
            decreases qs@.len() - k + (if done { 0int } else { 1int }),
        {
            let q = &qs[k];
            assert(qv[k as int] == names_view(q@));
            let c = count_extending_exec(tc, q);
            if c < 2 {
                k = k + 1;
            } else if emitted >= max {
                done = true;
            } else {
                let ghost sb = PrefixState { out: prefixes_view(out@), emitted: emitted as nat, used: Set::new(|x: Seq<char>| has_name(used@, x)) };
                let pl = if q.len() > 0 { q.len() - 1 } else { 0 };
                let parent = longest_cover_exec(&out, q, pl);
                let base = make_prefix_base(q);
                let local = fresh_name(used, base.as_str());
                proof {
                    let t1 = |x: Seq<char>| has_name(used@, x);
                    let t2 = member_of(sb.used);
                    assert(t1 =~= t2);
                    assert(chosen_name(t2, base@, local@));
                    let r0 = fresh_local(sb.used, base@);
                    assert(chosen_name(t2, base@, r0));
                    crate::field_cache::nested::lemma_chosen_unique(t2, base@, local@, r0);
                }
                add_name(used, local.as_str());
                let sp = earliest_span_exec(tc, q);
                let span = match sp {
                    Some(s) => s,
                    None => crate::ast::Span { start: 0, end: 0, file_id: 0 },
                };
                proof {
                    lemma_earliest_some(tv, tv.len() as int, names_view(q@));
                }
                let ghost o0 = prefixes_view(out@);
                out.push(PrefixLocal { path: copy_path(q), local, span, parent });
                emitted = emitted + 1;
                proof {
                    assert(prefixes_view(out@) =~= o0.push(out@[out@.len() - 1].view_of()));
                    assert(Set::new(|x: Seq<char>| has_name(used@, x)) =~= sb.used.insert(local@));
                }
                k = k + 1;
            }
        }
        proof {
            if !done {
                assert(prefix_level(tv, qv, k as nat, max as nat,
                    PrefixState { out: prefixes_view(out@), emitted: emitted as nat, used: Set::new(|x: Seq<char>| has_name(used@, x)) })
                    == PrefixState { out: prefixes_view(out@), emitted: emitted as nat, used: Set::new(|x: Seq<char>| has_name(used@, x)) });
            }
        }
        l = l + 1;
    }
    out
}

/// A prefix that chains go on past has a first range.
proof fn lemma_earliest_some(tc: Seq<(Seq<Seq<char>>, Span)>, k: int, q: Seq<Seq<char>>)
    requires
        count_extending(tc, k, q) > 0,
    ensures
        earliest_span(tc, k, q) is Some,
    decreases k,
{
    if k > 0 && !extends(tc[k - 1], q) {
        lemma_earliest_some(tc, k - 1, q);
    }
}

/// Every shared prefix is read from a parent no longer than itself.
pub open spec fn parents_ok(out: Seq<PrefixView>) -> bool {
    forall|j: int| 0 <= j < out.len() ==> match (#[trigger] out[j]).parent {
        Some(pp) => pp.len() <= out[j].path.len(),
        None => true,
    }
}

/// A cover of `q` is no longer than `q`.
pub proof fn lemma_cover_len(paths: Seq<Seq<Seq<char>>>, q: Seq<Seq<char>>, len: int)
    requires
        longest_cover(paths, q, len) is Some,
    ensures
        longest_cover(paths, q, len).unwrap().len() <= q.len(),
    decreases len,
{
    if len >= 2 && len <= q.len() && !paths.contains(q.take(len)) {
        lemma_cover_len(paths, q, len - 1);
    }
}

proof fn lemma_level_parents(tc: Seq<(Seq<Seq<char>>, Span)>, qs: Seq<Seq<Seq<char>>>, k: nat, max: nat, st: PrefixState)
    requires
        parents_ok(st.out),
    ensures
        parents_ok(prefix_level(tc, qs, k, max, st).out),
    decreases qs.len() - k,
{
    if k < qs.len() {
        let q = qs[k as int];
        if count_extending(tc, tc.len() as int, q) < 2 {
            lemma_level_parents(tc, qs, k + 1, max, st);
        } else if st.emitted < max {
            let name = fresh_local(st.used, prefix_local_base(q));
            let par = longest_cover(prefix_paths(st.out), q, q.len() - 1);
            if par is Some {
                lemma_cover_len(prefix_paths(st.out), q, q.len() - 1);
            }
            let v = PrefixView { path: q, local: name, span: earliest_span(tc, tc.len() as int, q).unwrap(), parent: par };
            let out2 = st.out.push(v);
            assert(parents_ok(out2)) by {
                assert forall|j: int| 0 <= j < out2.len() implies match (#[trigger] out2[j]).parent {
                    Some(pp) => pp.len() <= out2[j].path.len(),
                    None => true,
                } by {
                    if j < st.out.len() {
                        assert(out2[j] == st.out[j]);
                    }
                }
            }
            lemma_level_parents(tc, qs, k + 1, max, PrefixState { out: out2, emitted: st.emitted + 1, used: st.used.insert(name) });
        }
    }
}

proof fn lemma_levels_parents(tc: Seq<(Seq<Seq<char>>, Span)>, l: nat, maxlen: nat, max: nat, st: PrefixState)
    requires
        parents_ok(st.out),
    ensures
        parents_ok(prefix_levels(tc, l, maxlen, max, st).out),
    decreases maxlen - l,
{
    if l < maxlen && st.emitted < max {
        let qs = level_prefixes(tc, l, tc.len() as int);
        lemma_level_parents(tc, qs, 0, max, st);
        lemma_levels_parents(tc, l + 1, maxlen, max, prefix_level(tc, qs, 0, max, st));
    }
}

/// Every shared prefix chosen is read from a parent no longer than itself.
pub proof fn lemma_shared_parents(tc: Seq<(Seq<Seq<char>>, Span)>, max: nat, used: Set<Seq<char>>)
    ensures
        parents_ok(shared_prefixes(tc, max, used).out),
{
    let st = PrefixState { out: Seq::empty(), emitted: tc.len(), used };
    if tc.len() >= 2 {
        lemma_levels_parents(tc, 2, longest_chain(tc, tc.len() as int), max, st);
    }
}

} // verus!
