//! Per-method field sets (which receiver fields a method writes), used to
//! decide whether a call on the receiver can change a cached field.

use vstd::prelude::*;
use crate::text::str_eq;

verus! {

/// The fields that the method `owner_type.method` writes (directly or
/// through the methods it calls).
pub struct MethodFields {
    pub owner_type: String,
    pub method: String,
    pub fields: Vec<String>,
}

/// Field sets of the methods of a module.
pub struct WriteSets {
    pub entries: Vec<MethodFields>,
}

/// The names in a list of strings.
pub open spec fn names_view(v: Seq<String>) -> Seq<Seq<char>> {
    v.map_values(|s: String| s@)
}

/// The field set recorded for `t.m` among the first `k` entries (the last
/// such entry wins), if any.
pub open spec fn lookup_fields(es: Seq<MethodFields>, k: int, t: Seq<char>, m: Seq<char>) -> Option<Seq<Seq<char>>>
    decreases k,
{
    if k <= 0 || k > es.len() {
        None
    } else if es[k - 1].owner_type@ == t && es[k - 1].method@ == m {
        Some(names_view(es[k - 1].fields@))
    } else {
        lookup_fields(es, k - 1, t, m)
    }
}

/// The receiver context of an inter-procedural check: field sets and the
/// receiver type of the method being rewritten.
pub struct IpaView {
    pub entries: Seq<MethodFields>,
    pub recv: Seq<char>,
}

/// A call `@m(..)` may change `@f`: `m` is not known, or its field set
/// holds `f`.
pub open spec fn call_may_write(ctx: IpaView, m: Seq<char>, f: Seq<char>) -> bool {
    match lookup_fields(ctx.entries, ctx.entries.len() as int, ctx.recv, m) {
        Some(fs) => fs.contains(f),
        None => true,
    }
}

/// Whether `name` occurs in `v`.
pub fn contains_name(v: &Vec<String>, name: &str) -> (r: bool)
    ensures
        r == names_view(v@).contains(name@),
{
    let mut i: usize = 0;
    while i < v.len()
        invariant
            i <= v.len(),
            forall|k: int| 0 <= k < i ==> v@[k]@ != name@,
        decreases v.len() - i,
    {
        if str_eq(v[i].as_str(), name) {
            assert(names_view(v@)[i as int] == name@);
            return true;
        }
        i = i + 1;
    }
    proof {
        if names_view(v@).contains(name@) {
            let k = choose|k: int| 0 <= k < names_view(v@).len() && names_view(v@)[k] == name@;
            assert(v@[k]@ == name@);
        }
    }
    false
}

/// Whether calling `recv.method` may change the field `field` (unknown
/// methods may).
pub fn call_invalidates_field(ws: &WriteSets, recv: &str, method: &str, field: &str) -> (r: bool)
    ensures
        r == call_may_write(IpaView { entries: ws.entries@, recv: recv@ }, method@, field@),
{
    let n = ws.entries.len();
    let mut k: usize = n;
    while k > 0
        invariant
            k <= n,
            n == ws.entries@.len(),
            lookup_fields(ws.entries@, n as int, recv@, method@) == lookup_fields(ws.entries@, k as int, recv@, method@),
        decreases k,
    {
        let e = &ws.entries[k - 1];
        if str_eq(e.owner_type.as_str(), recv) && str_eq(e.method.as_str(), method) {
            return contains_name(&e.fields, field);
        }
        k = k - 1;
    }
    true
}

} // verus!
