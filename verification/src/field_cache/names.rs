//! Names of cache locals: `_at_<field>` (with a region suffix for later
//! regions of a mutable field), made unique against the names a method
//! already binds by a numeric suffix.

use vstd::prelude::*;
use vstd::set_lib::{lemma_int_range, lemma_len_subset, lemma_map_size, set_int_range};
use crate::ast::{FnBody, FnDecl};
use crate::field_cache::collect::{add_name, binds_block, binds_collect_block, binds_collect_expr, binds_expr, has_name};
use crate::field_cache::ipa::{contains_name, names_view};
use crate::text::{decimal, digit_char, push_char, push_decimal, push_str};

verus! {

/// `base` followed by `_` and the number `j`.
pub open spec fn suffixed(base: Seq<char>, j: int) -> Seq<char> {
    base + seq!['_'] + decimal(j as nat)
}

/// `r` is the name given to a new local called `base` among the names
/// `used`: `base` itself when free, else `base_k` for the least `k >= 1`
/// that is free.
pub open spec fn first_free(used: Seq<String>, base: Seq<char>, r: Seq<char>) -> bool {
    chosen_name(|x: Seq<char>| has_name(used, x), base, r)
}

/// `r` is the name given to a new local called `base` when the names for
/// which `taken` holds are in use: `base` itself when free, else `base_k`
/// for the least `k >= 1` that is free.
pub open spec fn chosen_name(taken: spec_fn(Seq<char>) -> bool, base: Seq<char>, r: Seq<char>) -> bool {
    &&& !taken(r)
    &&& (r == base || (taken(base) && exists|k: int| #![trigger suffixed(base, k)]
        k >= 1 && r == suffixed(base, k) && forall|j: int| 1 <= j < k ==> taken(#[trigger] suffixed(base, j))))
}

proof fn lemma_decimal_len(n: nat)
    ensures
        decimal(n).len() >= 1,
        n >= 10 ==> decimal(n).len() >= 2,
    decreases n,
{
    if n >= 10 {
        lemma_decimal_len(n / 10);
        assert(decimal(n) == decimal(n / 10).push(digit_char(n % 10)));
    } else {
        assert(decimal(n) == seq![digit_char(n)]);
    }
}

proof fn lemma_decimal_injective(a: nat, b: nat)
    requires
        decimal(a) == decimal(b),
    ensures
        a == b,
    decreases a,
{
    lemma_decimal_len(a);
    lemma_decimal_len(b);
    if a >= 10 && b >= 10 {
        assert(decimal(a) == decimal(a / 10).push(digit_char(a % 10)));
        assert(decimal(b) == decimal(b / 10).push(digit_char(b % 10)));
        assert(decimal(a).drop_last() =~= decimal(a / 10));
        assert(decimal(b).drop_last() =~= decimal(b / 10));
        lemma_decimal_injective(a / 10, b / 10);
        assert(decimal(a).last() == digit_char(a % 10));
        assert(decimal(b).last() == digit_char(b % 10));
        assert(a % 10 == b % 10);
    } else if a < 10 && b < 10 {
        assert(decimal(a) == seq![digit_char(a)]);
        assert(decimal(b) == seq![digit_char(b)]);
        assert(digit_char(a) == decimal(a)[0]);
    }
}

proof fn lemma_suffixed_injective(base: Seq<char>, a: int, b: int)
    requires
        a >= 0,
        b >= 0,
        suffixed(base, a) == suffixed(base, b),
    ensures
        a == b,
{
    let n: int = base.len() as int + 1;
    assert(suffixed(base, a).skip(n) =~= decimal(a as nat));
    assert(suffixed(base, b).skip(n) =~= decimal(b as nat));
    lemma_decimal_injective(a as nat, b as nat);
}

/// If `base_1 .. base_(k-1)` are all taken, there are at least `k - 1` names.
proof fn lemma_taken_bound(used: Seq<String>, base: Seq<char>, k: int)
    requires
        k >= 1,
        forall|j: int| 1 <= j < k ==> has_name(used, #[trigger] suffixed(base, j)),
    ensures
        k - 1 <= used.len(),
{
    let x = set_int_range(1, k);
    lemma_int_range(1, k);
    let f = |j: int| suffixed(base, j);
    assert(vstd::relations::injective_on(f, x)) by {
        assert forall|a: int, b: int| x.contains(a) && x.contains(b) && #[trigger] f(a) == #[trigger] f(b) implies a == b by {
            lemma_suffixed_injective(base, a, b);
        }
    }
    let y = x.map(f);
    lemma_map_size(x, y, f);
    let nv = names_view(used);
    let s = nv.to_set();
    assert(y.subset_of(s)) by {
        assert forall|z: Seq<char>| y.contains(z) implies s.contains(z) by {
            let j = choose|j: int| x.contains(j) && f(j) == z;
            assert(has_name(used, suffixed(base, j)));
        }
    }
    nv.lemma_cardinality_of_set();
    lemma_len_subset(y, s);
}

/// The name for a new local called `base` that clashes with none of `used`
/// (see `first_free`).
pub fn fresh_name(used: &Vec<String>, base: &str) -> (r: String)
    ensures
        first_free(used@, base@, r@),
{
    if !contains_name(used, base) {
        return String::from_str(base);
    }
    let mut k: u128 = 1;
    let n: u128 = used.len() as u128;
    loop
        invariant
            1 <= k <= used@.len() + 1,
            n == used@.len(),
            n <= usize::MAX,
            has_name(used@, base@),
            forall|j: int| 1 <= j < k ==> has_name(used@, #[trigger] suffixed(base@, j)),
        decreases n + 1 - k,
    {
        let mut cand = String::from_str(base);
        push_char(&mut cand, '_');
        push_decimal(&mut cand, k);
        assert(cand@ =~= suffixed(base@, k as int));
        if !contains_name(used, cand.as_str()) {
            return cand;
        }
        proof { lemma_taken_bound(used@, base@, k as int + 1); }
        k = k + 1;
    }
}

/// The names a method binds: its parameters and every local of its body.
pub open spec fn method_binds(f: FnDecl, x: Seq<char>) -> bool {
    (exists|i: int| 0 <= i < f.params@.len() && #[trigger] f.params@[i].name@ == x) || match f.body {
        FnBody::Block(b) => binds_block(b, x),
        FnBody::Expr(e) => binds_expr(e, x),
        FnBody::External => false,
    }
}

/// The names a method binds (see `method_binds`).
pub fn method_local_names(f: &FnDecl) -> (r: Vec<String>)
    ensures
        forall|x: Seq<char>| #[trigger] has_name(r@, x) <==> method_binds(*f, x),
{
    let mut r: Vec<String> = Vec::new();
    proof {
        assert(names_view(Seq::<String>::empty()) =~= Seq::<Seq<char>>::empty());
    }
    let mut i: usize = 0;
    while i < f.params.len()
        invariant
            i <= f.params@.len(),
            forall|x: Seq<char>| #[trigger] has_name(r@, x) <==> exists|j: int| 0 <= j < i && #[trigger] f.params@[j].name@ == x,
        decreases f.params@.len() - i,
    {
        add_name(&mut r, f.params[i].name.as_str());
        proof {
            assert forall|x: Seq<char>| #[trigger] has_name(r@, x) <==> exists|j: int| 0 <= j < i + 1 && #[trigger] f.params@[j].name@ == x by {
                if exists|j: int| 0 <= j < i + 1 && #[trigger] f.params@[j].name@ == x {
                    let j = choose|j: int| 0 <= j < i + 1 && #[trigger] f.params@[j].name@ == x;
                    if j < i {
                        assert(exists|j2: int| 0 <= j2 < i && #[trigger] f.params@[j2].name@ == x);
                    }
                }
            }
        }
        i = i + 1;
    }
    match &f.body {
        FnBody::Block(b) => binds_collect_block(b, &mut r),
        FnBody::Expr(e) => binds_collect_expr(e, &mut r),
        FnBody::External => {},
    }
    r
}

/// `_at_<f>`, the base name of the first cache local of a field.
pub open spec fn at_name(f: Seq<char>) -> Seq<char> {
    seq!['_', 'a', 't', '_'] + f
}

/// `_at_<f>_r<n>`, the base name for the `n`-th later region of a field.
pub open spec fn region_name(f: Seq<char>, n: nat) -> Seq<char> {
    at_name(f) + seq!['_', 'r'] + decimal(n)
}

/// `_at_<f>_n<n>`, the base name for a cache local in a nested block.
pub open spec fn nested_name(f: Seq<char>, n: nat) -> Seq<char> {
    at_name(f) + seq!['_', 'n'] + decimal(n)
}

/// `_at_<f>`.
pub fn make_at_name(f: &str) -> (r: String)
    ensures
        r@ == at_name(f@),
{
    let mut r = String::new();
    push_char(&mut r, '_');
    push_char(&mut r, 'a');
    push_char(&mut r, 't');
    push_char(&mut r, '_');
    push_str(&mut r, f);
    assert(r@ =~= at_name(f@));
    r
}

/// `_at_<f>_r<n>` (`_at_<f>` for the first region, `n == 0`).
pub fn make_region_name(f: &str, n: usize) -> (r: String)
    ensures
        r@ == (if n == 0 { at_name(f@) } else { region_name(f@, n as nat) }),
{
    let mut r = make_at_name(f);
    if n > 0 {
        push_char(&mut r, '_');
        push_char(&mut r, 'r');
        push_decimal(&mut r, n as u128);
        assert(r@ =~= region_name(f@, n as nat));
    }
    r
}

/// `_at_<f>_n<n>`.
pub fn make_nested_name(f: &str, n: usize) -> (r: String)
    ensures
        r@ == nested_name(f@, n as nat),
{
    let mut r = make_at_name(f);
    push_char(&mut r, '_');
    push_char(&mut r, 'n');
    push_decimal(&mut r, n as u128);
    assert(r@ =~= nested_name(f@, n as nat));
    r
}

} // verus!
