//! Strict orders on names and on pairs of names, and the fact that a
//! finite set has one strictly increasing listing.

use vstd::prelude::*;
use crate::text::{lemma_seq_lt_irreflexive, lemma_seq_lt_total, seq_lt};

verus! {

/// `lt` is a strict total order.
pub open spec fn is_strict_order<T>(lt: spec_fn(T, T) -> bool) -> bool {
    &&& forall|a: T| !#[trigger] lt(a, a)
    &&& forall|a: T, b: T, c: T| #[trigger] lt(a, b) && #[trigger] lt(b, c) ==> lt(a, c)
    &&& forall|a: T, b: T| a != b ==> #[trigger] lt(a, b) || lt(b, a)
}

/// Each element of `s` comes before the next.
pub open spec fn increasing<T>(s: Seq<T>, lt: spec_fn(T, T) -> bool) -> bool {
    forall|i: int| 0 <= i < s.len() - 1 ==> #[trigger] lt(s[i], s[i + 1])
}

/// The increasing listing of the finite set `x`.
pub open spec fn listing<T>(x: Set<T>, lt: spec_fn(T, T) -> bool) -> Seq<T> {
    choose|s: Seq<T>| increasing(s, lt) && #[trigger] s.to_set() == x
}

/// In an increasing sequence every element comes before every later one.
pub proof fn lemma_increasing_all<T>(s: Seq<T>, lt: spec_fn(T, T) -> bool)
    requires
        is_strict_order(lt),
        increasing(s, lt),
    ensures
        forall|i: int, j: int| 0 <= i < j < s.len() ==> lt(s[i], s[j]),
{
    assert forall|i: int, j: int| 0 <= i < j < s.len() implies lt(s[i], s[j]) by {
        lemma_increasing_from(s, lt, i, j);
    }
}

proof fn lemma_increasing_from<T>(s: Seq<T>, lt: spec_fn(T, T) -> bool, i: int, j: int)
    requires
        is_strict_order(lt),
        increasing(s, lt),
        0 <= i < j < s.len(),
    ensures
        lt(s[i], s[j]),
    decreases j - i,
{
    let k = j - 1;
    assert(lt(s[k], s[k + 1]));
    if j > i + 1 {
        lemma_increasing_from(s, lt, i, k);
        assert(lt(s[i], s[k]) && lt(s[k], s[j]));
    }
}

/// Two increasing sequences with the same elements are equal.
pub proof fn lemma_increasing_unique<T>(s1: Seq<T>, s2: Seq<T>, lt: spec_fn(T, T) -> bool)
    requires
        is_strict_order(lt),
        increasing(s1, lt),
        increasing(s2, lt),
        s1.to_set() == s2.to_set(),
    ensures
        s1 == s2,
    decreases s1.len(),
{
    lemma_increasing_all(s1, lt);
    lemma_increasing_all(s2, lt);
    if s1.len() == 0 {
        if s2.len() > 0 {
            assert(s2.to_set().contains(s2[0]));
        }
        assert(s1 =~= s2);
    } else if s2.len() == 0 {
        assert(s1.to_set().contains(s1[0]));
    } else {
        let a = s1[0];
        let b = s2[0];
        assert(s1.to_set().contains(a));
        assert(s2.to_set().contains(b));
        let ia = choose|i: int| 0 <= i < s2.len() && s2[i] == a;
        let ib = choose|i: int| 0 <= i < s1.len() && s1[i] == b;
        if a != b {
            assert(ia > 0 && ib > 0);
            assert(lt(b, a));
            assert(lt(a, b));
            assert(lt(a, a));
        }
        let t1 = s1.drop_first();
        let t2 = s2.drop_first();
        assert(increasing(t1, lt)) by {
            assert forall|i: int| 0 <= i < t1.len() - 1 implies #[trigger] lt(t1[i], t1[i + 1]) by {
                assert(lt(s1[i + 1], s1[i + 2]));
            }
        }
        assert(increasing(t2, lt)) by {
            assert forall|i: int| 0 <= i < t2.len() - 1 implies #[trigger] lt(t2[i], t2[i + 1]) by {
                assert(lt(s2[i + 1], s2[i + 2]));
            }
        }
        assert(t1.to_set() =~= t2.to_set()) by {
            assert forall|x: T| t1.to_set().contains(x) implies t2.to_set().contains(x) by {
                let i = choose|i: int| 0 <= i < t1.len() && t1[i] == x;
                assert(lt(s1[0], s1[i + 1]));
                assert(s2.to_set().contains(x));
                let j = choose|j: int| 0 <= j < s2.len() && s2[j] == x;
                if j == 0 {
                    assert(lt(a, a));
                }
                assert(t2[j - 1] == x);
            }
            assert forall|x: T| t2.to_set().contains(x) implies t1.to_set().contains(x) by {
                let i = choose|i: int| 0 <= i < t2.len() && t2[i] == x;
                assert(lt(s2[0], s2[i + 1]));
                assert(s1.to_set().contains(x));
                let j = choose|j: int| 0 <= j < s1.len() && s1[j] == x;
                if j == 0 {
                    assert(lt(b, b));
                }
                assert(t1[j - 1] == x);
            }
        }
        lemma_increasing_unique(t1, t2, lt);
        assert(s1 =~= seq![a] + t1);
        assert(s2 =~= seq![b] + t2);
    }
}

/// An increasing listing of `x` is `listing(x, lt)`.
pub proof fn lemma_listing<T>(s: Seq<T>, x: Set<T>, lt: spec_fn(T, T) -> bool)
    requires
        is_strict_order(lt),
        increasing(s, lt),
        s.to_set() == x,
    ensures
        listing(x, lt) == s,
{
    let l = listing(x, lt);
    assert(increasing(l, lt) && l.to_set() == x);
    lemma_increasing_unique(l, s, lt);
}

/// `seq_lt` is transitive.
pub proof fn lemma_seq_lt_trans(a: Seq<char>, b: Seq<char>, c: Seq<char>)
    requires
        seq_lt(a, b),
        seq_lt(b, c),
    ensures
        seq_lt(a, c),
    decreases a.len(),
{
    if a.len() > 0 && b.len() > 0 && c.len() > 0 {
        if a[0] == b[0] && b[0] == c[0] {
            lemma_seq_lt_trans(a.drop_first(), b.drop_first(), c.drop_first());
        }
    }
}

/// Character order on names, as a function.
pub open spec fn name_lt() -> spec_fn(Seq<char>, Seq<char>) -> bool {
    |a: Seq<char>, b: Seq<char>| seq_lt(a, b)
}

/// Order on pairs of names: by the first, then by the second.
pub open spec fn pair_lt() -> spec_fn((Seq<char>, Seq<char>), (Seq<char>, Seq<char>)) -> bool {
    |a: (Seq<char>, Seq<char>), b: (Seq<char>, Seq<char>)| seq_lt(a.0, b.0) || (a.0 == b.0 && seq_lt(a.1, b.1))
}

pub proof fn lemma_name_order()
    ensures
        is_strict_order(name_lt()),
{
    let lt = name_lt();
    assert forall|a: Seq<char>| !#[trigger] lt(a, a) by {
        lemma_seq_lt_irreflexive(a);
    }
    assert forall|a: Seq<char>, b: Seq<char>, c: Seq<char>| #[trigger] lt(a, b) && #[trigger] lt(b, c) implies lt(a, c) by {
        lemma_seq_lt_trans(a, b, c);
    }
    assert forall|a: Seq<char>, b: Seq<char>| a != b implies #[trigger] lt(a, b) || lt(b, a) by {
        lemma_seq_lt_total(a, b);
    }
}

pub proof fn lemma_pair_order()
    ensures
        is_strict_order(pair_lt()),
{
    let lt = pair_lt();
    assert forall|a: (Seq<char>, Seq<char>)| !#[trigger] lt(a, a) by {
        lemma_seq_lt_irreflexive(a.0);
        lemma_seq_lt_irreflexive(a.1);
    }
    assert forall|a: (Seq<char>, Seq<char>), b: (Seq<char>, Seq<char>), c: (Seq<char>, Seq<char>)|
        #[trigger] lt(a, b) && #[trigger] lt(b, c) implies lt(a, c) by {
        if seq_lt(a.0, b.0) && seq_lt(b.0, c.0) {
            lemma_seq_lt_trans(a.0, b.0, c.0);
        } else if seq_lt(a.0, b.0) {
            assert(b.0 == c.0);
        } else if seq_lt(b.0, c.0) {
            assert(a.0 == b.0);
        } else {
            lemma_seq_lt_trans(a.1, b.1, c.1);
        }
    }
    assert forall|a: (Seq<char>, Seq<char>), b: (Seq<char>, Seq<char>)| a != b implies #[trigger] lt(a, b) || lt(b, a) by {
        if a.0 != b.0 {
            lemma_seq_lt_total(a.0, b.0);
        } else {
            assert(a.1 != b.1);
            lemma_seq_lt_total(a.1, b.1);
        }
    }
}

} // verus!
