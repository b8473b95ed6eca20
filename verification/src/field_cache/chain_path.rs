//! Member chains on the receiver, `@a.b.c`: their paths, the character
//! order on paths, and the names of the locals that cache them.

use vstd::prelude::*;
use crate::ast::{Expr, ExprKind, Span};
use crate::field_cache::ipa::names_view;
use crate::text::{copy_str, lemma_seq_lt_irreflexive, lemma_seq_lt_total, push_char, push_str, seq_lt, str_eq, str_lt};

verus! {

/// The path of `e` when it is a member chain on the receiver: `@` has the
/// empty path, `@a.b` the path `[a, b]`.
pub open spec fn chain_path(e: Expr) -> Option<Seq<Seq<char>>>
    decreases e,
{
    match e.kind {
        ExprKind::SelfAccess => Some(Seq::empty()),
        ExprKind::Member { obj, name } => match chain_path(*obj) {
            Some(p) => Some(p.push(name@)),
            None => None,
        },
        _ => None,
    }
}

/// The path of `e` (see `chain_path`).
pub fn chain_path_of(e: &Expr) -> (r: Option<Vec<String>>)
    ensures
        match r {
            Some(v) => chain_path(*e) == Some(names_view(v@)),
            None => chain_path(*e) is None,
        },
    decreases e,
{
    match &e.kind {
        ExprKind::SelfAccess => {
            let v: Vec<String> = Vec::new();
            assert(names_view(v@) =~= Seq::<Seq<char>>::empty());
            Some(v)
        },
        ExprKind::Member { obj, name } => match chain_path_of(obj) {
            Some(mut v) => {
                let ghost v0 = v@;
                v.push(copy_str(name.as_str()));
                assert(names_view(v@) =~= names_view(v0).push(name@));
                Some(v)
            },
            None => None,
        },
        _ => None,
    }
}

/// Character order on paths: segment by segment, a proper prefix first.
pub open spec fn path_lt(a: Seq<Seq<char>>, b: Seq<Seq<char>>) -> bool
    decreases a.len(),
{
    if b.len() == 0 {
        false
    } else if a.len() == 0 {
        true
    } else if a[0] != b[0] {
        seq_lt(a[0], b[0])
    } else {
        path_lt(a.drop_first(), b.drop_first())
    }
}

/// Two different paths are ordered one way or the other.
pub proof fn lemma_path_lt_total(a: Seq<Seq<char>>, b: Seq<Seq<char>>)
    requires
        a != b,
    ensures
        path_lt(a, b) || path_lt(b, a),
    decreases a.len(),
{
    if a.len() > 0 && b.len() > 0 {
        if a[0] != b[0] {
            lemma_seq_lt_total(a[0], b[0]);
        } else {
            if a.drop_first() == b.drop_first() {
                assert(a =~= seq![a[0]] + a.drop_first());
                assert(b =~= seq![b[0]] + b.drop_first());
            }
            lemma_path_lt_total(a.drop_first(), b.drop_first());
        }
    } else if a.len() == 0 && b.len() == 0 {
        assert(a =~= b);
    }
}

/// No path comes before itself.
pub proof fn lemma_path_lt_irreflexive(a: Seq<Seq<char>>)
    ensures
        !path_lt(a, a),
    decreases a.len(),
{
    if a.len() > 0 {
        lemma_path_lt_irreflexive(a.drop_first());
    }
}

/// Whether two paths are equal.
pub fn path_eq(a: &Vec<String>, b: &Vec<String>) -> (r: bool)
    ensures
        r == (names_view(a@) == names_view(b@)),
{
    if a.len() != b.len() {
        return false;
    }
    let mut i: usize = 0;
    while i < a.len()
        invariant
            a@.len() == b@.len(),
            i <= a@.len(),
            forall|j: int| 0 <= j < i ==> a@[j]@ == b@[j]@,
        decreases a@.len() - i,
    {
        if !str_eq(a[i].as_str(), b[i].as_str()) {
            assert(names_view(a@)[i as int] != names_view(b@)[i as int]);
            return false;
        }
        i = i + 1;
    }
    assert(names_view(a@) =~= names_view(b@));
    true
}

/// Whether path `a` comes before path `b` (see `path_lt`).
pub fn path_less(a: &Vec<String>, b: &Vec<String>) -> (r: bool)
    ensures
        r == path_lt(names_view(a@), names_view(b@)),
{
    let ghost x = names_view(a@);
    let ghost y = names_view(b@);
    let mut i: usize = 0;
    proof {
        assert(x.skip(0) =~= x);
        assert(y.skip(0) =~= y);
    }
    while i < a.len() && i < b.len()
        invariant
            x == names_view(a@),
            y == names_view(b@),
            i <= a@.len(),
            i <= b@.len(),
            path_lt(x, y) == path_lt(x.skip(i as int), y.skip(i as int)),
        decreases a@.len() - i,
    {
        let ghost xs = x.skip(i as int);
        let ghost ys = y.skip(i as int);
        proof {
            assert(xs[0] == a@[i as int]@);
            assert(ys[0] == b@[i as int]@);
            assert(xs.drop_first() =~= x.skip(i + 1));
            assert(ys.drop_first() =~= y.skip(i + 1));
        }
        if !str_eq(a[i].as_str(), b[i].as_str()) {
            return str_lt(a[i].as_str(), b[i].as_str());
        }
        i = i + 1;
    }
    proof {
        assert(x.skip(i as int).len() == x.len() - i);
        assert(y.skip(i as int).len() == y.len() - i);
    }
    i == a.len() && i < b.len()
}

/// The paths are strictly increasing in character order.
pub open spec fn sorted_paths(v: Seq<Seq<Seq<char>>>) -> bool {
    forall|i: int| 0 <= i < v.len() - 1 ==> path_lt(#[trigger] v[i], v[i + 1])
}

/// The paths of a list of paths.
pub open spec fn paths_view(v: Seq<Vec<String>>) -> Seq<Seq<Seq<char>>> {
    v.map_values(|p: Vec<String>| names_view(p@))
}

/// A copy of a path.
pub fn copy_path(p: &Vec<String>) -> (r: Vec<String>)
    ensures
        names_view(r@) == names_view(p@),
{
    let mut r: Vec<String> = Vec::new();
    let mut i: usize = 0;
    while i < p.len()
        invariant
            i <= p@.len(),
            names_view(r@) == names_view(p@).take(i as int),
        decreases p@.len() - i,
    {
        let ghost r0 = r@;
        r.push(copy_str(p[i].as_str()));
        assert(names_view(r@) =~= names_view(r0).push(p@[i as int]@));
        assert(names_view(p@).take(i + 1) =~= names_view(p@).take(i as int).push(p@[i as int]@));
        i = i + 1;
    }
    assert(names_view(p@).take(p@.len() as int) =~= names_view(p@));
    r
}

/// Adds path `x` to a sorted list of paths, keeping it sorted.
pub fn insert_path(r: &mut Vec<Vec<String>>, x: &Vec<String>)
    requires
        sorted_paths(paths_view(old(r)@)),
    ensures
        sorted_paths(paths_view(final(r)@)),
        forall|y: Seq<Seq<char>>| #[trigger] paths_view(final(r)@).contains(y) <==> paths_view(old(r)@).contains(y) || y == names_view(x@),
{
    let ghost xv = names_view(x@);
    let mut k: usize = 0;
    while k < r.len() && path_less(&r[k], x)
        invariant
            k <= r@.len(),
            r@ == old(r)@,
            xv == names_view(x@),
            sorted_paths(paths_view(r@)),
            forall|j: int| 0 <= j < k ==> path_lt(#[trigger] paths_view(r@)[j], xv),
        decreases r@.len() - k,
    {
        assert(paths_view(r@)[k as int] == names_view(r@[k as int]@));
        k = k + 1;
    }
    if k < r.len() && path_eq(&r[k], x) {
        proof {
            assert(paths_view(r@)[k as int] == xv);
        }
        return;
    }
    let ghost r0 = paths_view(r@);
    let item = copy_path(x);
    r.insert(k, item);
    proof {
        let rv = paths_view(r@);
        assert(rv =~= r0.insert(k as int, xv));
        if k < r0.len() {
            assert(r0[k as int] == names_view(old(r)@[k as int]@));
            lemma_path_lt_total(xv, r0[k as int]);
        }
        assert forall|i: int| 0 <= i < rv.len() - 1 implies path_lt(#[trigger] rv[i], rv[i + 1]) by {
            if i < k - 1 {
                assert(rv[i] == r0[i] && rv[i + 1] == r0[i + 1]);
            } else if i == k - 1 {
                assert(rv[i] == r0[i]);
            } else if i == k {
                assert(rv[i + 1] == r0[i]);
            } else {
                assert(rv[i] == r0[i - 1] && rv[i + 1] == r0[i]);
            }
        }
        assert forall|y: Seq<Seq<char>>| #[trigger] rv.contains(y) <==> r0.contains(y) || y == xv by {
            if rv.contains(y) {
                let j = choose|j: int| 0 <= j < rv.len() && rv[j] == y;
                if j < k {
                    assert(r0[j] == y);
                } else if j > k {
                    assert(r0[j - 1] == y);
                }
            }
            if r0.contains(y) {
                let j = choose|j: int| 0 <= j < r0.len() && r0[j] == y;
                if j < k {
                    assert(rv[j] == y);
                } else {
                    assert(rv[j + 1] == y);
                }
            }
            if y == xv {
                assert(rv[k as int] == y);
            }
        }
    }
}

/// The segments of a path joined by `_`.
pub open spec fn joined(p: Seq<Seq<char>>) -> Seq<char>
    decreases p.len(),
{
    if p.len() == 0 {
        Seq::empty()
    } else if p.len() == 1 {
        p[0]
    } else {
        joined(p.drop_last()) + seq!['_'] + p.last()
    }
}

/// `_at_<a>_<b>_chain`, the base name of the local caching chain `@a.b`.
pub open spec fn chain_local_base(p: Seq<Seq<char>>) -> Seq<char> {
    seq!['_', 'a', 't', '_'] + joined(p) + seq!['_', 'c', 'h', 'a', 'i', 'n']
}

/// `_at_<a>_<b>_pre`, the base name of the local caching a shared prefix.
pub open spec fn prefix_local_base(p: Seq<Seq<char>>) -> Seq<char> {
    seq!['_', 'a', 't', '_'] + joined(p) + seq!['_', 'p', 'r', 'e']
}

/// Appends the segments of `p` joined by `_` to `s`.
fn push_joined(s: &mut String, p: &Vec<String>)
    ensures
        final(s)@ == old(s)@ + joined(names_view(p@)),
{
    let ghost pv = names_view(p@);
    let mut i: usize = 0;
    assert(joined(pv.take(0)) =~= Seq::<char>::empty());
    assert(s@ =~= old(s)@ + joined(pv.take(0)));
    while i < p.len()
        invariant
            pv == names_view(p@),
            i <= p@.len(),
            s@ == old(s)@ + joined(pv.take(i as int)),
        decreases p@.len() - i,
    {
        let ghost s0 = s@;
        if i > 0 {
            push_char(s, '_');
        }
        push_str(s, p[i].as_str());
        proof {
            let t = pv.take(i + 1);
            assert(t.drop_last() =~= pv.take(i as int));
            assert(t.last() == p@[i as int]@);
            if i == 0 {
                assert(joined(t) == t[0]);
                assert(pv.take(0) =~= Seq::<Seq<char>>::empty());
                assert(s@ =~= old(s)@ + joined(t));
            } else {
                assert(s@ =~= old(s)@ + joined(t));
            }
        }
        i = i + 1;
    }
    assert(pv.take(p@.len() as int) =~= pv);
}

/// `_at_<path>_chain`.
pub fn make_chain_base(p: &Vec<String>) -> (r: String)
    ensures
        r@ == chain_local_base(names_view(p@)),
{
    let mut r = String::new();
    push_char(&mut r, '_');
    push_char(&mut r, 'a');
    push_char(&mut r, 't');
    push_char(&mut r, '_');
    push_joined(&mut r, p);
    push_char(&mut r, '_');
    push_char(&mut r, 'c');
    push_char(&mut r, 'h');
    push_char(&mut r, 'a');
    push_char(&mut r, 'i');
    push_char(&mut r, 'n');
    assert(r@ =~= chain_local_base(names_view(p@)));
    r
}

/// `_at_<path>_pre`.
pub fn make_prefix_base(p: &Vec<String>) -> (r: String)
    ensures
        r@ == prefix_local_base(names_view(p@)),
{
    let mut r = String::new();
    push_char(&mut r, '_');
    push_char(&mut r, 'a');
    push_char(&mut r, 't');
    push_char(&mut r, '_');
    push_joined(&mut r, p);
    push_char(&mut r, '_');
    push_char(&mut r, 'p');
    push_char(&mut r, 'r');
    push_char(&mut r, 'e');
    assert(r@ =~= prefix_local_base(names_view(p@)));
    r
}

/// `e` is `r.s1.s2…` for the segments `tail`, every node at `span`, where
/// the root `r` is the variable `l` for `Some(l)` and `@` for `None`.
pub open spec fn is_chain_expr(e: Expr, root: Option<Seq<char>>, tail: Seq<Seq<char>>, span: Span) -> bool
    decreases tail.len(),
{
    e.span == span && if tail.len() == 0 {
        match root {
            Some(l) => e.kind matches ExprKind::Ident(n) && n@ == l,
            None => e.kind is SelfAccess,
        }
    } else {
        e.kind matches ExprKind::Member { obj, name } && name@ == tail.last() && is_chain_expr(*obj, root, tail.drop_last(), span)
    }
}

/// The expression `r.s1.s2…` for the segments `p[from..]` (see
/// `is_chain_expr`).
pub fn build_chain(root: Option<&str>, p: &Vec<String>, from: usize, span: Span) -> (e: Expr)
    requires
        from <= p@.len(),
    ensures
        is_chain_expr(e, match root { Some(l) => Some(l@), None => None }, names_view(p@).skip(from as int), span),
{
    let ghost rv: Option<Seq<char>> = match root { Some(l) => Some(l@), None => None };
    let ghost pv = names_view(p@);
    let mut e = match root {
        Some(l) => Expr { kind: ExprKind::Ident(copy_str(l)), span },
        None => Expr { kind: ExprKind::SelfAccess, span },
    };
    let mut i: usize = from;
    assert(pv.subrange(from as int, from as int) =~= Seq::<Seq<char>>::empty());
    while i < p.len()
        invariant
            from <= i <= p@.len(),
            pv == names_view(p@),
            is_chain_expr(e, rv, pv.subrange(from as int, i as int), span),
        decreases p@.len() - i,
    {
        let ghost e0 = e;
        e = Expr { kind: ExprKind::Member { obj: Box::new(e), name: copy_str(p[i].as_str()) }, span };
        proof {
            let t = pv.subrange(from as int, i + 1);
            assert(t.drop_last() =~= pv.subrange(from as int, i as int));
            assert(t.last() == p@[i as int]@);
        }
        i = i + 1;
    }
    assert(pv.subrange(from as int, p@.len() as int) =~= pv.skip(from as int));
    e
}

} // verus!
