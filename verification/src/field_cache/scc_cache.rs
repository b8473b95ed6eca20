//! Fingerprints of the method graph that the write-set closure runs on
//! (each method's own fields, each method's callees), and the one-slot
//! cache that keeps the closure of the last graph seen.
//!
//! The fingerprint hashes a canonical text of the graph: methods in
//! increasing order, each with its members in increasing order, every name
//! prefixed by its length. The text depends on the graph as a map, not on
//! the order its entries came in.

use vstd::prelude::*;
use crate::field_cache::chain_path::copy_path;
use crate::field_cache::ipa::names_view;
use crate::hashing::{default_hash_str, std_string_hash};
use crate::order::{increasing, listing, lemma_listing, name_lt, pair_lt, lemma_name_order, lemma_pair_order};
use crate::text::{copy_str, decimal, push_char, push_decimal, push_str, seq_lt, str_eq, str_lt};

verus! {

/// A method named by its owner type and its own name.
pub open spec fn pair_view(p: (String, String)) -> (Seq<char>, Seq<char>) {
    (p.0@, p.1@)
}

pub open spec fn pairs_view(v: Seq<(String, String)>) -> Seq<(Seq<char>, Seq<char>)> {
    v.map_values(|p: (String, String)| pair_view(p))
}

/// The method an entry is about.
pub open spec fn entry_key<V>(e: (String, String, V)) -> (Seq<char>, Seq<char>) {
    (e.0@, e.1@)
}

/// Position of the last of the first `n` entries about `k`, or -1.
pub open spec fn last_with<V>(es: Seq<(String, String, V)>, k: (Seq<char>, Seq<char>), n: int) -> int
    decreases n,
{
    if n <= 0 {
        -1
    } else if entry_key(es[n - 1]) == k {
        n - 1
    } else {
        last_with(es, k, n - 1)
    }
}

/// Each method's own fields, as a map: a method's last entry decides (as
/// repeated inserts into a map would).
pub open spec fn direct_view(es: Seq<(String, String, Vec<String>)>) -> Map<(Seq<char>, Seq<char>), Set<Seq<char>>> {
    Map::new(
        |k: (Seq<char>, Seq<char>)| last_with(es, k, es.len() as int) >= 0,
        |k: (Seq<char>, Seq<char>)| names_view(es[last_with(es, k, es.len() as int)].2@).to_set(),
    )
}

/// Each method's callees, as a map, the last entry deciding.
pub open spec fn callee_view(es: Seq<(String, String, Vec<(String, String)>)>) -> Map<(Seq<char>, Seq<char>), Set<(Seq<char>, Seq<char>)>> {
    Map::new(
        |k: (Seq<char>, Seq<char>)| last_with(es, k, es.len() as int) >= 0,
        |k: (Seq<char>, Seq<char>)| pairs_view(es[last_with(es, k, es.len() as int)].2@).to_set(),
    )
}

/// No two entries are about the same method (as in a map).
pub open spec fn keys_distinct<V>(es: Seq<(String, String, V)>) -> bool {
    forall|i: int, j: int| 0 <= i < j < es.len() ==> entry_key(#[trigger] es[i]) != entry_key(#[trigger] es[j])
}

/// A name with its length in front.
pub open spec fn enc(s: Seq<char>) -> Seq<char> {
    decimal(s.len()) + seq![':'] + s
}

pub open spec fn enc_pair(p: (Seq<char>, Seq<char>)) -> Seq<char> {
    enc(p.0) + enc(p.1)
}

pub open spec fn enc_names(s: Seq<Seq<char>>) -> Seq<char>
    decreases s.len(),
{
    if s.len() == 0 {
        Seq::empty()
    } else {
        enc_names(s.drop_last()) + enc(s.last())
    }
}

pub open spec fn enc_pairs(s: Seq<(Seq<char>, Seq<char>)>) -> Seq<char>
    decreases s.len(),
{
    if s.len() == 0 {
        Seq::empty()
    } else {
        enc_pairs(s.drop_last()) + enc_pair(s.last())
    }
}

/// A count followed by `;`.
pub open spec fn count_text(n: nat) -> Seq<char> {
    decimal(n) + seq![';']
}

/// The rows of the methods `keys`: each method, the number of its fields,
/// its fields in increasing order.
pub open spec fn direct_rows(d: Map<(Seq<char>, Seq<char>), Set<Seq<char>>>, keys: Seq<(Seq<char>, Seq<char>)>) -> Seq<char>
    decreases keys.len(),
{
    if keys.len() == 0 {
        Seq::empty()
    } else {
        let k = keys.last();
        let vals = listing(d[k], name_lt());
        direct_rows(d, keys.drop_last()) + enc_pair(k) + count_text(vals.len()) + enc_names(vals)
    }
}

/// The rows of the methods `keys`: each method, the number of its callees,
/// its callees in increasing order.
pub open spec fn callee_rows(c: Map<(Seq<char>, Seq<char>), Set<(Seq<char>, Seq<char>)>>, keys: Seq<(Seq<char>, Seq<char>)>) -> Seq<char>
    decreases keys.len(),
{
    if keys.len() == 0 {
        Seq::empty()
    } else {
        let k = keys.last();
        let vals = listing(c[k], pair_lt());
        callee_rows(c, keys.drop_last()) + enc_pair(k) + count_text(vals.len()) + enc_pairs(vals)
    }
}

/// The canonical text of a graph: the number of methods with fields and
/// their rows, then the number of methods with callees and their rows.
pub open spec fn canonical_text(
    d: Map<(Seq<char>, Seq<char>), Set<Seq<char>>>,
    c: Map<(Seq<char>, Seq<char>), Set<(Seq<char>, Seq<char>)>>,
) -> Seq<char> {
    let dk = listing(d.dom(), pair_lt());
    let ck = listing(c.dom(), pair_lt());
    count_text(dk.len()) + direct_rows(d, dk) + count_text(ck.len()) + callee_rows(c, ck)
}

/// A hash with 0 kept for "no fingerprint".
pub open spec fn nonzero_hash(h: u64) -> u64 {
    if h == 0 { 1 } else { h }
}

/// The fingerprint of a graph.
pub open spec fn fingerprint_of(
    d: Map<(Seq<char>, Seq<char>), Set<Seq<char>>>,
    c: Map<(Seq<char>, Seq<char>), Set<(Seq<char>, Seq<char>)>>,
) -> u64 {
    nonzero_hash(std_string_hash(canonical_text(d, c)))
}

// ---------------------------------------------------------------------
// Facts about the last entry of a method.

pub(crate) proof fn lemma_last_with_found<V>(es: Seq<(String, String, V)>, k: (Seq<char>, Seq<char>), n: int)
    requires
        n <= es.len(),
        last_with(es, k, n) >= 0,
    ensures
        0 <= last_with(es, k, n) < n,
        entry_key(es[last_with(es, k, n)]) == k,
    decreases n,
{
    if n > 0 && entry_key(es[n - 1]) != k {
        lemma_last_with_found(es, k, n - 1);
    }
}

pub(crate) proof fn lemma_last_with_present<V>(es: Seq<(String, String, V)>, k: (Seq<char>, Seq<char>), n: int, i: int)
    requires
        0 <= i < n <= es.len(),
        entry_key(es[i]) == k,
    ensures
        last_with(es, k, n) >= i,
    decreases n,
{
    if n - 1 != i && entry_key(es[n - 1]) != k {
        lemma_last_with_present(es, k, n - 1, i);
    }
}

pub(crate) proof fn lemma_last_with_distinct<V>(es: Seq<(String, String, V)>, k: (Seq<char>, Seq<char>), i: int)
    requires
        keys_distinct(es),
        0 <= i < es.len(),
        entry_key(es[i]) == k,
    ensures
        last_with(es, k, es.len() as int) == i,
{
    lemma_last_with_present(es, k, es.len() as int, i);
    lemma_last_with_found(es, k, es.len() as int);
    let j = last_with(es, k, es.len() as int);
    if j != i {
        assert(entry_key(es[i]) != entry_key(es[j]));
    }
}

// ---------------------------------------------------------------------
// Sorted lists of names and of methods.

fn name_less(x: &String, a: &str) -> (r: bool)
    ensures
        r == (name_lt())(x@, a@),
{
    str_lt(x.as_str(), a)
}

fn pair_less(x: &(String, String), a: &str, b: &str) -> (r: bool)
    ensures
        r == (pair_lt())(pair_view(*x), (a@, b@)),
{
    if str_lt(x.0.as_str(), a) {
        true
    } else if str_eq(x.0.as_str(), a) {
        str_lt(x.1.as_str(), b)
    } else {
        false
    }
}

/// Adds `a` to a strictly increasing list of names, unless it is there.
pub(crate) fn insert_name(r: &mut Vec<String>, a: &str)
    requires
        increasing(names_view(old(r)@), name_lt()),
    ensures
        increasing(names_view(final(r)@), name_lt()),
        forall|y: Seq<char>| #[trigger] names_view(final(r)@).contains(y) <==> names_view(old(r)@).contains(y) || y == a@,
{
    proof { lemma_name_order(); }
    let ghost lt = name_lt();
    let mut k: usize = 0;
    while k < r.len() && name_less(&r[k], a)
        invariant
            k <= r@.len(),
            r@ == old(r)@,
            lt == name_lt(),
            increasing(names_view(r@), lt),
            forall|j: int| 0 <= j < k ==> lt(#[trigger] names_view(r@)[j], a@),
        decreases r@.len() - k,
    {
        k = k + 1;
    }
    if k < r.len() && str_eq(r[k].as_str(), a) {
        proof {
            assert(names_view(r@)[k as int] == a@);
        }
        return;
    }
    let ghost r0 = names_view(r@);
    r.insert(k, copy_str(a));
    proof {
        let rv = names_view(r@);
        assert(rv =~= r0.insert(k as int, a@));
        if k < r0.len() {
            assert(r0[k as int] != a@);
            assert(!lt(r0[k as int], a@));
            assert(lt(a@, r0[k as int]));
        }
        assert forall|i: int| 0 <= i < rv.len() - 1 implies #[trigger] lt(rv[i], rv[i + 1]) by {
            if i < k - 1 {
                assert(rv[i] == r0[i] && rv[i + 1] == r0[i + 1]);
                assert(lt(r0[i], r0[i + 1]));
            } else if i == k - 1 {
                assert(rv[i] == r0[i]);
            } else if i == k {
                assert(rv[i + 1] == r0[i]);
            } else {
                assert(rv[i] == r0[i - 1] && rv[i + 1] == r0[i]);
                assert(lt(r0[i - 1], r0[(i - 1) + 1]));
            }
        }
        assert forall|y: Seq<char>| #[trigger] rv.contains(y) <==> r0.contains(y) || y == a@ by {
            if rv.contains(y) {
                let j = choose|j: int| 0 <= j < rv.len() && rv[j] == y;
                if j < k {
                    assert(r0[j] == y);
                } else if j > k {
                    assert(r0[j - 1] == y);
                }
            }
            if r0.contains(y) {
                let j = choose|j: int| 0 <= j < r0.len() && r0[j] == y;
                if j < k {
                    assert(rv[j] == y);
                } else {
                    assert(rv[j + 1] == y);
                }
            }
            if y == a@ {
                assert(rv[k as int] == y);
            }
        }
    }
}

/// Adds the method `(a, b)` to a strictly increasing list of methods,
/// unless it is there.
pub fn insert_pair(r: &mut Vec<(String, String)>, a: &str, b: &str)
    requires
        increasing(pairs_view(old(r)@), pair_lt()),
    ensures
        increasing(pairs_view(final(r)@), pair_lt()),
        forall|y: (Seq<char>, Seq<char>)| #[trigger] pairs_view(final(r)@).contains(y) <==> pairs_view(old(r)@).contains(y) || y == (a@, b@),
{
    proof { lemma_pair_order(); }
    let ghost lt = pair_lt();
    let ghost x = (a@, b@);
    let mut k: usize = 0;
    while k < r.len() && pair_less(&r[k], a, b)
        invariant
            k <= r@.len(),
            r@ == old(r)@,
            lt == pair_lt(),
            x == (a@, b@),
            increasing(pairs_view(r@), lt),
            forall|j: int| 0 <= j < k ==> lt(#[trigger] pairs_view(r@)[j], x),
        decreases r@.len() - k,
    {
        k = k + 1;
    }
    if k < r.len() && str_eq(r[k].0.as_str(), a) && str_eq(r[k].1.as_str(), b) {
        proof {
            assert(pairs_view(r@)[k as int] == x);
        }
        return;
    }
    let ghost r0 = pairs_view(r@);
    r.insert(k, (copy_str(a), copy_str(b)));
    proof {
        let rv = pairs_view(r@);
        assert(rv =~= r0.insert(k as int, x));
        if k < r0.len() {
            assert(r0[k as int] != x);
            assert(!lt(r0[k as int], x));
            assert(lt(x, r0[k as int]));
        }
        assert forall|i: int| 0 <= i < rv.len() - 1 implies #[trigger] lt(rv[i], rv[i + 1]) by {
            if i < k - 1 {
                assert(rv[i] == r0[i] && rv[i + 1] == r0[i + 1]);
                assert(lt(r0[i], r0[i + 1]));
            } else if i == k - 1 {
                assert(rv[i] == r0[i]);
            } else if i == k {
                assert(rv[i + 1] == r0[i]);
            } else {
                assert(rv[i] == r0[i - 1] && rv[i + 1] == r0[i]);
                assert(lt(r0[i - 1], r0[(i - 1) + 1]));
            }
        }
        assert forall|y: (Seq<char>, Seq<char>)| #[trigger] rv.contains(y) <==> r0.contains(y) || y == x by {
            if rv.contains(y) {
                let j = choose|j: int| 0 <= j < rv.len() && rv[j] == y;
                if j < k {
                    assert(r0[j] == y);
                } else if j > k {
                    assert(r0[j - 1] == y);
                }
            }
            if r0.contains(y) {
                let j = choose|j: int| 0 <= j < r0.len() && r0[j] == y;
                if j < k {
                    assert(rv[j] == y);
                } else {
                    assert(rv[j + 1] == y);
                }
            }
            if y == x {
                assert(rv[k as int] == y);
            }
        }
    }
}

/// The names of `v`, each once, in increasing order.
fn sorted_names(v: &Vec<String>) -> (r: Vec<String>)
    ensures
        increasing(names_view(r@), name_lt()),
        names_view(r@).to_set() == names_view(v@).to_set(),
{
    let mut r: Vec<String> = Vec::new();
    let mut i: usize = 0;
    assert(increasing(names_view(r@), name_lt()));
    while i < v.len()
        invariant
            i <= v@.len(),
            increasing(names_view(r@), name_lt()),
            forall|y: Seq<char>| #[trigger] names_view(r@).contains(y) <==> names_view(v@).take(i as int).contains(y),
        decreases v@.len() - i,
    {
        insert_name(&mut r, v[i].as_str());
        proof {
            let t0 = names_view(v@).take(i as int);
            let t1 = names_view(v@).take(i as int + 1);
            assert(t1 =~= t0.push(v@[i as int]@));
            assert forall|y: Seq<char>| #[trigger] t1.contains(y) <==> t0.contains(y) || y == v@[i as int]@ by {
                if t1.contains(y) {
                    let j = choose|j: int| 0 <= j < t1.len() && t1[j] == y;
                    if j < i {
                        assert(t0[j] == y);
                    }
                }
                if t0.contains(y) {
                    let j = choose|j: int| 0 <= j < t0.len() && t0[j] == y;
                    assert(t1[j] == y);
                }
                if y == v@[i as int]@ {
                    assert(t1[i as int] == y);
                }
            }
        }
        i = i + 1;
    }
    assert(names_view(v@).take(v@.len() as int) =~= names_view(v@));
    assert(names_view(r@).to_set() =~= names_view(v@).to_set());
    r
}

/// The methods of `v`, each once, in increasing order.
fn sorted_pairs(v: &Vec<(String, String)>) -> (r: Vec<(String, String)>)
    ensures
        increasing(pairs_view(r@), pair_lt()),
        pairs_view(r@).to_set() == pairs_view(v@).to_set(),
{
    let mut r: Vec<(String, String)> = Vec::new();
    let mut i: usize = 0;
    assert(increasing(pairs_view(r@), pair_lt()));
    while i < v.len()
        invariant
            i <= v@.len(),
            increasing(pairs_view(r@), pair_lt()),
            forall|y: (Seq<char>, Seq<char>)| #[trigger] pairs_view(r@).contains(y) <==> pairs_view(v@).take(i as int).contains(y),
        decreases v@.len() - i,
    {
        insert_pair(&mut r, v[i].0.as_str(), v[i].1.as_str());
        proof {
            let x = pair_view(v@[i as int]);
            let t0 = pairs_view(v@).take(i as int);
            let t1 = pairs_view(v@).take(i as int + 1);
            assert(t1 =~= t0.push(x));
            assert forall|y: (Seq<char>, Seq<char>)| #[trigger] t1.contains(y) <==> t0.contains(y) || y == x by {
                if t1.contains(y) {
                    let j = choose|j: int| 0 <= j < t1.len() && t1[j] == y;
                    if j < i {
                        assert(t0[j] == y);
                    }
                }
                if t0.contains(y) {
                    let j = choose|j: int| 0 <= j < t0.len() && t0[j] == y;
                    assert(t1[j] == y);
                }
                if y == x {
                    assert(t1[i as int] == y);
                }
            }
        }
        i = i + 1;
    }
    assert(pairs_view(v@).take(v@.len() as int) =~= pairs_view(v@));
    assert(pairs_view(r@).to_set() =~= pairs_view(v@).to_set());
    r
}

/// The methods that have an entry, each once, in increasing order.
fn sorted_keys<V>(es: &Vec<(String, String, V)>) -> (keys: Vec<(String, String)>)
    ensures
        increasing(pairs_view(keys@), pair_lt()),
        forall|k: (Seq<char>, Seq<char>)| #[trigger] pairs_view(keys@).contains(k) <==> last_with(es@, k, es@.len() as int) >= 0,
{
    let mut r: Vec<(String, String)> = Vec::new();
    let mut i: usize = 0;
    assert(increasing(pairs_view(r@), pair_lt()));
    while i < es.len()
        invariant
            i <= es@.len(),
            increasing(pairs_view(r@), pair_lt()),
            forall|k: (Seq<char>, Seq<char>)| #[trigger] pairs_view(r@).contains(k) <==> last_with(es@, k, i as int) >= 0,
        decreases es@.len() - i,
    {
        insert_pair(&mut r, es[i].0.as_str(), es[i].1.as_str());
        proof {
            assert forall|k: (Seq<char>, Seq<char>)| #[trigger] pairs_view(r@).contains(k) <==> last_with(es@, k, i as int + 1) >= 0 by {
                if last_with(es@, k, i as int) >= 0 {
                    lemma_last_with_found(es@, k, i as int);
                }
            }
        }
        i = i + 1;
    }
    r
}

/// Position of the last entry about `(a, b)`.
fn last_entry<V>(es: &Vec<(String, String, V)>, a: &str, b: &str) -> (j: usize)
    requires
        last_with(es@, (a@, b@), es@.len() as int) >= 0,
    ensures
        j < es@.len(),
        j as int == last_with(es@, (a@, b@), es@.len() as int),
{
    let ghost k = (a@, b@);
    let mut n: usize = es.len();
    while n > 0 && !(str_eq(es[n - 1].0.as_str(), a) && str_eq(es[n - 1].1.as_str(), b))
        invariant
            n <= es@.len(),
            k == (a@, b@),
            last_with(es@, k, n as int) == last_with(es@, k, es@.len() as int),
            last_with(es@, k, n as int) >= 0,
        decreases n,
    {
        n = n - 1;
    }
    n - 1
}

/// Appends `enc(x)`.
fn push_enc(s: &mut String, x: &str)
    ensures
        final(s)@ == old(s)@ + enc(x@),
{
    let n = x.unicode_len();
    push_decimal(s, n as u128);
    push_char(s, ':');
    push_str(s, x);
    assert(s@ =~= old(s)@ + enc(x@));
}

/// Appends `count_text(n)`.
fn push_count(s: &mut String, n: usize)
    ensures
        final(s)@ == old(s)@ + count_text(n as nat),
{
    push_decimal(s, n as u128);
    push_char(s, ';');
    assert(s@ =~= old(s)@ + count_text(n as nat));
}

/// Appends the encodings of the names of `v`, in order.
fn push_names(s: &mut String, v: &Vec<String>)
    ensures
        final(s)@ == old(s)@ + enc_names(names_view(v@)),
{
    let mut i: usize = 0;
    assert(names_view(v@).take(0) =~= Seq::<Seq<char>>::empty());
    assert(s@ =~= old(s)@ + enc_names(names_view(v@).take(0)));
    while i < v.len()
        invariant
            i <= v@.len(),
            s@ == old(s)@ + enc_names(names_view(v@).take(i as int)),
        decreases v@.len() - i,
    {
        push_enc(s, v[i].as_str());
        proof {
            let t1 = names_view(v@).take(i as int + 1);
            assert(t1.drop_last() =~= names_view(v@).take(i as int));
            assert(s@ =~= old(s)@ + enc_names(t1));
        }
        i = i + 1;
    }
    assert(names_view(v@).take(v@.len() as int) =~= names_view(v@));
}

/// Appends the encodings of the methods of `v`, in order.
fn push_pairs(s: &mut String, v: &Vec<(String, String)>)
    ensures
        final(s)@ == old(s)@ + enc_pairs(pairs_view(v@)),
{
    let mut i: usize = 0;
    assert(pairs_view(v@).take(0) =~= Seq::<(Seq<char>, Seq<char>)>::empty());
    assert(s@ =~= old(s)@ + enc_pairs(pairs_view(v@).take(0)));
    while i < v.len()
        invariant
            i <= v@.len(),
            s@ == old(s)@ + enc_pairs(pairs_view(v@).take(i as int)),
        decreases v@.len() - i,
    {
        push_enc(s, v[i].0.as_str());
        push_enc(s, v[i].1.as_str());
        proof {
            let t1 = pairs_view(v@).take(i as int + 1);
            assert(t1.drop_last() =~= pairs_view(v@).take(i as int));
            assert(t1.last() == pair_view(v@[i as int]));
            assert(s@ =~= old(s)@ + enc_pairs(t1));
        }
        i = i + 1;
    }
    assert(pairs_view(v@).take(v@.len() as int) =~= pairs_view(v@));
}

/// Appends the rows of the methods `keys` of the field map of `es`.
fn push_direct_rows(s: &mut String, es: &Vec<(String, String, Vec<String>)>, keys: &Vec<(String, String)>)
    requires
        forall|k: (Seq<char>, Seq<char>)| #[trigger] pairs_view(keys@).contains(k) ==> last_with(es@, k, es@.len() as int) >= 0,
    ensures
        final(s)@ == old(s)@ + direct_rows(direct_view(es@), pairs_view(keys@)),
{
    let ghost d = direct_view(es@);
    let mut i: usize = 0;
    assert(pairs_view(keys@).take(0) =~= Seq::<(Seq<char>, Seq<char>)>::empty());
    while i < keys.len()
        invariant
            i <= keys@.len(),
            d == direct_view(es@),
            forall|k: (Seq<char>, Seq<char>)| #[trigger] pairs_view(keys@).contains(k) ==> last_with(es@, k, es@.len() as int) >= 0,
            s@ == old(s)@ + direct_rows(d, pairs_view(keys@).take(i as int)),
        decreases keys@.len() - i,
    {
        let ghost k = pair_view(keys@[i as int]);
        proof {
            assert(pairs_view(keys@)[i as int] == k);
            assert(pairs_view(keys@).contains(k));
        }
        let j = last_entry(es, keys[i].0.as_str(), keys[i].1.as_str());
        let vals = sorted_names(&es[j].2);
        proof {
            lemma_name_order();
            assert(d.dom().contains(k));
            assert(d[k] == names_view(es@[j as int].2@).to_set());
            lemma_listing(names_view(vals@), d[k], name_lt());
        }
        push_enc(s, keys[i].0.as_str());
        push_enc(s, keys[i].1.as_str());
        push_count(s, vals.len());
        push_names(s, &vals);
        proof {
            let t1 = pairs_view(keys@).take(i as int + 1);
            assert(t1.drop_last() =~= pairs_view(keys@).take(i as int));
            assert(t1.last() == k);
            assert(names_view(vals@).len() == vals@.len());
            assert(s@ =~= old(s)@ + direct_rows(d, t1));
        }
        i = i + 1;
    }
    assert(pairs_view(keys@).take(keys@.len() as int) =~= pairs_view(keys@));
}

/// Appends the rows of the methods `keys` of the callee map of `es`.
fn push_callee_rows(s: &mut String, es: &Vec<(String, String, Vec<(String, String)>)>, keys: &Vec<(String, String)>)
    requires
        forall|k: (Seq<char>, Seq<char>)| #[trigger] pairs_view(keys@).contains(k) ==> last_with(es@, k, es@.len() as int) >= 0,
    ensures
        final(s)@ == old(s)@ + callee_rows(callee_view(es@), pairs_view(keys@)),
{
    let ghost c = callee_view(es@);
    let mut i: usize = 0;
    assert(pairs_view(keys@).take(0) =~= Seq::<(Seq<char>, Seq<char>)>::empty());
    while i < keys.len()
        invariant
            i <= keys@.len(),
            c == callee_view(es@),
            forall|k: (Seq<char>, Seq<char>)| #[trigger] pairs_view(keys@).contains(k) ==> last_with(es@, k, es@.len() as int) >= 0,
            s@ == old(s)@ + callee_rows(c, pairs_view(keys@).take(i as int)),
        decreases keys@.len() - i,
    {
        let ghost k = pair_view(keys@[i as int]);
        proof {
            assert(pairs_view(keys@)[i as int] == k);
            assert(pairs_view(keys@).contains(k));
        }
        let j = last_entry(es, keys[i].0.as_str(), keys[i].1.as_str());
        let vals = sorted_pairs(&es[j].2);
        proof {
            lemma_pair_order();
            assert(c.dom().contains(k));
            assert(c[k] == pairs_view(es@[j as int].2@).to_set());
            lemma_listing(pairs_view(vals@), c[k], pair_lt());
        }
        push_enc(s, keys[i].0.as_str());
        push_enc(s, keys[i].1.as_str());
        push_count(s, vals.len());
        push_pairs(s, &vals);
        proof {
            let t1 = pairs_view(keys@).take(i as int + 1);
            assert(t1.drop_last() =~= pairs_view(keys@).take(i as int));
            assert(t1.last() == k);
            assert(pairs_view(vals@).len() == vals@.len());
            assert(s@ =~= old(s)@ + callee_rows(c, t1));
        }
        i = i + 1;
    }
    assert(pairs_view(keys@).take(keys@.len() as int) =~= pairs_view(keys@));
}

/// The canonical text of the graph given by each method's own fields
/// (`direct`) and each method's callees (`callees`); an entry that comes
/// later for the same method replaces an earlier one.
pub fn canonical_graph_text(
    direct: &Vec<(String, String, Vec<String>)>,
    callees: &Vec<(String, String, Vec<(String, String)>)>,
) -> (s: String)
    ensures
        s@ == canonical_text(direct_view(direct@), callee_view(callees@)),
{
    let dk = sorted_keys(direct);
    let ck = sorted_keys(callees);
    proof {
        lemma_pair_order();
        assert(pairs_view(dk@).to_set() =~= direct_view(direct@).dom());
        lemma_listing(pairs_view(dk@), direct_view(direct@).dom(), pair_lt());
        assert(pairs_view(ck@).to_set() =~= callee_view(callees@).dom());
        lemma_listing(pairs_view(ck@), callee_view(callees@).dom(), pair_lt());
        assert(pairs_view(dk@).len() == dk@.len());
        assert(pairs_view(ck@).len() == ck@.len());
    }
    let mut s = String::new();
    push_count(&mut s, dk.len());
    push_direct_rows(&mut s, direct, &dk);
    push_count(&mut s, ck.len());
    push_callee_rows(&mut s, callees, &ck);
    assert(s@ =~= canonical_text(direct_view(direct@), callee_view(callees@)));
    s
}

/// A hash, with 0 (kept for "no fingerprint") moved to 1.
pub fn fingerprint_from_hash(h: u64) -> (r: u64)
    ensures
        r == nonzero_hash(h),
{
    if h == 0 { 1 } else { h }
}

/// The fingerprint of the graph: the default hasher's hash of its
/// canonical text, never 0.
pub fn compute_scc_fingerprint(
    direct: &Vec<(String, String, Vec<String>)>,
    callees: &Vec<(String, String, Vec<(String, String)>)>,
) -> (r: u64)
    ensures
        r == fingerprint_of(direct_view(direct@), callee_view(callees@)),
        r != 0,
{
    let text = canonical_graph_text(direct, callees);
    let h = default_hash_str(text.as_str());
    fingerprint_from_hash(h)
}

/// Graphs given as entries with one entry per method, holding the same
/// entries in whatever order, have the same canonical text, hence the same
/// fingerprint.
pub proof fn lemma_fingerprint_ignores_entry_order(
    d1: Seq<(String, String, Vec<String>)>,
    c1: Seq<(String, String, Vec<(String, String)>)>,
    d2: Seq<(String, String, Vec<String>)>,
    c2: Seq<(String, String, Vec<(String, String)>)>,
)
    requires
        keys_distinct(d1),
        keys_distinct(d2),
        keys_distinct(c1),
        keys_distinct(c2),
        d1.to_set() == d2.to_set(),
        c1.to_set() == c2.to_set(),
    ensures
        direct_view(d1) == direct_view(d2),
        callee_view(c1) == callee_view(c2),
        canonical_text(direct_view(d1), callee_view(c1)) == canonical_text(direct_view(d2), callee_view(c2)),
        fingerprint_of(direct_view(d1), callee_view(c1)) == fingerprint_of(direct_view(d2), callee_view(c2)),
{
    lemma_same_entries_same_map(d1, d2);
    lemma_same_entries_same_map(d2, d1);
    lemma_same_entries_same_map(c1, c2);
    lemma_same_entries_same_map(c2, c1);
    assert(direct_view(d1) =~= direct_view(d2));
    assert(callee_view(c1) =~= callee_view(c2));
}

/// With one entry per method, an entry of `a` that is also an entry of `b`
/// is the last (and only) entry of `b` for its method.
proof fn lemma_same_entries_same_map<V>(a: Seq<(String, String, V)>, b: Seq<(String, String, V)>)
    requires
        keys_distinct(a),
        keys_distinct(b),
        a.to_set() == b.to_set(),
    ensures
        forall|k: (Seq<char>, Seq<char>)| #[trigger] last_with(a, k, a.len() as int) >= 0 ==>
            last_with(b, k, b.len() as int) >= 0
            && a[last_with(a, k, a.len() as int)] == b[last_with(b, k, b.len() as int)],
{
    assert forall|k: (Seq<char>, Seq<char>)| #[trigger] last_with(a, k, a.len() as int) >= 0 implies
        last_with(b, k, b.len() as int) >= 0 && a[last_with(a, k, a.len() as int)] == b[last_with(b, k, b.len() as int)] by {
        lemma_last_with_found(a, k, a.len() as int);
        let i = last_with(a, k, a.len() as int);
        assert(a.to_set().contains(a[i]));
        assert(b.to_set().contains(a[i]));
        let j = choose|j: int| 0 <= j < b.len() && b[j] == a[i];
        lemma_last_with_distinct(b, k, j);
    }
}

// ---------------------------------------------------------------------
// The one-slot cache.

/// `n + 1`, staying at the largest value.
pub open spec fn bump(n: u64) -> u64 {
    if n == u64::MAX { n } else { (n + 1) as u64 }
}

proof fn lemma_last_with_same_keys<V, W>(a: Seq<(String, String, V)>, b: Seq<(String, String, W)>, k: (Seq<char>, Seq<char>), n: int)
    requires
        a.len() == b.len(),
        n <= a.len(),
        forall|i: int| 0 <= i < a.len() ==> entry_key(#[trigger] a[i]) == entry_key(b[i]),
    ensures
        last_with(a, k, n) == last_with(b, k, n),
    decreases n,
{
    if n > 0 {
        assert(entry_key(a[n - 1]) == entry_key(b[n - 1]));
        lemma_last_with_same_keys(a, b, k, n - 1);
    }
}

/// A copy of the entries, with the same methods and fields.
fn copy_entries(v: &Vec<(String, String, Vec<String>)>) -> (r: Vec<(String, String, Vec<String>)>)
    ensures
        direct_view(r@) == direct_view(v@),
{
    let mut r: Vec<(String, String, Vec<String>)> = Vec::new();
    let mut i: usize = 0;
    while i < v.len()
        invariant
            i <= v@.len(),
            r@.len() == i,
            forall|q: int| 0 <= q < i ==> entry_key(#[trigger] r@[q]) == entry_key(v@[q])
                && names_view(r@[q].2@) == names_view(v@[q].2@),
        decreases v@.len() - i,
    {
        let e = (copy_str(v[i].0.as_str()), copy_str(v[i].1.as_str()), copy_path(&v[i].2));
        r.push(e);
        i = i + 1;
    }
    proof {
        assert forall|k: (Seq<char>, Seq<char>)| #![trigger direct_view(r@).dom().contains(k)]
            direct_view(r@).dom().contains(k) == direct_view(v@).dom().contains(k) by {
            lemma_last_with_same_keys(r@, v@, k, r@.len() as int);
        }
        assert forall|k: (Seq<char>, Seq<char>)| direct_view(r@).dom().contains(k) implies
            direct_view(r@)[k] == direct_view(v@)[k] by {
            lemma_last_with_same_keys(r@, v@, k, r@.len() as int);
            lemma_last_with_found(r@, k, r@.len() as int);
        }
        assert(direct_view(r@) =~= direct_view(v@));
    }
    r
}

/// What a lookup of `fingerprint` finds in a cache whose slot is `slot`.
pub open spec fn slot_lookup(
    slot: Option<(u64, Map<(Seq<char>, Seq<char>), Set<Seq<char>>>)>,
    fingerprint: u64,
) -> Option<Map<(Seq<char>, Seq<char>), Set<Seq<char>>>> {
    match slot {
        Some((f, m)) => if f == fingerprint { Some(m) } else { None },
        None => None,
    }
}

/// A cache of one write-set closure: the fingerprint of the graph it was
/// computed for, the closure, and how often it was used or replaced.
pub struct ScCache {
    last_fingerprint: u64,
    last_result: Vec<(String, String, Vec<String>)>,
    has_entry: bool,
    pub hits: u64,
    pub misses: u64,
}

impl ScCache {
    /// The cached fingerprint and field map, if any.
    pub closed spec fn slot(&self) -> Option<(u64, Map<(Seq<char>, Seq<char>), Set<Seq<char>>>)> {
        if self.has_entry {
            Some((self.last_fingerprint, direct_view(self.last_result@)))
        } else {
            None
        }
    }

    /// How often the cached closure was used.
    pub closed spec fn hit_count(&self) -> u64 {
        self.hits
    }

    /// How often the cached closure was replaced.
    pub closed spec fn miss_count(&self) -> u64 {
        self.misses
    }

    /// An empty cache with zero counters.
    pub fn new() -> (c: Self)
        ensures
            c.slot() is None,
            c.hit_count() == 0,
            c.miss_count() == 0,
    {
        ScCache { last_fingerprint: 0, last_result: Vec::new(), has_entry: false, hits: 0, misses: 0 }
    }

    /// Drops the cached closure and zeroes the counters.
    pub fn reset(&mut self)
        ensures
            final(self).slot() is None,
            final(self).hit_count() == 0,
            final(self).miss_count() == 0,
    {
        self.last_fingerprint = 0;
        self.last_result = Vec::new();
        self.has_entry = false;
        self.hits = 0;
        self.misses = 0;
    }

    /// On a graph with the cached fingerprint, a copy of the cached closure
    /// (counted as a hit); otherwise nothing, and nothing changes.
    pub fn lookup(&mut self, fingerprint: u64) -> (r: Option<Vec<(String, String, Vec<String>)>>)
        ensures
            final(self).slot() == old(self).slot(),
            final(self).miss_count() == old(self).miss_count(),
            match slot_lookup(old(self).slot(), fingerprint) {
                Some(m) => r is Some && direct_view(r.unwrap()@) == m
                    && final(self).hit_count() == bump(old(self).hit_count()),
                None => r is None && final(self).hit_count() == old(self).hit_count(),
            },
    {
        if self.has_entry && self.last_fingerprint == fingerprint {
            let copy = copy_entries(&self.last_result);
            self.hits = self.hits.saturating_add(1);
            Some(copy)
        } else {
            None
        }
    }

    /// Keeps `result` as the closure for `fingerprint` (counted as a miss).
    pub fn store(&mut self, fingerprint: u64, result: &Vec<(String, String, Vec<String>)>)
        ensures
            final(self).slot() == Some((fingerprint, direct_view(result@))),
            final(self).hit_count() == old(self).hit_count(),
            final(self).miss_count() == bump(old(self).miss_count()),
    {
        self.last_fingerprint = fingerprint;
        self.last_result = copy_entries(result);
        self.has_entry = true;
        self.misses = self.misses.saturating_add(1);
    }
}

/// A cache that holds the closure `m` for `fingerprint` gives `m` back for
/// that fingerprint and nothing for any other.
pub proof fn lemma_lookup_after_store(fingerprint: u64, other: u64, m: Map<(Seq<char>, Seq<char>), Set<Seq<char>>>)
    requires
        other != fingerprint,
    ensures
        slot_lookup(Some((fingerprint, m)), fingerprint) == Some(m),
        slot_lookup(Some((fingerprint, m)), other) is None,
        slot_lookup(None, fingerprint) is None,
{
}

/// The caches of the write-set and of the read-set closures.
pub struct SccCaches {
    pub write: ScCache,
    pub read: ScCache,
}

impl SccCaches {
    /// Both caches empty.
    pub fn new() -> (c: Self)
        ensures
            c.write.slot() is None,
            c.read.slot() is None,
            c.write.hit_count() == 0 && c.write.miss_count() == 0,
            c.read.hit_count() == 0 && c.read.miss_count() == 0,
    {
        SccCaches { write: ScCache::new(), read: ScCache::new() }
    }
}

/// `(write hits, write misses, read hits, read misses)`.
pub fn scc_cache_stats(c: &SccCaches) -> (r: (u64, u64, u64, u64))
    ensures
        r == (c.write.hit_count(), c.write.miss_count(), c.read.hit_count(), c.read.miss_count()),
{
    (c.write.hits, c.write.misses, c.read.hits, c.read.misses)
}

/// Drops both cached closures and zeroes all counters.
pub fn reset_scc_caches(c: &mut SccCaches)
    ensures
        final(c).write.slot() is None,
        final(c).read.slot() is None,
        final(c).write.hit_count() == 0 && final(c).write.miss_count() == 0,
        final(c).read.hit_count() == 0 && final(c).read.miss_count() == 0,
{
    c.write.reset();
    c.read.reset();
}

} // verus!
