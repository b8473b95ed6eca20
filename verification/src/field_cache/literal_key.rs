//! Canonical keys of literal arguments (so that calls of a pure method with
//! the same literal arguments share one cached result) and their
//! rendering as identifier suffixes.
//!
//! A literal is rendered as: an integer `<n>i`, `T`/`F`, a character
//! `<c>c`, unit `U`, a string `s<hash>` (the low 24 bits of its hash in
//! hexadecimal), a negation `m<repr>`, a tuple `T<n>{<a>;<b>;..}`, and a
//! record `R<Type.path>{f:<v>;g:<w>;..}` with its fields sorted by name.
//! Anything else (a record with a spread, a punned field or a map
//! coercion, or a non-literal anywhere) has no key.

use vstd::prelude::*;
use crate::ast::{Expr, ExprKind, RecordLitField, UnOp};
use crate::git_cache::hex_char;
use crate::hashing::{default_hash_str, std_string_hash};
use crate::text::{copy_str, decimal, join_sep, push_char, push_decimal, push_str, seq_lt, str_lt};

verus! {

/// Lowercase hexadecimal of `n`, without leading zeros (`0` is "0").
pub open spec fn hex_of(n: nat) -> Seq<char>
    decreases n,
{
    if n < 16 {
        seq![hex_char(n)]
    } else {
        hex_of(n / 16).push(hex_char(n % 16))
    }
}

/// Decimal of a signed integer.
pub open spec fn signed_decimal(n: int) -> Seq<char> {
    if n < 0 { seq!['-'] + decimal((-n) as nat) } else { decimal(n as nat) }
}

/// The key of `e`, if it is a literal.
pub open spec fn literal_key(e: Expr) -> Option<Seq<char>>
    decreases e, 1int,
{
    match e.kind {
        ExprKind::IntLit(n) => Some(signed_decimal(n as int) + seq!['i']),
        ExprKind::BoolLit(b) => Some(if b { seq!['T'] } else { seq!['F'] }),
        ExprKind::CharLit(c) => Some(seq![c, 'c']),
        ExprKind::UnitLit => Some(seq!['U']),
        ExprKind::StrLit(s) => Some(seq!['s'] + hex_of((std_string_hash(s@) % 0x1000000) as nat)),
        ExprKind::Unary { op, operand } => if op == UnOp::Neg {
            match literal_key(*operand) {
                Some(r) => Some(seq!['m'] + r),
                None => None,
            }
        } else {
            None
        },
        ExprKind::TupleLit(items) => match keys_of(items, items.len() as int) {
            Some(ks) => Some(seq!['T'] + decimal(items.len() as nat) + seq!['{'] + join_sep(ks, seq![';']) + seq!['}']),
            None => None,
        },
        ExprKind::RecordLit { type_path, fields, inferred_map_v } => if inferred_map_v is Some {
            None
        } else {
            match field_keys(fields, fields.len() as int) {
                Some(ps) => Some(seq!['R'] + match type_path {
                    Some(p) => join_sep(p@.map_values(|s: String| s@), seq!['.']),
                    None => Seq::empty(),
                } + seq!['{'] + join_sep(sort_by_name(ps).map_values(|p: (Seq<char>, Seq<char>)| p.0 + seq![':'] + p.1), seq![';']) + seq!['}']),
                None => None,
            }
        },
        _ => None,
    }
}

/// The keys of the first `k` expressions, if all are literals.
pub open spec fn keys_of(v: Vec<Expr>, k: int) -> Option<Seq<Seq<char>>>
    decreases v, k,
{
    if k <= 0 || k > v.len() {
        Some(Seq::empty())
    } else {
        match (keys_of(v, k - 1), literal_key(v[k - 1])) {
            (Some(ks), Some(r)) => Some(ks.push(r)),
            _ => None,
        }
    }
}

/// The (name, key) pairs of the first `k` fields, if none is a spread, all
/// have a value and all values are literals.
pub open spec fn field_keys(v: Vec<RecordLitField>, k: int) -> Option<Seq<(Seq<char>, Seq<char>)>>
    decreases v, k,
{
    if k <= 0 || k > v.len() {
        Some(Seq::empty())
    } else {
        match keys_prefix_ok(v, k) {
            false => None,
            true => match (field_keys(v, k - 1), v[k - 1].value) {
                (Some(ps), Some(y)) => match literal_key(y) {
                    Some(r) => Some(ps.push((v[k - 1].name@, r))),
                    None => None,
                },
                _ => None,
            },
        }
    }
}

/// None of the first `k` fields is a spread or lacks a value.
pub open spec fn keys_prefix_ok(v: Vec<RecordLitField>, k: int) -> bool {
    forall|i: int| 0 <= i < k && i < v.len() ==> !(#[trigger] v[i]).is_spread && v[i].value is Some
}

/// Where `x` goes in the name-sorted `s`: after every pair whose name is not
/// greater.
pub open spec fn insert_pos(s: Seq<(Seq<char>, Seq<char>)>, x: (Seq<char>, Seq<char>)) -> int
    decreases s.len(),
{
    if s.len() == 0 {
        0
    } else if seq_lt(x.0, s.last().0) {
        insert_pos(s.drop_last(), x)
    } else {
        s.len() as int
    }
}

/// The pairs sorted by name, pairs with equal names in their order (a
/// stable sort).
pub open spec fn sort_by_name(s: Seq<(Seq<char>, Seq<char>)>) -> Seq<(Seq<char>, Seq<char>)>
    decreases s.len(),
{
    if s.len() == 0 {
        s
    } else {
        let t = sort_by_name(s.drop_last());
        t.insert(insert_pos(t, s.last()), s.last())
    }
}

proof fn lemma_insert_pos_bound(s: Seq<(Seq<char>, Seq<char>)>, x: (Seq<char>, Seq<char>))
    ensures
        0 <= insert_pos(s, x) <= s.len(),
    decreases s.len(),
{
    if s.len() > 0 && seq_lt(x.0, s.last().0) {
        lemma_insert_pos_bound(s.drop_last(), x);
    }
}

proof fn lemma_sort_len(s: Seq<(Seq<char>, Seq<char>)>)
    ensures
        sort_by_name(s).len() == s.len(),
    decreases s.len(),
{
    if s.len() > 0 {
        lemma_sort_len(s.drop_last());
        lemma_insert_pos_bound(sort_by_name(s.drop_last()), s.last());
    }
}

fn push_hex_min(s: &mut String, n: u64)
    ensures
        final(s)@ == old(s)@ + hex_of(n as nat),
    decreases n,
{
    if n < 16 {
        push_char(s, hex_digit_of(n));
        assert(final(s)@ =~= old(s)@ + hex_of(n as nat));
    } else {
        push_hex_min(s, n / 16);
        push_char(s, hex_digit_of(n % 16));
        assert(final(s)@ =~= old(s)@ + hex_of(n as nat));
    }
}

fn hex_digit_of(d: u64) -> (c: char)
    requires
        d < 16,
    ensures
        c == hex_char(d as nat),
{
    match d {
        0 => '0',
        1 => '1',
        2 => '2',
        3 => '3',
        4 => '4',
        5 => '5',
        6 => '6',
        7 => '7',
        8 => '8',
        9 => '9',
        10 => 'a',
        11 => 'b',
        12 => 'c',
        13 => 'd',
        14 => 'e',
        _ => 'f',
    }
}

fn push_signed(s: &mut String, n: i64)
    ensures
        final(s)@ == old(s)@ + signed_decimal(n as int),
{
    if n < 0 {
        push_char(s, '-');
        let m: u128 = (0i128 - (n as i128)) as u128;
        push_decimal(s, m);
        assert(final(s)@ =~= old(s)@ + signed_decimal(n as int));
    } else {
        push_decimal(s, n as u128);
    }
}

/// Where a pair named `key` goes in the name-sorted `v` (see `insert_pos`).
fn insert_index(v: &Vec<(String, String)>, key: &String, Ghost(other): Ghost<Seq<char>>) -> (k: usize)
    ensures
        k == insert_pos(v@.map_values(|p: (String, String)| (p.0@, p.1@)), (key@, other)),
{
    let ghost s = v@.map_values(|p: (String, String)| (p.0@, p.1@));
    let ghost xv = (key@, other);
    let mut k: usize = v.len();
    assert(s.subrange(0, k as int) =~= s);
    let mut go = k > 0 && str_lt(key.as_str(), v[k - 1].0.as_str());
    while go
        invariant
            k <= v@.len(),
            xv == (key@, other),
            s == v@.map_values(|p: (String, String)| (p.0@, p.1@)),
            insert_pos(s, xv) == insert_pos(s.subrange(0, k as int), xv),
            go ==> k > 0 && seq_lt(key@, v@[k - 1].0@),
            !go ==> k == 0 || !seq_lt(key@, v@[k - 1].0@),
        decreases k,
    {
        proof {
            let t = s.subrange(0, k as int);
            assert(s[k as int - 1] == (v@[k as int - 1].0@, v@[k as int - 1].1@));
            assert(t.last() == s[k as int - 1]);
            assert(t.last().0 == v@[k as int - 1].0@);
            assert(seq_lt(xv.0, t.last().0));
            assert(t.len() > 0);
            assert(insert_pos(t, xv) == insert_pos(t.drop_last(), xv));
            assert(t.drop_last() =~= s.subrange(0, k as int - 1));
        }
        k = k - 1;
        go = k > 0 && str_lt(key.as_str(), v[k - 1].0.as_str());
    }
    proof {
        let t = s.subrange(0, k as int);
        if k > 0 {
            assert(s[k as int - 1] == (v@[k as int - 1].0@, v@[k as int - 1].1@));
            assert(t.last() == s[k as int - 1]);
        }
    }
    k
}

/// Inserts `x` at its place in the name-sorted `v`.
fn insert_by_name(v: &mut Vec<(String, String)>, x: (String, String))
    ensures
        final(v)@.map_values(|p: (String, String)| (p.0@, p.1@))
            == old(v)@.map_values(|p: (String, String)| (p.0@, p.1@)).insert(
                insert_pos(old(v)@.map_values(|p: (String, String)| (p.0@, p.1@)), (x.0@, x.1@)), (x.0@, x.1@)),
{
    let ghost s = old(v)@.map_values(|p: (String, String)| (p.0@, p.1@));
    let ghost xv = (x.0@, x.1@);
    let k = insert_index(v, &x.0, Ghost(x.1@));
    proof { lemma_insert_pos_bound(s, xv); }
    v.insert(k, x);
    assert(v@.map_values(|p: (String, String)| (p.0@, p.1@)) =~= s.insert(k as int, xv));
}

fn join_into(out: &mut String, parts: &Vec<String>, sep: char)
    ensures
        final(out)@ == old(out)@ + join_sep(parts@.map_values(|s: String| s@), seq![sep]),
{
    let ghost ps = parts@.map_values(|s: String| s@);
    let mut i: usize = 0;
    let ghost o0 = out@;
    while i < parts.len()
        invariant
            i <= parts@.len(),
            ps == parts@.map_values(|s: String| s@),
            out@ == o0 + join_sep(ps.subrange(0, i as int), seq![sep]),
        decreases parts@.len() - i,
    {
        if i > 0 {
            push_char(out, sep);
        }
        push_str(out, parts[i].as_str());
        proof {
            let a = ps.subrange(0, i as int + 1);
            assert(a.drop_last() =~= ps.subrange(0, i as int));
            assert(a.last() == parts@[i as int]@);
            if i == 0 {
                assert(a[0] == parts@[0]@);
                assert(join_sep(ps.subrange(0, 0), seq![sep]) =~= Seq::<char>::empty());
            }
        }
        assert(out@ =~= o0 + join_sep(ps.subrange(0, i as int + 1), seq![sep]));
        i = i + 1;
    }
    assert(ps.subrange(0, ps.len() as int) =~= ps);
}

/// The key of `e`, if it is a literal (see `literal_key`).
pub fn canonical_literal_repr(e: &Expr) -> (r: Option<String>)
    ensures
        match r {
            Some(s) => literal_key(*e) == Some(s@),
            None => literal_key(*e) is None,
        },
    decreases e, 1int,
{
    match &e.kind {
        ExprKind::IntLit(n) => {
            let mut s = String::new();
            push_signed(&mut s, *n);
            push_char(&mut s, 'i');
            assert(s@ =~= signed_decimal(*n as int) + seq!['i']);
            Some(s)
        },
        ExprKind::BoolLit(b) => {
            let mut s = String::new();
            push_char(&mut s, if *b { 'T' } else { 'F' });
            assert(s@ =~= (if *b { seq!['T'] } else { seq!['F'] }));
            Some(s)
        },
        ExprKind::CharLit(c) => {
            let mut s = String::new();
            push_char(&mut s, *c);
            push_char(&mut s, 'c');
            assert(s@ =~= seq![*c, 'c']);
            Some(s)
        },
        ExprKind::UnitLit => {
            let mut s = String::new();
            push_char(&mut s, 'U');
            assert(s@ =~= seq!['U']);
            Some(s)
        },
        ExprKind::StrLit(t) => {
            let h = default_hash_str(t.as_str());
            let mut s = String::new();
            push_char(&mut s, 's');
            push_hex_min(&mut s, h % 0x1000000);
            assert(s@ =~= seq!['s'] + hex_of((std_string_hash(t@) % 0x1000000) as nat));
            Some(s)
        },
        ExprKind::Unary { op, operand } => match op {
            UnOp::Neg => match canonical_literal_repr(operand) {
                Some(r) => {
                    let mut s = String::new();
                    push_char(&mut s, 'm');
                    push_str(&mut s, r.as_str());
                    assert(s@ =~= seq!['m'] + r@);
                    Some(s)
                },
                None => None,
            },
            _ => None,
        },
        ExprKind::TupleLit(items) => {
            let keys = match tuple_keys(items) {
                Some(k) => k,
                None => {
                    return None;
                },
            };
            let mut s = String::new();
            push_char(&mut s, 'T');
            push_decimal(&mut s, items.len() as u128);
            push_char(&mut s, '{');
            join_into(&mut s, &keys, ';');
            push_char(&mut s, '}');
            assert(s@ =~= seq!['T'] + decimal(items.len() as nat) + seq!['{'] + join_sep(keys@.map_values(|s: String| s@), seq![';']) + seq!['}']);
            Some(s)
        },
        ExprKind::RecordLit { type_path, fields, inferred_map_v } => {
            if inferred_map_v.is_some() {
                return None;
            }
            let pairs = match field_key_pairs(fields) {
                Some(ps) => ps,
                None => {
                    return None;
                },
            };
            let ghost ps = pairs@.map_values(|p: (String, String)| (p.0@, p.1@));
            let mut sorted: Vec<(String, String)> = Vec::new();
            let mut q: usize = 0;
            assert(sort_by_name(ps.subrange(0, 0)) =~= Seq::<(Seq<char>, Seq<char>)>::empty());
            assert(sorted@.map_values(|p: (String, String)| (p.0@, p.1@)) =~= Seq::<(Seq<char>, Seq<char>)>::empty());
            while q < pairs.len()
                invariant
                    q <= pairs@.len(),
                    ps == pairs@.map_values(|p: (String, String)| (p.0@, p.1@)),
                    sorted@.map_values(|p: (String, String)| (p.0@, p.1@)) == sort_by_name(ps.subrange(0, q as int)),
                decreases pairs@.len() - q,
            {
                let x = (copy_str(pairs[q].0.as_str()), copy_str(pairs[q].1.as_str()));
                proof {
                    assert(ps[q as int] == (x.0@, x.1@));
                    let a = ps.subrange(0, q as int + 1);
                    assert(a.drop_last() =~= ps.subrange(0, q as int));
                    assert(a.last() == ps[q as int]);
                }
                insert_by_name(&mut sorted, x);
                q = q + 1;
            }
            assert(ps.subrange(0, ps.len() as int) =~= ps);
            let mut rendered: Vec<String> = Vec::new();
            let mut k: usize = 0;
            proof { lemma_sort_len(ps); }
            let ghost srt = sort_by_name(ps);
            while k < sorted.len()
                invariant
                    k <= sorted@.len(),
                    rendered@.len() == k,
                    srt.len() == sorted@.len(),
                    sorted@.map_values(|p: (String, String)| (p.0@, p.1@)) == srt,
                    rendered@.map_values(|s: String| s@)
                        == srt.subrange(0, k as int).map_values(|p: (Seq<char>, Seq<char>)| p.0 + seq![':'] + p.1),
                decreases sorted@.len() - k,
            {
                let mut t = copy_str(sorted[k].0.as_str());
                push_char(&mut t, ':');
                push_str(&mut t, sorted[k].1.as_str());
                let ghost r0 = rendered@.map_values(|s: String| s@);
                let ghost tv = t@;
                rendered.push(t);
                proof {
                    assert(srt[k as int] == sorted@.map_values(|p: (String, String)| (p.0@, p.1@))[k as int]);
                    assert(srt[k as int] == (sorted@[k as int].0@, sorted@[k as int].1@));
                    assert(tv == srt[k as int].0 + seq![':'] + srt[k as int].1);
                    assert(rendered@[k as int]@ == tv);
                    assert(rendered@.map_values(|s: String| s@) =~= r0.push(srt[k as int].0 + seq![':'] + srt[k as int].1));
                    assert(srt.subrange(0, k as int + 1).map_values(|p: (Seq<char>, Seq<char>)| p.0 + seq![':'] + p.1)
                        =~= srt.subrange(0, k as int).map_values(|p: (Seq<char>, Seq<char>)| p.0 + seq![':'] + p.1).push(srt[k as int].0 + seq![':'] + srt[k as int].1));
                }
                k = k + 1;
            }
            assert(srt.subrange(0, srt.len() as int) =~= srt);
            let mut s = String::new();
            push_char(&mut s, 'R');
            match type_path {
                Some(p) => join_into(&mut s, p, '.'),
                None => {},
            }
            push_char(&mut s, '{');
            join_into(&mut s, &rendered, ';');
            push_char(&mut s, '}');
            assert(s@ =~= seq!['R'] + match type_path {
                Some(p) => join_sep(p@.map_values(|s: String| s@), seq!['.']),
                None => Seq::<char>::empty(),
            } + seq!['{'] + join_sep(srt.map_values(|p: (Seq<char>, Seq<char>)| p.0 + seq![':'] + p.1), seq![';']) + seq!['}']);
            Some(s)
        },
        _ => None,
    }
}

fn tuple_keys(items: &Vec<Expr>) -> (r: Option<Vec<String>>)
    ensures
        match r {
            Some(ks) => keys_of(*items, items.len() as int) == Some(ks@.map_values(|s: String| s@)),
            None => keys_of(*items, items.len() as int) is None,
        },
    decreases items, 0int,
{
    let mut keys: Vec<String> = Vec::new();
    let mut i: usize = 0;
    assert(keys@.map_values(|s: String| s@) =~= Seq::<Seq<char>>::empty());
    while i < items.len()
        invariant
            i <= items@.len(),
            keys_of(*items, i as int) == Some(keys@.map_values(|s: String| s@)),
        decreases items@.len() - i,
    {
        proof { assert(decreases_to!(*items => items[i as int])); }
        match canonical_literal_repr(&items[i]) {
            Some(r) => {
                let ghost k0 = keys@.map_values(|s: String| s@);
                keys.push(r);
                assert(keys@.map_values(|s: String| s@) =~= k0.push(r@));
            },
            None => {
                proof { lemma_keys_none(*items, i as int + 1, items.len() as int); }
                return None;
            },
        }
        i = i + 1;
    }
    Some(keys)
}

fn field_key_pairs(fields: &Vec<RecordLitField>) -> (r: Option<Vec<(String, String)>>)
    ensures
        match r {
            Some(ps) => field_keys(*fields, fields.len() as int) == Some(ps@.map_values(|p: (String, String)| (p.0@, p.1@))),
            None => field_keys(*fields, fields.len() as int) is None,
        },
    decreases fields, 0int,
{
    let mut i: usize = 0;
    while i < fields.len()
        invariant
            i <= fields@.len(),
            keys_prefix_ok(*fields, i as int),
        decreases fields@.len() - i,
    {
        if fields[i].is_spread || fields[i].value.is_none() {
            proof { lemma_prefix_bad(*fields, i as int, fields.len() as int); }
            return None;
        }
        i = i + 1;
    }
    let mut pairs: Vec<(String, String)> = Vec::new();
    let mut j: usize = 0;
    assert(pairs@.map_values(|p: (String, String)| (p.0@, p.1@)) =~= Seq::<(Seq<char>, Seq<char>)>::empty());
    while j < fields.len()
        invariant
            j <= fields@.len(),
            keys_prefix_ok(*fields, fields.len() as int),
            field_keys(*fields, j as int) == Some(pairs@.map_values(|p: (String, String)| (p.0@, p.1@))),
        decreases fields@.len() - j,
    {
        proof { assert(decreases_to!(*fields => fields[j as int])); }
        match &fields[j].value {
            Some(y) => {
                match canonical_literal_repr(y) {
                    Some(r) => {
                        let ghost p0 = pairs@.map_values(|p: (String, String)| (p.0@, p.1@));
                        pairs.push((copy_str(fields[j].name.as_str()), r));
                        proof {
                            assert(keys_prefix_ok(*fields, j as int + 1)) by {
                                assert forall|k: int| 0 <= k < j + 1 && k < fields.len() implies !(#[trigger] fields[k]).is_spread && fields[k].value is Some by {
                                    assert(0 <= k < fields.len() as int && k < fields.len());
                                }
                            }
                            assert(pairs@.map_values(|p: (String, String)| (p.0@, p.1@)) =~= p0.push((fields[j as int].name@, r@)));
                        }
                    },
                    None => {
                        proof { lemma_fields_none(*fields, j as int + 1, fields.len() as int); }
                        return None;
                    },
                }
            },
            None => {
                return None;
            },
        }
        j = j + 1;
    }
    Some(pairs)
}

proof fn lemma_keys_none(v: Vec<Expr>, i: int, j: int)
    requires
        0 < i <= j <= v.len(),
        literal_key(v[i - 1]) is None,
    ensures
        keys_of(v, j) is None,
    decreases j - i,
{
    if i < j {
        lemma_keys_none(v, i, j - 1);
    }
}

proof fn lemma_prefix_bad(v: Vec<RecordLitField>, i: int, j: int)
    requires
        0 <= i < j <= v.len(),
        v[i].is_spread || v[i].value is None,
    ensures
        field_keys(v, j) is None,
{
    assert(!keys_prefix_ok(v, j)) by {
        assert(0 <= i < j && i < v.len());
    }
}

proof fn lemma_fields_none(v: Vec<RecordLitField>, i: int, j: int)
    requires
        0 < i <= j <= v.len(),
        keys_prefix_ok(v, v.len() as int),
        v[i - 1].value matches Some(y) && literal_key(y) is None,
    ensures
        field_keys(v, j) is None,
    decreases j - i,
{
    if i < j {
        lemma_fields_none(v, i, j - 1);
        assert(keys_prefix_ok(v, j)) by {
            assert forall|k: int| 0 <= k < j && k < v.len() implies !(#[trigger] v[k]).is_spread && v[k].value is Some by {
                assert(0 <= k < v.len() as int && k < v.len());
            }
        }
    } else {
        assert(keys_prefix_ok(v, i)) by {
            assert forall|k: int| 0 <= k < i && k < v.len() implies !(#[trigger] v[k]).is_spread && v[k].value is Some by {
                assert(0 <= k < v.len() as int && k < v.len());
            }
        }
    }
}

/// The identifier form of a key: `{` `}` `;` `:` `.` become `_o_` `_c_`
/// `_s_` `_k_` `_d_`, ASCII letters, digits and `_` stay, any other
/// character becomes `_<hex code>_`.
pub open spec fn ident_form(c: char) -> Seq<char> {
    if c == '{' {
        seq!['_', 'o', '_']
    } else if c == '}' {
        seq!['_', 'c', '_']
    } else if c == ';' {
        seq!['_', 's', '_']
    } else if c == ':' {
        seq!['_', 'k', '_']
    } else if c == '.' {
        seq!['_', 'd', '_']
    } else if ('a' <= c && c <= 'z') || ('A' <= c && c <= 'Z') || ('0' <= c && c <= '9') || c == '_' {
        seq![c]
    } else {
        seq!['_'] + hex_of(c as nat) + seq!['_']
    }
}

/// The identifier form of a whole key.
pub open spec fn ident_key(s: Seq<char>) -> Seq<char>
    decreases s.len(),
{
    if s.len() == 0 {
        Seq::empty()
    } else {
        ident_key(s.drop_last()) + ident_form(s.last())
    }
}

/// Turns a key into a valid identifier suffix (see `ident_key`).
pub fn sanitize_args_key_for_ident(args_key: &str) -> (r: String)
    ensures
        r@ == ident_key(args_key@),
{
    let x = crate::text::chars_of(args_key);
    let mut out = String::new();
    let mut i: usize = 0;
    while i < x.len()
        invariant
            x@ == args_key@,
            i <= x@.len(),
            out@ == ident_key(args_key@.subrange(0, i as int)),
        decreases x@.len() - i,
    {
        let c = x[i];
        let ghost o0 = out@;
        if c == '{' {
            push_str(&mut out, "_o_");
        } else if c == '}' {
            push_str(&mut out, "_c_");
        } else if c == ';' {
            push_str(&mut out, "_s_");
        } else if c == ':' {
            push_str(&mut out, "_k_");
        } else if c == '.' {
            push_str(&mut out, "_d_");
        } else if ('a' <= c && c <= 'z') || ('A' <= c && c <= 'Z') || ('0' <= c && c <= '9') || c == '_' {
            push_char(&mut out, c);
        } else {
            push_char(&mut out, '_');
            push_hex_min(&mut out, char_code(c));
            push_char(&mut out, '_');
        }
        proof {
            reveal_strlit("_o_");
            reveal_strlit("_c_");
            reveal_strlit("_s_");
            reveal_strlit("_k_");
            reveal_strlit("_d_");
            let a = args_key@.subrange(0, i as int + 1);
            assert(a.drop_last() =~= args_key@.subrange(0, i as int));
            assert(a.last() == c);
            assert(out@ =~= o0 + ident_form(c));
        }
        i = i + 1;
    }
    assert(args_key@.subrange(0, args_key@.len() as int) =~= args_key@);
    out
}

fn char_code(c: char) -> (n: u64)
    ensures
        n == c as nat,
{
    (c as u32) as u64
}

} // verus!
