//! Escape analysis of a module, per function:
//!
//! - which value-record (and primitive scalar) locals have their address
//!   escape and must be promoted to the heap (see `promote`);
//! - which locals have their value, as an identifier, reach an escape sink,
//!   whatever their type (see `idents`), for test blocks too.
//!
//! Functions are keyed by name, methods by `Type::name`, test blocks by
//! `test::name`. When two functions share a key, the later one's result
//! replaces the earlier one's.

pub mod idents;
pub mod named_sets;
pub mod promote;

use vstd::prelude::*;
use crate::ast::{AllocKind, FnBody, FnDecl, Item, Module, PeerFile, TestDecl, TypeDecl, TypeDeclKind};
use crate::escape_analyze::idents::{ie_block, ie_collect_block, ie_collect_expr, ie_expr};
use crate::escape_analyze::named_sets::{NamedSet, NamedSets};
use crate::escape_analyze::promote::{pr_block, pr_collect_block, pr_collect_esc, pr_esc, set_of};
use crate::field_cache::collect::{add_name, has_name};
use crate::field_cache::ipa::names_view;
use crate::text::{copy_str, push_str};

verus! {

/// The result of the analysis.
#[derive(Debug)]
pub struct EscapeResult {
    promoted_per_fn: NamedSets,
    ident_escapes_per_fn: NamedSets,
}

impl EscapeResult {
    /// Function id to the locals promoted to the heap (only functions with
    /// at least one).
    pub closed spec fn promoted(&self) -> Map<Seq<char>, Set<Seq<char>>> {
        self.promoted_per_fn@
    }

    /// Function id to the locals whose value escapes (only functions with
    /// at least one).
    pub closed spec fn ident_escaping(&self) -> Map<Seq<char>, Set<Seq<char>>> {
        self.ident_escapes_per_fn@
    }

    /// The number of promoted locals, summed over the functions.
    pub closed spec fn promoted_total(&self) -> nat {
        self.promoted_per_fn.total()
    }

    /// The local `local_name` of `fn_id` must live on the heap.
    pub fn is_promoted(&self, fn_id: &str, local_name: &str) -> (r: bool)
        ensures
            r == (self.promoted().contains_key(fn_id@) && self.promoted()[fn_id@].contains(local_name@)),
    {
        self.promoted_per_fn.has(fn_id, local_name)
    }

    /// Some function has a promoted local.
    pub fn has_any_promoted(&self) -> (r: bool)
        ensures
            r == exists|k: Seq<char>| #[trigger] self.promoted().contains_key(k) && self.promoted()[k] != Set::<Seq<char>>::empty(),
    {
        let r = self.promoted_per_fn.any_nonempty();
        proof {
            if r {
                let k = choose|k: Seq<char>| #[trigger] self.promoted_per_fn@.contains_key(k) && self.promoted_per_fn@[k] != Set::<Seq<char>>::empty();
                assert(self.promoted().contains_key(k));
            }
        }
        r
    }

    /// The number of promoted locals over all functions (`usize::MAX` when
    /// that does not fit).
    pub fn total_promoted_count(&self) -> (n: usize)
        ensures
            n == (if self.promoted_total() <= usize::MAX { self.promoted_total() } else { usize::MAX as nat }),
            (n > 0) == exists|k: Seq<char>| #[trigger] self.promoted().contains_key(k) && self.promoted()[k] != Set::<Seq<char>>::empty(),
    {
        let n = self.promoted_per_fn.total_count();
        proof {
            if n > 0 {
                let k = choose|k: Seq<char>| #[trigger] self.promoted_per_fn@.contains_key(k) && self.promoted_per_fn@[k] != Set::<Seq<char>>::empty();
                assert(self.promoted().contains_key(k));
            }
            if exists|k: Seq<char>| #[trigger] self.promoted().contains_key(k) && self.promoted()[k] != Set::<Seq<char>>::empty() {
                let k = choose|k: Seq<char>| #[trigger] self.promoted().contains_key(k) && self.promoted()[k] != Set::<Seq<char>>::empty();
                assert(self.promoted_per_fn@.contains_key(k));
            }
        }
        n
    }

    /// The functions with promoted locals, each with its locals.
    pub fn iter_promoted(&self) -> (r: Vec<NamedSet>)
        ensures
            named_sets::pairs_map(named_sets::pairs_of(r@)) == self.promoted(),
            named_sets::keys_distinct(named_sets::pairs_of(r@)),
            named_sets::pairs_total(named_sets::pairs_of(r@)) == self.promoted_total(),
    {
        self.promoted_per_fn.entries()
    }

    /// The value of the local `local_name` of `fn_id` reaches an escape sink.
    pub fn ident_escapes(&self, fn_id: &str, local_name: &str) -> (r: bool)
        ensures
            r == (self.ident_escaping().contains_key(fn_id@) && self.ident_escaping()[fn_id@].contains(local_name@)),
    {
        self.ident_escapes_per_fn.has(fn_id, local_name)
    }
}

/// A record type whose values live on the stack.
pub open spec fn is_value_record_decl(d: TypeDecl) -> bool {
    d.kind is Record && d.allocation == AllocKind::Value
}

/// One of the items is a value-record type named `n`.
pub open spec fn declares_value_record(items: Seq<Item>, n: Seq<char>) -> bool {
    exists|i: int| 0 <= i < items.len() && (#[trigger] items[i] matches Item::Type(d) && is_value_record_decl(d) && d.name@ == n)
}

/// The value-record types declared anywhere in the module (its items and
/// every peer file).
pub open spec fn value_records(m: Module) -> Set<Seq<char>> {
    Set::new(|n: Seq<char>| declares_value_record(m.items@, n)
        || exists|j: int| 0 <= j < m.peer_files@.len() && declares_value_record((#[trigger] m.peer_files@[j]).items_here@, n))
}

/// The items of the first `k` peer files whose entry flag is `entry`, in
/// order.
pub open spec fn peer_items(pfs: Seq<PeerFile>, k: int, entry: bool) -> Seq<Item>
    decreases k,
{
    if k <= 0 || k > pfs.len() {
        Seq::empty()
    } else if pfs[k - 1].is_entry_module == entry {
        peer_items(pfs, k - 1, entry) + pfs[k - 1].items_here@
    } else {
        peer_items(pfs, k - 1, entry)
    }
}

/// The items analysed, in order: those of the entry files (the module's
/// own items when it has no peer files), then those of the other files.
pub open spec fn analysed_items(m: Module) -> Seq<Item> {
    if m.peer_files@.len() == 0 {
        m.items@
    } else {
        peer_items(m.peer_files@, m.peer_files@.len() as int, true) + peer_items(m.peer_files@, m.peer_files@.len() as int, false)
    }
}

/// The key of a function: its name, or `Type::name` for a method.
pub open spec fn fn_key(fd: FnDecl) -> Seq<char> {
    match fd.receiver {
        Some(r) => r.owner_type@ + "::"@ + fd.name@,
        None => fd.name@,
    }
}

/// The key of a test block.
pub open spec fn test_key(t: TestDecl) -> Seq<char> {
    "test::"@ + t.name@
}

/// The promoted locals of a function.
pub open spec fn fn_promoted(fd: FnDecl, vr: Set<Seq<char>>) -> Set<Seq<char>> {
    Set::new(|x: Seq<char>| match fd.body {
        FnBody::Block(b) => pr_block(b, true, Set::empty(), vr, x),
        FnBody::Expr(e) => pr_esc(e, Set::empty(), vr, x),
        FnBody::External => false,
    })
}

/// The locals of a function whose value escapes.
pub open spec fn fn_escaping(fd: FnDecl) -> Set<Seq<char>> {
    Set::new(|x: Seq<char>| match fd.body {
        FnBody::Block(b) => ie_block(b, true, x),
        FnBody::Expr(e) => ie_expr(e, true, x),
        FnBody::External => false,
    })
}

/// The locals of a test block whose value escapes.
pub open spec fn test_escaping(t: TestDecl) -> Set<Seq<char>> {
    Set::new(|x: Seq<char>| ie_block(t.body, false, x))
}

/// The promotion map after analysing `items` in order.
pub open spec fn promoted_after(items: Seq<Item>, vr: Set<Seq<char>>) -> Map<Seq<char>, Set<Seq<char>>>
    decreases items.len(),
{
    if items.len() == 0 {
        Map::empty()
    } else {
        let m = promoted_after(items.drop_last(), vr);
        match items.last() {
            Item::Fn(fd) => if fn_promoted(fd, vr) != Set::<Seq<char>>::empty() {
                m.insert(fn_key(fd), fn_promoted(fd, vr))
            } else {
                m
            },
            _ => m,
        }
    }
}

/// The escaping-value map after analysing `items` in order.
pub open spec fn escaping_after(items: Seq<Item>) -> Map<Seq<char>, Set<Seq<char>>>
    decreases items.len(),
{
    if items.len() == 0 {
        Map::empty()
    } else {
        let m = escaping_after(items.drop_last());
        match items.last() {
            Item::Fn(fd) => if fn_escaping(fd) != Set::<Seq<char>>::empty() {
                m.insert(fn_key(fd), fn_escaping(fd))
            } else {
                m
            },
            Item::Test(t) => if test_escaping(t) != Set::<Seq<char>>::empty() {
                m.insert(test_key(t), test_escaping(t))
            } else {
                m
            },
            _ => m,
        }
    }
}

fn value_records_in(items: &Vec<Item>, out: &mut Vec<String>)
    ensures
        forall|n: Seq<char>| #[trigger] has_name(final(out)@, n) <==> has_name(old(out)@, n) || declares_value_record(items@, n),
{
    let mut i: usize = 0;
    while i < items.len()
        invariant
            i <= items@.len(),
            forall|n: Seq<char>| #[trigger] has_name(out@, n) <==> has_name(old(out)@, n) || declares_value_record(items@.subrange(0, i as int), n),
        decreases items@.len() - i,
    {
        let ghost before = out@;
        match &items[i] {
            Item::Type(d) => {
                let is_record = match &d.kind {
                    TypeDeclKind::Record(_) => true,
                    _ => false,
                };
                if is_record && d.allocation == AllocKind::Value {
                    add_name(out, d.name.as_str());
                }
            },
            _ => {},
        }
        proof {
            let s0 = items@.subrange(0, i as int);
            let s1 = items@.subrange(0, i as int + 1);
            assert forall|n: Seq<char>| #[trigger] declares_value_record(s1, n) <==> declares_value_record(s0, n)
                || (items@[i as int] matches Item::Type(d) && is_value_record_decl(d) && d.name@ == n) by {
                if declares_value_record(s0, n) {
                    let k = choose|k: int| 0 <= k < s0.len() && (#[trigger] s0[k] matches Item::Type(d) && is_value_record_decl(d) && d.name@ == n);
                    assert(s1[k] == s0[k]);
                }
                if declares_value_record(s1, n) {
                    let k = choose|k: int| 0 <= k < s1.len() && (#[trigger] s1[k] matches Item::Type(d) && is_value_record_decl(d) && d.name@ == n);
                    if k < i {
                        assert(s0[k] == s1[k]);
                    }
                }
                if items@[i as int] matches Item::Type(d) && is_value_record_decl(d) && d.name@ == n {
                    assert(s1[i as int] == items@[i as int]);
                }
            }
        }
        i = i + 1;
    }
    assert(items@.subrange(0, items@.len() as int) =~= items@);
}

/// The value-record types of the module.
pub fn collect_value_record_types(m: &Module) -> (r: Vec<String>)
    ensures
        set_of(r@) == value_records(*m),
{
    let mut out: Vec<String> = Vec::new();
    value_records_in(&m.items, &mut out);
    let mut j: usize = 0;
    while j < m.peer_files.len()
        invariant
            j <= m.peer_files@.len(),
            forall|n: Seq<char>| #[trigger] has_name(out@, n) <==> declares_value_record(m.items@, n)
                || exists|k: int| 0 <= k < j && declares_value_record((#[trigger] m.peer_files@[k]).items_here@, n),
        decreases m.peer_files@.len() - j,
    {
        value_records_in(&m.peer_files[j].items_here, &mut out);
        proof {
            assert forall|n: Seq<char>| #[trigger] has_name(out@, n) <==> declares_value_record(m.items@, n)
                || exists|k: int| 0 <= k < j + 1 && declares_value_record((#[trigger] m.peer_files@[k]).items_here@, n) by {
                if declares_value_record(m.peer_files@[j as int].items_here@, n) {
                    assert(0 <= j < j + 1);
                }
            }
        }
        j = j + 1;
    }
    assert(set_of(out@) =~= value_records(*m));
    out
}

fn fn_id(fd: &FnDecl) -> (r: String)
    ensures
        r@ == fn_key(*fd),
{
    match &fd.receiver {
        Some(recv) => {
            let mut s = copy_str(recv.owner_type.as_str());
            push_str(&mut s, "::");
            push_str(&mut s, fd.name.as_str());
            s
        },
        None => copy_str(fd.name.as_str()),
    }
}

proof fn lemma_nonempty(v: Seq<String>)
    ensures
        (v.len() > 0) == (set_of(v) != Set::<Seq<char>>::empty()),
{
    if v.len() > 0 {
        assert(names_view(v)[0] == v[0]@);
        assert(set_of(v).contains(v[0]@));
    } else {
        assert(set_of(v) =~= Set::<Seq<char>>::empty());
    }
}

fn analyse_fn(fd: &FnDecl, vr: &Vec<String>, result: &mut EscapeResult)
    ensures
        final(result).promoted() == (if fn_promoted(*fd, set_of(vr@)) != Set::<Seq<char>>::empty() {
            old(result).promoted().insert(fn_key(*fd), fn_promoted(*fd, set_of(vr@)))
        } else {
            old(result).promoted()
        }),
        final(result).ident_escaping() == (if fn_escaping(*fd) != Set::<Seq<char>>::empty() {
            old(result).ident_escaping().insert(fn_key(*fd), fn_escaping(*fd))
        } else {
            old(result).ident_escaping()
        }),
{
    let empty: Vec<String> = Vec::new();
    assert(set_of(empty@) =~= Set::<Seq<char>>::empty());
    let mut promoted: Vec<String> = Vec::new();
    match &fd.body {
        FnBody::Block(b) => pr_collect_block(b, true, &empty, vr, &mut promoted),
        FnBody::Expr(e) => pr_collect_esc(e, &empty, vr, &mut promoted),
        FnBody::External => {},
    }
    proof {
        assert(set_of(promoted@) =~= fn_promoted(*fd, set_of(vr@)));
        lemma_nonempty(promoted@);
    }
    if promoted.len() > 0 {
        result.promoted_per_fn.set(fn_id(fd), promoted);
    }
    let mut escaped: Vec<String> = Vec::new();
    match &fd.body {
        FnBody::Block(b) => ie_collect_block(b, true, &mut escaped),
        FnBody::Expr(e) => ie_collect_expr(e, true, &mut escaped),
        FnBody::External => {},
    }
    proof {
        assert(set_of(escaped@) =~= fn_escaping(*fd));
        lemma_nonempty(escaped@);
    }
    if escaped.len() > 0 {
        result.ident_escapes_per_fn.set(fn_id(fd), escaped);
    }
}

fn analyse_test(t: &TestDecl, result: &mut EscapeResult)
    ensures
        final(result).promoted() == old(result).promoted(),
        final(result).ident_escaping() == (if test_escaping(*t) != Set::<Seq<char>>::empty() {
            old(result).ident_escaping().insert(test_key(*t), test_escaping(*t))
        } else {
            old(result).ident_escaping()
        }),
{
    let mut escaped: Vec<String> = Vec::new();
    ie_collect_block(&t.body, false, &mut escaped);
    proof {
        assert(set_of(escaped@) =~= test_escaping(*t));
        lemma_nonempty(escaped@);
    }
    if escaped.len() > 0 {
        let mut key = copy_str("test::");
        push_str(&mut key, t.name.as_str());
        result.ident_escapes_per_fn.set(key, escaped);
    }
}

fn analyse_items(items: &Vec<Item>, vr: &Vec<String>, result: &mut EscapeResult, Ghost(done): Ghost<Seq<Item>>)
    requires
        old(result).promoted() == promoted_after(done, set_of(vr@)),
        old(result).ident_escaping() == escaping_after(done),
    ensures
        final(result).promoted() == promoted_after(done + items@, set_of(vr@)),
        final(result).ident_escaping() == escaping_after(done + items@),
{
    let mut i: usize = 0;
    while i < items.len()
        invariant
            i <= items@.len(),
            result.promoted() == promoted_after(done + items@.subrange(0, i as int), set_of(vr@)),
            result.ident_escaping() == escaping_after(done + items@.subrange(0, i as int)),
        decreases items@.len() - i,
    {
        let ghost next = done + items@.subrange(0, i as int + 1);
        assert(next.drop_last() =~= done + items@.subrange(0, i as int));
        assert(next.last() == items@[i as int]);
        match &items[i] {
            Item::Fn(fd) => analyse_fn(fd, vr, result),
            Item::Test(t) => analyse_test(t, result),
            _ => {},
        }
        i = i + 1;
    }
    assert(done + items@.subrange(0, items@.len() as int) =~= done + items@);
}

fn analyse_peers(pfs: &Vec<PeerFile>, entry: bool, vr: &Vec<String>, result: &mut EscapeResult, Ghost(done): Ghost<Seq<Item>>)
    requires
        old(result).promoted() == promoted_after(done, set_of(vr@)),
        old(result).ident_escaping() == escaping_after(done),
    ensures
        final(result).promoted() == promoted_after(done + peer_items(pfs@, pfs@.len() as int, entry), set_of(vr@)),
        final(result).ident_escaping() == escaping_after(done + peer_items(pfs@, pfs@.len() as int, entry)),
{
    let mut j: usize = 0;
    while j < pfs.len()
        invariant
            j <= pfs@.len(),
            result.promoted() == promoted_after(done + peer_items(pfs@, j as int, entry), set_of(vr@)),
            result.ident_escaping() == escaping_after(done + peer_items(pfs@, j as int, entry)),
        decreases pfs@.len() - j,
    {
        if pfs[j].is_entry_module == entry {
            let ghost before = done + peer_items(pfs@, j as int, entry);
            analyse_items(&pfs[j].items_here, vr, result, Ghost(before));
            assert(before + pfs@[j as int].items_here@ =~= done + peer_items(pfs@, j as int + 1, entry));
        } else {
            assert(peer_items(pfs@, j as int + 1, entry) == peer_items(pfs@, j as int, entry));
        }
        j = j + 1;
    }
}

/// Runs both analyses over every function (and, for escaping values,
/// every test block) of the module, in the order of `analysed_items`.
pub fn analyze_module(module: &Module) -> (r: EscapeResult)
    ensures
        r.promoted() == promoted_after(analysed_items(*module), value_records(*module)),
        r.ident_escaping() == escaping_after(analysed_items(*module)),
{
    let vr = collect_value_record_types(module);
    let mut result = EscapeResult { promoted_per_fn: NamedSets::new(), ident_escapes_per_fn: NamedSets::new() };
    let ghost empty = Seq::<Item>::empty();
    assert(result.promoted() == promoted_after(empty, set_of(vr@)));
    if module.peer_files.len() == 0 {
        analyse_items(&module.items, &vr, &mut result, Ghost(empty));
        assert(empty + module.items@ =~= module.items@);
    } else {
        analyse_peers(&module.peer_files, true, &vr, &mut result, Ghost(empty));
        let ghost first = peer_items(module.peer_files@, module.peer_files@.len() as int, true);
        assert(empty + first =~= first);
        analyse_peers(&module.peer_files, false, &vr, &mut result, Ghost(first));
    }
    result
}

} // verus!
