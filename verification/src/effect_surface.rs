//! The effect surface of a package: the effects that its public functions
//! declare, and which functions bring each one in.

use vstd::prelude::*;
use crate::field_cache::collect::has_name;
use crate::field_cache::ipa::{contains_name, names_view};
use crate::field_cache::plan::{insert_sorted, sorted_names};
use crate::order::{increasing, lemma_increasing_unique, lemma_name_order, name_lt};
use crate::text::{join_sep, join_strings, push_char, push_str, seq_lt};

verus! {

/// What a documented item is.
#[derive(Clone, Copy, Debug, PartialEq, Eq)]
pub enum DocItemKind {
    Fn,
    Type,
    Const,
    Other,
}

/// A documented item of a module.
#[derive(Debug)]
pub struct DocItem {
    pub name: String,
    pub kind: DocItemKind,
}

/// The effects that one public function declares.
#[derive(Debug)]
pub struct EffectRow {
    pub fn_name: String,
    pub effects: Vec<String>,
}

/// A documented module: its path, its items, and the effect rows of its
/// public functions that declare effects.
#[derive(Debug)]
pub struct DocModule {
    pub path: Vec<String>,
    pub items: Vec<DocItem>,
    pub effect_matrix: Vec<EffectRow>,
}

/// The documentation of a package.
#[derive(Debug)]
pub struct DocTree {
    pub modules: Vec<DocModule>,
}

/// The functions that bring in one effect.
#[derive(Debug)]
pub struct EffectEntry {
    pub effect: String,
    pub fns: Vec<String>,
}

/// The effect surface of a package.
#[derive(Debug)]
pub struct EffectSurface {
    /// Every effect of the public API, sorted, each once.
    pub effects: Vec<String>,
    /// For each effect (in the order of `effects`), the qualified names of
    /// the functions that declare it, sorted, each once.
    pub by_effect: Vec<EffectEntry>,
    /// Public functions in all.
    pub total_public_fns: usize,
    /// Public functions with at least one effect.
    pub effectful_fns: usize,
}

/// The name of a function as seen from outside: its module path and its
/// name joined by `.` (the bare name for a module with no path).
pub open spec fn qualified(m: DocModule, r: EffectRow) -> Seq<char> {
    if m.path@.len() == 0 {
        r.fn_name@
    } else {
        join_sep(m.path@.map_values(|s: String| s@), seq!['.']) + seq!['.'] + r.fn_name@
    }
}

/// Row `r` of module `j` declares effect `e`.
pub open spec fn row_declares(t: DocTree, j: int, r: int, e: Seq<char>) -> bool {
    0 <= j < t.modules@.len() && 0 <= r < t.modules@[j].effect_matrix@.len()
        && has_name(t.modules@[j].effect_matrix@[r].effects@, e)
}

/// Some public function of the package declares `e`.
pub open spec fn declared_effect(t: DocTree, e: Seq<char>) -> bool {
    exists|j: int, r: int| #[trigger] row_declares(t, j, r, e)
}

/// The function named `q` declares `e`.
pub open spec fn contributes(t: DocTree, e: Seq<char>, q: Seq<char>) -> bool {
    exists|j: int, r: int| #[trigger] row_declares(t, j, r, e) && qualified(t.modules@[j], t.modules@[j].effect_matrix@[r]) == q
}

/// The number of function items in the first `k` modules.
pub open spec fn fn_items(t: DocTree, k: int) -> nat
    decreases k,
{
    if k <= 0 || k > t.modules@.len() {
        0
    } else {
        fn_items(t, k - 1) + count_fn_items(t.modules@[k - 1].items@)
    }
}

pub open spec fn count_fn_items(items: Seq<DocItem>) -> nat
    decreases items.len(),
{
    if items.len() == 0 {
        0
    } else {
        count_fn_items(items.drop_last()) + if items.last().kind == DocItemKind::Fn { 1nat } else { 0nat }
    }
}

/// The number of effect rows in the first `k` modules.
pub open spec fn effect_rows(t: DocTree, k: int) -> nat
    decreases k,
{
    if k <= 0 || k > t.modules@.len() {
        0
    } else {
        effect_rows(t, k - 1) + t.modules@[k - 1].effect_matrix@.len()
    }
}

impl EffectSurface {
    /// The public API declares no effect.
    pub fn is_pure(&self) -> (r: bool)
        ensures
            r == (self.effects@.len() == 0),
    {
        self.effects.len() == 0
    }

    /// The functions that bring in `effect`, if any does.
    pub fn contributors(&self, effect: &str) -> (r: Option<&Vec<String>>)
        ensures
            match r {
                Some(v) => exists|i: int| 0 <= i < self.by_effect@.len() && self.by_effect@[i].effect@ == effect@
                    && self.by_effect@[i].fns == *v,
                None => forall|i: int| 0 <= i < self.by_effect@.len() ==> self.by_effect@[i].effect@ != effect@,
            },
    {
        let mut i: usize = 0;
        while i < self.by_effect.len()
            invariant
                i <= self.by_effect@.len(),
                forall|k: int| 0 <= k < i ==> self.by_effect@[k].effect@ != effect@,
            decreases self.by_effect@.len() - i,
        {
            if crate::text::str_eq(self.by_effect[i].effect.as_str(), effect) {
                return Some(&self.by_effect[i].fns);
            }
            i = i + 1;
        }
        None
    }
}

/// The qualified name of a function of module `m`.
fn qualified_name(m: &DocModule, r: &EffectRow) -> (q: String)
    ensures
        q@ == qualified(*m, *r),
{
    if m.path.len() == 0 {
        String::from_str(r.fn_name.as_str())
    } else {
        let mut q = join_strings(&m.path, ".");
        proof {
            reveal_strlit(".");
            assert("."@ =~= seq!['.']);
        }
        push_char(&mut q, '.');
        push_str(&mut q, r.fn_name.as_str());
        q
    }
}

/// Adds to a sorted list the effects of the rows of module `j`.
fn add_module_effects(t: &DocTree, j: usize, out: &mut Vec<String>)
    requires
        j < t.modules@.len(),
        sorted_names(old(out)@),
    ensures
        sorted_names(final(out)@),
        forall|e: Seq<char>| #[trigger] has_name(final(out)@, e) <==> has_name(old(out)@, e)
            || exists|r: int| #[trigger] row_declares(*t, j as int, r, e),
{
    let m = &t.modules[j];
    let mut r: usize = 0;
    while r < m.effect_matrix.len()
        invariant
            j < t.modules@.len(),
            *m == t.modules@[j as int],
            r <= m.effect_matrix@.len(),
            sorted_names(out@),
            forall|e: Seq<char>| #[trigger] has_name(out@, e) <==> has_name(old(out)@, e)
                || exists|r2: int| 0 <= r2 < r && #[trigger] row_declares(*t, j as int, r2, e),
        decreases m.effect_matrix@.len() - r,
    {
        let effects = &m.effect_matrix[r].effects;
        let mut k: usize = 0;
        while k < effects.len()
            invariant
                j < t.modules@.len(),
                *m == t.modules@[j as int],
                r < m.effect_matrix@.len(),
                *effects == m.effect_matrix@[r as int].effects,
                k <= effects@.len(),
                sorted_names(out@),
                forall|e: Seq<char>| #[trigger] has_name(out@, e) <==> has_name(old(out)@, e)
                    || (exists|r2: int| 0 <= r2 < r && #[trigger] row_declares(*t, j as int, r2, e))
                    || has_name(effects@.subrange(0, k as int), e),
            decreases effects@.len() - k,
        {
            insert_sorted(out, effects[k].as_str());
            proof {
                assert forall|e: Seq<char>| #[trigger] has_name(effects@.subrange(0, k as int + 1), e)
                    <==> has_name(effects@.subrange(0, k as int), e) || e == effects@[k as int]@ by {
                    let s1 = effects@.subrange(0, k as int + 1);
                    let s0 = effects@.subrange(0, k as int);
                    if has_name(s1, e) {
                        let i = choose|i: int| 0 <= i < names_view(s1).len() && names_view(s1)[i] == e;
                        if i < k { assert(names_view(s0)[i] == e); }
                    }
                    if has_name(s0, e) {
                        let i = choose|i: int| 0 <= i < names_view(s0).len() && names_view(s0)[i] == e;
                        assert(names_view(s1)[i] == e);
                    }
                    if e == effects@[k as int]@ {
                        assert(names_view(s1)[k as int] == e);
                    }
                }
            }
            k = k + 1;
        }
        proof {
            assert(effects@.subrange(0, effects@.len() as int) =~= effects@);
            assert forall|e: Seq<char>| #[trigger] has_name(out@, e) <==> has_name(old(out)@, e)
                || exists|r2: int| 0 <= r2 < r + 1 && #[trigger] row_declares(*t, j as int, r2, e) by {
                if has_name(effects@, e) {
                    assert(row_declares(*t, j as int, r as int, e));
                }
                if exists|r2: int| 0 <= r2 < r + 1 && #[trigger] row_declares(*t, j as int, r2, e) {
                    let r2 = choose|r2: int| 0 <= r2 < r + 1 && #[trigger] row_declares(*t, j as int, r2, e);
                    if r2 == r {
                        assert(has_name(effects@, e));
                    }
                }
            }
        }
        r = r + 1;
    }
}

/// The qualified names of the functions that declare `e`, sorted, each once.
fn effect_contributors(t: &DocTree, e: &str) -> (fns: Vec<String>)
    ensures
        sorted_names(fns@),
        forall|q: Seq<char>| #[trigger] has_name(fns@, q) <==> contributes(*t, e@, q),
{
    let mut fns: Vec<String> = Vec::new();
    proof {
        assert(names_view(Seq::<String>::empty()) =~= Seq::<Seq<char>>::empty());
    }
    let mut j: usize = 0;
    while j < t.modules.len()
        invariant
            j <= t.modules@.len(),
            sorted_names(fns@),
            forall|q: Seq<char>| #[trigger] has_name(fns@, q) <==> exists|j2: int, r2: int| #![trigger row_declares(*t, j2, r2, e@)]
                j2 < j && row_declares(*t, j2, r2, e@) && qualified(t.modules@[j2], t.modules@[j2].effect_matrix@[r2]) == q,
        decreases t.modules@.len() - j,
    {
        let m = &t.modules[j];
        let mut r: usize = 0;
        while r < m.effect_matrix.len()
            invariant
                j < t.modules@.len(),
                *m == t.modules@[j as int],
                r <= m.effect_matrix@.len(),
                sorted_names(fns@),
                forall|q: Seq<char>| #[trigger] has_name(fns@, q) <==> exists|j2: int, r2: int| #![trigger row_declares(*t, j2, r2, e@)]
                    (j2 < j || (j2 == j && r2 < r)) && row_declares(*t, j2, r2, e@)
                    && qualified(t.modules@[j2], t.modules@[j2].effect_matrix@[r2]) == q,
            decreases m.effect_matrix@.len() - r,
        {
            let row = &m.effect_matrix[r];
            if contains_name(&row.effects, e) {
                let q = qualified_name(m, row);
                insert_sorted(&mut fns, q.as_str());
                proof {
                    assert(row_declares(*t, j as int, r as int, e@));
                }
            }
            proof {
                assert forall|q2: Seq<char>| #[trigger] has_name(fns@, q2) <==> exists|j2: int, r2: int| #![trigger row_declares(*t, j2, r2, e@)]
                    (j2 < j || (j2 == j && r2 < r + 1)) && row_declares(*t, j2, r2, e@)
                    && qualified(t.modules@[j2], t.modules@[j2].effect_matrix@[r2]) == q2 by {
                    if exists|j2: int, r2: int| #![trigger row_declares(*t, j2, r2, e@)]
                        (j2 < j || (j2 == j && r2 < r + 1)) && row_declares(*t, j2, r2, e@)
                        && qualified(t.modules@[j2], t.modules@[j2].effect_matrix@[r2]) == q2 {
                        let (j2, r2) = choose|j2: int, r2: int| #![trigger row_declares(*t, j2, r2, e@)]
                            (j2 < j || (j2 == j && r2 < r + 1)) && row_declares(*t, j2, r2, e@)
                            && qualified(t.modules@[j2], t.modules@[j2].effect_matrix@[r2]) == q2;
                        if j2 == j && r2 == r {
                            assert(has_name(row.effects@, e@));
                        }
                    }
                }
            }
            r = r + 1;
        }
        proof {
            assert forall|q2: Seq<char>| #[trigger] has_name(fns@, q2) <==> exists|j2: int, r2: int| #![trigger row_declares(*t, j2, r2, e@)]
                j2 < j + 1 && row_declares(*t, j2, r2, e@) && qualified(t.modules@[j2], t.modules@[j2].effect_matrix@[r2]) == q2 by {
                if exists|j2: int, r2: int| #![trigger row_declares(*t, j2, r2, e@)]
                    j2 < j + 1 && row_declares(*t, j2, r2, e@) && qualified(t.modules@[j2], t.modules@[j2].effect_matrix@[r2]) == q2 {
                    let (j2, r2) = choose|j2: int, r2: int| #![trigger row_declares(*t, j2, r2, e@)]
                        j2 < j + 1 && row_declares(*t, j2, r2, e@) && qualified(t.modules@[j2], t.modules@[j2].effect_matrix@[r2]) == q2;
                    assert(j2 < j || (j2 == j && r2 < m.effect_matrix@.len()));
                }
            }
        }
        j = j + 1;
    }
    fns
}

/// The effect surface of a package: the effects its public functions
/// declare (sorted, each once), for each of them the functions that declare
/// it, the number of public functions and of those with effects.
pub fn compute(tree: &DocTree) -> (s: EffectSurface)
    requires
        fn_items(*tree, tree.modules@.len() as int) <= usize::MAX,
        effect_rows(*tree, tree.modules@.len() as int) <= usize::MAX,
    ensures
        sorted_names(s.effects@),
        forall|e: Seq<char>| #[trigger] has_name(s.effects@, e) <==> declared_effect(*tree, e),
        s.by_effect@.len() == s.effects@.len(),
        forall|i: int| 0 <= i < s.by_effect@.len() ==> (#[trigger] s.by_effect@[i]).effect@ == s.effects@[i]@
            && sorted_names(s.by_effect@[i].fns@)
            && forall|q: Seq<char>| #[trigger] has_name(s.by_effect@[i].fns@, q) <==> contributes(*tree, s.effects@[i]@, q),
        s.total_public_fns == fn_items(*tree, tree.modules@.len() as int),
        s.effectful_fns == effect_rows(*tree, tree.modules@.len() as int),
        is_surface_of(*tree, s),
{
    let mut effects: Vec<String> = Vec::new();
    proof {
        assert(names_view(Seq::<String>::empty()) =~= Seq::<Seq<char>>::empty());
    }
    let mut total: usize = 0;
    let mut effectful: usize = 0;
    let mut j: usize = 0;
    while j < tree.modules.len()
        invariant
            j <= tree.modules@.len(),
            fn_items(*tree, tree.modules@.len() as int) <= usize::MAX,
            effect_rows(*tree, tree.modules@.len() as int) <= usize::MAX,
            sorted_names(effects@),
            forall|e: Seq<char>| #[trigger] has_name(effects@, e) <==> exists|j2: int, r2: int|
                j2 < j && #[trigger] row_declares(*tree, j2, r2, e),
            total == fn_items(*tree, j as int),
            effectful == effect_rows(*tree, j as int),
        decreases tree.modules@.len() - j,
    {
        proof {
            lemma_counts_mono(*tree, j as int + 1, tree.modules@.len() as int);
        }
        let ghost e0 = effects@;
        add_module_effects(tree, j, &mut effects);
        proof {
            assert forall|e: Seq<char>| #[trigger] has_name(effects@, e) <==> exists|j2: int, r2: int|
                j2 < j + 1 && #[trigger] row_declares(*tree, j2, r2, e) by {
                if exists|j2: int, r2: int| j2 < j + 1 && #[trigger] row_declares(*tree, j2, r2, e) {
                    let (j2, r2) = choose|j2: int, r2: int| j2 < j + 1 && #[trigger] row_declares(*tree, j2, r2, e);
                    if j2 < j {
                        assert(has_name(e0, e));
                    }
                }
            }
        }
        let m = &tree.modules[j];
        let mut k: usize = 0;
        while k < m.items.len()
            invariant
                j < tree.modules@.len(),
                *m == tree.modules@[j as int],
                k <= m.items@.len(),
                total == fn_items(*tree, j as int) + count_fn_items(m.items@.subrange(0, k as int)),
                fn_items(*tree, j as int + 1) <= usize::MAX,
            decreases m.items@.len() - k,
        {
            proof {
                assert(m.items@.subrange(0, k as int + 1).drop_last() =~= m.items@.subrange(0, k as int));
                lemma_count_fn_items_prefix(m.items@, k as int + 1);
            }
            match m.items[k].kind {
                DocItemKind::Fn => {
                    total = total + 1;
                },
                _ => {},
            }
            k = k + 1;
        }
        assert(m.items@.subrange(0, m.items@.len() as int) =~= m.items@);
        effectful = effectful + m.effect_matrix.len();
        j = j + 1;
    }
    let mut by_effect: Vec<EffectEntry> = Vec::new();
    let mut i: usize = 0;
    while i < effects.len()
        invariant
            i <= effects@.len(),
            by_effect@.len() == i,
            forall|i2: int| 0 <= i2 < i ==> (#[trigger] by_effect@[i2]).effect@ == effects@[i2]@
                && sorted_names(by_effect@[i2].fns@)
                && forall|q: Seq<char>| #[trigger] has_name(by_effect@[i2].fns@, q) <==> contributes(*tree, effects@[i2]@, q),
        decreases effects@.len() - i,
    {
        let fns = effect_contributors(tree, effects[i].as_str());
        by_effect.push(EffectEntry { effect: String::from_str(effects[i].as_str()), fns });
        i = i + 1;
    }
    proof {
        assert forall|e: Seq<char>| #[trigger] has_name(effects@, e) <==> declared_effect(*tree, e) by {
            if declared_effect(*tree, e) {
                let (j2, r2) = choose|j2: int, r2: int| #[trigger] row_declares(*tree, j2, r2, e);
                assert(j2 < tree.modules@.len());
            }
        }
    }
    EffectSurface { effects, by_effect, total_public_fns: total, effectful_fns: effectful }
}

proof fn lemma_count_fn_items_prefix(items: Seq<DocItem>, k: int)
    requires
        0 <= k <= items.len(),
    ensures
        count_fn_items(items.subrange(0, k)) <= count_fn_items(items),
    decreases items.len() - k,
{
    if k < items.len() {
        lemma_count_fn_items_prefix(items, k + 1);
        assert(items.subrange(0, k + 1).drop_last() =~= items.subrange(0, k));
    } else {
        assert(items.subrange(0, k) =~= items);
    }
}

proof fn lemma_counts_mono(t: DocTree, a: int, b: int)
    requires
        0 <= a <= b <= t.modules@.len(),
    ensures
        fn_items(t, a) <= fn_items(t, b),
        effect_rows(t, a) <= effect_rows(t, b),
    decreases b - a,
{
    if a < b {
        lemma_counts_mono(t, a, b - 1);
    }
}

/// How the effect surface changed between two versions.
#[derive(Debug)]
pub struct EffectDiff {
    /// Effects of the new surface that the old one lacks, sorted, each once.
    pub added: Vec<String>,
    /// Effects of the old surface that the new one lacks, sorted, each once.
    pub removed: Vec<String>,
}

impl EffectDiff {
    /// The surface did not change.
    pub fn is_empty(&self) -> (r: bool)
        ensures
            r == (self.added@.len() == 0 && self.removed@.len() == 0),
    {
        self.added.len() == 0 && self.removed.len() == 0
    }
}

/// The names of `a` that `b` lacks, sorted, each once.
fn missing_from(a: &Vec<String>, b: &Vec<String>) -> (r: Vec<String>)
    ensures
        sorted_names(r@),
        forall|x: Seq<char>| #[trigger] has_name(r@, x) <==> has_name(a@, x) && !has_name(b@, x),
{
    let mut r: Vec<String> = Vec::new();
    proof {
        assert(names_view(Seq::<String>::empty()) =~= Seq::<Seq<char>>::empty());
    }
    let mut i: usize = 0;
    while i < a.len()
        invariant
            i <= a@.len(),
            sorted_names(r@),
            forall|x: Seq<char>| #[trigger] has_name(r@, x) <==> has_name(a@.subrange(0, i as int), x) && !has_name(b@, x),
        decreases a@.len() - i,
    {
        let keep = !contains_name(b, a[i].as_str());
        if keep {
            insert_sorted(&mut r, a[i].as_str());
        }
        proof {
            assert forall|x: Seq<char>| #[trigger] has_name(a@.subrange(0, i as int + 1), x)
                <==> has_name(a@.subrange(0, i as int), x) || x == a@[i as int]@ by {
                let s1 = a@.subrange(0, i as int + 1);
                let s0 = a@.subrange(0, i as int);
                if has_name(s1, x) {
                    let k = choose|k: int| 0 <= k < names_view(s1).len() && names_view(s1)[k] == x;
                    if k < i { assert(names_view(s0)[k] == x); }
                }
                if has_name(s0, x) {
                    let k = choose|k: int| 0 <= k < names_view(s0).len() && names_view(s0)[k] == x;
                    assert(names_view(s1)[k] == x);
                }
                if x == a@[i as int]@ {
                    assert(names_view(s1)[i as int] == x);
                }
            }
        }
        i = i + 1;
    }
    assert(a@.subrange(0, a@.len() as int) =~= a@);
    r
}

/// The effects added and removed going from `old` to `new`.
pub fn diff(old: &EffectSurface, new: &EffectSurface) -> (d: EffectDiff)
    ensures
        is_diff(old.effects@, new.effects@, d),
        sorted_names(d.added@),
        sorted_names(d.removed@),
        forall|x: Seq<char>| #[trigger] has_name(d.added@, x) <==> has_name(new.effects@, x) && !has_name(old.effects@, x),
        forall|x: Seq<char>| #[trigger] has_name(d.removed@, x) <==> has_name(old.effects@, x) && !has_name(new.effects@, x),
{
    EffectDiff { added: missing_from(&new.effects, &old.effects), removed: missing_from(&old.effects, &new.effects) }
}

/// What `diff` states of its result.
pub open spec fn is_diff(old: Seq<String>, new: Seq<String>, d: EffectDiff) -> bool {
    &&& sorted_names(d.added@)
    &&& sorted_names(d.removed@)
    &&& forall|x: Seq<char>| #[trigger] has_name(d.added@, x) <==> has_name(new, x) && !has_name(old, x)
    &&& forall|x: Seq<char>| #[trigger] has_name(d.removed@, x) <==> has_name(old, x) && !has_name(new, x)
}

proof fn lemma_sorted_increasing(v: Seq<String>)
    requires
        sorted_names(v),
    ensures
        increasing(names_view(v), name_lt()),
{
    assert forall|i: int| 0 <= i < names_view(v).len() - 1 implies #[trigger] (name_lt())(names_view(v)[i], names_view(v)[i + 1]) by {
        assert(seq_lt(v[i]@, v[i + 1]@));
    }
}

/// Going back undoes a change: the effects added going from `a` to `b`
/// are those removed going from `b` to `a`, and the other way round.
pub proof fn lemma_diff_reverses(a: Seq<String>, b: Seq<String>, d1: EffectDiff, d2: EffectDiff)
    requires
        is_diff(a, b, d1),
        is_diff(b, a, d2),
    ensures
        names_view(d1.added@) == names_view(d2.removed@),
        names_view(d1.removed@) == names_view(d2.added@),
{
    lemma_name_order();
    lemma_sorted_increasing(d1.added@);
    lemma_sorted_increasing(d1.removed@);
    lemma_sorted_increasing(d2.added@);
    lemma_sorted_increasing(d2.removed@);
    assert(names_view(d1.added@).to_set() =~= names_view(d2.removed@).to_set()) by {
        assert forall|x: Seq<char>| names_view(d1.added@).contains(x) <==> names_view(d2.removed@).contains(x) by {
            assert(has_name(d1.added@, x) == names_view(d1.added@).contains(x));
            assert(has_name(d2.removed@, x) == names_view(d2.removed@).contains(x));
        }
    }
    assert(names_view(d1.removed@).to_set() =~= names_view(d2.added@).to_set()) by {
        assert forall|x: Seq<char>| names_view(d1.removed@).contains(x) <==> names_view(d2.added@).contains(x) by {
            assert(has_name(d1.removed@, x) == names_view(d1.removed@).contains(x));
            assert(has_name(d2.added@, x) == names_view(d2.added@).contains(x));
        }
    }
    lemma_increasing_unique(names_view(d1.added@), names_view(d2.removed@), name_lt());
    lemma_increasing_unique(names_view(d1.removed@), names_view(d2.added@), name_lt());
}


/// `s` lists exactly the effects that the public functions of `t` declare,
/// with one entry of contributors per effect.
pub open spec fn is_surface_of(t: DocTree, s: EffectSurface) -> bool {
    &&& forall|e: Seq<char>| #[trigger] has_name(s.effects@, e) <==> declared_effect(t, e)
    &&& s.by_effect@.len() == s.effects@.len()
}

/// A package's surface is pure exactly when none of its public functions
/// declares an effect, and then it has no contributor entries either.
pub proof fn lemma_pure_iff_no_effect_declared(t: DocTree, s: EffectSurface)
    requires
        is_surface_of(t, s),
    ensures
        (s.effects@.len() == 0) <==> (forall|j: int, r: int|
            0 <= j < t.modules@.len() && 0 <= r < t.modules@[j].effect_matrix@.len()
                ==> (#[trigger] t.modules@[j].effect_matrix@[r]).effects@.len() == 0),
        (s.effects@.len() == 0) <==> (s.by_effect@.len() == 0),
{
    if s.effects@.len() == 0 {
        assert forall|j: int, r: int|
            0 <= j < t.modules@.len() && 0 <= r < t.modules@[j].effect_matrix@.len()
                implies (#[trigger] t.modules@[j].effect_matrix@[r]).effects@.len() == 0 by {
            let fx = t.modules@[j].effect_matrix@[r].effects@;
            if fx.len() > 0 {
                let e = fx[0]@;
                assert(names_view(fx)[0] == e);
                assert(has_name(fx, e));
                assert(row_declares(t, j, r, e));
                assert(declared_effect(t, e));
                assert(has_name(s.effects@, e));
                assert(names_view(s.effects@).len() == 0);
            }
        }
    } else {
        let e = s.effects@[0]@;
        assert(names_view(s.effects@)[0] == e);
        assert(has_name(s.effects@, e));
        assert(declared_effect(t, e));
        let (j, r) = choose|j: int, r: int| #[trigger] row_declares(t, j, r, e);
        assert(row_declares(t, j, r, e));
        let fx = t.modules@[j].effect_matrix@[r].effects@;
        assert(has_name(fx, e));
        assert(names_view(fx).len() > 0);
        assert(t.modules@[j].effect_matrix@[r].effects@.len() > 0);
    }
}

} // verus!
