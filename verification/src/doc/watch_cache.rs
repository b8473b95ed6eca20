//! The parse cache of watch mode: a parsed module per source file, kept
//! while the file's modification time stays the same.
//!
//! Reading files and their times and parsing are left to the caller, which
//! asks `lookup` what to do and hands the result back with `store`.

use vstd::prelude::*;
use std::sync::Arc;
use crate::ast::Module;
use crate::text::{push_str, str_eq};

verus! {

/// What `lookup` found for a file.
#[derive(Clone, Copy, Debug, PartialEq, Eq, Structural)]
pub enum CacheOutcome {
    /// The file is not cached: parse it for the first time.
    Miss,
    /// The file is cached with the same modification time: reuse it.
    Hit,
    /// The file is cached with another modification time: parse it again.
    Stale,
}

/// What the caller learned of a file before asking the cache: its
/// modification time, or that it is not there.
#[derive(Clone, Copy, Debug)]
pub enum Probe {
    Missing,
    Modified(u128),
}

/// What `refresh` decided for a file.
#[derive(Debug)]
pub enum Refresh {
    /// The file is gone; its entry, if any, was dropped.
    Evicted,
    /// The file is unchanged: reuse this module.
    Reuse(Arc<Module>),
    /// The file must be parsed; `was_present` says whether an older parse
    /// was cached.
    Parse { was_present: bool },
}

/// Why a file could not be served.
#[derive(Debug)]
pub enum CacheError {
    Io(String),
    Parse(String),
}

impl CacheError {
    /// The error as a message.
    pub fn message(&self) -> (r: String)
        ensures
            r@ == match self {
                CacheError::Io(m) => "I/O error: "@ + m@,
                CacheError::Parse(m) => "Parse error: "@ + m@,
            },
    {
        let mut r = String::new();
        match self {
            CacheError::Io(m) => {
                push_str(&mut r, "I/O error: ");
                push_str(&mut r, m.as_str());
            },
            CacheError::Parse(m) => {
                push_str(&mut r, "Parse error: ");
                push_str(&mut r, m.as_str());
            },
        }
        r
    }
}

/// One cached file.
#[derive(Debug)]
struct CacheEntry {
    path: String,
    mtime: u128,
    module: Arc<Module>,
}

/// Parsed modules by file path, with the modification time they were
/// parsed at.
#[derive(Debug)]
pub struct WatchCache {
    entries: Vec<CacheEntry>,
}

spec fn entries_view(es: Seq<CacheEntry>) -> Map<Seq<char>, (u128, Arc<Module>)>
    decreases es.len(),
{
    if es.len() == 0 {
        Map::empty()
    } else {
        entries_view(es.drop_last()).insert(es.last().path@, (es.last().mtime, es.last().module))
    }
}

spec fn paths_distinct(es: Seq<CacheEntry>) -> bool {
    forall|i: int, j: int| 0 <= i < es.len() && 0 <= j < es.len() && i != j ==> #[trigger] es[i].path@ != #[trigger] es[j].path@
}

proof fn lemma_view_lookup(es: Seq<CacheEntry>, i: int)
    requires
        paths_distinct(es),
        0 <= i < es.len(),
    ensures
        entries_view(es).contains_key(es[i].path@),
        entries_view(es)[es[i].path@] == (es[i].mtime, es[i].module),
    decreases es.len(),
{
    if i < es.len() - 1 {
        assert(es.drop_last()[i] == es[i]);
        lemma_view_lookup(es.drop_last(), i);
        assert(es.last().path@ != es[i].path@);
    }
}

proof fn lemma_view_absent(es: Seq<CacheEntry>, p: Seq<char>)
    requires
        forall|i: int| 0 <= i < es.len() ==> es[i].path@ != p,
    ensures
        !entries_view(es).contains_key(p),
    decreases es.len(),
{
    if es.len() > 0 {
        lemma_view_absent(es.drop_last(), p);
    }
}

proof fn lemma_view_finite_len(es: Seq<CacheEntry>)
    requires
        paths_distinct(es),
    ensures
        entries_view(es).dom().finite(),
        entries_view(es).dom().len() == es.len(),
    decreases es.len(),
{
    if es.len() > 0 {
        let d = es.drop_last();
        assert(paths_distinct(d)) by {
            assert forall|i: int, j: int| 0 <= i < d.len() && 0 <= j < d.len() && i != j implies #[trigger] d[i].path@ != #[trigger] d[j].path@ by {
                assert(d[i] == es[i] && d[j] == es[j]);
            }
        }
        lemma_view_finite_len(d);
        assert forall|i: int| 0 <= i < d.len() implies d[i].path@ != es.last().path@ by {
            assert(d[i] == es[i]);
        }
        lemma_view_absent(d, es.last().path@);
    }
}

proof fn lemma_view_remove(es: Seq<CacheEntry>, k: int)
    requires
        paths_distinct(es),
        0 <= k < es.len(),
    ensures
        entries_view(es.remove(k)) == entries_view(es).remove(es[k].path@),
        paths_distinct(es.remove(k)),
{
    let r = es.remove(k);
    assert(paths_distinct(r)) by {
        assert forall|i: int, j: int| 0 <= i < r.len() && 0 <= j < r.len() && i != j implies #[trigger] r[i].path@ != #[trigger] r[j].path@ by {
            let i2 = if i < k { i } else { i + 1 };
            let j2 = if j < k { j } else { j + 1 };
            assert(r[i] == es[i2] && r[j] == es[j2]);
        }
    }
    let a = entries_view(r);
    let b = entries_view(es).remove(es[k].path@);
    assert forall|p: Seq<char>| #[trigger] a.contains_key(p) <==> b.contains_key(p) by {
        if a.contains_key(p) {
            lemma_view_keys(r, p);
            let i = choose|i: int| 0 <= i < r.len() && r[i].path@ == p;
            let i2 = if i < k { i } else { i + 1 };
            assert(r[i] == es[i2]);
            lemma_view_lookup(es, i2);
        }
        if b.contains_key(p) {
            lemma_view_keys(es, p);
            let i = choose|i: int| 0 <= i < es.len() && es[i].path@ == p;
            assert(i != k);
            let i2 = if i < k { i } else { i - 1 };
            assert(r[i2] == es[i]);
            lemma_view_lookup(r, i2);
        }
    }
    assert forall|p: Seq<char>| #[trigger] a.contains_key(p) implies a[p] == b[p] by {
        lemma_view_keys(r, p);
        let i = choose|i: int| 0 <= i < r.len() && r[i].path@ == p;
        let i2 = if i < k { i } else { i + 1 };
        assert(r[i] == es[i2]);
        lemma_view_lookup(r, i);
        lemma_view_lookup(es, i2);
    }
    assert(a =~= b);
}

proof fn lemma_view_keys(es: Seq<CacheEntry>, p: Seq<char>)
    requires
        entries_view(es).contains_key(p),
    ensures
        exists|i: int| 0 <= i < es.len() && es[i].path@ == p,
    decreases es.len(),
{
    if es.last().path@ != p {
        lemma_view_keys(es.drop_last(), p);
        let i = choose|i: int| 0 <= i < es.drop_last().len() && es.drop_last()[i].path@ == p;
        assert(es[i] == es.drop_last()[i]);
    }
}

impl WatchCache {
    #[verifier::type_invariant]
    spec fn distinct(self) -> bool {
        paths_distinct(self.entries@)
    }

    /// The cached files: path to modification time and parsed module.
    pub closed spec fn view(&self) -> Map<Seq<char>, (u128, Arc<Module>)> {
        entries_view(self.entries@)
    }

    /// An empty cache.
    pub fn new() -> (c: Self)
        ensures
            c@ == Map::<Seq<char>, (u128, Arc<Module>)>::empty(),
    {
        WatchCache { entries: Vec::new() }
    }

    /// Forgets every file.
    pub fn clear(&mut self)
        ensures
            final(self)@ == Map::<Seq<char>, (u128, Arc<Module>)>::empty(),
    {
        self.entries = Vec::new();
    }

    fn position(&self, path: &str) -> (r: Option<usize>)
        ensures
            match r {
                Some(i) => i < self.entries@.len() && self.entries@[i as int].path@ == path@,
                None => forall|i: int| 0 <= i < self.entries@.len() ==> self.entries@[i].path@ != path@,
            },
    {
        let mut i: usize = 0;
        while i < self.entries.len()
            invariant
                i <= self.entries@.len(),
                forall|k: int| 0 <= k < i ==> self.entries@[k].path@ != path@,
            decreases self.entries@.len() - i,
        {
            if str_eq(self.entries[i].path.as_str(), path) {
                return Some(i);
            }
            i = i + 1;
        }
        None
    }

    /// Forgets one file; says whether it was cached.
    pub fn evict(&mut self, path: &str) -> (r: bool)
        ensures
            r == old(self)@.contains_key(path@),
            final(self)@ == old(self)@.remove(path@),
    {
        proof { use_type_invariant(&*self); }
        match self.position(path) {
            Some(i) => {
                proof {
                    lemma_view_lookup(self.entries@, i as int);
                    lemma_view_remove(self.entries@, i as int);
                }
                let mut es: Vec<CacheEntry> = Vec::new();
                std::mem::swap(&mut es, &mut self.entries);
                es.remove(i);
                self.entries = es;
                true
            },
            None => {
                proof {
                    lemma_view_absent(self.entries@, path@);
                    assert(self@.remove(path@) =~= self@);
                }
                false
            },
        }
    }

    /// The number of cached files.
    pub fn len(&self) -> (n: usize)
        ensures
            self@.dom().finite(),
            n == self@.dom().len(),
    {
        proof {
            use_type_invariant(self);
            lemma_view_finite_len(self.entries@);
        }
        self.entries.len()
    }

    /// No file is cached.
    pub fn is_empty(&self) -> (r: bool)
        ensures
            r == (self@.dom().len() == 0),
    {
        proof {
            use_type_invariant(self);
            lemma_view_finite_len(self.entries@);
        }
        self.entries.len() == 0
    }

    /// What to do for a file with the given modification time: reuse it
    /// when cached with that time, parse it again when cached with another,
    /// parse it for the first time when not cached.
    pub fn lookup(&self, path: &str, mtime: u128) -> (r: CacheOutcome)
        ensures
            r == match self@.get(path@) {
                None => CacheOutcome::Miss,
                Some(e) => if e.0 == mtime { CacheOutcome::Hit } else { CacheOutcome::Stale },
            },
    {
        proof { use_type_invariant(self); }
        match self.position(path) {
            Some(i) => {
                proof { lemma_view_lookup(self.entries@, i as int); }
                if self.entries[i].mtime == mtime {
                    CacheOutcome::Hit
                } else {
                    CacheOutcome::Stale
                }
            },
            None => {
                proof { lemma_view_absent(self.entries@, path@); }
                CacheOutcome::Miss
            },
        }
    }

    /// The cached module of a file, if any.
    pub fn cached(&self, path: &str) -> (r: Option<Arc<Module>>)
        ensures
            r == match self@.get(path@) {
                None => None,
                Some(e) => Some(e.1),
            },
    {
        proof { use_type_invariant(self); }
        match self.position(path) {
            Some(i) => {
                proof { lemma_view_lookup(self.entries@, i as int); }
                Some(Arc::clone(&self.entries[i].module))
            },
            None => {
                proof { lemma_view_absent(self.entries@, path@); }
                None
            },
        }
    }

    /// The first half of serving a file in watch mode: a missing file is
    /// evicted; a file cached with the probed modification time is reused;
    /// any other file is to be parsed, and the cache is left as it was.
    pub fn refresh(&mut self, path: &str, probe: Probe) -> (r: Refresh)
        ensures
            match probe {
                Probe::Missing => r is Evicted && final(self)@ == old(self)@.remove(path@),
                Probe::Modified(t) => final(self)@ == old(self)@ && match old(self)@.get(path@) {
                    Some(e) => if e.0 == t {
                        r == Refresh::Reuse(e.1)
                    } else {
                        r == Refresh::Parse { was_present: true }
                    },
                    None => r == Refresh::Parse { was_present: false },
                },
            },
    {
        match probe {
            Probe::Missing => {
                let _ = self.evict(path);
                Refresh::Evicted
            },
            Probe::Modified(t) => {
                match self.lookup(path, t) {
                    CacheOutcome::Hit => {
                        match self.cached(path) {
                            Some(m) => Refresh::Reuse(m),
                            None => Refresh::Parse { was_present: false },
                        }
                    },
                    CacheOutcome::Stale => Refresh::Parse { was_present: true },
                    CacheOutcome::Miss => Refresh::Parse { was_present: false },
                }
            },
        }
    }

    /// The second half: records the module parsed after `refresh` asked
    /// for it, and says whether it replaced an older parse.
    pub fn record_parse(&mut self, path: &str, mtime: u128, module: Arc<Module>, was_present: bool) -> (r: CacheOutcome)
        ensures
            final(self)@ == old(self)@.insert(path@, (mtime, module)),
            r == (if was_present { CacheOutcome::Stale } else { CacheOutcome::Miss }),
    {
        self.store(path, mtime, module);
        if was_present {
            CacheOutcome::Stale
        } else {
            CacheOutcome::Miss
        }
    }

    /// Records a file's freshly parsed module and modification time.
    pub fn store(&mut self, path: &str, mtime: u128, module: Arc<Module>)
        ensures
            final(self)@ == old(self)@.insert(path@, (mtime, module)),
    {
        proof { use_type_invariant(&*self); }
        let ghost m0 = self@;
        let mut es: Vec<CacheEntry> = Vec::new();
        std::mem::swap(&mut es, &mut self.entries);
        match position_in(&es, path) {
            Some(i) => {
                proof { lemma_view_remove(es@, i as int); }
                es.remove(i);
            },
            None => {
                proof {
                    lemma_view_absent(es@, path@);
                    assert(entries_view(es@).remove(path@) =~= entries_view(es@));
                }
            },
        }
        let ghost before = es@;
        es.push(CacheEntry { path: String::from_str(path), mtime, module });
        proof {
            assert(es@.drop_last() =~= before);
            assert forall|i: int| 0 <= i < before.len() implies before[i].path@ != path@ by {
                if before[i].path@ == path@ {
                    lemma_view_lookup(before, i);
                }
            }
            assert(paths_distinct(es@)) by {
                assert forall|i: int, j: int| 0 <= i < es@.len() && 0 <= j < es@.len() && i != j implies #[trigger] es@[i].path@ != #[trigger] es@[j].path@ by {
                    if i < before.len() && j < before.len() {
                        assert(es@[i] == before[i] && es@[j] == before[j]);
                    } else if i < before.len() {
                        assert(es@[i] == before[i]);
                    } else {
                        assert(es@[j] == before[j]);
                    }
                }
            }
            assert(entries_view(es@) =~= m0.insert(path@, (mtime, module)));
        }
        self.entries = es;
    }
}

fn position_in(es: &Vec<CacheEntry>, path: &str) -> (r: Option<usize>)
    ensures
        match r {
            Some(i) => i < es@.len() && es@[i as int].path@ == path@,
            None => forall|i: int| 0 <= i < es@.len() ==> es@[i].path@ != path@,
        },
{
    let mut i: usize = 0;
    while i < es.len()
        invariant
            i <= es@.len(),
            forall|k: int| 0 <= k < i ==> es@[k].path@ != path@,
        decreases es@.len() - i,
    {
        if str_eq(es[i].path.as_str(), path) {
            return Some(i);
        }
        i = i + 1;
    }
    None
}

} // verus!
