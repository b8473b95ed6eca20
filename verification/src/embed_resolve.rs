//! Path checks and the glob matcher used by the `embed` / `embed_dir`
//! intrinsics.
//!
//! The glob language works on characters:
//! - `*`  — zero or more characters, none of them `/`;
//! - `**` — zero or more characters, `/` included;
//! - `?`  — exactly one character that is not `/`;
//! - any other character stands for itself (an explicit `/` too).
//!
//! The whole pattern must cover the whole text.

use vstd::prelude::*;
use crate::field_cache::ipa::names_view;
use crate::field_cache::scc_cache::insert_name;
use crate::order::{increasing, name_lt};
use crate::text::{chars_of, push_str};

verus! {

/// One parsed element of a glob pattern.
#[derive(Clone, Copy, PartialEq, Eq, Debug)]
pub enum GlobAtom {
    /// A literal character.
    Lit(char),
    /// `?`: exactly one character other than `/`.
    Any,
    /// `*`: any run of characters without `/`.
    Star,
    /// `**`: any run of characters.
    StarStar,
}

/// The atom that a non-empty pattern starts with; `**` is taken greedily.
pub open spec fn lead_atom(p: Seq<char>) -> GlobAtom {
    if p[0] == '*' && p.len() > 1 && p[1] == '*' {
        GlobAtom::StarStar
    } else if p[0] == '*' {
        GlobAtom::Star
    } else if p[0] == '?' {
        GlobAtom::Any
    } else {
        GlobAtom::Lit(p[0])
    }
}

/// How many characters the leading atom of a non-empty pattern takes.
pub open spec fn lead_width(p: Seq<char>) -> int {
    if p[0] == '*' && p.len() > 1 && p[1] == '*' { 2 } else { 1 }
}

/// The atoms of a pattern, read left to right.
pub open spec fn spec_tokenize(p: Seq<char>) -> Seq<GlobAtom>
    decreases p.len(),
{
    if p.len() == 0 {
        Seq::empty()
    } else {
        seq![lead_atom(p)] + spec_tokenize(p.subrange(lead_width(p), p.len() as int))
    }
}

/// No character of `t[from..to]` is a `/`.
pub open spec fn no_slash_between(t: Seq<char>, from: int, to: int) -> bool {
    forall|i: int| from <= i < to ==> t[i] != '/'
}

/// The first `n` atoms of `a` match the first `m` characters of `t` as a whole.
pub open spec fn glob_prefix_matches(a: Seq<GlobAtom>, n: int, t: Seq<char>, m: int) -> bool
    decreases n, m,
{
    if n <= 0 {
        m == 0
    } else {
        match a[n - 1] {
            GlobAtom::Lit(c) => m > 0 && t[m - 1] == c && glob_prefix_matches(a, n - 1, t, m - 1),
            GlobAtom::Any => m > 0 && t[m - 1] != '/' && glob_prefix_matches(a, n - 1, t, m - 1),
            // `*` matches nothing, or one more non-`/` character after a match.
            GlobAtom::Star => glob_prefix_matches(a, n - 1, t, m) || (m > 0 && t[m - 1] != '/'
                && glob_prefix_matches(a, n, t, m - 1)),
            // `**` matches nothing, or one more character of any kind after a match.
            GlobAtom::StarStar => glob_prefix_matches(a, n - 1, t, m) || (m > 0
                && glob_prefix_matches(a, n, t, m - 1)),
        }
    }
}

/// The atoms `a` match all of `t`.
pub open spec fn glob_matches(a: Seq<GlobAtom>, t: Seq<char>) -> bool {
    glob_prefix_matches(a, a.len() as int, t, t.len() as int)
}

/// A pattern matches a text when its atoms match the text's characters.
pub open spec fn glob_pattern_matches(pattern: Seq<char>, text: Seq<char>) -> bool {
    glob_matches(spec_tokenize(pattern), text)
}

/// Splits a glob pattern into atoms.
pub fn glob_tokenize(pattern: &str) -> (atoms: Vec<GlobAtom>)
    ensures
        atoms@ == spec_tokenize(pattern@),
{
    let chars = chars_of(pattern);
    let mut atoms: Vec<GlobAtom> = Vec::new();
    let mut i: usize = 0;
    assert(chars@.subrange(0, chars@.len() as int) =~= chars@);
    while i < chars.len()
        invariant
            chars@ == pattern@,
            i <= chars@.len(),
            atoms@ + spec_tokenize(chars@.subrange(i as int, chars@.len() as int))
                == spec_tokenize(pattern@),
        decreases chars@.len() - i,
    {
        let ghost rest = chars@.subrange(i as int, chars@.len() as int);
        let ghost old_atoms = atoms@;
        let c = chars[i];
        let (atom, step) = if c == '*' {
            if i + 1 < chars.len() && chars[i + 1] == '*' {
                (GlobAtom::StarStar, 2usize)
            } else {
                (GlobAtom::Star, 1usize)
            }
        } else if c == '?' {
            (GlobAtom::Any, 1usize)
        } else {
            (GlobAtom::Lit(c), 1usize)
        };
        proof {
            let rest2 = rest.subrange(step as int, rest.len() as int);
            assert(rest2 =~= chars@.subrange(i + step, chars@.len() as int));
            assert(rest[0] == c);
            assert(rest.len() > 1 ==> rest[1] == chars@[i + 1]);
            assert(lead_atom(rest) == atom);
            assert(lead_width(rest) == step);
            assert(spec_tokenize(rest) == seq![atom] + spec_tokenize(rest2));
        }
        atoms.push(atom);
        i = i + step;
        proof {
            let rest2 = chars@.subrange(i as int, chars@.len() as int);
            assert(atoms@ == old_atoms.push(atom));
            assert(atoms@ + spec_tokenize(rest2) =~= old_atoms + (seq![atom] + spec_tokenize(rest2)));
        }
    }
    assert(spec_tokenize(chars@.subrange(i as int, chars@.len() as int)) =~= Seq::<GlobAtom>::empty());
    assert(atoms@ + Seq::<GlobAtom>::empty() =~= atoms@);
    atoms
}

/// A `*` at position `n - 1` covers exactly the `/`-free tails: the first `n`
/// atoms match `t[..m]` if and only if the first `n - 1` atoms match some
/// `t[..k]` and `t[k..m]` holds no `/`.
pub proof fn lemma_star_covers_slash_free_tail(a: Seq<GlobAtom>, n: int, t: Seq<char>, m: int)
    requires
        1 <= n <= a.len(),
        a[n - 1] == GlobAtom::Star,
        0 <= m <= t.len(),
    ensures
        glob_prefix_matches(a, n, t, m) <==> exists|k: int|
            0 <= k <= m && no_slash_between(t, k, m) && #[trigger] glob_prefix_matches(a, n - 1, t, k),
    decreases m,
{
    if m > 0 {
        lemma_star_covers_slash_free_tail(a, n, t, m - 1);
    }
    if glob_prefix_matches(a, n, t, m) {
        if glob_prefix_matches(a, n - 1, t, m) {
            assert(no_slash_between(t, m, m));
        } else {
            let k = choose|k: int|
                0 <= k <= m - 1 && no_slash_between(t, k, m - 1) && #[trigger] glob_prefix_matches(a, n - 1, t, k);
            assert(no_slash_between(t, k, m));
        }
    }
    if exists|k: int| 0 <= k <= m && no_slash_between(t, k, m) && #[trigger] glob_prefix_matches(a, n - 1, t, k) {
        let k = choose|k: int|
            0 <= k <= m && no_slash_between(t, k, m) && #[trigger] glob_prefix_matches(a, n - 1, t, k);
        if k < m {
            assert(no_slash_between(t, k, m - 1));
        }
    }
}

/// A `**` at position `n - 1` covers any tail: the first `n` atoms match
/// `t[..m]` if and only if the first `n - 1` atoms match some `t[..k]`.
pub proof fn lemma_star_star_covers_any_tail(a: Seq<GlobAtom>, n: int, t: Seq<char>, m: int)
    requires
        1 <= n <= a.len(),
        a[n - 1] == GlobAtom::StarStar,
        0 <= m <= t.len(),
    ensures
        glob_prefix_matches(a, n, t, m) <==> exists|k: int|
            0 <= k <= m && #[trigger] glob_prefix_matches(a, n - 1, t, k),
    decreases m,
{
    if m > 0 {
        lemma_star_star_covers_any_tail(a, n, t, m - 1);
    }
    if glob_prefix_matches(a, n, t, m) {
        if glob_prefix_matches(a, n - 1, t, m) {
        } else {
            let k = choose|k: int| 0 <= k <= m - 1 && #[trigger] glob_prefix_matches(a, n - 1, t, k);
        }
    }
    if exists|k: int| 0 <= k <= m && #[trigger] glob_prefix_matches(a, n - 1, t, k) {
        let k = choose|k: int| 0 <= k <= m && #[trigger] glob_prefix_matches(a, n - 1, t, k);
        if k < m {
            assert(exists|k2: int| 0 <= k2 <= m - 1 && #[trigger] glob_prefix_matches(a, n - 1, t, k2));
        }
    }
}

/// Whether the relative POSIX path `text` is matched by `pattern`.
pub fn glob_match_posix(pattern: &str, text: &str) -> (r: bool)
    ensures
        r == glob_pattern_matches(pattern@, text@),
{
    let atoms = glob_tokenize(pattern);
    let t = chars_of(text);
    let n = t.len();
    let ghost at = atoms@;
    let mut dp: Vec<bool> = Vec::new();
    dp.push(true);
    let mut j: usize = 0;
    while j < n
        invariant
            n == t@.len(),
            j <= n,
            dp@.len() == j + 1,
            forall|k: int| 0 <= k <= j ==> dp@[k] == glob_prefix_matches(at, 0, t@, k),
        decreases n - j,
    {
        dp.push(false);
        j = j + 1;
    }
    let mut i: usize = 0;
    while i < atoms.len()
        invariant
            n == t@.len(),
            at == atoms@,
            i <= atoms@.len(),
            dp@.len() == n + 1,
            forall|k: int| 0 <= k <= n ==> dp@[k] == glob_prefix_matches(at, i as int, t@, k),
        decreases atoms@.len() - i,
    {
        let atom = atoms[i];
        let mut new_dp: Vec<bool> = Vec::new();
        match atom {
            GlobAtom::Lit(_) | GlobAtom::Any => {
                new_dp.push(false);
            },
            GlobAtom::Star | GlobAtom::StarStar => {
                new_dp.push(dp[0]);
            },
        }
        let mut p: usize = 0;
        while p < n
            invariant
                n == t@.len(),
                at == atoms@,
                i < atoms@.len(),
                atom == at[i as int],
                dp@.len() == n + 1,
                p <= n,
                new_dp@.len() == p + 1,
                forall|k: int| 0 <= k <= n ==> dp@[k] == glob_prefix_matches(at, i as int, t@, k),
                forall|k: int| 0 <= k <= p ==> new_dp@[k] == glob_prefix_matches(at, i + 1, t@, k),
            decreases n - p,
        {
            let jj = p + 1;
            let prev = new_dp[p];
            let cur = t[p];
            let v = match atom {
                GlobAtom::Lit(c) => dp[p] && cur == c,
                GlobAtom::Any => dp[p] && cur != '/',
                GlobAtom::Star => dp[jj] || (cur != '/' && prev),
                GlobAtom::StarStar => dp[jj] || prev,
            };
            new_dp.push(v);
            p = p + 1;
        }
        dp = new_dp;
        i = i + 1;
    }
    dp[n]
}

/// Whether `c` occurs in `s`.
pub fn contains_char(s: &str, c: char) -> (r: bool)
    ensures
        r == s@.contains(c),
{
    let v = chars_of(s);
    let mut i: usize = 0;
    while i < v.len()
        invariant
            v@ == s@,
            i <= v@.len(),
            forall|k: int| 0 <= k < i ==> v@[k] != c,
        decreases v@.len() - i,
    {
        if v[i] == c {
            assert(s@[i as int] == c);
            return true;
        }
        i = i + 1;
    }
    false
}

/// The diagnostic for a path argument of the intrinsic `intrinsic` that
/// holds a backslash.
pub open spec fn backslash_message(rel: Seq<char>, intrinsic: Seq<char>) -> Seq<char> {
    "[E_EMBED_PATH_BACKSLASH] the path argument of `"@ + intrinsic
        + "` must use POSIX `/` separators, not `\\` (`"@ + rel
        + "`) — paths are portable-source, independent of the compiling OS (D412-amendment, Plan 210)"@
}

/// A path argument must use `/` separators: a backslash anywhere in it is
/// reported, with the intrinsic's name and the path in the message.
pub fn check_path_backslash(rel: &str, intrinsic: &str) -> (r: Option<String>)
    ensures
        r is Some <==> rel@.contains('\\'),
        r matches Some(m) ==> m@ == backslash_message(rel@, intrinsic@),
{
    if contains_char(rel, '\\') {
        let mut m = String::new();
        push_str(&mut m, "[E_EMBED_PATH_BACKSLASH] the path argument of `");
        push_str(&mut m, intrinsic);
        push_str(&mut m, "` must use POSIX `/` separators, not `\\` (`");
        push_str(&mut m, rel);
        push_str(&mut m, "`) — paths are portable-source, independent of the compiling OS (D412-amendment, Plan 210)");
        proof {
            assert(m@ =~= backslash_message(rel@, intrinsic@));
        }
        Some(m)
    } else {
        None
    }
}

/// `path` passes the optional `glob` filter.
pub open spec fn passes_glob(glob: Option<Seq<char>>, path: Seq<char>) -> bool {
    match glob {
        Some(g) => glob_pattern_matches(g, path),
        None => true,
    }
}

/// The entries of an embedded directory: the relative POSIX paths of the
/// walk that pass `glob`, each once, in increasing order (character order,
/// which is the byte order of their UTF-8 text).
pub fn embed_dir_paths(listing: &Vec<String>, glob: Option<&str>) -> (r: Vec<String>)
    ensures
        increasing(names_view(r@), name_lt()),
        forall|p: Seq<char>| #[trigger] names_view(r@).contains(p) <==> names_view(listing@).contains(p)
            && passes_glob(match glob { Some(g) => Some(g@), None => None }, p),
{
    let ghost g = match glob { Some(g) => Some(g@), None => None::<Seq<char>> };
    let mut r: Vec<String> = Vec::new();
    let mut i: usize = 0;
    assert(names_view(r@) =~= Seq::<Seq<char>>::empty());
    while i < listing.len()
        invariant
            i <= listing@.len(),
            g == match glob { Some(g) => Some(g@), None => None::<Seq<char>> },
            increasing(names_view(r@), name_lt()),
            forall|p: Seq<char>| #[trigger] names_view(r@).contains(p) <==> names_view(listing@).take(i as int).contains(p)
                && passes_glob(g, p),
        decreases listing@.len() - i,
    {
        let keep = match glob {
            Some(pat) => glob_match_posix(pat, listing[i].as_str()),
            None => true,
        };
        let ghost r0 = names_view(r@);
        if keep {
            insert_name(&mut r, listing[i].as_str());
        }
        proof {
            let t0 = names_view(listing@).take(i as int);
            let t1 = names_view(listing@).take(i as int + 1);
            let x = listing@[i as int]@;
            assert(t1 =~= t0.push(x));
            assert forall|p: Seq<char>| #[trigger] t1.contains(p) <==> t0.contains(p) || p == x by {
                if t1.contains(p) {
                    let j = choose|j: int| 0 <= j < t1.len() && t1[j] == p;
                    if j < i {
                        assert(t0[j] == p);
                    }
                }
                if t0.contains(p) {
                    let j = choose|j: int| 0 <= j < t0.len() && t0[j] == p;
                    assert(t1[j] == p);
                }
                if p == x {
                    assert(t1[i as int] == p);
                }
            }
            assert(keep == passes_glob(g, x));
        }
        i = i + 1;
    }
    assert(names_view(listing@).take(listing@.len() as int) =~= names_view(listing@));
    r
}

/// More bytes than this in one embedded directory draw a warning.
pub const EMBED_DIR_LARGE_BYTES: u64 = 16777216;
/// More files than this in one embedded directory draw a warning.
pub const EMBED_DIR_LARGE_COUNT: usize = 4096;

/// The size warnings of an embedded directory of `count` files holding
/// `total_bytes` bytes: `(too large, empty)`.
pub fn embed_dir_warnings(count: usize, total_bytes: u64) -> (r: (bool, bool))
    ensures
        r.0 == (total_bytes > EMBED_DIR_LARGE_BYTES || count > EMBED_DIR_LARGE_COUNT),
        r.1 == (count == 0),
{
    (total_bytes > EMBED_DIR_LARGE_BYTES || count > EMBED_DIR_LARGE_COUNT, count == 0)
}

} // verus!
