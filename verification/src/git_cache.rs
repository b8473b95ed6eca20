//! Git dependencies: naming of the cache, the pins recorded in the lock
//! file, and the decisions taken while resolving a pin to a commit.
//!
//! The cache keeps a bare clone per repository, named by `repo_id`, and a
//! checkout per commit. Running git, touching the disk and reading the
//! environment are left to the caller: `resolve_git_dep` says whether a
//! remembered resolution answers the request, and `CommitResolver` says,
//! step by step, which git operation to run next and what its outcome
//! means, until a commit is found or the request fails.

use vstd::prelude::*;
use crate::hashing::{default_hash_str, std_string_hash};
use crate::keyed::KeyedMap;
use crate::text::{copy_str, push_char, push_str};

verus! {

/// Which revision of a repository a dependency asks for.
#[derive(Debug)]
pub enum GitPin {
    Rev(String),
    Tag(String),
    Branch(String),
    /// A version requirement over the repository's version tags.
    Version(String),
    /// The default branch.
    Default,
}

/// A dependency materialised in the cache.
#[derive(Debug)]
pub struct GitResolution {
    /// The directory of the checkout, at the commit.
    pub checkout: String,
    /// The full commit hash.
    pub commit: String,
}

impl GitResolution {
    /// A copy of the resolution.
    pub fn duplicate(&self) -> (r: Self)
        ensures
            r.checkout@ == self.checkout@,
            r.commit@ == self.commit@,
    {
        GitResolution { checkout: copy_str(self.checkout.as_str()), commit: copy_str(self.commit.as_str()) }
    }
}

/// Commits pinned by the lock file, by repository URL.
pub type LockTable = KeyedMap<String>;

/// Resolutions already made in this process, by request (see `memo_key`).
pub type ResolveMemo = KeyedMap<GitResolution>;

// ---------------------------------------------------------------------
// Repository ids.

/// `s` without the trailing characters `c`.
pub open spec fn trim_end_char(s: Seq<char>, c: char) -> Seq<char>
    decreases s.len(),
{
    if s.len() > 0 && s.last() == c {
        trim_end_char(s.drop_last(), c)
    } else {
        s
    }
}

pub open spec fn is_path_sep(c: char) -> bool {
    c == '/' || c == '\\'
}

/// The part of `s` after its last `/` or `\` (all of it when there is none).
pub open spec fn last_segment(s: Seq<char>) -> Seq<char>
    decreases s.len(),
{
    if s.len() == 0 {
        s
    } else if is_path_sep(s.last()) {
        Seq::empty()
    } else {
        last_segment(s.drop_last()).push(s.last())
    }
}

/// `s` ends with `.git`.
pub open spec fn ends_with_git(s: Seq<char>) -> bool {
    s.len() >= 4 && s[s.len() - 4] == '.' && s[s.len() - 3] == 'g' && s[s.len() - 2] == 'i' && s[s.len() - 1] == 't'
}

/// `s` without its trailing `.git` suffixes.
pub open spec fn strip_git(s: Seq<char>) -> Seq<char>
    decreases s.len(),
{
    if ends_with_git(s) {
        strip_git(s.subrange(0, s.len() - 4))
    } else {
        s
    }
}

pub open spec fn is_stem_char(c: char) -> bool {
    ('a' <= c && c <= 'z') || ('A' <= c && c <= 'Z') || ('0' <= c && c <= '9') || c == '_' || c == '-'
}

/// Every character that is not an ASCII letter, digit, `_` or `-` replaced
/// by `_`.
pub open spec fn sanitize_stem(s: Seq<char>) -> Seq<char> {
    s.map_values(|c: char| if is_stem_char(c) { c } else { '_' })
}

/// The readable part of a repository id: the last path segment of the URL
/// without `.git`, sanitised; `repo` when that is empty.
pub open spec fn url_stem(url: Seq<char>) -> Seq<char> {
    let t = sanitize_stem(strip_git(last_segment(trim_end_char(url, '/'))));
    if t.len() == 0 { seq!['r', 'e', 'p', 'o'] } else { t }
}

/// The lowercase hexadecimal digit of `d < 16`.
pub open spec fn hex_char(d: nat) -> char {
    if d == 0 { '0' } else if d == 1 { '1' } else if d == 2 { '2' } else if d == 3 { '3' }
    else if d == 4 { '4' } else if d == 5 { '5' } else if d == 6 { '6' } else if d == 7 { '7' }
    else if d == 8 { '8' } else if d == 9 { '9' } else if d == 10 { 'a' } else if d == 11 { 'b' }
    else if d == 12 { 'c' } else if d == 13 { 'd' } else if d == 14 { 'e' } else { 'f' }
}

/// The last `n` hexadecimal digits of `h`, most significant first.
pub open spec fn hex_digits(h: nat, n: nat) -> Seq<char>
    decreases n,
{
    if n == 0 {
        Seq::empty()
    } else {
        hex_digits(h / 16, (n - 1) as nat).push(hex_char(h % 16))
    }
}

/// The id of a repository: its stem, `-`, and the 16 hexadecimal digits of
/// the hash of its URL.
pub open spec fn repo_id_of(url: Seq<char>) -> Seq<char> {
    url_stem(url) + seq!['-'] + hex_digits(std_string_hash(url) as nat, 16)
}

fn hex_digit(d: u64) -> (c: char)
    requires
        d < 16,
    ensures
        c == hex_char(d as nat),
{
    match d {
        0 => '0',
        1 => '1',
        2 => '2',
        3 => '3',
        4 => '4',
        5 => '5',
        6 => '6',
        7 => '7',
        8 => '8',
        9 => '9',
        10 => 'a',
        11 => 'b',
        12 => 'c',
        13 => 'd',
        14 => 'e',
        _ => 'f',
    }
}

fn push_hex(s: &mut String, h: u64, n: u32)
    ensures
        final(s)@ == old(s)@ + hex_digits(h as nat, n as nat),
    decreases n,
{
    if n == 0 {
        assert(old(s)@ + hex_digits(h as nat, 0) =~= old(s)@);
        return;
    }
    push_hex(s, h / 16, n - 1);
    push_char(s, hex_digit(h % 16));
    assert(hex_digits(h as nat, n as nat) == hex_digits((h / 16) as nat, (n - 1) as nat).push(hex_char((h % 16) as nat)));
    assert(final(s)@ =~= old(s)@ + hex_digits(h as nat, n as nat));
}

/// The stem of a URL (see `url_stem`).
#[verifier::rlimit(40)]
fn stem_of(url: &str) -> (r: String)
    ensures
        r@ == url_stem(url@),
{
    let x = crate::text::chars_of(url);
    let mut end: usize = x.len();
    assert(url@.subrange(0, end as int) =~= url@);
    while end > 0 && x[end - 1] == '/'
        invariant
            x@ == url@,
            end <= x@.len(),
            trim_end_char(url@, '/') == trim_end_char(url@.subrange(0, end as int), '/'),
        decreases end,
    {
        proof {
            assert(url@.subrange(0, end as int).drop_last() =~= url@.subrange(0, end as int - 1));
        }
        end = end - 1;
    }
    let ghost trimmed = url@.subrange(0, end as int);
    assert(trim_end_char(trimmed, '/') == trimmed);
    let mut start: usize = end;
    while start > 0 && x[start - 1] != '/' && x[start - 1] != '\\'
        invariant
            x@ == url@,
            start <= end <= x@.len(),
            trimmed == url@.subrange(0, end as int),
            last_segment(trimmed) == last_segment(url@.subrange(0, start as int)) + url@.subrange(start as int, end as int),
        decreases start,
    {
        proof {
            let p = url@.subrange(0, start as int);
            assert(p.drop_last() =~= url@.subrange(0, start as int - 1));
            assert(last_segment(p) == last_segment(p.drop_last()).push(p.last()));
            assert(url@.subrange(start as int - 1, end as int) =~= seq![p.last()] + url@.subrange(start as int, end as int));
            assert(last_segment(p.drop_last()).push(p.last()) + url@.subrange(start as int, end as int)
                =~= last_segment(p.drop_last()) + url@.subrange(start as int - 1, end as int));
        }
        start = start - 1;
    }
    proof {
        let p = url@.subrange(0, start as int);
        if start > 0 {
            assert(is_path_sep(p.last()));
        }
        assert(last_segment(p) =~= Seq::<char>::empty());
        assert(last_segment(trimmed) =~= url@.subrange(start as int, end as int));
    }
    let mut stop: usize = end;
    while stop - start >= 4 && x[stop - 4] == '.' && x[stop - 3] == 'g' && x[stop - 2] == 'i' && x[stop - 1] == 't'
        invariant
            x@ == url@,
            start <= stop <= end <= x@.len(),
            strip_git(url@.subrange(start as int, end as int)) == strip_git(url@.subrange(start as int, stop as int)),
        decreases stop,
    {
        proof {
            let q = url@.subrange(start as int, stop as int);
            assert(ends_with_git(q));
            assert(q.subrange(0, q.len() - 4) =~= url@.subrange(start as int, stop as int - 4));
        }
        stop = stop - 4;
    }
    let ghost core = url@.subrange(start as int, stop as int);
    assert(strip_git(core) == core);
    let mut out = String::new();
    let mut i: usize = start;
    while i < stop
        invariant
            x@ == url@,
            start <= i <= stop <= x@.len(),
            core == url@.subrange(start as int, stop as int),
            out@ == sanitize_stem(core).subrange(0, i - start),
        decreases stop - i,
    {
        let c = x[i];
        let keep = ('a' <= c && c <= 'z') || ('A' <= c && c <= 'Z') || ('0' <= c && c <= '9') || c == '_' || c == '-';
        if keep {
            push_char(&mut out, c);
        } else {
            push_char(&mut out, '_');
        }
        proof {
            assert(core[i - start] == c);
            assert(out@ =~= sanitize_stem(core).subrange(0, i - start + 1));
        }
        i = i + 1;
    }
    assert(out@ =~= sanitize_stem(core));
    if out.unicode_len() == 0 {
        let mut r = String::new();
        push_char(&mut r, 'r');
        push_char(&mut r, 'e');
        push_char(&mut r, 'p');
        push_char(&mut r, 'o');
        assert(r@ =~= seq!['r', 'e', 'p', 'o']);
        r
    } else {
        out
    }
}

/// The name of a repository's directory in the cache (see `repo_id_of`).
pub fn repo_id(url: &str) -> (r: String)
    ensures
        r@ == repo_id_of(url@),
{
    let h = default_hash_str(url);
    let mut r = stem_of(url);
    push_char(&mut r, '-');
    push_hex(&mut r, h, 16);
    assert(r@ =~= repo_id_of(url@));
    r
}

// ---------------------------------------------------------------------
// Pins.

/// The git revision specifications a pin is resolved through, in order of
/// preference (none for a version requirement, which is resolved by
/// choosing a tag).
pub open spec fn specs_of(pin: GitPin) -> Seq<Seq<char>> {
    match pin {
        GitPin::Rev(r) => seq![r@],
        GitPin::Tag(t) => seq!["refs/tags/"@ + t@, t@],
        GitPin::Branch(b) => seq!["refs/heads/"@ + b@, b@],
        GitPin::Version(_) => Seq::empty(),
        GitPin::Default => seq!["HEAD"@],
    }
}

fn prefixed(p: &str, s: &str) -> (r: String)
    ensures
        r@ == p@ + s@,
{
    let mut r = copy_str(p);
    push_str(&mut r, s);
    r
}

/// The revision specifications of a pin (see `specs_of`).
pub fn pin_specs(pin: &GitPin) -> (r: Vec<String>)
    ensures
        r@.map_values(|s: String| s@) == specs_of(*pin),
{
    let mut r: Vec<String> = Vec::new();
    match pin {
        GitPin::Rev(x) => {
            r.push(copy_str(x.as_str()));
        },
        GitPin::Tag(x) => {
            r.push(prefixed("refs/tags/", x.as_str()));
            r.push(copy_str(x.as_str()));
        },
        GitPin::Branch(x) => {
            r.push(prefixed("refs/heads/", x.as_str()));
            r.push(copy_str(x.as_str()));
        },
        GitPin::Version(_) => {},
        GitPin::Default => {
            r.push(copy_str("HEAD"));
        },
    }
    assert(r@.map_values(|s: String| s@) =~= specs_of(*pin));
    r
}

/// How a pin is named in messages.
pub open spec fn label_of(pin: GitPin) -> Seq<char> {
    match pin {
        GitPin::Rev(r) => "rev `"@ + r@ + "`"@,
        GitPin::Tag(t) => "tag `"@ + t@ + "`"@,
        GitPin::Branch(b) => "branch `"@ + b@ + "`"@,
        GitPin::Version(v) => "версия `"@ + v@ + "`"@,
        GitPin::Default => "ветка по умолчанию"@,
    }
}

fn quoted(p: &str, s: &str) -> (r: String)
    ensures
        r@ == p@ + s@ + "`"@,
{
    let mut r = copy_str(p);
    push_str(&mut r, s);
    push_str(&mut r, "`");
    r
}

/// The name of a pin in messages (see `label_of`).
pub fn pin_label(pin: &GitPin) -> (r: String)
    ensures
        r@ == label_of(*pin),
{
    match pin {
        GitPin::Rev(x) => quoted("rev `", x.as_str()),
        GitPin::Tag(x) => quoted("tag `", x.as_str()),
        GitPin::Branch(x) => quoted("branch `", x.as_str()),
        GitPin::Version(x) => quoted("версия `", x.as_str()),
        GitPin::Default => copy_str("ветка по умолчанию"),
    }
}

/// A pin written out with its kind (`Tag("v1")`, `Default`, ...).
pub open spec fn pin_text(pin: GitPin) -> Seq<char> {
    match pin {
        GitPin::Rev(r) => "Rev(\""@ + r@ + "\")"@,
        GitPin::Tag(t) => "Tag(\""@ + t@ + "\")"@,
        GitPin::Branch(b) => "Branch(\""@ + b@ + "\")"@,
        GitPin::Version(v) => "Version(\""@ + v@ + "\")"@,
        GitPin::Default => "Default"@,
    }
}

fn wrapped(p: &str, s: &str) -> (r: String)
    ensures
        r@ == p@ + s@ + "\")"@,
{
    let mut r = copy_str(p);
    push_str(&mut r, s);
    push_str(&mut r, "\")");
    r
}

fn pin_text_of(pin: &GitPin) -> (r: String)
    ensures
        r@ == pin_text(*pin),
{
    match pin {
        GitPin::Rev(x) => wrapped("Rev(\"", x.as_str()),
        GitPin::Tag(x) => wrapped("Tag(\"", x.as_str()),
        GitPin::Branch(x) => wrapped("Branch(\"", x.as_str()),
        GitPin::Version(x) => wrapped("Version(\"", x.as_str()),
        GitPin::Default => copy_str("Default"),
    }
}

/// The key of a request among the remembered resolutions: the URL, the
/// pin and the locked commit (empty when none), separated by NUL.
pub open spec fn memo_key_of(url: Seq<char>, pin: GitPin, locked: Option<Seq<char>>) -> Seq<char> {
    url + seq!['\0'] + pin_text(pin) + seq!['\0'] + match locked {
        Some(l) => l,
        None => Seq::empty(),
    }
}

/// The key of a request (see `memo_key_of`).
pub fn memo_key(url: &str, pin: &GitPin, locked: Option<&str>) -> (r: String)
    ensures
        r@ == memo_key_of(url@, *pin, match locked { Some(l) => Some(l@), None => None }),
{
    let mut r = copy_str(url);
    push_char(&mut r, '\0');
    let t = pin_text_of(pin);
    push_str(&mut r, t.as_str());
    push_char(&mut r, '\0');
    match locked {
        Some(l) => push_str(&mut r, l),
        None => {},
    }
    assert(r@ =~= memo_key_of(url@, *pin, match locked { Some(l) => Some(l@), None => None }));
    r
}

// ---------------------------------------------------------------------
// The lock table.

/// The table after inserting `es` in order.
pub open spec fn with_entries(m: Map<Seq<char>, String>, es: Seq<(String, String)>) -> Map<Seq<char>, String>
    decreases es.len(),
{
    if es.len() == 0 {
        m
    } else {
        with_entries(m, es.drop_last()).insert(es.last().0@, es.last().1)
    }
}

/// Records the commits pinned by the lock file (a later entry for a URL
/// replaces an earlier one).
pub fn install_lock_entries(table: &mut LockTable, entries: Vec<(String, String)>)
    ensures
        final(table)@ == with_entries(old(table)@, entries@),
{
    let ghost m0 = table@;
    let ghost es = entries@;
    let mut rest = entries;
    let mut done: usize = 0;
    let n = rest.len();
    let mut rev: Vec<(String, String)> = Vec::new();
    while rest.len() > 0
        invariant
            rest@.len() + rev@.len() == n,
            n == es.len(),
            rest@ == es.subrange(0, rest@.len() as int),
            forall|k: int| 0 <= k < rev@.len() ==> #[trigger] rev@[k] == es[n - 1 - k],
        decreases rest@.len(),
    {
        let e = rest.pop().unwrap();
        let ghost r0 = rev@;
        rev.push(e);
        proof {
            assert forall|k: int| 0 <= k < rev@.len() implies #[trigger] rev@[k] == es[n - 1 - k] by {
                if k < r0.len() {
                    assert(rev@[k] == r0[k]);
                }
            }
        }
    }
    while rev.len() > 0
        invariant
            done + rev@.len() == n,
            n == es.len(),
            forall|k: int| 0 <= k < rev@.len() ==> #[trigger] rev@[k] == es[n - 1 - k],
            table@ == with_entries(m0, es.subrange(0, done as int)),
        decreases rev@.len(),
    {
        let ghost r0 = rev@;
        let (url, commit) = rev.pop().unwrap();
        proof {
            assert(r0[r0.len() - 1] == es[done as int]);
            assert(es.subrange(0, done as int + 1).drop_last() =~= es.subrange(0, done as int));
        }
        table.insert(url, commit);
        proof {
            assert forall|k: int| 0 <= k < rev@.len() implies #[trigger] rev@[k] == es[n - 1 - k] by {
                assert(rev@[k] == r0[k]);
            }
        }
        done = done + 1;
    }
    assert(es.subrange(0, n as int) =~= es);
}

/// Forgets the pinned commit of a URL: its next resolution follows the pin.
pub fn forget_lock_entry(table: &mut LockTable, url: &str)
    ensures
        final(table)@ == old(table)@.remove(url@),
{
    table.remove(url);
}

/// The commit pinned for a URL.
pub fn locked_commit_for(table: &LockTable, url: &str) -> (r: Option<String>)
    ensures
        match r {
            Some(c) => table@.contains_key(url@) && c@ == table@[url@]@,
            None => !table@.contains_key(url@),
        },
{
    match table.get(url) {
        Some(c) => Some(copy_str(c.as_str())),
        None => None,
    }
}

// ---------------------------------------------------------------------
// Resolving a pin to a commit.

/// The next git operation to run, or the end of the resolution.
#[derive(Debug)]
pub enum GitAction {
    /// `git rev-parse --verify --quiet <spec>^{commit}` in the bare clone;
    /// answer with `GitEvent::Parsed` (its trimmed output when it succeeds).
    RevParse(String),
    /// `git fetch --quiet --tags --prune origin` in the bare clone; answer
    /// with `GitEvent::Fetched`. When `strict`, a failure ends the
    /// resolution.
    Fetch { strict: bool },
    /// Pick, among the repository's version tags, the one that best meets
    /// the requirement; answer with `GitEvent::Tag`.
    SelectTag(String),
    /// The commit.
    Done(String),
    /// The resolution failed; `cause` is the failure of the git operation
    /// that ended it, if any.
    Fail { message: String, cause: Option<String> },
}

/// The outcome of the last operation.
#[derive(Debug)]
pub enum GitEvent {
    /// Nothing yet: the first step.
    Start,
    Parsed(Option<String>),
    Fetched(Result<(), String>),
    Tag(Option<String>),
}

/// Where a resolution stands.
#[derive(Clone, Copy, Debug, PartialEq, Eq, Structural)]
pub enum Phase {
    Start,
    /// Parsing the locked commit, before any fetch.
    LockedFirst,
    LockedFetch,
    /// Parsing the locked commit again.
    LockedSecond,
    /// Fetching before resolving a moving pin.
    PinFetch,
    /// Parsing the `index`-th revision specification (in the second round
    /// when `second`).
    PinParse { second: bool, index: usize },
    /// Fetching before the second round.
    PinRetryFetch,
    VersionFetch,
    VersionTag,
    /// Parsing the chosen tag (`refs/tags/<tag>`, then `<tag>`).
    VersionTagParse { second: bool },
    Finished,
}

/// The action as plain values.
pub enum ActionView {
    RevParse(Seq<char>),
    Fetch(bool),
    SelectTag(Seq<char>),
    Done(Seq<char>),
    Fail(Seq<char>, Option<Seq<char>>),
}

impl GitAction {
    pub open spec fn view(&self) -> ActionView {
        match self {
            GitAction::RevParse(s) => ActionView::RevParse(s@),
            GitAction::Fetch { strict } => ActionView::Fetch(*strict),
            GitAction::SelectTag(s) => ActionView::SelectTag(s@),
            GitAction::Done(c) => ActionView::Done(c@),
            GitAction::Fail { message, cause } => ActionView::Fail(message@, match cause {
                Some(c) => Some(c@),
                None => None,
            }),
        }
    }
}

/// The state of one resolution: the request, what the caller found out
/// before it (whether the bare clone existed, whether the network may be
/// used), and how far it got.
#[derive(Debug)]
pub struct CommitResolver {
    pub url: String,
    pub pin: GitPin,
    /// The commit pinned by the lock file, which replaces the pin.
    pub locked: Option<String>,
    pub db_existed: bool,
    pub offline: bool,
    pub specs: Vec<String>,
    /// The tag chosen for a version requirement.
    pub tag: String,
    pub phase: Phase,
}

/// A hexadecimal digit, either case.
pub open spec fn is_hex_char(c: char) -> bool {
    ('0' <= c && c <= '9') || ('a' <= c && c <= 'f') || ('A' <= c && c <= 'F')
}

/// A full commit hash: 40 hexadecimal digits.
pub open spec fn is_commit_hash(s: Seq<char>) -> bool {
    s.len() == 40 && forall|i: int| 0 <= i < 40 ==> is_hex_char(#[trigger] s[i])
}

/// The commit an answered `rev-parse` names, if its output is a full hash.
pub open spec fn parsed_commit(out: Option<String>) -> Option<Seq<char>> {
    match out {
        Some(s) => if is_commit_hash(s@) { Some(s@) } else { None },
        None => None,
    }
}

pub open spec fn offline_note(offline: bool) -> Seq<char> {
    if offline { " (offline — fetch запрещён)"@ } else { Seq::empty() }
}

pub open spec fn locked_missing_msg(url: Seq<char>, l: Seq<char>) -> Seq<char> {
    "зафиксированный в nova.lock commit `"@ + l + "` git-зависимости `"@ + url + "` не найден в репозитории"@
}

pub open spec fn fetch_msg(url: Seq<char>) -> Seq<char> {
    "fetch git-зависимости `"@ + url + "`"@
}

pub open spec fn not_found_msg(url: Seq<char>, pin: GitPin, offline: bool) -> Seq<char> {
    "git-зависимость `"@ + url + "`: "@ + label_of(pin) + " не найден в репозитории"@ + offline_note(offline)
}

pub open spec fn no_tag_msg(url: Seq<char>, req: Seq<char>, offline: bool) -> Seq<char> {
    "git-зависимость `"@ + url + "`: ни один тег не подходит под версию `"@ + req + "`"@ + offline_note(offline)
}

pub open spec fn tag_unresolved_msg(url: Seq<char>, tag: Seq<char>) -> Seq<char> {
    "git-зависимость `"@ + url + "`: тег `"@ + tag + "` не резолвится в commit"@
}

pub open spec fn protocol_msg() -> Seq<char> {
    "unexpected answer to the last git operation"@
}

/// A branch or the default branch: pins that move, fetched before they are
/// resolved.
pub open spec fn is_moving(pin: GitPin) -> bool {
    pin is Branch || pin is Default
}

/// The first round over the revision specifications failed: fetch and try
/// again when a fetch may help (an existing clone, network allowed, a pin
/// that does not move), otherwise try again at once.
pub open spec fn second_round(r: CommitResolver) -> (Phase, ActionView) {
    if r.specs@.len() > 0 {
        (Phase::PinParse { second: true, index: 0 }, ActionView::RevParse(r.specs@[0]@))
    } else {
        (Phase::Finished, ActionView::Fail(not_found_msg(r.url@, r.pin, r.offline), None))
    }
}

pub open spec fn after_first_round(r: CommitResolver) -> (Phase, ActionView) {
    if !r.offline && r.db_existed && !is_moving(r.pin) {
        (Phase::PinRetryFetch, ActionView::Fetch(true))
    } else {
        second_round(r)
    }
}

pub open spec fn first_round(r: CommitResolver) -> (Phase, ActionView) {
    if r.specs@.len() > 0 {
        (Phase::PinParse { second: false, index: 0 }, ActionView::RevParse(r.specs@[0]@))
    } else {
        after_first_round(r)
    }
}

/// The next phase and action after `ev` (the tag is recorded separately,
/// see `step`).
pub open spec fn next_step(r: CommitResolver, ev: GitEvent) -> (Phase, ActionView) {
    let fail = (Phase::Finished, ActionView::Fail(protocol_msg(), None));
    match r.phase {
        Phase::Start => match ev {
            GitEvent::Start => match r.locked {
                Some(l) => (Phase::LockedFirst, ActionView::RevParse(l@)),
                None => match r.pin {
                    GitPin::Version(req) => if r.db_existed && !r.offline {
                        (Phase::VersionFetch, ActionView::Fetch(true))
                    } else {
                        (Phase::VersionTag, ActionView::SelectTag(req@))
                    },
                    _ => if is_moving(r.pin) && r.db_existed && !r.offline {
                        (Phase::PinFetch, ActionView::Fetch(true))
                    } else {
                        first_round(r)
                    },
                },
            },
            _ => fail,
        },
        Phase::LockedFirst => match (ev, r.locked) {
            (GitEvent::Parsed(out), Some(l)) => if parsed_commit(out) is Some {
                (Phase::Finished, ActionView::Done(parsed_commit(out).unwrap()))
            } else if !r.offline {
                (Phase::LockedFetch, ActionView::Fetch(false))
            } else {
                (Phase::LockedSecond, ActionView::RevParse(l@))
            },
            _ => fail,
        },
        Phase::LockedFetch => match (ev, r.locked) {
            (GitEvent::Fetched(_), Some(l)) => (Phase::LockedSecond, ActionView::RevParse(l@)),
            _ => fail,
        },
        Phase::LockedSecond => match (ev, r.locked) {
            (GitEvent::Parsed(out), Some(l)) => match parsed_commit(out) {
                Some(c) => (Phase::Finished, ActionView::Done(c)),
                None => (Phase::Finished, ActionView::Fail(locked_missing_msg(r.url@, l@), None)),
            },
            _ => fail,
        },
        Phase::PinFetch => match ev {
            GitEvent::Fetched(Ok(_)) => first_round(r),
            GitEvent::Fetched(Err(e)) => (Phase::Finished, ActionView::Fail(fetch_msg(r.url@), Some(e@))),
            _ => fail,
        },
        Phase::PinParse { second, index } => match ev {
            GitEvent::Parsed(out) => match parsed_commit(out) {
                Some(c) => (Phase::Finished, ActionView::Done(c)),
                None => if index + 1 < r.specs@.len() {
                    (Phase::PinParse { second, index: (index + 1) as usize }, ActionView::RevParse(r.specs@[index + 1]@))
                } else if second {
                    (Phase::Finished, ActionView::Fail(not_found_msg(r.url@, r.pin, r.offline), None))
                } else {
                    after_first_round(r)
                },
            },
            _ => fail,
        },
        Phase::PinRetryFetch => match ev {
            GitEvent::Fetched(Ok(_)) => second_round(r),
            GitEvent::Fetched(Err(e)) => (Phase::Finished, ActionView::Fail(fetch_msg(r.url@), Some(e@))),
            _ => fail,
        },
        Phase::VersionFetch => match (ev, r.pin) {
            (GitEvent::Fetched(Ok(_)), GitPin::Version(req)) => (Phase::VersionTag, ActionView::SelectTag(req@)),
            (GitEvent::Fetched(Err(e)), _) => (Phase::Finished, ActionView::Fail(fetch_msg(r.url@), Some(e@))),
            _ => fail,
        },
        Phase::VersionTag => match (ev, r.pin) {
            (GitEvent::Tag(Some(t)), _) => (Phase::VersionTagParse { second: false }, ActionView::RevParse("refs/tags/"@ + t@)),
            (GitEvent::Tag(None), GitPin::Version(req)) => (Phase::Finished, ActionView::Fail(no_tag_msg(r.url@, req@, r.offline), None)),
            _ => fail,
        },
        Phase::VersionTagParse { second } => match ev {
            GitEvent::Parsed(out) => match parsed_commit(out) {
                Some(c) => (Phase::Finished, ActionView::Done(c)),
                None => if !second {
                    (Phase::VersionTagParse { second: true }, ActionView::RevParse(r.tag@))
                } else {
                    (Phase::Finished, ActionView::Fail(tag_unresolved_msg(r.url@, r.tag@), None))
                },
            },
            _ => fail,
        },
        Phase::Finished => fail,
    }
}

fn is_hash(s: &str) -> (r: bool)
    ensures
        r == is_commit_hash(s@),
{
    let x = crate::text::chars_of(s);
    if x.len() != 40 {
        return false;
    }
    let mut i: usize = 0;
    while i < 40
        invariant
            x@ == s@,
            x@.len() == 40,
            i <= 40,
            forall|k: int| 0 <= k < i ==> is_hex_char(#[trigger] s@[k]),
        decreases 40 - i,
    {
        let c = x[i];
        if !(('0' <= c && c <= '9') || ('a' <= c && c <= 'f') || ('A' <= c && c <= 'F')) {
            assert(!is_hex_char(s@[i as int]));
            return false;
        }
        i = i + 1;
    }
    true
}

fn parsed(out: Option<String>) -> (r: Option<String>)
    ensures
        match r {
            Some(c) => parsed_commit(out) == Some(c@),
            None => parsed_commit(out) is None,
        },
{
    match out {
        Some(s) => if is_hash(s.as_str()) { Some(s) } else { None },
        None => None,
    }
}

fn offline_suffix(offline: bool) -> (r: String)
    ensures
        r@ == offline_note(offline),
{
    if offline { copy_str(" (offline — fetch запрещён)") } else { String::new() }
}

fn concat(parts: &[&str]) -> (r: String)
    ensures
        r@ == parts@.fold_left(Seq::<char>::empty(), |acc: Seq<char>, p: &str| acc + p@),
{
    let mut r = String::new();
    let mut i: usize = 0;
    while i < parts.len()
        invariant
            i <= parts@.len(),
            r@ == parts@.subrange(0, i as int).fold_left(Seq::<char>::empty(), |acc: Seq<char>, p: &str| acc + p@),
        decreases parts@.len() - i,
    {
        proof {
            let s1 = parts@.subrange(0, i as int + 1);
            assert(s1.drop_last() =~= parts@.subrange(0, i as int));
        }
        push_str(&mut r, parts[i]);
        i = i + 1;
    }
    assert(parts@.subrange(0, parts@.len() as int) =~= parts@);
    r
}

impl CommitResolver {
    /// A resolution of `pin` for `url`, with the commit pinned by the lock
    /// file if any; `db_existed` and `offline` are what the caller found.
    pub fn new(url: &str, pin: GitPin, locked: Option<String>, db_existed: bool, offline: bool) -> (r: Self)
        ensures
            r.url@ == url@,
            r.pin == pin,
            r.locked == locked,
            r.db_existed == db_existed,
            r.offline == offline,
            r.specs@.map_values(|s: String| s@) == specs_of(pin),
            r.phase == Phase::Start,
    {
        let specs = pin_specs(&pin);
        CommitResolver { url: copy_str(url), pin, locked, db_existed, offline, specs, tag: String::new(), phase: Phase::Start }
    }

    fn fail(&mut self, message: String, cause: Option<String>) -> (a: GitAction)
        ensures
            final(self).phase == Phase::Finished,
            final(self).url == old(self).url,
            final(self).pin == old(self).pin,
            final(self).locked == old(self).locked,
            final(self).db_existed == old(self).db_existed,
            final(self).offline == old(self).offline,
            final(self).specs == old(self).specs,
            final(self).tag == old(self).tag,
            a.view() == ActionView::Fail(message@, match cause { Some(c) => Some(c@), None => None }),
    {
        self.phase = Phase::Finished;
        GitAction::Fail { message, cause }
    }

    fn not_found(&self) -> (m: String)
        ensures
            m@ == not_found_msg(self.url@, self.pin, self.offline),
    {
        let label = pin_label(&self.pin);
        let suffix = offline_suffix(self.offline);
        let mut m = copy_str("git-зависимость `");
        push_str(&mut m, self.url.as_str());
        push_str(&mut m, "`: ");
        push_str(&mut m, label.as_str());
        push_str(&mut m, " не найден в репозитории");
        push_str(&mut m, suffix.as_str());
        m
    }

    fn fetch_failure(&self) -> (m: String)
        ensures
            m@ == fetch_msg(self.url@),
    {
        let mut m = copy_str("fetch git-зависимости `");
        push_str(&mut m, self.url.as_str());
        push_str(&mut m, "`");
        m
    }

    fn round(&mut self, second: bool) -> (a: GitAction)
        requires
            old(self).specs@.len() > 0,
        ensures
            final(self).phase == (Phase::PinParse { second, index: 0 }),
            a.view() == ActionView::RevParse(old(self).specs@[0]@),
            final(self).url == old(self).url,
            final(self).pin == old(self).pin,
            final(self).locked == old(self).locked,
            final(self).db_existed == old(self).db_existed,
            final(self).offline == old(self).offline,
            final(self).specs == old(self).specs,
            final(self).tag == old(self).tag,
    {
        self.phase = Phase::PinParse { second, index: 0 };
        GitAction::RevParse(copy_str(self.specs[0].as_str()))
    }

    fn second(&mut self) -> (a: GitAction)
        ensures
            (final(self).phase, a.view()) == second_round(*old(self)),
            final(self).url == old(self).url,
            final(self).pin == old(self).pin,
            final(self).locked == old(self).locked,
            final(self).db_existed == old(self).db_existed,
            final(self).offline == old(self).offline,
            final(self).specs == old(self).specs,
            final(self).tag == old(self).tag,
    {
        if self.specs.len() > 0 {
            self.round(true)
        } else {
            let m = self.not_found();
            self.fail(m, None)
        }
    }

    fn after_first(&mut self) -> (a: GitAction)
        ensures
            (final(self).phase, a.view()) == after_first_round(*old(self)),
            final(self).url == old(self).url,
            final(self).pin == old(self).pin,
            final(self).locked == old(self).locked,
            final(self).db_existed == old(self).db_existed,
            final(self).offline == old(self).offline,
            final(self).specs == old(self).specs,
            final(self).tag == old(self).tag,
    {
        let moving = match &self.pin {
            GitPin::Branch(_) | GitPin::Default => true,
            _ => false,
        };
        if !self.offline && self.db_existed && !moving {
            self.phase = Phase::PinRetryFetch;
            GitAction::Fetch { strict: true }
        } else {
            self.second()
        }
    }

    fn first(&mut self) -> (a: GitAction)
        ensures
            (final(self).phase, a.view()) == first_round(*old(self)),
            final(self).url == old(self).url,
            final(self).pin == old(self).pin,
            final(self).locked == old(self).locked,
            final(self).db_existed == old(self).db_existed,
            final(self).offline == old(self).offline,
            final(self).specs == old(self).specs,
            final(self).tag == old(self).tag,
    {
        if self.specs.len() > 0 {
            self.round(false)
        } else {
            self.after_first()
        }
    }

    /// Takes the outcome of the last action (`Start` first) and says what
    /// to do next (see `next_step`). The chosen tag is recorded when it
    /// comes.
    pub fn step(&mut self, ev: GitEvent) -> (a: GitAction)
        ensures
            (final(self).phase, a.view()) == next_step(*old(self), ev),
            final(self).url == old(self).url,
            final(self).pin == old(self).pin,
            final(self).locked == old(self).locked,
            final(self).db_existed == old(self).db_existed,
            final(self).offline == old(self).offline,
            final(self).specs == old(self).specs,
            final(self).tag@ == (match (old(self).phase, ev) {
                (Phase::VersionTag, GitEvent::Tag(Some(t))) => t@,
                _ => old(self).tag@,
            }),
    {
        let ghost r0 = *self;
        match self.phase {
            Phase::Start => match ev {
                GitEvent::Start => {
                    match &self.locked {
                        Some(l) => {
                            let l2 = copy_str(l.as_str());
                            self.phase = Phase::LockedFirst;
                            return GitAction::RevParse(l2);
                        },
                        None => {},
                    }
                    match &self.pin {
                        GitPin::Version(req) => {
                            if self.db_existed && !self.offline {
                                self.phase = Phase::VersionFetch;
                                GitAction::Fetch { strict: true }
                            } else {
                                let q = copy_str(req.as_str());
                                self.phase = Phase::VersionTag;
                                GitAction::SelectTag(q)
                            }
                        },
                        _ => {
                            let moving = match &self.pin {
                                GitPin::Branch(_) | GitPin::Default => true,
                                _ => false,
                            };
                            if moving && self.db_existed && !self.offline {
                                self.phase = Phase::PinFetch;
                                GitAction::Fetch { strict: true }
                            } else {
                                self.first()
                            }
                        },
                    }
                },
                _ => self.fail(copy_str("unexpected answer to the last git operation"), None),
            },
            Phase::LockedFirst => match (ev, &self.locked) {
                (GitEvent::Parsed(out), Some(l)) => {
                    let l2 = copy_str(l.as_str());
                    let found = parsed(out);
                    if let Some(c) = found {
                        self.phase = Phase::Finished;
                        GitAction::Done(c)
                    } else if !self.offline {
                        self.phase = Phase::LockedFetch;
                        GitAction::Fetch { strict: false }
                    } else {
                        self.phase = Phase::LockedSecond;
                        GitAction::RevParse(l2)
                    }
                },
                _ => self.fail(copy_str("unexpected answer to the last git operation"), None),
            },
            Phase::LockedFetch => match (ev, &self.locked) {
                (GitEvent::Fetched(_), Some(l)) => {
                    let l2 = copy_str(l.as_str());
                    self.phase = Phase::LockedSecond;
                    GitAction::RevParse(l2)
                },
                _ => self.fail(copy_str("unexpected answer to the last git operation"), None),
            },
            Phase::LockedSecond => match (ev, &self.locked) {
                (GitEvent::Parsed(out), Some(l)) => match parsed(out) {
                    Some(c) => {
                        self.phase = Phase::Finished;
                        GitAction::Done(c)
                    },
                    None => {
                        let m = concat(&["зафиксированный в nova.lock commit `", l.as_str(), "` git-зависимости `", self.url.as_str(), "` не найден в репозитории"]);
                        proof {
                            reveal_with_fuel(Seq::fold_left, 6);
                        }
                        self.fail(m, None)
                    },
                },
                _ => self.fail(copy_str("unexpected answer to the last git operation"), None),
            },
            Phase::PinFetch => match ev {
                GitEvent::Fetched(Ok(_)) => self.first(),
                GitEvent::Fetched(Err(e)) => {
                    let m = self.fetch_failure();
                    self.fail(m, Some(e))
                },
                _ => self.fail(copy_str("unexpected answer to the last git operation"), None),
            },
            Phase::PinParse { second, index } => match ev {
                GitEvent::Parsed(out) => match parsed(out) {
                    Some(c) => {
                        self.phase = Phase::Finished;
                        GitAction::Done(c)
                    },
                    None => {
                        if index < self.specs.len() && index + 1 < self.specs.len() {
                            let s = copy_str(self.specs[index + 1].as_str());
                            self.phase = Phase::PinParse { second, index: index + 1 };
                            GitAction::RevParse(s)
                        } else if second {
                            let m = self.not_found();
                            self.fail(m, None)
                        } else {
                            self.after_first()
                        }
                    },
                },
                _ => self.fail(copy_str("unexpected answer to the last git operation"), None),
            },
            Phase::PinRetryFetch => match ev {
                GitEvent::Fetched(Ok(_)) => self.second(),
                GitEvent::Fetched(Err(e)) => {
                    let m = self.fetch_failure();
                    self.fail(m, Some(e))
                },
                _ => self.fail(copy_str("unexpected answer to the last git operation"), None),
            },
            Phase::VersionFetch => match ev {
                GitEvent::Fetched(Ok(_)) => match &self.pin {
                    GitPin::Version(req) => {
                        let q = copy_str(req.as_str());
                        self.phase = Phase::VersionTag;
                        GitAction::SelectTag(q)
                    },
                    _ => self.fail(copy_str("unexpected answer to the last git operation"), None),
                },
                GitEvent::Fetched(Err(e)) => {
                    let m = self.fetch_failure();
                    self.fail(m, Some(e))
                },
                _ => self.fail(copy_str("unexpected answer to the last git operation"), None),
            },
            Phase::VersionTag => match ev {
                GitEvent::Tag(Some(t)) => {
                    let spec = prefixed("refs/tags/", t.as_str());
                    self.tag = t;
                    self.phase = Phase::VersionTagParse { second: false };
                    GitAction::RevParse(spec)
                },
                GitEvent::Tag(None) => match &self.pin {
                    GitPin::Version(req) => {
                        let suffix = offline_suffix(self.offline);
                        let m = concat(&["git-зависимость `", self.url.as_str(), "`: ни один тег не подходит под версию `", req.as_str(), "`", suffix.as_str()]);
                        proof {
                            reveal_with_fuel(Seq::fold_left, 7);
                        }
                        self.fail(m, None)
                    },
                    _ => self.fail(copy_str("unexpected answer to the last git operation"), None),
                },
                _ => self.fail(copy_str("unexpected answer to the last git operation"), None),
            },
            Phase::VersionTagParse { second } => match ev {
                GitEvent::Parsed(out) => match parsed(out) {
                    Some(c) => {
                        self.phase = Phase::Finished;
                        GitAction::Done(c)
                    },
                    None => {
                        if !second {
                            let t = copy_str(self.tag.as_str());
                            self.phase = Phase::VersionTagParse { second: true };
                            GitAction::RevParse(t)
                        } else {
                            let m = concat(&["git-зависимость `", self.url.as_str(), "`: тег `", self.tag.as_str(), "` не резолвится в commit"]);
                            proof {
                                reveal_with_fuel(Seq::fold_left, 6);
                            }
                            self.fail(m, None)
                        }
                    },
                },
                _ => self.fail(copy_str("unexpected answer to the last git operation"), None),
            },
            Phase::Finished => self.fail(copy_str("unexpected answer to the last git operation"), None),
        }
    }
}

/// What a request needs: a remembered resolution, or a resolution to run
/// (whose result is remembered under `key`).
#[derive(Debug)]
pub enum ResolveStart {
    Remembered(GitResolution),
    Run { key: String, resolver: CommitResolver },
}

/// The commit that replaces the pin: the explicit one, else the one the
/// lock table has for the URL.
pub open spec fn effective_lock(url: Seq<char>, locked: Option<Seq<char>>, table: Map<Seq<char>, String>) -> Option<Seq<char>> {
    match locked {
        Some(l) => Some(l),
        None => if table.contains_key(url) { Some(table[url]@) } else { None },
    }
}

/// What `resolve_git_dep` starts with for a request: the remembered
/// resolution where the memo has the request's key, else a resolution to
/// run from the start, with the key to remember it under.
pub open spec fn resolve_start(
    url: Seq<char>,
    pin: GitPin,
    locked: Option<Seq<char>>,
    table: Map<Seq<char>, String>,
    memo: Map<Seq<char>, GitResolution>,
    db_existed: bool,
    offline: bool,
    r: ResolveStart,
) -> bool {
    let eff = effective_lock(url, locked, table);
    let key = memo_key_of(url, pin, eff);
    match r {
        ResolveStart::Remembered(g) => memo.contains_key(key) && g.checkout@ == memo[key].checkout@
            && g.commit@ == memo[key].commit@,
        ResolveStart::Run { key: k, resolver } => !memo.contains_key(key) && k@ == key
            && resolver.url@ == url && resolver.pin == pin
            && match resolver.locked { Some(l) => eff == Some(l@), None => eff is None }
            && resolver.db_existed == db_existed && resolver.offline == offline
            && resolver.specs@.map_values(|s: String| s@) == specs_of(pin)
            && resolver.phase == Phase::Start,
    }
}

/// Starts resolving `pin` for `url`: the commit pinned explicitly, or by
/// the lock table, replaces the pin; a request already resolved in this
/// process is answered from `memo`; otherwise a resolution is to run, with
/// what the caller found out (`db_existed`, `offline`).
pub fn resolve_git_dep(
    url: &str,
    pin: GitPin,
    locked_commit: Option<&str>,
    table: &LockTable,
    memo: &ResolveMemo,
    db_existed: bool,
    offline: bool,
) -> (r: ResolveStart)
    ensures
        resolve_start(url@, pin, match locked_commit { Some(l) => Some(l@), None => None }, table@, memo@, db_existed, offline, r),
{
    let effective: Option<String> = match locked_commit {
        Some(l) => Some(copy_str(l)),
        None => locked_commit_for(table, url),
    };
    let key = match &effective {
        Some(e) => memo_key(url, &pin, Some(e.as_str())),
        None => memo_key(url, &pin, None),
    };
    match memo.get(key.as_str()) {
        Some(hit) => ResolveStart::Remembered(hit.duplicate()),
        None => ResolveStart::Run { key, resolver: CommitResolver::new(url, pin, effective, db_existed, offline) },
    }
}

/// A request resolved once and remembered under the key its first start
/// gave is answered, the next time, with that resolution: nothing runs.
pub proof fn lemma_second_resolve_is_remembered(
    url: Seq<char>,
    pin: GitPin,
    locked: Option<Seq<char>>,
    table: Map<Seq<char>, String>,
    memo: Map<Seq<char>, GitResolution>,
    key: String,
    resolver: CommitResolver,
    res: GitResolution,
    db_existed: bool,
    offline: bool,
    again: ResolveStart,
)
    requires
        resolve_start(url, pin, locked, table, memo, db_existed, offline, ResolveStart::Run { key, resolver }),
        resolve_start(url, pin, locked, table, memo.insert(key@, res), db_existed, offline, again),
    ensures
        again matches ResolveStart::Remembered(g) && g.checkout@ == res.checkout@ && g.commit@ == res.commit@,
{
}

/// Two starts of one request against one memo agree where the memo
/// answers it.
pub proof fn lemma_remembered_is_stable(
    url: Seq<char>,
    pin: GitPin,
    locked: Option<Seq<char>>,
    table: Map<Seq<char>, String>,
    memo: Map<Seq<char>, GitResolution>,
    first: GitResolution,
    db_existed: bool,
    offline: bool,
    again: ResolveStart,
)
    requires
        resolve_start(url, pin, locked, table, memo, db_existed, offline, ResolveStart::Remembered(first)),
        resolve_start(url, pin, locked, table, memo, db_existed, offline, again),
    ensures
        again matches ResolveStart::Remembered(g) && g.checkout@ == first.checkout@ && g.commit@ == first.commit@,
{
}

/// An explicit locked commit decides the request whatever the lock table
/// holds: the key is made with it and a started resolution is locked to it.
/// Without one, the table's commit for the URL does, and with neither the
/// request is not locked.
pub proof fn lemma_explicit_lock_wins(
    url: Seq<char>,
    pin: GitPin,
    locked: Option<Seq<char>>,
    table: Map<Seq<char>, String>,
    memo: Map<Seq<char>, GitResolution>,
    db_existed: bool,
    offline: bool,
    r: ResolveStart,
)
    requires
        resolve_start(url, pin, locked, table, memo, db_existed, offline, r),
    ensures
        ({
            let used: Option<Seq<char>> = match locked {
                Some(l) => Some(l),
                None => if table.contains_key(url) { Some(table[url]@) } else { None },
            };
            match r {
                ResolveStart::Run { key, resolver } => key@ == memo_key_of(url, pin, used)
                    && match resolver.locked {
                        Some(x) => used == Some(x@),
                        None => used is None,
                    },
                ResolveStart::Remembered(g) => memo.contains_key(memo_key_of(url, pin, used)),
            }
        }),
        locked matches Some(l) ==> (r matches ResolveStart::Run { resolver, .. } ==> (resolver.locked matches Some(x) && x@ == l)),
{
}

/// Keeps a finished resolution in the memo under the key that
/// `resolve_git_dep` gave for its request, so the request is answered from
/// memory next time.
pub fn remember_resolution(memo: &mut ResolveMemo, key: String, res: GitResolution)
    ensures
        final(memo)@ == old(memo)@.insert(key@, res),
{
    memo.insert(key, res);
}

/// Where the checkout of a commit lives, relative to the cache root.
pub open spec fn checkout_rel_of(url: Seq<char>, commit: Seq<char>) -> Seq<Seq<char>> {
    seq!["co"@, repo_id_of(url), commit]
}

/// The path components of a commit's checkout under the cache root:
/// `co/<repo-id>/<commit>`.
pub fn checkout_components(url: &str, commit: &str) -> (r: Vec<String>)
    ensures
        r@.map_values(|s: String| s@) == checkout_rel_of(url@, commit@),
{
    let mut r: Vec<String> = Vec::new();
    r.push(copy_str("co"));
    r.push(repo_id(url));
    r.push(copy_str(commit));
    assert(r@.map_values(|s: String| s@) =~= checkout_rel_of(url@, commit@));
    r
}

/// The path components of a repository's bare clone under the cache
/// root: `db/<repo-id>.git`.
pub fn db_components(url: &str) -> (r: Vec<String>)
    ensures
        r@.map_values(|s: String| s@) == seq!["db"@, repo_id_of(url@) + ".git"@],
{
    let mut r: Vec<String> = Vec::new();
    r.push(copy_str("db"));
    let mut d = repo_id(url);
    push_str(&mut d, ".git");
    r.push(d);
    assert(r@.map_values(|s: String| s@) =~= seq!["db"@, repo_id_of(url@) + ".git"@]);
    r
}

} // verus!
