//! Settings of the caching pass from environment values.
//!
//! Each setting has a variable; a switch is off when its value is `0`,
//! `off` or `false` (any ASCII case), a number is read as an unsigned
//! decimal (an optional `+`, then digits). Values that do not read leave
//! the default.

use vstd::prelude::*;
use crate::field_cache::plan::FieldCacheConfig;
use crate::text::chars_of;

verus! {

/// The values of the variables, `None` where a variable is not set:
/// `NOVA_FIELD_CACHE`, `NOVA_FIELD_CACHE_THRESHOLD`, `NOVA_FIELD_CACHE_MAX`,
/// `NOVA_FIELD_CACHE_LICM`, `NOVA_FIELD_CACHE_LICM_THRESHOLD`,
/// `NOVA_FIELD_CACHE_LICM_MAX`, `NOVA_FIELD_CACHE_PURE`,
/// `NOVA_FIELD_CACHE_PURE_THRESHOLD`, `NOVA_FIELD_CACHE_CHAIN`,
/// `NOVA_FIELD_CACHE_CHAIN_THRESHOLD`, `NOVA_FIELD_CACHE_CHAIN_DEPTH`,
/// `NOVA_FIELD_CACHE_IPA`, `NOVA_FIELD_CACHE_IPA_ITER`.
pub struct CacheEnv {
    pub field_cache: Option<String>,
    pub threshold: Option<String>,
    pub max: Option<String>,
    pub licm: Option<String>,
    pub licm_threshold: Option<String>,
    pub licm_max: Option<String>,
    pub pure: Option<String>,
    pub pure_threshold: Option<String>,
    pub chain: Option<String>,
    pub chain_threshold: Option<String>,
    pub chain_depth: Option<String>,
    pub ipa: Option<String>,
    pub ipa_iter: Option<String>,
}

/// The code of `c` with ASCII capitals lowered.
pub open spec fn lower_code(c: char) -> u32 {
    if 'A' <= c && c <= 'Z' { (c as u32 + 32) as u32 } else { c as u32 }
}

/// `a` and `b` are equal up to ASCII case.
pub open spec fn eq_ignoring_case(a: Seq<char>, b: Seq<char>) -> bool {
    a.len() == b.len() && forall|i: int| 0 <= i < a.len() ==> lower_code(#[trigger] a[i]) == lower_code(b[i])
}

/// The value turns a switch off.
pub open spec fn says_off(v: Seq<char>) -> bool {
    v == seq!['0'] || eq_ignoring_case(v, seq!['o', 'f', 'f']) || eq_ignoring_case(v, seq!['f', 'a', 'l', 's', 'e'])
}

pub open spec fn is_digit(c: char) -> bool {
    '0' <= c && c <= '9'
}

/// The number that the decimal digits `d` write.
pub open spec fn digits_value(d: Seq<char>) -> nat
    decreases d.len(),
{
    if d.len() == 0 {
        0
    } else {
        digits_value(d.drop_last()) * 10 + (d.last() as nat - '0' as nat) as nat
    }
}

/// What follows an optional leading `+`.
pub open spec fn digits_part(s: Seq<char>) -> Seq<char> {
    if s.len() > 0 && s[0] == '+' { s.drop_first() } else { s }
}

/// Every character of `d` is a decimal digit.
pub open spec fn all_digits(d: Seq<char>) -> bool {
    forall|i: int| 0 <= i < d.len() ==> is_digit(#[trigger] d[i])
}

/// An unsigned decimal: an optional `+`, then at least one digit, the
/// value fitting in `usize`.
pub open spec fn parse_usize_spec(s: Seq<char>) -> Option<nat> {
    let d = digits_part(s);
    if d.len() == 0 || !all_digits(d) {
        None
    } else if digits_value(d) > usize::MAX {
        None
    } else {
        Some(digits_value(d))
    }
}

/// A set variable whose value turns its switch off.
pub open spec fn opt_off(o: Option<String>) -> bool {
    match o {
        Some(v) => says_off(v@),
        None => false,
    }
}

/// The number a set variable holds, if it reads as one.
pub open spec fn opt_num(o: Option<String>) -> Option<nat> {
    match o {
        Some(v) => parse_usize_spec(v@),
        None => None,
    }
}

/// A threshold setting: a positive number, else `dflt`.
pub open spec fn positive_or(o: Option<String>, dflt: usize) -> usize {
    if opt_num(o) is Some && opt_num(o).unwrap() > 0 { opt_num(o).unwrap() as usize } else { dflt }
}

/// The settings the environment `e` gives: the defaults, changed by each
/// variable that is set and reads.
pub open spec fn env_config(e: CacheEnv) -> FieldCacheConfig {
    FieldCacheConfig {
        enabled: !opt_off(e.field_cache) && opt_num(e.threshold) != Some(0nat),
        threshold: positive_or(e.threshold, 2),
        max_per_fn: positive_or(e.max, 8),
        licm_enabled: !opt_off(e.licm) && opt_num(e.licm_threshold) != Some(0nat),
        licm_threshold: positive_or(e.licm_threshold, 2),
        licm_max_per_loop: positive_or(e.licm_max, 4),
        pure_enabled: !opt_off(e.pure) && opt_num(e.pure_threshold) != Some(0nat),
        pure_threshold: positive_or(e.pure_threshold, 2),
        chain_enabled: !opt_off(e.chain) && opt_num(e.chain_threshold) != Some(0nat),
        chain_threshold: positive_or(e.chain_threshold, 2),
        chain_max_depth: if opt_num(e.chain_depth) is Some && opt_num(e.chain_depth).unwrap() >= 2 {
            opt_num(e.chain_depth).unwrap() as usize
        } else {
            4
        },
        ipa_enabled: !opt_off(e.ipa),
        ipa_iter_limit: if opt_num(e.ipa_iter) is Some && 1 <= opt_num(e.ipa_iter).unwrap() <= 1024 {
            opt_num(e.ipa_iter).unwrap() as usize
        } else {
            10
        },
    }
}

fn lower_code_of(c: char) -> (r: u32)
    ensures
        r == lower_code(c),
{
    if 'A' <= c && c <= 'Z' { c as u32 + 32 } else { c as u32 }
}

/// Whether `v` equals the lowercase word `w` up to ASCII case.
fn eq_word(v: &Vec<char>, w: &Vec<char>) -> (r: bool)
    ensures
        r == eq_ignoring_case(v@, w@),
{
    if v.len() != w.len() {
        return false;
    }
    let mut i: usize = 0;
    while i < v.len()
        invariant
            v@.len() == w@.len(),
            i <= v@.len(),
            forall|j: int| 0 <= j < i ==> lower_code(#[trigger] v@[j]) == lower_code(w@[j]),
        decreases v@.len() - i,
    {
        if lower_code_of(v[i]) != lower_code_of(w[i]) {
            return false;
        }
        i = i + 1;
    }
    true
}

/// Whether the value turns a switch off (see `says_off`).
pub fn value_says_off(v: &str) -> (r: bool)
    ensures
        r == says_off(v@),
{
    let c = chars_of(v);
    let zero: Vec<char> = vec!['0'];
    let off: Vec<char> = vec!['o', 'f', 'f'];
    let no: Vec<char> = vec!['f', 'a', 'l', 's', 'e'];
    let is_zero = c.len() == 1 && c[0] == '0';
    proof {
        assert(zero@ =~= seq!['0']);
        assert(off@ =~= seq!['o', 'f', 'f']);
        assert(no@ =~= seq!['f', 'a', 'l', 's', 'e']);
        if is_zero {
            assert(c@ =~= seq!['0']);
        }
        if c@ == seq!['0'] {
            assert(c@[0] == '0');
        }
    }
    is_zero || eq_word(&c, &off) || eq_word(&c, &no)
}

proof fn lemma_parse_none_big(s: Seq<char>)
    requires
        digits_part(s).len() > 0,
        all_digits(digits_part(s)),
        digits_value(digits_part(s)) > usize::MAX,
    ensures
        parse_usize_spec(s) is None,
{
}

proof fn lemma_parse_none_char(s: Seq<char>, k: int)
    requires
        0 <= k < digits_part(s).len(),
        !is_digit(digits_part(s)[k]),
    ensures
        parse_usize_spec(s) is None,
{
}

proof fn lemma_digits_value_grows(d: Seq<char>, k: int)
    requires
        0 <= k <= d.len(),
        forall|i: int| 0 <= i < d.len() ==> is_digit(#[trigger] d[i]),
    ensures
        digits_value(d.take(k)) <= digits_value(d),
    decreases d.len() - k,
{
    if k < d.len() {
        lemma_digits_value_grows(d, k + 1);
        assert(d.take(k + 1).drop_last() =~= d.take(k));
        assert(d.take(k + 1).last() == d[k]);
    } else {
        assert(d.take(k) =~= d);
    }
}

/// The number an unsigned decimal writes (see `parse_usize_spec`).
pub fn parse_usize(s: &str) -> (r: Option<usize>)
    ensures
        match r {
            Some(n) => parse_usize_spec(s@) == Some(n as nat),
            None => parse_usize_spec(s@) is None,
        },
{
    let c = chars_of(s);
    let start: usize = if c.len() > 0 && c[0] == '+' { 1 } else { 0 };
    let ghost d = digits_part(s@);
    proof {
        assert(d =~= s@.subrange(start as int, s@.len() as int));
    }
    if start >= c.len() {
        return None;
    }
    let mut i: usize = start;
    while i < c.len()
        invariant
            c@ == s@,
            start <= i <= c@.len(),
            d == s@.subrange(start as int, s@.len() as int),
            d == digits_part(s@),
            forall|j: int| start <= j < i ==> is_digit(#[trigger] c@[j]),
        decreases c@.len() - i,
    {
        if !('0' <= c[i] && c[i] <= '9') {
            proof {
                assert(d[i - start] == c@[i as int]);
                assert(!is_digit(d[i - start]));
                assert(d[i - start] == c@[i as int]);
                assert(!is_digit(d[i - start]));
                lemma_parse_none_char(s@, i - start);
            }
            return None;
        }
        i = i + 1;
    }
    assert(all_digits(d)) by {
        assert forall|j: int| 0 <= j < d.len() implies is_digit(#[trigger] d[j]) by {
            assert(d[j] == c@[start + j]);
        }
    }
    let mut v: usize = 0;
    let mut k: usize = start;
    assert(d.take(0) =~= Seq::<char>::empty());
    while k < c.len()
        invariant
            c@ == s@,
            start <= k <= c@.len(),
            d == s@.subrange(start as int, s@.len() as int),
            d == digits_part(s@),
            forall|j: int| 0 <= j < d.len() ==> is_digit(#[trigger] d[j]),
            v as nat == digits_value(d.take(k - start)),
        decreases c@.len() - k,
    {
        proof {
            assert(d[k - start] == c@[k as int]);
            assert(is_digit(d[k - start]));
        }
        let dig = (c[k] as u32 - '0' as u32) as usize;
        proof {
            assert(d.take(k - start + 1).drop_last() =~= d.take(k - start));
            assert(d.take(k - start + 1).last() == c@[k as int]);
            assert(is_digit(d[k - start]));
        }
        match v.checked_mul(10) {
            Some(v10) => match v10.checked_add(dig) {
                Some(nv) => {
                    v = nv;
                },
                None => {
                    proof {
                        lemma_digits_value_grows(d, k - start + 1);
                        assert(digits_value(d.take(k - start + 1)) == digits_value(d.take(k - start)) * 10 + dig);
                        assert(digits_value(d) > usize::MAX);
                        assert(all_digits(d));
                        assert(all_digits(d));
                    lemma_parse_none_big(s@);
                    }
                    return None;
                },
            },
            None => {
                proof {
                    lemma_digits_value_grows(d, k - start + 1);
                    assert(digits_value(d.take(k - start + 1)) == digits_value(d.take(k - start)) * 10 + dig);
                    assert(digits_value(d) > usize::MAX);
                    assert(all_digits(d));
                    lemma_parse_none_big(s@);
                }
                return None;
            },
        }
        k = k + 1;
    }
    assert(d.take(d.len() as int) =~= d);
    Some(v)
}

fn num_of(o: &Option<String>) -> (r: Option<usize>)
    ensures
        match r {
            Some(n) => opt_num(*o) == Some(n as nat),
            None => opt_num(*o) is None,
        },
{
    match o {
        Some(v) => parse_usize(v.as_str()),
        None => None,
    }
}

fn off_of(o: &Option<String>) -> (r: bool)
    ensures
        r == opt_off(*o),
{
    match o {
        Some(v) => value_says_off(v.as_str()),
        None => false,
    }
}

fn positive_of(o: &Option<String>, dflt: usize) -> (r: usize)
    ensures
        r == positive_or(*o, dflt),
{
    match num_of(o) {
        Some(n) => if n > 0 { n } else { dflt },
        None => dflt,
    }
}

fn not_zero(o: &Option<String>) -> (r: bool)
    ensures
        r == (opt_num(*o) != Some(0nat)),
{
    match num_of(o) {
        Some(n) => n != 0,
        None => true,
    }
}

impl FieldCacheConfig {
    /// The settings that the environment values `env` give (see
    /// `env_config`).
    pub fn from_env_or_default(env: &CacheEnv) -> (c: FieldCacheConfig)
        ensures
            c == env_config(*env),
    {
        let depth = match num_of(&env.chain_depth) {
            Some(n) => if n >= 2 { n } else { 4 },
            None => 4,
        };
        let iters = match num_of(&env.ipa_iter) {
            Some(n) => if 1 <= n && n <= 1024 { n } else { 10 },
            None => 10,
        };
        FieldCacheConfig {
            enabled: !off_of(&env.field_cache) && not_zero(&env.threshold),
            threshold: positive_of(&env.threshold, 2),
            max_per_fn: positive_of(&env.max, 8),
            licm_enabled: !off_of(&env.licm) && not_zero(&env.licm_threshold),
            licm_threshold: positive_of(&env.licm_threshold, 2),
            licm_max_per_loop: positive_of(&env.licm_max, 4),
            pure_enabled: !off_of(&env.pure) && not_zero(&env.pure_threshold),
            pure_threshold: positive_of(&env.pure_threshold, 2),
            chain_enabled: !off_of(&env.chain) && not_zero(&env.chain_threshold),
            chain_threshold: positive_of(&env.chain_threshold, 2),
            chain_max_depth: depth,
            ipa_enabled: !off_of(&env.ipa),
            ipa_iter_limit: iters,
        }
    }
}

} // verus!

verus! {

/// `c` is the ASCII letter whose lower-case form is `lower`, in either case.
pub open spec fn letter_either_case(c: char, lower: char) -> bool {
    c as int == lower as int || c as int == lower as int - 32
}

/// `v` reads as "off": `0`, or `off` or `false` in any mix of ASCII case.
pub open spec fn written_off(v: Seq<char>) -> bool {
    ||| v.len() == 1 && v[0] == '0'
    ||| v.len() == 3 && letter_either_case(v[0], 'o') && letter_either_case(v[1], 'f') && letter_either_case(v[2], 'f')
    ||| v.len() == 5 && letter_either_case(v[0], 'f') && letter_either_case(v[1], 'a') && letter_either_case(v[2], 'l')
        && letter_either_case(v[3], 's') && letter_either_case(v[4], 'e')
}

proof fn lemma_written_off_says_off(v: Seq<char>)
    requires
        written_off(v),
    ensures
        says_off(v),
{
    if v.len() == 1 {
        assert(v =~= seq!['0']);
    } else if v.len() == 3 {
        assert(eq_ignoring_case(v, seq!['o', 'f', 'f']));
    } else {
        assert(eq_ignoring_case(v, seq!['f', 'a', 'l', 's', 'e']));
    }
}

/// A switch variable set to `0`, `off` or `false` (any ASCII case) turns its
/// pass off, and so does a threshold of `0`; with every variable unset the
/// caching pass is on with its defaults (threshold 2, at most 8 caches per
/// method), and so are hoisting, pure-call caching, chain caching (depth 4)
/// and the interprocedural analysis (10 rounds).
pub proof fn lemma_switches_turn_passes_off(e: CacheEnv, c: FieldCacheConfig)
    requires
        c == env_config(e),
    ensures
        (e.field_cache matches Some(v) && written_off(v@)) ==> !c.enabled,
        (e.licm matches Some(v) && written_off(v@)) ==> !c.licm_enabled,
        (e.pure matches Some(v) && written_off(v@)) ==> !c.pure_enabled,
        (e.chain matches Some(v) && written_off(v@)) ==> !c.chain_enabled,
        (e.ipa matches Some(v) && written_off(v@)) ==> !c.ipa_enabled,
        (e.threshold matches Some(v) && v@ =~= seq!['0']) ==> !c.enabled,
        (e.licm_threshold matches Some(v) && v@ =~= seq!['0']) ==> !c.licm_enabled,
        (e.pure_threshold matches Some(v) && v@ =~= seq!['0']) ==> !c.pure_enabled,
        (e.chain_threshold matches Some(v) && v@ =~= seq!['0']) ==> !c.chain_enabled,
        (e.field_cache is None && e.threshold is None) ==> c.enabled && c.threshold == 2,
        e.threshold matches Some(v) ==> (one_nonzero_digit(v@) ==> c.threshold as int == v@[0] as int - '0' as int),
        e.max matches Some(v) ==> (one_nonzero_digit(v@) ==> c.max_per_fn as int == v@[0] as int - '0' as int),
        e.licm_threshold matches Some(v) ==> (one_nonzero_digit(v@) ==> c.licm_threshold as int == v@[0] as int - '0' as int),
        e.licm_max matches Some(v) ==> (one_nonzero_digit(v@) ==> c.licm_max_per_loop as int == v@[0] as int - '0' as int),
        e.pure_threshold matches Some(v) ==> (one_nonzero_digit(v@) ==> c.pure_threshold as int == v@[0] as int - '0' as int),
        e.chain_threshold matches Some(v) ==> (one_nonzero_digit(v@) ==> c.chain_threshold as int == v@[0] as int - '0' as int),
        e.max is None ==> c.max_per_fn == 8,
        (e.licm is None && e.licm_threshold is None) ==> c.licm_enabled && c.licm_threshold == 2,
        e.licm_max is None ==> c.licm_max_per_loop == 4,
        (e.pure is None && e.pure_threshold is None) ==> c.pure_enabled && c.pure_threshold == 2,
        (e.chain is None && e.chain_threshold is None) ==> c.chain_enabled && c.chain_threshold == 2,
        e.chain_depth is None ==> c.chain_max_depth == 4,
        e.ipa is None ==> c.ipa_enabled,
        e.ipa_iter is None ==> c.ipa_iter_limit == 10,
{
    if let Some(v) = e.field_cache { if written_off(v@) { lemma_written_off_says_off(v@); } }
    if let Some(v) = e.licm { if written_off(v@) { lemma_written_off_says_off(v@); } }
    if let Some(v) = e.pure { if written_off(v@) { lemma_written_off_says_off(v@); } }
    if let Some(v) = e.chain { if written_off(v@) { lemma_written_off_says_off(v@); } }
    if let Some(v) = e.ipa { if written_off(v@) { lemma_written_off_says_off(v@); } }
    lemma_digit_parses(e.threshold);
    lemma_digit_parses(e.max);
    lemma_digit_parses(e.licm_threshold);
    lemma_digit_parses(e.licm_max);
    lemma_digit_parses(e.pure_threshold);
    lemma_digit_parses(e.chain_threshold);
    lemma_zero_parses(e.threshold);
    lemma_zero_parses(e.licm_threshold);
    lemma_zero_parses(e.pure_threshold);
    lemma_zero_parses(e.chain_threshold);
}

/// `v` is one decimal digit other than `0`.
pub open spec fn one_nonzero_digit(v: Seq<char>) -> bool {
    v.len() == 1 && '1' <= v[0] && v[0] <= '9'
}

proof fn lemma_digit_parses(o: Option<String>)
    ensures
        o matches Some(v) ==> (one_nonzero_digit(v@) ==> opt_num(o) == Some((v@[0] as int - '0' as int) as nat)),
{
    if let Some(v) = o {
        if one_nonzero_digit(v@) {
            let d = digits_part(v@);
            assert(d =~= v@);
            assert(all_digits(d));
            assert(d.drop_last() =~= Seq::<char>::empty());
            assert(digits_value(d.drop_last()) == 0);
            assert(digits_value(d) == (v@[0] as int - '0' as int) as nat);
        }
    }
}

proof fn lemma_zero_parses(o: Option<String>)
    ensures
        (o matches Some(v) && v@ =~= seq!['0']) ==> opt_num(o) == Some(0nat),
{
    if let Some(v) = o {
        if v@ =~= seq!['0'] {
            let d = digits_part(v@);
            assert(d =~= seq!['0']);
            assert(all_digits(d));
            assert(d.drop_last() =~= Seq::<char>::empty());
            assert(digits_value(d.drop_last()) == 0);
            assert(d.last() == '0');
            assert(digits_value(d) == 0);
        }
    }
}

} // verus!
