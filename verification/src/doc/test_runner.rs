//! Running documentation tests: each test's source is wrapped into a
//! module (with the documented file's items in scope when that source is
//! given), then taken through the front end and the interpreter as far as
//! its modifiers ask.

use vstd::prelude::*;
use crate::text::{
    has_prefix, is_ws, join_lines, lines_of, push_char, push_str, split_lines, starts_with_str, trim_start,
    char_is_ws, chars_of, string_of_range,
};

verus! {

/// How a documentation test is to be run.
#[derive(Clone, Copy, Debug, PartialEq, Eq, Structural)]
pub enum DocTestModifier {
    Ignore,
    CompileFail,
    NoRun,
    ShouldPanic,
    MustVerify,
}

/// One documentation test.
#[derive(Debug)]
pub struct DocTest {
    pub id: String,
    pub from_id: Option<String>,
    pub index: usize,
    pub modifiers: Vec<DocTestModifier>,
    pub visible_source: String,
    pub full_source: String,
}

/// Result of running one documentation test.
#[derive(Debug, PartialEq, Eq)]
pub enum DocTestOutcome {
    Passed,
    Failed(String),
    Skipped(String),
}

/// A test's id with its outcome.
#[derive(Debug)]
pub struct DocTestResult {
    pub id: String,
    pub outcome: DocTestOutcome,
}

/// The results of a run, in the order of the tests.
#[derive(Debug)]
pub struct DocTestSummary {
    pub results: Vec<DocTestResult>,
}

/// How many of the results satisfy `p` (by outcome).
pub open spec fn count_outcomes(rs: Seq<DocTestResult>, p: spec_fn(DocTestOutcome) -> bool) -> nat
    decreases rs.len(),
{
    if rs.len() == 0 {
        0
    } else {
        count_outcomes(rs.drop_last(), p) + if p(rs.last().outcome) { 1nat } else { 0nat }
    }
}

pub open spec fn is_passed(o: DocTestOutcome) -> bool {
    o is Passed
}

pub open spec fn is_failed(o: DocTestOutcome) -> bool {
    o is Failed
}

pub open spec fn is_skipped(o: DocTestOutcome) -> bool {
    o is Skipped
}

fn count_where(rs: &Vec<DocTestResult>, which: u8) -> (n: usize)
    requires
        which < 3,
    ensures
        n == count_outcomes(rs@, if which == 0 {
            |o: DocTestOutcome| is_passed(o)
        } else if which == 1 {
            |o: DocTestOutcome| is_failed(o)
        } else {
            |o: DocTestOutcome| is_skipped(o)
        }),
{
    let ghost p = if which == 0 {
        |o: DocTestOutcome| is_passed(o)
    } else if which == 1 {
        |o: DocTestOutcome| is_failed(o)
    } else {
        |o: DocTestOutcome| is_skipped(o)
    };
    let mut n: usize = 0;
    let mut i: usize = 0;
    while i < rs.len()
        invariant
            i <= rs@.len(),
            n <= i,
            n == count_outcomes(rs@.subrange(0, i as int), p),
            which < 3,
            p == (if which == 0 {
                |o: DocTestOutcome| is_passed(o)
            } else if which == 1 {
                |o: DocTestOutcome| is_failed(o)
            } else {
                |o: DocTestOutcome| is_skipped(o)
            }),
        decreases rs@.len() - i,
    {
        assert(rs@.subrange(0, i as int + 1).drop_last() =~= rs@.subrange(0, i as int));
        let hit = match &rs[i].outcome {
            DocTestOutcome::Passed => which == 0,
            DocTestOutcome::Failed(_) => which == 1,
            DocTestOutcome::Skipped(_) => which == 2,
        };
        if hit {
            n = n + 1;
        }
        i = i + 1;
    }
    assert(rs@.subrange(0, rs@.len() as int) =~= rs@);
    n
}

impl DocTestSummary {
    /// The number of passed tests.
    pub fn passed(&self) -> (n: usize)
        ensures
            n == count_outcomes(self.results@, |o: DocTestOutcome| is_passed(o)),
    {
        count_where(&self.results, 0)
    }

    /// The number of failed tests.
    pub fn failed(&self) -> (n: usize)
        ensures
            n == count_outcomes(self.results@, |o: DocTestOutcome| is_failed(o)),
    {
        count_where(&self.results, 1)
    }

    /// The number of skipped tests.
    pub fn skipped(&self) -> (n: usize)
        ensures
            n == count_outcomes(self.results@, |o: DocTestOutcome| is_skipped(o)),
    {
        count_where(&self.results, 2)
    }

    /// No test failed.
    pub fn all_passed(&self) -> (r: bool)
        ensures
            r == (count_outcomes(self.results@, |o: DocTestOutcome| is_failed(o)) == 0),
    {
        self.failed() == 0
    }
}

/// The keywords that start a top-level declaration.
pub open spec fn decl_keywords() -> Seq<Seq<char>> {
    seq![
        seq!['m', 'o', 'd', 'u', 'l', 'e', ' '],
        seq!['i', 'm', 'p', 'o', 'r', 't', ' '],
        seq!['f', 'n', ' '],
        seq!['t', 'y', 'p', 'e', ' '],
        seq!['e', 'x', 'p', 'o', 'r', 't', ' '],
        seq!['c', 'o', 'n', 's', 't', ' '],
    ]
}

/// A line that only holds a comment or nothing.
pub open spec fn is_blank_or_comment(line: Seq<char>) -> bool {
    let t = trim_start(line);
    t.len() == 0 || has_prefix(t, seq!['/', '/'])
}

/// Whether the first of `ls[i..]` that is not blank or a comment starts
/// with a declaration keyword.
pub open spec fn first_line_is_decl(ls: Seq<Seq<char>>, i: int) -> bool
    decreases ls.len() - i,
{
    if i < 0 || i >= ls.len() {
        false
    } else if is_blank_or_comment(ls[i]) {
        first_line_is_decl(ls, i + 1)
    } else {
        exists|k: int| 0 <= k < decl_keywords().len() && #[trigger] has_prefix(trim_start(ls[i]), decl_keywords()[k])
    }
}

/// `s` without its leading white space.
fn trim_start_string(s: &str) -> (r: String)
    ensures
        r@ == trim_start(s@),
{
    let x = chars_of(s);
    let mut i: usize = 0;
    assert(s@.subrange(0, s@.len() as int) =~= s@);
    while i < x.len() && char_is_ws(x[i])
        invariant
            x@ == s@,
            i <= x@.len(),
            trim_start(s@) == trim_start(s@.subrange(i as int, s@.len() as int)),
        decreases x@.len() - i,
    {
        assert(s@.subrange(i as int, s@.len() as int).drop_first() =~= s@.subrange(i as int + 1, s@.len() as int));
        i = i + 1;
    }
    let r = string_of_range(&x, i, x.len());
    proof {
        if i == 0 {
            assert(s@.subrange(0, s@.len() as int) =~= s@);
        }
    }
    r
}

/// Whether the source starts with a top-level declaration (its first line
/// that is neither blank nor a comment begins with `module`, `import`,
/// `fn`, `type`, `export` or `const` and a space); otherwise it is a body.
pub fn has_top_level_decl(source: &str) -> (r: bool)
    ensures
        r == first_line_is_decl(split_lines(source@), 0),
{
    let ls = lines_of(source);
    let ghost lv = ls@.map_values(|l: String| l@);
    let mut i: usize = 0;
    while i < ls.len()
        invariant
            i <= ls@.len(),
            lv == ls@.map_values(|l: String| l@),
            lv == split_lines(source@),
            first_line_is_decl(lv, 0) == first_line_is_decl(lv, i as int),
        decreases ls@.len() - i,
    {
        let t = trim_start_string(ls[i].as_str());
        assert(lv[i as int] == ls@[i as int]@);
        proof {
            reveal_strlit("//");
            assert("//"@ =~= seq!['/', '/']);
        }
        if t.unicode_len() == 0 || starts_with_str(t.as_str(), "//") {
            assert(is_blank_or_comment(lv[i as int]));
            i = i + 1;
            continue;
        }
        assert(!is_blank_or_comment(lv[i as int]));
        proof {
            reveal_strlit("//");
            reveal_strlit("module ");
            reveal_strlit("import ");
            reveal_strlit("fn ");
            reveal_strlit("type ");
            reveal_strlit("export ");
            reveal_strlit("const ");
        }
        let r = starts_with_str(t.as_str(), "module ") || starts_with_str(t.as_str(), "import ")
            || starts_with_str(t.as_str(), "fn ") || starts_with_str(t.as_str(), "type ")
            || starts_with_str(t.as_str(), "export ") || starts_with_str(t.as_str(), "const ");
        proof {
            let kw = decl_keywords();
            assert(kw[0] =~= "module "@);
            assert(kw[1] =~= "import "@);
            assert(kw[2] =~= "fn "@);
            assert(kw[3] =~= "type "@);
            assert(kw[4] =~= "export "@);
            assert(kw[5] =~= "const "@);
            if !r {
                assert forall|k: int| 0 <= k < kw.len() implies !#[trigger] has_prefix(trim_start(lv[i as int]), kw[k]) by {
                    if k == 0 {} else if k == 1 {} else if k == 2 {} else if k == 3 {} else if k == 4 {} else {}
                }
            } else {
                if has_prefix(t@, kw[0]) {
                    assert(has_prefix(trim_start(lv[i as int]), kw[0]));
                } else if has_prefix(t@, kw[1]) {
                    assert(has_prefix(trim_start(lv[i as int]), kw[1]));
                } else if has_prefix(t@, kw[2]) {
                    assert(has_prefix(trim_start(lv[i as int]), kw[2]));
                } else if has_prefix(t@, kw[3]) {
                    assert(has_prefix(trim_start(lv[i as int]), kw[3]));
                } else if has_prefix(t@, kw[4]) {
                    assert(has_prefix(trim_start(lv[i as int]), kw[4]));
                } else {
                    assert(has_prefix(trim_start(lv[i as int]), kw[5]));
                }
            }
        }
        return r;
    }
    false
}

/// A line with a leading `fn main(` or `export fn main(` renamed to
/// `__orig_main`.
pub open spec fn renamed_line(line: Seq<char>) -> Seq<char> {
    let a = seq!['f', 'n', ' ', 'm', 'a', 'i', 'n', '('];
    let b = seq!['e', 'x', 'p', 'o', 'r', 't', ' '] + a;
    let ra = seq!['f', 'n', ' ', '_', '_', 'o', 'r', 'i', 'g', '_', 'm', 'a', 'i', 'n', '('];
    if has_prefix(line, a) {
        ra + line.subrange(a.len() as int, line.len() as int)
    } else if has_prefix(line, b) {
        seq!['e', 'x', 'p', 'o', 'r', 't', ' '] + ra + line.subrange(b.len() as int, line.len() as int)
    } else {
        line
    }
}

/// The source with `fn main(` renamed to `fn __orig_main(` (also after
/// `export `) at the start of each line; the lines are joined by `\n`.
pub fn rename_main_in_source(src: &str) -> (r: String)
    ensures
        r@ == join_lines(split_lines(src@).map_values(|l: Seq<char>| renamed_line(l))),
{
    let ls = lines_of(src);
    let ghost lv = ls@.map_values(|l: String| l@);
    let mut out = String::new();
    let mut i: usize = 0;
    while i < ls.len()
        invariant
            i <= ls@.len(),
            lv == ls@.map_values(|l: String| l@),
            lv == split_lines(src@),
            out@ == join_lines(lv.subrange(0, i as int).map_values(|l: Seq<char>| renamed_line(l))),
        decreases ls@.len() - i,
    {
        let line = ls[i].as_str();
        proof {
            reveal_strlit("fn main(");
            reveal_strlit("export fn main(");
            reveal_strlit("fn __orig_main(");
            reveal_strlit("export fn __orig_main(");
            assert("fn main("@ =~= seq!['f', 'n', ' ', 'm', 'a', 'i', 'n', '(']);
            assert("export fn main("@ =~= seq!['e', 'x', 'p', 'o', 'r', 't', ' '] + seq!['f', 'n', ' ', 'm', 'a', 'i', 'n', '(']);
            assert("fn __orig_main("@ =~= seq!['f', 'n', ' ', '_', '_', 'o', 'r', 'i', 'g', '_', 'm', 'a', 'i', 'n', '(']);
            assert("export fn __orig_main("@ =~= seq!['e', 'x', 'p', 'o', 'r', 't', ' ']
                + seq!['f', 'n', ' ', '_', '_', 'o', 'r', 'i', 'g', '_', 'm', 'a', 'i', 'n', '(']);
        }
        let ghost before = out@;
        if i > 0 {
            push_char(&mut out, '\n');
        }
        let ghost mid = out@;
        if starts_with_str(line, "fn main(") {
            push_str(&mut out, "fn __orig_main(");
            let x = chars_of(line);
            let rest = string_of_range(&x, 8, x.len());
            push_str(&mut out, rest.as_str());
        } else if starts_with_str(line, "export fn main(") {
            push_str(&mut out, "export fn __orig_main(");
            let x = chars_of(line);
            let rest = string_of_range(&x, 15, x.len());
            push_str(&mut out, rest.as_str());
        } else {
            push_str(&mut out, line);
        }
        proof {
            let rn = |l: Seq<char>| renamed_line(l);
            let done = lv.subrange(0, i as int + 1).map_values(rn);
            assert(lv[i as int] == line@);
            assert(out@ =~= mid + renamed_line(line@));
            assert(lv.subrange(0, i as int + 1).map_values(rn).drop_last() =~= lv.subrange(0, i as int).map_values(rn));
            if i == 0 {
                assert(done =~= seq![renamed_line(line@)]);
            }
        }
        i = i + 1;
    }
    proof {
        assert(lv.subrange(0, lv.len() as int) =~= lv);
    }
    out
}

/// The source a documentation test is run as: the test (wrapped into
/// `fn main() -> () => { .. }` unless it starts with a declaration) after
/// the documented file's source with its `main` renamed, or after the
/// header `module __doctest__`.
pub open spec fn wrapped_source(test: Seq<char>, orig: Option<Seq<char>>) -> Seq<char> {
    let part = if first_line_is_decl(split_lines(test), 0) {
        test
    } else {
        "fn main() -> () => {\n"@ + test + "\n}"@
    };
    match orig {
        Some(o) => join_lines(split_lines(o).map_values(|l: Seq<char>| renamed_line(l))) + "\n\n"@ + part + "\n"@,
        None => "module __doctest__\n\n"@ + part + "\n"@,
    }
}

/// Wraps a documentation test's source (see `wrapped_source`).
pub fn wrap_source(test_source: &str, original_source: Option<&str>) -> (r: String)
    ensures
        r@ == wrapped_source(test_source@, match original_source {
            Some(o) => Some(o@),
            None => None,
        }),
{
    let mut part = String::new();
    if has_top_level_decl(test_source) {
        push_str(&mut part, test_source);
    } else {
        push_str(&mut part, "fn main() -> () => {\n");
        push_str(&mut part, test_source);
        push_str(&mut part, "\n}");
    }
    let mut out = String::new();
    match original_source {
        Some(orig) => {
            let cleaned = rename_main_in_source(orig);
            push_str(&mut out, cleaned.as_str());
            push_str(&mut out, "\n\n");
        },
        None => {
            push_str(&mut out, "module __doctest__\n\n");
        },
    }
    push_str(&mut out, part.as_str());
    push_str(&mut out, "\n");
    proof {
        assert(out@ =~= wrapped_source(test_source@, match original_source {
            Some(o) => Some(o@),
            None => None,
        }));
    }
    out
}

/// The tools a documentation test is taken through: the front end (parse,
/// then type-check the parsed module) and the interpreter (load, then run
/// `main`). Each step reports the diagnostics it ends with.
pub trait DocPipeline {
    fn parse(&mut self, source: &str) -> Result<(), String>;
    fn check(&mut self) -> Result<(), Vec<String>>;
    fn load(&mut self) -> Result<(), String>;
    fn run_main(&mut self) -> Result<(), String>;
}

pub open spec fn has_modifier(ms: Seq<DocTestModifier>, m: DocTestModifier) -> bool {
    ms.contains(m)
}

fn find_modifier(ms: &Vec<DocTestModifier>, m: DocTestModifier) -> (r: bool)
    ensures
        r == has_modifier(ms@, m),
{
    let mut i: usize = 0;
    while i < ms.len()
        invariant
            i <= ms@.len(),
            forall|k: int| 0 <= k < i ==> ms@[k] != m,
        decreases ms@.len() - i,
    {
        if ms[i] == m {
            assert(ms@[i as int] == m);
            return true;
        }
        i = i + 1;
    }
    false
}

/// `prefix` followed by `msg`.
fn message(prefix: &str, msg: &str) -> (r: String)
    ensures
        r@ == prefix@ + msg@,
{
    let mut r = String::new();
    push_str(&mut r, prefix);
    push_str(&mut r, msg);
    r
}

/// The outcome decided before anything is run: skipped for `ignore`, then
/// for `must_verify`.
pub open spec fn skip_outcome(ms: Seq<DocTestModifier>) -> Option<Seq<char>> {
    if has_modifier(ms, DocTestModifier::Ignore) {
        Some("ignore modifier"@)
    } else if has_modifier(ms, DocTestModifier::MustVerify) {
        Some("must_verify not yet wired"@)
    } else {
        None
    }
}

/// The outcome when the source does not parse: passed for `compile_fail`,
/// else failed with the parse error.
pub fn outcome_of_parse_error(ms: &Vec<DocTestModifier>, msg: &str) -> (o: DocTestOutcome)
    ensures
        has_modifier(ms@, DocTestModifier::CompileFail) ==> o is Passed,
        !has_modifier(ms@, DocTestModifier::CompileFail) ==> (o matches DocTestOutcome::Failed(m) && m@ == "parse error: "@ + msg@),
{
    if find_modifier(ms, DocTestModifier::CompileFail) {
        DocTestOutcome::Passed
    } else {
        DocTestOutcome::Failed(message("parse error: ", msg))
    }
}

/// `msgs` joined by `; `.
pub open spec fn joined(msgs: Seq<Seq<char>>) -> Seq<char>
    decreases msgs.len(),
{
    if msgs.len() == 0 {
        Seq::empty()
    } else if msgs.len() == 1 {
        msgs[0]
    } else {
        joined(msgs.drop_last()) + "; "@ + msgs.last()
    }
}

fn join_messages(msgs: &Vec<String>) -> (r: String)
    ensures
        r@ == joined(msgs@.map_values(|m: String| m@)),
{
    let ghost mv = msgs@.map_values(|m: String| m@);
    let mut r = String::new();
    let mut i: usize = 0;
    while i < msgs.len()
        invariant
            i <= msgs@.len(),
            mv == msgs@.map_values(|m: String| m@),
            r@ == joined(mv.subrange(0, i as int)),
        decreases msgs@.len() - i,
    {
        if i > 0 {
            push_str(&mut r, "; ");
        }
        push_str(&mut r, msgs[i].as_str());
        proof {
            assert(mv.subrange(0, i as int + 1).drop_last() =~= mv.subrange(0, i as int));
            if i == 0 {
                assert(mv.subrange(0, 1) =~= seq![mv[0]]);
            }
        }
        i = i + 1;
    }
    assert(mv.subrange(0, mv.len() as int) =~= mv);
    r
}

/// The outcome once the module type-checks or not: on errors, passed for
/// `compile_fail`, else failed with them; on success, failed for
/// `compile_fail`, passed for `no_run`, and otherwise not decided yet.
pub fn outcome_of_check(ms: &Vec<DocTestModifier>, check: &Result<(), Vec<String>>) -> (o: Option<DocTestOutcome>)
    ensures
        match check {
            Err(errs) => if has_modifier(ms@, DocTestModifier::CompileFail) {
                o matches Some(DocTestOutcome::Passed)
            } else {
                (o matches Some(DocTestOutcome::Failed(m)) && m@ == "type-check error: "@ + joined(errs@.map_values(|e: String| e@)))
            },
            Ok(_) => if has_modifier(ms@, DocTestModifier::CompileFail) {
                (o matches Some(DocTestOutcome::Failed(m)) && m@ == "compile_fail: expected error, got success"@)
            } else if has_modifier(ms@, DocTestModifier::NoRun) {
                o matches Some(DocTestOutcome::Passed)
            } else {
                o is None
            },
        },
{
    let compile_fail = find_modifier(ms, DocTestModifier::CompileFail);
    match check {
        Err(errs) => {
            if compile_fail {
                Some(DocTestOutcome::Passed)
            } else {
                let joined_msgs = join_messages(errs);
                Some(DocTestOutcome::Failed(message("type-check error: ", joined_msgs.as_str())))
            }
        },
        Ok(_) => {
            if compile_fail {
                Some(DocTestOutcome::Failed(String::from_str("compile_fail: expected error, got success")))
            } else if find_modifier(ms, DocTestModifier::NoRun) {
                Some(DocTestOutcome::Passed)
            } else {
                None
            }
        },
    }
}

/// The outcome of loading and running `main`: a load error fails; then,
/// with `should_panic`, a runtime error passes and success fails, and
/// without it the other way round.
pub fn outcome_of_run(ms: &Vec<DocTestModifier>, load: &Result<(), String>, run: &Result<(), String>) -> (o: DocTestOutcome)
    ensures
        match load {
            Err(m) => (o matches DocTestOutcome::Failed(x) && x@ == "load error: "@ + m@),
            Ok(_) => match run {
                Ok(_) => if has_modifier(ms@, DocTestModifier::ShouldPanic) {
                    (o matches DocTestOutcome::Failed(x) && x@ == "should_panic: expected panic, got success"@)
                } else {
                    o is Passed
                },
                Err(m) => if has_modifier(ms@, DocTestModifier::ShouldPanic) {
                    o is Passed
                } else {
                    (o matches DocTestOutcome::Failed(x) && x@ == "runtime error: "@ + m@)
                },
            },
        },
{
    match load {
        Err(m) => DocTestOutcome::Failed(message("load error: ", m.as_str())),
        Ok(_) => {
            let should_panic = find_modifier(ms, DocTestModifier::ShouldPanic);
            match run {
                Ok(_) => if should_panic {
                    DocTestOutcome::Failed(String::from_str("should_panic: expected panic, got success"))
                } else {
                    DocTestOutcome::Passed
                },
                Err(m) => if should_panic {
                    DocTestOutcome::Passed
                } else {
                    DocTestOutcome::Failed(message("runtime error: ", m.as_str()))
                },
            }
        },
    }
}

/// An outcome by its characters.
pub enum OutcomeView {
    Passed,
    Failed(Seq<char>),
    Skipped(Seq<char>),
}

pub open spec fn outcome_view(o: DocTestOutcome) -> OutcomeView {
    match o {
        DocTestOutcome::Passed => OutcomeView::Passed,
        DocTestOutcome::Failed(m) => OutcomeView::Failed(m@),
        DocTestOutcome::Skipped(m) => OutcomeView::Skipped(m@),
    }
}

/// The outcome of a test that is not skipped, from the answers of the
/// steps in order: parse, type-check, load, run `main`. A step is only
/// asked when the answers before it leave the outcome open, so the
/// answers of later steps do not matter once it is decided.
pub open spec fn doc_outcome(
    ms: Seq<DocTestModifier>,
    parse: Result<(), Seq<char>>,
    check: Result<(), Seq<Seq<char>>>,
    load: Result<(), Seq<char>>,
    run: Result<(), Seq<char>>,
) -> OutcomeView {
    let cf = has_modifier(ms, DocTestModifier::CompileFail);
    match parse {
        Err(msg) => if cf { OutcomeView::Passed } else { OutcomeView::Failed("parse error: "@ + msg) },
        Ok(_) => match check {
            Err(errs) => if cf { OutcomeView::Passed } else { OutcomeView::Failed("type-check error: "@ + joined(errs)) },
            Ok(_) => if cf {
                OutcomeView::Failed("compile_fail: expected error, got success"@)
            } else if has_modifier(ms, DocTestModifier::NoRun) {
                OutcomeView::Passed
            } else {
                match load {
                    Err(m) => OutcomeView::Failed("load error: "@ + m),
                    Ok(_) => match run {
                        Ok(_) => if has_modifier(ms, DocTestModifier::ShouldPanic) {
                            OutcomeView::Failed("should_panic: expected panic, got success"@)
                        } else {
                            OutcomeView::Passed
                        },
                        Err(m) => if has_modifier(ms, DocTestModifier::ShouldPanic) {
                            OutcomeView::Passed
                        } else {
                            OutcomeView::Failed("runtime error: "@ + m)
                        },
                    },
                }
            },
        },
    }
}

pub open spec fn unit_result(r: Result<(), String>) -> Result<(), Seq<char>> {
    match r {
        Ok(_) => Ok(()),
        Err(m) => Err(m@),
    }
}

pub open spec fn check_result(r: Result<(), Vec<String>>) -> Result<(), Seq<Seq<char>>> {
    match r {
        Ok(_) => Ok(()),
        Err(es) => Err(es@.map_values(|e: String| e@)),
    }
}

/// The outcome of a test that is not skipped, from the steps' answers (see
/// `doc_outcome`); a step never asked is given as `Ok(())`.
pub fn outcome_from(
    ms: &Vec<DocTestModifier>,
    parse: &Result<(), String>,
    check: &Result<(), Vec<String>>,
    load: &Result<(), String>,
    run: &Result<(), String>,
) -> (o: DocTestOutcome)
    ensures
        outcome_view(o) == doc_outcome(ms@, unit_result(*parse), check_result(*check), unit_result(*load), unit_result(*run)),
{
    match parse {
        Err(msg) => {
            return outcome_of_parse_error(ms, msg.as_str());
        },
        Ok(_) => {},
    }
    match outcome_of_check(ms, check) {
        Some(o) => {
            return o;
        },
        None => {},
    }
    outcome_of_run(ms, load, run)
}

/// The next thing to do for a documentation test.
#[derive(Debug)]
pub enum DocStep {
    /// Parse this source.
    Parse(String),
    /// Type-check the parsed module.
    Check,
    /// Load the checked module into the interpreter.
    Load,
    /// Run the loaded `main`.
    RunMain,
    /// The outcome is decided.
    Done(DocTestOutcome),
}

/// What the step asked for answered.
#[derive(Debug)]
pub enum DocAnswer {
    Parsed(Result<(), String>),
    Checked(Result<(), Vec<String>>),
    Loaded(Result<(), String>),
    Ran(Result<(), String>),
}

/// How many steps can follow at most.
pub open spec fn step_rank(s: DocStep) -> nat {
    match s {
        DocStep::Parse(_) => 4,
        DocStep::Check => 3,
        DocStep::Load => 2,
        DocStep::RunMain => 1,
        DocStep::Done(_) => 0,
    }
}

pub open spec fn opt_str_view(o: Option<&str>) -> Option<Seq<char>> {
    match o {
        Some(s) => Some(s@),
        None => None,
    }
}

/// The first step of a test: its skip outcome for `ignore` or
/// `must_verify`, else parsing its source wrapped by `wrap_source`.
pub fn first_step(t: &DocTest, original_source: Option<&str>) -> (s: DocStep)
    ensures
        match skip_outcome(t.modifiers@) {
            Some(m) => (s matches DocStep::Done(o) && (o matches DocTestOutcome::Skipped(x) && x@ == m)),
            None => (s matches DocStep::Parse(src) && src@ == wrapped_source(t.full_source@, opt_str_view(original_source))),
        },
{
    if find_modifier(&t.modifiers, DocTestModifier::Ignore) {
        return DocStep::Done(DocTestOutcome::Skipped(String::from_str("ignore modifier")));
    }
    if find_modifier(&t.modifiers, DocTestModifier::MustVerify) {
        return DocStep::Done(DocTestOutcome::Skipped(String::from_str("must_verify not yet wired")));
    }
    DocStep::Parse(wrap_source(t.full_source.as_str(), original_source))
}

/// The step after an answer: a parse or type-check error decides the
/// outcome, a successful check decides it for `compile_fail` and `no_run`
/// and otherwise leads to loading, a failed load decides it, a successful
/// one leads to running `main`, and the run decides it.
pub fn next_step(ms: &Vec<DocTestModifier>, answer: DocAnswer) -> (s: DocStep)
    ensures
        match answer {
            DocAnswer::Parsed(Err(m)) => (s matches DocStep::Done(o)
                && outcome_view(o) == doc_outcome(ms@, Err(m@), Ok(()), Ok(()), Ok(()))),
            DocAnswer::Parsed(Ok(_)) => s is Check,
            DocAnswer::Checked(Err(es)) => (s matches DocStep::Done(o)
                && outcome_view(o) == doc_outcome(ms@, Ok(()), Err(es@.map_values(|e: String| e@)), Ok(()), Ok(()))),
            DocAnswer::Checked(Ok(_)) => if has_modifier(ms@, DocTestModifier::CompileFail) || has_modifier(ms@, DocTestModifier::NoRun) {
                (s matches DocStep::Done(o) && outcome_view(o) == doc_outcome(ms@, Ok(()), Ok(()), Ok(()), Ok(())))
            } else {
                s is Load
            },
            DocAnswer::Loaded(Err(m)) => (s matches DocStep::Done(o) && outcome_view(o) == OutcomeView::Failed("load error: "@ + m@)),
            DocAnswer::Loaded(Ok(_)) => s is RunMain,
            DocAnswer::Ran(r) => (s matches DocStep::Done(o) && outcome_view(o) == match r {
                Ok(_) => if has_modifier(ms@, DocTestModifier::ShouldPanic) {
                    OutcomeView::Failed("should_panic: expected panic, got success"@)
                } else {
                    OutcomeView::Passed
                },
                Err(m) => if has_modifier(ms@, DocTestModifier::ShouldPanic) {
                    OutcomeView::Passed
                } else {
                    OutcomeView::Failed("runtime error: "@ + m@)
                },
            }),
        },
{
    match answer {
        DocAnswer::Parsed(Err(m)) => DocStep::Done(outcome_of_parse_error(ms, m.as_str())),
        DocAnswer::Parsed(Ok(_)) => DocStep::Check,
        DocAnswer::Checked(check) => match outcome_of_check(ms, &check) {
            Some(o) => DocStep::Done(o),
            None => DocStep::Load,
        },
        DocAnswer::Loaded(Err(m)) => DocStep::Done(DocTestOutcome::Failed(message("load error: ", m.as_str()))),
        DocAnswer::Loaded(Ok(_)) => DocStep::RunMain,
        DocAnswer::Ran(run) => {
            let loaded: Result<(), String> = Ok(());
            DocStep::Done(outcome_of_run(ms, &loaded, &run))
        },
    }
}

/// Runs one documentation test by taking it through the pipeline as
/// `first_step` and `next_step` say, until the outcome is decided.
pub fn run_one<P: DocPipeline>(t: &DocTest, original_source: Option<&str>, pipeline: &mut P) -> (o: DocTestOutcome)
    ensures
        match skip_outcome(t.modifiers@) {
            Some(m) => (o matches DocTestOutcome::Skipped(x) && x@ == m),
            None => exists|p: Result<(), Seq<char>>, c: Result<(), Seq<Seq<char>>>, l: Result<(), Seq<char>>, r: Result<(), Seq<char>>|
                #[trigger] doc_outcome(t.modifiers@, p, c, l, r) == outcome_view(o),
        },
{
    let ghost ms = t.modifiers@;
    let ghost mut gp: Result<(), Seq<char>> = Ok(());
    let ghost mut gc: Result<(), Seq<Seq<char>>> = Ok(());
    let ghost mut gl: Result<(), Seq<char>> = Ok(());
    let ghost mut gr: Result<(), Seq<char>> = Ok(());
    let mut step = first_step(t, original_source);
    loop
        invariant
            ms == t.modifiers@,
            match skip_outcome(ms) {
                Some(m) => (step matches DocStep::Done(o) && (o matches DocTestOutcome::Skipped(x) && x@ == m)),
                None => match step {
                    DocStep::Parse(_) => gp is Ok && gc is Ok && gl is Ok && gr is Ok,
                    DocStep::Check => gp is Ok && gc is Ok && gl is Ok && gr is Ok,
                    DocStep::Load => gp is Ok && gc is Ok && gl is Ok && gr is Ok
                        && !has_modifier(ms, DocTestModifier::CompileFail) && !has_modifier(ms, DocTestModifier::NoRun),
                    DocStep::RunMain => gp is Ok && gc is Ok && gl is Ok && gr is Ok
                        && !has_modifier(ms, DocTestModifier::CompileFail) && !has_modifier(ms, DocTestModifier::NoRun),
                    DocStep::Done(o) => doc_outcome(ms, gp, gc, gl, gr) == outcome_view(o),
                },
            },
        decreases step_rank(step),
    {
        match step {
            DocStep::Done(o) => {
                return o;
            },
            DocStep::Parse(src) => {
                let a = pipeline.parse(src.as_str());
                proof { gp = unit_result(a); }
                step = next_step(&t.modifiers, DocAnswer::Parsed(a));
            },
            DocStep::Check => {
                let a = pipeline.check();
                proof { gc = check_result(a); }
                step = next_step(&t.modifiers, DocAnswer::Checked(a));
            },
            DocStep::Load => {
                let a = pipeline.load();
                proof { gl = unit_result(a); }
                step = next_step(&t.modifiers, DocAnswer::Loaded(a));
            },
            DocStep::RunMain => {
                let a = pipeline.run_main();
                proof { gr = unit_result(a); }
                step = next_step(&t.modifiers, DocAnswer::Ran(a));
            },
        }
    }
}

/// Runs the tests in order, each with the documented file's source in scope
/// when it is given.
pub fn run_doc_tests_with_source<P: DocPipeline>(tests: &Vec<DocTest>, original_source: Option<&str>, pipeline: &mut P) -> (s: DocTestSummary)
    ensures
        s.results@.len() == tests@.len(),
        forall|i: int| 0 <= i < tests@.len() ==> (#[trigger] s.results@[i]).id@ == tests@[i].id@
            && match skip_outcome(tests@[i].modifiers@) {
                Some(m) => (s.results@[i].outcome matches DocTestOutcome::Skipped(x) && x@ == m),
                None => exists|p: Result<(), Seq<char>>, c: Result<(), Seq<Seq<char>>>, l: Result<(), Seq<char>>, r: Result<(), Seq<char>>|
                    #[trigger] doc_outcome(tests@[i].modifiers@, p, c, l, r) == outcome_view(s.results@[i].outcome),
            },
{
    let mut results: Vec<DocTestResult> = Vec::new();
    let mut i: usize = 0;
    while i < tests.len()
        invariant
            i <= tests@.len(),
            results@.len() == i,
            forall|k: int| 0 <= k < i ==> (#[trigger] results@[k]).id@ == tests@[k].id@
                && match skip_outcome(tests@[k].modifiers@) {
                    Some(m) => (results@[k].outcome matches DocTestOutcome::Skipped(x) && x@ == m),
                    None => exists|p: Result<(), Seq<char>>, c: Result<(), Seq<Seq<char>>>, l: Result<(), Seq<char>>, r: Result<(), Seq<char>>|
                    #[trigger] doc_outcome(tests@[k].modifiers@, p, c, l, r) == outcome_view(results@[k].outcome),
                },
        decreases tests@.len() - i,
    {
        let t = &tests[i];
        let outcome = run_one(t, original_source, pipeline);
        results.push(DocTestResult { id: String::from_str(t.id.as_str()), outcome });
        i = i + 1;
    }
    DocTestSummary { results }
}

/// Runs the tests without a documented file in scope.
pub fn run_doc_tests<P: DocPipeline>(tests: &Vec<DocTest>, pipeline: &mut P) -> (s: DocTestSummary)
    ensures
        s.results@.len() == tests@.len(),
        forall|i: int| 0 <= i < tests@.len() ==> (#[trigger] s.results@[i]).id@ == tests@[i].id@
            && match skip_outcome(tests@[i].modifiers@) {
                Some(m) => (s.results@[i].outcome matches DocTestOutcome::Skipped(x) && x@ == m),
                None => exists|p: Result<(), Seq<char>>, c: Result<(), Seq<Seq<char>>>, l: Result<(), Seq<char>>, r: Result<(), Seq<char>>|
                    #[trigger] doc_outcome(tests@[i].modifiers@, p, c, l, r) == outcome_view(s.results@[i].outcome),
            },
{
    run_doc_tests_with_source(tests, None, pipeline)
}

} // verus!

verus! {

/// `t` begins with `module`, `import`, `fn`, `type`, `export` or `const`
/// followed by a space.
pub open spec fn begins_declaration(t: Seq<char>) -> bool {
    ||| has_prefix(t, seq!['m', 'o', 'd', 'u', 'l', 'e', ' '])
    ||| has_prefix(t, seq!['i', 'm', 'p', 'o', 'r', 't', ' '])
    ||| has_prefix(t, seq!['f', 'n', ' '])
    ||| has_prefix(t, seq!['t', 'y', 'p', 'e', ' '])
    ||| has_prefix(t, seq!['e', 'x', 'p', 'o', 'r', 't', ' '])
    ||| has_prefix(t, seq!['c', 'o', 'n', 's', 't', ' '])
}

/// The line holds nothing but white space, or a `//` comment.
pub open spec fn line_is_filler(line: Seq<char>) -> bool {
    trim_start(line).len() == 0 || has_prefix(trim_start(line), seq!['/', '/'])
}

proof fn lemma_keywords_listed()
    ensures
        decl_keywords().len() == 6,
        decl_keywords()[0] =~= seq!['m', 'o', 'd', 'u', 'l', 'e', ' '],
        decl_keywords()[1] =~= seq!['i', 'm', 'p', 'o', 'r', 't', ' '],
        decl_keywords()[2] =~= seq!['f', 'n', ' '],
        decl_keywords()[3] =~= seq!['t', 'y', 'p', 'e', ' '],
        decl_keywords()[4] =~= seq!['e', 'x', 'p', 'o', 'r', 't', ' '],
        decl_keywords()[5] =~= seq!['c', 'o', 'n', 's', 't', ' '],
{
}

proof fn lemma_skip_filler(ls: Seq<Seq<char>>, i: int, j: int)
    requires
        0 <= i <= j <= ls.len(),
        forall|q: int| 0 <= q < j ==> line_is_filler(#[trigger] ls[q]),
    ensures
        first_line_is_decl(ls, i) == first_line_is_decl(ls, j),
    decreases j - i,
{
    if i < j {
        assert(line_is_filler(ls[i]));
        assert(is_blank_or_comment(ls[i]));
        lemma_skip_filler(ls, i + 1, j);
    }
}

/// A documentation test is run as it stands when its first line that is
/// not blank or a `//` comment begins a declaration; when that line is
/// anything else, or there is no such line, it becomes the body of a
/// `main` function.
pub proof fn lemma_wrapping_follows_first_code_line(source: Seq<char>, j: int)
    requires
        0 <= j <= split_lines(source).len(),
        forall|q: int| 0 <= q < j ==> line_is_filler(#[trigger] split_lines(source)[q]),
        j < split_lines(source).len() ==> !line_is_filler(split_lines(source)[j]),
    ensures
        (j < split_lines(source).len() && begins_declaration(trim_start(split_lines(source)[j])))
            ==> wrapped_source(source, None) == "module __doctest__\n\n"@ + source + "\n"@,
        !(j < split_lines(source).len() && begins_declaration(trim_start(split_lines(source)[j])))
            ==> wrapped_source(source, None) == "module __doctest__\n\n"@ + ("fn main() -> () => {\n"@ + source + "\n}"@) + "\n"@,
{
    let ls = split_lines(source);
    lemma_skip_filler(ls, 0, j);
    lemma_keywords_listed();
    if j < ls.len() {
        let t = trim_start(ls[j]);
        assert(!is_blank_or_comment(ls[j]));
        if begins_declaration(t) {
            if has_prefix(t, seq!['m', 'o', 'd', 'u', 'l', 'e', ' ']) {
                assert(has_prefix(t, decl_keywords()[0]));
            } else if has_prefix(t, seq!['i', 'm', 'p', 'o', 'r', 't', ' ']) {
                assert(has_prefix(t, decl_keywords()[1]));
            } else if has_prefix(t, seq!['f', 'n', ' ']) {
                assert(has_prefix(t, decl_keywords()[2]));
            } else if has_prefix(t, seq!['t', 'y', 'p', 'e', ' ']) {
                assert(has_prefix(t, decl_keywords()[3]));
            } else if has_prefix(t, seq!['e', 'x', 'p', 'o', 'r', 't', ' ']) {
                assert(has_prefix(t, decl_keywords()[4]));
            } else {
                assert(has_prefix(t, decl_keywords()[5]));
            }
            assert(first_line_is_decl(ls, j));
        } else {
            assert forall|k: int| 0 <= k < decl_keywords().len() implies !#[trigger] has_prefix(t, decl_keywords()[k]) by {
                if k == 0 { assert(decl_keywords()[0] =~= seq!['m', 'o', 'd', 'u', 'l', 'e', ' ']); }
                else if k == 1 { assert(decl_keywords()[1] =~= seq!['i', 'm', 'p', 'o', 'r', 't', ' ']); }
                else if k == 2 { assert(decl_keywords()[2] =~= seq!['f', 'n', ' ']); }
                else if k == 3 { assert(decl_keywords()[3] =~= seq!['t', 'y', 'p', 'e', ' ']); }
                else if k == 4 { assert(decl_keywords()[4] =~= seq!['e', 'x', 'p', 'o', 'r', 't', ' ']); }
                else { assert(decl_keywords()[5] =~= seq!['c', 'o', 'n', 's', 't', ' ']); }
            }
            assert(!first_line_is_decl(ls, j));
        }
    } else {
        assert(!first_line_is_decl(ls, j));
    }
}

} // verus!
