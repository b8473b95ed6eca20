// Documentation-test runner tests. The front end and the interpreter are
// reached through `DocPipeline`; the stand-in below accepts every source
// except one that binds a string literal to an `int` annotation, which its
// check step rejects, and runs every loaded module successfully.

use compiler_codegen::doc::test_runner::{
    first_step, next_step, outcome_from, rename_main_in_source, run_doc_tests, run_doc_tests_with_source, wrap_source, DocAnswer,
    DocPipeline, DocStep, DocTest, DocTestModifier, DocTestOutcome,
};

struct StandIn {
    source: String,
}

impl DocPipeline for StandIn {
    fn parse(&mut self, source: &str) -> Result<(), String> {
        self.source = source.to_string();
        Ok(())
    }
    fn check(&mut self) -> Result<(), Vec<String>> {
        if self.source.contains(": int = \"") {
            Err(vec!["type mismatch: expected int, found str".to_string()])
        } else {
            Ok(())
        }
    }
    fn load(&mut self) -> Result<(), String> {
        Ok(())
    }
    fn run_main(&mut self) -> Result<(), String> {
        Ok(())
    }
}

fn stand_in() -> StandIn {
    StandIn { source: String::new() }
}

fn make_test(source: &str, modifiers: Vec<DocTestModifier>) -> DocTest {
    DocTest {
        id: "test::doc_test_1".to_string(),
        from_id: None,
        index: 1,
        modifiers,
        visible_source: source.to_string(),
        full_source: source.to_string(),
    }
}

#[test]
fn passes_trivial_body() {
    let t = make_test("let _ = 1\n", vec![]);
    let s = run_doc_tests(&vec![t], &mut stand_in());
    assert_eq!(s.results[0].outcome, DocTestOutcome::Passed, "{:?}", s.results[0].outcome);
}

#[test]
fn ignore_skips() {
    let t = make_test("garbage", vec![DocTestModifier::Ignore]);
    let s = run_doc_tests(&vec![t], &mut stand_in());
    assert!(matches!(s.results[0].outcome, DocTestOutcome::Skipped(_)));
}

#[test]
fn no_run_passes_when_compiles() {
    let t = make_test("let x = 1\n", vec![DocTestModifier::NoRun]);
    let s = run_doc_tests(&vec![t], &mut stand_in());
    assert_eq!(s.results[0].outcome, DocTestOutcome::Passed);
}

#[test]
fn compile_fail_passes_when_fails() {
    let t = make_test("let x: int = \"not an int\"\n", vec![DocTestModifier::CompileFail]);
    let s = run_doc_tests(&vec![t], &mut stand_in());
    assert_eq!(s.results[0].outcome, DocTestOutcome::Passed);
}

#[test]
fn compile_fail_fails_when_compiles() {
    let t = make_test("let x = 1\n", vec![DocTestModifier::CompileFail]);
    let s = run_doc_tests(&vec![t], &mut stand_in());
    assert!(matches!(s.results[0].outcome, DocTestOutcome::Failed(_)));
}

#[test]
fn must_verify_skipped() {
    let t = make_test("let x = 1\n", vec![DocTestModifier::MustVerify]);
    let s = run_doc_tests(&vec![t], &mut stand_in());
    assert!(matches!(s.results[0].outcome, DocTestOutcome::Skipped(_)));
}

#[test]
fn wraps_body_correctly() {
    let wrapped = wrap_source("let x = 1\n", None);
    assert!(wrapped.contains("fn main"));
    assert!(wrapped.contains("let x = 1"));
}

#[test]
fn top_level_decl_not_wrapped_in_main() {
    let wrapped = wrap_source("fn helper() -> int => 42\n", None);
    assert!(!wrapped.contains("fn main"));
    assert!(wrapped.contains("fn helper"));
}

#[test]
fn wrap_with_original_source_injects_module() {
    let orig = "module my.mod\n\nexport fn double(x int) -> int => x * 2\n";
    let wrapped = wrap_source("let r = double(3)\n", Some(orig));
    assert!(wrapped.contains("module my.mod"));
    assert!(wrapped.contains("fn double"));
    assert!(wrapped.contains("fn main"));
    assert!(wrapped.contains("let r = double(3)"));
}

#[test]
fn rename_main_handles_both_forms() {
    let s = "fn main() => println(\"hi\")\nfn helper() -> int => 1\n";
    let r = rename_main_in_source(s);
    assert!(r.starts_with("fn __orig_main()"));
    assert!(r.contains("fn helper"));

    let s2 = "export fn main(args []str) -> int => 0\n";
    let r2 = rename_main_in_source(s2);
    assert!(r2.starts_with("export fn __orig_main("));
}

#[test]
fn rename_main_no_main_unchanged() {
    let s = "module x\n\nexport fn other() => ()\n";
    assert_eq!(rename_main_in_source(s), s.trim_end());
}

// Further cases.

#[test]
fn wrap_without_source_uses_doctest_module() {
    assert_eq!(wrap_source("let x = 1", None), "module __doctest__\n\nfn main() -> () => {\nlet x = 1\n}\n");
}

#[test]
fn wrap_with_source_renames_original_main() {
    let r = wrap_source("fn t() => ()", Some("fn main() => ()\n"));
    assert_eq!(r, "fn __orig_main() => ()\n\nfn t() => ()\n");
}

#[test]
fn comment_lines_do_not_decide_wrapping() {
    let r = wrap_source("// note\n\nfn f() => ()", None);
    assert!(!r.contains("fn main"));
    let r2 = wrap_source("/// doc\nlet y = 2", None);
    assert!(r2.contains("fn main() -> () => {"));
}

#[test]
fn summary_counts_each_outcome() {
    let tests = vec![
        make_test("let a = 1", vec![]),
        make_test("x", vec![DocTestModifier::Ignore]),
        make_test("let b = 2", vec![DocTestModifier::CompileFail]),
        make_test("let c: int = \"s\"", vec![]),
    ];
    let s = run_doc_tests(&tests, &mut stand_in());
    assert_eq!(s.results.len(), 4);
    assert_eq!(s.passed(), 1);
    assert_eq!(s.skipped(), 1);
    assert_eq!(s.failed(), 2);
    assert!(!s.all_passed());
    assert_eq!(s.results[3].outcome, DocTestOutcome::Failed("type-check error: type mismatch: expected int, found str".to_string()));
    assert_eq!(s.results[1].outcome, DocTestOutcome::Skipped("ignore modifier".to_string()));
}

struct FailingRun;

impl DocPipeline for FailingRun {
    fn parse(&mut self, _source: &str) -> Result<(), String> {
        Ok(())
    }
    fn check(&mut self) -> Result<(), Vec<String>> {
        Ok(())
    }
    fn load(&mut self) -> Result<(), String> {
        Ok(())
    }
    fn run_main(&mut self) -> Result<(), String> {
        Err("boom".to_string())
    }
}

#[test]
fn should_panic_passes_on_runtime_error() {
    let s = run_doc_tests(&vec![make_test("f()", vec![DocTestModifier::ShouldPanic])], &mut FailingRun);
    assert_eq!(s.results[0].outcome, DocTestOutcome::Passed);
    let s2 = run_doc_tests(&vec![make_test("f()", vec![])], &mut FailingRun);
    assert_eq!(s2.results[0].outcome, DocTestOutcome::Failed("runtime error: boom".to_string()));
    let s3 = run_doc_tests(&vec![make_test("f()", vec![DocTestModifier::ShouldPanic])], &mut stand_in());
    assert_eq!(s3.results[0].outcome, DocTestOutcome::Failed("should_panic: expected panic, got success".to_string()));
}

#[test]
fn first_step_parses_wrapped_source() {
    let t = make_test("let _ = 1\n", vec![]);
    let orig = "module my.mod\n\nexport fn double(x int) -> int => x * 2\n";
    match first_step(&t, Some(orig)) {
        DocStep::Parse(src) => assert_eq!(src, wrap_source("let _ = 1\n", Some(orig))),
        other => panic!("expected parse, got {:?}", other),
    }
}

#[test]
fn first_step_skips_must_verify() {
    let t = make_test("x", vec![DocTestModifier::MustVerify]);
    match first_step(&t, None) {
        DocStep::Done(DocTestOutcome::Skipped(m)) => assert_eq!(m, "must_verify not yet wired"),
        other => panic!("expected skip, got {:?}", other),
    }
}

#[test]
fn next_step_follows_answers() {
    let none: Vec<DocTestModifier> = vec![];
    assert!(matches!(next_step(&none, DocAnswer::Parsed(Ok(()))), DocStep::Check));
    assert!(matches!(next_step(&none, DocAnswer::Checked(Ok(()))), DocStep::Load));
    assert!(matches!(next_step(&none, DocAnswer::Loaded(Ok(()))), DocStep::RunMain));
    match next_step(&none, DocAnswer::Ran(Err("boom".to_string()))) {
        DocStep::Done(DocTestOutcome::Failed(m)) => assert_eq!(m, "runtime error: boom"),
        other => panic!("unexpected {:?}", other),
    }
    match next_step(&none, DocAnswer::Parsed(Err("bad".to_string()))) {
        DocStep::Done(DocTestOutcome::Failed(m)) => assert_eq!(m, "parse error: bad"),
        other => panic!("unexpected {:?}", other),
    }
    match next_step(&none, DocAnswer::Checked(Err(vec!["a".to_string(), "b".to_string()]))) {
        DocStep::Done(DocTestOutcome::Failed(m)) => assert_eq!(m, "type-check error: a; b"),
        other => panic!("unexpected {:?}", other),
    }
    match next_step(&none, DocAnswer::Loaded(Err("nope".to_string()))) {
        DocStep::Done(DocTestOutcome::Failed(m)) => assert_eq!(m, "load error: nope"),
        other => panic!("unexpected {:?}", other),
    }
    let sp = vec![DocTestModifier::ShouldPanic];
    assert!(matches!(next_step(&sp, DocAnswer::Ran(Err("boom".to_string()))), DocStep::Done(DocTestOutcome::Passed)));
    let nr = vec![DocTestModifier::NoRun];
    assert!(matches!(next_step(&nr, DocAnswer::Checked(Ok(()))), DocStep::Done(DocTestOutcome::Passed)));
}

struct Recorder {
    parsed: Vec<String>,
}

impl DocPipeline for Recorder {
    fn parse(&mut self, source: &str) -> Result<(), String> {
        self.parsed.push(source.to_string());
        Ok(())
    }
    fn check(&mut self) -> Result<(), Vec<String>> {
        Ok(())
    }
    fn load(&mut self) -> Result<(), String> {
        Ok(())
    }
    fn run_main(&mut self) -> Result<(), String> {
        Err("panicked".to_string())
    }
}

#[test]
fn runner_hands_wrapped_source_to_parse() {
    let orig = "module my.mod\n\nexport fn main() => ()\n";
    let t = make_test("let _ = 1\n", vec![DocTestModifier::ShouldPanic]);
    let mut p = Recorder { parsed: Vec::new() };
    let s = run_doc_tests_with_source(&vec![t], Some(orig), &mut p);
    assert_eq!(p.parsed, vec![wrap_source("let _ = 1\n", Some(orig))]);
    assert_eq!(s.results[0].outcome, DocTestOutcome::Passed);
}

#[test]
fn outcome_from_composes_answers() {
    let none: Vec<DocTestModifier> = vec![];
    let ok: Result<(), String> = Ok(());
    let ok_check: Result<(), Vec<String>> = Ok(());
    assert_eq!(outcome_from(&none, &ok, &ok_check, &ok, &ok), DocTestOutcome::Passed);
    assert_eq!(
        outcome_from(&none, &Err("x".to_string()), &ok_check, &ok, &ok),
        DocTestOutcome::Failed("parse error: x".to_string())
    );
    assert_eq!(
        outcome_from(&none, &ok, &ok_check, &Err("l".to_string()), &ok),
        DocTestOutcome::Failed("load error: l".to_string())
    );
    let cf = vec![DocTestModifier::CompileFail];
    assert_eq!(
        outcome_from(&cf, &ok, &ok_check, &ok, &ok),
        DocTestOutcome::Failed("compile_fail: expected error, got success".to_string())
    );
    assert_eq!(outcome_from(&cf, &ok, &Err(vec!["e".to_string()]), &ok, &ok), DocTestOutcome::Passed);
}
