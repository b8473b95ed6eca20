// Git-dependency tests: repository ids, pins, the lock table, and runs of
// the commit resolution against scripted git answers.

use compiler_codegen::git_cache::{
    checkout_components, db_components, forget_lock_entry, install_lock_entries, locked_commit_for, memo_key, pin_label,
    pin_specs, repo_id, resolve_git_dep, CommitResolver, GitAction, GitEvent, GitPin, GitResolution, LockTable,
    ResolveMemo, ResolveStart,
};

const C1: &str = "0123456789abcdef0123456789abcdef01234567";
const C2: &str = "89abcdef0123456789abcdef0123456789ABCDEF";

#[test]
fn repo_id_stable_and_distinct() {
    assert_eq!(repo_id("https://x.org/a.git"), repo_id("https://x.org/a.git"));
    assert_ne!(repo_id("https://x.org/a.git"), repo_id("https://x.org/b.git"));
    assert!(repo_id("https://x.org/foo.git").starts_with("foo-"));
}

#[test]
fn repo_id_stem_rules() {
    let id = repo_id("https://x.org/my lib.git.git///");
    assert!(id.starts_with("my_lib-"), "{}", id);
    assert_eq!(id.len(), "my_lib-".len() + 16);
    assert!(id["my_lib-".len()..].chars().all(|c| c.is_ascii_hexdigit() && !c.is_ascii_uppercase()));
    assert!(repo_id("C:\\src\\repo2").starts_with("repo2-"));
    assert!(repo_id("https://x.org/.git").starts_with("repo-"));
    assert!(repo_id("").starts_with("repo-"));
}

#[test]
fn pins_give_specs_and_labels() {
    assert_eq!(pin_specs(&GitPin::Rev("abc".into())), vec!["abc".to_string()]);
    assert_eq!(pin_specs(&GitPin::Tag("v1".into())), vec!["refs/tags/v1".to_string(), "v1".to_string()]);
    assert_eq!(pin_specs(&GitPin::Branch("main".into())), vec!["refs/heads/main".to_string(), "main".to_string()]);
    assert!(pin_specs(&GitPin::Version("^1.0".into())).is_empty());
    assert_eq!(pin_specs(&GitPin::Default), vec!["HEAD".to_string()]);
    assert_eq!(pin_label(&GitPin::Tag("v1".into())), "tag `v1`");
    assert_eq!(pin_label(&GitPin::Rev("abc".into())), "rev `abc`");
    assert_eq!(pin_label(&GitPin::Branch("b".into())), "branch `b`");
    assert_eq!(pin_label(&GitPin::Version("^1".into())), "версия `^1`");
    assert_eq!(pin_label(&GitPin::Default), "ветка по умолчанию");
    assert_eq!(memo_key("u", &GitPin::Tag("t".into()), Some("c")), "u\0Tag(\"t\")\0c");
    assert_eq!(memo_key("u", &GitPin::Default, None), "u\0Default\0");
}

#[test]
fn cache_layout() {
    let id = repo_id("https://x.org/a.git");
    assert_eq!(checkout_components("https://x.org/a.git", C1), vec!["co".to_string(), id.clone(), C1.to_string()]);
    assert_eq!(db_components("https://x.org/a.git"), vec!["db".to_string(), format!("{}.git", id)]);
}

#[test]
fn lock_table_install_and_forget() {
    let mut t = LockTable::new();
    install_lock_entries(&mut t, vec![("u1".to_string(), "c1".to_string()), ("u2".to_string(), "c2".to_string()), ("u1".to_string(), "c3".to_string())]);
    assert_eq!(locked_commit_for(&t, "u1"), Some("c3".to_string()));
    assert_eq!(locked_commit_for(&t, "u2"), Some("c2".to_string()));
    forget_lock_entry(&mut t, "u1");
    assert_eq!(locked_commit_for(&t, "u1"), None);
    assert_eq!(locked_commit_for(&t, "u2"), Some("c2".to_string()));
}

/// Runs a resolution, answering each operation from the scripts: `parse`
/// maps a revision spec to its rev-parse output, `fetch_ok` decides
/// fetches, `tag` answers a tag selection. Returns the final action and
/// the operations asked for.
fn run(mut r: CommitResolver, parse: &dyn Fn(&str) -> Option<String>, fetch_ok: bool, tag: Option<&str>) -> (GitAction, Vec<String>) {
    let mut log = Vec::new();
    let mut ev = GitEvent::Start;
    for _ in 0..20 {
        let a = r.step(ev);
        ev = match &a {
            GitAction::RevParse(s) => {
                log.push(format!("rev-parse {}", s));
                GitEvent::Parsed(parse(s))
            },
            GitAction::Fetch { strict } => {
                log.push(format!("fetch {}", strict));
                GitEvent::Fetched(if fetch_ok { Ok(()) } else { Err("network down".to_string()) })
            },
            GitAction::SelectTag(req) => {
                log.push(format!("select {}", req));
                GitEvent::Tag(tag.map(|t| t.to_string()))
            },
            _ => return (a, log),
        };
    }
    panic!("resolution did not end");
}

fn tags_only(s: &str) -> Option<String> {
    if s == "refs/tags/v1.0.0" { Some(C1.to_string()) } else { None }
}

#[test]
fn resolve_tag_from_fresh_clone() {
    let r = CommitResolver::new("https://x.org/a.git", GitPin::Tag("v1.0.0".into()), None, false, false);
    let (a, log) = run(r, &tags_only, true, None);
    assert!(matches!(a, GitAction::Done(ref c) if c == C1));
    assert_eq!(log, vec!["rev-parse refs/tags/v1.0.0".to_string()]);
}

#[test]
fn branch_is_fetched_first_when_clone_existed() {
    let r = CommitResolver::new("u", GitPin::Branch("main".into()), None, true, false);
    let (a, log) = run(r, &|s| if s == "main" { Some(C2.to_string()) } else { None }, true, None);
    assert!(matches!(a, GitAction::Done(ref c) if c == C2));
    assert_eq!(log, vec!["fetch true".to_string(), "rev-parse refs/heads/main".to_string(), "rev-parse main".to_string()]);
}

#[test]
fn unknown_tag_retries_after_fetch_then_fails() {
    let r = CommitResolver::new("u", GitPin::Tag("v9.9.9".into()), None, true, false);
    let (a, log) = run(r, &|_| None, true, None);
    match a {
        GitAction::Fail { message, cause } => {
            assert!(message.contains("v9.9.9"), "{}", message);
            assert_eq!(message, "git-зависимость `u`: tag `v9.9.9` не найден в репозитории");
            assert!(cause.is_none());
        },
        other => panic!("expected failure, got {:?}", other),
    }
    assert_eq!(log.len(), 5);
    assert_eq!(log[2], "fetch true");
}

#[test]
fn offline_failure_says_so_and_does_not_fetch() {
    let r = CommitResolver::new("u", GitPin::Rev("deadbeef".into()), None, true, true);
    let (a, log) = run(r, &|_| Some("not a hash".to_string()), true, None);
    match a {
        GitAction::Fail { message, .. } => assert!(message.ends_with(" (offline — fetch запрещён)"), "{}", message),
        other => panic!("expected failure, got {:?}", other),
    }
    assert!(log.iter().all(|l| !l.starts_with("fetch")));
}

#[test]
fn locked_commit_overrides_pin() {
    let r = CommitResolver::new("u", GitPin::Branch("nonexistent-branch".into()), Some(C1.to_string()), true, false);
    let (a, log) = run(r, &|s| if s == C1 { Some(C1.to_string()) } else { None }, true, None);
    assert!(matches!(a, GitAction::Done(ref c) if c == C1));
    assert_eq!(log, vec![format!("rev-parse {}", C1)]);
}

#[test]
fn missing_locked_commit_is_reported() {
    let r = CommitResolver::new("u", GitPin::Default, Some("c0ffee".to_string()), true, false);
    let (a, log) = run(r, &|_| None, false, None);
    match a {
        GitAction::Fail { message, .. } => {
            assert_eq!(message, "зафиксированный в nova.lock commit `c0ffee` git-зависимости `u` не найден в репозитории")
        },
        other => panic!("expected failure, got {:?}", other),
    }
    assert_eq!(log, vec!["rev-parse c0ffee".to_string(), "fetch false".to_string(), "rev-parse c0ffee".to_string()]);
}

#[test]
fn strict_fetch_failure_ends_resolution() {
    let r = CommitResolver::new("u", GitPin::Default, None, true, false);
    let (a, _) = run(r, &|_| None, false, None);
    match a {
        GitAction::Fail { message, cause } => {
            assert_eq!(message, "fetch git-зависимости `u`");
            assert_eq!(cause, Some("network down".to_string()));
        },
        other => panic!("expected failure, got {:?}", other),
    }
}

#[test]
fn version_requirement_goes_through_the_chosen_tag() {
    let r = CommitResolver::new("u", GitPin::Version("^1.0".into()), None, true, false);
    let (a, log) = run(r, &|s| if s == "v1.2.0" { Some(C2.to_string()) } else { None }, true, Some("v1.2.0"));
    assert!(matches!(a, GitAction::Done(ref c) if c == C2));
    assert_eq!(
        log,
        vec!["fetch true".to_string(), "select ^1.0".to_string(), "rev-parse refs/tags/v1.2.0".to_string(), "rev-parse v1.2.0".to_string()]
    );
    let r2 = CommitResolver::new("u", GitPin::Version("^3.0".into()), None, false, false);
    let (a2, _) = run(r2, &|_| None, true, None);
    match a2 {
        GitAction::Fail { message, .. } => assert!(message.contains("тег не подходит"), "{}", message),
        other => panic!("expected failure, got {:?}", other),
    }
}

#[test]
fn requests_are_remembered() {
    let mut table = LockTable::new();
    let mut memo = ResolveMemo::new();
    match resolve_git_dep("u", GitPin::Tag("v1".into()), None, &table, &memo, false, false) {
        ResolveStart::Run { key, resolver } => {
            assert_eq!(key, "u\0Tag(\"v1\")\0");
            assert!(resolver.locked.is_none());
            memo.insert(key, GitResolution { checkout: "/c".to_string(), commit: C1.to_string() });
        },
        other => panic!("expected a run, got {:?}", other),
    }
    match resolve_git_dep("u", GitPin::Tag("v1".into()), None, &table, &memo, false, false) {
        ResolveStart::Remembered(g) => assert_eq!(g.commit, C1),
        other => panic!("expected a remembered resolution, got {:?}", other),
    }
    install_lock_entries(&mut table, vec![("u".to_string(), C2.to_string())]);
    match resolve_git_dep("u", GitPin::Tag("v1".into()), None, &table, &memo, false, false) {
        ResolveStart::Run { key, resolver } => {
            assert_eq!(key, format!("u\0Tag(\"v1\")\0{}", C2));
            assert_eq!(resolver.locked, Some(C2.to_string()));
        },
        other => panic!("expected a run, got {:?}", other),
    }
}
