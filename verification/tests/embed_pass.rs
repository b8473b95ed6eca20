// The embed intrinsics: argument checks, the host's answers, and the
// rewrite of the calls.

use compiler_codegen::ast::{Block, Expr, ExprKind, FnBody, FnDecl, Item, Module, PeerFile, Purity, Span};
use compiler_codegen::embed_pass::{
    apply_embeds, embed_requests, DirEntryFound, EmbedAnswer, EmbedKind, EmbedRequest,
};

fn sp(start: u32) -> Span {
    Span { start, end: start + 1, file_id: 0 }
}

fn e(kind: ExprKind, start: u32) -> Expr {
    Expr { kind, span: sp(start) }
}

fn s(x: &str) -> String {
    x.to_string()
}

fn call(name: &str, args: Vec<Expr>, start: u32) -> Expr {
    e(ExprKind::Call { func: Box::new(e(ExprKind::Ident(s(name)), start)), args }, start)
}

fn lit(x: &str, start: u32) -> Expr {
    e(ExprKind::StrLit(s(x)), start)
}

fn named(name: &str, value: Expr, start: u32) -> Expr {
    e(ExprKind::NamedArg { name: s(name), value: Box::new(value) }, start)
}

fn func(name: &str, body: Expr) -> Item {
    Item::Fn(FnDecl {
        name: s(name),
        receiver: None,
        params: Vec::new(),
        effects: Vec::new(),
        ret: None,
        body: FnBody::Block(Block { stmts: Vec::new(), trailing: Some(Box::new(body)), span: sp(0) }),
        purity: Purity::Impure,
        is_external: false,
        is_export: false,
        span: sp(0),
    })
}

fn module(items: Vec<Item>) -> Module {
    Module { name: vec![s("m")], items, peer_files: Vec::new() }
}

fn trailing(m: &Module, i: usize) -> &ExprKind {
    match &m.items[i] {
        Item::Fn(f) => match &f.body {
            FnBody::Block(b) => &b.trailing.as_ref().expect("trailing").kind,
            _ => panic!("expected block"),
        },
        _ => panic!("expected fn"),
    }
}

fn entry(raw: &str, key: &str, data: &[u8]) -> DirEntryFound {
    DirEntryFound { raw: s(raw), key: s(key), abs: format!("/p/assets/{}", raw), inside_root: true, data: Ok(data.to_vec()) }
}

#[test]
fn embed_file_becomes_bytes() {
    let mut m = module(vec![func("f", call("embed", vec![lit("a.bin", 11)], 10))]);
    let reqs = embed_requests(&m).expect("requests");
    assert_eq!(reqs.len(), 1);
    assert!(matches!(reqs[0].kind, EmbedKind::File));
    assert_eq!(reqs[0].rel, "a.bin");
    assert_eq!(reqs[0].span, sp(10));
    let answers = vec![EmbedAnswer::File { path: s("/p/a.bin"), bytes: vec![1, 2, 3] }];
    let (files, warnings) = apply_embeds(&mut m, &reqs, answers).expect("applied");
    assert_eq!(files, vec![s("/p/a.bin")]);
    assert!(warnings.is_empty());
    assert!(matches!(trailing(&m, 0), ExprKind::HexBlobLit(b) if b == &vec![1u8, 2, 3]));
}

#[test]
fn embed_str_becomes_text_and_reports_bad_utf8() {
    let m0 = module(vec![func("f", call("embed_str", vec![lit("t.txt", 11)], 10))]);
    let mut m = module(vec![func("f", call("embed_str", vec![lit("t.txt", 11)], 10))]);
    let reqs = embed_requests(&m).expect("requests");
    assert!(matches!(reqs[0].kind, EmbedKind::Text));
    apply_embeds(&mut m, &reqs, vec![EmbedAnswer::Text { path: s("/p/t.txt"), text: s("hi") }]).expect("applied");
    assert!(matches!(trailing(&m, 0), ExprKind::StrLit(t) if t == "hi"));
    let mut m2 = m0;
    let reqs2 = embed_requests(&m2).expect("requests");
    let err = apply_embeds(&mut m2, &reqs2, vec![EmbedAnswer::NotUtf8 { path: s("/p/t.txt"), offset: 7 }]).unwrap_err();
    assert_eq!(err.len(), 1);
    assert!(err[0].message.starts_with("[E_EMBED_NOT_UTF8] embedded file `/p/t.txt` is not valid UTF-8 (first invalid byte at offset 7)"));
    assert!(matches!(trailing(&m2, 0), ExprKind::Call { .. }));
}

#[test]
fn embed_argument_errors() {
    let m = module(vec![
        func("a", call("embed", vec![e(ExprKind::Ident(s("x")), 21)], 20)),
        func("b", call("embed", vec![lit("a", 31), lit("b", 32)], 30)),
        func("c", call("embed", vec![lit("dir\\file", 41)], 40)),
        func("d", call("embed", vec![named("path", lit("a", 52), 51)], 50)),
    ]);
    let diags = embed_requests(&m).unwrap_err();
    assert_eq!(diags.len(), 4);
    assert_eq!(diags[0].span, sp(21));
    assert_eq!(diags[0].message, "[E_EMBED_ARG_NOT_STR_LITERAL] the argument of `embed` must be a string LITERAL — the path is resolved at compile time (D412)");
    assert_eq!(diags[1].span, sp(30));
    assert!(diags[1].message.contains("takes exactly one string-literal argument"));
    assert!(diags[2].message.starts_with("[E_EMBED_PATH_BACKSLASH] the path argument of `embed`"));
    assert!(diags[3].message.contains("plain string literal (no spread/named args)"));
}

#[test]
fn embed_dir_argument_errors() {
    let m = module(vec![
        func("a", call("embed_dir", vec![], 10)),
        func("b", call("embed_dir", vec![lit("d", 21), named("hidden", e(ExprKind::IntLit(1), 23), 22)], 20)),
        func("c", call("embed_dir", vec![lit("d", 31), named("foo", lit("x", 33), 32)], 30)),
        func("d", call("embed_dir", vec![lit("d", 41), named("glob", lit("*", 43), 42), named("glob", lit("*", 45), 44)], 40)),
        func("e", call("embed_dir", vec![lit("d", 51), lit("extra", 52)], 50)),
    ]);
    let diags = embed_requests(&m).unwrap_err();
    assert_eq!(diags.len(), 5);
    assert!(diags[0].message.contains("`embed_dir` takes one string-literal path argument"));
    assert_eq!(diags[1].span, sp(23));
    assert!(diags[1].message.contains("`hidden:` argument must be a bool LITERAL"));
    assert_eq!(diags[2].message, "[E_EMBED_DIR_BAD_ARG] `embed_dir`: unknown named argument `foo` — expected `glob` or `hidden` (D412-amendment, Plan 210 Ф.7)");
    assert!(diags[3].message.contains("named argument `glob` given more than once"));
    assert!(diags[4].message.contains("exactly one POSITIONAL argument"));
}

#[test]
fn embed_dir_sorted_and_filtered() {
    let mut m = module(vec![func(
        "f",
        call("embed_dir", vec![lit("assets", 11), named("glob", lit("*.png", 13), 12), named("hidden", e(ExprKind::BoolLit(true), 15), 14)], 10),
    )]);
    let reqs = embed_requests(&m).expect("requests");
    match &reqs[0].kind {
        EmbedKind::Dir { glob, hidden } => {
            assert_eq!(glob.as_deref(), Some("*.png"));
            assert!(*hidden);
        },
        k => panic!("unexpected {:?}", k),
    }
    let answers = vec![EmbedAnswer::Dir {
        root: s("/p"),
        entries: vec![entry("b.png", "b.png", &[2]), entry("notes.txt", "notes.txt", &[9]), entry("a.png", "a.png", &[1, 1])],
        symlinks: vec![s("/p/assets/link")],
        non_ascii: Vec::new(),
    }];
    let (files, warnings) = apply_embeds(&mut m, &reqs, answers).expect("applied");
    assert_eq!(files, vec![s("/p/assets/a.png"), s("/p/assets/b.png")]);
    assert_eq!(warnings.len(), 1);
    assert_eq!(warnings[0].rule, "W_EMBED_DIR_SYMLINK_SKIPPED");
    assert_eq!(warnings[0].message, "[W_EMBED_DIR_SYMLINK_SKIPPED] symlink skipped inside embed_dir(\"assets\"): `/p/assets/link`");
    match trailing(&m, 0) {
        ExprKind::Call { func, args } => {
            assert!(matches!(&func.kind, ExprKind::Path(p) if p == &vec![s("EmbeddedDir"), s("new")]));
            match &args[0].kind {
                ExprKind::ArrayLit(items) => {
                    assert_eq!(items.len(), 2);
                    match &items[0].kind {
                        ExprKind::RecordLit { type_path, fields, .. } => {
                            assert_eq!(type_path.as_ref().unwrap(), &vec![s("EmbeddedEntry")]);
                            assert_eq!(fields[0].name, "path");
                            assert!(matches!(&fields[0].value.as_ref().unwrap().kind, ExprKind::StrLit(p) if p == "a.png"));
                            assert!(matches!(&fields[1].value.as_ref().unwrap().kind, ExprKind::HexBlobLit(b) if b == &vec![1u8, 1]));
                        },
                        k => panic!("unexpected {:?}", k),
                    }
                },
                k => panic!("unexpected {:?}", k),
            }
        },
        k => panic!("unexpected {:?}", k),
    }
}

#[test]
fn embed_dir_empty_and_collision() {
    let mk = || module(vec![func("f", call("embed_dir", vec![lit("d", 11), named("glob", lit("*.gif", 13), 12)], 10))]);
    let mut m = mk();
    let reqs = embed_requests(&m).expect("requests");
    let answers = vec![EmbedAnswer::Dir { root: s("/p"), entries: vec![entry("a.png", "a.png", &[1])], symlinks: Vec::new(), non_ascii: Vec::new() }];
    let (files, warnings) = apply_embeds(&mut m, &reqs, answers).expect("applied");
    assert!(files.is_empty());
    assert_eq!(warnings.len(), 1);
    assert_eq!(
        warnings[0].message,
        "[W_EMBED_DIR_EMPTY] embed_dir(\"d\") resolved to zero files after dot/symlink skip and glob filter — check the path (glob: \"*.gif\")"
    );
    let mut m2 = mk();
    let reqs2 = embed_requests(&m2).expect("requests");
    let answers2 = vec![EmbedAnswer::Dir {
        root: s("/p"),
        entries: vec![entry("e\u{301}.gif", "\u{e9}.gif", &[1]), entry("\u{e9}.gif", "\u{e9}.gif", &[2])],
        symlinks: Vec::new(),
        non_ascii: Vec::new(),
    }];
    let err = apply_embeds(&mut m2, &reqs2, answers2).unwrap_err();
    assert!(err[0].message.starts_with("[E_EMBED_DIR_NFC_COLLISION] embed_dir(\"d\") has two different entries"));
}

#[test]
fn host_errors_are_deduplicated_and_leave_module() {
    // the same call seen in the module's items and in its entry file
    let body = || func("f", call("embed", vec![lit("gone.bin", 11)], 10));
    let mut m = Module {
        name: vec![s("m")],
        items: vec![body()],
        peer_files: vec![PeerFile { path: s("/p/m.nv"), file_id: 0, items_here: vec![body()], is_entry_module: true }],
    };
    let reqs: Vec<EmbedRequest> = embed_requests(&m).expect("requests");
    assert_eq!(reqs.len(), 2);
    let answers = vec![EmbedAnswer::NotFound { base: s("/p") }, EmbedAnswer::NotFound { base: s("/p") }];
    let err = apply_embeds(&mut m, &reqs, answers).unwrap_err();
    assert_eq!(err.len(), 1);
    assert_eq!(err[0].message, "[E_EMBED_NOT_FOUND] embedded file not found: `gone.bin` (resolved relative to `/p`)");
    assert!(matches!(trailing(&m, 0), ExprKind::Call { .. }));
}

#[test]
fn nested_calls_are_found_in_walk_order() {
    let tuple = e(ExprKind::TupleLit(vec![call("embed", vec![lit("x", 2)], 1), call("embed_str", vec![lit("y", 4)], 3)]), 0);
    let mut m = module(vec![func("f", tuple)]);
    let reqs = embed_requests(&m).expect("requests");
    assert_eq!(reqs.iter().map(|r| r.rel.clone()).collect::<Vec<_>>(), vec![s("x"), s("y")]);
    let answers = vec![
        EmbedAnswer::File { path: s("/p/x"), bytes: vec![7] },
        EmbedAnswer::Text { path: s("/p/y"), text: s("yy") },
    ];
    let (files, _) = apply_embeds(&mut m, &reqs, answers).expect("applied");
    assert_eq!(files, vec![s("/p/x"), s("/p/y")]);
    match trailing(&m, 0) {
        ExprKind::TupleLit(items) => {
            assert!(matches!(&items[0].kind, ExprKind::HexBlobLit(b) if b == &vec![7u8]));
            assert!(matches!(&items[1].kind, ExprKind::StrLit(t) if t == "yy"));
        },
        k => panic!("unexpected {:?}", k),
    }
}
