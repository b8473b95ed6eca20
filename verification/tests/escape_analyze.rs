// Escape-analysis tests. Modules are built directly as syntax trees; the
// comment above each one gives its Nova source.

use compiler_codegen::ast::{
    AllocKind, Block, Expr, ExprKind, FnBody, FnDecl, Item, LetDecl, Module, PeerFile, Pattern, Purity, Receiver,
    ReceiverKind, RecordField, RecordLitField, Span, Stmt, TestDecl, TypeDecl, TypeDeclKind, TypeRef, UnOp,
};
use compiler_codegen::escape_analyze::analyze_module;

fn sp() -> Span {
    Span { start: 0, end: 0, file_id: 0 }
}

fn e(kind: ExprKind) -> Expr {
    Expr { kind, span: sp() }
}

fn ident(n: &str) -> Expr {
    e(ExprKind::Ident(n.to_string()))
}

fn int_lit(v: i64) -> Expr {
    e(ExprKind::IntLit(v))
}

fn addr(n: &str) -> Expr {
    e(ExprKind::Unary { op: UnOp::Ref, operand: Box::new(ident(n)) })
}

fn raw_addr(n: &str) -> Expr {
    e(ExprKind::Unary { op: UnOp::RawRef, operand: Box::new(ident(n)) })
}

fn let_(name: &str, ty: Option<&str>, value: Expr) -> Stmt {
    Stmt::Let(LetDecl {
        mutable: false,
        pattern: Pattern::Ident { name: name.to_string(), is_mut: false },
        ty: ty.map(|t| TypeRef::Named(t.to_string())),
        value,
        span: sp(),
    })
}

fn ret(v: Expr) -> Stmt {
    Stmt::Return { value: Some(v), span: sp() }
}

fn block(stmts: Vec<Stmt>, trailing: Option<Expr>) -> Block {
    Block { stmts, trailing: trailing.map(Box::new), span: sp() }
}

fn func(name: &str, recv: Option<&str>, body: FnBody) -> Item {
    Item::Fn(FnDecl {
        name: name.to_string(),
        receiver: recv.map(|t| Receiver { owner_type: t.to_string(), kind: ReceiverKind::Instance, mutable: false }),
        params: Vec::new(),
        effects: Vec::new(),
        ret: None,
        body,
        purity: Purity::Impure,
        is_external: false,
        is_export: false,
        span: sp(),
    })
}

fn record_type(name: &str, fields: &[&str], allocation: AllocKind) -> Item {
    Item::Type(TypeDecl {
        name: name.to_string(),
        kind: TypeDeclKind::Record(
            fields
                .iter()
                .map(|f| RecordField {
                    name: f.to_string(),
                    ty: TypeRef::Named("int".to_string()),
                    readonly: false,
                    mutable: false,
                    consume: false,
                    is_embed: false,
                })
                .collect(),
        ),
        allocation,
        is_export: false,
    })
}

fn record_lit(ty: Option<&str>, fields: Vec<(&str, Expr)>) -> Expr {
    e(ExprKind::RecordLit {
        type_path: ty.map(|t| vec![t.to_string()]),
        fields: fields
            .into_iter()
            .map(|(n, v)| RecordLitField { name: n.to_string(), value: Some(v), is_spread: false, at_shorthand: false, span: sp() })
            .collect(),
        inferred_map_v: None,
    })
}

fn module(items: Vec<Item>) -> Module {
    Module { name: vec!["t".to_string()], items, peer_files: Vec::new() }
}

#[test]
fn empty_module_no_promotions() {
    // module plan127_test.empty
    let m = Module { name: vec!["plan127_test".to_string(), "empty".to_string()], items: Vec::new(), peer_files: Vec::new() };
    let r = analyze_module(&m);
    assert!(!r.has_any_promoted());
}

#[test]
fn no_value_records_no_promotions() {
    // module plan127_test.heap_only
    // type Vec3 { x f64, y f64, z f64 }
    // fn make() -> Vec3 =>
    //     { x: 1.0, y: 2.0, z: 3.0 }
    let m = Module {
        name: vec!["plan127_test".to_string(), "heap_only".to_string()],
        items: vec![
            record_type("Vec3", &["x", "y", "z"], AllocKind::Heap),
            func("make", None, FnBody::Expr(record_lit(None, vec![("x", int_lit(1)), ("y", int_lit(2)), ("z", int_lit(3))]))),
        ],
        peer_files: Vec::new(),
    };
    let r = analyze_module(&m);
    assert!(!r.has_any_promoted(), "heap-record types must not trigger value-record promotion");
}

// Further cases.

// type V value { x int }
// fn leak() { ro v = V { x: 1 }; return &v }
// fn keep() { ro v = V { x: 1 }; ro p = &v; 0 }
#[test]
fn returned_address_promotes_local_address_does_not() {
    let m = module(vec![
        record_type("V", &["x"], AllocKind::Value),
        func("leak", None, FnBody::Block(block(vec![let_("v", None, record_lit(Some("V"), vec![("x", int_lit(1))])), ret(addr("v"))], None))),
        func(
            "keep",
            None,
            FnBody::Block(block(vec![let_("v", None, record_lit(Some("V"), vec![("x", int_lit(1))])), let_("p", None, addr("v"))], Some(int_lit(0)))),
        ),
    ]);
    let r = analyze_module(&m);
    assert!(r.has_any_promoted());
    assert!(r.is_promoted("leak", "v"));
    assert!(!r.is_promoted("keep", "v"));
    assert_eq!(r.total_promoted_count(), 1);
    let entries = r.iter_promoted();
    assert_eq!(entries.len(), 1);
    assert_eq!(entries[0].key, "leak");
    assert_eq!(entries[0].names, vec!["v".to_string()]);
}

// fn f() { ro n int = 5; g(&n); ro m int = 6; raw &m }   (a method of T)
#[test]
fn argument_address_promotes_primitive_raw_address_does_not() {
    let call = e(ExprKind::Call { func: Box::new(ident("g")), args: vec![addr("n")] });
    let m = module(vec![func(
        "f",
        Some("T"),
        FnBody::Block(block(vec![let_("n", Some("int"), int_lit(5)), Stmt::Expr(call), let_("m", Some("int"), int_lit(6))], Some(raw_addr("m")))),
    )]);
    let r = analyze_module(&m);
    assert!(r.is_promoted("T::f", "n"));
    assert!(!r.is_promoted("T::f", "m"));
    assert!(!r.is_promoted("f", "n"));
}

// fn f() { ro a = 1; ro b = a; h(c); d.len(); e }   (e is the tail value)
#[test]
fn ident_escapes_follow_sinks() {
    let len_call = e(ExprKind::Call {
        func: Box::new(e(ExprKind::Member { obj: Box::new(ident("d")), name: "len".to_string() })),
        args: Vec::new(),
    });
    let h_call = e(ExprKind::Call { func: Box::new(ident("h")), args: vec![ident("c")] });
    let m = module(vec![func(
        "f",
        None,
        FnBody::Block(block(vec![let_("a", None, int_lit(1)), let_("b", None, ident("a")), Stmt::Expr(h_call), Stmt::Expr(len_call)], Some(ident("e")))),
    )]);
    let r = analyze_module(&m);
    assert!(r.ident_escapes("f", "a"));
    assert!(!r.ident_escapes("f", "b"));
    assert!(r.ident_escapes("f", "c"));
    assert!(!r.ident_escapes("f", "d"));
    assert!(r.ident_escapes("f", "e"));
    assert!(!r.ident_escapes("f", "h"));
}

// test "t" { ro k = j }   and a closure mentioning q
#[test]
fn test_blocks_and_closures() {
    let lam = e(ExprKind::Lambda { params: Vec::new(), body: Box::new(e(ExprKind::Member { obj: Box::new(ident("q")), name: "x".to_string() })) });
    let m = module(vec![
        Item::Test(TestDecl { name: "t".to_string(), body: block(vec![let_("k", None, ident("j"))], None) }),
        func("g", None, FnBody::Block(block(vec![Stmt::Expr(lam)], None))),
    ]);
    let r = analyze_module(&m);
    assert!(r.ident_escapes("test::t", "j"));
    assert!(!r.ident_escapes("t", "j"));
    assert!(r.ident_escapes("g", "q"));
    assert!(!r.has_any_promoted());
}

// Only entry-file items first, then the others; peers are analysed when
// present and the module's own list is then not used.
#[test]
fn peer_files_are_analysed() {
    let peer = PeerFile {
        path: "b.nv".to_string(),
        file_id: 1,
        items_here: vec![
            record_type("W", &["x"], AllocKind::Value),
            func("w", None, FnBody::Expr(addr("v"))),
            func("z", None, FnBody::Block(block(vec![let_("v", Some("W"), int_lit(0))], Some(addr("v"))))),
        ],
        is_entry_module: false,
    };
    let m = Module { name: vec!["t".to_string()], items: Vec::new(), peer_files: vec![peer] };
    let r = analyze_module(&m);
    assert!(r.is_promoted("z", "v"));
    assert!(!r.is_promoted("w", "v"));
    assert!(r.ident_escapes("w", "v"));
}

// fn f(x []int) -> int { ro y = x.len(); y }
#[test]
fn tail_value_escapes_method_receiver_does_not() {
    let len_call = e(ExprKind::Call {
        func: Box::new(e(ExprKind::Member { obj: Box::new(ident("x")), name: "len".to_string() })),
        args: Vec::new(),
    });
    let m = module(vec![func("f", None, FnBody::Block(block(vec![let_("y", None, len_call)], Some(ident("y")))))]);
    let r = analyze_module(&m);
    assert!(r.ident_escapes("f", "y"));
    assert!(!r.ident_escapes("f", "x"));
    assert!(!r.ident_escapes("g", "y"));
}
