// Literal keys of pure-call arguments, their identifier form, and the
// strongly-connected components of call graphs.

use compiler_codegen::ast::{Expr, ExprKind, RecordLitField, Span, TypeRef, UnOp};
use compiler_codegen::field_cache::literal_key::{canonical_literal_repr, sanitize_args_key_for_ident};
use compiler_codegen::field_cache::scc::scc_leaves_first;

fn field(name: &str, value: Option<Expr>, is_spread: bool) -> RecordLitField {
    RecordLitField { name: name.into(), value, is_spread, at_shorthand: false, span: Span::default() }
}

fn lit(n: i64) -> Expr {
    Expr::new(ExprKind::IntLit(n), Span::default())
}

#[test]
fn v32_sanitize_args_key_for_c_ident() {
    assert_eq!(sanitize_args_key_for_ident("_42i"), "_42i");
    assert_eq!(sanitize_args_key_for_ident("T2{1i;2i}"), "T2_o_1i_s_2i_c_");
    assert_eq!(sanitize_args_key_for_ident("RPoint{x:1i;y:2i}"), "RPoint_o_x_k_1i_s_y_k_2i_c_");
    assert_eq!(sanitize_args_key_for_ident("Rstd.foo.Bar{f:1i}"), "Rstd_d_foo_d_Bar_o_f_k_1i_c_");
    assert_eq!(sanitize_args_key_for_ident(""), "");
    let a = sanitize_args_key_for_ident("T2{1i;2i}");
    let b = sanitize_args_key_for_ident("T2{2i;1i}");
    assert_ne!(a, b, "different tuple element order must not collide");
}

#[test]
fn v32_tuple_literal_repr_canonical() {
    let s = Span::default();
    let tup = Expr::new(ExprKind::TupleLit(vec![Expr::new(ExprKind::IntLit(1), s), Expr::new(ExprKind::IntLit(2), s)]), s);
    let repr = canonical_literal_repr(&tup).expect("Some");
    assert_eq!(repr, "T2{1i;2i}");
}

#[test]
fn v32_nested_tuple_literal_repr() {
    let s = Span::default();
    let inner = Expr::new(ExprKind::TupleLit(vec![Expr::new(ExprKind::IntLit(1), s)]), s);
    let outer = Expr::new(ExprKind::TupleLit(vec![inner, Expr::new(ExprKind::IntLit(2), s)]), s);
    let repr = canonical_literal_repr(&outer).expect("Some");
    assert_eq!(repr, "T2{T1{1i};2i}");
}

#[test]
fn v32_record_literal_sorted_canonical() {
    let s = Span::default();
    let rec = Expr::new(
        ExprKind::RecordLit {
            type_path: Some(vec!["Point".into()]),
            fields: vec![field("y", Some(lit(2)), false), field("x", Some(lit(1)), false)],
            inferred_map_v: None,
        },
        s,
    );
    let repr = canonical_literal_repr(&rec).expect("Some");
    assert_eq!(repr, "RPoint{x:1i;y:2i}");
}

#[test]
fn v32_record_literal_spread_rejected() {
    let s = Span::default();
    let rec = Expr::new(
        ExprKind::RecordLit {
            type_path: None,
            fields: vec![field("", Some(Expr::new(ExprKind::Ident("other".into()), s)), true)],
            inferred_map_v: None,
        },
        s,
    );
    assert!(canonical_literal_repr(&rec).is_none(), "spread record must be rejected by V3.2 encoder");
}

#[test]
fn v32_record_literal_pun_shorthand_rejected() {
    let s = Span::default();
    let rec = Expr::new(ExprKind::RecordLit { type_path: None, fields: vec![field("name", None, false)], inferred_map_v: None }, s);
    assert!(canonical_literal_repr(&rec).is_none(), "shorthand-pun field without value must be rejected");
}

#[test]
fn v32_record_literal_with_non_literal_arg_rejected() {
    let s = Span::default();
    let rec = Expr::new(
        ExprKind::RecordLit {
            type_path: None,
            fields: vec![field("x", Some(Expr::new(ExprKind::Ident("foo".into()), s)), false)],
            inferred_map_v: None,
        },
        s,
    );
    assert!(canonical_literal_repr(&rec).is_none());
}

#[test]
fn v32_inferred_map_v_record_rejected() {
    let s = Span::default();
    let rec = Expr::new(
        ExprKind::RecordLit { type_path: None, fields: vec![field("k", Some(lit(1)), false)], inferred_map_v: Some(TypeRef::Unit(s)) },
        s,
    );
    assert!(canonical_literal_repr(&rec).is_none(), "D55 map-coercion record must be rejected by V3.2 encoder");
}

#[test]
fn v73_tarjan_scc_returns_singletons_for_dag() {
    let adj = vec![vec![1usize], vec![2usize], vec![]];
    let sccs = scc_leaves_first(&adj);
    assert_eq!(sccs.len(), 3);
    for s in &sccs {
        assert_eq!(s.len(), 1);
    }
}

#[test]
fn v73_tarjan_scc_finds_cycle() {
    let adj = vec![vec![1usize], vec![2usize], vec![0usize]];
    let sccs = scc_leaves_first(&adj);
    assert_eq!(sccs.len(), 1);
    assert_eq!(sccs[0].len(), 3);
}

#[test]
fn v73_tarjan_scc_reverse_topological_order() {
    let adj = vec![vec![1usize], vec![]];
    let sccs = scc_leaves_first(&adj);
    assert_eq!(sccs, vec![vec![1usize], vec![0usize]]);
}

// Further cases.

#[test]
fn scalar_literal_keys() {
    let s = Span::default();
    assert_eq!(canonical_literal_repr(&lit(-42)).as_deref(), Some("-42i"));
    assert_eq!(canonical_literal_repr(&lit(i64::MIN)).as_deref(), Some("-9223372036854775808i"));
    assert_eq!(canonical_literal_repr(&Expr::new(ExprKind::BoolLit(true), s)).as_deref(), Some("T"));
    assert_eq!(canonical_literal_repr(&Expr::new(ExprKind::CharLit('q'), s)).as_deref(), Some("qc"));
    assert_eq!(canonical_literal_repr(&Expr::new(ExprKind::UnitLit, s)).as_deref(), Some("U"));
    let neg = Expr::new(ExprKind::Unary { op: UnOp::Neg, operand: Box::new(lit(5)) }, s);
    assert_eq!(canonical_literal_repr(&neg).as_deref(), Some("m5i"));
    let not = Expr::new(ExprKind::Unary { op: UnOp::Not, operand: Box::new(lit(5)) }, s);
    assert!(canonical_literal_repr(&not).is_none());
    let k = canonical_literal_repr(&Expr::new(ExprKind::StrLit("abc".into()), s)).unwrap();
    assert!(k.starts_with('s') && k.len() <= 7 && k[1..].chars().all(|c| c.is_ascii_hexdigit()));
    assert_eq!(Some(k), canonical_literal_repr(&Expr::new(ExprKind::StrLit("abc".into()), s)));
}

#[test]
fn record_keys_keep_equal_names_in_order_and_paths() {
    let s = Span::default();
    let rec = Expr::new(
        ExprKind::RecordLit {
            type_path: Some(vec!["std".into(), "P".into()]),
            fields: vec![field("b", Some(lit(1)), false), field("a", Some(lit(2)), false), field("b", Some(lit(3)), false)],
            inferred_map_v: None,
        },
        s,
    );
    assert_eq!(canonical_literal_repr(&rec).as_deref(), Some("Rstd.P{a:2i;b:1i;b:3i}"));
    assert_eq!(sanitize_args_key_for_ident("a-b é"), "a_2d_b_20__e9_");
}

#[test]
fn scc_groups_cycles_and_orders_leaves_first() {
    // 0 <-> 1 -> 2 <-> 3, 4 alone calling 0
    let adj = vec![vec![1usize], vec![0usize, 2], vec![3usize], vec![2usize], vec![0usize]];
    let sccs = scc_leaves_first(&adj);
    assert_eq!(sccs, vec![vec![2usize, 3], vec![0usize, 1], vec![4usize]]);
}

#[test]
fn scc_self_loop_and_isolated_nodes() {
    let adj = vec![vec![0usize], vec![], vec![1usize]];
    let sccs = scc_leaves_first(&adj);
    assert_eq!(sccs, vec![vec![0usize], vec![1usize], vec![2usize]]);
}
