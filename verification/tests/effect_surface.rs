// Effect-surface tests. Each package is given as the documentation tree
// that documenting its source yields once private items are stripped:
// public items only, and an effect row for each public function that
// declares effects.

use compiler_codegen::effect_surface::{compute, diff, DocItem, DocItemKind, DocModule, DocTree, EffectRow, EffectSurface};

fn func(name: &str) -> DocItem {
    DocItem { name: name.to_string(), kind: DocItemKind::Fn }
}

fn row(name: &str, effects: &[&str]) -> EffectRow {
    EffectRow { fn_name: name.to_string(), effects: effects.iter().map(|e| e.to_string()).collect() }
}

fn module(path: &[&str], items: Vec<DocItem>, rows: Vec<EffectRow>) -> DocModule {
    DocModule { path: path.iter().map(|p| p.to_string()).collect(), items, effect_matrix: rows }
}

fn surface_of(modules: Vec<DocModule>) -> EffectSurface {
    compute(&DocTree { modules })
}

// module pkg.api / export fn connect() Net / export fn load() Fs / export fn pure_fn()
fn api_package() -> EffectSurface {
    surface_of(vec![module(
        &["pkg", "api"],
        vec![func("connect"), func("load"), func("pure_fn")],
        vec![row("connect", &["Net"]), row("load", &["Fs"])],
    )])
}

#[test]
fn aggregates_public_effects() {
    let s = api_package();
    assert_eq!(s.effects, vec!["Fs".to_string(), "Net".to_string()]);
    assert_eq!(s.effectful_fns, 2);
    assert_eq!(s.total_public_fns, 3);
    assert!(!s.is_pure());
    assert_eq!(s.contributors("Net"), Some(&vec!["pkg.api.connect".to_string()]));
    assert_eq!(s.contributors("Fs"), Some(&vec!["pkg.api.load".to_string()]));
}

#[test]
fn private_fns_excluded() {
    // module pkg.api / export fn ok() / fn secret_net() Net: the private
    // function is gone from the stripped tree.
    let s = surface_of(vec![module(&["pkg", "api"], vec![func("ok")], vec![])]);
    assert!(s.is_pure(), "a private Net is not part of the public surface");
    assert!(s.contributors("Net").is_none());
}

#[test]
fn pure_package_has_empty_surface() {
    let s = surface_of(vec![module(&["pkg", "math"], vec![func("add")], vec![])]);
    assert!(s.is_pure());
    assert_eq!(s.effects.len(), 0);
    assert_eq!(s.total_public_fns, 1);
    assert_eq!(s.effectful_fns, 0);
}

#[test]
fn diff_detects_added_and_removed() {
    let pure = surface_of(vec![module(&["p", "a"], vec![func("f")], vec![])]);
    let netted = surface_of(vec![module(&["p", "a"], vec![func("f")], vec![row("f", &["Net"])])]);
    let d = diff(&pure, &netted);
    assert_eq!(d.added, vec!["Net".to_string()]);
    assert!(d.removed.is_empty());
    assert!(!d.is_empty());
    let d2 = diff(&netted, &pure);
    assert_eq!(d2.removed, vec!["Net".to_string()]);
    assert!(d2.added.is_empty());
    assert!(diff(&pure, &pure).is_empty());
}

// Further cases.

#[test]
fn shared_effect_lists_every_contributor_sorted_once() {
    let s = surface_of(vec![
        module(&["b"], vec![func("z"), func("y")], vec![row("z", &["Net", "Fs"]), row("y", &["Net", "Net"])]),
        module(&[], vec![func("top"), DocItem { name: "T".to_string(), kind: DocItemKind::Type }], vec![row("top", &["Net"])]),
    ]);
    assert_eq!(s.effects, vec!["Fs".to_string(), "Net".to_string()]);
    assert_eq!(s.contributors("Net"), Some(&vec!["b.y".to_string(), "b.z".to_string(), "top".to_string()]));
    assert_eq!(s.contributors("Fs"), Some(&vec!["b.z".to_string()]));
    assert_eq!(s.total_public_fns, 3);
    assert_eq!(s.effectful_fns, 3);
}

#[test]
fn diff_keeps_sorted_order() {
    let a = surface_of(vec![module(&["m"], vec![func("f")], vec![row("f", &["A", "C"])])]);
    let b = surface_of(vec![module(&["m"], vec![func("f")], vec![row("f", &["D", "B", "C"])])]);
    let d = diff(&a, &b);
    assert_eq!(d.added, vec!["B".to_string(), "D".to_string()]);
    assert_eq!(d.removed, vec!["A".to_string()]);
}

#[test]
fn pure_exactly_when_every_row_is_empty() {
    // Rows that declare nothing leave the surface pure; one effect anywhere
    // makes it impure, with one contributor entry.
    let empty_rows = surface_of(vec![
        module(&["a"], vec![func("f")], vec![row("f", &[])]),
        module(&["b"], vec![func("g")], vec![row("g", &[])]),
    ]);
    assert!(empty_rows.is_pure());
    assert!(empty_rows.by_effect.is_empty());
    let one = surface_of(vec![
        module(&["a"], vec![func("f")], vec![row("f", &[])]),
        module(&["b"], vec![func("g")], vec![row("g", &["Io"])]),
    ]);
    assert!(!one.is_pure());
    assert_eq!(one.by_effect.len(), 1);
    assert_eq!(one.contributors("Io"), Some(&vec!["b.g".to_string()]));
}
