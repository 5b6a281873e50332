use lantern::affected::merge_paths;
use lantern::cycles::find_cycles;
use lantern::declaration::{declared_symbol_count, Binding, Declaration, ExportSpecifier, ImportSpecifier};
use lantern::dependency_graph::LanternFileDependencyMap;
use lantern::graphviz::file_dependency_map_to_graphviz;
use lantern::reexports::find_files_with_reexports;
use lantern::symbol::{LNFileReference, LNSymbol, LNSymbolData, Span};
use lantern::symbols_map::LNSymbolsMap;
use lantern::text::{is_in_node_modules, is_json_path, line_number_at};
use lantern::unused_exports::find_unused_exports;

fn entry(map: &mut LNSymbolsMap, path: &str) -> usize {
    map.add_module(path.to_string(), true).unwrap()
}

fn import_named(name: &str) -> Declaration {
    Declaration::Import(
        Some(vec![ImportSpecifier::Named(name.to_string(), name.to_string(), Span::new(9, 10), false)]),
        Span::new(18, 23),
        false,
    )
}

fn export_const(name: &str, start: u32) -> Declaration {
    Declaration::ExportVariables(vec![Binding::Identifier(name.to_string(), Span::new(start, start + 1))])
}

fn reexport(local: &str, exported: &str) -> Declaration {
    Declaration::ExportNamed(
        vec![ExportSpecifier { local: local.to_string(), exported: exported.to_string(), span: Span::new(9, 10) }],
        Some(Span::new(18, 24)),
    )
}

fn built(map: LNSymbolsMap) -> LanternFileDependencyMap {
    let mut g = LanternFileDependencyMap::new(map);
    g.build_dependency_graph();
    g
}

fn names(symbols: &[LNSymbol]) -> Vec<Option<String>> {
    symbols.iter().map(|s| s.get_name().map(|n| n.to_string())).collect()
}

// index.ts: import { a } from "./m"; m.ts: export const a = 1; export const b = 2;
fn simple_named_map() -> LNSymbolsMap {
    let mut m = LNSymbolsMap::new();
    let idx = entry(&mut m, "/p/index.ts");
    m.add_declaration(idx, &import_named("a"), Some("/p/m.ts".to_string()));
    m.add_declaration(1, &export_const("a", 13), None);
    m.add_declaration(1, &export_const("b", 33), None);
    m
}

#[test]
fn unused_exports_simple_named() {
    let m = simple_named_map();
    let unused = find_unused_exports(&m);
    assert_eq!(unused.len(), 1);
    assert_eq!(names(&unused), vec![Some("b".to_string())]);
    assert_eq!(unused[0].module_id, 1);
}

#[test]
fn used_exports_simple_named() {
    let mut m = LNSymbolsMap::new();
    let idx = entry(&mut m, "/p/index.ts");
    m.add_declaration(idx, &import_named("a"), Some("/p/m.ts".to_string()));
    m.add_declaration(1, &export_const("a", 13), None);
    assert_eq!(find_unused_exports(&m).len(), 0);
}

#[test]
fn simple_import_as() {
    // import { a as x } from "./m"
    let mut m = LNSymbolsMap::new();
    let idx = entry(&mut m, "/p/index.ts");
    let d = Declaration::Import(
        Some(vec![ImportSpecifier::Named("x".to_string(), "a".to_string(), Span::new(9, 15), false)]),
        Span::new(23, 28),
        false,
    );
    m.add_declaration(idx, &d, Some("/p/m.ts".to_string()));
    m.add_declaration(1, &export_const("a", 13), None);
    assert_eq!(find_unused_exports(&m).len(), 0);
}

#[test]
fn used_exports_simple_named_transitive() {
    // index imports a from m1; m1 re-exports a from m2; m2 exports a
    let mut m = LNSymbolsMap::new();
    let idx = entry(&mut m, "/p/index.ts");
    m.add_declaration(idx, &import_named("a"), Some("/p/m1.ts".to_string()));
    m.add_declaration(1, &reexport("a", "a"), Some("/p/m2.ts".to_string()));
    m.add_declaration(2, &export_const("a", 13), None);
    assert_eq!(find_unused_exports(&m).len(), 0);
}

#[test]
fn unused_exports_simple_named_transitive() {
    // as above, but m2 also exports b, which nothing takes
    let mut m = LNSymbolsMap::new();
    let idx = entry(&mut m, "/p/index.ts");
    m.add_declaration(idx, &import_named("a"), Some("/p/m1.ts".to_string()));
    m.add_declaration(1, &reexport("a", "a"), Some("/p/m2.ts".to_string()));
    m.add_declaration(2, &export_const("a", 13), None);
    m.add_declaration(2, &export_const("b", 33), None);
    let unused = find_unused_exports(&m);
    assert_eq!(unused.len(), 1);
    assert_eq!(names(&unused), vec![Some("b".to_string())]);
}

#[test]
fn used_exports_named_as_transitive() {
    // index imports b from m1; m1: export { a as b } from m2; m2 exports a
    let mut m = LNSymbolsMap::new();
    let idx = entry(&mut m, "/p/index.ts");
    m.add_declaration(idx, &import_named("b"), Some("/p/m1.ts".to_string()));
    m.add_declaration(1, &reexport("a", "b"), Some("/p/m2.ts".to_string()));
    m.add_declaration(2, &export_const("a", 13), None);
    assert_eq!(find_unused_exports(&m).len(), 0);
}

#[test]
fn unused_exports_named_as_transitive() {
    // index imports nothing from m1 by name; m1: export { a as b } from m2
    let mut m = LNSymbolsMap::new();
    let idx = entry(&mut m, "/p/index.ts");
    m.add_declaration(idx, &Declaration::Import(None, Span::new(7, 13), false), Some("/p/m1.ts".to_string()));
    m.add_declaration(1, &reexport("a", "b"), Some("/p/m2.ts".to_string()));
    m.add_declaration(2, &export_const("a", 13), None);
    let unused = find_unused_exports(&m);
    assert_eq!(unused.len(), 1);
    assert_eq!(unused[0].module_id, 1);
    assert_eq!(names(&unused), vec![Some("b".to_string())]);
}

#[test]
fn used_exports_default_export() {
    // index.ts: import X from "./m"; m.ts: export default class M {}
    let mut m = LNSymbolsMap::new();
    let idx = entry(&mut m, "/p/index.ts");
    let d = Declaration::Import(Some(vec![ImportSpecifier::Default("X".to_string(), Span::new(7, 8))]), Span::new(14, 19), false);
    m.add_declaration(idx, &d, Some("/p/m.ts".to_string()));
    m.add_declaration(1, &Declaration::ExportDefaultClass(Some("M".to_string()), Span::new(15, 25)), None);
    assert_eq!(find_unused_exports(&m).len(), 0);
}

#[test]
fn unused_exports_default_export() {
    // index imports a named export only; the default export of m stays unused
    let mut m = LNSymbolsMap::new();
    let idx = entry(&mut m, "/p/index.ts");
    m.add_declaration(idx, &import_named("a"), Some("/p/m.ts".to_string()));
    m.add_declaration(1, &export_const("a", 13), None);
    m.add_declaration(1, &Declaration::ExportDefaultExpr(Span::new(20, 38)), None);
    let unused = find_unused_exports(&m);
    assert_eq!(unused.len(), 1);
    assert!(matches!(unused[0].symbol, LNSymbolData::ExportDefaultExpr(_)));
}

#[test]
fn used_exports_deep_chain() {
    // index: import { a } from m1; m1: export { a } from m2; m2: export const a
    let mut m = LNSymbolsMap::new();
    let idx = entry(&mut m, "/p/index.ts");
    m.add_declaration(idx, &import_named("a"), Some("/p/m1.ts".to_string()));
    m.add_declaration(1, &reexport("a", "a"), Some("/p/m2.ts".to_string()));
    m.add_declaration(2, &export_const("a", 13), None);
    let unused = find_unused_exports(&m);
    assert_eq!(unused.len(), 0);
}

#[test]
fn unused_exports_deep_chain() {
    // index imports nothing by name: the re-export in m1 is the one unused export
    let mut m = LNSymbolsMap::new();
    let idx = entry(&mut m, "/p/index.ts");
    m.add_declaration(idx, &Declaration::Import(None, Span::new(7, 13), false), Some("/p/m1.ts".to_string()));
    m.add_declaration(1, &reexport("a", "a"), Some("/p/m2.ts".to_string()));
    m.add_declaration(2, &export_const("a", 13), None);
    let unused = find_unused_exports(&m);
    assert_eq!(unused.len(), 1);
    assert_eq!(unused[0].module_id, 1);
}

#[test]
fn unused_exports_star_consumes_module() {
    // index: import * as M from m; export * from m2 in m re-exports all of m2
    let mut m = LNSymbolsMap::new();
    let idx = entry(&mut m, "/p/index.ts");
    let d = Declaration::Import(Some(vec![ImportSpecifier::Namespace("M".to_string(), Span::new(7, 13))]), Span::new(19, 24), false);
    m.add_declaration(idx, &d, Some("/p/m.ts".to_string()));
    m.add_declaration(1, &export_const("a", 13), None);
    m.add_declaration(1, &Declaration::ExportAll(Span::new(20, 40)), Some("/p/m2.ts".to_string()));
    m.add_declaration(2, &export_const("x", 13), None);
    m.add_declaration(2, &export_const("y", 33), None);
    assert_eq!(find_unused_exports(&m).len(), 0);
}

#[test]
fn unused_exports_duplicate_names_consume_one() {
    // two exports named a in m, one import of a: one stays unused
    let mut m = LNSymbolsMap::new();
    let idx = entry(&mut m, "/p/index.ts");
    m.add_declaration(idx, &import_named("a"), Some("/p/m.ts".to_string()));
    m.add_declaration(1, &export_const("a", 13), None);
    m.add_declaration(1, &Declaration::ExportFn("a".to_string(), Span::new(30, 50)), None);
    let unused = find_unused_exports(&m);
    assert_eq!(unused.len(), 1);
    assert!(matches!(unused[0].symbol, LNSymbolData::ExportFnDecl(_, _)));
}

#[test]
fn unused_exports_skips_node_modules() {
    let mut m = LNSymbolsMap::new();
    let idx = entry(&mut m, "/p/index.ts");
    m.add_declaration(idx, &import_named("a"), Some("/p/node_modules/lib/index.ts".to_string()));
    m.add_declaration(1, &export_const("b", 13), None);
    assert_eq!(find_unused_exports(&m).len(), 0);
}

#[test]
fn unused_exports_reexport_default() {
    // export { default } from m takes m's default expression
    let mut m = LNSymbolsMap::new();
    let idx = entry(&mut m, "/p/index.ts");
    m.add_declaration(idx, &Declaration::Import(None, Span::new(7, 13), false), Some("/p/m1.ts".to_string()));
    m.add_declaration(1, &reexport("default", "default"), Some("/p/m2.ts".to_string()));
    m.add_declaration(2, &Declaration::ExportDefaultExpr(Span::new(0, 18)), None);
    let unused = find_unused_exports(&m);
    assert_eq!(unused.len(), 1);
    assert_eq!(unused[0].module_id, 1);
}

#[test]
fn add_module_dedups_and_refuses_json() {
    let mut m = LNSymbolsMap::new();
    assert_eq!(m.add_module("/p/a.ts".to_string(), true), Some(0));
    assert_eq!(m.add_module("/p/b.ts".to_string(), false), Some(1));
    assert_eq!(m.add_module("/p/a.ts".to_string(), false), Some(0));
    assert_eq!(m.add_module("/p/data.json".to_string(), false), None);
    assert_eq!(m.modules.len(), 2);
    assert!(m.modules[0].is_entry);
    assert_eq!(m.get_module_id("/p/b.ts"), Some(1));
    assert_eq!(m.get_module_id("/p/c.ts"), None);
    assert!(m.has_module("/p/a.ts"));
    assert!(!m.has_module("/p/data.json"));
    assert_eq!(m.get_module_path(1), "/p/b.ts");
    assert!(m.get_module(2).is_none());
}

#[test]
fn json_import_is_dropped() {
    let mut m = LNSymbolsMap::new();
    let idx = entry(&mut m, "/p/index.ts");
    m.add_declaration(idx, &import_named("a"), Some("/p/data.json".to_string()));
    assert_eq!(m.modules.len(), 1);
    assert_eq!(m.symbols.len(), 0);
    // a named re-export from a json file is dropped too
    m.add_declaration(idx, &reexport("a", "a"), Some("/p/data.json".to_string()));
    assert_eq!(m.modules.len(), 1);
    assert_eq!(m.symbols.len(), 0);
    // a local export list has no specifier and keeps its items
    m.add_declaration(idx, &Declaration::ExportNamed(
        vec![ExportSpecifier { local: "c".to_string(), exported: "c".to_string(), span: Span::new(9, 10) }],
        None,
    ), None);
    assert_eq!(m.symbols.len(), 1);
    assert!(matches!(m.symbols[0].symbol, LNSymbolData::ExportNamed(_, _, _, None)));
}

#[test]
fn unresolved_declaration_is_skipped() {
    let mut m = LNSymbolsMap::new();
    let idx = entry(&mut m, "/p/index.ts");
    m.add_declaration(idx, &import_named("a"), None);
    assert_eq!(m.modules.len(), 1);
    assert_eq!(m.symbols.len(), 0);
}

#[test]
fn json_and_node_modules_paths() {
    assert!(is_json_path("/p/package.json"));
    assert!(!is_json_path("/p/.json"));
    assert!(!is_json_path("/p/a.ts"));
    assert!(is_in_node_modules("/p/node_modules/x/index.js"));
    assert!(!is_in_node_modules("/p/node_module/x/index.js"));
}

#[test]
fn symbol_names_and_spans() {
    let mut m = LNSymbolsMap::new();
    let idx = entry(&mut m, "/p/index.ts");
    let d = Declaration::Import(
        Some(vec![
            ImportSpecifier::Default("React".to_string(), Span::new(7, 12)),
            ImportSpecifier::Named("hello".to_string(), "useState".to_string(), Span::new(16, 33), true),
        ]),
        Span::new(41, 48),
        false,
    );
    m.add_declaration(idx, &d, Some("/p/react.ts".to_string()));
    m.add_declaration(1, &Declaration::ExportDefaultFn(None, Span::new(0, 30)), None);
    m.add_declaration(1, &Declaration::ExportAll(Span::new(31, 70)), Some("/p/other.ts".to_string()));
    assert_eq!(m.symbols.len(), 4);
    assert_eq!(m.symbols[0].get_name(), Some("React"));
    assert_eq!(*m.symbols[0].get_span(), Span::new(7, 12));
    assert_eq!(m.symbols[1].get_name(), Some("hello"));
    match &m.symbols[1].symbol {
        LNSymbolData::ImportNamed(local, imported, _, f, type_only) => {
            assert_eq!(local, "hello");
            assert_eq!(imported, "useState");
            assert_eq!(*f, LNFileReference::new(1, Span::new(41, 48)));
            assert!(*type_only);
        }
        _ => panic!("expected a named import"),
    }
    assert_eq!(m.symbols[2].get_name(), None);
    assert_eq!(*m.symbols[2].get_span(), Span::new(0, 30));
    assert_eq!(m.symbols[3].get_name(), None);
    assert_eq!(*m.symbols[3].get_span(), Span::new(31, 70));
    assert_eq!(m.modules[1].symbols, vec![2, 3]);
    assert_eq!(m.modules[0].symbols, vec![0, 1]);
}

#[test]
fn export_decl_span_and_line() {
    // export const a = 1;
    let source = "export const a = 1;";
    let mut m = LNSymbolsMap::new();
    let idx = entry(&mut m, "/p/a.ts");
    m.add_declaration(idx, &export_const("a", 13), None);
    m.set_module_source(idx, source.to_string());
    let s = m.symbols[0].clone();
    assert_eq!(*s.get_span(), Span::new(13, 14));
    assert_eq!(m.get_line_number_from_span(idx, s.get_span()), Some(1));
    assert_eq!(m.get_module_source(idx), Some(source));
}

#[test]
fn line_numbers() {
    let src = "a\nb\nccc\n";
    assert_eq!(line_number_at(src, 0), 1);
    assert_eq!(line_number_at(src, 1), 1);
    assert_eq!(line_number_at(src, 3), 2);
    assert_eq!(line_number_at(src, 5), 3);
    assert_eq!(line_number_at(src, 6), 3);
    let mut m = LNSymbolsMap::new();
    let idx = entry(&mut m, "/p/a.ts");
    assert_eq!(m.get_line_number_from_span(idx, &Span::new(0, 1)), None);
    m.set_module_source(idx, src.to_string());
    assert_eq!(m.get_line_number_from_span(idx, &Span::new(100, 101)), None);
}

fn chain_graph() -> LanternFileDependencyMap {
    // a -> lib, b has no imports, lib -> util
    let mut m = LNSymbolsMap::new();
    entry(&mut m, "/p/a.ts");
    entry(&mut m, "/p/b.ts");
    m.add_declaration(0, &import_named("x"), Some("/p/lib.ts".to_string()));
    m.add_declaration(0, &import_named("y"), Some("/p/lib.ts".to_string()));
    m.add_declaration(2, &import_named("z"), Some("/p/util.ts".to_string()));
    m.add_declaration(1, &export_const("q", 13), None);
    built(m)
}

#[test]
fn dependency_graph_edges() {
    let g = chain_graph();
    assert_eq!(g.dependencies_of(0), &vec![2]);
    assert_eq!(g.dependencies_of(1), &Vec::<usize>::new());
    assert_eq!(g.dependencies_of(2), &vec![3]);
    assert_eq!(g.dependents_of(2), &vec![0]);
    assert_eq!(g.dependents_of(3), &vec![2]);
    assert_eq!(g.dependents_of(0), &Vec::<usize>::new());
}

#[test]
fn graphviz_text() {
    let g = chain_graph();
    let expected = "digraph {\n  0 [label=\"/p/a.ts\"]\n  0 -> 2\n  1 [label=\"/p/b.ts\"]\n  2 [label=\"/p/lib.ts\"]\n  2 -> 3\n  3 [label=\"/p/util.ts\"]\n}";
    assert_eq!(g.graphviz(), expected);
    assert_eq!(file_dependency_map_to_graphviz(&g), expected);
}

#[test]
fn graphviz_twice_is_identical() {
    let a = chain_graph().graphviz();
    let b = chain_graph().graphviz();
    assert_eq!(a, b);
}

#[test]
fn graphviz_large_ids() {
    let mut m = LNSymbolsMap::new();
    for i in 0..12 {
        entry(&mut m, &format!("/p/f{}.ts", i));
    }
    m.add_declaration(11, &import_named("x"), Some("/p/f10.ts".to_string()));
    let g = built(m);
    assert!(g.graphviz().contains("\n  11 -> 10\n"));
}

#[test]
fn affected_entries() {
    let g = chain_graph();
    assert_eq!(g.get_affected(&"/p/lib.ts".to_string(), true), vec!["/p/a.ts".to_string()]);
    let mut all = g.get_affected(&"/p/util.ts".to_string(), false);
    all.sort();
    assert_eq!(all, vec!["/p/a.ts".to_string(), "/p/lib.ts".to_string()]);
    assert_eq!(g.get_affected(&"/p/util.ts".to_string(), true), vec!["/p/a.ts".to_string()]);
    assert!(g.get_affected(&"/p/unknown.ts".to_string(), false).is_empty());
    assert!(g.get_affected(&"/p/a.ts".to_string(), false).is_empty());
}

fn cycle_graph() -> LanternFileDependencyMap {
    // a -> b -> c -> a
    let mut m = LNSymbolsMap::new();
    entry(&mut m, "/p/a.ts");
    m.add_declaration(0, &import_named("x"), Some("/p/b.ts".to_string()));
    m.add_declaration(1, &import_named("x"), Some("/p/c.ts".to_string()));
    m.add_declaration(2, &import_named("x"), Some("/p/a.ts".to_string()));
    built(m)
}

#[test]
fn affected_through_cycle() {
    let g = cycle_graph();
    let mut r = g.get_affected(&"/p/a.ts".to_string(), false);
    r.sort();
    assert_eq!(r, vec!["/p/a.ts".to_string(), "/p/b.ts".to_string(), "/p/c.ts".to_string()]);
    assert_eq!(g.get_affected(&"/p/b.ts".to_string(), true), vec!["/p/a.ts".to_string()]);
}

#[test]
fn cycles_found() {
    let g = cycle_graph();
    let cycles = find_cycles(&g);
    assert_eq!(cycles, vec![vec![0, 1, 2]]);
}

#[test]
fn no_cycles_in_chain() {
    let g = chain_graph();
    assert!(find_cycles(&g).is_empty());
}

#[test]
fn self_import_is_a_cycle() {
    let mut m = LNSymbolsMap::new();
    entry(&mut m, "/p/a.ts");
    m.add_declaration(0, &import_named("x"), Some("/p/a.ts".to_string()));
    let g = built(m);
    assert_eq!(find_cycles(&g), vec![vec![0]]);
}

#[test]
fn reexports_found() {
    let mut m = LNSymbolsMap::new();
    let idx = entry(&mut m, "/p/index.ts");
    m.add_declaration(idx, &Declaration::ExportAll(Span::new(0, 20)), Some("/p/m1.ts".to_string()));
    m.add_declaration(1, &reexport("a", "b"), Some("/p/m2.ts".to_string()));
    m.add_declaration(1, &export_const("c", 40), None);
    m.add_declaration(1, &Declaration::ExportAll(Span::new(50, 70)), Some("/p/m2.ts".to_string()));
    m.add_declaration(2, &export_const("a", 13), None);
    let r = find_files_with_reexports(&m);
    assert_eq!(r.len(), 2);
    assert_eq!(r[0].module_id, 1);
    assert_eq!(r[0].get_name(), Some("b"));
    assert!(matches!(r[1].symbol, LNSymbolData::ExportAll(_)));
}

#[test]
fn variable_patterns_export_nothing() {
    let mut m = LNSymbolsMap::new();
    let idx = entry(&mut m, "/p/a.ts");
    let d = Declaration::ExportVariables(vec![
        Binding::Identifier("a".to_string(), Span::new(11, 12)),
        Binding::Pattern,
        Binding::Identifier("b".to_string(), Span::new(20, 21)),
    ]);
    m.add_declaration(idx, &d, None);
    assert_eq!(names(&m.symbols), vec![Some("a".to_string()), Some("b".to_string())]);
}

#[test]
fn read_span_text() {
    let mut m = LNSymbolsMap::new();
    let idx = entry(&mut m, "/p/a.ts");
    assert_eq!(m.read_span_from_module(idx, &Span::new(13, 14)), None);
    m.set_module_source(idx, "export const a = 1;".to_string());
    assert_eq!(m.read_span_from_module(idx, &Span::new(13, 14)), Some("a"));
    assert_eq!(m.read_span_from_module(idx, &Span::new(0, 6)), Some("export"));
    assert_eq!(m.read_span_from_module(idx, &Span::new(14, 13)), None);
    assert_eq!(m.read_span_from_module(idx, &Span::new(10, 40)), None);
    m.set_module_source(idx, "é".to_string());
    assert_eq!(m.read_span_from_module(idx, &Span::new(0, 1)), None);
    assert_eq!(m.read_span_from_module(idx, &Span::new(0, 2)), Some("é"));
}

#[test]
fn declared_counts() {
    assert_eq!(declared_symbol_count(&export_const("a", 0)), 1);
    assert_eq!(declared_symbol_count(&Declaration::ExportVariables(vec![Binding::Pattern])), 0);
    assert_eq!(declared_symbol_count(&Declaration::Import(None, Span::new(0, 1), false)), 0);
    assert_eq!(declared_symbol_count(&import_named("a")), 1);
    assert_eq!(declared_symbol_count(&Declaration::ExportDefaultExpr(Span::new(0, 1))), 1);
}

#[test]
fn unused_exports_never_imported_targets() {
    // every export that an import here can take is taken; the rest stay unused
    let mut m = LNSymbolsMap::new();
    let idx = entry(&mut m, "/p/index.ts");
    m.add_declaration(idx, &import_named("a"), Some("/p/m.ts".to_string()));
    let d = Declaration::Import(Some(vec![ImportSpecifier::Default("D".to_string(), Span::new(7, 8))]), Span::new(14, 19), false);
    m.add_declaration(idx, &d, Some("/p/m.ts".to_string()));
    m.add_declaration(1, &export_const("a", 13), None);
    m.add_declaration(1, &Declaration::ExportDefaultFn(Some(("f".to_string(), Span::new(40, 41))), Span::new(31, 60)), None);
    m.add_declaration(1, &Declaration::ExportEnum("E".to_string(), Span::new(70, 71)), None);
    let unused = find_unused_exports(&m);
    assert_eq!(names(&unused), vec![Some("E".to_string())]);
    let targets: Vec<usize> = m.symbols.iter().filter_map(|s| match &s.symbol {
        LNSymbolData::ImportNamed(_, _, _, f, _) | LNSymbolData::ImportDefault(_, _, f, _) => Some(f.module_id),
        _ => None,
    }).collect();
    assert_eq!(targets, vec![1, 1]);
}

#[test]
fn transpose_holds() {
    let g = chain_graph();
    let n = g.symbols_map.modules.len();
    for m in 0..n {
        for x in 0..n {
            assert_eq!(g.dependents_of(m).contains(&x), g.dependencies_of(x).contains(&m));
        }
    }
}

#[test]
fn merged_affected_paths_are_a_set() {
    let mut acc: Vec<String> = Vec::new();
    merge_paths(&mut acc, &vec!["/p/a.ts".to_string(), "/p/b.ts".to_string()]);
    merge_paths(&mut acc, &vec!["/p/b.ts".to_string(), "/p/c.ts".to_string(), "/p/c.ts".to_string()]);
    assert_eq!(acc, vec!["/p/a.ts".to_string(), "/p/b.ts".to_string(), "/p/c.ts".to_string()]);
}

#[test]
fn affected_union_over_changed_files() {
    // a depends on lib and on util; changing both reports a once
    let mut m = LNSymbolsMap::new();
    entry(&mut m, "/p/a.ts");
    m.add_declaration(0, &import_named("x"), Some("/p/lib.ts".to_string()));
    m.add_declaration(0, &import_named("y"), Some("/p/util.ts".to_string()));
    let g = built(m);
    let mut all: Vec<String> = Vec::new();
    for changed in ["/p/lib.ts", "/p/util.ts"] {
        merge_paths(&mut all, &g.get_affected(&changed.to_string(), true));
    }
    assert_eq!(all, vec!["/p/a.ts".to_string()]);
}

#[test]
fn export_all_reference_span() {
    let mut m = LNSymbolsMap::new();
    let idx = entry(&mut m, "/p/index.ts");
    m.add_declaration(idx, &Declaration::ExportAll(Span::new(14, 19)), Some("/p/m.ts".to_string()));
    assert_eq!(*m.symbols[0].get_span(), Span::new(14, 19));
    assert_eq!(m.modules[1].symbols.len(), 0);
}
