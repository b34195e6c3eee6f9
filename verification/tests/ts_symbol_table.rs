use dossier::ts::import::Import;
use dossier::ts::function::Function;
use dossier::ts::symbol::{Source, Symbol, SymbolKind, UNUSED_SYMBOL_ID};
use dossier::ts::symbol_table::{ScopeIds, SymbolTable};

fn function_named_foo(table: &SymbolTable) -> Symbol {
    Symbol {
        id: UNUSED_SYMBOL_ID,
        kind: SymbolKind::Function(Function {
            identifier: "foo".to_owned(),
            documentation: None,
            is_exported: false,
            children: vec![],
        }),
        source: Source { file: "foo.ts".to_owned(), offset_start_bytes: 0, offset_end_bytes: 0 },
        fqn: "foo.ts::foo".to_owned(),
        context: None,
        scope_id: table.current_scope().id,
    }
}

#[test]
fn symbol_table_symbol_table_lookup() {
    let mut ids = ScopeIds::new();
    let mut table = SymbolTable::new("foo.ts", &mut ids);
    let symbol = function_named_foo(&table);
    table.add_symbol(symbol);

    let symbol = table.lookup("foo", table.root_scope().id).unwrap();

    match &symbol {
        Symbol { kind: SymbolKind::Function(f), .. } => {
            assert_eq!(f.identifier, "foo");
        }
        _ => panic!("Expected a function symbol"),
    }
}

#[test]
fn symbol_table_symbol_table_lookup_fails_if_no_match_in_a_parent_scope() {
    let mut ids = ScopeIds::new();
    let mut table = SymbolTable::new("foo.ts", &mut ids);
    table.push_scope("bar", &mut ids);
    let symbol = function_named_foo(&table);
    table.add_symbol(symbol);
    table.pop_scope();

    assert_eq!(table.lookup("foo", table.root_scope().id), None);
}

#[test]
fn symbol_table_lookup_in_parent_scopes() {
    let mut ids = ScopeIds::new();
    let mut table = SymbolTable::new("foo.ts", &mut ids);
    let symbol = function_named_foo(&table);
    table.add_symbol(symbol);

    table.push_scope("foo", &mut ids);
    table.push_scope("bar", &mut ids);
    let nested_scope_id = table.push_scope("baz", &mut ids);

    assert!(table.lookup("foo", nested_scope_id).is_some());
}

#[test]
fn symbol_table_computes_fqns_for_entries() {
    let mut ids = ScopeIds::new();
    let mut table = SymbolTable::new("foo.ts", &mut ids);
    assert_eq!(table.construct_fqn("foo"), "foo.ts::foo");
    let _nested_scope = table.push_scope("Fizz", &mut ids);
    assert_eq!(table.construct_fqn("foo"), "foo.ts::Fizz::foo");
}

#[test]
fn symbol_table_lookup_prefers_the_nearest_scope() {
    let mut ids = ScopeIds::new();
    let mut table = SymbolTable::new("foo.ts", &mut ids);
    let outer = function_named_foo(&table);
    table.add_symbol(outer);
    let inner_scope = table.push_scope("bar", &mut ids);
    let mut inner = function_named_foo(&table);
    inner.fqn = "foo.ts::bar::foo".to_owned();
    table.add_symbol(inner);

    assert_eq!(table.lookup("foo", inner_scope).unwrap().fqn, "foo.ts::bar::foo");
    assert_eq!(table.lookup("foo", table.root_scope().id).unwrap().fqn, "foo.ts::foo");
}

#[test]
fn symbol_table_keeps_imports_by_scope_in_the_order_added() {
    let mut ids = ScopeIds::new();
    let import = |source: &str| Import { names: vec!["A".to_owned()], source: source.to_owned() };
    let mut table = SymbolTable::new("foo.ts", &mut ids);
    table.add_import(import("./a"));
    let inner = table.push_scope("inner", &mut ids);
    table.add_import(import("./b"));
    table.pop_scope();
    table.add_import(import("./c"));
    assert_eq!(table.current_scope().id, table.root_scope().id);
    let all: Vec<String> = table.all_imports().iter().map(|i| i.source.clone()).collect();
    assert_eq!(all, vec!["./a".to_owned(), "./c".to_owned(), "./b".to_owned()]);
    assert_ne!(inner, table.root_scope().id);
}

#[test]
fn symbol_table_scope_ids_are_fresh_across_tables() {
    let mut ids = ScopeIds::new();
    let mut first = SymbolTable::new("a.ts", &mut ids);
    let a_root = first.root_scope().id;
    let a_inner = first.push_scope("A", &mut ids);
    let second = SymbolTable::new("b.ts", &mut ids);
    let b_root = second.root_scope().id;
    assert!(a_root < a_inner);
    assert!(a_inner < b_root);
    assert_eq!((a_root, a_inner, b_root), (0, 1, 2));
}

#[test]
fn symbol_table_pop_scope_returns_the_id_of_the_scope_left() {
    let mut ids = ScopeIds::new();
    let mut table = SymbolTable::new("foo.ts", &mut ids);
    let outer = table.push_scope("outer", &mut ids);
    let inner = table.push_scope("inner", &mut ids);
    assert!(outer < inner);
    assert_eq!(table.pop_scope(), inner);
    assert_eq!(table.current_scope().id, outer);
    assert_eq!(table.pop_scope(), outer);
    assert_eq!(table.current_scope().id, table.root_scope().id);
    assert_eq!(table.pop_scope(), table.root_scope().id);
}
