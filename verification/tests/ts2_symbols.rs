use dossier::ts::symbol_table::ScopeIds;
use dossier::ts2::function::Function;
use dossier::ts2::symbols::{Source, Symbol, SymbolKind, SymbolTable};

fn function_named(name: &str) -> Symbol {
    Symbol {
        kind: SymbolKind::Function(Function {
            identifier: name.to_owned(),
            documentation: None,
            is_exported: false,
            return_type: None,
        }),
        source: Source { offset_start_bytes: 0, offset_end_bytes: 0 },
    }
}

#[test]
fn symbols_symbol_table_lookup() {
    let mut ids = ScopeIds::new();
    let mut table = SymbolTable::new("foo.ts", &mut ids);
    table.add_symbol("foo", function_named("foo"));

    let entry = table.lookup("foo", table.root_scope().id).unwrap();

    match &entry.symbol {
        Symbol { kind: SymbolKind::Function(f), .. } => {
            assert_eq!(f.identifier, "foo");
        }
        _ => panic!("Expected a function symbol"),
    }
}

#[test]
fn symbols_symbol_table_lookup_fails_if_no_match_in_a_parent_scope() {
    let mut ids = ScopeIds::new();
    let mut table = SymbolTable::new("foo.ts", &mut ids);
    table.push_scope("bar", &mut ids);
    table.add_symbol("foo", function_named("foo"));
    table.pop_scope();

    assert_eq!(table.lookup("foo", table.root_scope().id), None);
}

#[test]
fn symbols_lookup_in_parent_scopes() {
    let mut ids = ScopeIds::new();
    let mut table = SymbolTable::new("foo.ts", &mut ids);
    table.add_symbol("foo", function_named("foo"));

    table.push_scope("foo", &mut ids);
    table.push_scope("bar", &mut ids);
    let nested_scope_id = table.push_scope("baz", &mut ids);

    assert!(table.lookup("foo", nested_scope_id).is_some());
}

#[test]
fn symbols_computes_fqns_for_entries() {
    let mut ids = ScopeIds::new();
    let mut table = SymbolTable::new("foo.ts", &mut ids);
    table.add_symbol("foo", function_named("foo"));

    let nested_scope = table.push_scope("Fizz", &mut ids);

    table.add_symbol("bar", function_named("bar"));

    assert_eq!(table.lookup("bar", nested_scope).unwrap().fqn, "foo.ts::Fizz::bar");
}

#[test]
fn symbols_scope_ids_are_fresh_across_tables() {
    let mut ids = ScopeIds::new();
    let mut first = SymbolTable::new("a.ts", &mut ids);
    let inner = first.push_scope("Inner", &mut ids);
    let second = SymbolTable::new("b.ts", &mut ids);
    assert!(first.root_scope().id < inner);
    assert!(inner < second.root_scope().id);
    assert_eq!(first.pop_scope(), inner);
    assert_eq!(first.current_scope().id, first.root_scope().id);
}
