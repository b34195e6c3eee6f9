use dossier::ts::symbol_table::ScopeIds;
use dossier::common::DossierError;
use dossier::syntax::typescript_syntax;
use dossier::ts2::parse::{parse_source, parse_type};
use dossier::ts2::symbols::{Source, Symbol, SymbolKind, SymbolTable};
use dossier::ts2::type_alias::TypeAlias;
use dossier::ts2::types::Type;

fn return_type_of<'a>(table: &'a SymbolTable, name: &str) -> &'a Type {
    let entry = table.lookup(name, table.root_scope().id).unwrap();
    entry.symbol.kind.as_function().unwrap().return_type.as_ref().unwrap()
}

fn alias_symbol(name: &str) -> Symbol {
    let at = Source { offset_start_bytes: 0, offset_end_bytes: 0 };
    Symbol {
        kind: SymbolKind::TypeAlias(TypeAlias {
            identifier: name.to_owned(),
            type_kind: Box::new(Symbol { kind: SymbolKind::Type(Type::Predefined("string".to_owned())), source: at }),
        }),
        source: at,
    }
}

#[test]
fn resolves_return_types_within_a_file() {
    let mut ids = ScopeIds::new();
    let source = "export function makeFoo(): Foo {\n    return \"\";\n}\n";
    let mut table = parse_source("index.ts", source, &mut ids).unwrap();
    table.add_symbol("Foo", alias_symbol("Foo"));
    assert_eq!(return_type_of(&table, "makeFoo"), &Type::Identifier("Foo".to_owned(), None));
    table.resolve_types();
    assert_eq!(
        return_type_of(&table, "makeFoo"),
        &Type::Identifier("Foo".to_owned(), Some("index.ts::Foo".to_owned()))
    );
    assert_eq!(table.all_entries().len(), 2);
}

#[test]
fn leaves_unknown_return_types_unresolved() {
    let mut ids = ScopeIds::new();
    let source = "export function makeBar(): Bar {\n    return 1;\n}\n";
    let mut table = parse_source("index.ts", source, &mut ids).unwrap();
    table.resolve_types();
    assert_eq!(return_type_of(&table, "makeBar"), &Type::Identifier("Bar".to_owned(), None));
}

#[test]
fn predefined_return_types_need_no_resolution() {
    let mut ids = ScopeIds::new();
    let source = "export function name(): string {\n    return \"\";\n}\n";
    let mut table = parse_source("index.ts", source, &mut ids).unwrap();
    table.resolve_types();
    assert_eq!(return_type_of(&table, "name"), &Type::Predefined("string".to_owned()));
}

#[test]
fn resolves_imported_return_types_across_files() {
    let mut ids = ScopeIds::new();
    let foo = parse_source("foo.ts", "export function Foo() {}\n", &mut ids).unwrap();
    let index_source = "import { Foo } from \"./foo.ts\";\n\nexport function makeFoo(): Foo {\n    return \"\";\n}\n";
    let mut index = parse_source("index.ts", index_source, &mut ids).unwrap();
    index.resolve_imported_types(&[&foo]);
    assert_eq!(
        return_type_of(&index, "makeFoo"),
        &Type::Identifier("Foo".to_owned(), Some("foo.ts::Foo".to_owned()))
    );
}

#[test]
fn imports_of_other_files_resolve_nothing() {
    let mut ids = ScopeIds::new();
    let bar = parse_source("bar.ts", "export function Foo() {}\n", &mut ids).unwrap();
    let index_source = "import { Foo } from \"./foo.ts\";\n\nexport function makeFoo(): Foo {\n    return \"\";\n}\n";
    let mut index = parse_source("index.ts", index_source, &mut ids).unwrap();
    index.resolve_imported_types(&[&bar]);
    assert_eq!(return_type_of(&index, "makeFoo"), &Type::Identifier("Foo".to_owned(), None));
}

#[test]
fn pop_scope_returns_to_the_enclosing_scope() {
    let mut ids = ScopeIds::new();
    let mut table = SymbolTable::new("foo.ts", &mut ids);
    let root = table.current_scope().id;
    let inner = table.push_scope("Inner", &mut ids);
    assert_ne!(inner, root);
    assert_eq!(table.current_scope().id, inner);
    assert_eq!(table.construct_fqn("x"), "foo.ts::Inner::x");
    table.pop_scope();
    assert_eq!(table.current_scope().id, root);
    assert_eq!(table.construct_fqn("x"), "foo.ts::x");
}

#[test]
fn only_type_nodes_parse_as_types() {
    let code = "type Foo = string;";
    let tree = typescript_syntax(code).unwrap();
    let alias = tree.child_at(0, 0);
    let name = tree.child_by_field_name(alias, "name").unwrap();
    let value = tree.child_by_field_name(alias, "value").unwrap();
    assert_eq!(parse_type(&tree, code, value), Ok(Type::Predefined("string".to_owned())));
    assert_eq!(parse_type(&tree, code, name), Ok(Type::Identifier("Foo".to_owned(), None)));
    assert_eq!(
        parse_type(&tree, code, alias),
        Err(DossierError::UnexpectedSyntax("type_alias_declaration".to_owned()))
    );
}

#[test]
fn type_alias_declarations_add_no_entries() {
    let mut ids = ScopeIds::new();
    let table = parse_source("index.ts", "type Foo = string;\n", &mut ids).unwrap();
    assert_eq!(table.all_entries().len(), 0);
    assert_eq!(table.lookup("Foo", table.root_scope().id), None);
}

#[test]
fn adding_a_name_again_replaces_its_entry_in_place() {
    let mut ids = ScopeIds::new();
    let mut table = SymbolTable::new("index.ts", &mut ids);
    table.add_symbol("Foo", alias_symbol("Foo"));
    table.add_symbol("Bar", alias_symbol("Bar"));
    table.add_symbol("Foo", alias_symbol("Foo"));
    let names: Vec<String> = table.all_entries().iter().map(|e| e.fqn.clone()).collect();
    assert_eq!(names, vec!["index.ts::Foo".to_owned(), "index.ts::Bar".to_owned()]);
}
