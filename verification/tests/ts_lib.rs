use dossier::ts::declarations::parse_source;
use dossier::ts::symbol::SymbolIds;
use dossier::ts::symbol_table::ScopeIds;
use dossier::ts::types::Type;

#[test]
fn lib_parses_a_file_with_functions() {
    let mut ids = ScopeIds::new();
    let mut symbol_ids = SymbolIds::new();
    let source = "/**\n * The documentation\n */\nexport function foo() {\n    console.log(\"Hello, world!\");\n}\n\nexport function bar(): string {\n    console.log(\"Hello, world!\");\n}\n";
    let table = parse_source("index.ts", source, &mut ids, &mut symbol_ids).unwrap();
    let symbols = table.all_symbols();

    let symbol = &symbols[0];
    let function = symbol.kind.as_function().unwrap();
    assert_eq!(function.identifier, "foo".to_string());
    assert_eq!(function.documentation, Some("The documentation".to_string()));
    assert_eq!(function.identifier, "foo".to_string());
    assert_eq!(symbol.fqn, "index.ts::foo");

    let symbol = &symbols[1];
    let function = symbol.kind.as_function().unwrap();
    assert_eq!(function.identifier, "bar".to_string());
    assert_eq!(function.documentation, None);
    assert_eq!(
        function.return_type().as_ref().unwrap().kind.as_type(),
        Some(&Type::Predefined("string".to_owned()))
    );

    assert_eq!(symbols.len(), 2);
}

#[test]
fn lib_parses_imports_from_a_file() {
    let mut ids = ScopeIds::new();
    let mut symbol_ids = SymbolIds::new();
    let source = "import { Foo } from \"./foo.ts\";\n\nexport function makeFoo(): Foo {\n    return new Foo();\n}\n";
    let table = parse_source("index.ts", source, &mut ids, &mut symbol_ids).unwrap();
    let symbols = table.all_symbols();
    assert_eq!(symbols.len(), 1);
    let imports = table.all_imports();
    assert_eq!(imports.len(), 1);
    assert_eq!(imports[0].names, vec!["Foo"]);
    assert_eq!(imports[0].source, "./foo.ts");
}

#[test]
fn parses_type_definitions() {
    let mut ids = ScopeIds::new();
    let mut symbol_ids = SymbolIds::new();
    let source = "type Foo = string;\n";
    let table = parse_source("index.ts", source, &mut ids, &mut symbol_ids).unwrap();
    let symbols = table.all_symbols();
    assert_eq!(symbols.len(), 1);
    let symbol = &symbols[0];
    let alias = symbol.kind.as_type_alias().unwrap();
    assert_eq!(alias.identifier, "Foo");
    assert_eq!(alias.the_type().kind.as_type(), Some(&Type::Predefined("string".to_owned())));
}

#[test]
fn resolves_type_aliases_in_one_file() {
    let mut ids = ScopeIds::new();
    let mut symbol_ids = SymbolIds::new();
    let source = "type Foo = string;\n\nexport function makeFoo(): Foo {\n    return new Foo();\n}\n";
    let mut table = parse_source("index.ts", source, &mut ids, &mut symbol_ids).unwrap();
    table.resolve_types();
    let symbols = table.all_symbols();
    assert_eq!(symbols.len(), 2);
    let function = symbols[1].kind.as_function().unwrap();
    assert_eq!(
        function.return_type().as_ref().unwrap().kind.as_type(),
        Some(&Type::Identifier("Foo".to_owned(), Some("index.ts::Foo".to_owned())))
    );
}

fn first_property_type(table: &dossier::ts::symbol_table::SymbolTable) -> &Type {
    let symbols = table.all_symbols();
    match symbols[0].kind.as_type_alias().unwrap().the_type().kind.as_type().unwrap() {
        Type::Object { properties, .. } => {
            properties[0].kind.as_property().unwrap().children[0].kind.as_type().unwrap()
        }
        _ => panic!("Expected an object type"),
    }
}

#[test]
fn resolves_type_aliases_in_nested_symbols_in_one_file() {
    let mut ids = ScopeIds::new();
    let mut symbol_ids = SymbolIds::new();
    let source = "type Foo = string;\n\ntype Bar = {\n    foo: Foo;\n}\n";
    let mut table = parse_source("index.ts", source, &mut ids, &mut symbol_ids).unwrap();
    table.resolve_types();
    let symbols = table.all_symbols();
    assert_eq!(symbols.len(), 2);
    match symbols[1].kind.as_type_alias().unwrap().the_type().kind.as_type().unwrap() {
        Type::Object { properties, .. } => {
            let resolved_type = properties[0].kind.as_property().unwrap().children[0].kind.as_type().unwrap();
            assert_eq!(resolved_type, &Type::Identifier("Foo".to_owned(), Some("index.ts::Foo".to_owned())));
        }
        _ => panic!("Expected an object type"),
    }
}

#[test]
fn resolves_type_aliases_across_files() {
    let mut ids = ScopeIds::new();
    let mut symbol_ids = SymbolIds::new();
    let foo_file = "export type Foo = string;\n";
    let index_file = "import { Foo } from \"./foo.ts\";\n\nexport function makeFoo(): Foo {\n    return new Foo();\n}\n";
    let mut foo_table = parse_source("foo.ts", foo_file, &mut ids, &mut symbol_ids).unwrap();
    let mut index_table = parse_source("index.ts", index_file, &mut ids, &mut symbol_ids).unwrap();
    foo_table.resolve_types();
    index_table.resolve_types();
    let all_tables = vec![&foo_table];
    index_table.resolve_imported_types(&all_tables);
    let symbols = index_table.all_symbols();
    assert_eq!(symbols.len(), 1);
    let function = symbols[0].kind.as_function().unwrap();
    assert_eq!(
        function.return_type().as_ref().unwrap().kind.as_type(),
        Some(&Type::Identifier("Foo".to_owned(), Some("foo.ts::Foo".to_owned())))
    );
}

#[test]
fn resolves_type_aliases_in_nested_symbols_across_files() {
    let mut ids = ScopeIds::new();
    let mut symbol_ids = SymbolIds::new();
    let foo_file = "export type Foo = string;\n";
    let index_file = "import { Foo } from \"./foo.ts\";\n\ntype Bar = {\n    foo: Foo;\n}\n";
    let mut foo_table = parse_source("foo.ts", foo_file, &mut ids, &mut symbol_ids).unwrap();
    let mut index_table = parse_source("index.ts", index_file, &mut ids, &mut symbol_ids).unwrap();
    foo_table.resolve_types();
    index_table.resolve_types();
    let all_tables = vec![&foo_table];
    index_table.resolve_imported_types(&all_tables);
    assert_eq!(index_table.all_symbols().len(), 1);
    assert_eq!(
        first_property_type(&index_table),
        &Type::Identifier("Foo".to_owned(), Some("foo.ts::Foo".to_owned()))
    );
}

#[test]
fn does_not_resolves_type_aliases_in_nested_symbols_across_files_if_the_referenced_type_is_not_exported() {
    let mut ids = ScopeIds::new();
    let mut symbol_ids = SymbolIds::new();
    let foo_file = "type Foo = string;\n";
    let index_file = "import { Foo } from \"./foo.ts\";\n\ntype Bar = {\n    foo: Foo;\n}\n";
    let mut foo_table = parse_source("foo.ts", foo_file, &mut ids, &mut symbol_ids).unwrap();
    let mut index_table = parse_source("index.ts", index_file, &mut ids, &mut symbol_ids).unwrap();
    foo_table.resolve_types();
    index_table.resolve_types();
    let all_tables = vec![&foo_table];
    index_table.resolve_imported_types(&all_tables);
    assert_eq!(index_table.all_symbols().len(), 1);
    assert_eq!(
        first_property_type(&index_table),
        &Type::Identifier("Foo".to_owned(), None),
        "The type should not be resolved because it is not exported"
    );
}

#[test]
fn resolves_type_aliases_in_nested_symbols_across_files_if_the_referenced_type_is_exported_later_in_the_file() {
    let mut ids = ScopeIds::new();
    let mut symbol_ids = SymbolIds::new();
    let foo_file = "type Foo = string;\n\nexport { Foo };\n";
    let index_file = "import { Foo } from \"./foo.ts\";\n\ntype Bar = {\n    foo: Foo;\n}\n";
    let mut foo_table = parse_source("foo.ts", foo_file, &mut ids, &mut symbol_ids).unwrap();
    let mut index_table = parse_source("index.ts", index_file, &mut ids, &mut symbol_ids).unwrap();
    foo_table.resolve_types();
    index_table.resolve_types();
    let all_tables = vec![&foo_table];
    index_table.resolve_imported_types(&all_tables);
    assert_eq!(index_table.all_symbols().len(), 1);
    assert_eq!(
        first_property_type(&index_table),
        &Type::Identifier("Foo".to_owned(), Some("foo.ts::Foo".to_owned()))
    );
}

#[test]
fn resolves_type_aliases_to_nearest_symbol() {
    let mut ids = ScopeIds::new();
    let mut symbol_ids = SymbolIds::new();
    let source = "type Foo = string;\n\nfunction identity<Foo>(arg: Foo): Foo {\n    return arg;\n}\n";
    let mut table = parse_source("index.ts", source, &mut ids, &mut symbol_ids).unwrap();
    table.resolve_types();
    let symbols = table.all_symbols();
    assert_eq!(symbols.len(), 2);
    let return_type = symbols[1].kind.as_function().unwrap().return_type().unwrap();
    assert_eq!(return_type.fqn, "index.ts::identity::Foo");
}

#[test]
fn lib_tables_parsed_in_turn_share_no_scope_ids() {
    let mut ids = ScopeIds::new();
    let mut symbol_ids = SymbolIds::new();
    let first = parse_source("a.ts", "function f<T>(x: T) {}\n", &mut ids, &mut symbol_ids).unwrap();
    let second = parse_source("b.ts", "function g() {}\n", &mut ids, &mut symbol_ids).unwrap();
    let a_ids: Vec<usize> = first.all_symbols().iter().map(|s| s.scope_id).collect();
    let b_root = second.root_scope().id;
    assert!(first.root_scope().id < b_root);
    assert!(a_ids.iter().all(|id| *id < b_root));
    let f = first.all_symbols()[0].kind.as_function().unwrap();
    assert!(!f.children.is_empty());
    assert!(f.children.iter().all(|c| c.scope_id < b_root && c.scope_id > first.root_scope().id));
}

#[test]
fn lib_symbols_get_increasing_non_zero_ids() {
    let mut ids = ScopeIds::new();
    let mut symbol_ids = SymbolIds::new();
    let source = "function foo<T>(x: T): string {}\nfunction bar() {}\n";
    let table = parse_source("index.ts", source, &mut ids, &mut symbol_ids).unwrap();
    let symbols = table.all_symbols();
    assert_eq!(symbols.len(), 2);
    let foo = &symbols[0];
    let bar = &symbols[1];
    assert!(foo.id != 0);
    assert!(foo.id < bar.id);
    let children = &foo.kind.as_function().unwrap().children;
    assert!(children.iter().all(|c| c.id != 0 && c.id != foo.id && c.id != bar.id));
}

#[test]
fn lib_symbol_ids_differ_across_files_parsed_in_turn() {
    let mut ids = ScopeIds::new();
    let mut symbol_ids = SymbolIds::new();
    let first = parse_source("a.ts", "function f() {}\n", &mut ids, &mut symbol_ids).unwrap();
    let second = parse_source("b.ts", "function g() {}\n", &mut ids, &mut symbol_ids).unwrap();
    assert!(first.all_symbols()[0].id < second.all_symbols()[0].id);
}
