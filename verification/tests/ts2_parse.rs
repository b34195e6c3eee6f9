use dossier::ts::symbol_table::ScopeIds;
use dossier::ts2::parse::parse_source;

#[test]
fn ts2_parses_a_file_with_functions() {
    let mut ids = ScopeIds::new();
    let source = "/**\n * The documentation\n */\nexport function foo() {\n    console.log(\"Hello, world!\");\n}\n\nexport function bar() {\n    console.log(\"Hello, world!\");\n}\n";
    let table = parse_source("index.ts", source, &mut ids).unwrap();
    let entries = table.all_entries();
    assert_eq!(entries.len(), 2);
}

#[test]
fn ts2_parses_imports_from_a_file() {
    let mut ids = ScopeIds::new();
    let source = "import { Foo } from \"./foo.ts\";\n\nexport function makeFoo(): Foo {\n    return new Foo();\n}\n";
    let table = parse_source("index.ts", source, &mut ids).unwrap();
    let entries = table.all_entries();
    assert_eq!(entries.len(), 1);
    let imports = table.all_imports();
    assert_eq!(imports.len(), 1);
    assert_eq!(imports[0].names, vec!["Foo"]);
    assert_eq!(imports[0].source, "./foo.ts");
}
