use dossier::common::Identity;
use dossier::ts::symbol::SymbolIds;
use dossier::ts::symbol_table::ScopeIds;
use dossier::py::parser::PythonParser;
use dossier::ts::declarations::parse_source;
use dossier::ts::iterator::SymbolIterator;
use dossier::ts::parser::TypeScriptParser;

fn files(list: &[(&str, &str)]) -> Vec<(String, String)> {
    list.iter().map(|(p, c)| (p.to_string(), c.to_string())).collect()
}

#[test]
fn typescript_files_become_entities() {
    let parser = TypeScriptParser::new();
    let input = files(&[(
        "index.ts",
        "/**\n * Makes a foo.\n */\nexport function makeFoo(name: string): string {\n    return name;\n}\n",
    )]);
    let entities = parser.parse_sources(&input).unwrap();
    assert_eq!(entities.len(), 1);
    let e = &entities[0];
    assert_eq!(e.title.as_deref(), Some("makeFoo"));
    assert_eq!(e.description, "Makes a foo.");
    assert_eq!(e.kind, "function");
    assert_eq!(e.identity, Identity::FQN("index.ts::makeFoo".to_owned()));
    assert_eq!(e.language, "ts");
    assert_eq!(e.source.file, "index.ts");
    assert_eq!(e.member_context, None);
    assert_eq!(e.members.len(), 2);
    assert_eq!(e.members[0].kind, "parameter");
    assert_eq!(e.members[0].title.as_deref(), Some("name"));
    assert_eq!(e.members[0].identity, Identity::FQN("index.ts::makeFoo::name".to_owned()));
}

#[test]
fn typescript_types_resolve_across_files() {
    let parser = TypeScriptParser::new();
    let input = files(&[
        ("foo.ts", "export type Foo = string;\n"),
        ("index.ts", "import { Foo } from \"./foo.ts\";\n\nexport function makeFoo(): Foo {\n    return \"\";\n}\n"),
    ]);
    let entities = parser.parse_sources(&input).unwrap();
    assert_eq!(entities.len(), 2);
    assert_eq!(entities[1].kind, "type_alias");
    assert_eq!(entities[1].identity, Identity::FQN("foo.ts::Foo".to_owned()));
    let function = &entities[0];
    assert_eq!(function.kind, "function");
    let return_type = &function.members[0];
    assert_eq!(return_type.member_context, None);
    assert_eq!(return_type.title.as_deref(), Some("Foo"));
    assert_eq!(return_type.identity, Identity::Reference("foo.ts::Foo".to_owned()));
}

#[test]
fn no_typescript_files_give_no_entities() {
    let parser = TypeScriptParser::new();
    assert_eq!(parser.parse_sources(&[]).unwrap().len(), 0);
}

#[test]
fn python_files_become_entities() {
    let parser = PythonParser::new();
    let input = files(&[
        ("a.py", "class A:\n    \"\"\"An A.\"\"\"\n"),
        ("b.py", "def f(x):\n    \"\"\"Does f.\"\"\"\n    pass\n"),
    ]);
    let entities = parser.parse_sources(&input).unwrap();
    assert_eq!(entities.len(), 2);
    assert_eq!(entities[0].title.as_deref(), Some("A"));
    assert_eq!(entities[0].kind, "class");
    assert_eq!(entities[0].description, "An A.");
    assert_eq!(entities[0].language, "py");
    assert_eq!(entities[0].source.file, "a.py");
    assert_eq!(entities[1].title.as_deref(), Some("f"));
    assert_eq!(entities[1].kind, "function");
    assert_eq!(entities[1].description, "Does f.");
    assert_eq!(entities[1].identity, Identity::FQN("b.py::f".to_owned()));
    assert_eq!(entities[1].source.file, "b.py");
}

#[test]
fn symbols_are_walked_breadth_first() {
    let mut ids = ScopeIds::new();
    let mut symbol_ids = SymbolIds::new();
    let source = "function a(x: string) {}\nfunction b() {}\n";
    let table = parse_source("index.ts", source, &mut ids, &mut symbol_ids).unwrap();
    let symbols = table.all_symbols();
    let mut walk = SymbolIterator::new(symbols);
    let mut seen = Vec::new();
    while let Some(s) = walk.next() {
        seen.push(s);
    }
    assert_eq!(seen.len(), 4);
    assert_eq!(seen[0].fqn, "index.ts::a");
    assert_eq!(seen[1].fqn, "index.ts::b");
    assert_eq!(seen[2].fqn, "index.ts::a::x");
    assert!(seen[3].kind.as_type().is_some());
    assert_eq!(seen[3].identifier(), Some("string"));
    assert!(walk.next().is_none());
}
