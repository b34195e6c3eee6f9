use dossier::syntax::{typescript_syntax, SyntaxTree};
use dossier::ts::symbol::SymbolIds;
use dossier::ts::symbol_table::ScopeIds;
use dossier::ts::context::ParserContext;
use dossier::ts::declarations::parse_field;
use dossier::ts::symbol::Symbol;
use dossier::ts::types::Type;

/// The member at position `k` of the body of the class that opens `tree`.
fn class_member(tree: &SyntaxTree, k: usize) -> usize {
    let declaration = tree.child_at(0, 0);
    let body = tree.child_at(declaration, 2);
    tree.child_at(body, k)
}

fn parse_member(code: &str, k: usize) -> Symbol {
    let tree = typescript_syntax(code).unwrap();
    let node = class_member(&tree, k);
    let mut ctx = ParserContext::new("index.ts", code, &tree, ScopeIds::new(), SymbolIds::new());
    parse_field(node, &mut ctx).unwrap()
}

#[test]
fn parses_field() {
    let symbol = parse_member("class Context {\n    foo: number;\n}\n#", 1);
    let field = symbol.kind.as_field().unwrap();
    assert_eq!(field.identifier, "foo");
    let field_type = field.the_type().unwrap().kind.as_type().unwrap();
    assert_eq!(field_type, &Type::Predefined("number".to_owned()));
}

#[test]
fn parses_field_with_number_value() {
    let symbol = parse_member("class Context {\n    foo = 123;\n}\n#", 1);
    let field = symbol.kind.as_field().unwrap();
    assert_eq!(field.identifier, "foo");
    assert_eq!(field.value.as_ref().unwrap(), "123");
}

#[test]
fn parses_field_with_string_value() {
    let symbol = parse_member("class Context {\n    foo = \"an string\";\n}\n#", 1);
    let field = symbol.kind.as_field().unwrap();
    assert_eq!(field.identifier, "foo");
    assert_eq!(field.value.as_ref().unwrap(), "\"an string\"");
}

#[test]
fn parses_field_with_expression() {
    let symbol = parse_member("class Context {\n    foo = new Bar();\n}\n#", 1);
    let field = symbol.kind.as_field().unwrap();
    assert_eq!(field.identifier, "foo");
    assert_eq!(field.value.as_ref().unwrap(), "new Bar()");
}

#[test]
fn parses_field_private_modifier() {
    let symbol = parse_member("class Context {\n    private foo: number = 123;\n}\n#", 1);
    let field = symbol.kind.as_field().unwrap();
    assert_eq!(field.identifier, "foo");
    assert!(field.private);
    assert!(!field.protected);
    assert!(!field.readonly);
}

#[test]
fn parses_field_protected_modifier() {
    let symbol = parse_member("class Context {\n    protected foo: number = 123;\n}\n#", 1);
    let field = symbol.kind.as_field().unwrap();
    assert_eq!(field.identifier, "foo");
    assert!(field.protected);
    assert!(!field.private);
    assert!(!field.readonly);
}

#[test]
fn parses_readonly_field() {
    let symbol = parse_member("class Context {\n    readonly foo: number = 123;\n}\n#", 1);
    let field = symbol.kind.as_field().unwrap();
    assert_eq!(field.identifier, "foo");
    assert!(field.readonly);
    assert!(!field.protected);
    assert!(!field.private);
}

#[test]
fn parses_field_docs() {
    let code = "class Context {\n    /**\n     * Some documentation\n     */\n    readonly foo: number = 123;\n}\n#";
    let symbol = parse_member(code, 2);
    let field = symbol.kind.as_field().unwrap();
    assert_eq!(field.identifier, "foo");
    assert_eq!(field.documentation, Some("Some documentation".to_owned()));
}
