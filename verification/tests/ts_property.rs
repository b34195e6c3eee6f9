use dossier::syntax::{typescript_syntax, SyntaxTree};
use dossier::ts::symbol::SymbolIds;
use dossier::ts::symbol_table::ScopeIds;
use dossier::ts::context::ParserContext;
use dossier::ts::parse::parse_property;
use dossier::ts::symbol::Symbol;
use dossier::ts::types::Type;

/// The member at position `k` of the body of the interface that opens `tree`.
fn interface_member(tree: &SyntaxTree, k: usize) -> usize {
    let declaration = tree.child_at(0, 0);
    let body = tree.child_at(declaration, 2);
    tree.child_at(body, k)
}

fn parse_member(code: &str, k: usize) -> Symbol {
    let tree = typescript_syntax(code).unwrap();
    let node = interface_member(&tree, k);
    let mut ctx = ParserContext::new("index.ts", code, &tree, ScopeIds::new(), SymbolIds::new());
    parse_property(node, &mut ctx).unwrap()
}

#[test]
fn parses_property() {
    let symbol = parse_member("interface Context {\n    foo: number;\n}\n#", 1);
    let property = symbol.kind.as_property().unwrap();
    assert_eq!(property.identifier, "foo");
    let property_type = property.the_type().unwrap().kind.as_type().unwrap();
    assert_eq!(property_type, &Type::Predefined("number".to_owned()));
}

#[test]
fn parses_property_private_modifier() {
    let symbol = parse_member("interface Context {\n    private foo: number;\n}\n#", 1);
    let property = symbol.kind.as_property().unwrap();
    assert_eq!(property.identifier, "foo");
    assert!(property.private);
    assert!(!property.protected);
    assert!(!property.readonly);
}

#[test]
fn parses_property_protected_modifier() {
    let symbol = parse_member("interface Context {\n    protected foo: number;\n}\n#", 1);
    let property = symbol.kind.as_property().unwrap();
    assert_eq!(property.identifier, "foo");
    assert!(property.protected);
    assert!(!property.private);
    assert!(!property.readonly);
}

#[test]
fn parses_readonly_property() {
    let symbol = parse_member("interface Context {\n    readonly foo: number;\n}\n#", 1);
    let property = symbol.kind.as_property().unwrap();
    assert_eq!(property.identifier, "foo");
    assert!(property.readonly);
    assert!(!property.protected);
    assert!(!property.private);
}

#[test]
fn parses_optional_property() {
    let symbol = parse_member("interface Context {\n    foo?: number;\n    private readonly bar?: number;\n}\n#", 1);
    let property = symbol.kind.as_property().unwrap();
    assert!(property.optional);
    assert_eq!(property.identifier, "foo");
    assert!(!property.readonly);
    assert!(!property.protected);
    assert!(!property.private);
}

#[test]
fn parses_optional_property_with_other_modifiers() {
    let symbol = parse_member("interface Context {\n    private readonly bar?: number;\n}\n#", 1);
    let property = symbol.kind.as_property().unwrap();
    assert!(property.optional);
    assert_eq!(property.identifier, "bar");
    assert!(property.readonly);
    assert!(!property.protected);
    assert!(property.private);
}

#[test]
fn parses_property_docs() {
    let code = "interface Context {\n    /**\n     * Some documentation\n     */\n    readonly foo: number;\n}\n#";
    let symbol = parse_member(code, 2);
    let property = symbol.kind.as_property().unwrap();
    assert_eq!(property.identifier, "foo");
    assert_eq!(property.documentation, Some("Some documentation".to_owned()));
}
