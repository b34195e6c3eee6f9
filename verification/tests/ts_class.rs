use dossier::syntax::{typescript_syntax, SyntaxTree};
use dossier::ts::symbol::SymbolIds;
use dossier::ts::symbol_table::ScopeIds;
use dossier::ts::context::ParserContext;
use dossier::ts::declarations::parse_class;
use dossier::ts::method::Identifier;
use dossier::ts::symbol::Symbol;

fn find_class(tree: &SyntaxTree) -> usize {
    assert_eq!(tree.kind(0), "program");
    let mut k = 0;
    loop {
        let c = tree.child_at(0, k);
        if tree.kind(c) == "class_declaration" || tree.kind(c) == "abstract_class_declaration" {
            return c;
        }
        if tree.kind(c) == "export_statement" {
            return tree.child_at(c, 1);
        }
        k += 1;
        if k >= tree.child_count_of(0) {
            panic!("Could not find class_declaration node");
        }
    }
}

fn parse_the_class(code: &str) -> Symbol {
    let tree = typescript_syntax(code).unwrap();
    let node = find_class(&tree);
    let mut ctx = ParserContext::new("index.ts", code, &tree, ScopeIds::new(), SymbolIds::new());
    parse_class(node, &mut ctx).unwrap()
}

#[test]
fn abstract_class() {
    let symbol = parse_the_class("abstract class Base {\n    abstract getName(): string;\n}\n");
    assert_eq!(symbol.kind.as_class().unwrap().identifier, "Base");
    assert!(symbol.kind.as_class().unwrap().is_abstract);
    let abstract_method = symbol.kind.as_class().unwrap().children.iter().find(|s| s.kind.as_method().is_some()).unwrap();
    assert!(abstract_method.kind.as_method().unwrap().is_abstract);
}

#[test]
fn private_method_identifier() {
    let symbol = parse_the_class("class Example {\n  #privateMethod() {}\n}\n#");
    let private_method = symbol.kind.as_class().unwrap().children.iter().find(|s| s.kind.as_method().is_some()).unwrap();
    assert!(private_method.kind.as_method().unwrap().is_private);
}

#[test]
fn computed_method_identifier() {
    let symbol = parse_the_class("class Example {\n  [SOME_IDENTIFIER]() {}\n}\n#");
    let method = symbol.kind.as_class().unwrap().children.iter().find(|s| s.kind.as_method().is_some()).unwrap();
    let identifier = &method.kind.as_method().unwrap().identifier;
    assert_eq!(identifier, &Identifier::Computed("SOME_IDENTIFIER".into()));
}
