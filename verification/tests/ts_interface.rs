use dossier::syntax::{typescript_syntax, SyntaxTree};
use dossier::ts::symbol::SymbolIds;
use dossier::ts::symbol_table::ScopeIds;
use dossier::ts::context::ParserContext;
use dossier::ts::declarations::parse_interface;
use dossier::ts::method::Identifier;
use dossier::ts::symbol::Symbol;
use dossier::ts::types::Type;

/// The interface declaration of `tree`, within an export statement or not.
fn find_interface(tree: &SyntaxTree) -> usize {
    assert_eq!(tree.kind(0), "program");
    let mut k = 0;
    loop {
        let c = tree.child_at(0, k);
        if tree.kind(c) == "interface_declaration" {
            return c;
        }
        if tree.kind(c) == "export_statement" {
            return tree.child_at(c, 1);
        }
        k += 1;
        if k >= tree.child_count_of(0) {
            panic!("Could not find interface_declaration node");
        }
    }
}

fn parse_the_interface(code: &str) -> Symbol {
    let tree = typescript_syntax(code).unwrap();
    let node = find_interface(&tree);
    let mut ctx = ParserContext::new("index.ts", code, &tree, ScopeIds::new(), SymbolIds::new());
    parse_interface(node, &mut ctx).unwrap()
}

#[test]
fn interface_documentation() {
    let symbol = parse_the_interface("/**\n * This is a test interface.\n */\ninterface Test {\n    test: string;\n}\n");
    assert_eq!(symbol.kind.as_interface().unwrap().documentation, Some("This is a test interface.".to_owned()));
}

#[test]
fn exported() {
    let symbol = parse_the_interface("/**\n * This is a test interface.\n */\nexport interface Test {\n    test: string;\n}\n");
    assert!(symbol.kind.as_interface().unwrap().exported, "Should be exported");
}

#[test]
fn interface_generics() {
    let symbol = parse_the_interface("interface KeyValue<K, V extends string> {\n  key: K,\n  value: V\n}\n");
    let interface = symbol.kind.as_interface().unwrap();
    let generics = interface.type_variables();
    assert_eq!(generics.len(), 2);
    assert!(symbol.scope_id < generics[0].scope_id);
    let type_var = generics[0].kind.as_type_variable().unwrap();
    assert_eq!(type_var.identifier, "K");
    assert_eq!(type_var.constraints().len(), 0);
    let type_var = generics[1].kind.as_type_variable().unwrap();
    assert_eq!(type_var.identifier, "V");
    let constraint = type_var.constraints()[0];
    assert_eq!(
        constraint.kind.as_type_constraint().unwrap().the_type().kind.as_type().unwrap(),
        &Type::Predefined("string".to_owned())
    );
    let property = interface.properties()[0];
    assert!(generics[0].scope_id < property.scope_id);
}

#[test]
fn method_signatures() {
    let symbol = parse_the_interface("interface Test {\n    toOperationNode(): AliasNode\n}\n");
    let interface = symbol.kind.as_interface().unwrap();
    assert_eq!(interface.methods().len(), 1);
    let method = interface.methods()[0];
    assert_eq!(method.kind.as_method().unwrap().identifier, Identifier::Name("toOperationNode".to_string()));
    let return_type = method.kind.as_method().unwrap().return_type().unwrap();
    assert_eq!(return_type.kind.as_type().unwrap(), &Type::Identifier("AliasNode".to_owned(), None));
}

#[test]
fn extends_syntax() {
    let symbol = parse_the_interface("export interface Expression<T> extends OperationNodeSource {\n}\n");
    let interface = symbol.kind.as_interface().unwrap();
    let extends = interface.extends().unwrap().kind.as_type().unwrap();
    assert_eq!(extends, &Type::Identifier("OperationNodeSource".to_owned(), None));
}

#[test]
fn reads_the_body_of_an_interface_that_extends_another() {
    let symbol = parse_the_interface(
        "interface Named extends Base {\n  name: string;\n  greet(): string;\n}\n",
    );
    let interface = symbol.kind.as_interface().unwrap();
    assert_eq!(interface.properties().len(), 1);
    assert_eq!(interface.methods().len(), 1);
}
