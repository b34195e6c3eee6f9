use dossier::syntax::typescript_syntax;
use dossier::ts::symbol::SymbolIds;
use dossier::ts::symbol_table::ScopeIds;
use dossier::ts::context::ParserContext;
use dossier::ts::declarations::parse_type_alias;
use dossier::ts::symbol::Symbol;

fn parse_the_alias(code: &str) -> Symbol {
    let tree = typescript_syntax(code).unwrap();
    let mut k = 0;
    let node = loop {
        let c = tree.child_at(0, k);
        if tree.kind(c) == "type_alias_declaration" {
            break c;
        }
        if tree.kind(c) == "export_statement" {
            break tree.child_at(c, 1);
        }
        k += 1;
    };
    let mut ctx = ParserContext::new("index.ts", code, &tree, ScopeIds::new(), SymbolIds::new());
    parse_type_alias(node, &mut ctx).unwrap()
}

#[test]
fn generic_type_variables() {
    let symbol = parse_the_alias("type Example<T> = T;\n");
    let type_variables = symbol.kind.as_type_alias().unwrap().type_variables();
    assert_eq!(type_variables.len(), 1);
    let var = type_variables[0];
    assert_eq!(var.kind.as_type_variable().unwrap().identifier, "T");
}

#[test]
fn type_alias_documentation() {
    let symbol = parse_the_alias("/**\n * This is a type alias\n */\ntype Example<T> = T;\n");
    assert_eq!(symbol.kind.as_type_alias().unwrap().documentation, Some("This is a type alias".to_owned()));
}
