use dossier::syntax::typescript_syntax;
use dossier::ts::symbol::SymbolIds;
use dossier::ts::symbol_table::ScopeIds;
use dossier::ts::context::ParserContext;
use dossier::ts::declarations::parse_function;
use dossier::ts::symbol::{Symbol, SymbolContext};
use dossier::ts::types::Type;

fn parse_first_function(code: &str) -> Symbol {
    let tree = typescript_syntax(code).unwrap();
    assert_eq!(tree.kind(0), "program");
    let node = tree.child_at(0, 0);
    assert_eq!(tree.kind(node), "function_declaration");
    let mut ctx = ParserContext::new("index.ts", code, &tree, ScopeIds::new(), SymbolIds::new());
    parse_function(node, &mut ctx).unwrap()
}

#[test]
fn fqns() {
    let symbol = parse_first_function("function foo<Bar extends Baz>() {}\n");
    assert_eq!(symbol.fqn, "index.ts::foo");
    let type_variable = symbol.kind.as_function().unwrap().type_variables()[0];
    assert_eq!(type_variable.fqn, "index.ts::foo::Bar");
}

#[test]
fn parameters() {
    let symbol = parse_first_function("function foo(bar: string, baz, fizz?) {}\n");
    let function = symbol.kind.as_function().unwrap();
    let params = function.parameters();
    assert_eq!(params.len(), 3);
    assert!(params.iter().all(|p| p.context == Some(SymbolContext::Parameter)));

    let bar = params[0].kind.as_parameter().unwrap();
    assert_eq!(params[0].context, Some(SymbolContext::Parameter));
    assert_eq!(bar.identifier, "bar");
    assert!(!bar.optional);
    assert_eq!(bar.parameter_type().unwrap().kind.as_type().unwrap(), &Type::Predefined("string".to_owned()));

    let baz = params[1].kind.as_parameter().unwrap();
    assert_eq!(baz.identifier, "baz");
    assert!(!baz.optional);
    assert_eq!(baz.parameter_type(), None);

    let fizz = params[2].kind.as_parameter().unwrap();
    assert_eq!(fizz.identifier, "fizz");
    assert!(fizz.optional);
    assert_eq!(fizz.parameter_type(), None);
}

#[test]
fn readonly_parameter() {
    let symbol = parse_first_function("function foo(bar: readonly string) {}\n");
    let function = symbol.kind.as_function().unwrap();
    let params = function.parameters();
    assert_eq!(params.len(), 1);
    let bar = params[0].kind.as_parameter().unwrap();
    assert_eq!(bar.identifier, "bar");
    assert!(bar.readonly);
    assert!(!bar.optional);
    assert_eq!(bar.parameter_type().unwrap().kind.as_type().unwrap(), &Type::Predefined("string".to_owned()));
}

#[test]
fn function_generics() {
    let symbol = parse_first_function("function identity<Type>(arg: Type): Type {}\n");
    let function = symbol.kind.as_function().unwrap();
    assert_eq!(function.identifier, "identity");
    assert_eq!(function.type_variables().len(), 1);
    let type_variable = function.type_variables()[0];
    assert!(type_variable.scope_id > symbol.scope_id);
    let type_variable_kind = type_variable.kind.as_type_variable().unwrap();
    assert_eq!(type_variable_kind.identifier, "Type");
    assert_eq!(type_variable_kind.constraints().len(), 0);
    let return_type = function.return_type().unwrap().kind.as_type().unwrap();
    match return_type {
        Type::Identifier(identifier, None) => assert_eq!(identifier, "Type"),
        _ => panic!("Expected type variable"),
    }
}

#[test]
fn generics_with_extends_constraint() {
    let symbol = parse_first_function("function identity<Type extends SomeOtherType>(arg: Type): Type {}\n");
    let function = symbol.kind.as_function().unwrap();
    assert_eq!(function.identifier, "identity");
    assert_eq!(function.type_variables().len(), 1);
    let type_variable = function.type_variables()[0];
    assert!(symbol.scope_id < type_variable.scope_id);
    let type_variable_kind = type_variable.kind.as_type_variable().unwrap();
    assert_eq!(type_variable_kind.identifier, "Type");
    assert_eq!(type_variable_kind.constraints().len(), 1);
    let constraint = type_variable_kind.constraints()[0];
    let constraint_kind = constraint.kind.as_type_constraint().unwrap();
    assert!(constraint_kind.extends);
    assert_eq!(constraint_kind.the_type().kind.as_type().unwrap().identifier().unwrap(), "SomeOtherType");
    let return_type = function.return_type().unwrap();
    assert!(
        type_variable.scope_id < return_type.scope_id,
        "Expected type variable scope to be smaller than return type scope: {:?} < {:?}",
        type_variable.scope_id,
        return_type.scope_id
    );
}

#[test]
fn generics_with_key_of_constraint() {
    let symbol = parse_first_function("function example<A extends keyof B>() {}\n");
    let function = symbol.kind.as_function().unwrap();
    assert_eq!(function.identifier, "example");
    assert_eq!(function.type_variables().len(), 1);
    let type_variable = function.type_variables()[0];
    assert!(symbol.scope_id < type_variable.scope_id);
    let type_variable_kind = type_variable.kind.as_type_variable().unwrap();
    assert_eq!(type_variable_kind.identifier, "A");
    assert_eq!(type_variable_kind.constraints().len(), 1);
    let constraint = type_variable_kind.constraints()[0];
    let constraint_kind = constraint.kind.as_type_constraint().unwrap();
    assert!(constraint_kind.extends);
    let type_kind = constraint_kind.the_type().kind.as_type().unwrap();
    assert!(matches!(type_kind, &Type::KeyOf(_)));
}
