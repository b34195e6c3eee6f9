use dossier::syntax::{typescript_syntax, SyntaxTree};
use dossier::ts::symbol::SymbolIds;
use dossier::ts::symbol_table::ScopeIds;
use dossier::ts::context::ParserContext;
use dossier::ts::parse::parse_type;
use dossier::ts::symbol::Symbol;
use dossier::ts::types::Type;

/// The value of the type alias that opens `tree`.
fn alias_value(tree: &SyntaxTree) -> usize {
    let declaration = tree.child_at(0, 0);
    tree.child_at(declaration, 3)
}

fn parse_alias_value(code: &str) -> Symbol {
    let tree = typescript_syntax(code).unwrap();
    let node = alias_value(&tree);
    let mut ctx = ParserContext::new("index.ts", code, &tree, ScopeIds::new(), SymbolIds::new());
    parse_type(node, &mut ctx).unwrap()
}

#[test]
fn parses_predefined_type() {
    let symbol = parse_alias_value("type Foo = string;\n#");
    let type_def = symbol.kind.as_type().unwrap();
    match type_def {
        Type::Predefined(name) => assert_eq!(name, "string"),
        _ => panic!("Expected a predefined type"),
    }
}

#[test]
fn parses_type_identifiers() {
    let symbol = parse_alias_value("type Foo = Bar;\n#");
    let type_def = symbol.kind.as_type().unwrap();
    match type_def {
        Type::Identifier(name, referred_fqn) => {
            assert_eq!(name, "Bar");
            assert_eq!(referred_fqn, &None, "The type should not be resolved at this point");
        }
        _ => panic!("Expected a type identifier"),
    }
}

#[test]
fn parses_object_types() {
    let symbol = parse_alias_value("type Player = {\n    name: string;\n    age?: number;\n}\n#");
    let type_def = symbol.kind.as_type().unwrap();
    match type_def {
        Type::Object { properties, .. } => {
            assert_eq!(properties.len(), 2);
            assert_eq!(properties[0].kind.as_property().unwrap().identifier, "name");
            assert!(!properties[0].kind.as_property().unwrap().optional);
            assert_eq!(
                properties[0].kind.as_property().unwrap().children[0].kind.as_type().unwrap(),
                &Type::Predefined("string".to_string())
            );
            assert_eq!(properties[1].kind.as_property().unwrap().identifier, "age");
            assert!(properties[1].kind.as_property().unwrap().optional);
            assert_eq!(
                properties[1].kind.as_property().unwrap().children[0].kind.as_type().unwrap(),
                &Type::Predefined("number".to_string())
            );
        }
        _ => panic!("Expected a type identifier"),
    }
}

#[test]
fn parses_union_type() {
    let symbol = parse_alias_value("type Foo = string | number;\n#");
    let type_def = symbol.kind.as_type().unwrap();
    match type_def {
        Type::Union { .. } => {
            let left = type_def.union_left().unwrap().kind.as_type().unwrap();
            assert_eq!(left, &Type::Predefined("string".to_string()));
            let right = type_def.union_right().unwrap().kind.as_type().unwrap();
            assert_eq!(right, &Type::Predefined("number".to_string()));
        }
        _ => panic!("Expected a type identifier"),
    }
}

#[test]
fn parses_nested_union_type() {
    let symbol = parse_alias_value("type Foo = string | number | boolean;\n#");
    let type_def = symbol.kind.as_type().unwrap();
    match type_def {
        Type::Union { .. } => {
            let left = type_def.union_left().unwrap().kind.as_type().unwrap();
            let left_left = left.union_left().unwrap().kind.as_type().unwrap();
            assert_eq!(left_left, &Type::Predefined("string".to_string()));
            let left_right = left.union_right().unwrap().kind.as_type().unwrap();
            assert_eq!(left_right, &Type::Predefined("number".to_string()));
            let right = type_def.union_right().unwrap().kind.as_type().unwrap();
            assert_eq!(right, &Type::Predefined("boolean".to_string()));
        }
        _ => panic!("Expected a type identifier"),
    }
}

#[test]
fn parses_intersection_type() {
    let symbol = parse_alias_value("type Foo = Bar & Baz;\n#");
    let type_def = symbol.kind.as_type().unwrap();
    match type_def {
        Type::Intersection { .. } => {
            let left = type_def.intersection_left().unwrap().kind.as_type().unwrap();
            assert_eq!(left, &Type::Identifier("Bar".to_string(), None));
            let right = type_def.intersection_right().unwrap().kind.as_type().unwrap();
            assert_eq!(right, &Type::Identifier("Baz".to_string(), None));
        }
        _ => panic!("Expected a type identifier"),
    }
}

#[test]
fn parses_generic_type() {
    let symbol = parse_alias_value("type Foo = Promise<Example>;\n#");
    let type_def = symbol.kind.as_type().unwrap();
    assert_eq!(type_def.identifier(), Some("Promise"));
    assert_eq!(type_def.children().len(), 1);
    assert!(matches!(type_def, Type::GenericType { .. }));
    let arg = type_def.children()[0].kind.as_type().unwrap();
    assert_eq!(arg, &Type::Identifier("Example".to_owned(), None));
}

#[test]
fn parses_array_type() {
    let symbol = parse_alias_value("type Foo = string[];\n#");
    let type_def = symbol.kind.as_type().unwrap();
    assert!(matches!(type_def, Type::Array { .. }));
    assert_eq!(type_def.children().len(), 1);
    let arg = type_def.children()[0].kind.as_type().unwrap();
    assert_eq!(arg, &Type::Predefined("string".to_owned()));
}

#[test]
fn parses_function_type() {
    let symbol = parse_alias_value("type Foo = (a: string) => void;\n#");
    let type_def = symbol.kind.as_type().unwrap();
    assert!(matches!(type_def, Type::Function { .. }));
    assert_eq!(type_def.children().len(), 2);
    let param = type_def.function_parameters()[0];
    assert_eq!(param.kind.as_parameter().unwrap().identifier, "a");
    let return_type = type_def.function_return_type().unwrap();
    assert_eq!(return_type.kind.as_type().unwrap(), &Type::Predefined("void".to_owned()));
}

#[test]
fn parses_typeof() {
    let symbol = parse_alias_value("type Request = typeof TediousRequest\n#");
    let type_def = symbol.kind.as_type().unwrap();
    assert_eq!(type_def, &Type::TypeOf("TediousRequest".to_owned()));
}

#[test]
fn parses_literal_type() {
    let symbol = parse_alias_value("type Request = \"FOO\";\n#");
    let type_def = symbol.kind.as_type().unwrap();
    assert_eq!(type_def, &Type::Literal("\"FOO\"".to_owned()));
}

#[test]
fn parses_parenthesized_type() {
    let symbol = parse_alias_value("type Foo = (string);\n#");
    let type_def = symbol.kind.as_type().unwrap();
    assert!(matches!(type_def, &Type::Parenthesized(_)));
    let child = type_def.children()[0].kind.as_type().unwrap();
    assert!(matches!(child, &Type::Predefined(_)));
}

#[test]
fn parses_constructor_type() {
    let code = "type PostgresCursorConstructor = new <T>(\n  sql: string,\n  parameters: unknown[]\n) => PostgresCursor<T>\n#";
    let symbol = parse_alias_value(code);
    let type_def = symbol.kind.as_type().unwrap();
    assert!(matches!(type_def, &Type::Constructor { .. }));
    let type_variable = type_def.constructor_type_variables()[0];
    assert_eq!(type_variable.kind.as_type_variable().unwrap().identifier, "T");
    let parameters = type_def.constructor_parameters();
    assert_eq!(parameters.len(), 2);
}

#[test]
fn parses_readonly_type() {
    let symbol = parse_alias_value("type Example = readonly string;\n#");
    let the_type = symbol.kind.as_type().unwrap();
    assert!(matches!(the_type, Type::ReadOnly(_)));
    let inner = the_type.children()[0].kind.as_type().unwrap();
    assert!(matches!(inner, Type::Predefined(_)));
    assert_eq!(inner.identifier(), Some("string"));
}

#[test]
fn parses_template_literal_type() {
    let symbol = parse_alias_value("type Example = `varchar(${number})`;\n#");
    let the_type = symbol.kind.as_type().unwrap();
    assert!(matches!(the_type, Type::TemplateLiteral(_)));
    assert_eq!(the_type.identifier(), Some("`varchar(${number})`"));
}

#[test]
fn parses_lookup_type() {
    let symbol = parse_alias_value("type Example = Foo[\"example\"];\n#");
    let the_type = symbol.kind.as_type().unwrap();
    assert!(matches!(the_type, Type::Lookup { .. }));
    let base = the_type.children()[0].kind.as_type().unwrap();
    assert_eq!(base.identifier(), Some("Foo"));
    assert!(matches!(base, Type::Identifier(_, None)), "Expected an unresolved identifier, got {:?}", base);
    let key = the_type.children()[1].kind.as_type().unwrap();
    assert_eq!(key.identifier(), Some("\"example\""));
    assert!(matches!(key, Type::Literal(_)), "Expected a literal, got {:?}", base);
}

#[test]
fn parses_infer_type() {
    let symbol = parse_alias_value("type Example = infer A;\n#");
    let the_type = symbol.kind.as_type().unwrap();
    assert!(matches!(the_type, Type::Infer { .. }));
    assert_eq!(the_type.identifier(), Some("infer"));
    assert_eq!(the_type.children().len(), 1);
    let child = the_type.children()[0].kind.as_type().unwrap();
    assert!(matches!(child, Type::Identifier(_, None)));
    assert_eq!(child.identifier(), Some("A"));
}

#[test]
fn parses_tuple_type() {
    let symbol = parse_alias_value("type Example = [string, number, boolean];\n#");
    let the_type = symbol.kind.as_type().unwrap();
    assert!(matches!(the_type, Type::Tuple { .. }));
    assert_eq!(the_type.children().len(), 3);
    let child = the_type.children()[0].kind.as_type().unwrap();
    assert!(matches!(child, Type::Predefined(_)));
    assert_eq!(child.identifier(), Some("string"));
    let child = the_type.children()[1].kind.as_type().unwrap();
    assert!(matches!(child, Type::Predefined(_)));
    assert_eq!(child.identifier(), Some("number"));
    let child = the_type.children()[2].kind.as_type().unwrap();
    assert!(matches!(child, Type::Predefined(_)));
    assert_eq!(child.identifier(), Some("boolean"));
}

#[test]
fn parses_rest_type() {
    let symbol = parse_alias_value("type Foo = [...string];\n#");
    let tuple = symbol.kind.as_type().unwrap();
    assert!(matches!(tuple, Type::Tuple { .. }));
    let the_type = tuple.children()[0].kind.as_type().unwrap();
    assert!(matches!(the_type, Type::Rest { .. }));
    let child = the_type.children()[0].kind.as_type().unwrap();
    assert!(matches!(child, Type::Predefined(_)));
    assert_eq!(child.identifier(), Some("string"));
}

#[test]
fn parses_this_type() {
    let symbol = parse_alias_value("type Foo = this;\n#");
    let this = symbol.kind.as_type().unwrap();
    assert!(matches!(this, Type::This));
}

#[test]
fn parses_conditional_type() {
    let symbol = parse_alias_value("type Example = Dog extends Animal ? number : string;\n#");
    let conditional = symbol.kind.as_type().unwrap();
    assert!(matches!(conditional, Type::Conditional { .. }));
    assert_eq!(conditional.children().len(), 4);
    let left = conditional.conditional_left().unwrap().kind.as_type().unwrap();
    assert_eq!(left.identifier(), Some("Dog"));
    assert!(matches!(left, Type::Identifier(_, None)));
    let right = conditional.conditional_right().unwrap().kind.as_type().unwrap();
    assert_eq!(right.identifier(), Some("Animal"));
    assert!(matches!(right, Type::Identifier(_, None)));
    let right = conditional.conditional_consequence().unwrap().kind.as_type().unwrap();
    assert_eq!(right.identifier(), Some("number"));
    assert!(matches!(right, Type::Predefined(_)));
    let right = conditional.conditional_alternative().unwrap().kind.as_type().unwrap();
    assert_eq!(right.identifier(), Some("string"));
    assert!(matches!(right, Type::Predefined(_)));
}

#[test]
fn bug_parses_conditional_type_with_comments() {
    let code = "type Example = Dog extends Animal ?\n  number\n  // Some comment\n  : string;\n#";
    let symbol = parse_alias_value(code);
    let conditional = symbol.kind.as_type().unwrap();
    assert!(matches!(conditional, Type::Conditional { .. }));
    assert_eq!(conditional.children().len(), 4);
}

#[test]
fn bug_unbalanced_union() {
    let symbol = parse_alias_value("type Example = | number\n#");
    let type_def = symbol.kind.as_type().unwrap();
    assert!(matches!(type_def, Type::Union { .. }));
    assert_eq!(type_def.children().len(), 1);
}

#[test]
fn bug_comment_between_union() {
    let code = "type Example =\n| number\n// This is a comment\n| string\n#";
    let _symbol = parse_alias_value(code);
}

#[test]
fn a_type_describes_itself_with_its_members() {
    let symbol = parse_alias_value("type Foo = string | number;\n#");
    let union = symbol.kind.as_type().unwrap();
    let entity = union.as_entity(&symbol.source, "index.ts::Foo");
    assert_eq!(entity.kind, "union");
    assert_eq!(entity.members.len(), 2);
    assert_eq!(entity.members[0].title, Some("string".to_owned()));
    assert_eq!(entity.members[1].title, Some("number".to_owned()));
    let this = Type::This.as_entity(&symbol.source, "index.ts::Foo");
    assert_eq!(this.title, Some("this".to_owned()));
    assert_eq!(this.kind, "this_type");
    assert!(this.members.is_empty());
}
