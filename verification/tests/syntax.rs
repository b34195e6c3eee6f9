use dossier::common::{DossierError, Utf8Error};
use dossier::syntax::{python_syntax, typescript_syntax, SyntaxNode, SyntaxTree};

#[test]
fn reads_typescript_syntax_trees() {
    let code = "type Foo = string;";
    let tree = typescript_syntax(code).unwrap();
    assert_eq!(tree.kind(0), "program");
    let alias = tree.child_at(0, 0);
    assert_eq!(tree.kind(alias), "type_alias_declaration");
    let name = tree.child_by_field_name(alias, "name").unwrap();
    assert_eq!(tree.text(code, name).unwrap(), "Foo");
    let value = tree.child_by_field_name(alias, "value").unwrap();
    assert_eq!(tree.text(code, value).unwrap(), "string");
    assert_eq!(tree.parent_of(value), Some(alias));
    assert_eq!(tree.kind(tree.prev_sibling_of(value).unwrap()), "=");
    assert_eq!(tree.prev_sibling_of(tree.child_at(alias, 0)), None);
    assert!(tree.child_by_field_name(alias, "body").is_none());
}

#[test]
fn reads_python_syntax_trees() {
    let code = "def f(x):\n    pass\n";
    let tree = python_syntax(code).unwrap();
    assert_eq!(tree.kind(0), "module");
    let def = tree.child_at(0, 0);
    assert_eq!(tree.kind(def), "function_definition");
    let name = tree.child_by_field_name(def, "name").unwrap();
    assert_eq!(tree.text_string(code, name).unwrap(), "f");
}

#[test]
fn node_text_outside_character_boundaries_is_an_error() {
    let code = "é";
    let tree = SyntaxTree {
        nodes: vec![SyntaxNode {
            kind: "program".to_owned(),
            named: true,
            field: None,
            start_byte: 0,
            end_byte: 1,
            parent: None,
            children: vec![],
        }],
    };
    assert_eq!(tree.text(code, 0), Err(DossierError::UTF8Error(Utf8Error { start_byte: 0, end_byte: 1 })));
    let beyond = SyntaxTree {
        nodes: vec![SyntaxNode {
            kind: "program".to_owned(),
            named: true,
            field: None,
            start_byte: 0,
            end_byte: 9,
            parent: None,
            children: vec![],
        }],
    };
    assert!(beyond.text(code, 0).is_err());
}
