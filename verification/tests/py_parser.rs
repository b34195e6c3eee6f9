use dossier::py::context::ParserContext;
use dossier::py::parse::{parse_function, parse_source};
use dossier::py::symbol::{SymbolContext, Type};
use dossier::syntax::python_syntax;

#[test]
fn parses_a_class() {
    let source = "class PyClass:\n    \"\"\"Documentation for a class.\n\n    More details.\n        Some other stuff!\n    \"\"\"\n";
    let symbols = parse_source("main.py", source).unwrap();
    let class = symbols.get(0).unwrap().as_class().unwrap();
    assert_eq!(class.title, "PyClass");
    assert_eq!(
        class.documentation.as_deref(),
        Some("Documentation for a class.\n\nMore details.\n    Some other stuff!")
    );
}

#[test]
fn parses_a_function() {
    let source = "def complex(real=0.0, imag=0.0):\n    \"\"\"\n    Form a complex number.\n    \"\"\"\n    if imag == 0.0 and real == 0.0:\n        return complex_zero\n";
    let symbols = parse_source("main.py", source).unwrap();
    let function = symbols.get(0).unwrap().as_function().unwrap();
    assert_eq!(function.title, "complex");
    assert_eq!(function.documentation.as_deref(), Some("Form a complex number."));
}

#[test]
fn parse_function_params() {
    let source = "def foo(bar, baz: int) -> bool:\n    pass\n";
    let tree = python_syntax(source).unwrap();
    let mut ctx = ParserContext::new("test.py", source, &tree);
    let node = tree.child_at(0, 0);
    let symbol = parse_function(node, &mut ctx).unwrap();
    assert_eq!(symbol.fqn.as_deref(), Some("test.py::foo"));

    let function = symbol.as_function().unwrap();
    assert_eq!(function.title, "foo");

    let params = function.parameters();
    assert_eq!(params.len(), 2);

    let param = params[0].as_parameter().unwrap();
    assert_eq!(params[0].context, Some(SymbolContext::Parameter));
    assert_eq!(params[0].fqn.as_deref(), Some("test.py::foo::bar"));
    assert_eq!(param.title, "bar");
    assert_eq!(param.the_type(), None);

    let param = params[1].as_parameter().unwrap();
    assert_eq!(params[1].context, Some(SymbolContext::Parameter));
    assert_eq!(params[1].fqn.as_deref(), Some("test.py::foo::baz"));
    assert_eq!(param.title, "baz");
    let the_type = param.the_type();
    assert_eq!(the_type.unwrap().as_type().unwrap(), &Type::BuiltIn("int".to_owned()));

    let return_type = function.return_type().unwrap();
    assert_eq!(return_type.context, Some(SymbolContext::ReturnType));
    assert_eq!(return_type.as_type().unwrap(), &Type::BuiltIn("bool".to_owned()));
}

#[test]
fn a_docstring_whose_dedent_splits_a_character_is_refused() {
    let source = "def f():\n    \"\"\"a\n    \u{a0}b\n     c\"\"\"\n    pass\n";
    assert!(parse_source("main.py", source).is_err());
    let clean = "def f():\n    \"\"\"a\n    \u{a0}b\n    \u{a0}c\"\"\"\n    pass\n";
    assert!(parse_source("main.py", clean).is_ok());
}
