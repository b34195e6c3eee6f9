use dossier::common::{Context, DossierError, Identity, Utf8Error};

#[test]
fn generates_fqns_from_path_namespace_and_parts() {
    let mut ctx = Context::new();
    assert_eq!(ctx.generate_fqn("src/foo/bar.ts", &["Interface", "methodName"]), "src/foo/bar.ts::Interface::methodName");
    ctx.push_namespace("ns");
    assert_eq!(ctx.generate_fqn("src/foo/bar.ts", &["Interface"]), "src/foo/bar.ts::ns::Interface");
}

#[test]
fn generated_fqns_use_forward_slashes() {
    let ctx = Context::new();
    assert_eq!(ctx.generate_fqn("src\\foo\\bar.ts", &["X"]), "src/foo/bar.ts::X");
}

#[test]
fn popping_a_namespace_undoes_pushing_it() {
    let mut ctx = Context::new();
    ctx.push_namespace("outer");
    let before = ctx.generate_fqn("a.ts", &["x"]);
    ctx.push_namespace("inner");
    assert_eq!(ctx.generate_fqn("a.ts", &["x"]), "a.ts::outer::inner::x");
    ctx.pop_namespace();
    assert_eq!(ctx.generate_fqn("a.ts", &["x"]), before);
}

#[test]
fn popping_an_empty_namespace_changes_nothing() {
    let mut ctx = Context::new();
    ctx.pop_namespace();
    assert_eq!(ctx.generate_fqn("a.ts", &[]), "a.ts");
}

#[test]
fn only_the_anonymous_identity_is_anonymous() {
    assert!(Identity::Anonymous.is_anonymous());
    assert!(!Identity::FQN("a.ts::x".to_owned()).is_anonymous());
    assert!(!Identity::Reference("a.ts::x".to_owned()).is_anonymous());
}

#[test]
fn errors_compare_by_content() {
    let e = DossierError::UTF8Error(Utf8Error { start_byte: 1, end_byte: 2 });
    assert_eq!(e, DossierError::UTF8Error(Utf8Error { start_byte: 1, end_byte: 2 }));
    assert_ne!(e, DossierError::UnexpectedSyntax("x".to_owned()));
}
