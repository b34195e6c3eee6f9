//! The declarations of a TypeScript file: functions, type aliases,
//! classes, interfaces, imports and export clauses, and the file itself.
use vstd::prelude::*;
use vstd::string::StringSliceAdditionalSpecFns;
use vstd::utf8::encode_utf8;
use crate::common::DossierError;
use crate::syntax::{grammar_accepted, tree_reads, Grammar, SyntaxTree};
use crate::text::str_eq;
use crate::ts::accepts::{
    alias_ok, class_body_ok, class_ok, comment_readable, documentation_readable, exports_ok, field_ok, function_ok,
    import_ok, interface_ok, interface_rest_ok, method_ok, program_ok, statement_ok, type_var_ok,
};
use crate::ts::class::Class;
use crate::ts::context::{
    lemma_context_push_pop_frame, lemma_fqn_push_pop_frame, lemma_frame_names, lemma_frame_place, lemma_names_frame,
    lemma_names_frame_trans, lemma_push_pop_frame, lemma_same_frame_names, lemma_same_frame_refl,
    lemma_same_frame_trans, lemma_unnamed_scope_place, made_at, names_frame, place_of, qualifiers, same_frame,
    ParserContext, Place,
};
use crate::ts::field::Field;
use crate::ts::function::Function;
use crate::ts::helpers::{comment_text, process_comment};
use crate::ts::import::Import;
use crate::ts::interface::Interface;
use crate::ts::parse::{
    accessibility_is, below, has_child_kind, has_kind_from, lemma_method_shape_frame, lemma_same_place, method_shape,
    parameters_read, parse_kept, parse_method, parse_parameters, parse_return_type, parse_type, parse_type_parameters,
    picked, picks, text_at, type_in, type_variable_shape, type_variables_read, Pick,
};
use crate::ts::symbol::{mark_exported, Source, Symbol, SymbolContext, SymbolIds, SymbolKind};
use crate::ts::symbol_table::{first_in_scope, lemma_lookup_from_found, lookup_at, position_of, Scope, ScopeIds, SymbolTable};
use crate::ts::type_alias::TypeAlias;

verus! {

broadcast use vstd::seq_lib::group_seq_properties;

/// The text of the comment just before node `i`, if there is one.
pub open spec fn comment_before(ctx: ParserContext, i: int) -> Option<Seq<char>> {
    match ctx.tree.prev_sibling(i) {
        Some(p) => if ctx.tree.kind_of(p) == "comment"@ {
            Some(text_at(ctx, p))
        } else {
            None
        },
        None => None,
    }
}

/// The comment documenting the declaration at `node`: the one before the
/// export statement around it, or else the one before the declaration.
pub open spec fn docs_of(ctx: ParserContext, node: int) -> Option<Seq<char>> {
    match ctx.tree.nodes@[node].parent {
        Some(p) => if ctx.tree.kind_of(p as int) == "export_statement"@ {
            comment_before(ctx, p as int)
        } else {
            comment_before(ctx, node)
        },
        None => None,
    }
}

/// The documentation shown for a comment, where there is one.
pub open spec fn shown_docs(d: Option<Seq<char>>) -> Option<Seq<char>> {
    match d {
        Some(c) => Some(comment_text(c)),
        None => None,
    }
}

pub open spec fn opt_string(o: Option<String>) -> Option<Seq<char>> {
    match o {
        Some(s) => Some(s@),
        None => None,
    }
}

/// Whether the declaration at `node` stands in an export statement.
pub open spec fn exported_at(ctx: ParserContext, node: int) -> bool {
    ctx.tree.nodes@[node].parent matches Some(p) && ctx.tree.kind_of(p as int) == "export_statement"@
}

/// A declaration standing in an export statement counts as exported and is
/// documented by the comment just before the export statement; one that
/// stands elsewhere is not exported and is documented by the comment just
/// before itself; where no comment comes just before, it has no
/// documentation.
pub proof fn law_declaration_export_and_documentation(ctx: ParserContext, node: int)
    requires
        ctx.tree.nodes@[node].parent is Some,
    ensures
        ({
            let p = ctx.tree.nodes@[node].parent->Some_0 as int;
            let in_export = ctx.tree.kind_of(p) == "export_statement"@;
            let at = if in_export { p } else { node };
            &&& exported_at(ctx, node) == in_export
            &&& docs_of(ctx, node) == match ctx.tree.prev_sibling(at) {
                Some(q) => if ctx.tree.kind_of(q) == "comment"@ {
                    Some(ctx.tree.text_of(ctx.code.spec_bytes(), q))
                } else {
                    None
                },
                None => None,
            }
        }),
{
}

fn child_or_err(tree: &SyntaxTree, node: usize, k: usize) -> (r: Result<usize, DossierError>)
    requires
        tree.wf(),
        node < tree.len(),
    ensures
        r matches Ok(c) ==> k < tree.child_count(node as int) && c == tree.child(node as int, k as int)
            && node < c < tree.len(),
        r is Err ==> k >= tree.child_count(node as int),
{
    if k < tree.child_count_of(node) {
        Ok(tree.child_at(node, k))
    } else {
        Err(DossierError::UnexpectedSyntax(tree.kind(node).to_owned()))
    }
}

fn field_or_err(tree: &SyntaxTree, node: usize, field: &str) -> (r: Result<usize, DossierError>)
    requires
        tree.wf(),
        node < tree.len(),
    ensures
        r matches Ok(c) ==> tree.field_child(node as int, field@) == Some(c as int) && node < c < tree.len(),
        r is Err ==> tree.field_child(node as int, field@) is None,
{
    match tree.child_by_field_name(node, field) {
        Some(c) => Ok(c),
        None => Err(DossierError::UnexpectedSyntax(tree.kind(node).to_owned())),
    }
}

fn first_named(tree: &SyntaxTree, node: usize) -> (r: Result<usize, DossierError>)
    requires
        tree.wf(),
        node < tree.len(),
    ensures
        r matches Ok(c) ==> node < c < tree.len() && (tree.named_from(node as int, 0) matches Some(k) && c
            == tree.child(node as int, k)),
        r is Err ==> tree.named_from(node as int, 0) is None,
{
    let n = tree.child_count_of(node);
    let mut k: usize = 0;
    while k < n
        invariant
            tree.wf(),
            node < tree.len(),
            n == tree.child_count(node as int),
            k <= n,
            tree.named_from(node as int, 0) == tree.named_from(node as int, k as int),
        decreases n - k,
    {
        let c = tree.child_at(node, k);
        if tree.is_named(c) {
            return Ok(c);
        }
        k += 1;
    }
    Err(DossierError::UnexpectedSyntax(tree.kind(node).to_owned()))
}

fn comment_before_node<'a>(tree: &SyntaxTree, code: &'a str, i: usize) -> (r: Result<Option<&'a str>, DossierError>)
    requires
        tree.wf(),
        i < tree.len(),
    ensures
        r matches Ok(d) ==> match tree.prev_sibling(i as int) {
            Some(p) => if tree.kind_of(p) == "comment"@ {
                d matches Some(t) && t@ == tree.text_of(code.spec_bytes(), p)
            } else {
                d is None
            },
            None => d is None,
        },
        r is Ok <==> comment_readable(*tree, code.spec_bytes(), i as int),
{
    match tree.prev_sibling_of(i) {
        Some(p) => if tree.is_kind(p, "comment") {
            match tree.text(code, p) {
                Ok(t) => Ok(Some(t)),
                Err(e) => Err(e),
            }
        } else {
            Ok(None)
        },
        None => Ok(None),
    }
}

/// The documentation of the declaration at `node`, as shown.
fn documentation_of(ctx: &ParserContext, node: usize) -> (r: Result<Option<String>, DossierError>)
    requires
        ctx.wf(),
        node < ctx.tree.len(),
    ensures
        r matches Ok(d) ==> opt_string(d) == shown_docs(docs_of(*ctx, node as int)),
        r is Ok <==> documentation_readable(*ctx.tree, ctx.code.spec_bytes(), node as int),
{
    let tree = ctx.tree;
    let code = ctx.code;
    let found = match tree.parent_of(node) {
        Some(p) => if tree.is_kind(p, "export_statement") {
            comment_before_node(tree, code, p)?
        } else {
            comment_before_node(tree, code, node)?
        },
        None => None,
    };
    match found {
        Some(c) => Ok(Some(process_comment(c))),
        None => Ok(None),
    }
}

/// The documentation just before the member at `node`, as shown.
fn member_documentation(ctx: &ParserContext, node: usize) -> (r: Result<Option<String>, DossierError>)
    requires
        ctx.wf(),
        node < ctx.tree.len(),
    ensures
        r matches Ok(d) ==> opt_string(d) == shown_docs(comment_before(*ctx, node as int)),
        r is Ok <==> comment_readable(*ctx.tree, ctx.code.spec_bytes(), node as int),
{
    match comment_before_node(ctx.tree, ctx.code, node)? {
        Some(c) => Ok(Some(process_comment(c))),
        None => Ok(None),
    }
}

fn exported(tree: &SyntaxTree, node: usize) -> (r: bool)
    requires
        tree.wf(),
        node < tree.len(),
    ensures
        r == (tree.nodes@[node as int].parent matches Some(p) && tree.kind_of(p as int) == "export_statement"@),
{
    match tree.parent_of(node) {
        Some(p) => tree.is_kind(p, "export_statement"),
        None => false,
    }
}

/// Whether `ms` are the children read from the function declaration at
/// `node`, named `name`, with `inner` the frame its type parameters are
/// read in, a new scope qualified by the name, and `at` the frame
/// its parameters and return type are read in: the same, or a scope of
/// its own within it where there are type parameters. The children are
/// the type variables, then the parameters, then the return type.
pub open spec fn function_children_in(
    ctx: ParserContext,
    node: int,
    name: Seq<char>,
    ms: Seq<Symbol>,
    inner: ParserContext,
    at: ParserContext,
) -> bool {
    let tree = *ctx.tree;
    let tp = tree.field_child(node, "type_parameters"@);
    let ntv = match tp {
        Some(t) => picked(tree, t, tree.child_count(t), Pick::TypeParameters).len(),
        None => 0,
    };
    &&& inner.tree == ctx.tree
    &&& inner.code == ctx.code
    &&& place_of(inner) == (Place { scope: place_of(inner).scope, ..place_of(ctx) })
    &&& qualifiers(inner) == qualifiers(ctx).push(name)
    &&& inner.top_context() == ctx.top_context()
    &&& at.tree == ctx.tree
    &&& at.code == ctx.code
    &&& place_of(at) == (Place { scope: place_of(at).scope, ..place_of(inner) })
    &&& qualifiers(at) == qualifiers(inner)
    &&& at.top_context() == ctx.top_context()
    &&& (tp is None ==> place_of(at) == place_of(inner))
    &&& tree.field_child(node, "parameters"@) matches Some(p)
    &&& {
        let np = picked(tree, p, tree.child_count(p), Pick::Parameters).len();
        &&& ms.len() >= ntv + np
        &&& (tp matches Some(t) ==> type_variables_read(inner, t, ms.take(ntv as int)))
        &&& parameters_read(at, p, Some(SymbolContext::Parameter), ms.subrange(ntv as int, (ntv + np) as int))
        &&& match tree.field_child(node, "return_type"@) {
            Some(r) => {
                &&& ms.len() == ntv + np + 1
                &&& ms.last().context == Some(SymbolContext::ReturnType)
                &&& tree.named_from(r, 0) matches Some(k)
                &&& type_in(
                    place_of(at),
                    at.top_context(),
                    qualifiers(at),
                    tree.child(r, k),
                    Symbol { context: at.top_context(), ..ms.last() },
                )
            },
            None => ms.len() == ntv + np,
        }
    }
}

/// Whether `ms` are the children read from the function declaration at
/// `node`, named `name`, in `ctx`.
pub open spec fn function_children(ctx: ParserContext, node: int, name: Seq<char>, ms: Seq<Symbol>) -> bool {
    exists|inner: ParserContext, at: ParserContext| #[trigger] function_children_in(ctx, node, name, ms, inner, at)
}

/// Parses the function declaration at node `node`.
pub fn parse_function(node: usize, ctx: &mut ParserContext) -> (r: Result<Symbol, DossierError>)
    requires
        old(ctx).wf(),
        node < old(ctx).tree.len(),
    ensures
        parse_kept(*old(ctx), *final(ctx)),
        r is Ok <==> function_ok(*old(ctx).tree, old(ctx).code.spec_bytes(), node as int),
        r is Ok ==> same_frame(*old(ctx), *final(ctx)),
        r matches Ok(s) ==> made_at(*old(ctx), s, node as int) && (s.kind matches SymbolKind::Function(f)
            && (old(ctx).tree.field_child(node as int, "name"@) matches Some(n) && f.identifier@ == text_at(
            *old(ctx),
            n,
        )) && f.is_exported == exported_at(*old(ctx), node as int) && opt_string(f.documentation)
            == shown_docs(docs_of(*old(ctx), node as int)) && function_children(
            *old(ctx),
            node as int,
            f.identifier@,
            f.children@,
        )),
{
    let ghost c0 = *ctx;
    let tree = ctx.tree;
    let code = ctx.code;
    if !tree.is_kind(node, "function_declaration") {
        return Err(DossierError::UnexpectedSyntax(tree.kind(node).to_owned()));
    }
    let name = field_or_err(tree, node, "name")?;
    let identifier = tree.text_string(code, name)?;
    let parameters = field_or_err(tree, node, "parameters")?;
    let mut children: Vec<Symbol> = Vec::new();
    let id = ctx.push_scope();
    let ghost p1 = *ctx;
    ctx.push_fqn(identifier.as_str());
    let ghost p2 = *ctx;
    proof {
        lemma_same_frame_refl(p2);
        lemma_unnamed_scope_place(c0, p1, id);
        assert(qualifiers(p2) =~= qualifiers(p1).push(identifier@));
        assert(place_of(p2) == place_of(p1));
    }
    let ghost at: ParserContext;
    let ghost ntv: int;
    match tree.child_by_field_name(node, "type_parameters") {
        Some(tp) => {
            parse_type_parameters(tp, &mut children, ctx)?;
            let ghost tvs = children@;
            proof {
                assert(children@.skip(0) =~= children@);
                ntv = tvs.len() as int;
            }
            let ghost p2b = *ctx;
            let inner_id = ctx.push_scope();
            let ghost p3 = *ctx;
            proof {
                lemma_same_frame_refl(p3);
                lemma_same_place(p2, p2b);
                lemma_unnamed_scope_place(p2b, p3, inner_id);
                at = p3;
            }
            parse_parameters(parameters, &mut children, ctx)?;
            let ghost ps = children@.skip(ntv);
            proof {
                assert(children@.take(ntv) =~= tvs);
            }
            if let Some(ret) = tree.child_by_field_name(node, "return_type") {
                let ghost before = *ctx;
                parse_return_type(ret, &mut children, ctx)?;
                proof {
                    lemma_same_place(p3, before);
                    lemma_same_frame_trans(p3, before, *ctx);
                }
            }
            proof {
                assert(children@.take(ntv) =~= tvs);
                assert(children@.subrange(ntv, ntv + ps.len()) =~= ps);
            }
            let ghost x = *ctx;
            ctx.pop_scope();
            proof {
                lemma_push_pop_frame(p2b, p3, x, inner_id);
                lemma_same_frame_trans(p2, p2b, *ctx);
            }
        },
        None => {
            proof {
                ntv = 0;
                at = p2;
            }
            parse_parameters(parameters, &mut children, ctx)?;
            let ghost ps = children@;
            proof {
                assert(children@.skip(0) =~= children@);
            }
            if let Some(ret) = tree.child_by_field_name(node, "return_type") {
                let ghost before = *ctx;
                parse_return_type(ret, &mut children, ctx)?;
                proof {
                    lemma_same_place(p2, before);
                    lemma_same_frame_trans(p2, before, *ctx);
                }
            }
            proof {
                assert(children@.subrange(0, ps.len() as int) =~= ps);
            }
        },
    }
    proof {
        assert(function_children_in(c0, node as int, identifier@, children@, p2, at));
    }
    let ghost y = *ctx;
    ctx.pop_fqn();
    let ghost z = *ctx;
    proof {
        lemma_fqn_push_pop_frame(p1, p2, y, z);
    }
    ctx.pop_scope();
    proof {
        lemma_push_pop_frame(c0, p1, z, id);
        lemma_frame_names(c0, *ctx);
    }
    let documentation = documentation_of(ctx, node)?;
    let is_exported = exported(tree, node);
    let source = Source::for_node(node, ctx);
    Ok(
        Symbol::in_context(
            ctx,
            SymbolKind::Function(Function { identifier, documentation, is_exported, children }),
            source,
        ),
    )
}

/// Whether `ms` are the children read from the type alias declaration at
/// `node`: the type it names, where it names one, then the type variables
/// of its type parameters.
pub open spec fn alias_children(ctx: ParserContext, node: int, ms: Seq<Symbol>) -> bool {
    let tree = *ctx.tree;
    let nv: int = if tree.field_child(node, "value"@) is Some {
        1
    } else {
        0
    };
    &&& ms.len() >= nv
    &&& (tree.field_child(node, "value"@) matches Some(v) ==> type_in(
        place_of(ctx),
        ctx.top_context(),
        qualifiers(ctx),
        v,
        ms[0],
    ))
    &&& match tree.field_child(node, "type_parameters"@) {
        Some(t) => type_variables_read(ctx, t, ms.skip(nv)),
        None => ms.len() == nv,
    }
}

/// Parses the type alias declaration at node `node`.
pub fn parse_type_alias(node: usize, ctx: &mut ParserContext) -> (r: Result<Symbol, DossierError>)
    requires
        old(ctx).wf(),
        node < old(ctx).tree.len(),
    ensures
        parse_kept(*old(ctx), *final(ctx)),
        r is Ok <==> alias_ok(*old(ctx).tree, old(ctx).code.spec_bytes(), node as int),
        r is Ok ==> same_frame(*old(ctx), *final(ctx)),
        r matches Ok(s) ==> made_at(*old(ctx), s, node as int) && (s.kind matches SymbolKind::TypeAlias(a)
            && (old(ctx).tree.named_from(node as int, 0) matches Some(k) && a.identifier@ == text_at(
            *old(ctx),
            old(ctx).tree.child(node as int, k),
        )) && a.exported == exported_at(*old(ctx), node as int) && opt_string(a.documentation)
            == shown_docs(docs_of(*old(ctx), node as int)) && alias_children(*old(ctx), node as int, a.children@)),
{
    let ghost c0 = *ctx;
    let tree = ctx.tree;
    let code = ctx.code;
    if !tree.is_kind(node, "type_alias_declaration") {
        return Err(DossierError::UnexpectedSyntax(tree.kind(node).to_owned()));
    }
    let name = first_named(tree, node)?;
    let identifier = tree.text_string(code, name)?;
    let mut children: Vec<Symbol> = Vec::new();
    proof {
        lemma_same_frame_refl(c0);
    }
    if let Some(value) = tree.child_by_field_name(node, "value") {
        let t = parse_type(value, ctx)?;
        children.push(t);
    }
    let ghost nv = children@.len() as int;
    let ghost head = children@;
    if let Some(params) = tree.child_by_field_name(node, "type_parameters") {
        let ghost before = *ctx;
        let n = tree.child_count_of(params);
        let mut k: usize = 0;
        while k < n
            invariant
                tree.wf(),
                params < tree.len(),
                n == tree.child_count(params as int),
                k <= n,
                ctx.tree == tree,
                ctx.code == code,
                c0.tree == tree,
                c0.code == code,
                c0 == *old(ctx),
                c0.wf(),
                same_frame(c0, *ctx),
                nv == head.len(),
                children@.len() >= nv,
                children@.take(nv) == head,
                node < tree.len(),
                tree.field_child(node as int, "type_parameters"@) == Some(params as int),
                forall|j: int|
                    0 <= j < k && #[trigger] picks(*tree, params as int, j, Pick::TypeParameters) ==> below(
                        *tree,
                        params as int,
                        tree.child(params as int, j),
                    ) && type_var_ok(*tree, code.spec_bytes(), tree.child(params as int, j)),
                ({
                    let nodes = picked(*tree, params as int, k as int, Pick::TypeParameters);
                    let vs = children@.skip(nv);
                    &&& vs.len() == nodes.len()
                    &&& forall|i: int| 0 <= i < vs.len() ==> {
                        &&& made_at(c0, #[trigger] vs[i], nodes[i])
                        &&& vs[i].kind matches SymbolKind::TypeVariable(v)
                        &&& type_variable_shape(c0, nodes[i], v)
                    }
                }),
            decreases n - k,
        {
            let c = tree.child_at(params, k);
            if tree.is_kind(c, "type_parameter") {
                assert(picks(*tree, params as int, k as int, Pick::TypeParameters));
                let ghost b = *ctx;
                let v = crate::ts::parse::parse_type_variable(c, ctx)?;
                proof {
                    lemma_same_frame_names(c0, b);
                    lemma_names_frame(c0, b);
                    lemma_same_frame_trans(c0, b, *ctx);
                }
                let ghost prev = children@;
                let ghost vg = v;
                children.push(v);
                proof {
                    assert(children@.take(nv) =~= prev.take(nv));
                    assert(children@.skip(nv) =~= prev.skip(nv).push(vg));
                }
            }
            k += 1;
        }
    } else {
        assert(children@.len() == nv);
    }
    proof {
        if nv == 1 {
            assert(children@[0] == head[0]);
        }
    }
    proof {
        lemma_frame_names(c0, *ctx);
    }
    let documentation = documentation_of(ctx, node)?;
    let exported = exported(tree, node);
    let source = Source::for_node(node, ctx);
    Ok(
        Symbol::in_context(
            ctx,
            SymbolKind::TypeAlias(TypeAlias { identifier, documentation, children, exported }),
            source,
        ),
    )
}

/// Whether `f` is the field read from the definition at `node` in `ctx`:
/// its name, its modifiers, the value it is given, its documentation, and
/// the type its annotation gives.
pub open spec fn field_shape(ctx: ParserContext, node: int, f: Field) -> bool {
    let tree = *ctx.tree;
    &&& tree.kind_of(node) == "public_field_definition"@
    &&& tree.field_child(node, "name"@) matches Some(n)
    &&& f.identifier@ == text_at(ctx, n)
    &&& f.private == accessibility_is(ctx, node, "private"@)
    &&& f.protected == accessibility_is(ctx, node, "protected"@)
    &&& f.readonly == has_kind_from(tree, node, 0, "readonly"@)
    &&& match tree.field_child(node, "value"@) {
        Some(v) => f.value matches Some(x) && x@ == text_at(ctx, v),
        None => f.value is None,
    }
    &&& opt_string(f.documentation) == shown_docs(comment_before(ctx, node))
    &&& match tree.field_child(node, "type"@) {
        Some(a) => {
            &&& tree.child_count(a) > 1
            &&& f.children@.len() == 1
            &&& type_in(place_of(ctx), ctx.top_context(), qualifiers(ctx), tree.child(a, 1), f.children@[0])
        },
        None => f.children@.len() == 0,
    }
}

/// Parses the field definition at node `node`.
pub fn parse_field(node: usize, ctx: &mut ParserContext) -> (r: Result<Symbol, DossierError>)
    requires
        old(ctx).wf(),
        node < old(ctx).tree.len(),
    ensures
        parse_kept(*old(ctx), *final(ctx)),
        r is Ok <==> field_ok(*old(ctx).tree, old(ctx).code.spec_bytes(), node as int),
        r is Ok ==> same_frame(*old(ctx), *final(ctx)),
        r matches Ok(s) ==> made_at(*old(ctx), s, node as int) && (s.kind matches SymbolKind::Field(f)
            && field_shape(*old(ctx), node as int, f)),
{
    let ghost c0 = *ctx;
    let tree = ctx.tree;
    let code = ctx.code;
    if !tree.is_kind(node, "public_field_definition") {
        return Err(DossierError::UnexpectedSyntax(tree.kind(node).to_owned()));
    }
    let mut private = false;
    let mut protected = false;
    let first = first_named(tree, node)?;
    if tree.is_kind(first, "accessibility_modifier") {
        let m = tree.text(code, first)?;
        if str_eq(m, "private") {
            private = true;
        } else if str_eq(m, "protected") {
            protected = true;
        }
    }
    let name = field_or_err(tree, node, "name")?;
    let identifier = tree.text_string(code, name)?;
    let mut children: Vec<Symbol> = Vec::new();
    proof {
        lemma_same_frame_refl(c0);
    }
    if let Some(type_node) = tree.child_by_field_name(node, "type") {
        let inner = child_or_err(tree, type_node, 1)?;
        let t = parse_type(inner, ctx)?;
        children.push(t);
    }
    let value = match tree.child_by_field_name(node, "value") {
        Some(v) => Some(tree.text_string(code, v)?),
        None => None,
    };
    let documentation = member_documentation(ctx, node)?;
    let readonly = has_child_kind(tree, node, 0, "readonly");
    proof {
        lemma_frame_names(c0, *ctx);
        reveal_strlit("private");
        reveal_strlit("protected");
        assert("private"@.len() != "protected"@.len());
    }
    let source = Source::for_node(node, ctx);
    Ok(
        Symbol::in_context(
            ctx,
            SymbolKind::Field(Field { identifier, children, readonly, private, protected, documentation, value }),
            source,
        ),
    )
}

/// Whether `ms` are the members read in `ctx` from the class body at
/// `node`: a method for each method and a field for each field, in order.
pub open spec fn class_members(ctx: ParserContext, node: int, ms: Seq<Symbol>) -> bool {
    let tree = *ctx.tree;
    let nodes = picked(tree, node, tree.child_count(node), Pick::ClassMembers);
    &&& ms.len() == nodes.len()
    &&& forall|i: int| 0 <= i < ms.len() ==> {
        &&& made_at(ctx, #[trigger] ms[i], nodes[i])
        &&& if tree.kind_of(nodes[i]) == "public_field_definition"@ {
            ms[i].kind matches SymbolKind::Field(f) && field_shape(ctx, nodes[i], f)
        } else {
            ms[i].kind matches SymbolKind::Method(m) && method_shape(ctx, nodes[i], m)
        }
    }
}

/// Parses the members of the class body at `node` into `children`:
/// methods and fields, in order.
pub fn parse_class_body(node: usize, ctx: &mut ParserContext, children: &mut Vec<Symbol>) -> (r: Result<(), DossierError>)
    requires
        old(ctx).wf(),
        node < old(ctx).tree.len(),
    ensures
        parse_kept(*old(ctx), *final(ctx)),
        r is Ok <==> class_body_ok(*old(ctx).tree, old(ctx).code.spec_bytes(), node as int),
        r is Ok ==> same_frame(*old(ctx), *final(ctx)),
        r is Ok ==> final(children)@.len() >= old(children)@.len() && final(children)@.take(
            old(children)@.len() as int,
        ) == old(children)@,
        r is Ok ==> class_members(*old(ctx), node as int, final(children)@.skip(old(children)@.len() as int)),
{
    let ghost c0 = *ctx;
    let tree = ctx.tree;
    proof {
        lemma_same_frame_refl(c0);
    }
    let n = tree.child_count_of(node);
    let mut k: usize = 0;
    while k < n
        invariant
            tree.wf(),
            node < tree.len(),
            n == tree.child_count(node as int),
            k <= n,
            ctx.tree == tree,
            ctx.code == c0.code,
            c0.tree == tree,
            c0 == *old(ctx),
            same_frame(c0, *ctx),
            children@.len() >= old(children)@.len(),
            children@.take(old(children)@.len() as int) == old(children)@,
            c0.wf(),
            forall|j: int|
                0 <= j < k && #[trigger] picks(*tree, node as int, j, Pick::ClassMembers) ==> {
                    let c = tree.child(node as int, j);
                    if tree.kind_of(c) == "public_field_definition"@ {
                        field_ok(*tree, c0.code.spec_bytes(), c)
                    } else {
                        method_ok(*tree, c0.code.spec_bytes(), c)
                    }
                },
            ({
                let nodes = picked(*tree, node as int, k as int, Pick::ClassMembers);
                let ms = children@.skip(old(children)@.len() as int);
                &&& ms.len() == nodes.len()
                &&& forall|i: int| 0 <= i < ms.len() ==> {
                    &&& made_at(c0, #[trigger] ms[i], nodes[i])
                    &&& if tree.kind_of(nodes[i]) == "public_field_definition"@ {
                        ms[i].kind matches SymbolKind::Field(f) && field_shape(c0, nodes[i], f)
                    } else {
                        ms[i].kind matches SymbolKind::Method(m) && method_shape(c0, nodes[i], m)
                    }
                }
            }),
        decreases n - k,
    {
        let c = tree.child_at(node, k);
        let ghost before = *ctx;
        let ghost prev = children@;
        proof {
            reveal_strlit("public_field_definition");
            reveal_strlit("method_definition");
            reveal_strlit("abstract_method_signature");
            assert("public_field_definition"@.len() != "method_definition"@.len());
            assert("public_field_definition"@.len() != "abstract_method_signature"@.len());
            lemma_same_frame_names(c0, before);
            lemma_frame_place(c0, before);
            lemma_names_frame(c0, before);
        }
        if tree.is_kind(c, "method_definition") || tree.is_kind(c, "abstract_method_signature") {
            assert(picks(*tree, node as int, k as int, Pick::ClassMembers));
            let m = parse_method(c, ctx)?;
            proof {
                lemma_method_shape_frame(before, c0, c as int, m.kind->Method_0);
                lemma_same_frame_trans(c0, before, *ctx);
            }
            children.push(m);
            assert(children@.take(old(children)@.len() as int) =~= prev.take(old(children)@.len() as int));
            assert(children@.skip(old(children)@.len() as int) =~= prev.skip(old(children)@.len() as int).push(m));
        } else if tree.is_kind(c, "public_field_definition") {
            assert(picks(*tree, node as int, k as int, Pick::ClassMembers));
            let f = parse_field(c, ctx)?;
            proof {
                lemma_same_frame_trans(c0, before, *ctx);
            }
            children.push(f);
            assert(children@.take(old(children)@.len() as int) =~= prev.take(old(children)@.len() as int));
            assert(children@.skip(old(children)@.len() as int) =~= prev.skip(old(children)@.len() as int).push(f));
        }
        k += 1;
    }
    Ok(())
}

/// Whether `ms` are the members read from the class body at `b`, in a
/// scope of its own inside the current one of `ctx`, qualified by the
/// class's name `name`.
pub open spec fn inside_read(ctx: ParserContext, name: Seq<char>, b: int, ms: Seq<Symbol>) -> bool {
    exists|inner: ParserContext| {
        &&& inner.tree == ctx.tree
        &&& inner.code == ctx.code
        &&& place_of(inner) == (Place { scope: ctx.scope_ids@, ..place_of(ctx) })
        &&& qualifiers(inner) == qualifiers(ctx).push(name)
        &&& inner.top_context() == ctx.top_context()
        &&& #[trigger] class_members(inner, b, ms)
    }
}

/// Parses the class declaration, abstract or not, at node `node`.
pub fn parse_class(node: usize, ctx: &mut ParserContext) -> (r: Result<Symbol, DossierError>)
    requires
        old(ctx).wf(),
        node < old(ctx).tree.len(),
    ensures
        parse_kept(*old(ctx), *final(ctx)),
        r is Ok <==> class_ok(*old(ctx).tree, old(ctx).code.spec_bytes(), node as int),
        r is Ok ==> same_frame(*old(ctx), *final(ctx)),
        r matches Ok(s) ==> made_at(*old(ctx), s, node as int) && (s.kind matches SymbolKind::Class(c)
            && (old(ctx).tree.field_child(node as int, "name"@) matches Some(n) && c.identifier@ == text_at(
            *old(ctx),
            n,
        )) && c.exported == exported_at(*old(ctx), node as int) && c.is_abstract == (old(ctx).tree.kind_of(
            node as int,
        ) == "abstract_class_declaration"@) && opt_string(c.documentation) == shown_docs(
            docs_of(*old(ctx), node as int),
        ) && (old(ctx).tree.field_child(node as int, "body"@) matches Some(b) && inside_read(
            *old(ctx),
            c.identifier@,
            b,
            c.children@,
        ))),
{
    let ghost c0 = *ctx;
    let tree = ctx.tree;
    let code = ctx.code;
    let is_abstract = tree.is_kind(node, "abstract_class_declaration");
    if !(is_abstract || tree.is_kind(node, "class_declaration")) {
        return Err(DossierError::UnexpectedSyntax(tree.kind(node).to_owned()));
    }
    let name = field_or_err(tree, node, "name")?;
    let identifier = tree.text_string(code, name)?;
    let body = field_or_err(tree, node, "body")?;
    let mut children: Vec<Symbol> = Vec::new();
    let id = ctx.push_scope();
    let ghost p1 = *ctx;
    ctx.push_fqn(identifier.as_str());
    let ghost p2 = *ctx;
    proof {
        lemma_unnamed_scope_place(c0, p1, id);
        assert(qualifiers(p2) =~= qualifiers(p1).push(identifier@));
        assert(place_of(p2) == place_of(p1));
    }
    parse_class_body(body, ctx, &mut children)?;
    proof {
        assert(children@.skip(0) =~= children@);
        assert(class_members(p2, body as int, children@));
    }
    let ghost y = *ctx;
    ctx.pop_fqn();
    let ghost z = *ctx;
    proof {
        lemma_fqn_push_pop_frame(p1, p2, y, z);
    }
    ctx.pop_scope();
    proof {
        lemma_push_pop_frame(c0, p1, z, id);
        lemma_frame_names(c0, *ctx);
    }
    let documentation = documentation_of(ctx, node)?;
    let exported = exported(tree, node);
    let source = Source::for_node(node, ctx);
    Ok(
        Symbol::in_context(
            ctx,
            SymbolKind::Class(Class { identifier, documentation, children, exported, is_abstract }),
            source,
        ),
    )
}

/// Whether `ms` are the children read from the interface declaration at
/// `node`, named `name`, with `inner` the frame its type parameters are
/// read in, a new scope qualified by the name, and `at` the frame the rest
/// is read in: the same, or a new scope within it where there are type
/// parameters. The part after the name holds the type parameters, if they
/// are there; the rest is read from the part after it.
pub open spec fn interface_children_in(
    ctx: ParserContext,
    node: int,
    name: Seq<char>,
    ms: Seq<Symbol>,
    inner: ParserContext,
    at: ParserContext,
) -> bool {
    let tree = *ctx.tree;
    let n = tree.child_count(node);
    let k0 = if 2 < n {
        2
    } else {
        1
    };
    let tp = tree.child(node, k0);
    let generic = tree.kind_of(tp) == "type_parameters"@;
    let ntv = if generic {
        picked(tree, tp, tree.child_count(tp), Pick::TypeParameters).len()
    } else {
        0
    };
    let k1 = if k0 + 1 < n {
        k0 + 1
    } else {
        k0
    };
    &&& inner.tree == ctx.tree
    &&& inner.code == ctx.code
    &&& place_of(inner) == (Place { scope: place_of(inner).scope, ..place_of(ctx) })
    &&& qualifiers(inner) == qualifiers(ctx).push(name)
    &&& inner.top_context() == ctx.top_context()
    &&& at.tree == ctx.tree
    &&& at.code == ctx.code
    &&& place_of(at) == (Place { scope: place_of(at).scope, ..place_of(inner) })
    &&& qualifiers(at) == qualifiers(inner)
    &&& at.top_context() == ctx.top_context()
    &&& (!generic ==> place_of(at) == place_of(inner))
    &&& ms.len() >= ntv
    &&& (generic ==> type_variables_read(inner, tp, ms.take(ntv as int)))
    &&& interface_rest_read(at, node, k1, ms.skip(ntv as int))
}

/// Parses the interface declaration at node `node`: its type parameters,
/// the type it extends, in the extends context, and its body.
pub fn parse_interface(node: usize, ctx: &mut ParserContext) -> (r: Result<Symbol, DossierError>)
    requires
        old(ctx).wf(),
        node < old(ctx).tree.len(),
    ensures
        parse_kept(*old(ctx), *final(ctx)),
        r is Ok <==> interface_ok(*old(ctx).tree, old(ctx).code.spec_bytes(), node as int),
        r is Ok ==> same_frame(*old(ctx), *final(ctx)),
        r matches Ok(s) ==> made_at(*old(ctx), s, node as int) && (s.kind matches SymbolKind::Interface(i)
            && old(ctx).tree.child_count(node as int) > 1 && i.identifier@ == text_at(
            *old(ctx),
            old(ctx).tree.child(node as int, 1),
        ) && i.exported == exported_at(*old(ctx), node as int) && opt_string(i.documentation)
            == shown_docs(docs_of(*old(ctx), node as int)) && exists|inner: ParserContext, at: ParserContext|
            #[trigger] interface_children_in(*old(ctx), node as int, i.identifier@, i.children@, inner, at)),
{
    let ghost c0 = *ctx;
    let tree = ctx.tree;
    let code = ctx.code;
    if !tree.is_kind(node, "interface_declaration") {
        return Err(DossierError::UnexpectedSyntax(tree.kind(node).to_owned()));
    }
    let name = child_or_err(tree, node, 1)?;
    let identifier = tree.text_string(code, name)?;
    let n = tree.child_count_of(node);
    let mut children: Vec<Symbol> = Vec::new();
    let id = ctx.push_scope();
    let ghost p1 = *ctx;
    ctx.push_fqn(identifier.as_str());
    let ghost p2 = *ctx;
    proof {
        lemma_same_frame_refl(p2);
        lemma_unnamed_scope_place(c0, p1, id);
        assert(qualifiers(p2) =~= qualifiers(p1).push(identifier@));
        assert(place_of(p2) == place_of(p1));
    }
    let ghost at: ParserContext;
    let ghost ntv: int;
    // The position of the part after the name.
    let mut k: usize = if 2 < n { 2 } else { 1 };
    let c = tree.child_at(node, k);
    if tree.is_kind(c, "type_parameters") {
        parse_type_parameters(c, &mut children, ctx)?;
        let ghost tvs = children@;
        proof {
            assert(children@.skip(0) =~= children@);
            ntv = tvs.len() as int;
        }
        let ghost p2b = *ctx;
        let inner_id = ctx.push_scope();
        let ghost p3 = *ctx;
        proof {
            lemma_same_frame_refl(p3);
            lemma_same_place(p2, p2b);
            lemma_unnamed_scope_place(p2b, p3, inner_id);
            at = p3;
        }
        if k + 1 < n {
            k += 1;
        }
        parse_interface_rest(node, k, &mut children, ctx)?;
        proof {
            assert(children@.take(ntv) =~= tvs);
        }
        let ghost x = *ctx;
        ctx.pop_scope();
        proof {
            lemma_push_pop_frame(p2b, p3, x, inner_id);
            lemma_same_frame_trans(p2, p2b, *ctx);
        }
    } else {
        proof {
            ntv = 0;
            at = p2;
        }
        if k + 1 < n {
            k += 1;
        }
        parse_interface_rest(node, k, &mut children, ctx)?;
        proof {
            assert(children@.skip(0) =~= children@);
        }
    }
    proof {
        assert(interface_children_in(c0, node as int, identifier@, children@, p2, at));
    }
    let ghost y = *ctx;
    ctx.pop_fqn();
    let ghost z = *ctx;
    proof {
        lemma_fqn_push_pop_frame(p1, p2, y, z);
    }
    ctx.pop_scope();
    proof {
        lemma_push_pop_frame(c0, p1, z, id);
        lemma_frame_names(c0, *ctx);
    }
    let documentation = documentation_of(ctx, node)?;
    let exported = exported(tree, node);
    let source = Source::for_node(node, ctx);
    let interface = Interface { identifier, documentation, children, exported };
    proof {
        assert(interface_children_in(c0, node as int, interface.identifier@, interface.children@, p2, at));
    }
    Ok(Symbol::in_context(ctx, SymbolKind::Interface(interface), source))
}

/// Whether `rs` are what is read in `ctx` from the interface at `node`
/// from its child at position `k` on: the type the extends clause names,
/// in the extends context, if the clause is there, then the body.
pub open spec fn interface_rest_read(ctx: ParserContext, node: int, k: int, rs: Seq<Symbol>) -> bool {
    let tree = *ctx.tree;
    let n = tree.child_count(node);
    let c = tree.child(node, k);
    if tree.kind_of(c) == "extends_type_clause"@ {
        let b = if k + 1 < n {
            tree.child(node, k + 1)
        } else {
            c
        };
        &&& tree.child_count(c) > 1
        &&& rs.len() == 2
        &&& type_in(place_of(ctx), Some(SymbolContext::Extends), qualifiers(ctx), tree.child(c, 1), rs[0])
        &&& type_in(place_of(ctx), ctx.top_context(), qualifiers(ctx), b, rs[1])
    } else {
        &&& rs.len() == 1
        &&& type_in(place_of(ctx), ctx.top_context(), qualifiers(ctx), c, rs[0])
    }
}

/// Parses what follows the name and type parameters of the interface at
/// `node`, from its child at position `k` on: the extends clause, if it is
/// there, and the body.
fn parse_interface_rest(node: usize, k: usize, children: &mut Vec<Symbol>, ctx: &mut ParserContext) -> (r: Result<(), DossierError>)
    requires
        old(ctx).wf(),
        node < old(ctx).tree.len(),
        k < old(ctx).tree.child_count(node as int),
    ensures
        parse_kept(*old(ctx), *final(ctx)),
        r is Ok <==> interface_rest_ok(*old(ctx).tree, old(ctx).code.spec_bytes(), node as int, k as int),
        r is Ok ==> same_frame(*old(ctx), *final(ctx)),
        r is Ok ==> final(children)@.len() >= old(children)@.len() && final(children)@.take(
            old(children)@.len() as int,
        ) == old(children)@ && interface_rest_read(
            *old(ctx),
            node as int,
            k as int,
            final(children)@.skip(old(children)@.len() as int),
        ),
{
    let ghost c0 = *ctx;
    let tree = ctx.tree;
    let n = tree.child_count_of(node);
    let mut k = k;
    let mut c = tree.child_at(node, k);
    proof {
        lemma_same_frame_refl(c0);
    }
    let ghost start = children@;
    if tree.is_kind(c, "extends_type_clause") {
        let target = child_or_err(tree, c, 1)?;
        ctx.push_context(SymbolContext::Extends);
        let ghost pushed = *ctx;
        let extends = parse_type(target, ctx)?;
        let ghost parsed = *ctx;
        ctx.pop_context();
        proof {
            assert(pushed.symbol_context@.drop_last() =~= c0.symbol_context@);
            lemma_context_push_pop_frame(c0, pushed, parsed, *ctx);
            assert(place_of(pushed) == place_of(c0));
            assert(qualifiers(pushed) == qualifiers(c0));
        }
        children.push(extends);
        if k + 1 < n {
            k += 1;
            c = tree.child_at(node, k);
        }
    }
    let ghost before = *ctx;
    let body = parse_type(c, ctx)?;
    proof {
        lemma_same_place(c0, before);
        lemma_same_frame_trans(c0, before, *ctx);
    }
    children.push(body);
    proof {
        assert(children@.take(start.len() as int) =~= start);
    }
    Ok(())
}

/// The position among the children of export specifier `c` of the part
/// that names what is exported: the first named one, or else the last.
pub open spec fn specifier_name_from(tree: SyntaxTree, c: int, j: int) -> int
    decreases tree.child_count(c) - j,
{
    if j + 1 < tree.child_count(c) && !tree.nodes@[tree.child(c, j)].named {
        specifier_name_from(tree, c, j + 1)
    } else {
        j
    }
}

/// The name an export specifier `c` exports.
pub open spec fn specifier_name(ctx: ParserContext, c: int) -> Seq<char> {
    if ctx.tree.child_count(c) == 0 {
        text_at(ctx, c)
    } else {
        text_at(ctx, ctx.tree.child(c, specifier_name_from(*ctx.tree, c, 0)))
    }
}

/// The names the export specifiers among the first `k` children of `node`
/// export, in order.
pub open spec fn exported_names(ctx: ParserContext, node: int, k: int) -> Seq<Seq<char>>
    decreases k,
{
    if k <= 0 {
        Seq::empty()
    } else {
        let c = ctx.tree.child(node, k - 1);
        let before = exported_names(ctx, node, k - 1);
        if ctx.tree.kind_of(c) == "export_specifier"@ {
            before.push(specifier_name(ctx, c))
        } else {
            before
        }
    }
}

/// The names an export clause at `node` exports, in order.
pub fn parse_exports(node: usize, ctx: &ParserContext) -> (r: Result<Vec<String>, DossierError>)
    requires
        ctx.wf(),
        node < ctx.tree.len(),
    ensures
        r matches Ok(v) ==> ctx.tree.kind_of(node as int) == "export_clause"@ && crate::common::views(v@)
            == exported_names(*ctx, node as int, ctx.tree.child_count(node as int)),
        r is Ok <==> exports_ok(*ctx.tree, ctx.code.spec_bytes(), node as int),
{
    let tree = ctx.tree;
    let code = ctx.code;
    if !tree.is_kind(node, "export_clause") {
        return Err(DossierError::UnexpectedSyntax(tree.kind(node).to_owned()));
    }
    let mut out: Vec<String> = Vec::new();
    let n = tree.child_count_of(node);
    let mut k: usize = 0;
    while k < n
        invariant
            tree.wf(),
            tree == ctx.tree,
            code == ctx.code,
            node < tree.len(),
            n == tree.child_count(node as int),
            k <= n,
            crate::common::views(out@) == exported_names(*ctx, node as int, k as int),
            tree.kind_of(node as int) == "export_clause"@,
            forall|j: int|
                0 <= j < k && tree.kind_of(#[trigger] tree.child(node as int, j)) == "export_specifier"@ ==> {
                    let c = tree.child(node as int, j);
                    if tree.child_count(c) == 0 {
                        tree.text_ok(code.spec_bytes(), c)
                    } else {
                        tree.text_ok(code.spec_bytes(), tree.child(c, specifier_name_from(*tree, c, 0)))
                    }
                },
        decreases n - k,
    {
        let c = tree.child_at(node, k);
        if tree.is_kind(c, "export_specifier") {
            let m = tree.child_count_of(c);
            let ghost before = out@;
            if m == 0 {
                out.push(tree.text_string(code, c)?);
            } else {
                let mut j: usize = 0;
                while j + 1 < m && !tree.is_named(tree.child_at(c, j))
                    invariant
                        tree.wf(),
                        c < tree.len(),
                        m == tree.child_count(c as int),
                        j < m,
                        specifier_name_from(*tree, c as int, j as int) == specifier_name_from(*tree, c as int, 0),
                    decreases m - j,
                {
                    j += 1;
                }
                let s = tree.child_at(c, j);
                out.push(tree.text_string(code, s)?);
            }
            assert(crate::common::views(out@) =~= crate::common::views(before).push(out@.last()@));
        }
        k += 1;
    }
    Ok(out)
}

/// The texts of the named children of `node` from position 1 up to `k`.
pub open spec fn named_texts(ctx: ParserContext, node: int, k: int) -> Seq<Seq<char>>
    decreases k,
{
    if k <= 1 {
        Seq::empty()
    } else {
        let c = ctx.tree.child(node, k - 1);
        let before = named_texts(ctx, node, k - 1);
        if ctx.tree.nodes@[c].named {
            before.push(text_at(ctx, c))
        } else {
            before
        }
    }
}

/// Whether `i` is the import read from the import statement at `node`:
/// the names between its braces and the module path they come from.
pub open spec fn import_at(ctx: ParserContext, node: int, i: Import) -> bool {
    let tree = *ctx.tree;
    &&& tree.kind_of(node) == "import_statement"@
    &&& tree.child_count(node) > 3
    &&& tree.child_count(tree.child(node, 1)) > 0
    &&& tree.child_count(tree.child(node, 3)) > 1
    &&& {
        let named = tree.child(tree.child(node, 1), 0);
        crate::common::views(i.names@) == named_texts(ctx, named, tree.child_count(named))
    }
    &&& i.source@ == text_at(ctx, tree.child(tree.child(node, 3), 1))
}

/// Parses the import statement at `node`: the names between the braces
/// and the module path they come from.
pub fn parse_import(node: usize, ctx: &ParserContext) -> (r: Result<Import, DossierError>)
    requires
        ctx.wf(),
        node < ctx.tree.len(),
    ensures
        r matches Ok(i) ==> import_at(*ctx, node as int, i),
        r is Ok <==> import_ok(*ctx.tree, ctx.code.spec_bytes(), node as int),
{
    let tree = ctx.tree;
    let code = ctx.code;
    if !tree.is_kind(node, "import_statement") {
        return Err(DossierError::UnexpectedSyntax(tree.kind(node).to_owned()));
    }
    let clause = child_or_err(tree, node, 1)?;
    let named = child_or_err(tree, clause, 0)?;
    let mut names: Vec<String> = Vec::new();
    let m = tree.child_count_of(named);
    let mut j: usize = 1;
    while j < m
        invariant
            tree.wf(),
            tree == ctx.tree,
            code == ctx.code,
            named < tree.len(),
            m == tree.child_count(named as int),
            1 <= j <= if m >= 1 { m } else { 1 },
            crate::common::views(names@) == named_texts(*ctx, named as int, j as int),
            node < tree.len(),
            tree.kind_of(node as int) == "import_statement"@,
            tree.child_count(node as int) > 1,
            tree.child_count(tree.child(node as int, 1)) > 0,
            named as int == tree.child(tree.child(node as int, 1), 0),
            forall|i: int|
                1 <= i < j && tree.nodes@[#[trigger] tree.child(named as int, i)].named ==> tree.text_ok(
                    code.spec_bytes(),
                    tree.child(named as int, i),
                ),
        decreases m - j,
    {
        let s = tree.child_at(named, j);
        if tree.is_named(s) {
            let ghost before = names@;
            names.push(tree.text_string(code, s)?);
            assert(crate::common::views(names@) =~= crate::common::views(before).push(names@.last()@));
        }
        j += 1;
    }
    let string = child_or_err(tree, node, 3)?;
    let fragment = child_or_err(tree, string, 1)?;
    let source = tree.text_string(code, fragment)?;
    proof {
        if m == 0 {
            assert(named_texts(*ctx, named as int, 0) == Seq::<Seq<char>>::empty());
        }
    }
    Ok(Import { names, source })
}

/// Whether a statement of kind `k` declares a symbol: a function or a
/// type alias.
pub open spec fn declares(k: Seq<char>) -> bool {
    k == "function_declaration"@ || k == "type_alias_declaration"@
}

/// Whether `s` is what the declaration at `node` reads, and holds on to
/// whatever export clause comes later: a function with its name, whether
/// it is exported and its documentation, or a type alias with its name and
/// documentation, exported if it stands in an export statement.
pub open spec fn declaration_at(ctx: ParserContext, node: int, s: Symbol) -> bool {
    let tree = *ctx.tree;
    &&& made_at(ctx, s, node)
    &&& if tree.kind_of(node) == "function_declaration"@ {
        &&& s.kind matches SymbolKind::Function(f)
        &&& tree.field_child(node, "name"@) matches Some(n)
        &&& f.identifier@ == text_at(ctx, n)
        &&& f.is_exported == exported_at(ctx, node)
        &&& opt_string(f.documentation) == shown_docs(docs_of(ctx, node))
        &&& function_children(ctx, node, f.identifier@, f.children@)
    } else {
        &&& tree.kind_of(node) == "type_alias_declaration"@
        &&& s.kind matches SymbolKind::TypeAlias(a)
        &&& tree.named_from(node, 0) matches Some(k)
        &&& a.identifier@ == text_at(ctx, tree.child(node, k))
        &&& (exported_at(ctx, node) ==> a.exported)
        &&& opt_string(a.documentation) == shown_docs(docs_of(ctx, node))
        &&& alias_children(ctx, node, a.children@)
    }
}

/// A declaration read in one context is read alike in another that keeps
/// the names of its frame.
proof fn lemma_declaration_frame(b: ParserContext, c0: ParserContext, node: int, s: Symbol)
    requires
        c0.wf(),
        names_frame(c0, b),
        declaration_at(b, node, s),
    ensures
        declaration_at(c0, node, s),
{
    lemma_names_frame(c0, b);
    lemma_frame_place(c0, b);
    if b.tree.kind_of(node) == "function_declaration"@ {
        let f = s.kind->Function_0;
        let (inner, at) = choose|inner: ParserContext, at: ParserContext| #[trigger] function_children_in(
            b,
            node,
            f.identifier@,
            f.children@,
            inner,
            at,
        );
        assert(function_children_in(c0, node, f.identifier@, f.children@, inner, at));
    } else {
        let a = s.kind->TypeAlias_0;
        let tree = *b.tree;
        if let Some(t) = tree.field_child(node, "type_parameters"@) {
            let nv: int = if tree.field_child(node, "value"@) is Some {
                1
            } else {
                0
            };
            let vs = a.children@.skip(nv);
            let nodes = picked(tree, t, tree.child_count(t), Pick::TypeParameters);
            assert forall|i: int| 0 <= i < vs.len() implies {
                &&& made_at(c0, #[trigger] vs[i], nodes[i])
                &&& vs[i].kind matches SymbolKind::TypeVariable(v)
                &&& type_variable_shape(c0, nodes[i], v)
            } by {
                assert(made_at(b, vs[i], nodes[i]));
            }
        }
    }
}

/// Marking a symbol as exported twice marks it once.
proof fn lemma_mark_exported_twice(s: Symbol)
    ensures
        mark_exported(mark_exported(s)) == mark_exported(s),
{
}

/// The names an import reads depend on the tree and the code alone.
proof fn lemma_named_texts_alike(a: ParserContext, b: ParserContext, node: int, k: int)
    requires
        a.tree == b.tree,
        a.code == b.code,
    ensures
        named_texts(a, node, k) == named_texts(b, node, k),
    decreases k,
{
    if k > 1 {
        lemma_named_texts_alike(a, b, node, k - 1);
    }
}

/// Whether `b` is `a` with some of its symbols marked as exported.
pub open spec fn marked(a: Seq<Symbol>, b: Seq<Symbol>) -> bool {
    &&& b.len() == a.len()
    &&& forall|i: int| 0 <= i < a.len() ==> #[trigger] b[i] == a[i] || b[i] == mark_exported(a[i])
}

/// Marking symbols as exported keeps what a lookup from the scope at
/// position `pos` finds.
proof fn lemma_lookup_at_marked(scopes: Seq<Scope>, a: Seq<Symbol>, b: Seq<Symbol>, name: Seq<char>, pos: int)
    requires
        marked(a, b),
    ensures
        lookup_at(scopes, a, name, pos) == lookup_at(scopes, b, name, pos),
    decreases pos,
{
    if 0 <= pos < scopes.len() {
        lemma_first_in_scope_marked(a, b, name, scopes[pos].id as int, 0);
        match scopes[pos].parent_at {
            Some(p) => if 0 <= p < pos {
                lemma_lookup_at_marked(scopes, a, b, name, p as int);
            },
            None => {},
        }
    }
}

proof fn lemma_first_in_scope_marked(a: Seq<Symbol>, b: Seq<Symbol>, name: Seq<char>, id: int, from: int)
    requires
        marked(a, b),
    ensures
        first_in_scope(a, name, id, from) == first_in_scope(b, name, id, from),
    decreases a.len() - from,
{
    if 0 <= from < a.len() {
        assert(b[from] == a[from] || b[from] == mark_exported(a[from]));
        lemma_first_in_scope_marked(a, b, name, id, from + 1);
    }
}

/// Marking symbols as exported keeps what a lookup finds.
pub proof fn lemma_lookup_marked(t0: SymbolTable, t1: SymbolTable, name: Seq<char>, scope: int)
    requires
        t1.same_but_symbols(t0),
        marked(t0.symbols@, t1.symbols@),
    ensures
        t1.lookup_index(name, scope) == t0.lookup_index(name, scope),
{
    lemma_first_in_scope_marked(t0.symbols@, t1.symbols@, name, scope, 0);
    match position_of(t0.scopes@, scope) {
        Some(p) => lemma_lookup_at_marked(t0.scopes@, t0.symbols@, t1.symbols@, name, p),
        None => {},
    }
}

/// Whether `c1` is `c0` after the top-level statement at `node`: a
/// declaration adds its symbol, an import adds its import to the current
/// scope, an export clause marks as exported the symbol that a lookup of
/// each name it lists finds from the current scope (and nothing else),
/// and any other statement changes nothing.
pub open spec fn statement_read(c0: ParserContext, c1: ParserContext, node: int) -> bool {
    let k = c0.tree.kind_of(node);
    let cur = c0.symbol_table.current as int;
    let imports0 = c0.symbol_table.scopes@[cur].imports@;
    let imports1 = c1.symbol_table.scopes@[cur].imports@;
    let symbols0 = c0.symbol_table.symbols@;
    let symbols1 = c1.symbol_table.symbols@;
    &&& names_frame(c0, c1)
    &&& if declares(k) {
        &&& imports1 == imports0
        &&& symbols1.len() == symbols0.len() + 1
        &&& symbols1.drop_last() == symbols0
        &&& declaration_at(c0, node, symbols1.last())
    } else if k == "import_statement"@ {
        &&& symbols1 == symbols0
        &&& imports1.len() == imports0.len() + 1
        &&& imports1.drop_last() == imports0
        &&& import_at(c0, node, imports1.last())
    } else if k == "export_clause"@ {
        let names = exported_names(c0, node, c0.tree.child_count(node));
        &&& imports1 == imports0
        &&& marked(symbols0, symbols1)
        &&& forall|j: int| 0 <= j < names.len() ==> (match c0.symbol_table.lookup_index(
            #[trigger] names[j],
            c0.symbol_table.current_id() as int,
        ) {
            Some(i) => symbols1[i] == mark_exported(symbols0[i]),
            None => true,
        })
    } else {
        &&& imports1 == imports0
        &&& symbols1 == symbols0
    }
}

/// Adds to the table what the top-level statement at `node` declares:
/// an import, a function, a type alias, or the exports of an export
/// clause; other statements add nothing.
pub fn handle_node(node: usize, ctx: &mut ParserContext) -> (r: Result<(), DossierError>)
    requires
        old(ctx).wf(),
        node < old(ctx).tree.len(),
    ensures
        final(ctx).wf(),
        final(ctx).tree == old(ctx).tree,
        final(ctx).code == old(ctx).code,
        final(ctx).file == old(ctx).file,
        final(ctx).symbol_table.file == old(ctx).symbol_table.file,
        r is Ok ==> statement_read(*old(ctx), *final(ctx), node as int),
        r is Ok <==> statement_ok(*old(ctx).tree, old(ctx).code.spec_bytes(), node as int),
{
    let ghost c0 = *ctx;
    let ghost cur = c0.symbol_table.current as int;
    let tree = ctx.tree;
    proof {
        reveal_strlit("import_statement");
        reveal_strlit("function_declaration");
        reveal_strlit("type_alias_declaration");
        reveal_strlit("export_clause");
        assert("import_statement"@.len() == 16);
        assert("function_declaration"@.len() == 20);
        assert("type_alias_declaration"@.len() == 22);
        assert("export_clause"@.len() == 13);
    }
    if tree.is_kind(node, "import_statement") {
        let import = parse_import(node, ctx)?;
        ctx.symbol_table.add_import(import);
        assert(ctx.symbol_table.scopes@[cur].imports@.drop_last() =~= c0.symbol_table.scopes@[cur].imports@);
    } else if tree.is_kind(node, "function_declaration") {
        let symbol = parse_function(node, ctx)?;
        let ghost s = symbol;
        let ghost c1 = *ctx;
        ctx.symbol_table.add_symbol(symbol);
        proof {
            lemma_same_frame_names(c0, c1);
            assert(c1.symbol_table.scopes@[cur] == c0.symbol_table.scopes@[cur]);
            assert(ctx.symbol_table.symbols@.drop_last() =~= c0.symbol_table.symbols@);
        }
    } else if tree.is_kind(node, "type_alias_declaration") {
        let symbol = parse_type_alias(node, ctx)?;
        let ghost c1 = *ctx;
        ctx.symbol_table.add_symbol(symbol);
        proof {
            lemma_same_frame_names(c0, c1);
            assert(c1.symbol_table.scopes@[cur] == c0.symbol_table.scopes@[cur]);
            assert(ctx.symbol_table.symbols@.drop_last() =~= c0.symbol_table.symbols@);
        }
    } else if tree.is_kind(node, "export_clause") {
        let identifiers = parse_exports(node, ctx)?;
        assert(ctx.symbol_table == c0.symbol_table && *ctx == c0);
        let mut k: usize = 0;
        while k < identifiers.len()
            invariant
                ctx.wf(),
                ctx.tree == c0.tree,
                ctx.code == c0.code,
                ctx.file == c0.file,
                ctx.symbol_context@ == c0.symbol_context@,
                ctx.symbol_table.file == c0.symbol_table.file,
                ctx.symbol_table.scopes == c0.symbol_table.scopes,
                ctx.symbol_table.current == c0.symbol_table.current,
                ctx.symbol_table.fqn_parts == c0.symbol_table.fqn_parts,
                marked(c0.symbol_table.symbols@, ctx.symbol_table.symbols@),
                crate::common::views(identifiers@) == exported_names(c0, node as int, c0.tree.child_count(node as int)),
                k <= identifiers@.len(),
                forall|j: int| 0 <= j < k ==> (match c0.symbol_table.lookup_index(
                    #[trigger] crate::common::views(identifiers@)[j],
                    c0.symbol_table.current_id() as int,
                ) {
                    Some(i) => ctx.symbol_table.symbols@[i] == mark_exported(c0.symbol_table.symbols@[i]),
                    None => true,
                }),
            decreases identifiers@.len() - k,
        {
            let ghost before = ctx.symbol_table.symbols@;
            let ghost t_before = ctx.symbol_table;
            ctx.symbol_table.export_symbol(identifiers[k].as_str());
            proof {
                let found = t_before.lookup_index(identifiers@[k as int]@, t_before.current_id() as int);
                let names = crate::common::views(identifiers@);
                assert(names[k as int] == identifiers@[k as int]@);
                lemma_lookup_marked(c0.symbol_table, t_before, identifiers@[k as int]@, t_before.current_id() as int);
                assert forall|j: int| 0 <= j < k + 1 implies (match c0.symbol_table.lookup_index(
                    #[trigger] names[j],
                    c0.symbol_table.current_id() as int,
                ) {
                    Some(i) => ctx.symbol_table.symbols@[i] == mark_exported(c0.symbol_table.symbols@[i]),
                    None => true,
                }) by {
                    if let Some(i) = c0.symbol_table.lookup_index(names[j], c0.symbol_table.current_id() as int) {
                        lemma_lookup_from_found(c0.symbol_table.scopes@, c0.symbol_table.symbols@, names[j], c0.symbol_table.current_id() as int);
                        lemma_mark_exported_twice(c0.symbol_table.symbols@[i]);
                        if j < k {
                            assert(before[i] == mark_exported(c0.symbol_table.symbols@[i]));
                        }
                    }
                }
                assert(ctx.symbol_table.symbols@.len() == before.len());
                assert forall|i: int| 0 <= i < before.len() implies #[trigger] ctx.symbol_table.symbols@[i]
                    == c0.symbol_table.symbols@[i] || ctx.symbol_table.symbols@[i] == mark_exported(
                    c0.symbol_table.symbols@[i],
                ) by {
                    assert(before[i] == c0.symbol_table.symbols@[i] || before[i] == mark_exported(c0.symbol_table.symbols@[i]));
                    if found == Some(i) {
                        lemma_mark_exported_twice(c0.symbol_table.symbols@[i]);
                    }
                }
            }
            k += 1;
        }
    } else {
        assert(marked(c0.symbol_table.symbols@, ctx.symbol_table.symbols@));
    }
    Ok(())
}

/// The statement read for the top-level statement `c`: the one within it
/// if it is an export statement, else `c` itself.
pub open spec fn statement_of(tree: SyntaxTree, c: int) -> int {
    if tree.kind_of(c) == "export_statement"@ {
        if tree.child_count(c) > 1 {
            tree.child(c, 1)
        } else if tree.child_count(c) == 1 {
            tree.child(c, 0)
        } else {
            c
        }
    } else {
        c
    }
}

/// The statements read among the first `k` top-level statements: all but
/// comments, each as `statement_of` gives it.
pub open spec fn statements(tree: SyntaxTree, k: int) -> Seq<int>
    decreases k,
{
    if k <= 0 {
        Seq::empty()
    } else {
        let c = tree.child(0, k - 1);
        if tree.kind_of(c) == "comment"@ {
            statements(tree, k - 1)
        } else {
            statements(tree, k - 1).push(statement_of(tree, c))
        }
    }
}

/// The statements read among the first `j` top-level statements come
/// first among those read among the first `n`.
pub proof fn lemma_statements_prefix(tree: SyntaxTree, j: int, n: int)
    requires
        0 <= j <= n,
    ensures
        statements(tree, j).len() <= statements(tree, n).len(),
        statements(tree, n).take(statements(tree, j).len() as int) == statements(tree, j),
    decreases n - j,
{
    if j < n {
        lemma_statements_prefix(tree, j, n - 1);
        let a = statements(tree, j);
        let b = statements(tree, n - 1);
        let c = statements(tree, n);
        assert(c.take(a.len() as int) =~= b.take(a.len() as int));
    } else {
        assert(statements(tree, n).take(statements(tree, n).len() as int) =~= statements(tree, n));
    }
}

/// The statements among `nodes` whose kind `keep` accepts, in order.
pub open spec fn kept_nodes(tree: SyntaxTree, nodes: Seq<int>, keep: spec_fn(Seq<char>) -> bool) -> Seq<int>
    decreases nodes.len(),
{
    if nodes.len() == 0 {
        Seq::empty()
    } else {
        let before = kept_nodes(tree, nodes.drop_last(), keep);
        if keep(tree.kind_of(nodes.last())) {
            before.push(nodes.last())
        } else {
            before
        }
    }
}

/// Whether a statement of kind `k` is an import statement.
pub open spec fn imports(k: Seq<char>) -> bool {
    k == "import_statement"@
}

/// Whether `t` holds what the file parsed in `ctx` declares, after what
/// the table of `ctx` held: a symbol for each declaration, in order, and
/// an import in the current scope for each import statement, in order.
pub open spec fn file_read(ctx: ParserContext, t: SymbolTable) -> bool {
    let tree = *ctx.tree;
    let all = statements(tree, tree.child_count(0));
    let decls = kept_nodes(tree, all, |k: Seq<char>| declares(k));
    let imps = kept_nodes(tree, all, |k: Seq<char>| imports(k));
    let n0 = ctx.symbol_table.symbols@.len();
    let cur = ctx.symbol_table.current as int;
    let i0 = ctx.symbol_table.scopes@[cur].imports@.len();
    &&& t.wf()
    &&& t.file == ctx.symbol_table.file
    &&& tree.kind_of(0) == "program"@
    &&& t.symbols@.len() == n0 + decls.len()
    &&& forall|i: int| 0 <= i < decls.len() ==> declaration_at(ctx, decls[i], #[trigger] t.symbols@[n0 + i])
    &&& t.scopes@.len() > cur
    &&& t.scopes@[cur].id == ctx.symbol_table.scopes@[cur].id
    &&& t.scopes@[cur].imports@.len() == i0 + imps.len()
    &&& t.scopes@[cur].imports@.take(i0 as int) == ctx.symbol_table.scopes@[cur].imports@
    &&& forall|i: int| 0 <= i < imps.len() ==> import_at(ctx, imps[i], #[trigger] t.scopes@[cur].imports@[i0 + i])
}

/// Reads the declarations of a whole file: every top-level statement, and
/// the statement within each export statement; comments are skipped. The
/// table comes back with the counters of scope and symbol identifiers as
/// the parse left them.
#[verifier::loop_isolation(false)]
pub fn parse_file(ctx: ParserContext) -> (r: Result<(SymbolTable, ScopeIds, SymbolIds), DossierError>)
    requires
        ctx.wf(),
    ensures
        r matches Ok((t, _, _)) ==> file_read(ctx, t),
        r is Ok <==> program_ok(*ctx.tree, ctx.code.spec_bytes()),
{
    let ghost c0 = ctx;
    let mut ctx = ctx;
    let tree = ctx.tree;
    if !tree.is_kind(0, "program") {
        return Err(DossierError::UnexpectedSyntax(tree.kind(0).to_owned()));
    }
    let ghost n0 = c0.symbol_table.symbols@.len();
    let ghost cur = c0.symbol_table.current as int;
    let ghost i0 = c0.symbol_table.scopes@[cur].imports@.len();
    let n = tree.child_count_of(0);
    let mut k: usize = 0;
    proof {
        assert(names_frame(c0, ctx));
        assert(ctx.symbol_table.symbols@.subrange(n0 as int, n0 as int) =~= Seq::<Symbol>::empty());
    }
    while k < n
        invariant
            ctx.wf(),
            c0.wf(),
            ctx.tree == tree,
            c0.tree == tree,
            tree.wf(),
            n == tree.child_count(0),
            k <= n,
            tree.kind_of(0) == "program"@,
            names_frame(c0, ctx),
            ctx.code == c0.code,
            forall|j: int|
                0 <= j < k && tree.kind_of(#[trigger] tree.child(0, j)) != "comment"@ ==> statement_ok(
                    *tree,
                    c0.code.spec_bytes(),
                    statement_of(*tree, tree.child(0, j)),
                ),
            n0 == c0.symbol_table.symbols@.len(),
            cur == c0.symbol_table.current,
            i0 == c0.symbol_table.scopes@[cur].imports@.len(),
            ({
                let decls = kept_nodes(*tree, statements(*tree, k as int), |q: Seq<char>| declares(q));
                &&& ctx.symbol_table.symbols@.len() == n0 + decls.len()
                &&& forall|i: int| 0 <= i < decls.len() ==> declaration_at(c0, decls[i], #[trigger] ctx.symbol_table.symbols@[n0 + i])
            }),
            ({
                let imps = kept_nodes(*tree, statements(*tree, k as int), |q: Seq<char>| imports(q));
                let here = ctx.symbol_table.scopes@[cur].imports@;
                &&& here.len() == i0 + imps.len()
                &&& here.take(i0 as int) == c0.symbol_table.scopes@[cur].imports@
                &&& forall|i: int| 0 <= i < imps.len() ==> import_at(c0, imps[i], #[trigger] here[i0 + i])
            }),
        decreases n - k,
    {
        let c = tree.child_at(0, k);
        if tree.is_kind(c, "comment") {
        } else {
            let inner = if tree.is_kind(c, "export_statement") {
                if tree.child_count_of(c) > 1 {
                    tree.child_at(c, 1)
                } else if tree.child_count_of(c) == 1 {
                    tree.child_at(c, 0)
                } else {
                    c
                }
            } else {
                c
            };
            assert(inner == statement_of(*tree, c as int));
            let ghost before = ctx;
            handle_node(inner, &mut ctx)?;
            proof {
                lemma_statement_step(c0, before, ctx, *tree, k as int, inner as int);
            }
        }
        k += 1;
    }
    Ok((ctx.symbol_table, ctx.scope_ids, ctx.symbol_ids))
}

/// One more top-level statement keeps what `parse_file` holds of the ones
/// before it.
proof fn lemma_statement_step(c0: ParserContext, before: ParserContext, after: ParserContext, tree: SyntaxTree, k: int, inner: int)
    requires
        c0.wf(),
        before.wf(),
        c0.tree == tree,
        before.tree == tree,
        tree.wf(),
        0 <= k < tree.child_count(0),
        tree.kind_of(tree.child(0, k)) != "comment"@,
        inner == statement_of(tree, tree.child(0, k)),
        names_frame(c0, before),
        statement_read(before, after, inner),
        ({
            let decls = kept_nodes(tree, statements(tree, k), |q: Seq<char>| declares(q));
            let n0 = c0.symbol_table.symbols@.len();
            &&& before.symbol_table.symbols@.len() == n0 + decls.len()
            &&& forall|i: int| 0 <= i < decls.len() ==> declaration_at(c0, decls[i], #[trigger] before.symbol_table.symbols@[n0 + i])
        }),
        ({
            let imps = kept_nodes(tree, statements(tree, k), |q: Seq<char>| imports(q));
            let cur = c0.symbol_table.current as int;
            let i0 = c0.symbol_table.scopes@[cur].imports@.len();
            let here = before.symbol_table.scopes@[cur].imports@;
            &&& here.len() == i0 + imps.len()
            &&& here.take(i0 as int) == c0.symbol_table.scopes@[cur].imports@
            &&& forall|i: int| 0 <= i < imps.len() ==> import_at(c0, imps[i], #[trigger] here[i0 + i])
        }),
    ensures
        names_frame(c0, after),
        ({
            let decls = kept_nodes(tree, statements(tree, k + 1), |q: Seq<char>| declares(q));
            let n0 = c0.symbol_table.symbols@.len();
            &&& after.symbol_table.symbols@.len() == n0 + decls.len()
            &&& forall|i: int| 0 <= i < decls.len() ==> declaration_at(c0, decls[i], #[trigger] after.symbol_table.symbols@[n0 + i])
        }),
        ({
            let imps = kept_nodes(tree, statements(tree, k + 1), |q: Seq<char>| imports(q));
            let cur = c0.symbol_table.current as int;
            let i0 = c0.symbol_table.scopes@[cur].imports@.len();
            let here = after.symbol_table.scopes@[cur].imports@;
            &&& here.len() == i0 + imps.len()
            &&& here.take(i0 as int) == c0.symbol_table.scopes@[cur].imports@
            &&& forall|i: int| 0 <= i < imps.len() ==> import_at(c0, imps[i], #[trigger] here[i0 + i])
        }),
{
    let all0 = statements(tree, k);
    let all1 = statements(tree, k + 1);
    assert(all1 == all0.push(inner));
    assert(all1.drop_last() =~= all0);
    let dk = |q: Seq<char>| declares(q);
    let ik = |q: Seq<char>| imports(q);
    let decls0 = kept_nodes(tree, all0, dk);
    let decls1 = kept_nodes(tree, all1, dk);
    let imps0 = kept_nodes(tree, all0, ik);
    let imps1 = kept_nodes(tree, all1, ik);
    let n0 = c0.symbol_table.symbols@.len();
    let cur = c0.symbol_table.current as int;
    let i0 = c0.symbol_table.scopes@[cur].imports@.len();
    let kd = tree.kind_of(inner);
    lemma_names_frame_trans(c0, before, after);
    lemma_names_frame(c0, before);
    reveal_strlit("import_statement");
    reveal_strlit("function_declaration");
    reveal_strlit("type_alias_declaration");
    reveal_strlit("export_clause");
    assert("import_statement"@.len() == 16);
    assert("function_declaration"@.len() == 20);
    assert("type_alias_declaration"@.len() == 22);
    assert("export_clause"@.len() == 13);
    if declares(kd) {
        assert(decls1 == decls0.push(inner));
        assert(imps1 == imps0);
        let s = after.symbol_table.symbols@.last();
        assert(declaration_at(before, inner, s));
        lemma_declaration_frame(before, c0, inner, s);
        assert forall|i: int| 0 <= i < decls1.len() implies declaration_at(c0, decls1[i], #[trigger] after.symbol_table.symbols@[n0 + i]) by {
            if i < decls0.len() {
                assert(after.symbol_table.symbols@[n0 + i] == before.symbol_table.symbols@[n0 + i]);
            }
        }
    } else if kd == "import_statement"@ {
        assert(decls1 == decls0);
        assert(imps1 == imps0.push(inner));
        let here0 = before.symbol_table.scopes@[cur].imports@;
        let here1 = after.symbol_table.scopes@[cur].imports@;
        let named = tree.child(tree.child(inner, 1), 0);
        lemma_named_texts_alike(before, c0, named, tree.child_count(named));
        assert(import_at(c0, inner, here1.last()));
        assert(here1.take(i0 as int) =~= here0.take(i0 as int));
        assert forall|i: int| 0 <= i < imps1.len() implies import_at(c0, imps1[i], #[trigger] here1[i0 + i]) by {
            if i < imps0.len() {
                assert(here1[i0 + i] == here0[i0 + i]);
            }
        }
    } else if kd == "export_clause"@ {
        assert(decls1 == decls0);
        assert(imps1 == imps0);
        assert forall|i: int| 0 <= i < decls1.len() implies declaration_at(c0, decls1[i], #[trigger] after.symbol_table.symbols@[n0 + i]) by {
            let b = before.symbol_table.symbols@[n0 + i];
            assert(declaration_at(c0, decls1[i], b));
            assert(after.symbol_table.symbols@[n0 + i] == b || after.symbol_table.symbols@[n0 + i] == mark_exported(b));
        }
    } else {
        assert(decls1 == decls0);
        assert(imps1 == imps0);
    }
}

/// Whether `t` is the table read from the file `path` with the text
/// `code`: what a syntax tree of it declares, read from an empty table
/// with no context and no qualifying names.
pub open spec fn source_read(path: Seq<char>, code: Seq<char>, t: SymbolTable) -> bool {
    &&& t.wf()
    &&& t.file@ == path
    &&& exists|ctx: ParserContext| {
        &&& ctx.file@ == path
        &&& ctx.code@ == code
        &&& ctx.wf()
        &&& tree_reads(*ctx.tree, Grammar::TypeScript, code)
        &&& program_ok(*ctx.tree, ctx.code.spec_bytes())
        &&& ctx.symbol_context@.len() == 0
        &&& ctx.symbol_table.file@ == path
        &&& ctx.symbol_table.symbols@.len() == 0
        &&& ctx.symbol_table.current == 0
        &&& ctx.symbol_table.scopes@[0].imports@.len() == 0
        &&& ctx.symbol_table.fqn_parts@.len() == 0
        &&& #[trigger] file_read(ctx, t)
    }
}

/// Whether reading the TypeScript text `code` may fail with `e`: the
/// library does not accept the grammar's version, or a syntax tree of the
/// text does not parse.
pub open spec fn source_rejected(code: Seq<char>, e: DossierError) -> bool {
    ||| !grammar_accepted(Grammar::TypeScript)
    ||| exists|tree: SyntaxTree| tree.wf() && tree_reads(tree, Grammar::TypeScript, code) && !program_ok(
        tree,
        encode_utf8(code),
    )
}

/// Whether the TypeScript text `code` is owed a table: the library accepts
/// the grammar's version, and the syntax tree of the text parses, in
/// whatever order its nodes are numbered.
pub open spec fn source_accepted(code: Seq<char>) -> bool {
    &&& grammar_accepted(Grammar::TypeScript)
    &&& forall|tree: SyntaxTree|
        tree.wf() && #[trigger] tree_reads(tree, Grammar::TypeScript, code) ==> program_ok(tree, encode_utf8(code))
}

/// The symbol table of the TypeScript file `path` with the text `code`,
/// its scope identifiers handed out by `ids`, the root scope getting the
/// next one, and its symbols' identifiers by `symbol_ids`. On an error the
/// counters are left as they were.
pub fn parse_source(
    path: &str,
    code: &str,
    ids: &mut ScopeIds,
    symbol_ids: &mut SymbolIds,
) -> (r: Result<SymbolTable, DossierError>)
    ensures
        r matches Ok(t) ==> t.wf() && t.file@ == path@,
        r matches Ok(t) ==> source_read(path@, code@, t),
        r matches Ok(t) ==> t.scopes@[0].id == old(ids)@,
        r matches Err(e) ==> source_rejected(code@, e),
        source_accepted(code@) ==> r is Ok,
        r is Err ==> final(ids)@ == old(ids)@ && final(symbol_ids)@ == old(symbol_ids)@,
{
    let tree = match crate::syntax::typescript_syntax(code) {
        Ok(t) => t,
        Err(e) => return Err(e),
    };
    let ctx = ParserContext::new(path, code, &tree, *ids, *symbol_ids);
    let ghost c = ctx;
    match parse_file(ctx) {
        Ok((t, next, next_symbol)) => {
            assert(file_read(c, t));
            *ids = next;
            *symbol_ids = next_symbol;
            Ok(t)
        },
        Err(e) => Err(e),
    }
}

} // verus!
