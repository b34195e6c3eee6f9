//! The Python grammar, read off a syntax tree: classes, functions, their
//! parameters and the types they name.
use vstd::prelude::*;
use vstd::string::StringSliceAdditionalSpecFns;
use crate::common::{qualified, views, DossierError};
use crate::py::context::ParserContext;
use crate::py::helpers::{dedents_cleanly, docstring, docstring_dedents_cleanly, process_docs};
use crate::py::symbol::{
    kind_title, Class, Function, Location, Parameter, Symbol, SymbolContext, SymbolKind, Type,
};
use crate::syntax::{grammar_accepted, tree_reads, Grammar, SyntaxTree};
use crate::text::str_eq;

verus! {

broadcast use vstd::seq_lib::group_seq_properties;

/// The names of the types Python code is taken to have built in.
pub open spec fn built_in(title: Seq<char>) -> bool {
    ||| title == "int"@
    ||| title == "string"@
    ||| title == "bool"@
    ||| title == "float"@
    ||| title == "double"@
    ||| title == "void"@
}

pub fn is_built_in(title: &str) -> (r: bool)
    ensures
        r == built_in(title@),
{
    str_eq(title, "int") || str_eq(title, "string") || str_eq(title, "bool") || str_eq(title, "float")
        || str_eq(title, "double") || str_eq(title, "void")
}

/// The text of node `i` of the tree being parsed.
pub open spec fn text_at(ctx: ParserContext, i: int) -> Seq<char> {
    ctx.tree.text_of(ctx.code.spec_bytes(), i)
}

/// Whether the text of node `i` of the tree being parsed can be read: its
/// byte range cuts the code at character boundaries.
pub open spec fn readable(ctx: ParserContext, i: int) -> bool {
    ctx.tree.text_ok(ctx.code.spec_bytes(), i)
}

/// Whether the annotation at `node` reads as a type.
pub open spec fn type_ok(ctx: ParserContext, node: int) -> bool {
    let tree = *ctx.tree;
    tree.kind_of(node) == "type"@ && tree.child_count(node) > 0 && readable(ctx, tree.child(node, 0))
}

/// Whether the node at `node` reads as a parameter.
pub open spec fn parameter_ok(ctx: ParserContext, node: int) -> bool {
    let tree = *ctx.tree;
    &&& is_parameter_kind(tree.kind_of(node))
    &&& if tree.kind_of(node) == "identifier"@ {
        readable(ctx, node)
    } else {
        &&& tree.child_count(node) > 0
        &&& readable(ctx, tree.child(node, 0))
        &&& (declared_type(tree, node) matches Some(t) ==> type_ok(ctx, t))
    }
}

/// Whether every one of `nodes` reads as a parameter.
pub open spec fn parameters_ok(ctx: ParserContext, nodes: Seq<int>) -> bool {
    forall|i: int| 0 <= i < nodes.len() ==> parameter_ok(ctx, #[trigger] nodes[i])
}

/// Whether the docstring of the definition at `node`, if it has one, can be
/// read.
pub open spec fn docs_ok(ctx: ParserContext, node: int) -> bool {
    let tree = *ctx.tree;
    match tree.field_child(node, "body"@) {
        Some(body) => if tree.child_count(body) > 0 && tree.kind_of(tree.child(body, 0)) == "expression_statement"@ {
            let statement = tree.child(body, 0);
            if tree.child_count(statement) > 0 && tree.kind_of(tree.child(statement, 0)) == "string"@ {
                readable(ctx, tree.child(statement, 0)) && dedents_cleanly(text_at(ctx, tree.child(statement, 0)))
            } else {
                true
            }
        } else {
            true
        },
        None => true,
    }
}

/// Whether the definition at `node` reads as a function.
pub open spec fn function_ok(ctx: ParserContext, node: int) -> bool {
    let tree = *ctx.tree;
    &&& tree.kind_of(node) == "function_definition"@
    &&& tree.field_child(node, "name"@) matches Some(n)
    &&& readable(ctx, n)
    &&& parameters_ok(ctx, function_parameter_nodes(tree, node))
    &&& (declared_return(tree, node) matches Some(t) ==> type_ok(ctx, t))
    &&& docs_ok(ctx, node)
}

/// Whether the definition at `node` reads as a class.
pub open spec fn class_ok(ctx: ParserContext, node: int) -> bool {
    let tree = *ctx.tree;
    &&& tree.kind_of(node) == "class_definition"@
    &&& tree.field_child(node, "name"@) matches Some(n)
    &&& readable(ctx, n)
    &&& docs_ok(ctx, node)
}

/// Whether the statement at `node` reads: a class or function definition
/// that reads as one, or any other statement.
pub open spec fn statement_ok(ctx: ParserContext, node: int) -> bool {
    let k = ctx.tree.kind_of(node);
    if k == "class_definition"@ {
        class_ok(ctx, node)
    } else if k == "function_definition"@ {
        function_ok(ctx, node)
    } else {
        true
    }
}

/// Whether `s` is the symbol made for node `node` of the file of `ctx`, in
/// the context `c` and qualified by the names `parts`.
pub open spec fn made_in(ctx: ParserContext, c: Option<SymbolContext>, parts: Seq<Seq<char>>, s: Symbol, node: int) -> bool {
    &&& s.loc.file == ctx.file
    &&& s.loc.start_offset_bytes == ctx.tree.nodes@[node].start_byte
    &&& s.loc.end_offset_bytes == ctx.tree.nodes@[node].end_byte
    &&& s.context == c
    &&& s.fqn matches Some(f) && f@ == ctx.file@ + qualified(parts.push(kind_title(s.kind)))
}

/// Whether `s` is the symbol made in `ctx` for node `node`.
pub open spec fn made_at(ctx: ParserContext, s: Symbol, node: int) -> bool {
    made_in(ctx, ctx.top_context(), views(ctx.fqn_parts@), s, node)
}

/// Whether `s` is the type read from the annotation at `node`: named by
/// the annotation's first child, built in or not.
pub open spec fn type_in(ctx: ParserContext, c: Option<SymbolContext>, parts: Seq<Seq<char>>, node: int, s: Symbol) -> bool {
    let tree = *ctx.tree;
    &&& made_in(ctx, c, parts, s, node)
    &&& tree.kind_of(node) == "type"@
    &&& tree.child_count(node) > 0
    &&& s.kind matches SymbolKind::Type(t)
    &&& kind_title(s.kind) == text_at(ctx, tree.child(node, 0))
    &&& (t is BuiltIn <==> built_in(kind_title(s.kind)))
}

/// A type annotation reads as the built-in type of its text exactly when
/// that text is `int`, `string`, `bool`, `float`, `double` or `void`, and
/// as a type named by its text otherwise.
pub proof fn law_built_in_types(ctx: ParserContext, c: Option<SymbolContext>, parts: Seq<Seq<char>>, node: int, s: Symbol)
    requires
        type_in(ctx, c, parts, node, s),
    ensures
        ({
            let x = text_at(ctx, ctx.tree.child(node, 0));
            if x == "int"@ || x == "string"@ || x == "bool"@ || x == "float"@ || x == "double"@ || x == "void"@ {
                s.kind matches SymbolKind::Type(Type::BuiltIn(n)) && n@ == x
            } else {
                s.kind matches SymbolKind::Type(Type::Identifier(n)) && n@ == x
            }
        }),
{
}

/// The type annotation declared for the parameter at `node`, if any.
pub open spec fn declared_type(tree: SyntaxTree, node: int) -> Option<int> {
    match tree.field_child(node, "type"@) {
        Some(t) => if tree.kind_of(t) == "type"@ {
            Some(t)
        } else {
            None
        },
        None => None,
    }
}

/// Whether `s` is the parameter read from `node`: its name, and the type
/// declared for it.
pub open spec fn parameter_in(ctx: ParserContext, c: Option<SymbolContext>, parts: Seq<Seq<char>>, node: int, s: Symbol) -> bool {
    let tree = *ctx.tree;
    &&& made_in(ctx, c, parts, s, node)
    &&& is_parameter_kind(tree.kind_of(node))
    &&& s.kind matches SymbolKind::Parameter(p)
    &&& p.documentation is None
    &&& if tree.kind_of(node) == "identifier"@ {
        p.title@ == text_at(ctx, node) && p.members@.len() == 0
    } else {
        &&& tree.child_count(node) > 0
        &&& p.title@ == text_at(ctx, tree.child(node, 0))
        &&& match declared_type(tree, node) {
            Some(t) => p.members@.len() == 1 && type_in(ctx, c, parts, t, p.members@[0]),
            None => p.members@.len() == 0,
        }
    }
}

/// The parameters among the first `k` children of `node`, in order.
pub open spec fn parameter_nodes(tree: SyntaxTree, node: int, k: int) -> Seq<int>
    decreases k,
{
    if k <= 0 {
        Seq::empty()
    } else {
        let before = parameter_nodes(tree, node, k - 1);
        if is_parameter_kind(tree.kind_of(tree.child(node, k - 1))) {
            before.push(tree.child(node, k - 1))
        } else {
            before
        }
    }
}

/// Whether `ms` are the parameters read from `nodes`, one by one.
pub open spec fn parameters_in(ctx: ParserContext, c: Option<SymbolContext>, parts: Seq<Seq<char>>, nodes: Seq<int>, ms: Seq<Symbol>) -> bool {
    &&& ms.len() == nodes.len()
    &&& forall|i: int| 0 <= i < ms.len() ==> parameter_in(ctx, c, parts, nodes[i], #[trigger] ms[i])
}

/// What a parse keeps of its context.
pub open spec fn kept(c0: ParserContext, c1: ParserContext) -> bool {
    &&& c1.file == c0.file
    &&& c1.code == c0.code
    &&& c1.tree == c0.tree
}

/// What a successful parse restores of its context.
pub open spec fn restored(c0: ParserContext, c1: ParserContext) -> bool {
    &&& kept(c0, c1)
    &&& c1.symbol_context@ == c0.symbol_context@
    &&& c1.fqn_parts@ == c0.fqn_parts@
}

/// Parses the type annotation at node `node`: a built-in type, or one
/// named by an identifier.
pub fn parse_type(node: usize, ctx: &mut ParserContext) -> (r: Result<Symbol, DossierError>)
    requires
        old(ctx).tree.wf(),
        node < old(ctx).tree.len(),
    ensures
        kept(*old(ctx), *final(ctx)),
        r is Ok ==> restored(*old(ctx), *final(ctx)),
        r matches Ok(s) ==> type_in(*old(ctx), old(ctx).top_context(), views(old(ctx).fqn_parts@), node as int, s),
        old(ctx).tree.kind_of(node as int) != "type"@ ==> r is Err,
        r is Ok <==> type_ok(*old(ctx), node as int),
{
    let tree = ctx.tree;
    if !tree.is_kind(node, "type") {
        return Err(DossierError::UnexpectedSyntax(tree.kind(node).to_owned()));
    }
    if tree.child_count_of(node) == 0 {
        return Err(DossierError::UnexpectedSyntax(tree.kind(node).to_owned()));
    }
    let first = tree.child_at(node, 0);
    let title = tree.text_string(ctx.code, first)?;
    let out = if is_built_in(title.as_str()) {
        Type::BuiltIn(title)
    } else {
        Type::Identifier(title)
    };
    let loc = Location::new(node, ctx);
    Ok(Symbol::in_context(ctx, SymbolKind::Type(out), loc))
}

/// Whether node `node` is a parameter: typed, with a default, or a bare
/// identifier.
pub fn is_parameter(tree: &SyntaxTree, node: usize) -> (r: bool)
    requires
        node < tree.len(),
    ensures
        r == (tree.kind_of(node as int) == "typed_parameter"@ || tree.kind_of(node as int) == "identifier"@
            || tree.kind_of(node as int) == "typed_default_parameter"@),
{
    tree.is_kind(node, "typed_parameter") || tree.is_kind(node, "identifier") || tree.is_kind(
        node,
        "typed_default_parameter",
    )
}

/// Parses the parameter at node `node`: its name, and its type where one
/// is declared.
pub fn parse_parameter(node: usize, ctx: &mut ParserContext) -> (r: Result<Symbol, DossierError>)
    requires
        old(ctx).tree.wf(),
        node < old(ctx).tree.len(),
    ensures
        kept(*old(ctx), *final(ctx)),
        r is Ok ==> restored(*old(ctx), *final(ctx)),
        r matches Ok(s) ==> parameter_in(*old(ctx), old(ctx).top_context(), views(old(ctx).fqn_parts@), node as int, s),
        !is_parameter_kind(old(ctx).tree.kind_of(node as int)) ==> r is Err,
        r is Ok <==> parameter_ok(*old(ctx), node as int),
{
    let tree = ctx.tree;
    if !is_parameter(tree, node) {
        return Err(DossierError::UnexpectedSyntax(tree.kind(node).to_owned()));
    }
    let mut members: Vec<Symbol> = Vec::new();
    let title = if tree.is_kind(node, "identifier") {
        tree.text_string(ctx.code, node)?
    } else {
        if tree.child_count_of(node) == 0 {
            return Err(DossierError::UnexpectedSyntax(tree.kind(node).to_owned()));
        }
        let first = tree.child_at(node, 0);
        let title = tree.text_string(ctx.code, first)?;
        if let Some(type_node) = tree.child_by_field_name(node, "type") {
            if tree.is_kind(type_node, "type") {
                let t = parse_type(type_node, ctx)?;
                members.push(t);
            }
        }
        title
    };
    let loc = Location::new(node, ctx);
    Ok(
        Symbol::in_context(
            ctx,
            SymbolKind::Parameter(Parameter { title, documentation: None, members }),
            loc,
        ),
    )
}

/// A type read in one context is read alike in another over the same file.
proof fn lemma_type_in_frame(c1: ParserContext, c0: ParserContext, c: Option<SymbolContext>, parts: Seq<Seq<char>>, node: int, s: Symbol)
    requires
        kept(c0, c1),
        type_in(c1, c, parts, node, s),
    ensures
        type_in(c0, c, parts, node, s),
{
}

/// A parameter read in one context is read alike in another over the same
/// file.
proof fn lemma_parameter_in_frame(c1: ParserContext, c0: ParserContext, c: Option<SymbolContext>, parts: Seq<Seq<char>>, node: int, s: Symbol)
    requires
        kept(c0, c1),
        parameter_in(c1, c, parts, node, s),
    ensures
        parameter_in(c0, c, parts, node, s),
{
    if let SymbolKind::Parameter(p) = s.kind {
        if let Some(t) = declared_type(*c1.tree, node) {
            if c1.tree.kind_of(node) != "identifier"@ {
                lemma_type_in_frame(c1, c0, c, parts, t, p.members@[0]);
            }
        }
    }
}

/// The parameters among the first `j` children come first among those of
/// the first `n`.
proof fn lemma_parameter_nodes_prefix(tree: SyntaxTree, node: int, j: int, n: int)
    requires
        0 <= j <= n,
    ensures
        parameter_nodes(tree, node, j).len() <= parameter_nodes(tree, node, n).len(),
        parameter_nodes(tree, node, n).take(parameter_nodes(tree, node, j).len() as int) == parameter_nodes(tree, node, j),
    decreases n - j,
{
    if j < n {
        lemma_parameter_nodes_prefix(tree, node, j, n - 1);
        let a = parameter_nodes(tree, node, j);
        let b = parameter_nodes(tree, node, n - 1);
        let c = parameter_nodes(tree, node, n);
        assert(c.take(a.len() as int) =~= b.take(a.len() as int));
    } else {
        assert(parameter_nodes(tree, node, n).take(parameter_nodes(tree, node, n).len() as int) =~= parameter_nodes(tree, node, n));
    }
}

pub open spec fn is_parameter_kind(k: Seq<char>) -> bool {
    k == "typed_parameter"@ || k == "identifier"@ || k == "typed_default_parameter"@
}

/// Parses the parameters among the children of `node` into `out`.
pub fn parse_parameters(node: usize, out: &mut Vec<Symbol>, ctx: &mut ParserContext) -> (r: Result<(), DossierError>)
    requires
        old(ctx).tree.wf(),
        node < old(ctx).tree.len(),
    ensures
        kept(*old(ctx), *final(ctx)),
        r is Ok ==> restored(*old(ctx), *final(ctx)),
        r is Ok ==> final(out)@.len() >= old(out)@.len() && final(out)@.take(old(out)@.len() as int)
            == old(out)@ && parameters_in(
            *old(ctx),
            old(ctx).top_context(),
            views(old(ctx).fqn_parts@),
            parameter_nodes(*old(ctx).tree, node as int, old(ctx).tree.child_count(node as int)),
            final(out)@.skip(old(out)@.len() as int),
        ),
        r is Ok <==> parameters_ok(*old(ctx), parameter_nodes(*old(ctx).tree, node as int, old(ctx).tree.child_count(node as int))),
{
    let ghost c0 = *ctx;
    let tree = ctx.tree;
    let n = tree.child_count_of(node);
    let mut k: usize = 0;
    while k < n
        invariant
            tree.wf(),
            node < tree.len(),
            n == tree.child_count(node as int),
            k <= n,
            ctx.tree == tree,
            c0 == *old(ctx),
            restored(c0, *ctx),
            out@.len() >= old(out)@.len(),
            out@.take(old(out)@.len() as int) == old(out)@,
            parameters_in(
                c0,
                c0.top_context(),
                views(c0.fqn_parts@),
                parameter_nodes(*tree, node as int, k as int),
                out@.skip(old(out)@.len() as int),
            ),
            parameters_ok(c0, parameter_nodes(*tree, node as int, k as int)),
        decreases n - k,
    {
        let c = tree.child_at(node, k);
        let ghost before = *ctx;
        if is_parameter(tree, c) {
            let p = match parse_parameter(c, ctx) {
                Ok(p) => p,
                Err(e) => {
                    proof {
                        let all = parameter_nodes(*tree, node as int, n as int);
                        let upto = parameter_nodes(*tree, node as int, k + 1);
                        lemma_parameter_nodes_prefix(*tree, node as int, k + 1, n as int);
                        assert(upto.last() == c as int);
                        assert(all[upto.len() - 1] == upto[upto.len() - 1]);
                        assert(!parameter_ok(c0, all[upto.len() - 1]));
                    }
                    return Err(e);
                },
            };
            let ghost prev = out@;
            out.push(p);
            proof {
                lemma_parameter_in_frame(before, c0, before.top_context(), views(before.fqn_parts@), c as int, p);
                assert(out@.take(old(out)@.len() as int) =~= prev.take(old(out)@.len() as int));
                assert(out@.skip(old(out)@.len() as int) =~= prev.skip(old(out)@.len() as int).push(p));
            }
        }
        k += 1;
    }
    Ok(())
}

/// The docstring that opens the body of the definition at `node`.
pub open spec fn docs_at(ctx: ParserContext, node: int) -> Option<Seq<char>> {
    let tree = *ctx.tree;
    match tree.field_child(node, "body"@) {
        Some(body) => if tree.child_count(body) > 0 && tree.kind_of(tree.child(body, 0))
            == "expression_statement"@ {
            let statement = tree.child(body, 0);
            if tree.child_count(statement) > 0 && tree.kind_of(tree.child(statement, 0)) == "string"@ {
                docstring(text_at(ctx, tree.child(statement, 0)))
            } else {
                None
            }
        } else {
            None
        },
        None => None,
    }
}

/// A Python definition is documented only by a string literal that opens
/// with three double quotes and stands alone as the first statement of its
/// body; the documentation is read from that literal's text.
pub proof fn law_docstring_opens_the_body(ctx: ParserContext, node: int)
    ensures
        docs_at(ctx, node) is Some ==> ({
            let tree = *ctx.tree;
            &&& tree.field_child(node, "body"@) matches Some(body)
            &&& tree.child_count(body) > 0
            &&& tree.kind_of(tree.child(body, 0)) == "expression_statement"@
            &&& tree.child_count(tree.child(body, 0)) > 0
            &&& tree.kind_of(tree.child(tree.child(body, 0), 0)) == "string"@
            &&& {
                let text = text_at(ctx, tree.child(tree.child(body, 0), 0));
                &&& text.len() >= 3
                &&& text[0] == '"' && text[1] == '"' && text[2] == '"'
                &&& docs_at(ctx, node) == docstring(text)
            }
        }),
{
    let tree = *ctx.tree;
    if let Some(body) = tree.field_child(node, "body"@) {
        if tree.child_count(body) > 0 {
            let st = tree.child(body, 0);
            if tree.child_count(st) > 0 {
                let text = text_at(ctx, tree.child(st, 0));
                if docstring(text) is Some {
                    assert(text.take(3)[0] == text[0]);
                    assert(text.take(3)[1] == text[1]);
                    assert(text.take(3)[2] == text[2]);
                }
            }
        }
    }
}

pub open spec fn opt_string(o: Option<String>) -> Option<Seq<char>> {
    match o {
        Some(s) => Some(s@),
        None => None,
    }
}

/// The documentation of the definition at `node`: the docstring its body
/// opens with.
pub fn find_docs(node: usize, ctx: &ParserContext) -> (r: Result<Option<String>, DossierError>)
    requires
        ctx.tree.wf(),
        node < ctx.tree.len(),
    ensures
        r matches Ok(d) ==> opt_string(d) == docs_at(*ctx, node as int),
        r is Ok <==> docs_ok(*ctx, node as int),
{
    let tree = ctx.tree;
    match tree.child_by_field_name(node, "body") {
        Some(body) => {
            if tree.child_count_of(body) > 0 && tree.is_kind(tree.child_at(body, 0), "expression_statement") {
                let statement = tree.child_at(body, 0);
                if tree.child_count_of(statement) > 0 && tree.is_kind(tree.child_at(statement, 0), "string") {
                    let s = tree.child_at(statement, 0);
                    let possible_docs = tree.text(ctx.code, s)?;
                    if !docstring_dedents_cleanly(possible_docs) {
                        return Err(DossierError::UnexpectedSyntax("docstring indentation".to_owned()));
                    }
                    Ok(process_docs(possible_docs))
                } else {
                    Ok(None)
                }
            } else {
                Ok(None)
            }
        },
        None => Ok(None),
    }
}

/// The return type annotation of the function defined at `node`, if any.
pub open spec fn declared_return(tree: SyntaxTree, node: int) -> Option<int> {
    match tree.field_child(node, "return_type"@) {
        Some(t) => if tree.kind_of(t) == "type"@ {
            Some(t)
        } else {
            None
        },
        None => None,
    }
}

/// The parameter nodes of the function defined at `node`.
pub open spec fn function_parameter_nodes(tree: SyntaxTree, node: int) -> Seq<int> {
    match tree.field_child(node, "parameters"@) {
        Some(p) => parameter_nodes(tree, p, tree.child_count(p)),
        None => Seq::empty(),
    }
}

/// Whether `ms` are the members of the function `title` defined at `node`:
/// its parameters, named within the function and in the parameter
/// context, then its return type, in the return type context.
pub open spec fn function_members(ctx: ParserContext, node: int, title: Seq<char>, ms: Seq<Symbol>) -> bool {
    let tree = *ctx.tree;
    let ps = function_parameter_nodes(tree, node);
    let parts = views(ctx.fqn_parts@);
    &&& ms.len() >= ps.len()
    &&& parameters_in(ctx, Some(SymbolContext::Parameter), parts.push(title), ps, ms.take(ps.len() as int))
    &&& match declared_return(tree, node) {
        Some(t) => ms.len() == ps.len() + 1 && type_in(
            ctx,
            Some(SymbolContext::ReturnType),
            parts,
            t,
            ms[ps.len() as int],
        ),
        None => ms.len() == ps.len(),
    }
}

/// Whether `s` is the function read from the definition at `node`.
pub open spec fn function_at(ctx: ParserContext, node: int, s: Symbol) -> bool {
    let tree = *ctx.tree;
    &&& made_at(ctx, s, node)
    &&& tree.kind_of(node) == "function_definition"@
    &&& s.kind matches SymbolKind::Function(f)
    &&& tree.field_child(node, "name"@) matches Some(n)
    &&& f.title@ == text_at(ctx, n)
    &&& opt_string(f.documentation) == docs_at(ctx, node)
    &&& function_members(ctx, node, f.title@, f.members@)
}

/// Whether `s` is the class read from the definition at `node`.
pub open spec fn class_at(ctx: ParserContext, node: int, s: Symbol) -> bool {
    let tree = *ctx.tree;
    &&& made_at(ctx, s, node)
    &&& tree.kind_of(node) == "class_definition"@
    &&& s.kind matches SymbolKind::Class(c)
    &&& tree.field_child(node, "name"@) matches Some(n)
    &&& c.title@ == text_at(ctx, n)
    &&& opt_string(c.documentation) == docs_at(ctx, node)
}

/// Parses the function definition at node `node`: its parameters, named
/// within the function and in the parameter context, and its return type,
/// in the return type context.
pub fn parse_function(node: usize, ctx: &mut ParserContext) -> (r: Result<Symbol, DossierError>)
    requires
        old(ctx).tree.wf(),
        node < old(ctx).tree.len(),
    ensures
        kept(*old(ctx), *final(ctx)),
        r is Ok ==> restored(*old(ctx), *final(ctx)),
        r matches Ok(s) ==> function_at(*old(ctx), node as int, s),
        old(ctx).tree.kind_of(node as int) != "function_definition"@ ==> r is Err,
        r is Ok <==> function_ok(*old(ctx), node as int),
{
    let ghost c0 = *ctx;
    let tree = ctx.tree;
    if !tree.is_kind(node, "function_definition") {
        return Err(DossierError::UnexpectedSyntax(tree.kind(node).to_owned()));
    }
    let name = match tree.child_by_field_name(node, "name") {
        Some(n) => n,
        None => return Err(DossierError::UnexpectedSyntax(tree.kind(node).to_owned())),
    };
    let title = tree.text_string(ctx.code, name)?;
    let ghost parts = views(c0.fqn_parts@);
    let ghost ps = function_parameter_nodes(*tree, node as int);
    let mut members: Vec<Symbol> = Vec::new();
    if let Some(parameters) = tree.child_by_field_name(node, "parameters") {
        ctx.push_context(SymbolContext::Parameter);
        ctx.push_fqn(title.as_str());
        let ghost inner = *ctx;
        parse_parameters(parameters, &mut members, ctx)?;
        proof {
            assert(members@.skip(0) =~= members@);
            assert(inner.top_context() == Some(SymbolContext::Parameter));
            assert forall|i: int| 0 <= i < members@.len() implies parameter_in(
                c0,
                Some(SymbolContext::Parameter),
                parts.push(title@),
                ps[i],
                #[trigger] members@[i],
            ) by {
                lemma_parameter_in_frame(inner, c0, Some(SymbolContext::Parameter), parts.push(title@), ps[i], members@[i]);
            }
        }
        ctx.pop_fqn();
        ctx.pop_context();
        proof {
            assert(ctx.symbol_context@ =~= c0.symbol_context@);
            assert(ctx.fqn_parts@ =~= c0.fqn_parts@);
        }
    }
    let ghost with_parameters = members@;
    assert(with_parameters.len() == ps.len());
    assert(parameters_in(c0, Some(SymbolContext::Parameter), parts.push(title@), ps, with_parameters));
    if let Some(return_type) = tree.child_by_field_name(node, "return_type") {
        let ghost before = *ctx;
        ctx.push_context(SymbolContext::ReturnType);
        if tree.is_kind(return_type, "type") {
            let ghost pushed = *ctx;
            let t = parse_type(return_type, ctx)?;
            proof {
                assert(pushed.top_context() == Some(SymbolContext::ReturnType));
                lemma_type_in_frame(pushed, c0, Some(SymbolContext::ReturnType), parts, return_type as int, t);
            }
            members.push(t);
        }
        ctx.pop_context();
        proof {
            assert(ctx.symbol_context@ =~= before.symbol_context@);
        }
    }
    assert(members@.take(ps.len() as int) =~= with_parameters);
    let documentation = find_docs(node, ctx)?;
    let loc = Location::new(node, ctx);
    Ok(Symbol::in_context(ctx, SymbolKind::Function(Function { title, documentation, members }), loc))
}

/// Parses the class definition at node `node`: its name and docstring.
pub fn parse_class(node: usize, ctx: &mut ParserContext) -> (r: Result<Symbol, DossierError>)
    requires
        old(ctx).tree.wf(),
        node < old(ctx).tree.len(),
    ensures
        *final(ctx) == *old(ctx),
        r matches Ok(s) ==> class_at(*old(ctx), node as int, s),
        old(ctx).tree.kind_of(node as int) != "class_definition"@ ==> r is Err,
        r is Ok <==> class_ok(*old(ctx), node as int),
{
    let tree = ctx.tree;
    if !tree.is_kind(node, "class_definition") {
        return Err(DossierError::UnexpectedSyntax(tree.kind(node).to_owned()));
    }
    let name = match tree.child_by_field_name(node, "name") {
        Some(n) => n,
        None => return Err(DossierError::UnexpectedSyntax(tree.kind(node).to_owned())),
    };
    let title = tree.text_string(ctx.code, name)?;
    let documentation = find_docs(node, ctx)?;
    let loc = Location::new(node, ctx);
    Ok(Symbol::in_context(ctx, SymbolKind::Class(Class { title, documentation }), loc))
}

/// Whether a statement of kind `k` defines a symbol: a class or a function.
pub open spec fn defines(k: Seq<char>) -> bool {
    k == "class_definition"@ || k == "function_definition"@
}

/// Whether `s` is the symbol read from the definition at `node`.
pub open spec fn definition_at(ctx: ParserContext, node: int, s: Symbol) -> bool {
    if ctx.tree.kind_of(node) == "class_definition"@ {
        class_at(ctx, node, s)
    } else {
        function_at(ctx, node, s)
    }
}

/// The definitions among the first `k` statements of the module.
pub open spec fn definition_nodes(tree: SyntaxTree, k: int) -> Seq<int>
    decreases k,
{
    if k <= 0 {
        Seq::empty()
    } else {
        let before = definition_nodes(tree, k - 1);
        if defines(tree.kind_of(tree.child(0, k - 1))) {
            before.push(tree.child(0, k - 1))
        } else {
            before
        }
    }
}

/// Whether `v` are the symbols read from the module parsed in `ctx`: one
/// for each class or function it defines at its top level, in order.
pub open spec fn module_symbols(ctx: ParserContext, v: Seq<Symbol>) -> bool {
    let defs = definition_nodes(*ctx.tree, ctx.tree.child_count(0));
    &&& ctx.tree.kind_of(0) == "module"@
    &&& v.len() == defs.len()
    &&& forall|i: int| 0 <= i < v.len() ==> definition_at(ctx, defs[i], #[trigger] v[i])
}

/// A definition read in one context is read alike in another that
/// agrees with it on the file, the context and the qualifying names.
proof fn lemma_definition_at_frame(c1: ParserContext, c0: ParserContext, node: int, s: Symbol)
    requires
        restored(c0, c1),
        definition_at(c1, node, s),
    ensures
        definition_at(c0, node, s),
{
    assert(views(c1.fqn_parts@) == views(c0.fqn_parts@));
    if c1.tree.kind_of(node) != "class_definition"@ {
        if let SymbolKind::Function(f) = s.kind {
            let ps = function_parameter_nodes(*c1.tree, node);
            let parts = views(c1.fqn_parts@);
            assert forall|i: int| 0 <= i < ps.len() implies parameter_in(
                c0,
                Some(SymbolContext::Parameter),
                parts.push(f.title@),
                ps[i],
                #[trigger] f.members@.take(ps.len() as int)[i],
            ) by {
                lemma_parameter_in_frame(c1, c0, Some(SymbolContext::Parameter), parts.push(f.title@), ps[i], f.members@.take(ps.len() as int)[i]);
            }
            if let Some(t) = declared_return(*c1.tree, node) {
                lemma_type_in_frame(c1, c0, Some(SymbolContext::ReturnType), parts, t, f.members@[ps.len() as int]);
            }
        }
    }
}

/// Adds to `out` the symbol the top-level statement at `node` defines: a
/// class or a function; other statements add nothing.
pub fn handle_node(node: usize, out: &mut Vec<Symbol>, ctx: &mut ParserContext) -> (r: Result<(), DossierError>)
    requires
        old(ctx).tree.wf(),
        node < old(ctx).tree.len(),
    ensures
        kept(*old(ctx), *final(ctx)),
        r is Ok ==> restored(*old(ctx), *final(ctx)),
        r is Ok ==> if defines(old(ctx).tree.kind_of(node as int)) {
            final(out)@.len() == old(out)@.len() + 1 && final(out)@.drop_last() == old(out)@
                && definition_at(*old(ctx), node as int, final(out)@.last())
        } else {
            final(out)@ == old(out)@
        },
        r is Ok <==> statement_ok(*old(ctx), node as int),
{
    proof {
        reveal_strlit("class_definition");
        reveal_strlit("function_definition");
    }
    let tree = ctx.tree;
    if tree.is_kind(node, "class_definition") {
        let s = parse_class(node, ctx)?;
        out.push(s);
        assert(out@.drop_last() =~= old(out)@);
    } else if tree.is_kind(node, "function_definition") {
        assert("class_definition"@.len() == 16);
        let s = parse_function(node, ctx)?;
        out.push(s);
        assert(out@.drop_last() =~= old(out)@);
    }
    Ok(())
}

/// A symbol a module defines at its top level: a class or a function,
/// with its fully qualified name.
pub open spec fn top_level(s: Symbol) -> bool {
    (s.kind is Class || s.kind is Function) && s.fqn is Some
}

/// Whether the module parsed in `ctx` reads: its root is a module, and
/// every statement in it reads.
pub open spec fn module_ok(ctx: ParserContext) -> bool {
    &&& ctx.tree.kind_of(0) == "module"@
    &&& forall|k: int| 0 <= k < ctx.tree.child_count(0) ==> statement_ok(ctx, #[trigger] ctx.tree.child(0, k))
}

/// The symbols a Python module defines at its top level, in order.
pub fn parse_file(ctx: ParserContext) -> (r: Result<Vec<Symbol>, DossierError>)
    requires
        ctx.tree.wf(),
    ensures
        r matches Ok(v) ==> module_symbols(ctx, v@),
        r matches Ok(v) ==> forall|i: int| 0 <= i < v@.len() ==> top_level(#[trigger] v@[i]) && v@[i].loc.file
            == ctx.file,
        ctx.tree.kind_of(0) != "module"@ ==> r is Err,
        r is Ok <==> module_ok(ctx),
{
    let ghost file = ctx.file;
    let ghost c0 = ctx;
    let mut cx = ctx;
    let tree = cx.tree;
    if !tree.is_kind(0, "module") {
        return Err(DossierError::UnexpectedSyntax(tree.kind(0).to_owned()));
    }
    let mut out: Vec<Symbol> = Vec::new();
    let n = tree.child_count_of(0);
    let mut k: usize = 0;
    while k < n
        invariant
            tree.wf(),
            cx.tree == tree,
            n == tree.child_count(0),
            k <= n,
            cx.file == file,
            c0 == ctx,
            c0.file == file,
            c0.tree == tree,
            restored(c0, cx),
            tree.kind_of(0) == "module"@,
            out@.len() == definition_nodes(*tree, k as int).len(),
            forall|i: int| 0 <= i < out@.len() ==> definition_at(c0, definition_nodes(*tree, k as int)[i], #[trigger] out@[i]),
            forall|i: int| 0 <= i < out@.len() ==> top_level(#[trigger] out@[i]) && out@[i].loc.file == file,
            forall|j: int| 0 <= j < k ==> statement_ok(c0, #[trigger] tree.child(0, j)),
        decreases n - k,
    {
        let c = tree.child_at(0, k);
        let ghost prev = out@;
        let ghost before = cx;
        match handle_node(c, &mut out, &mut cx) {
            Ok(()) => {},
            Err(e) => {
                proof {
                    assert(!statement_ok(c0, tree.child(0, k as int)));
                    assert(!module_ok(c0));
                }
                return Err(e);
            },
        }
        proof {
            if defines(tree.kind_of(c as int)) {
                lemma_definition_at_frame(before, c0, c as int, out@.last());
            }
            assert forall|i: int| 0 <= i < out@.len() implies definition_at(c0, definition_nodes(*tree, k + 1)[i], #[trigger] out@[i])
                && top_level(out@[i]) && out@[i].loc.file == file by {
                if out@.len() > prev.len() && i < prev.len() {
                    assert(out@[i] == out@.drop_last()[i]);
                }
            }
        }
        k += 1;
    }
    Ok(out)
}

/// Whether `v` are the symbols of the module `path` with the text `code`,
/// read from a syntax tree of it with no context and no qualifying names.
pub open spec fn module_read(path: Seq<char>, code: Seq<char>, v: Seq<Symbol>) -> bool {
    exists|ctx: ParserContext| {
        &&& ctx.file@ == path
        &&& ctx.code@ == code
        &&& ctx.tree.wf()
        &&& tree_reads(*ctx.tree, Grammar::Python, code)
        &&& module_ok(ctx)
        &&& ctx.symbol_context@.len() == 0
        &&& ctx.fqn_parts@.len() == 0
        &&& #[trigger] module_symbols(ctx, v)
    }
}

/// Whether reading the Python file `path` with the text `code` may fail
/// with `e`: the library does not accept the grammar's version, or a
/// syntax tree of the text does not parse.
pub open spec fn module_rejected(path: Seq<char>, code: Seq<char>, e: DossierError) -> bool {
    ||| !grammar_accepted(Grammar::Python)
    ||| exists|ctx: ParserContext| {
        &&& ctx.file@ == path
        &&& ctx.code@ == code
        &&& ctx.tree.wf()
        &&& tree_reads(*ctx.tree, Grammar::Python, code)
        &&& ctx.symbol_context@.len() == 0
        &&& ctx.fqn_parts@.len() == 0
        &&& !module_ok(ctx)
    }
}

/// Whether the Python file `path` with the text `code` is owed its
/// symbols: the library accepts the grammar's version, and the syntax tree
/// of the text parses, in whatever order its nodes are numbered.
pub open spec fn module_accepted(path: Seq<char>, code: Seq<char>) -> bool {
    &&& grammar_accepted(Grammar::Python)
    &&& forall|ctx: ParserContext|
        ctx.file@ == path && ctx.code@ == code && ctx.tree.wf() && tree_reads(*ctx.tree, Grammar::Python, code)
            && ctx.symbol_context@.len() == 0 && ctx.fqn_parts@.len() == 0 ==> #[trigger] module_ok(ctx)
}

/// The symbols of the Python file `path` with the text `code`.
pub fn parse_source(path: &str, code: &str) -> (r: Result<Vec<Symbol>, DossierError>)
    ensures
        r matches Ok(v) ==> module_read(path@, code@, v@),
        r matches Ok(v) ==> forall|i: int| 0 <= i < v@.len() ==> top_level(#[trigger] v@[i]) && v@[i].loc.file@
            == path@,
        r matches Err(e) ==> module_rejected(path@, code@, e),
        module_accepted(path@, code@) ==> r is Ok,
{
    let tree = match crate::syntax::python_syntax(code) {
        Ok(t) => t,
        Err(e) => return Err(e),
    };
    let ctx = ParserContext::new(path, code, &tree);
    let ghost c = ctx;
    let r = parse_file(ctx);
    proof {
        if r is Ok {
            assert(module_symbols(c, r->Ok_0@));
        }
    }
    r
}

} // verus!
