//! The TypeScript grammar, read off a syntax tree: types, and the
//! declarations that carry them.
use vstd::prelude::*;
use vstd::string::StringSliceAdditionalSpecFns;
use crate::common::DossierError;
use crate::syntax::SyntaxTree;
use crate::ts::accepts::{
    comment_readable, constraint_ok, docs_readable, method_ok, method_params_ok, param_ok, params_ok, property_ok,
    return_ok, type_ok, type_params_ok, type_var_ok,
};
use crate::text::str_eq;
use crate::ts::declarations::{comment_before, docs_of, opt_string, shown_docs};
use crate::ts::context::{
    lemma_context_push_pop_frame, lemma_fqn_push_pop_frame, lemma_frame_names, lemma_frame_place,
    lemma_made_at_in, lemma_names_frame, lemma_push_pop_frame, lemma_same_frame_names, lemma_same_frame_refl,
    lemma_same_frame_trans, lemma_unnamed_scope_place, made_at, made_in, place_of, qualifiers, same_frame,
    ParserContext, Place,
};
use crate::ts::helpers::process_comment;
use crate::ts::method::{Identifier, Method};
use crate::ts::parameter::Parameter;
use crate::ts::property::Property;
use crate::ts::symbol::{Source, Symbol, SymbolContext, SymbolKind};
use crate::ts::type_constraint::TypeConstraint;
use crate::ts::type_variable::TypeVariable;
use crate::ts::types::Type;

verus! {

broadcast use vstd::seq_lib::group_seq_properties;

/// The text of node `i` of the tree being parsed.
pub open spec fn text_at(ctx: ParserContext, i: int) -> Seq<char> {
    ctx.tree.text_of(ctx.code.spec_bytes(), i)
}

/// Which children of a type node hold its members.
pub enum Pick {
    /// The named children.
    Named,
    /// The named children but comments.
    NamedNotComment,
    /// The children but comments and the separator `sep`.
    Between(&'static str),
    /// The property and method signatures after the opening brace.
    Signatures,
    /// The constraints after the name of a type parameter.
    Constraints,
    /// The required and optional parameters.
    Parameters,
    /// The methods and fields of a class body.
    ClassMembers,
    /// The type parameters.
    TypeParameters,
}

/// Whether the child at position `pos` of `node` holds a member.
pub open spec fn picks(tree: SyntaxTree, node: int, pos: int, pick: Pick) -> bool {
    let c = tree.child(node, pos);
    match pick {
        Pick::Named => tree.nodes@[c].named,
        Pick::NamedNotComment => tree.nodes@[c].named && tree.kind_of(c) != "comment"@,
        Pick::Between(sep) => tree.kind_of(c) != sep@ && tree.kind_of(c) != "comment"@,
        Pick::Signatures => pos >= 1 && (tree.kind_of(c) == "property_signature"@ || tree.kind_of(c)
            == "method_signature"@),
        Pick::Constraints => pos >= 1 && tree.kind_of(c) == "constraint"@,
        Pick::Parameters => tree.kind_of(c) == "required_parameter"@ || tree.kind_of(c) == "optional_parameter"@,
        Pick::TypeParameters => tree.kind_of(c) == "type_parameter"@,
        Pick::ClassMembers => tree.kind_of(c) == "method_definition"@ || tree.kind_of(c) == "abstract_method_signature"@
            || tree.kind_of(c) == "public_field_definition"@,
    }
}

/// The children among the first `k` of `node` that hold members.
pub open spec fn picked(tree: SyntaxTree, node: int, k: int, pick: Pick) -> Seq<int>
    decreases k,
{
    if k <= 0 {
        Seq::empty()
    } else {
        let before = picked(tree, node, k - 1, pick);
        if picks(tree, node, k - 1, pick) {
            before.push(tree.child(node, k - 1))
        } else {
            before
        }
    }
}

/// Whether a child of `node` is one of its type arguments.
pub open spec fn is_type_argument(tree: SyntaxTree, c: int) -> bool {
    tree.nodes@[c].field matches Some(f) && f@ == "type_arguments"@
}

/// The types given as arguments among the first `k` children of `node`:
/// the second part of each.
pub open spec fn type_argument_nodes(tree: SyntaxTree, node: int, k: int) -> Seq<int>
    decreases k,
{
    if k <= 0 {
        Seq::empty()
    } else {
        let before = type_argument_nodes(tree, node, k - 1);
        let c = tree.child(node, k - 1);
        if is_type_argument(tree, c) {
            before.push(tree.child(c, 1))
        } else {
            before
        }
    }
}

/// The text of node `n` at `p`.
pub open spec fn text_of_at(p: Place, n: int) -> Seq<char> {
    p.tree.text_of(p.code.spec_bytes(), n)
}

/// Whether `child` is a later node of the tree than `node`.
pub open spec fn below(tree: SyntaxTree, node: int, child: int) -> bool {
    node < child < tree.nodes@.len()
}

/// Whether `ctx` reads at `p`: over its tree and code, in its scope, in
/// the context `c` and qualified by `parts`.
pub open spec fn reads_at(ctx: ParserContext, p: Place, parts: Seq<Seq<char>>, c: Option<SymbolContext>) -> bool {
    &&& place_of(ctx) == p
    &&& qualifiers(ctx) == parts
    &&& ctx.top_context() == c
}

/// Whether `s` is the type read from node `node` at `p`, in the context `c`
/// and qualified by `parts`: the variant the node's kind calls for, its
/// text where it keeps one, and its members, each read from the node the
/// grammar puts it at.
pub open spec fn type_in(p: Place, c: Option<SymbolContext>, parts: Seq<Seq<char>>, node: int, s: Symbol) -> bool
    decreases p.tree.nodes@.len() - node + 1, 1int,
{
    &&& 0 <= node < p.tree.nodes@.len()
    &&& made_in(p, c, parts, s, node)
    &&& match s.kind {
        SymbolKind::Type(t) => type_shape(p, c, parts, node, t),
        _ => false,
    }
}

/// Whether `t` is the type, apart from where it is made, read from node
/// `node` at `p`, in the context `c` and qualified by `parts`.
pub open spec fn type_shape(p: Place, c: Option<SymbolContext>, parts: Seq<Seq<char>>, node: int, t: Type) -> bool
    decreases p.tree.nodes@.len() - node + 1, 0int,
{
    let tree = *p.tree;
    let k = tree.kind_of(node);
    if !(0 <= node < tree.nodes@.len()) {
        false
    } else if k == "this_type"@ {
            t is This
        } else if k == "rest_type"@ {
        &&& t matches Type::Rest { members: v }
        &&& v@.len() == 1
        &&& tree.child_count(node) > 1
        &&& below(tree, node, tree.child(node, 1))
        &&& type_in(p, c, parts, tree.child(node, 1), v@[0])
    } else if k == "infer_type"@ {
        &&& t matches Type::Infer(v)
        &&& v@.len() == 1
        &&& tree.child_count(node) > 1
        &&& below(tree, node, tree.child(node, 1))
        &&& type_in(p, c, parts, tree.child(node, 1), v@[0])
    } else if k == "readonly_type"@ {
        &&& t matches Type::ReadOnly(v)
        &&& v@.len() == 1
        &&& tree.child_count(node) > 1
        &&& below(tree, node, tree.child(node, 1))
        &&& type_in(p, c, parts, tree.child(node, 1), v@[0])
    } else if k == "index_type_query"@ {
        &&& t matches Type::KeyOf(v)
        &&& v@.len() == 1
        &&& tree.child_count(node) > 1
        &&& below(tree, node, tree.child(node, 1))
        &&& type_in(p, c, parts, tree.child(node, 1), v@[0])
    } else if k == "parenthesized_type"@ {
        &&& t matches Type::Parenthesized(v)
        &&& v@.len() == 1
        &&& tree.child_count(node) > 1
        &&& below(tree, node, tree.child(node, 1))
        &&& type_in(p, c, parts, tree.child(node, 1), v@[0])
    } else if k == "array_type"@ {
        &&& t matches Type::Array { members: v }
        &&& v@.len() == 1
        &&& tree.child_count(node) > 0
        &&& below(tree, node, tree.child(node, 0))
        &&& type_in(p, c, parts, tree.child(node, 0), v@[0])
    } else if k == "lookup_type"@ {
            &&& t matches Type::Lookup(v)
            &&& v@.len() == 2
            &&& tree.child_count(node) > 2
            &&& below(tree, node, tree.child(node, 0))
            &&& below(tree, node, tree.child(node, 2))
            &&& type_in(p, c, parts, tree.child(node, 0), v@[0])
            &&& type_in(p, c, parts, tree.child(node, 2), v@[1])
        } else if k == "tuple_type"@ {
            t matches Type::Tuple { members } && types_in(
                p,
                c,
                parts,
                node,
                picked(tree, node, tree.child_count(node), Pick::Named),
                members@,
            )
        } else if k == "conditional_type"@ {
            t matches Type::Conditional { members } && types_in(
                p,
                c,
                parts,
                node,
                picked(tree, node, tree.child_count(node), Pick::NamedNotComment),
                members@,
            )
        } else if k == "union_type"@ {
            t matches Type::Union { members } && types_in(
                p,
                c,
                parts,
                node,
                picked(tree, node, tree.child_count(node), Pick::Between("|")),
                members@,
            )
        } else if k == "intersection_type"@ {
            t matches Type::Intersection { members } && types_in(
                p,
                c,
                parts,
                node,
                picked(tree, node, tree.child_count(node), Pick::Between("&")),
                members@,
            )
        } else if k == "generic_type"@ {
            &&& t matches Type::GenericType { identifier, members }
            &&& tree.field_child(node, "name"@) matches Some(n)
            &&& identifier@ == text_of_at(p, n)
            &&& types_in(
                p,
                c,
                parts.push(identifier@),
                node,
                type_argument_nodes(tree, node, tree.child_count(node)),
                members@,
            )
        } else if k == "function_type"@ {
            &&& t matches Type::Function { members }
            &&& match tree.field_child(node, "return_type"@) {
                Some(r) => {
                    &&& members@.len() >= 1
                    &&& below(tree, node, r)
                    &&& type_in(p, Some(SymbolContext::ReturnType), parts, r, members@.last())
                    &&& forall|i: int| 0 <= i < members@.len() - 1 ==> (#[trigger] members@[i]).context
                        == Some(SymbolContext::Parameter)
                },
                None => forall|i: int| 0 <= i < members@.len() ==> (#[trigger] members@[i]).context == Some(
                    SymbolContext::Parameter,
                ),
            }
            &&& exists|ctx: ParserContext| #[trigger] reads_at(ctx, p, parts, c) && {
                let ps = tree.field_child(node, "parameters"@);
                let np = match ps {
                    Some(q) => picked(tree, q, tree.child_count(q), Pick::Parameters).len(),
                    None => 0,
                };
                let nr: int = if tree.field_child(node, "return_type"@) is Some {
                    1
                } else {
                    0
                };
                &&& members@.len() == np + nr
                &&& (ps matches Some(q) ==> below(tree, node, q) && parameters_read(
                    ctx,
                    q,
                    Some(SymbolContext::Parameter),
                    members@.take(np as int),
                ))
            }
        } else if k == "constructor_type"@ {
            &&& t matches Type::Constructor { members }
            &&& exists|ctx: ParserContext| #[trigger] reads_at(ctx, p, parts, c) && {
                let tp = tree.field_child(node, "type_parameters"@);
                let ps = tree.field_child(node, "parameters"@);
                let ntv = match tp {
                    Some(x) => picked(tree, x, tree.child_count(x), Pick::TypeParameters).len(),
                    None => 0,
                };
                let np = match ps {
                    Some(q) => picked(tree, q, tree.child_count(q), Pick::Parameters).len(),
                    None => 0,
                };
                &&& members@.len() == ntv + np
                &&& (tp matches Some(x) ==> type_variables_read(ctx, x, members@.take(ntv as int)))
                &&& (ps matches Some(q) ==> below(tree, node, q) && parameters_read(
                    ctx,
                    q,
                    c,
                    members@.subrange(ntv as int, (ntv + np) as int),
                ))
            }
        } else if k == "template_literal_type"@ {
            t matches Type::TemplateLiteral(x) && x@ == text_of_at(p, node)
        } else if k == "literal_type"@ {
            t matches Type::Literal(x) && tree.child_count(node) > 0 && x@ == text_of_at(p, tree.child(node, 0))
        } else if k == "type_query"@ {
            t matches Type::TypeOf(x) && tree.child_count(node) > 1 && x@ == text_of_at(p, tree.child(node, 1))
        } else if k == "predefined_type"@ {
            t matches Type::Predefined(x) && x@ == text_of_at(p, node)
        } else if k == "type_identifier"@ {
            t matches Type::Identifier(x, None) && x@ == text_of_at(p, node)
        } else if k == "object_type"@ || k == "interface_body"@ {
            &&& t matches Type::Object { raw_string, properties }
            &&& raw_string@ == text_of_at(p, node)
            &&& signatures_in(
                p,
                parts,
                node,
                picked(tree, node, tree.child_count(node), Pick::Signatures),
                properties@,
            )
        } else {
            false
        }
}

/// The variant of a type read from a node is the one the node's grammar
/// kind names: `union_type` reads as a union, `predefined_type` as a
/// predefined type holding the node's text, `type_identifier` as a type
/// named by the node's text and not yet resolved, and so on for each kind.
pub proof fn law_type_variant_follows_node_kind(p: Place, c: Option<SymbolContext>, parts: Seq<Seq<char>>, node: int, t: Type)
    requires
        type_shape(p, c, parts, node, t),
    ensures
        ({
            let k = p.tree.kind_of(node);
            match t {
                Type::This => k == "this_type"@,
                Type::Rest { .. } => k == "rest_type"@,
                Type::Infer(_) => k == "infer_type"@,
                Type::ReadOnly(_) => k == "readonly_type"@,
                Type::KeyOf(_) => k == "index_type_query"@,
                Type::Parenthesized(_) => k == "parenthesized_type"@,
                Type::Array { .. } => k == "array_type"@,
                Type::Lookup(_) => k == "lookup_type"@,
                Type::Tuple { .. } => k == "tuple_type"@,
                Type::Conditional { .. } => k == "conditional_type"@,
                Type::Union { .. } => k == "union_type"@,
                Type::Intersection { .. } => k == "intersection_type"@,
                Type::GenericType { .. } => k == "generic_type"@,
                Type::Function { .. } => k == "function_type"@,
                Type::Constructor { .. } => k == "constructor_type"@,
                Type::TemplateLiteral(x) => k == "template_literal_type"@ && x@ == text_of_at(p, node),
                Type::Literal(_) => k == "literal_type"@,
                Type::TypeOf(_) => k == "type_query"@,
                Type::Predefined(x) => k == "predefined_type"@ && x@ == text_of_at(p, node),
                Type::Identifier(x, r) => k == "type_identifier"@ && r is None && x@ == text_of_at(p, node),
                Type::Object { raw_string, .. } => (k == "object_type"@ || k == "interface_body"@) && raw_string@
                    == text_of_at(p, node),
            }
        }),
{
}

/// The kinds the type parser tells apart are different kinds.
proof fn lemma_type_kinds()
    ensures
        "array_type"@ != "conditional_type"@,
        "array_type"@ != "constructor_type"@,
        "array_type"@ != "function_type"@,
        "array_type"@ != "generic_type"@,
        "array_type"@ != "index_type_query"@,
        "array_type"@ != "infer_type"@,
        "array_type"@ != "interface_body"@,
        "array_type"@ != "intersection_type"@,
        "array_type"@ != "literal_type"@,
        "array_type"@ != "lookup_type"@,
        "array_type"@ != "object_type"@,
        "array_type"@ != "parenthesized_type"@,
        "array_type"@ != "predefined_type"@,
        "array_type"@ != "readonly_type"@,
        "array_type"@ != "rest_type"@,
        "array_type"@ != "template_literal_type"@,
        "array_type"@ != "this_type"@,
        "array_type"@ != "tuple_type"@,
        "array_type"@ != "type_identifier"@,
        "array_type"@ != "type_query"@,
        "array_type"@ != "union_type"@,
        "conditional_type"@ != "constructor_type"@,
        "conditional_type"@ != "function_type"@,
        "conditional_type"@ != "generic_type"@,
        "conditional_type"@ != "index_type_query"@,
        "conditional_type"@ != "infer_type"@,
        "conditional_type"@ != "interface_body"@,
        "conditional_type"@ != "intersection_type"@,
        "conditional_type"@ != "literal_type"@,
        "conditional_type"@ != "lookup_type"@,
        "conditional_type"@ != "object_type"@,
        "conditional_type"@ != "parenthesized_type"@,
        "conditional_type"@ != "predefined_type"@,
        "conditional_type"@ != "readonly_type"@,
        "conditional_type"@ != "rest_type"@,
        "conditional_type"@ != "template_literal_type"@,
        "conditional_type"@ != "this_type"@,
        "conditional_type"@ != "tuple_type"@,
        "conditional_type"@ != "type_identifier"@,
        "conditional_type"@ != "type_query"@,
        "conditional_type"@ != "union_type"@,
        "constructor_type"@ != "function_type"@,
        "constructor_type"@ != "generic_type"@,
        "constructor_type"@ != "index_type_query"@,
        "constructor_type"@ != "infer_type"@,
        "constructor_type"@ != "interface_body"@,
        "constructor_type"@ != "intersection_type"@,
        "constructor_type"@ != "literal_type"@,
        "constructor_type"@ != "lookup_type"@,
        "constructor_type"@ != "object_type"@,
        "constructor_type"@ != "parenthesized_type"@,
        "constructor_type"@ != "predefined_type"@,
        "constructor_type"@ != "readonly_type"@,
        "constructor_type"@ != "rest_type"@,
        "constructor_type"@ != "template_literal_type"@,
        "constructor_type"@ != "this_type"@,
        "constructor_type"@ != "tuple_type"@,
        "constructor_type"@ != "type_identifier"@,
        "constructor_type"@ != "type_query"@,
        "constructor_type"@ != "union_type"@,
        "function_type"@ != "generic_type"@,
        "function_type"@ != "index_type_query"@,
        "function_type"@ != "infer_type"@,
        "function_type"@ != "interface_body"@,
        "function_type"@ != "intersection_type"@,
        "function_type"@ != "literal_type"@,
        "function_type"@ != "lookup_type"@,
        "function_type"@ != "object_type"@,
        "function_type"@ != "parenthesized_type"@,
        "function_type"@ != "predefined_type"@,
        "function_type"@ != "readonly_type"@,
        "function_type"@ != "rest_type"@,
        "function_type"@ != "template_literal_type"@,
        "function_type"@ != "this_type"@,
        "function_type"@ != "tuple_type"@,
        "function_type"@ != "type_identifier"@,
        "function_type"@ != "type_query"@,
        "function_type"@ != "union_type"@,
        "generic_type"@ != "index_type_query"@,
        "generic_type"@ != "infer_type"@,
        "generic_type"@ != "interface_body"@,
        "generic_type"@ != "intersection_type"@,
        "generic_type"@ != "literal_type"@,
        "generic_type"@ != "lookup_type"@,
        "generic_type"@ != "object_type"@,
        "generic_type"@ != "parenthesized_type"@,
        "generic_type"@ != "predefined_type"@,
        "generic_type"@ != "readonly_type"@,
        "generic_type"@ != "rest_type"@,
        "generic_type"@ != "template_literal_type"@,
        "generic_type"@ != "this_type"@,
        "generic_type"@ != "tuple_type"@,
        "generic_type"@ != "type_identifier"@,
        "generic_type"@ != "type_query"@,
        "generic_type"@ != "union_type"@,
        "index_type_query"@ != "infer_type"@,
        "index_type_query"@ != "interface_body"@,
        "index_type_query"@ != "intersection_type"@,
        "index_type_query"@ != "literal_type"@,
        "index_type_query"@ != "lookup_type"@,
        "index_type_query"@ != "object_type"@,
        "index_type_query"@ != "parenthesized_type"@,
        "index_type_query"@ != "predefined_type"@,
        "index_type_query"@ != "readonly_type"@,
        "index_type_query"@ != "rest_type"@,
        "index_type_query"@ != "template_literal_type"@,
        "index_type_query"@ != "this_type"@,
        "index_type_query"@ != "tuple_type"@,
        "index_type_query"@ != "type_identifier"@,
        "index_type_query"@ != "type_query"@,
        "index_type_query"@ != "union_type"@,
        "infer_type"@ != "interface_body"@,
        "infer_type"@ != "intersection_type"@,
        "infer_type"@ != "literal_type"@,
        "infer_type"@ != "lookup_type"@,
        "infer_type"@ != "object_type"@,
        "infer_type"@ != "parenthesized_type"@,
        "infer_type"@ != "predefined_type"@,
        "infer_type"@ != "readonly_type"@,
        "infer_type"@ != "rest_type"@,
        "infer_type"@ != "template_literal_type"@,
        "infer_type"@ != "this_type"@,
        "infer_type"@ != "tuple_type"@,
        "infer_type"@ != "type_identifier"@,
        "infer_type"@ != "type_query"@,
        "infer_type"@ != "union_type"@,
        "interface_body"@ != "intersection_type"@,
        "interface_body"@ != "literal_type"@,
        "interface_body"@ != "lookup_type"@,
        "interface_body"@ != "object_type"@,
        "interface_body"@ != "parenthesized_type"@,
        "interface_body"@ != "predefined_type"@,
        "interface_body"@ != "readonly_type"@,
        "interface_body"@ != "rest_type"@,
        "interface_body"@ != "template_literal_type"@,
        "interface_body"@ != "this_type"@,
        "interface_body"@ != "tuple_type"@,
        "interface_body"@ != "type_identifier"@,
        "interface_body"@ != "type_query"@,
        "interface_body"@ != "union_type"@,
        "intersection_type"@ != "literal_type"@,
        "intersection_type"@ != "lookup_type"@,
        "intersection_type"@ != "object_type"@,
        "intersection_type"@ != "parenthesized_type"@,
        "intersection_type"@ != "predefined_type"@,
        "intersection_type"@ != "readonly_type"@,
        "intersection_type"@ != "rest_type"@,
        "intersection_type"@ != "template_literal_type"@,
        "intersection_type"@ != "this_type"@,
        "intersection_type"@ != "tuple_type"@,
        "intersection_type"@ != "type_identifier"@,
        "intersection_type"@ != "type_query"@,
        "intersection_type"@ != "union_type"@,
        "literal_type"@ != "lookup_type"@,
        "literal_type"@ != "object_type"@,
        "literal_type"@ != "parenthesized_type"@,
        "literal_type"@ != "predefined_type"@,
        "literal_type"@ != "readonly_type"@,
        "literal_type"@ != "rest_type"@,
        "literal_type"@ != "template_literal_type"@,
        "literal_type"@ != "this_type"@,
        "literal_type"@ != "tuple_type"@,
        "literal_type"@ != "type_identifier"@,
        "literal_type"@ != "type_query"@,
        "literal_type"@ != "union_type"@,
        "lookup_type"@ != "object_type"@,
        "lookup_type"@ != "parenthesized_type"@,
        "lookup_type"@ != "predefined_type"@,
        "lookup_type"@ != "readonly_type"@,
        "lookup_type"@ != "rest_type"@,
        "lookup_type"@ != "template_literal_type"@,
        "lookup_type"@ != "this_type"@,
        "lookup_type"@ != "tuple_type"@,
        "lookup_type"@ != "type_identifier"@,
        "lookup_type"@ != "type_query"@,
        "lookup_type"@ != "union_type"@,
        "object_type"@ != "parenthesized_type"@,
        "object_type"@ != "predefined_type"@,
        "object_type"@ != "readonly_type"@,
        "object_type"@ != "rest_type"@,
        "object_type"@ != "template_literal_type"@,
        "object_type"@ != "this_type"@,
        "object_type"@ != "tuple_type"@,
        "object_type"@ != "type_identifier"@,
        "object_type"@ != "type_query"@,
        "object_type"@ != "union_type"@,
        "parenthesized_type"@ != "predefined_type"@,
        "parenthesized_type"@ != "readonly_type"@,
        "parenthesized_type"@ != "rest_type"@,
        "parenthesized_type"@ != "template_literal_type"@,
        "parenthesized_type"@ != "this_type"@,
        "parenthesized_type"@ != "tuple_type"@,
        "parenthesized_type"@ != "type_identifier"@,
        "parenthesized_type"@ != "type_query"@,
        "parenthesized_type"@ != "union_type"@,
        "predefined_type"@ != "readonly_type"@,
        "predefined_type"@ != "rest_type"@,
        "predefined_type"@ != "template_literal_type"@,
        "predefined_type"@ != "this_type"@,
        "predefined_type"@ != "tuple_type"@,
        "predefined_type"@ != "type_identifier"@,
        "predefined_type"@ != "type_query"@,
        "predefined_type"@ != "union_type"@,
        "readonly_type"@ != "rest_type"@,
        "readonly_type"@ != "template_literal_type"@,
        "readonly_type"@ != "this_type"@,
        "readonly_type"@ != "tuple_type"@,
        "readonly_type"@ != "type_identifier"@,
        "readonly_type"@ != "type_query"@,
        "readonly_type"@ != "union_type"@,
        "rest_type"@ != "template_literal_type"@,
        "rest_type"@ != "this_type"@,
        "rest_type"@ != "tuple_type"@,
        "rest_type"@ != "type_identifier"@,
        "rest_type"@ != "type_query"@,
        "rest_type"@ != "union_type"@,
        "template_literal_type"@ != "this_type"@,
        "template_literal_type"@ != "tuple_type"@,
        "template_literal_type"@ != "type_identifier"@,
        "template_literal_type"@ != "type_query"@,
        "template_literal_type"@ != "union_type"@,
        "this_type"@ != "tuple_type"@,
        "this_type"@ != "type_identifier"@,
        "this_type"@ != "type_query"@,
        "this_type"@ != "union_type"@,
        "tuple_type"@ != "type_identifier"@,
        "tuple_type"@ != "type_query"@,
        "tuple_type"@ != "union_type"@,
        "type_identifier"@ != "type_query"@,
        "type_identifier"@ != "union_type"@,
        "type_query"@ != "union_type"@,
{
    reveal_strlit("array_type");
    reveal_strlit("conditional_type");
    reveal_strlit("constructor_type");
    reveal_strlit("function_type");
    reveal_strlit("generic_type");
    reveal_strlit("index_type_query");
    reveal_strlit("infer_type");
    reveal_strlit("interface_body");
    reveal_strlit("intersection_type");
    reveal_strlit("literal_type");
    reveal_strlit("lookup_type");
    reveal_strlit("object_type");
    reveal_strlit("parenthesized_type");
    reveal_strlit("predefined_type");
    reveal_strlit("readonly_type");
    reveal_strlit("rest_type");
    reveal_strlit("template_literal_type");
    reveal_strlit("this_type");
    reveal_strlit("tuple_type");
    reveal_strlit("type_identifier");
    reveal_strlit("type_query");
    reveal_strlit("union_type");
    assert("array_type"@[0] != "conditional_type"@[0]);
    assert("array_type"@[0] != "constructor_type"@[0]);
    assert("array_type"@[0] != "function_type"@[0]);
    assert("array_type"@[0] != "generic_type"@[0]);
    assert("array_type"@[0] != "index_type_query"@[0]);
    assert("array_type"@[0] != "infer_type"@[0]);
    assert("array_type"@[0] != "interface_body"@[0]);
    assert("array_type"@[0] != "intersection_type"@[0]);
    assert("array_type"@[0] != "literal_type"@[0]);
    assert("array_type"@[0] != "lookup_type"@[0]);
    assert("array_type"@[0] != "object_type"@[0]);
    assert("array_type"@[0] != "parenthesized_type"@[0]);
    assert("array_type"@[0] != "predefined_type"@[0]);
    assert("array_type"@[0] != "readonly_type"@[0]);
    assert("array_type"@[0] != "rest_type"@[0]);
    assert("array_type"@[0] != "template_literal_type"@[0]);
    assert("array_type"@[0] != "this_type"@[0]);
    assert("array_type"@[0] != "tuple_type"@[0]);
    assert("array_type"@[0] != "type_identifier"@[0]);
    assert("array_type"@[0] != "type_query"@[0]);
    assert("array_type"@[0] != "union_type"@[0]);
    assert("conditional_type"@[3] != "constructor_type"@[3]);
    assert("conditional_type"@[0] != "function_type"@[0]);
    assert("conditional_type"@[0] != "generic_type"@[0]);
    assert("conditional_type"@[0] != "index_type_query"@[0]);
    assert("conditional_type"@[0] != "infer_type"@[0]);
    assert("conditional_type"@[0] != "interface_body"@[0]);
    assert("conditional_type"@[0] != "intersection_type"@[0]);
    assert("conditional_type"@[0] != "literal_type"@[0]);
    assert("conditional_type"@[0] != "lookup_type"@[0]);
    assert("conditional_type"@[0] != "object_type"@[0]);
    assert("conditional_type"@[0] != "parenthesized_type"@[0]);
    assert("conditional_type"@[0] != "predefined_type"@[0]);
    assert("conditional_type"@[0] != "readonly_type"@[0]);
    assert("conditional_type"@[0] != "rest_type"@[0]);
    assert("conditional_type"@[0] != "template_literal_type"@[0]);
    assert("conditional_type"@[0] != "this_type"@[0]);
    assert("conditional_type"@[0] != "tuple_type"@[0]);
    assert("conditional_type"@[0] != "type_identifier"@[0]);
    assert("conditional_type"@[0] != "type_query"@[0]);
    assert("conditional_type"@[0] != "union_type"@[0]);
    assert("constructor_type"@[0] != "function_type"@[0]);
    assert("constructor_type"@[0] != "generic_type"@[0]);
    assert("constructor_type"@[0] != "index_type_query"@[0]);
    assert("constructor_type"@[0] != "infer_type"@[0]);
    assert("constructor_type"@[0] != "interface_body"@[0]);
    assert("constructor_type"@[0] != "intersection_type"@[0]);
    assert("constructor_type"@[0] != "literal_type"@[0]);
    assert("constructor_type"@[0] != "lookup_type"@[0]);
    assert("constructor_type"@[0] != "object_type"@[0]);
    assert("constructor_type"@[0] != "parenthesized_type"@[0]);
    assert("constructor_type"@[0] != "predefined_type"@[0]);
    assert("constructor_type"@[0] != "readonly_type"@[0]);
    assert("constructor_type"@[0] != "rest_type"@[0]);
    assert("constructor_type"@[0] != "template_literal_type"@[0]);
    assert("constructor_type"@[0] != "this_type"@[0]);
    assert("constructor_type"@[0] != "tuple_type"@[0]);
    assert("constructor_type"@[0] != "type_identifier"@[0]);
    assert("constructor_type"@[0] != "type_query"@[0]);
    assert("constructor_type"@[0] != "union_type"@[0]);
    assert("function_type"@[0] != "generic_type"@[0]);
    assert("function_type"@[0] != "index_type_query"@[0]);
    assert("function_type"@[0] != "infer_type"@[0]);
    assert("function_type"@[0] != "interface_body"@[0]);
    assert("function_type"@[0] != "intersection_type"@[0]);
    assert("function_type"@[0] != "literal_type"@[0]);
    assert("function_type"@[0] != "lookup_type"@[0]);
    assert("function_type"@[0] != "object_type"@[0]);
    assert("function_type"@[0] != "parenthesized_type"@[0]);
    assert("function_type"@[0] != "predefined_type"@[0]);
    assert("function_type"@[0] != "readonly_type"@[0]);
    assert("function_type"@[0] != "rest_type"@[0]);
    assert("function_type"@[0] != "template_literal_type"@[0]);
    assert("function_type"@[0] != "this_type"@[0]);
    assert("function_type"@[0] != "tuple_type"@[0]);
    assert("function_type"@[0] != "type_identifier"@[0]);
    assert("function_type"@[0] != "type_query"@[0]);
    assert("function_type"@[0] != "union_type"@[0]);
    assert("generic_type"@[0] != "index_type_query"@[0]);
    assert("generic_type"@[0] != "infer_type"@[0]);
    assert("generic_type"@[0] != "interface_body"@[0]);
    assert("generic_type"@[0] != "intersection_type"@[0]);
    assert("generic_type"@[0] != "literal_type"@[0]);
    assert("generic_type"@[0] != "lookup_type"@[0]);
    assert("generic_type"@[0] != "object_type"@[0]);
    assert("generic_type"@[0] != "parenthesized_type"@[0]);
    assert("generic_type"@[0] != "predefined_type"@[0]);
    assert("generic_type"@[0] != "readonly_type"@[0]);
    assert("generic_type"@[0] != "rest_type"@[0]);
    assert("generic_type"@[0] != "template_literal_type"@[0]);
    assert("generic_type"@[0] != "this_type"@[0]);
    assert("generic_type"@[0] != "tuple_type"@[0]);
    assert("generic_type"@[0] != "type_identifier"@[0]);
    assert("generic_type"@[0] != "type_query"@[0]);
    assert("generic_type"@[0] != "union_type"@[0]);
    assert("index_type_query"@[2] != "infer_type"@[2]);
    assert("index_type_query"@[2] != "interface_body"@[2]);
    assert("index_type_query"@[2] != "intersection_type"@[2]);
    assert("index_type_query"@[0] != "literal_type"@[0]);
    assert("index_type_query"@[0] != "lookup_type"@[0]);
    assert("index_type_query"@[0] != "object_type"@[0]);
    assert("index_type_query"@[0] != "parenthesized_type"@[0]);
    assert("index_type_query"@[0] != "predefined_type"@[0]);
    assert("index_type_query"@[0] != "readonly_type"@[0]);
    assert("index_type_query"@[0] != "rest_type"@[0]);
    assert("index_type_query"@[0] != "template_literal_type"@[0]);
    assert("index_type_query"@[0] != "this_type"@[0]);
    assert("index_type_query"@[0] != "tuple_type"@[0]);
    assert("index_type_query"@[0] != "type_identifier"@[0]);
    assert("index_type_query"@[0] != "type_query"@[0]);
    assert("index_type_query"@[0] != "union_type"@[0]);
    assert("infer_type"@[2] != "interface_body"@[2]);
    assert("infer_type"@[2] != "intersection_type"@[2]);
    assert("infer_type"@[0] != "literal_type"@[0]);
    assert("infer_type"@[0] != "lookup_type"@[0]);
    assert("infer_type"@[0] != "object_type"@[0]);
    assert("infer_type"@[0] != "parenthesized_type"@[0]);
    assert("infer_type"@[0] != "predefined_type"@[0]);
    assert("infer_type"@[0] != "readonly_type"@[0]);
    assert("infer_type"@[0] != "rest_type"@[0]);
    assert("infer_type"@[0] != "template_literal_type"@[0]);
    assert("infer_type"@[0] != "this_type"@[0]);
    assert("infer_type"@[0] != "tuple_type"@[0]);
    assert("infer_type"@[0] != "type_identifier"@[0]);
    assert("infer_type"@[0] != "type_query"@[0]);
    assert("infer_type"@[0] != "union_type"@[0]);
    assert("interface_body"@[5] != "intersection_type"@[5]);
    assert("interface_body"@[0] != "literal_type"@[0]);
    assert("interface_body"@[0] != "lookup_type"@[0]);
    assert("interface_body"@[0] != "object_type"@[0]);
    assert("interface_body"@[0] != "parenthesized_type"@[0]);
    assert("interface_body"@[0] != "predefined_type"@[0]);
    assert("interface_body"@[0] != "readonly_type"@[0]);
    assert("interface_body"@[0] != "rest_type"@[0]);
    assert("interface_body"@[0] != "template_literal_type"@[0]);
    assert("interface_body"@[0] != "this_type"@[0]);
    assert("interface_body"@[0] != "tuple_type"@[0]);
    assert("interface_body"@[0] != "type_identifier"@[0]);
    assert("interface_body"@[0] != "type_query"@[0]);
    assert("interface_body"@[0] != "union_type"@[0]);
    assert("intersection_type"@[0] != "literal_type"@[0]);
    assert("intersection_type"@[0] != "lookup_type"@[0]);
    assert("intersection_type"@[0] != "object_type"@[0]);
    assert("intersection_type"@[0] != "parenthesized_type"@[0]);
    assert("intersection_type"@[0] != "predefined_type"@[0]);
    assert("intersection_type"@[0] != "readonly_type"@[0]);
    assert("intersection_type"@[0] != "rest_type"@[0]);
    assert("intersection_type"@[0] != "template_literal_type"@[0]);
    assert("intersection_type"@[0] != "this_type"@[0]);
    assert("intersection_type"@[0] != "tuple_type"@[0]);
    assert("intersection_type"@[0] != "type_identifier"@[0]);
    assert("intersection_type"@[0] != "type_query"@[0]);
    assert("intersection_type"@[0] != "union_type"@[0]);
    assert("literal_type"@[1] != "lookup_type"@[1]);
    assert("literal_type"@[0] != "object_type"@[0]);
    assert("literal_type"@[0] != "parenthesized_type"@[0]);
    assert("literal_type"@[0] != "predefined_type"@[0]);
    assert("literal_type"@[0] != "readonly_type"@[0]);
    assert("literal_type"@[0] != "rest_type"@[0]);
    assert("literal_type"@[0] != "template_literal_type"@[0]);
    assert("literal_type"@[0] != "this_type"@[0]);
    assert("literal_type"@[0] != "tuple_type"@[0]);
    assert("literal_type"@[0] != "type_identifier"@[0]);
    assert("literal_type"@[0] != "type_query"@[0]);
    assert("literal_type"@[0] != "union_type"@[0]);
    assert("lookup_type"@[0] != "object_type"@[0]);
    assert("lookup_type"@[0] != "parenthesized_type"@[0]);
    assert("lookup_type"@[0] != "predefined_type"@[0]);
    assert("lookup_type"@[0] != "readonly_type"@[0]);
    assert("lookup_type"@[0] != "rest_type"@[0]);
    assert("lookup_type"@[0] != "template_literal_type"@[0]);
    assert("lookup_type"@[0] != "this_type"@[0]);
    assert("lookup_type"@[0] != "tuple_type"@[0]);
    assert("lookup_type"@[0] != "type_identifier"@[0]);
    assert("lookup_type"@[0] != "type_query"@[0]);
    assert("lookup_type"@[0] != "union_type"@[0]);
    assert("object_type"@[0] != "parenthesized_type"@[0]);
    assert("object_type"@[0] != "predefined_type"@[0]);
    assert("object_type"@[0] != "readonly_type"@[0]);
    assert("object_type"@[0] != "rest_type"@[0]);
    assert("object_type"@[0] != "template_literal_type"@[0]);
    assert("object_type"@[0] != "this_type"@[0]);
    assert("object_type"@[0] != "tuple_type"@[0]);
    assert("object_type"@[0] != "type_identifier"@[0]);
    assert("object_type"@[0] != "type_query"@[0]);
    assert("object_type"@[0] != "union_type"@[0]);
    assert("parenthesized_type"@[1] != "predefined_type"@[1]);
    assert("parenthesized_type"@[0] != "readonly_type"@[0]);
    assert("parenthesized_type"@[0] != "rest_type"@[0]);
    assert("parenthesized_type"@[0] != "template_literal_type"@[0]);
    assert("parenthesized_type"@[0] != "this_type"@[0]);
    assert("parenthesized_type"@[0] != "tuple_type"@[0]);
    assert("parenthesized_type"@[0] != "type_identifier"@[0]);
    assert("parenthesized_type"@[0] != "type_query"@[0]);
    assert("parenthesized_type"@[0] != "union_type"@[0]);
    assert("predefined_type"@[0] != "readonly_type"@[0]);
    assert("predefined_type"@[0] != "rest_type"@[0]);
    assert("predefined_type"@[0] != "template_literal_type"@[0]);
    assert("predefined_type"@[0] != "this_type"@[0]);
    assert("predefined_type"@[0] != "tuple_type"@[0]);
    assert("predefined_type"@[0] != "type_identifier"@[0]);
    assert("predefined_type"@[0] != "type_query"@[0]);
    assert("predefined_type"@[0] != "union_type"@[0]);
    assert("readonly_type"@[2] != "rest_type"@[2]);
    assert("readonly_type"@[0] != "template_literal_type"@[0]);
    assert("readonly_type"@[0] != "this_type"@[0]);
    assert("readonly_type"@[0] != "tuple_type"@[0]);
    assert("readonly_type"@[0] != "type_identifier"@[0]);
    assert("readonly_type"@[0] != "type_query"@[0]);
    assert("readonly_type"@[0] != "union_type"@[0]);
    assert("rest_type"@[0] != "template_literal_type"@[0]);
    assert("rest_type"@[0] != "this_type"@[0]);
    assert("rest_type"@[0] != "tuple_type"@[0]);
    assert("rest_type"@[0] != "type_identifier"@[0]);
    assert("rest_type"@[0] != "type_query"@[0]);
    assert("rest_type"@[0] != "union_type"@[0]);
    assert("template_literal_type"@[1] != "this_type"@[1]);
    assert("template_literal_type"@[1] != "tuple_type"@[1]);
    assert("template_literal_type"@[1] != "type_identifier"@[1]);
    assert("template_literal_type"@[1] != "type_query"@[1]);
    assert("template_literal_type"@[0] != "union_type"@[0]);
    assert("this_type"@[1] != "tuple_type"@[1]);
    assert("this_type"@[1] != "type_identifier"@[1]);
    assert("this_type"@[1] != "type_query"@[1]);
    assert("this_type"@[0] != "union_type"@[0]);
    assert("tuple_type"@[1] != "type_identifier"@[1]);
    assert("tuple_type"@[1] != "type_query"@[1]);
    assert("tuple_type"@[0] != "union_type"@[0]);
    assert("type_identifier"@[5] != "type_query"@[5]);
    assert("type_identifier"@[0] != "union_type"@[0]);
    assert("type_query"@[0] != "union_type"@[0]);

}

/// Whether `ms` are the types read from the nodes `picks` under `node`,
/// one by one.
pub open spec fn types_in(
    p: Place,
    c: Option<SymbolContext>,
    parts: Seq<Seq<char>>,
    node: int,
    picks: Seq<int>,
    ms: Seq<Symbol>,
) -> bool
    decreases p.tree.nodes@.len() - node, picks.len() + 1,
{
    if picks.len() == 0 {
        ms.len() == 0
    } else {
        &&& ms.len() == picks.len()
        &&& below(*p.tree, node, picks.last())
        &&& type_in(p, c, parts, picks.last(), ms.last())
        &&& types_in(p, c, parts, node, picks.drop_last(), ms.drop_last())
    }
}

/// Whether `ms` are the properties and methods read from the signatures
/// `picks` under `node`, of an object type, in the property context: each
/// read as its signature gives it.
pub open spec fn signatures_in(p: Place, parts: Seq<Seq<char>>, node: int, picks: Seq<int>, ms: Seq<Symbol>) -> bool
    decreases p.tree.nodes@.len() - node, 2int,
{
    &&& ms.len() == picks.len()
    &&& forall|i: int| 0 <= i < ms.len() ==> {
        &&& made_in(p, Some(SymbolContext::Property), parts, #[trigger] ms[i], picks[i])
        &&& (p.tree.kind_of(picks[i]) == "property_signature"@ ==> ms[i].kind is Property)
        &&& (p.tree.kind_of(picks[i]) == "method_signature"@ ==> ms[i].kind is Method)
        &&& below(*p.tree, node, picks[i])
        &&& exists|ctx: ParserContext| #[trigger] reads_at(ctx, p, parts, Some(SymbolContext::Property)) && match ms[i].kind {
            SymbolKind::Property(pr) => property_shape(ctx, picks[i], pr),
            SymbolKind::Method(m) => method_shape(ctx, picks[i], m),
            _ => false,
        }
    }
}

/// Whether the grammar kind `k` is one the type parser reads.
pub open spec fn type_kind_known(k: Seq<char>) -> bool {
    ||| k == "this_type"@
    ||| k == "rest_type"@
    ||| k == "infer_type"@
    ||| k == "tuple_type"@
    ||| k == "conditional_type"@
    ||| k == "lookup_type"@
    ||| k == "template_literal_type"@
    ||| k == "readonly_type"@
    ||| k == "index_type_query"@
    ||| k == "constructor_type"@
    ||| k == "parenthesized_type"@
    ||| k == "literal_type"@
    ||| k == "type_query"@
    ||| k == "function_type"@
    ||| k == "array_type"@
    ||| k == "generic_type"@
    ||| k == "predefined_type"@
    ||| k == "type_identifier"@
    ||| k == "object_type"@
    ||| k == "interface_body"@
    ||| k == "union_type"@
    ||| k == "intersection_type"@
}

/// What every parse of node `node` in `c0` leaves behind: a well-formed
/// context over the same tree and code.
pub open spec fn parse_kept(c0: ParserContext, c1: ParserContext) -> bool {
    &&& c1.wf()
    &&& c1.tree == c0.tree
    &&& c1.code == c0.code
    &&& c1.file == c0.file
    &&& c1.symbol_table.file == c0.symbol_table.file
}

/// The `k`th child of `node`, which the grammar requires to be there.
fn nth_child(tree: &SyntaxTree, node: usize, k: usize) -> (r: Result<usize, DossierError>)
    requires
        tree.wf(),
        node < tree.len(),
    ensures
        match r {
            Ok(c) => k < tree.child_count(node as int) && c == tree.child(node as int, k as int) && node < c
                < tree.len(),
            Err(_) => k >= tree.child_count(node as int),
        },
{
    if k < tree.child_count_of(node) {
        Ok(tree.child_at(node, k))
    } else {
        Err(DossierError::UnexpectedSyntax(tree.kind(node).to_owned()))
    }
}

/// The child of `node` that fills `field`, which the grammar requires.
fn field_child(tree: &SyntaxTree, node: usize, field: &str) -> (r: Result<usize, DossierError>)
    requires
        tree.wf(),
        node < tree.len(),
    ensures
        match r {
            Ok(c) => tree.field_child(node as int, field@) == Some(c as int) && node < c < tree.len(),
            Err(_) => tree.field_child(node as int, field@) is None,
        },
{
    match tree.child_by_field_name(node, field) {
        Some(c) => Ok(c),
        None => Err(DossierError::UnexpectedSyntax(tree.kind(node).to_owned())),
    }
}

/// The first named child of `node`.
fn first_named_child(tree: &SyntaxTree, node: usize) -> (r: Result<usize, DossierError>)
    requires
        tree.wf(),
        node < tree.len(),
    ensures
        r matches Ok(c) ==> node < c < tree.len() && tree.nodes@[c as int].named && (tree.named_from(node as int, 0) matches Some(k)
            && c == tree.child(node as int, k)),
        r is Err ==> tree.named_from(node as int, 0) is None,
{
    let n = tree.child_count_of(node);
    let mut k: usize = 0;
    while k < n
        invariant
            tree.wf(),
            node < tree.len(),
            n == tree.child_count(node as int),
            k <= n,
            tree.named_from(node as int, 0) == tree.named_from(node as int, k as int),
        decreases n - k,
    {
        let c = tree.child_at(node, k);
        if tree.is_named(c) {
            return Ok(c);
        }
        k += 1;
    }
    Err(DossierError::UnexpectedSyntax(tree.kind(node).to_owned()))
}

/// The symbol of `t`, made for node `node` in `ctx`.
fn type_symbol(ctx: &mut ParserContext, node: usize, t: Type) -> (r: Symbol)
    requires
        old(ctx).wf(),
        node < old(ctx).tree.len(),
    ensures
        r.kind == SymbolKind::Type(t),
        made_at(*old(ctx), r, node as int),
        *final(ctx) == (ParserContext { symbol_ids: final(ctx).symbol_ids, ..*old(ctx) }),
{
    let source = Source::for_node(node, ctx);
    Symbol::in_context(ctx, SymbolKind::Type(t), source)
}

/// Parses the type at node `node`. The body of an interface, which the
/// grammar gives a kind of its own, reads as the object type it is.
#[verifier::rlimit(40)]
pub fn parse_type(node: usize, ctx: &mut ParserContext) -> (r: Result<Symbol, DossierError>)
    requires
        old(ctx).wf(),
        node < old(ctx).tree.len(),
    ensures
        parse_kept(*old(ctx), *final(ctx)),
        r is Ok <==> type_ok(*old(ctx).tree, old(ctx).code.spec_bytes(), node as int),
        r is Ok ==> same_frame(*old(ctx), *final(ctx)),
        r matches Ok(s) ==> made_at(*old(ctx), s, node as int) && s.kind is Type && type_in(
            place_of(*old(ctx)),
            old(ctx).top_context(),
            qualifiers(*old(ctx)),
            node as int,
            s,
        ),
        !type_kind_known(old(ctx).tree.kind_of(node as int)) ==> (r matches Err(
            DossierError::UnexpectedSyntax(k),
        ) && k@ == old(ctx).tree.kind_of(node as int)),
    decreases old(ctx).tree.nodes@.len() - node, 0int,
{
    let ghost c0 = *ctx;
    let ghost pl = place_of(c0);
    let ghost cx = c0.top_context();
    let ghost qs = qualifiers(c0);
    let tree = ctx.tree;
    let code = ctx.code;
    proof {
        lemma_same_frame_refl(c0);
        lemma_type_kinds();
    }
    let t = if tree.is_kind(node, "this_type") {
        Type::This
    } else if tree.is_kind(node, "rest_type") {
        let c = nth_child(tree, node, 1)?;
        let m = parse_type(c, ctx)?;
        let mut members: Vec<Symbol> = Vec::new();
        members.push(m);
        let t = Type::Rest { members };
        assert(type_shape(pl, cx, qs, node as int, t));
        t
    } else if tree.is_kind(node, "infer_type") {
        let c = nth_child(tree, node, 1)?;
        let m = parse_type(c, ctx)?;
        let mut members: Vec<Symbol> = Vec::new();
        members.push(m);
        let t = Type::Infer(members);
        assert(type_shape(pl, cx, qs, node as int, t));
        t
    } else if tree.is_kind(node, "tuple_type") || tree.is_kind(node, "conditional_type") {
        let tuple = tree.is_kind(node, "tuple_type");
        let ghost pick = if tuple {
            Pick::Named
        } else {
            Pick::NamedNotComment
        };
        let mut members: Vec<Symbol> = Vec::new();
        let n = tree.child_count_of(node);
        let mut k: usize = 0;
        while k < n
            invariant
                tree.wf(),
                node < tree.len(),
                n == tree.child_count(node as int),
                k <= n,
                ctx.tree == tree,
                ctx.code == code,
                same_frame(c0, *ctx),
                c0.tree == tree,
                c0.wf(),
                old(ctx).tree == tree,
                old(ctx).code == c0.code,
                c0 == *old(ctx),
                pl == place_of(c0),
                cx == c0.top_context(),
                qs == qualifiers(c0),
                type_kind_known(tree.kind_of(node as int)),
                pick == (if tuple { Pick::Named } else { Pick::NamedNotComment }),
                tuple == (tree.kind_of(node as int) == "tuple_type"@),
                tree.kind_of(node as int) == "tuple_type"@ || tree.kind_of(node as int) == "conditional_type"@,
                types_in(pl, cx, qs, node as int, picked(*tree, node as int, k as int, pick), members@),
                forall|j: int|
                    0 <= j < k && #[trigger] picks(*tree, node as int, j, pick) ==> below(
                        *tree,
                        node as int,
                        tree.child(node as int, j),
                    ) && type_ok(*tree, c0.code.spec_bytes(), tree.child(node as int, j)),
            decreases n - k,
        {
            let c = tree.child_at(node, k);
            let take = if tuple {
                tree.is_named(c)
            } else {
                tree.is_named(c) && !tree.is_kind(c, "comment")
            };
            assert(take == picks(*tree, node as int, k as int, pick));
            if take {
                let ghost before = *ctx;
                let ghost prev = members@;
                let m = match parse_type(c, ctx) {
                    Ok(m) => m,
                    Err(e) => {
                        proof {
                            lemma_type_kinds();
                        }
                        return Err(e);
                    },
                };
                proof {
                    lemma_same_place(c0, before);
                    lemma_same_frame_trans(c0, before, *ctx);
                }
                members.push(m);
                proof {
                    assert(members@.drop_last() =~= prev);
                    assert(picked(*tree, node as int, k + 1, pick).drop_last() =~= picked(*tree, node as int, k as int, pick));
                }
            }
            k += 1;
        }
        if tuple {
            let t = Type::Tuple { members };
            assert(type_shape(pl, cx, qs, node as int, t));
            t
        } else {
            let t = Type::Conditional { members };
            assert(type_shape(pl, cx, qs, node as int, t));
            t
        }
    } else if tree.is_kind(node, "lookup_type") {
        let a = nth_child(tree, node, 0)?;
        let left = parse_type(a, ctx)?;
        let ghost mid = *ctx;
        let b = nth_child(tree, node, 2)?;
        let right = parse_type(b, ctx)?;
        proof {
            lemma_same_place(c0, mid);
            lemma_same_frame_trans(c0, mid, *ctx);
        }
        let mut members: Vec<Symbol> = Vec::new();
        members.push(left);
        members.push(right);
        let t = Type::Lookup(members);
        assert(type_shape(pl, cx, qs, node as int, t));
        t
    } else if tree.is_kind(node, "template_literal_type") {
        let t = Type::TemplateLiteral(tree.text_string(code, node)?);
        assert(type_shape(pl, cx, qs, node as int, t));
        t
    } else if tree.is_kind(node, "readonly_type") {
        let c = nth_child(tree, node, 1)?;
        let m = parse_type(c, ctx)?;
        let mut members: Vec<Symbol> = Vec::new();
        members.push(m);
        let t = Type::ReadOnly(members);
        assert(type_shape(pl, cx, qs, node as int, t));
        t
    } else if tree.is_kind(node, "index_type_query") {
        let c = nth_child(tree, node, 1)?;
        let m = parse_type(c, ctx)?;
        let mut members: Vec<Symbol> = Vec::new();
        members.push(m);
        let t = Type::KeyOf(members);
        assert(type_shape(pl, cx, qs, node as int, t));
        t
    } else if tree.is_kind(node, "constructor_type") {
        let mut members: Vec<Symbol> = Vec::new();
        let ghost mut ntv: int = 0;
        if let Some(params) = tree.child_by_field_name(node, "type_parameters") {
            let ghost before = *ctx;
            parse_type_parameters(params, &mut members, ctx)?;
            proof {
                lemma_same_frame_trans(c0, before, *ctx);
                ntv = members@.len() as int;
                assert(members@.skip(0) =~= members@);
            }
        }
        let ghost tvs = members@;
        if let Some(params) = tree.child_by_field_name(node, "parameters") {
            let ghost before = *ctx;
            parse_method_parameters(params, &mut members, ctx)?;
            proof {
                lemma_same_frame_trans(c0, before, *ctx);
                lemma_parameters_read_frame(before, c0, params as int, before.top_context(), members@.skip(ntv));
                assert(members@.take(ntv) =~= tvs);
                assert(members@.subrange(ntv, members@.len() as int) =~= members@.skip(ntv));
            }
        }
        proof {
            assert(reads_at(c0, pl, qs, cx));
        }
        let t = Type::Constructor { members };
        assert(type_shape(pl, cx, qs, node as int, t));
        t
    } else if tree.is_kind(node, "parenthesized_type") {
        let c = nth_child(tree, node, 1)?;
        let m = parse_type(c, ctx)?;
        let mut members: Vec<Symbol> = Vec::new();
        members.push(m);
        let t = Type::Parenthesized(members);
        assert(type_shape(pl, cx, qs, node as int, t));
        t
    } else if tree.is_kind(node, "literal_type") {
        let c = nth_child(tree, node, 0)?;
        let t = Type::Literal(tree.text_string(code, c)?);
        assert(type_shape(pl, cx, qs, node as int, t));
        t
    } else if tree.is_kind(node, "type_query") {
        let c = nth_child(tree, node, 1)?;
        let t = Type::TypeOf(tree.text_string(code, c)?);
        assert(type_shape(pl, cx, qs, node as int, t));
        t
    } else if tree.is_kind(node, "function_type") {
        let mut members: Vec<Symbol> = Vec::new();
        if let Some(params) = tree.child_by_field_name(node, "parameters") {
            let ghost before = *ctx;
            parse_parameters(params, &mut members, ctx)?;
            proof {
                lemma_same_frame_trans(c0, before, *ctx);
                assert(members@.skip(0) =~= members@);
            }
        }
        let ghost params_read = members@;
        assert(forall|i: int| 0 <= i < params_read.len() ==> (#[trigger] params_read[i]).context == Some(
            SymbolContext::Parameter,
        ));
        if let Some(ret) = tree.child_by_field_name(node, "return_type") {
            let ghost before = *ctx;
            ctx.push_context(SymbolContext::ReturnType);
            let ghost pushed = *ctx;
            let m = parse_type(ret, ctx)?;
            let ghost parsed = *ctx;
            ctx.pop_context();
            proof {
                assert(pushed.symbol_context@.drop_last() =~= before.symbol_context@);
                lemma_context_push_pop_frame(before, pushed, parsed, *ctx);
                lemma_same_place(c0, before);
                assert(place_of(pushed) == place_of(before));
                assert(qualifiers(pushed) == qualifiers(before));
                lemma_same_frame_trans(c0, before, *ctx);
            }
            members.push(m);
            proof {
                assert(members@.drop_last() =~= params_read);
                assert(members@.take(params_read.len() as int) =~= params_read);
            }
        } else {
            proof {
                assert(members@.take(params_read.len() as int) =~= params_read);
            }
        }
        proof {
            assert(reads_at(c0, pl, qs, cx));
        }
        let t = Type::Function { members };
        assert(type_shape(pl, cx, qs, node as int, t));
        t
    } else if tree.is_kind(node, "array_type") {
        let c = nth_child(tree, node, 0)?;
        let m = parse_type(c, ctx)?;
        let mut members: Vec<Symbol> = Vec::new();
        members.push(m);
        let t = Type::Array { members };
        assert(type_shape(pl, cx, qs, node as int, t));
        t
    } else if tree.is_kind(node, "generic_type") {
        let name = field_child(tree, node, "name")?;
        let identifier = tree.text_string(code, name)?;
        let mut members: Vec<Symbol> = Vec::new();
        let n = tree.child_count_of(node);
        let mut k: usize = 0;
        while k < n
            invariant
                tree.wf(),
                node < tree.len(),
                n == tree.child_count(node as int),
                k <= n,
                ctx.tree == tree,
                ctx.code == code,
                same_frame(c0, *ctx),
                c0.tree == tree,
                c0.wf(),
                old(ctx).tree == tree,
                old(ctx).code == c0.code,
                c0 == *old(ctx),
                pl == place_of(c0),
                cx == c0.top_context(),
                qs == qualifiers(c0),
                type_kind_known(tree.kind_of(node as int)),
                types_in(pl, cx, qs.push(identifier@), node as int, type_argument_nodes(*tree, node as int, k as int), members@),
                tree.kind_of(node as int) == "generic_type"@,
                tree.field_child(node as int, "name"@) matches Some(nm) && tree.text_ok(c0.code.spec_bytes(), nm),
                forall|j: int|
                    0 <= j < k && #[trigger] is_type_argument(*tree, tree.child(node as int, j)) ==> {
                        let a = tree.child(node as int, j);
                        &&& tree.child_count(a) > 1
                        &&& below(*tree, node as int, tree.child(a, 1))
                        &&& type_ok(*tree, c0.code.spec_bytes(), tree.child(a, 1))
                    },
            decreases n - k,
        {
            let arg = tree.child_at(node, k);
            let is_arguments = match &tree.nodes[arg].field {
                Some(f) => str_eq(f.as_str(), "type_arguments"),
                None => false,
            };
            assert(is_arguments == is_type_argument(*tree, arg as int));
            if is_arguments {
                let inner = match nth_child(tree, arg, 1) {
                    Ok(i) => i,
                    Err(e) => {
                        proof {
                            lemma_type_kinds();
                        }
                        return Err(e);
                    },
                };
                let ghost before = *ctx;
                ctx.push_fqn(identifier.as_str());
                let ghost pushed = *ctx;
                let ghost prev = members@;
                let m = match parse_type(inner, ctx) {
                    Ok(m) => m,
                    Err(e) => {
                        proof {
                            lemma_type_kinds();
                        }
                        return Err(e);
                    },
                };
                let ghost parsed = *ctx;
                ctx.pop_fqn();
                proof {
                    lemma_fqn_push_pop_frame(before, pushed, parsed, *ctx);
                    lemma_same_place(c0, before);
                    assert(place_of(pushed) == place_of(before));
                    assert(qualifiers(pushed) =~= qualifiers(before).push(identifier@));
                    lemma_same_frame_trans(c0, before, *ctx);
                }
                members.push(m);
                proof {
                    assert(members@.drop_last() =~= prev);
                    assert(type_argument_nodes(*tree, node as int, k + 1).drop_last() =~= type_argument_nodes(
                        *tree,
                        node as int,
                        k as int,
                    ));
                }
            }
            k += 1;
        }
        let t = Type::GenericType { identifier, members };
        assert(type_shape(pl, cx, qs, node as int, t));
        t
    } else if tree.is_kind(node, "predefined_type") {
        let t = Type::Predefined(tree.text_string(code, node)?);
        assert(type_shape(pl, cx, qs, node as int, t));
        t
    } else if tree.is_kind(node, "type_identifier") {
        let t = Type::Identifier(tree.text_string(code, node)?, None);
        assert(type_shape(pl, cx, qs, node as int, t));
        t
    } else if tree.is_kind(node, "object_type") || tree.is_kind(node, "interface_body") {
        let raw_string = tree.text_string(code, node)?;
        let mut properties: Vec<Symbol> = Vec::new();
        let ghost outer = *ctx;
        ctx.push_context(SymbolContext::Property);
        let ghost inner = *ctx;
        proof {
            lemma_same_frame_refl(inner);
            assert(place_of(inner) == pl);
            assert(qualifiers(inner) == qs);
        }
        let n = tree.child_count_of(node);
        let mut k: usize = 1;
        proof {
            assert(!picks(*tree, node as int, 0, Pick::Signatures));
            assert(picked(*tree, node as int, 0, Pick::Signatures) =~= Seq::<int>::empty());
            assert(picked(*tree, node as int, 1, Pick::Signatures) =~= Seq::<int>::empty());
        }
        while k < n
            invariant
                tree.wf(),
                node < tree.len(),
                n == tree.child_count(node as int),
                1 <= k,
                k <= if n >= 1 { n } else { 1 },
                ctx.tree == tree,
                ctx.code == code,
                same_frame(inner, *ctx),
                inner.tree == tree,
                inner.wf(),
                inner.file == c0.file,
                inner.symbol_table.file == c0.symbol_table.file,
                inner.top_context() == Some(SymbolContext::Property),
                place_of(inner) == pl,
                qualifiers(inner) == qs,
                old(ctx).tree == tree,
                old(ctx).code == code,
                c0 == *old(ctx),
                type_kind_known(tree.kind_of(node as int)),
                signatures_in(pl, qs, node as int, picked(*tree, node as int, k as int, Pick::Signatures), properties@),
                tree.kind_of(node as int) == "object_type"@ || tree.kind_of(node as int) == "interface_body"@,
                tree.text_ok(c0.code.spec_bytes(), node as int),
                forall|j: int|
                    1 <= j < k ==> {
                        let c = #[trigger] tree.child(node as int, j);
                        &&& (tree.kind_of(c) == "property_signature"@ ==> below(*tree, node as int, c) && property_ok(
                            *tree,
                            c0.code.spec_bytes(),
                            c,
                        ))
                        &&& (tree.kind_of(c) == "method_signature"@ ==> below(*tree, node as int, c) && method_ok(
                            *tree,
                            c0.code.spec_bytes(),
                            c,
                        ))
                    },
            decreases n - k,
        {
            let c = tree.child_at(node, k);
            let ghost prev = properties@;
            let ghost before = *ctx;
            let ghost mut w = before;
            proof {
                lemma_same_place(inner, before);
                reveal_strlit("property_signature");
                reveal_strlit("method_signature");
                assert("property_signature"@.len() != "method_signature"@.len());
            }
            if tree.is_kind(c, "property_signature") {
                let p = match parse_property(c, ctx) {
                    Ok(p) => p,
                    Err(e) => {
                        proof {
                            lemma_type_kinds();
                        }
                        return Err(e);
                    },
                };
                proof {
                    lemma_same_frame_trans(inner, before, *ctx);
                    lemma_made_at_in(before, p, c as int);
                }
                properties.push(p);
            }
            if tree.is_kind(c, "method_signature") {
                let ghost before2 = *ctx;
                let m = match parse_method(c, ctx) {
                    Ok(m) => m,
                    Err(e) => {
                        proof {
                            lemma_type_kinds();
                        }
                        return Err(e);
                    },
                };
                proof {
                    lemma_same_place(inner, before2);
                    lemma_same_frame_trans(inner, before2, *ctx);
                    lemma_made_at_in(before2, m, c as int);
                    w = before2;
                }
                properties.push(m);
            }
            proof {
                let pk = picked(*tree, node as int, k as int, Pick::Signatures);
                let pk1 = picked(*tree, node as int, k + 1, Pick::Signatures);
                if picks(*tree, node as int, k as int, Pick::Signatures) {
                    assert(pk1 == pk.push(c as int));
                    assert(properties@.len() == prev.len() + 1);
                    assert(properties@.drop_last() =~= prev);
                    assert forall|i: int| 0 <= i < properties@.len() implies {
                        &&& made_in(pl, Some(SymbolContext::Property), qs, #[trigger] properties@[i], pk1[i])
                        &&& (tree.kind_of(pk1[i]) == "property_signature"@ ==> properties@[i].kind is Property)
                        &&& (tree.kind_of(pk1[i]) == "method_signature"@ ==> properties@[i].kind is Method)
                        &&& below(*tree, node as int, pk1[i])
                        &&& exists|x: ParserContext| #[trigger] reads_at(x, pl, qs, Some(SymbolContext::Property))
                            && match properties@[i].kind {
                            SymbolKind::Property(pr) => property_shape(x, pk1[i], pr),
                            SymbolKind::Method(m) => method_shape(x, pk1[i], m),
                            _ => false,
                        }
                    } by {
                        if i < prev.len() {
                            assert(properties@[i] == prev[i]);
                            assert(pk1[i] == pk[i]);
                        } else {
                            assert(reads_at(w, pl, qs, Some(SymbolContext::Property)));
                        }
                    }
                } else {
                    assert(pk1 == pk);
                    assert(properties@ == prev);
                }
            }
            k += 1;
        }
        let ghost parsed = *ctx;
        ctx.pop_context();
        proof {
            assert(inner.symbol_context@.drop_last() =~= outer.symbol_context@);
            lemma_context_push_pop_frame(outer, inner, parsed, *ctx);
            lemma_same_frame_trans(c0, outer, *ctx);
            if n == 0 {
                assert(picked(*tree, node as int, 0, Pick::Signatures) =~= Seq::<int>::empty());
                assert(picked(*tree, node as int, 1, Pick::Signatures) =~= Seq::<int>::empty());
            }
        }
        let t = Type::Object { raw_string, properties };
        assert(type_shape(pl, cx, qs, node as int, t));
        t
    } else if tree.is_kind(node, "union_type") || tree.is_kind(node, "intersection_type") {
        let union = tree.is_kind(node, "union_type");
        let ghost pick = if union {
            Pick::Between("|")
        } else {
            Pick::Between("&")
        };
        let mut members: Vec<Symbol> = Vec::new();
        let n = tree.child_count_of(node);
        let mut k: usize = 0;
        while k < n
            invariant
                tree.wf(),
                node < tree.len(),
                n == tree.child_count(node as int),
                k <= n,
                ctx.tree == tree,
                ctx.code == code,
                same_frame(c0, *ctx),
                c0.tree == tree,
                c0.wf(),
                old(ctx).tree == tree,
                old(ctx).code == c0.code,
                c0 == *old(ctx),
                pl == place_of(c0),
                cx == c0.top_context(),
                qs == qualifiers(c0),
                type_kind_known(tree.kind_of(node as int)),
                pick == (if union { Pick::Between("|") } else { Pick::Between("&") }),
                union == (tree.kind_of(node as int) == "union_type"@),
                tree.kind_of(node as int) == "union_type"@ || tree.kind_of(node as int) == "intersection_type"@,
                types_in(pl, cx, qs, node as int, picked(*tree, node as int, k as int, pick), members@),
                forall|j: int|
                    0 <= j < k && #[trigger] picks(*tree, node as int, j, pick) ==> below(
                        *tree,
                        node as int,
                        tree.child(node as int, j),
                    ) && type_ok(*tree, c0.code.spec_bytes(), tree.child(node as int, j)),
            decreases n - k,
        {
            let c = tree.child_at(node, k);
            let separator = if union {
                tree.is_kind(c, "|")
            } else {
                tree.is_kind(c, "&")
            };
            let take = !separator && !tree.is_kind(c, "comment");
            assert(take == picks(*tree, node as int, k as int, pick));
            if take {
                let ghost before = *ctx;
                let ghost prev = members@;
                let m = match parse_type(c, ctx) {
                    Ok(m) => m,
                    Err(e) => {
                        proof {
                            lemma_type_kinds();
                        }
                        return Err(e);
                    },
                };
                proof {
                    lemma_same_place(c0, before);
                    lemma_same_frame_trans(c0, before, *ctx);
                }
                members.push(m);
                proof {
                    assert(members@.drop_last() =~= prev);
                    assert(picked(*tree, node as int, k + 1, pick).drop_last() =~= picked(*tree, node as int, k as int, pick));
                }
            }
            k += 1;
        }
        if union {
            let t = Type::Union { members };
            assert(type_shape(pl, cx, qs, node as int, t));
            t
        } else {
            let t = Type::Intersection { members };
            assert(type_shape(pl, cx, qs, node as int, t));
            t
        }
    } else {
        return Err(DossierError::UnexpectedSyntax(tree.kind(node).to_owned()));
    };
    let ghost shape = t;
    proof {
        lemma_frame_names(c0, *ctx);
        lemma_same_place(c0, *ctx);
    }
    let r = type_symbol(ctx, node, t);
    proof {
        lemma_made_at_in(*ctx, r, node as int);
        assert(type_shape(pl, cx, qs, node as int, shape));
    }
    Ok(r)
}

/// Parses stay where they began: the place, context and qualifiers of a
/// context whose frame was kept are those it began with.
pub(crate) proof fn lemma_same_place(c0: ParserContext, b: ParserContext)
    requires
        c0.wf(),
        same_frame(c0, b),
    ensures
        place_of(b) == place_of(c0),
        qualifiers(b) == qualifiers(c0),
        b.top_context() == c0.top_context(),
{
    lemma_same_frame_names(c0, b);
    lemma_frame_place(c0, b);
}

/// Whether some child of `node` from position `from` on is of kind `kind`.
pub open spec fn has_kind_from(tree: SyntaxTree, node: int, from: int, kind: Seq<char>) -> bool {
    exists|k: int| from <= k < tree.child_count(node) && tree.kind_of(tree.child(node, k)) == kind
}

/// Whether the property at `node` is marked optional: by a `?` after its
/// first part, or by a `?` that is its only part.
pub open spec fn optional_at(tree: SyntaxTree, node: int) -> bool {
    if tree.child_count(node) == 1 {
        tree.kind_of(tree.child(node, 0)) == "?"@
    } else {
        has_kind_from(tree, node, 1, "?"@)
    }
}

/// Whether the first named part of `node` is the accessibility modifier
/// `word`.
pub open spec fn accessibility_is(ctx: ParserContext, node: int, word: Seq<char>) -> bool {
    let tree = *ctx.tree;
    tree.named_from(node, 0) matches Some(k) && tree.kind_of(tree.child(node, k)) == "accessibility_modifier"@
        && text_at(ctx, tree.child(node, k)) == word
}

/// Whether `p` is the property read from the signature at `node` in
/// `ctx`: its name, its modifiers, its documentation, and the type its
/// annotation gives, read in a scope of its own.
pub open spec fn property_shape(ctx: ParserContext, node: int, p: Property) -> bool
    decreases ctx.tree.nodes@.len() - node + 1, 1int,
{
    let tree = *ctx.tree;
    &&& tree.field_child(node, "name"@) matches Some(n)
    &&& p.identifier@ == text_at(ctx, n)
    &&& p.private == accessibility_is(ctx, node, "private"@)
    &&& p.protected == accessibility_is(ctx, node, "protected"@)
    &&& p.readonly == has_kind_from(tree, node, 0, "readonly"@)
    &&& p.optional == optional_at(tree, node)
    &&& opt_string(p.documentation) == shown_docs(comment_before(ctx, node))
    &&& match tree.field_child(node, "type"@) {
        Some(a) => {
            &&& tree.child_count(a) > 1
            &&& p.children@.len() == 1
            &&& below(tree, node, tree.child(a, 1))
            &&& type_in(
                Place { scope: ctx.scope_ids@, ..place_of(ctx) },
                ctx.top_context(),
                qualifiers(ctx),
                tree.child(a, 1),
                p.children@[0],
            )
        },
        None => p.children@.len() == 0,
    }
}

/// Parses the property signature at node `node`.
pub fn parse_property(node: usize, ctx: &mut ParserContext) -> (r: Result<Symbol, DossierError>)
    requires
        old(ctx).wf(),
        node < old(ctx).tree.len(),
    ensures
        parse_kept(*old(ctx), *final(ctx)),
        r is Ok <==> property_ok(*old(ctx).tree, old(ctx).code.spec_bytes(), node as int),
        r is Ok ==> same_frame(*old(ctx), *final(ctx)),
        r matches Ok(s) ==> made_at(*old(ctx), s, node as int) && (s.kind matches SymbolKind::Property(p)
            && property_shape(*old(ctx), node as int, p)),
    decreases old(ctx).tree.nodes@.len() - node, 0int,
{
    let ghost c0 = *ctx;
    let tree = ctx.tree;
    let code = ctx.code;
    let mut private = false;
    let mut protected = false;
    let first = first_named_child(tree, node)?;
    if tree.is_kind(first, "accessibility_modifier") {
        let m = tree.text(code, first)?;
        if str_eq(m, "private") {
            private = true;
        } else if str_eq(m, "protected") {
            protected = true;
        }
    }
    let name = field_child(tree, node, "name")?;
    let identifier = tree.text_string(code, name)?;
    let mut children: Vec<Symbol> = Vec::new();
    if let Some(type_node) = tree.child_by_field_name(node, "type") {
        let inner = nth_child(tree, type_node, 1)?;
        let id = ctx.push_scope();
        let ghost pushed = *ctx;
        proof {
            lemma_same_frame_refl(pushed);
            lemma_unnamed_scope_place(c0, pushed, id);
        }
        let t = parse_type(inner, ctx)?;
        let ghost after = *ctx;
        ctx.pop_scope();
        proof {
            lemma_push_pop_frame(c0, pushed, after, id);
        }
        children.push(t);
    } else {
        proof {
            lemma_same_frame_refl(c0);
        }
    }
    let documentation = match find_docs_before(tree, code, node)? {
        Some(d) => Some(process_comment(d)),
        None => None,
    };
    let readonly = has_child_kind(tree, node, 0, "readonly");
    let optional = is_optional(tree, node);
    proof {
        lemma_frame_names(c0, *ctx);
        reveal_strlit("private");
        reveal_strlit("protected");
        assert("private"@.len() != "protected"@.len());
        assert(private == accessibility_is(c0, node as int, "private"@));
        assert(protected == accessibility_is(c0, node as int, "protected"@));
        assert(opt_string(documentation) == shown_docs(comment_before(c0, node as int)));
        assert(readonly == has_kind_from(*tree, node as int, 0, "readonly"@));
    }
    let source = Source::for_node(node, ctx);
    Ok(
        Symbol::in_context(
            ctx,
            SymbolKind::Property(
                Property { identifier, documentation, children, private, protected, readonly, optional },
            ),
            source,
        ),
    )
}

/// Whether a child of `node` from position `from` on is of kind `kind`.
pub(crate) fn has_child_kind(tree: &SyntaxTree, node: usize, from: usize, kind: &str) -> (r: bool)
    requires
        tree.wf(),
        node < tree.len(),
    ensures
        r == exists|k: int| from <= k < tree.child_count(node as int) && tree.kind_of(tree.child(node as int, k)) == kind@,
{
    let n = tree.child_count_of(node);
    let mut k: usize = from;
    while k < n
        invariant
            tree.wf(),
            node < tree.len(),
            n == tree.child_count(node as int),
            from <= k,
            forall|j: int| from <= j < k && j < n ==> tree.kind_of(tree.child(node as int, j)) != kind@,
        decreases n - k,
    {
        let c = tree.child_at(node, k);
        if tree.is_kind(c, kind) {
            return true;
        }
        k += 1;
    }
    false
}

/// Whether a property is marked optional with a `?` after its first part;
/// a property of one part is optional when that part is the `?`.
fn is_optional(tree: &SyntaxTree, node: usize) -> (r: bool)
    requires
        tree.wf(),
        node < tree.len(),
    ensures
        r == optional_at(*tree, node as int),
{
    if tree.child_count_of(node) == 1 {
        let c = tree.child_at(node, 0);
        tree.is_kind(c, "?")
    } else {
        has_child_kind(tree, node, 1, "?")
    }
}

/// The comment just before `node`, if there is one.
fn find_docs_before<'a>(tree: &SyntaxTree, code: &'a str, node: usize) -> (r: Result<Option<&'a str>, DossierError>)
    requires
        tree.wf(),
        node < tree.len(),
    ensures
        r matches Ok(d) ==> match tree.prev_sibling(node as int) {
            Some(p) => if tree.kind_of(p) == "comment"@ {
                d matches Some(t) && t@ == tree.text_of(code.spec_bytes(), p)
            } else {
                d is None
            },
            None => d is None,
        },
        r is Ok <==> comment_readable(*tree, code.spec_bytes(), node as int),
{
    match tree.prev_sibling_of(node) {
        Some(p) => if tree.is_kind(p, "comment") {
            match tree.text(code, p) {
                Ok(t) => Ok(Some(t)),
                Err(e) => Err(e),
            }
        } else {
            Ok(None)
        },
        None => Ok(None),
    }
}

/// The comment documenting a declaration at `node`: the one just before
/// the export statement around it, or else just before the declaration.
fn find_docs<'a>(tree: &SyntaxTree, code: &'a str, node: usize) -> (r: Result<Option<&'a str>, DossierError>)
    requires
        tree.wf(),
        node < tree.len(),
    ensures
        r matches Ok(d) ==> forall|ctx: ParserContext| #![trigger docs_of(ctx, node as int)]
            ctx.tree == tree && ctx.code == code ==> opt_str(d) == docs_of(ctx, node as int),
        r is Ok <==> docs_readable(*tree, code.spec_bytes(), node as int),
{
    match tree.parent_of(node) {
        Some(p) => if tree.is_kind(p, "export_statement") {
            find_docs_before(tree, code, p)
        } else {
            find_docs_before(tree, code, node)
        },
        None => Err(DossierError::UnexpectedSyntax(tree.kind(node).to_owned())),
    }
}

/// The characters of an optional string slice.
pub open spec fn opt_str(o: Option<&str>) -> Option<Seq<char>> {
    match o {
        Some(t) => Some(t@),
        None => None,
    }
}

/// Whether the declaration at `node` stands in an export statement.
fn is_exported(tree: &SyntaxTree, node: usize) -> (r: bool)
    requires
        tree.wf(),
        node < tree.len(),
    ensures
        r == (tree.nodes@[node as int].parent matches Some(p) && tree.kind_of(p as int) == "export_statement"@),
{
    match tree.parent_of(node) {
        Some(p) => tree.is_kind(p, "export_statement"),
        None => false,
    }
}

/// Whether `inner` and `at` are frames a method named `name` reads its
/// parts in, within `ctx`: `inner` a new scope qualified by the name, and
/// `at` the same, or, where the method is `generic`, a new scope within it.
pub open spec fn method_frames(
    ctx: ParserContext,
    name: Seq<char>,
    generic: bool,
    inner: ParserContext,
    at: ParserContext,
) -> bool {
    &&& inner.tree == ctx.tree
    &&& inner.code == ctx.code
    &&& place_of(inner) == (Place { scope: place_of(inner).scope, ..place_of(ctx) })
    &&& qualifiers(inner) == qualifiers(ctx).push(name)
    &&& inner.top_context() == ctx.top_context()
    &&& at.tree == ctx.tree
    &&& at.code == ctx.code
    &&& place_of(at) == (Place { scope: place_of(at).scope, ..place_of(inner) })
    &&& qualifiers(at) == qualifiers(inner)
    &&& at.top_context() == ctx.top_context()
    &&& (!generic ==> place_of(at) == place_of(inner))
}

/// Whether `ms` are the children read from the method at `node`, named
/// `name`, with `inner` the frame its type parameters are read in, a new
/// scope qualified by the name, and `at` the frame its parameters and
/// return type are read in: the same, or a new scope within it where there
/// are type parameters. The children are the type variables, then the
/// parameters, then the return type, in the return type context.
pub open spec fn method_children_in(
    ctx: ParserContext,
    node: int,
    name: Seq<char>,
    ms: Seq<Symbol>,
    inner: ParserContext,
    at: ParserContext,
) -> bool
    decreases ctx.tree.nodes@.len() - node + 1, 0int,
{
    let tree = *ctx.tree;
    let tp = tree.field_child(node, "type_parameters"@);
    let ntv = match tp {
        Some(t) => picked(tree, t, tree.child_count(t), Pick::TypeParameters).len(),
        None => 0,
    };
    &&& method_frames(ctx, name, tp is Some, inner, at)
    &&& tree.field_child(node, "parameters"@) matches Some(p)
    &&& {
        let np = picked(tree, p, tree.child_count(p), Pick::Parameters).len();
        &&& ms.len() >= ntv + np
        &&& (tp matches Some(t) ==> type_variables_read(inner, t, ms.take(ntv as int)))
        &&& below(tree, node, p)
        &&& parameters_read(at, p, at.top_context(), ms.subrange(ntv as int, (ntv + np) as int))
        &&& match tree.field_child(node, "return_type"@) {
            Some(r) => {
                &&& ms.len() == ntv + np + 1
                &&& tree.named_from(r, 0) matches Some(k)
                &&& below(tree, node, tree.child(r, k))
                &&& type_in(place_of(at), Some(SymbolContext::ReturnType), qualifiers(at), tree.child(r, k), ms.last())
            },
            None => ms.len() == ntv + np,
        }
    }
}

/// Whether `m` is the method read from the signature or definition at
/// `node` in `ctx`: its name, computed or written out, whether it is
/// private or abstract, and its documentation.
pub open spec fn method_shape(ctx: ParserContext, node: int, m: Method) -> bool
    decreases ctx.tree.nodes@.len() - node + 1, 1int,
{
    let tree = *ctx.tree;
    let k = tree.kind_of(node);
    &&& (k == "method_signature"@ || k == "method_definition"@ || k == "abstract_method_signature"@)
    &&& m.is_abstract == (k == "abstract_method_signature"@)
    &&& tree.field_child(node, "name"@) matches Some(n)
    &&& m.is_private == (tree.kind_of(n) == "private_property_identifier"@)
    &&& if tree.kind_of(n) == "computed_property_name"@ {
        tree.child_count(n) > 1 && (m.identifier matches Identifier::Computed(x) && x@ == text_at(
            ctx,
            tree.child(n, 1),
        ))
    } else {
        (tree.kind_of(n) == "private_property_identifier"@ || tree.kind_of(n) == "property_identifier"@) && (
        m.identifier matches Identifier::Name(x) && x@ == text_at(ctx, n))
    }
    &&& opt_string(m.documentation) == shown_docs(docs_of(ctx, node))
    &&& exists|inner: ParserContext, at: ParserContext| #[trigger] method_frames(
        ctx,
        m.identifier.spec_str(),
        tree.field_child(node, "type_parameters"@) is Some,
        inner,
        at,
    ) && method_children_in(ctx, node, m.identifier.spec_str(), m.children@, inner, at)
}

/// A method read in one context is read alike in another that keeps its
/// frame.
pub(crate) proof fn lemma_method_shape_frame(b: ParserContext, c0: ParserContext, node: int, m: Method)
    requires
        c0.wf(),
        same_frame(c0, b),
        method_shape(b, node, m),
    ensures
        method_shape(c0, node, m),
{
    lemma_same_place(c0, b);
    let generic = b.tree.field_child(node, "type_parameters"@) is Some;
    let (inner, at) = choose|inner: ParserContext, at: ParserContext| #[trigger] method_frames(
        b,
        m.identifier.spec_str(),
        generic,
        inner,
        at,
    ) && method_children_in(b, node, m.identifier.spec_str(), m.children@, inner, at);
    assert(method_frames(c0, m.identifier.spec_str(), generic, inner, at));
    assert(method_children_in(c0, node, m.identifier.spec_str(), m.children@, inner, at));
}

/// Parameters read in one context are read alike in another that keeps
/// its frame.
proof fn lemma_parameters_read_frame(b: ParserContext, c0: ParserContext, node: int, c: Option<SymbolContext>, ps: Seq<Symbol>)
    requires
        c0.wf(),
        same_frame(c0, b),
        parameters_read(b, node, c, ps),
    ensures
        parameters_read(c0, node, c, ps),
{
    lemma_same_place(c0, b);
    let tree = *c0.tree;
    let nodes = picked(tree, node, tree.child_count(node), Pick::Parameters);
    assert forall|i: int| 0 <= i < ps.len() implies {
        &&& made_in(place_of(c0), c, qualifiers(c0), #[trigger] ps[i], nodes[i])
        &&& below(tree, node, nodes[i])
        &&& ps[i].kind matches SymbolKind::Parameter(p)
        &&& parameter_shape(c0, nodes[i], p)
    } by {
        lemma_parameter_shape_frame(b, c0, nodes[i], ps[i].kind->Parameter_0);
    }
}

/// Parses a method signature or definition at node `node`.
pub fn parse_method(node: usize, ctx: &mut ParserContext) -> (r: Result<Symbol, DossierError>)
    requires
        old(ctx).wf(),
        node < old(ctx).tree.len(),
    ensures
        parse_kept(*old(ctx), *final(ctx)),
        r is Ok <==> method_ok(*old(ctx).tree, old(ctx).code.spec_bytes(), node as int),
        r is Ok ==> same_frame(*old(ctx), *final(ctx)),
        r matches Ok(s) ==> made_at(*old(ctx), s, node as int) && (s.kind matches SymbolKind::Method(m)
            && method_shape(*old(ctx), node as int, m)),
    decreases old(ctx).tree.nodes@.len() - node, 0int,
{
    let ghost c0 = *ctx;
    let tree = ctx.tree;
    let code = ctx.code;
    let is_abstract = tree.is_kind(node, "abstract_method_signature");
    if !(tree.is_kind(node, "method_signature") || tree.is_kind(node, "method_definition") || is_abstract) {
        return Err(DossierError::UnexpectedSyntax(tree.kind(node).to_owned()));
    }
    let name = field_child(tree, node, "name")?;
    let is_private = tree.is_kind(name, "private_property_identifier");
    let identifier = if tree.is_kind(name, "computed_property_name") {
        let inner = nth_child(tree, name, 1)?;
        Identifier::Computed(tree.text_string(code, inner)?)
    } else if is_private || tree.is_kind(name, "property_identifier") {
        Identifier::Name(tree.text_string(code, name)?)
    } else {
        return Err(DossierError::UnexpectedSyntax(tree.kind(name).to_owned()));
    };
    let parameters = field_child(tree, node, "parameters")?;
    let mut children: Vec<Symbol> = Vec::new();
    let id = ctx.push_scope();
    let ghost p1 = *ctx;
    ctx.push_fqn(identifier.as_str());
    let ghost p2 = *ctx;
    proof {
        lemma_same_frame_refl(p2);
        lemma_unnamed_scope_place(c0, p1, id);
        assert(qualifiers(p2) =~= qualifiers(p1).push(identifier.spec_str()));
        assert(place_of(p2) == place_of(p1));
    }
    let ghost at: ParserContext;
    let ghost ntv: int;
    let type_parameters = tree.child_by_field_name(node, "type_parameters");
    let docs = match type_parameters {
        Some(tp) => {
            parse_type_parameters(tp, &mut children, ctx)?;
            let ghost tvs = children@;
            proof {
                assert(children@.skip(0) =~= children@);
                ntv = tvs.len() as int;
            }
            let ghost p2b = *ctx;
            let inner_id = ctx.push_scope();
            let ghost p3 = *ctx;
            proof {
                lemma_same_frame_refl(p3);
                lemma_same_place(p2, p2b);
                lemma_unnamed_scope_place(p2b, p3, inner_id);
                at = p3;
            }
            parse_method_parameters(parameters, &mut children, ctx)?;
            let ghost ps = children@.skip(ntv);
            proof {
                assert(children@.take(ntv) =~= tvs);
            }
            if let Some(ret) = tree.child_by_field_name(node, "return_type") {
                let ghost before = *ctx;
                parse_method_return_type(ret, &mut children, ctx)?;
                proof {
                    lemma_same_place(p3, before);
                    lemma_same_frame_trans(p3, before, *ctx);
                }
            }
            proof {
                assert(children@.take(ntv) =~= tvs);
                assert(children@.subrange(ntv, ntv + ps.len()) =~= ps);
            }
            let docs = find_docs(tree, code, node)?;
            let ghost x = *ctx;
            ctx.pop_scope();
            proof {
                lemma_push_pop_frame(p2b, p3, x, inner_id);
                lemma_same_frame_trans(p2, p2b, *ctx);
            }
            docs
        },
        None => {
            proof {
                ntv = 0;
                at = p2;
            }
            parse_method_parameters(parameters, &mut children, ctx)?;
            let ghost ps = children@;
            proof {
                assert(children@.skip(0) =~= children@);
            }
            if let Some(ret) = tree.child_by_field_name(node, "return_type") {
                let ghost before = *ctx;
                parse_method_return_type(ret, &mut children, ctx)?;
                proof {
                    lemma_same_place(p2, before);
                    lemma_same_frame_trans(p2, before, *ctx);
                }
            }
            proof {
                assert(children@.subrange(0, ps.len() as int) =~= ps);
            }
            find_docs(tree, code, node)?
        },
    };
    proof {
        assert(method_children_in(c0, node as int, identifier.spec_str(), children@, p2, at));
    }
    let ghost y = *ctx;
    ctx.pop_fqn();
    let ghost z = *ctx;
    proof {
        lemma_fqn_push_pop_frame(p1, p2, y, z);
    }
    ctx.pop_scope();
    proof {
        lemma_push_pop_frame(c0, p1, z, id);
        lemma_frame_names(c0, *ctx);
    }
    let documentation = match docs {
        Some(d) => Some(process_comment(d)),
        None => None,
    };
    let source = Source::for_node(node, ctx);
    let method = Method { identifier, documentation, children, is_abstract, is_private };
    proof {
        assert(method_children_in(c0, node as int, method.identifier.spec_str(), method.children@, p2, at));
        assert(method_frames(
            c0,
            method.identifier.spec_str(),
            tree.field_child(node as int, "type_parameters"@) is Some,
            p2,
            at,
        ));
        assert(method_shape(c0, node as int, method));
    }
    Ok(Symbol::in_context(ctx, SymbolKind::Method(method), source))
}

/// Whether `ps` are the parameters read in `ctx` from the parameters among
/// the children of `node`, one by one, in the context `c`.
pub open spec fn parameters_read(ctx: ParserContext, node: int, c: Option<SymbolContext>, ps: Seq<Symbol>) -> bool
    decreases ctx.tree.nodes@.len() - node, 1int,
{
    let tree = *ctx.tree;
    let nodes = picked(tree, node, tree.child_count(node), Pick::Parameters);
    &&& ps.len() == nodes.len()
    &&& forall|i: int| 0 <= i < ps.len() ==> {
        &&& made_in(place_of(ctx), c, qualifiers(ctx), #[trigger] ps[i], nodes[i])
        &&& below(tree, node, nodes[i])
        &&& ps[i].kind matches SymbolKind::Parameter(p)
        &&& parameter_shape(ctx, nodes[i], p)
    }
}

/// A parameter read in one context is read alike in another that keeps
/// its frame.
proof fn lemma_parameter_shape_frame(b: ParserContext, c0: ParserContext, node: int, p: Parameter)
    requires
        c0.wf(),
        same_frame(c0, b),
        parameter_shape(b, node, p),
    ensures
        parameter_shape(c0, node, p),
{
    lemma_same_place(c0, b);
}

/// Parses the formal parameters at `node` of a method or constructor type
/// into `children`.
pub fn parse_method_parameters(node: usize, children: &mut Vec<Symbol>, ctx: &mut ParserContext) -> (r: Result<(), DossierError>)
    requires
        old(ctx).wf(),
        node < old(ctx).tree.len(),
    ensures
        parse_kept(*old(ctx), *final(ctx)),
        r is Ok <==> method_params_ok(*old(ctx).tree, old(ctx).code.spec_bytes(), node as int),
        r is Ok ==> same_frame(*old(ctx), *final(ctx)),
        r is Ok ==> final(children)@.len() >= old(children)@.len() && final(children)@.take(
            old(children)@.len() as int,
        ) == old(children)@,
        r is Ok ==> parameters_read(
            *old(ctx),
            node as int,
            old(ctx).top_context(),
            final(children)@.skip(old(children)@.len() as int),
        ),
    decreases old(ctx).tree.nodes@.len() - node, 0int,
{
    let ghost c0 = *ctx;
    let tree = ctx.tree;
    proof {
        lemma_same_frame_refl(c0);
    }
    let n = tree.child_count_of(node);
    let mut k: usize = 0;
    while k < n
        invariant
            tree.wf(),
            node < tree.len(),
            n == tree.child_count(node as int),
            k <= n,
            ctx.tree == tree,
            ctx.code == c0.code,
            same_frame(c0, *ctx),
            c0.tree == tree,
            old(ctx).tree == tree,
            old(ctx).code == c0.code,
            c0 == *old(ctx),
            children@.len() >= old(children)@.len(),
            children@.take(old(children)@.len() as int) == old(children)@,
            c0.wf(),
            forall|j: int|
                0 <= j < k && #[trigger] picks(*tree, node as int, j, Pick::Parameters) ==> below(
                    *tree,
                    node as int,
                    tree.child(node as int, j),
                ) && param_ok(*tree, c0.code.spec_bytes(), tree.child(node as int, j)),
            ({
                let nodes = picked(*tree, node as int, k as int, Pick::Parameters);
                let ps = children@.skip(old(children)@.len() as int);
                &&& ps.len() == nodes.len()
                &&& forall|i: int| 0 <= i < ps.len() ==> {
                    &&& made_in(place_of(c0), c0.top_context(), qualifiers(c0), #[trigger] ps[i], nodes[i])
                    &&& below(*tree, node as int, nodes[i])
                    &&& ps[i].kind matches SymbolKind::Parameter(p)
                    &&& parameter_shape(c0, nodes[i], p)
                }
            }),
        decreases n - k,
    {
        let c = tree.child_at(node, k);
        if tree.is_kind(c, "required_parameter") || tree.is_kind(c, "optional_parameter") {
            assert(picks(*tree, node as int, k as int, Pick::Parameters));
            let ghost before = *ctx;
            let p = parse_parameter(c, ctx)?;
            proof {
                lemma_same_place(c0, before);
                lemma_made_at_in(before, p, c as int);
                lemma_parameter_shape_frame(before, c0, c as int, p.kind->Parameter_0);
                lemma_same_frame_trans(c0, before, *ctx);
            }
            let ghost prev = children@;
            children.push(p);
            assert(children@.take(old(children)@.len() as int) =~= prev.take(old(children)@.len() as int));
            assert(children@.skip(old(children)@.len() as int) =~= prev.skip(old(children)@.len() as int).push(p));
        }
        k += 1;
    }
    Ok(())
}

/// Parses the formal parameters at `node` of a function or function type
/// into `children`, each in the parameter context.
pub fn parse_parameters(node: usize, children: &mut Vec<Symbol>, ctx: &mut ParserContext) -> (r: Result<(), DossierError>)
    requires
        old(ctx).wf(),
        node < old(ctx).tree.len(),
    ensures
        parse_kept(*old(ctx), *final(ctx)),
        r is Ok <==> params_ok(*old(ctx).tree, old(ctx).code.spec_bytes(), node as int),
        r is Ok ==> same_frame(*old(ctx), *final(ctx)),
        r is Ok ==> final(children)@.len() >= old(children)@.len() && final(children)@.take(
            old(children)@.len() as int,
        ) == old(children)@,
        r is Ok ==> parameters_read(
            *old(ctx),
            node as int,
            Some(SymbolContext::Parameter),
            final(children)@.skip(old(children)@.len() as int),
        ),
        r is Ok ==> forall|j: int| old(children)@.len() <= j < final(children)@.len() ==> (#[trigger] final(children)@[j]).context
            == Some(SymbolContext::Parameter),
    decreases old(ctx).tree.nodes@.len() - node, 0int,
{
    let ghost c0 = *ctx;
    let tree = ctx.tree;
    if !tree.is_kind(node, "formal_parameters") {
        return Err(DossierError::UnexpectedSyntax(tree.kind(node).to_owned()));
    }
    proof {
        lemma_same_frame_refl(c0);
    }
    let n = tree.child_count_of(node);
    let mut k: usize = 0;
    while k < n
        invariant
            tree.wf(),
            node < tree.len(),
            n == tree.child_count(node as int),
            k <= n,
            ctx.tree == tree,
            ctx.code == c0.code,
            same_frame(c0, *ctx),
            c0.tree == tree,
            old(ctx).tree == tree,
            old(ctx).code == c0.code,
            c0 == *old(ctx),
            children@.len() >= old(children)@.len(),
            children@.take(old(children)@.len() as int) == old(children)@,
            forall|j: int| old(children)@.len() <= j < children@.len() ==> (#[trigger] children@[j]).context
                == Some(SymbolContext::Parameter),
            c0.wf(),
            forall|j: int|
                0 <= j < k && #[trigger] picks(*tree, node as int, j, Pick::Parameters) ==> below(
                    *tree,
                    node as int,
                    tree.child(node as int, j),
                ) && param_ok(*tree, c0.code.spec_bytes(), tree.child(node as int, j)),
            ({
                let nodes = picked(*tree, node as int, k as int, Pick::Parameters);
                let ps = children@.skip(old(children)@.len() as int);
                &&& ps.len() == nodes.len()
                &&& forall|i: int| 0 <= i < ps.len() ==> {
                    &&& made_in(place_of(c0), Some(SymbolContext::Parameter), qualifiers(c0), #[trigger] ps[i], nodes[i])
                    &&& below(*tree, node as int, nodes[i])
                    &&& ps[i].kind matches SymbolKind::Parameter(p)
                    &&& parameter_shape(c0, nodes[i], p)
                }
            }),
        decreases n - k,
    {
        let c = tree.child_at(node, k);
        if tree.is_kind(c, "required_parameter") || tree.is_kind(c, "optional_parameter") {
            assert(picks(*tree, node as int, k as int, Pick::Parameters));
            let ghost before = *ctx;
            let mut p = parse_parameter(c, ctx)?;
            proof {
                lemma_same_place(c0, before);
                lemma_made_at_in(before, p, c as int);
                lemma_parameter_shape_frame(before, c0, c as int, p.kind->Parameter_0);
                lemma_same_frame_trans(c0, before, *ctx);
            }
            p.context = Some(SymbolContext::Parameter);
            let ghost prev = children@;
            children.push(p);
            assert(children@.take(old(children)@.len() as int) =~= prev.take(old(children)@.len() as int));
            assert(children@.skip(old(children)@.len() as int) =~= prev.skip(old(children)@.len() as int).push(p));
        }
        k += 1;
    }
    Ok(())
}

/// Parses the type parameters at `node` into `children`.
pub fn parse_type_parameters(node: usize, children: &mut Vec<Symbol>, ctx: &mut ParserContext) -> (r: Result<(), DossierError>)
    requires
        old(ctx).wf(),
        node < old(ctx).tree.len(),
    ensures
        parse_kept(*old(ctx), *final(ctx)),
        r is Ok <==> type_params_ok(*old(ctx).tree, old(ctx).code.spec_bytes(), node as int),
        r is Ok ==> same_frame(*old(ctx), *final(ctx)),
        r is Ok ==> final(children)@.len() >= old(children)@.len() && final(children)@.take(
            old(children)@.len() as int,
        ) == old(children)@,
        r is Ok ==> type_variables_read(*old(ctx), node as int, final(children)@.skip(old(children)@.len() as int)),
    decreases old(ctx).tree.nodes@.len() - node, 0int,
{
    let ghost c0 = *ctx;
    let tree = ctx.tree;
    proof {
        lemma_same_frame_refl(c0);
    }
    let n = tree.child_count_of(node);
    let mut k: usize = 0;
    while k < n
        invariant
            tree.wf(),
            node < tree.len(),
            n == tree.child_count(node as int),
            k <= n,
            ctx.tree == tree,
            ctx.code == c0.code,
            same_frame(c0, *ctx),
            c0.tree == tree,
            old(ctx).tree == tree,
            old(ctx).code == c0.code,
            c0 == *old(ctx),
            children@.len() >= old(children)@.len(),
            children@.take(old(children)@.len() as int) == old(children)@,
            c0.wf(),
            forall|j: int|
                0 <= j < k && #[trigger] picks(*tree, node as int, j, Pick::TypeParameters) ==> below(
                    *tree,
                    node as int,
                    tree.child(node as int, j),
                ) && type_var_ok(*tree, c0.code.spec_bytes(), tree.child(node as int, j)),
            ({
                let nodes = picked(*tree, node as int, k as int, Pick::TypeParameters);
                let vs = children@.skip(old(children)@.len() as int);
                &&& vs.len() == nodes.len()
                &&& forall|i: int| 0 <= i < vs.len() ==> {
                    &&& made_at(c0, #[trigger] vs[i], nodes[i])
                    &&& vs[i].kind matches SymbolKind::TypeVariable(v)
                    &&& type_variable_shape(c0, nodes[i], v)
                }
            }),
        decreases n - k,
    {
        let c = tree.child_at(node, k);
        if tree.is_kind(c, "type_parameter") {
            assert(picks(*tree, node as int, k as int, Pick::TypeParameters));
            let ghost before = *ctx;
            let v = parse_type_variable(c, ctx)?;
            proof {
                lemma_same_frame_names(c0, before);
                lemma_names_frame(c0, before);
                lemma_same_frame_trans(c0, before, *ctx);
            }
            let ghost prev = children@;
            children.push(v);
            assert(children@.take(old(children)@.len() as int) =~= prev.take(old(children)@.len() as int));
            assert(children@.skip(old(children)@.len() as int) =~= prev.skip(old(children)@.len() as int).push(v));
        }
        k += 1;
    }
    Ok(())
}

/// Parses the return type annotation at `node` of a method into
/// `children`, everything in it in the return type context.
pub fn parse_method_return_type(node: usize, children: &mut Vec<Symbol>, ctx: &mut ParserContext) -> (r: Result<(), DossierError>)
    requires
        old(ctx).wf(),
        node < old(ctx).tree.len(),
    ensures
        parse_kept(*old(ctx), *final(ctx)),
        r is Ok <==> return_ok(*old(ctx).tree, old(ctx).code.spec_bytes(), node as int),
        r is Ok ==> same_frame(*old(ctx), *final(ctx)),
        r is Ok ==> final(children)@.len() == old(children)@.len() + 1 && final(children)@.drop_last()
            == old(children)@ && final(children)@.last().context == Some(SymbolContext::ReturnType),
        r is Ok ==> (old(ctx).tree.named_from(node as int, 0) matches Some(k) && type_in(
            place_of(*old(ctx)),
            Some(SymbolContext::ReturnType),
            qualifiers(*old(ctx)),
            old(ctx).tree.child(node as int, k),
            final(children)@.last(),
        )),
    decreases old(ctx).tree.nodes@.len() - node, 0int,
{
    let ghost c0 = *ctx;
    let tree = ctx.tree;
    let c = first_named_child(tree, node)?;
    ctx.push_context(SymbolContext::ReturnType);
    let ghost pushed = *ctx;
    let t = parse_type(c, ctx)?;
    let ghost parsed = *ctx;
    ctx.pop_context();
    proof {
        assert(pushed.symbol_context@.drop_last() =~= c0.symbol_context@);
        lemma_context_push_pop_frame(c0, pushed, parsed, *ctx);
        assert(place_of(pushed) == place_of(c0));
        assert(qualifiers(pushed) == qualifiers(c0));
    }
    let ghost prev = children@;
    children.push(t);
    assert(children@.drop_last() =~= prev);
    Ok(())
}

/// Parses the return type annotation at `node` of a function into
/// `children`, the type itself marked as the return type.
pub fn parse_return_type(node: usize, children: &mut Vec<Symbol>, ctx: &mut ParserContext) -> (r: Result<(), DossierError>)
    requires
        old(ctx).wf(),
        node < old(ctx).tree.len(),
    ensures
        parse_kept(*old(ctx), *final(ctx)),
        r is Ok <==> return_ok(*old(ctx).tree, old(ctx).code.spec_bytes(), node as int),
        r is Ok ==> same_frame(*old(ctx), *final(ctx)),
        r is Ok ==> final(children)@.len() == old(children)@.len() + 1 && final(children)@.drop_last()
            == old(children)@ && final(children)@.last().context == Some(SymbolContext::ReturnType),
        r is Ok ==> (old(ctx).tree.named_from(node as int, 0) matches Some(k) && type_in(
            place_of(*old(ctx)),
            old(ctx).top_context(),
            qualifiers(*old(ctx)),
            old(ctx).tree.child(node as int, k),
            Symbol { context: old(ctx).top_context(), ..final(children)@.last() },
        )),
    decreases old(ctx).tree.nodes@.len() - node, 0int,
{
    let tree = ctx.tree;
    let c = first_named_child(tree, node)?;
    let mut t = parse_type(c, ctx)?;
    let ghost t0 = t;
    t.context = Some(SymbolContext::ReturnType);
    let ghost prev = children@;
    children.push(t);
    assert(children@.drop_last() =~= prev);
    assert(Symbol { context: old(ctx).top_context(), ..children@.last() } == t0);
    Ok(())
}

/// The part of the parameter at `node` after its name and its `?`, if it
/// has them: where a type annotation would stand.
pub open spec fn annotation_position(tree: SyntaxTree, node: int) -> int {
    let n = tree.child_count(node);
    if n > 1 {
        if tree.kind_of(tree.child(node, 1)) == "?"@ && n > 2 {
            2
        } else {
            1
        }
    } else {
        0
    }
}

/// Whether `p` is the parameter read from node `node` in `ctx`: its name,
/// whether a `?` marks it optional, and the type its annotation gives,
/// marked read-only where the annotation says so.
pub open spec fn parameter_shape(ctx: ParserContext, node: int, p: Parameter) -> bool
    decreases ctx.tree.nodes@.len() - node + 1, 0int,
{
    let tree = *ctx.tree;
    let n = tree.child_count(node);
    &&& (tree.kind_of(node) == "required_parameter"@ || tree.kind_of(node) == "optional_parameter"@)
    &&& if n == 0 {
        &&& p.identifier@ == text_at(ctx, node)
        &&& !p.optional
        &&& !p.readonly
        &&& p.children@.len() == 0
    } else {
        let at = tree.child(node, annotation_position(tree, node));
        &&& p.identifier@ == text_at(ctx, tree.child(node, 0))
        &&& p.optional == (n > 1 && tree.kind_of(tree.child(node, 1)) == "?"@)
        &&& if tree.kind_of(at) == "type_annotation"@ {
            &&& tree.child_count(at) > 1
            &&& p.readonly == (tree.kind_of(tree.child(at, 1)) == "readonly_type"@)
            &&& (p.readonly ==> tree.child_count(tree.child(at, 1)) > 1)
            &&& {
                let inner = if p.readonly {
                    tree.child(tree.child(at, 1), 1)
                } else {
                    tree.child(at, 1)
                };
                &&& p.children@.len() == 1
                &&& below(tree, node, inner)
                &&& type_in(place_of(ctx), ctx.top_context(), qualifiers(ctx), inner, p.children@[0])
            }
        } else {
            !p.readonly && p.children@.len() == 0
        }
    }
}

/// Parses the parameter at node `node`.
pub fn parse_parameter(node: usize, ctx: &mut ParserContext) -> (r: Result<Symbol, DossierError>)
    requires
        old(ctx).wf(),
        node < old(ctx).tree.len(),
    ensures
        parse_kept(*old(ctx), *final(ctx)),
        r is Ok <==> param_ok(*old(ctx).tree, old(ctx).code.spec_bytes(), node as int),
        r is Ok ==> same_frame(*old(ctx), *final(ctx)),
        r matches Ok(s) ==> made_at(*old(ctx), s, node as int) && (s.kind matches SymbolKind::Parameter(p)
            && parameter_shape(*old(ctx), node as int, p)),
    decreases old(ctx).tree.nodes@.len() - node, 0int,
{
    let ghost c0 = *ctx;
    let tree = ctx.tree;
    let code = ctx.code;
    if !(tree.is_kind(node, "required_parameter") || tree.is_kind(node, "optional_parameter")) {
        return Err(DossierError::UnexpectedSyntax(tree.kind(node).to_owned()));
    }
    let n = tree.child_count_of(node);
    let mut optional = false;
    let mut readonly = false;
    let mut children: Vec<Symbol> = Vec::new();
    proof {
        lemma_same_frame_refl(c0);
    }
    let identifier = if n == 0 {
        tree.text_string(code, node)?
    } else {
        let first = tree.child_at(node, 0);
        let identifier = tree.text_string(code, first)?;
        let mut cur = first;
        let mut k: usize = 0;
        if k + 1 < n {
            k += 1;
            cur = tree.child_at(node, k);
            if tree.is_kind(cur, "?") {
                optional = true;
                if k + 1 < n {
                    k += 1;
                    cur = tree.child_at(node, k);
                }
            }
        }
        if tree.is_kind(cur, "type_annotation") {
            let mut inner = nth_child(tree, cur, 1)?;
            if tree.is_kind(inner, "readonly_type") {
                readonly = true;
                inner = nth_child(tree, inner, 1)?;
            }
            let t = parse_type(inner, ctx)?;
            children.push(t);
        }
        identifier
    };
    proof {
        lemma_frame_names(c0, *ctx);
    }
    let source = Source::for_node(node, ctx);
    Ok(
        Symbol::in_context(
            ctx,
            SymbolKind::Parameter(Parameter { identifier, children, optional, readonly }),
            source,
        ),
    )
}

/// Whether `v` is the type variable read from the type parameter at `node`
/// in `ctx`: its name, and a constraint for each constraint after it.
pub open spec fn type_variable_shape(ctx: ParserContext, node: int, v: TypeVariable) -> bool {
    let tree = *ctx.tree;
    let cs = picked(tree, node, tree.child_count(node), Pick::Constraints);
    &&& tree.kind_of(node) == "type_parameter"@
    &&& tree.child_count(node) > 0
    &&& v.identifier@ == text_at(ctx, tree.child(node, 0))
    &&& v.documentation is None
    &&& v.children@.len() == cs.len()
    &&& forall|i: int| 0 <= i < cs.len() ==> made_at(ctx, #[trigger] v.children@[i], cs[i])
        && v.children@[i].kind is TypeConstraint
}

/// Whether `vs` are the type variables read in `ctx` from the type
/// parameters among the children of `node`, one by one.
pub open spec fn type_variables_read(ctx: ParserContext, node: int, vs: Seq<Symbol>) -> bool {
    let tree = *ctx.tree;
    let nodes = picked(tree, node, tree.child_count(node), Pick::TypeParameters);
    &&& vs.len() == nodes.len()
    &&& forall|i: int| 0 <= i < vs.len() ==> {
        &&& made_at(ctx, #[trigger] vs[i], nodes[i])
        &&& vs[i].kind matches SymbolKind::TypeVariable(v)
        &&& type_variable_shape(ctx, nodes[i], v)
    }
}

/// Parses the type parameter at node `node`.
pub fn parse_type_variable(node: usize, ctx: &mut ParserContext) -> (r: Result<Symbol, DossierError>)
    requires
        old(ctx).wf(),
        node < old(ctx).tree.len(),
    ensures
        parse_kept(*old(ctx), *final(ctx)),
        r is Ok <==> type_var_ok(*old(ctx).tree, old(ctx).code.spec_bytes(), node as int),
        r is Ok ==> same_frame(*old(ctx), *final(ctx)),
        r matches Ok(s) ==> made_at(*old(ctx), s, node as int) && (s.kind matches SymbolKind::TypeVariable(v)
            && type_variable_shape(*old(ctx), node as int, v)),
    decreases old(ctx).tree.nodes@.len() - node, 0int,
{
    let ghost c0 = *ctx;
    let tree = ctx.tree;
    let code = ctx.code;
    if !tree.is_kind(node, "type_parameter") {
        return Err(DossierError::UnexpectedSyntax(tree.kind(node).to_owned()));
    }
    let first = nth_child(tree, node, 0)?;
    let identifier = tree.text_string(code, first)?;
    let mut children: Vec<Symbol> = Vec::new();
    proof {
        lemma_same_frame_refl(c0);
        assert(picked(*tree, node as int, 1, Pick::Constraints) =~= Seq::<int>::empty()) by {
            assert(!picks(*tree, node as int, 0, Pick::Constraints));
            assert(picked(*tree, node as int, 0, Pick::Constraints) =~= Seq::<int>::empty());
        }
    }
    let n = tree.child_count_of(node);
    let mut k: usize = 1;
    while k < n
        invariant
            tree.wf(),
            node < tree.len(),
            n == tree.child_count(node as int),
            1 <= k,
            ctx.tree == tree,
            ctx.code == code,
            same_frame(c0, *ctx),
            c0.tree == tree,
            old(ctx).tree == tree,
            old(ctx).code == c0.code,
            c0 == *old(ctx),
            c0.wf(),
            k <= if n >= 1 { n } else { 1 },
            forall|j: int|
                0 <= j < k && #[trigger] picks(*tree, node as int, j, Pick::Constraints) ==> below(
                    *tree,
                    node as int,
                    tree.child(node as int, j),
                ) && constraint_ok(*tree, c0.code.spec_bytes(), tree.child(node as int, j)),
            ({
                let cs = picked(*tree, node as int, k as int, Pick::Constraints);
                &&& children@.len() == cs.len()
                &&& forall|i: int| 0 <= i < cs.len() ==> made_at(c0, #[trigger] children@[i], cs[i])
                    && children@[i].kind is TypeConstraint
            }),
        decreases n - k,
    {
        let c = tree.child_at(node, k);
        let ghost prev = children@;
        if tree.is_kind(c, "constraint") {
            assert(picks(*tree, node as int, k as int, Pick::Constraints));
            let ghost before = *ctx;
            let s = parse_type_constraint(c, ctx)?;
            proof {
                lemma_same_place(c0, before);
                lemma_made_at_in(before, s, c as int);
                lemma_made_at_in(c0, s, c as int);
                lemma_same_frame_trans(c0, before, *ctx);
            }
            children.push(s);
            proof {
                assert(picked(*tree, node as int, k + 1, Pick::Constraints) == picked(*tree, node as int, k as int, Pick::Constraints).push(c as int));
                assert forall|i: int| 0 <= i < prev.len() implies children@[i] == prev[i] by {}
            }
        }
        k += 1;
    }
    proof {
        if n == 0 {
            assert(picked(*tree, node as int, 0, Pick::Constraints) =~= Seq::<int>::empty());
        }
    }
    proof {
        lemma_frame_names(c0, *ctx);
    }
    let source = Source::for_node(node, ctx);
    Ok(
        Symbol::in_context(
            ctx,
            SymbolKind::TypeVariable(TypeVariable { identifier, documentation: None, children }),
            source,
        ),
    )
}

/// Parses the type constraint at node `node`.
pub fn parse_type_constraint(node: usize, ctx: &mut ParserContext) -> (r: Result<Symbol, DossierError>)
    requires
        old(ctx).wf(),
        node < old(ctx).tree.len(),
    ensures
        parse_kept(*old(ctx), *final(ctx)),
        r is Ok <==> constraint_ok(*old(ctx).tree, old(ctx).code.spec_bytes(), node as int),
        r is Ok ==> same_frame(*old(ctx), *final(ctx)),
        r matches Ok(s) ==> made_at(*old(ctx), s, node as int) && (s.kind matches SymbolKind::TypeConstraint(c) && {
            let tree = *old(ctx).tree;
            let first = tree.child(node as int, 0);
            &&& tree.kind_of(node as int) == "constraint"@
            &&& tree.child_count(node as int) > 0
            &&& c.extends == (tree.kind_of(first) == "extends"@)
            &&& (c.extends ==> tree.child_count(node as int) > 1)
            &&& c.children@.len() == 1
            &&& type_in(
                place_of(*old(ctx)),
                old(ctx).top_context(),
                qualifiers(*old(ctx)),
                if c.extends {
                    tree.child(node as int, 1)
                } else {
                    first
                },
                c.children@[0],
            )
        }),
    decreases old(ctx).tree.nodes@.len() - node, 0int,
{
    let ghost c0 = *ctx;
    let tree = ctx.tree;
    if !tree.is_kind(node, "constraint") {
        return Err(DossierError::UnexpectedSyntax(tree.kind(node).to_owned()));
    }
    let first = nth_child(tree, node, 0)?;
    let mut extends = false;
    let mut target = first;
    if tree.is_kind(first, "extends") {
        extends = true;
        target = nth_child(tree, node, 1)?;
    }
    let t = parse_type(target, ctx)?;
    let mut children: Vec<Symbol> = Vec::new();
    children.push(t);
    proof {
        lemma_frame_names(c0, *ctx);
    }
    let source = Source::for_node(node, ctx);
    Ok(
        Symbol::in_context(
            ctx,
            SymbolKind::TypeConstraint(TypeConstraint { extends, children }),
            source,
        ),
    )
}

} // verus!
