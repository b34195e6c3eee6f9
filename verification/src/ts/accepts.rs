//! What the TypeScript parsers accept: for each kind of node, the shape and
//! the readable text under which it parses without an error.
use vstd::prelude::*;
use crate::syntax::SyntaxTree;
use crate::ts::declarations::{specifier_name_from, statement_of};
use crate::ts::parse::{annotation_position, below, is_type_argument, picks, Pick};

verus! {

/// Whether the comment just before node `i`, if there is one, can be read.
pub open spec fn comment_readable(tree: SyntaxTree, b: Seq<u8>, i: int) -> bool {
    match tree.prev_sibling(i) {
        Some(p) => tree.kind_of(p) == "comment"@ ==> tree.text_ok(b, p),
        None => true,
    }
}

/// Whether the documentation of the declaration at `node` can be read: it
/// has a parent, and the comment before the export statement around it, or
/// else before itself, can be read.
pub open spec fn docs_readable(tree: SyntaxTree, b: Seq<u8>, node: int) -> bool {
    &&& tree.nodes@[node].parent matches Some(p)
    &&& if tree.kind_of(p as int) == "export_statement"@ {
        comment_readable(tree, b, p as int)
    } else {
        comment_readable(tree, b, node)
    }
}

/// Whether the type at `node` parses: its kind is one the type parser
/// reads, it has the parts that kind calls for, their text can be read,
/// and the types, signatures and parameters in it parse.
pub open spec fn type_ok(tree: SyntaxTree, b: Seq<u8>, node: int) -> bool
    decreases tree.nodes@.len() - node,
{
    let k = tree.kind_of(node);
    let n = tree.child_count(node);
    if !(0 <= node < tree.nodes@.len()) {
        false
    } else if k == "this_type"@ {
        true
    } else if k == "rest_type"@ || k == "infer_type"@ || k == "readonly_type"@ || k == "index_type_query"@ || k
        == "parenthesized_type"@ {
        n > 1 && below(tree, node, tree.child(node, 1)) && type_ok(tree, b, tree.child(node, 1))
    } else if k == "array_type"@ {
        n > 0 && below(tree, node, tree.child(node, 0)) && type_ok(tree, b, tree.child(node, 0))
    } else if k == "lookup_type"@ {
        &&& n > 2
        &&& below(tree, node, tree.child(node, 0)) && type_ok(tree, b, tree.child(node, 0))
        &&& below(tree, node, tree.child(node, 2)) && type_ok(tree, b, tree.child(node, 2))
    } else if k == "tuple_type"@ {
        forall|j: int|
            0 <= j < n && #[trigger] picks(tree, node, j, Pick::Named) ==> below(tree, node, tree.child(node, j))
                && type_ok(tree, b, tree.child(node, j))
    } else if k == "conditional_type"@ {
        forall|j: int|
            0 <= j < n && #[trigger] picks(tree, node, j, Pick::NamedNotComment) ==> below(
                tree,
                node,
                tree.child(node, j),
            ) && type_ok(tree, b, tree.child(node, j))
    } else if k == "union_type"@ {
        forall|j: int|
            0 <= j < n && #[trigger] picks(tree, node, j, Pick::Between("|")) ==> below(
                tree,
                node,
                tree.child(node, j),
            ) && type_ok(tree, b, tree.child(node, j))
    } else if k == "intersection_type"@ {
        forall|j: int|
            0 <= j < n && #[trigger] picks(tree, node, j, Pick::Between("&")) ==> below(
                tree,
                node,
                tree.child(node, j),
            ) && type_ok(tree, b, tree.child(node, j))
    } else if k == "generic_type"@ {
        &&& tree.field_child(node, "name"@) matches Some(nm)
        &&& tree.text_ok(b, nm)
        &&& forall|j: int|
            0 <= j < n && #[trigger] is_type_argument(tree, tree.child(node, j)) ==> {
                let a = tree.child(node, j);
                &&& tree.child_count(a) > 1
                &&& below(tree, node, tree.child(a, 1))
                &&& type_ok(tree, b, tree.child(a, 1))
            }
    } else if k == "function_type"@ {
        &&& (tree.field_child(node, "parameters"@) matches Some(p) ==> below(tree, node, p) && params_ok(
            tree,
            b,
            p,
        ))
        &&& (tree.field_child(node, "return_type"@) matches Some(r) ==> below(tree, node, r) && type_ok(
            tree,
            b,
            r,
        ))
    } else if k == "constructor_type"@ {
        &&& (tree.field_child(node, "type_parameters"@) matches Some(t) ==> below(tree, node, t)
            && type_params_ok(tree, b, t))
        &&& (tree.field_child(node, "parameters"@) matches Some(p) ==> below(tree, node, p)
            && method_params_ok(tree, b, p))
    } else if k == "template_literal_type"@ || k == "predefined_type"@ || k == "type_identifier"@ {
        tree.text_ok(b, node)
    } else if k == "literal_type"@ {
        n > 0 && tree.text_ok(b, tree.child(node, 0))
    } else if k == "type_query"@ {
        n > 1 && tree.text_ok(b, tree.child(node, 1))
    } else if k == "object_type"@ || k == "interface_body"@ {
        &&& tree.text_ok(b, node)
        &&& forall|j: int|
            1 <= j < n ==> {
                let c = #[trigger] tree.child(node, j);
                &&& (tree.kind_of(c) == "property_signature"@ ==> below(tree, node, c) && property_ok(tree, b, c))
                &&& (tree.kind_of(c) == "method_signature"@ ==> below(tree, node, c) && method_ok(tree, b, c))
            }
    } else {
        false
    }
}

/// Whether the property signature at `node` parses: it has a named part,
/// readable where it is an accessibility modifier, a name that can be
/// read, a type annotation, if any, with a type after its colon that
/// parses, and a comment before it, if any, that can be read.
pub open spec fn property_ok(tree: SyntaxTree, b: Seq<u8>, node: int) -> bool
    decreases tree.nodes@.len() - node,
{
    &&& tree.named_from(node, 0) matches Some(f)
    &&& (tree.kind_of(tree.child(node, f)) == "accessibility_modifier"@ ==> tree.text_ok(b, tree.child(node, f)))
    &&& tree.field_child(node, "name"@) matches Some(nm)
    &&& tree.text_ok(b, nm)
    &&& (tree.field_child(node, "type"@) matches Some(a) ==> {
        &&& tree.child_count(a) > 1
        &&& below(tree, node, tree.child(a, 1))
        &&& type_ok(tree, b, tree.child(a, 1))
    })
    &&& comment_readable(tree, b, node)
}

/// Whether the method signature or definition at `node` parses: its name
/// is computed, private or plain and can be read, it has parameters that
/// parse, type parameters and a return type, where it has them, that
/// parse, and documentation that can be read.
pub open spec fn method_ok(tree: SyntaxTree, b: Seq<u8>, node: int) -> bool
    decreases tree.nodes@.len() - node,
{
    let k = tree.kind_of(node);
    &&& (k == "method_signature"@ || k == "method_definition"@ || k == "abstract_method_signature"@)
    &&& tree.field_child(node, "name"@) matches Some(nm)
    &&& if tree.kind_of(nm) == "computed_property_name"@ {
        tree.child_count(nm) > 1 && tree.text_ok(b, tree.child(nm, 1))
    } else {
        (tree.kind_of(nm) == "private_property_identifier"@ || tree.kind_of(nm) == "property_identifier"@)
            && tree.text_ok(b, nm)
    }
    &&& tree.field_child(node, "parameters"@) matches Some(p)
    &&& (tree.field_child(node, "type_parameters"@) matches Some(t) ==> below(tree, node, t) && type_params_ok(
        tree,
        b,
        t,
    ))
    &&& below(tree, node, p) && method_params_ok(tree, b, p)
    &&& (tree.field_child(node, "return_type"@) matches Some(r) ==> below(tree, node, r) && return_ok(tree, b, r))
    &&& docs_readable(tree, b, node)
}

/// Whether the return type annotation at `node` parses: its first named
/// part is a type that parses.
pub open spec fn return_ok(tree: SyntaxTree, b: Seq<u8>, node: int) -> bool
    decreases tree.nodes@.len() - node,
{
    &&& tree.named_from(node, 0) matches Some(k)
    &&& below(tree, node, tree.child(node, k))
    &&& type_ok(tree, b, tree.child(node, k))
}

/// Whether the parameters among the children of `node` parse.
pub open spec fn method_params_ok(tree: SyntaxTree, b: Seq<u8>, node: int) -> bool
    decreases tree.nodes@.len() - node,
{
    forall|j: int|
        0 <= j < tree.child_count(node) && #[trigger] picks(tree, node, j, Pick::Parameters) ==> below(
            tree,
            node,
            tree.child(node, j),
        ) && param_ok(tree, b, tree.child(node, j))
}

/// Whether the formal parameters at `node` parse: `node` is a list of
/// formal parameters, and the parameters in it parse.
pub open spec fn params_ok(tree: SyntaxTree, b: Seq<u8>, node: int) -> bool
    decreases tree.nodes@.len() - node,
{
    &&& tree.kind_of(node) == "formal_parameters"@
    &&& forall|j: int|
        0 <= j < tree.child_count(node) && #[trigger] picks(tree, node, j, Pick::Parameters) ==> below(
            tree,
            node,
            tree.child(node, j),
        ) && param_ok(tree, b, tree.child(node, j))
}

/// Whether the parameter at `node` parses: its name can be read, and a
/// type annotation in the place for one has a type, read-only or not,
/// that parses.
pub open spec fn param_ok(tree: SyntaxTree, b: Seq<u8>, node: int) -> bool
    decreases tree.nodes@.len() - node,
{
    let n = tree.child_count(node);
    &&& (tree.kind_of(node) == "required_parameter"@ || tree.kind_of(node) == "optional_parameter"@)
    &&& if n == 0 {
        tree.text_ok(b, node)
    } else {
        let at = tree.child(node, annotation_position(tree, node));
        &&& tree.text_ok(b, tree.child(node, 0))
        &&& (tree.kind_of(at) == "type_annotation"@ ==> {
            &&& tree.child_count(at) > 1
            &&& (tree.kind_of(tree.child(at, 1)) == "readonly_type"@ ==> tree.child_count(tree.child(at, 1)) > 1)
            &&& {
                let inner = if tree.kind_of(tree.child(at, 1)) == "readonly_type"@ {
                    tree.child(tree.child(at, 1), 1)
                } else {
                    tree.child(at, 1)
                };
                below(tree, node, inner) && type_ok(tree, b, inner)
            }
        })
    }
}

/// Whether the type parameters among the children of `node` parse.
pub open spec fn type_params_ok(tree: SyntaxTree, b: Seq<u8>, node: int) -> bool
    decreases tree.nodes@.len() - node,
{
    forall|j: int|
        0 <= j < tree.child_count(node) && #[trigger] picks(tree, node, j, Pick::TypeParameters) ==> below(
            tree,
            node,
            tree.child(node, j),
        ) && type_var_ok(tree, b, tree.child(node, j))
}

/// Whether the type parameter at `node` parses: its name can be read and
/// the constraints after it parse.
pub open spec fn type_var_ok(tree: SyntaxTree, b: Seq<u8>, node: int) -> bool
    decreases tree.nodes@.len() - node,
{
    &&& tree.kind_of(node) == "type_parameter"@
    &&& tree.child_count(node) > 0
    &&& tree.text_ok(b, tree.child(node, 0))
    &&& forall|j: int|
        0 <= j < tree.child_count(node) && #[trigger] picks(tree, node, j, Pick::Constraints) ==> below(
            tree,
            node,
            tree.child(node, j),
        ) && constraint_ok(tree, b, tree.child(node, j))
}

/// Whether the constraint at `node` parses: the type it names, after
/// `extends` where it begins so, parses.
pub open spec fn constraint_ok(tree: SyntaxTree, b: Seq<u8>, node: int) -> bool
    decreases tree.nodes@.len() - node,
{
    let n = tree.child_count(node);
    &&& tree.kind_of(node) == "constraint"@
    &&& n > 0
    &&& (tree.kind_of(tree.child(node, 0)) == "extends"@ ==> n > 1)
    &&& {
        let target = if tree.kind_of(tree.child(node, 0)) == "extends"@ {
            tree.child(node, 1)
        } else {
            tree.child(node, 0)
        };
        below(tree, node, target) && type_ok(tree, b, target)
    }
}

/// Whether the documentation of the declaration at `node` can be read: the
/// comment before the export statement around it, or else before itself,
/// if there is one.
pub open spec fn documentation_readable(tree: SyntaxTree, b: Seq<u8>, node: int) -> bool {
    match tree.nodes@[node].parent {
        Some(p) => if tree.kind_of(p as int) == "export_statement"@ {
            comment_readable(tree, b, p as int)
        } else {
            comment_readable(tree, b, node)
        },
        None => true,
    }
}

/// Whether the function declaration at `node` parses: its name can be
/// read, it has formal parameters that parse, type parameters and a return
/// type, where it has them, that parse, and documentation that can be
/// read.
pub open spec fn function_ok(tree: SyntaxTree, b: Seq<u8>, node: int) -> bool {
    &&& tree.kind_of(node) == "function_declaration"@
    &&& tree.field_child(node, "name"@) matches Some(nm)
    &&& tree.text_ok(b, nm)
    &&& tree.field_child(node, "parameters"@) matches Some(p)
    &&& (tree.field_child(node, "type_parameters"@) matches Some(t) ==> type_params_ok(tree, b, t))
    &&& params_ok(tree, b, p)
    &&& (tree.field_child(node, "return_type"@) matches Some(r) ==> return_ok(tree, b, r))
    &&& documentation_readable(tree, b, node)
}

/// Whether the type alias declaration at `node` parses: its first named
/// part, its name, can be read, the type it names and its type parameters,
/// where it has them, parse, and its documentation can be read.
pub open spec fn alias_ok(tree: SyntaxTree, b: Seq<u8>, node: int) -> bool {
    &&& tree.kind_of(node) == "type_alias_declaration"@
    &&& tree.named_from(node, 0) matches Some(k)
    &&& tree.text_ok(b, tree.child(node, k))
    &&& (tree.field_child(node, "value"@) matches Some(v) ==> type_ok(tree, b, v))
    &&& (tree.field_child(node, "type_parameters"@) matches Some(t) ==> type_params_ok(tree, b, t))
    &&& documentation_readable(tree, b, node)
}

/// Whether the field definition at `node` parses: it has a named part,
/// readable where it is an accessibility modifier, a name and a value, if
/// any, that can be read, a type annotation, if any, with a type after its
/// colon that parses, and a comment before it, if any, that can be read.
pub open spec fn field_ok(tree: SyntaxTree, b: Seq<u8>, node: int) -> bool {
    &&& tree.kind_of(node) == "public_field_definition"@
    &&& tree.named_from(node, 0) matches Some(f)
    &&& (tree.kind_of(tree.child(node, f)) == "accessibility_modifier"@ ==> tree.text_ok(b, tree.child(node, f)))
    &&& tree.field_child(node, "name"@) matches Some(nm)
    &&& tree.text_ok(b, nm)
    &&& (tree.field_child(node, "type"@) matches Some(a) ==> tree.child_count(a) > 1 && type_ok(
        tree,
        b,
        tree.child(a, 1),
    ))
    &&& (tree.field_child(node, "value"@) matches Some(v) ==> tree.text_ok(b, v))
    &&& comment_readable(tree, b, node)
}

/// Whether the methods and fields of the class body at `node` parse.
pub open spec fn class_body_ok(tree: SyntaxTree, b: Seq<u8>, node: int) -> bool {
    forall|j: int|
        0 <= j < tree.child_count(node) && #[trigger] picks(tree, node, j, Pick::ClassMembers) ==> {
            let c = tree.child(node, j);
            if tree.kind_of(c) == "public_field_definition"@ {
                field_ok(tree, b, c)
            } else {
                method_ok(tree, b, c)
            }
        }
}

/// Whether the class declaration at `node` parses: its name can be read,
/// its body parses, and its documentation can be read.
pub open spec fn class_ok(tree: SyntaxTree, b: Seq<u8>, node: int) -> bool {
    &&& (tree.kind_of(node) == "class_declaration"@ || tree.kind_of(node) == "abstract_class_declaration"@)
    &&& tree.field_child(node, "name"@) matches Some(nm)
    &&& tree.text_ok(b, nm)
    &&& tree.field_child(node, "body"@) matches Some(bd)
    &&& class_body_ok(tree, b, bd)
    &&& documentation_readable(tree, b, node)
}

/// Whether what follows the name and type parameters of the interface at
/// `node`, from its child at position `k` on, parses: the type an extends
/// clause there names, and the body.
pub open spec fn interface_rest_ok(tree: SyntaxTree, b: Seq<u8>, node: int, k: int) -> bool {
    let n = tree.child_count(node);
    let c = tree.child(node, k);
    if tree.kind_of(c) == "extends_type_clause"@ {
        let body = if k + 1 < n {
            tree.child(node, k + 1)
        } else {
            c
        };
        tree.child_count(c) > 1 && type_ok(tree, b, tree.child(c, 1)) && type_ok(tree, b, body)
    } else {
        type_ok(tree, b, c)
    }
}

/// Whether the interface declaration at `node` parses: its name can be
/// read, the type parameters after it, if they are there, and the rest
/// parse, and its documentation can be read.
pub open spec fn interface_ok(tree: SyntaxTree, b: Seq<u8>, node: int) -> bool {
    let n = tree.child_count(node);
    let k0 = if 2 < n {
        2
    } else {
        1
    };
    let tp = tree.child(node, k0);
    let k1 = if k0 + 1 < n {
        k0 + 1
    } else {
        k0
    };
    &&& tree.kind_of(node) == "interface_declaration"@
    &&& n > 1
    &&& tree.text_ok(b, tree.child(node, 1))
    &&& (tree.kind_of(tp) == "type_parameters"@ ==> type_params_ok(tree, b, tp))
    &&& interface_rest_ok(tree, b, node, k1)
    &&& documentation_readable(tree, b, node)
}

/// Whether the import statement at `node` parses: it has the parts an
/// import is made of, and the names between its braces and the module path
/// can be read.
pub open spec fn import_ok(tree: SyntaxTree, b: Seq<u8>, node: int) -> bool {
    &&& tree.kind_of(node) == "import_statement"@
    &&& tree.child_count(node) > 1
    &&& tree.child_count(tree.child(node, 1)) > 0
    &&& {
        let named = tree.child(tree.child(node, 1), 0);
        forall|j: int|
            1 <= j < tree.child_count(named) && tree.nodes@[#[trigger] tree.child(named, j)].named ==> tree.text_ok(
                b,
                tree.child(named, j),
            )
    }
    &&& tree.child_count(node) > 3
    &&& tree.child_count(tree.child(node, 3)) > 1
    &&& tree.text_ok(b, tree.child(tree.child(node, 3), 1))
}

/// Whether the export clause at `node` parses: the name each export
/// specifier in it exports can be read.
pub open spec fn exports_ok(tree: SyntaxTree, b: Seq<u8>, node: int) -> bool {
    &&& tree.kind_of(node) == "export_clause"@
    &&& forall|j: int|
        0 <= j < tree.child_count(node) && tree.kind_of(#[trigger] tree.child(node, j)) == "export_specifier"@
            ==> {
            let c = tree.child(node, j);
            if tree.child_count(c) == 0 {
                tree.text_ok(b, c)
            } else {
                tree.text_ok(b, tree.child(c, specifier_name_from(tree, c, 0)))
            }
        }
}

/// Whether the top-level statement at `node` parses: an import, a
/// function, a type alias or an export clause that parses, or any other
/// statement.
pub open spec fn statement_ok(tree: SyntaxTree, b: Seq<u8>, node: int) -> bool {
    let k = tree.kind_of(node);
    if k == "import_statement"@ {
        import_ok(tree, b, node)
    } else if k == "function_declaration"@ {
        function_ok(tree, b, node)
    } else if k == "type_alias_declaration"@ {
        alias_ok(tree, b, node)
    } else if k == "export_clause"@ {
        exports_ok(tree, b, node)
    } else {
        true
    }
}

/// Whether a whole file parses: its root is a program, and the statement
/// read for each of its top-level statements but comments parses.
pub open spec fn program_ok(tree: SyntaxTree, b: Seq<u8>) -> bool {
    &&& tree.kind_of(0) == "program"@
    &&& forall|k: int|
        0 <= k < tree.child_count(0) && tree.kind_of(#[trigger] tree.child(0, k)) != "comment"@ ==> statement_ok(
            tree,
            b,
            statement_of(tree, tree.child(0, k)),
        )
}

} // verus!
