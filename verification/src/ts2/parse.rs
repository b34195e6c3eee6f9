//! The declarations this front end reads: function declarations, with
//! the type they return, and imports.
use vstd::prelude::*;
use vstd::string::StringSliceAdditionalSpecFns;
use crate::common::{qualified, views, DossierError};
use crate::ts::declarations::{lemma_statements_prefix, opt_string, shown_docs, statement_of, statements};
use crate::syntax::{grammar_accepted, tree_reads, Grammar, SyntaxTree};
use crate::ts::import::Import;
use crate::ts::symbol_table::{after, ScopeIds};
use crate::ts2::entries::{entries_inserted, entries_of};
use crate::ts2::function::Function;
use crate::ts2::symbols::{
    entry_added, scope_names, Source, Symbol, SymbolKind, SymbolTable, TableEntry,
};
use crate::ts2::types::Type;

verus! {

broadcast use vstd::seq_lib::group_seq_properties;

/// The text of node `i` of `tree` over `code`.
pub open spec fn text_in(tree: SyntaxTree, code: &str, i: int) -> Seq<char> {
    tree.text_of(code.spec_bytes(), i)
}

/// The type at node `node`: a predefined type, or one named by an
/// identifier, unresolved.
pub fn parse_type(tree: &SyntaxTree, code: &str, node: usize) -> (r: Result<Type, DossierError>)
    requires
        node < tree.len(),
    ensures
        match r {
            Ok(t) => (tree.kind_of(node as int) == "predefined_type"@ && (t matches Type::Predefined(n)
                && n@ == text_in(*tree, code, node as int))) || (tree.kind_of(node as int) == "type_identifier"@
                && (t matches Type::Identifier(n, None) && n@ == text_in(*tree, code, node as int))),
            Err(_) => tree.kind_of(node as int) != "predefined_type"@ && tree.kind_of(node as int)
                != "type_identifier"@ || !tree.text_ok(code.spec_bytes(), node as int),
        },
        r is Ok <==> type_ok(*tree, code, node as int),
{
    if tree.is_kind(node, "predefined_type") {
        Ok(Type::Predefined(tree.text_string(code, node)?))
    } else if tree.is_kind(node, "type_identifier") {
        Ok(Type::Identifier(tree.text_string(code, node)?, None))
    } else {
        Err(DossierError::UnexpectedSyntax(tree.kind(node).to_owned()))
    }
}

/// Whether `t` is the type read from node `n`: a predefined type, or one
/// named by an identifier, unresolved.
pub open spec fn type_read(tree: SyntaxTree, code: &str, n: int, t: Type) -> bool {
    ||| tree.kind_of(n) == "predefined_type"@ && (t matches Type::Predefined(s) && s@ == text_in(tree, code, n))
    ||| tree.kind_of(n) == "type_identifier"@ && (t matches Type::Identifier(s, None) && s@ == text_in(tree, code, n))
}

/// Whether the text of node `i` can be read: its byte range cuts `code`
/// at character boundaries.
pub open spec fn readable_in(tree: SyntaxTree, code: &str, i: int) -> bool {
    tree.text_ok(code.spec_bytes(), i)
}

/// Whether node `n` reads as a type.
pub open spec fn type_ok(tree: SyntaxTree, code: &str, n: int) -> bool {
    (tree.kind_of(n) == "predefined_type"@ || tree.kind_of(n) == "type_identifier"@) && readable_in(tree, code, n)
}

/// Whether the comment before node `i`, if there is one, can be read.
pub open spec fn comment_ok(tree: SyntaxTree, code: &str, i: int) -> bool {
    match tree.prev_sibling(i) {
        Some(p) => tree.kind_of(p) == "comment"@ ==> readable_in(tree, code, p),
        None => true,
    }
}

/// Whether the function declaration at `node` reads: it has a name that
/// can be read, a return type annotation, if it has one, with a named part
/// that reads as a type, and a parent, before which or before itself the
/// comment, if there is one, can be read.
pub open spec fn function_ok(tree: SyntaxTree, code: &str, node: int) -> bool {
    &&& tree.kind_of(node) == "function_declaration"@
    &&& tree.field_child(node, "name"@) matches Some(n)
    &&& readable_in(tree, code, n)
    &&& (tree.field_child(node, "return_type"@) matches Some(a) ==> (tree.named_from(a, 0) matches Some(k)
        && type_ok(tree, code, tree.child(a, k))))
    &&& tree.nodes@[node].parent matches Some(p)
    &&& if tree.kind_of(p as int) == "export_statement"@ {
        comment_ok(tree, code, p as int)
    } else {
        comment_ok(tree, code, node)
    }
}

/// Whether the import statement at `node` reads: it has the parts an
/// import is made of, and every name between its braces and the module
/// path can be read.
pub open spec fn import_ok(tree: SyntaxTree, code: &str, node: int) -> bool {
    &&& tree.kind_of(node) == "import_statement"@
    &&& tree.child_count(node) > 3
    &&& tree.child_count(tree.child(node, 1)) > 0
    &&& {
        let named = tree.child(tree.child(node, 1), 0);
        forall|j: int| 1 <= j < tree.child_count(named) && tree.nodes@[#[trigger] tree.child(named, j)].named
            ==> readable_in(tree, code, tree.child(named, j))
    }
    &&& tree.child_count(tree.child(node, 3)) > 1
    &&& readable_in(tree, code, tree.child(tree.child(node, 3), 1))
}

/// Whether the statement at `node` reads: an import or a function
/// declaration that reads, or any other statement.
pub open spec fn statement_ok(tree: SyntaxTree, code: &str, node: int) -> bool {
    let k = tree.kind_of(node);
    if k == "import_statement"@ {
        import_ok(tree, code, node)
    } else if k == "function_declaration"@ {
        function_ok(tree, code, node)
    } else {
        true
    }
}

/// The text of the comment just before node `i`, if there is one.
pub open spec fn comment_ahead(tree: SyntaxTree, code: &str, i: int) -> Option<Seq<char>> {
    match tree.prev_sibling(i) {
        Some(p) => if tree.kind_of(p) == "comment"@ {
            Some(text_in(tree, code, p))
        } else {
            None
        },
        None => None,
    }
}

/// Whether the declaration at `node` stands in an export statement.
pub open spec fn exported(tree: SyntaxTree, node: int) -> bool {
    tree.nodes@[node].parent matches Some(p) && tree.kind_of(p as int) == "export_statement"@
}

/// The comment documenting the declaration at `node`: the one before the
/// export statement around it, or else the one before the declaration.
pub open spec fn documented(tree: SyntaxTree, code: &str, node: int) -> Option<Seq<char>> {
    match tree.nodes@[node].parent {
        Some(p) => if tree.kind_of(p as int) == "export_statement"@ {
            comment_ahead(tree, code, p as int)
        } else {
            comment_ahead(tree, code, node)
        },
        None => None,
    }
}

/// Whether `rt` is the return type read from the declaration at `node`:
/// the first named part of its annotation, or none without one.
pub open spec fn return_read(tree: SyntaxTree, code: &str, node: int, rt: Option<Type>) -> bool {
    match tree.field_child(node, "return_type"@) {
        Some(a) => tree.named_from(a, 0) matches Some(k) && (rt matches Some(t) && type_read(
            tree,
            code,
            tree.child(a, k),
            t,
        )),
        None => rt is None,
    }
}

/// The source range of node `n`.
pub open spec fn range_of(tree: SyntaxTree, n: int) -> Source {
    Source { offset_start_bytes: tree.nodes@[n].start_byte, offset_end_bytes: tree.nodes@[n].end_byte }
}

/// Whether `identifier` and `s` are what the function declaration at
/// `node` declares: its name, documentation, whether it is exported, and
/// the type it returns.
pub open spec fn function_read(tree: SyntaxTree, code: &str, node: int, identifier: Seq<char>, s: Symbol) -> bool {
    &&& tree.kind_of(node) == "function_declaration"@
    &&& tree.field_child(node, "name"@) matches Some(n)
    &&& identifier == text_in(tree, code, n)
    &&& s.source == range_of(tree, node)
    &&& s.kind matches SymbolKind::Function(f)
    &&& f.identifier@ == identifier
    &&& f.is_exported == exported(tree, node)
    &&& opt_string(f.documentation) == shown_docs(documented(tree, code, node))
    &&& return_read(tree, code, node, f.return_type)
}

/// A function declared in an export statement counts as exported, and is
/// documented by the comment just before the export statement: where that comes right after
/// a comment, the function's documentation is the comment's text without
/// its delimiters, and where it comes after anything else, or first, the
/// function has none.
pub proof fn law_exported_function_documentation(
    tree: SyntaxTree,
    code: &str,
    node: int,
    identifier: Seq<char>,
    s: Symbol,
)
    requires
        function_read(tree, code, node, identifier, s),
        exported(tree, node),
    ensures
        s.kind matches SymbolKind::Function(f) && f.is_exported && match tree.prev_sibling(tree.nodes@[node].parent->Some_0 as int) {
            Some(q) => if tree.kind_of(q) == "comment"@ {
                f.documentation matches Some(d) && d@ == crate::ts::helpers::comment_text(text_in(tree, code, q))
            } else {
                f.documentation is None
            },
            None => f.documentation is None,
        },
{
}

/// A function declared outside an export statement does not count as
/// exported, and is documented by the comment just before it, where there
/// is one.
pub proof fn law_function_documentation(tree: SyntaxTree, code: &str, node: int, identifier: Seq<char>, s: Symbol)
    requires
        function_read(tree, code, node, identifier, s),
        !exported(tree, node),
    ensures
        s.kind matches SymbolKind::Function(f) && !f.is_exported && match tree.prev_sibling(node) {
            Some(q) => if tree.kind_of(q) == "comment"@ && tree.nodes@[node].parent is Some {
                f.documentation matches Some(d) && d@ == crate::ts::helpers::comment_text(text_in(tree, code, q))
            } else {
                f.documentation is None
            },
            None => f.documentation is None,
        },
{
}

/// The comment just before node `i`, if there is one.
fn comment_before<'a>(tree: &SyntaxTree, code: &'a str, i: usize) -> (r: Result<Option<String>, DossierError>)
    requires
        tree.wf(),
        i < tree.len(),
    ensures
        r matches Ok(d) ==> opt_string(d) == shown_docs(comment_ahead(*tree, code, i as int)),
        r is Ok <==> comment_ok(*tree, code, i as int),
{
    match tree.prev_sibling_of(i) {
        Some(p) => if tree.is_kind(p, "comment") {
            Ok(Some(crate::ts::helpers::process_comment(tree.text(code, p)?)))
        } else {
            Ok(None)
        },
        None => Ok(None),
    }
}

/// Parses the function declaration at node `node`: its name, its
/// documentation, whether it is exported, and the type it returns.
pub fn parse_function(tree: &SyntaxTree, code: &str, node: usize) -> (r: Result<(String, Symbol), DossierError>)
    requires
        tree.wf(),
        node < tree.len(),
    ensures
        r matches Ok((identifier, s)) ==> function_read(*tree, code, node as int, identifier@, s),
        tree.kind_of(node as int) != "function_declaration"@ ==> r is Err,
        r is Ok <==> function_ok(*tree, code, node as int),
{
    if !tree.is_kind(node, "function_declaration") {
        return Err(DossierError::UnexpectedSyntax(tree.kind(node).to_owned()));
    }
    let name = match tree.child_by_field_name(node, "name") {
        Some(n) => n,
        None => return Err(DossierError::UnexpectedSyntax(tree.kind(node).to_owned())),
    };
    let identifier = tree.text_string(code, name)?;
    let return_type = match tree.child_by_field_name(node, "return_type") {
        Some(annotation) => {
            let k = match named_from(tree, annotation, 0) {
                Some(k) => k,
                None => return Err(DossierError::UnexpectedSyntax(tree.kind(annotation).to_owned())),
            };
            Some(parse_type(tree, code, tree.child_at(annotation, k))?)
        },
        None => None,
    };
    let parent = tree.parent_of(node);
    let (documentation, is_exported) = match parent {
        Some(p) => if tree.is_kind(p, "export_statement") {
            (comment_before(tree, code, p)?, true)
        } else {
            (comment_before(tree, code, node)?, false)
        },
        None => return Err(DossierError::UnexpectedSyntax(tree.kind(node).to_owned())),
    };
    let symbol = Symbol {
        kind: SymbolKind::Function(
            Function { identifier: identifier.clone(), documentation, is_exported, return_type },
        ),
        source: Source {
            offset_start_bytes: tree.nodes[node].start_byte,
            offset_end_bytes: tree.nodes[node].end_byte,
        },
    };
    Ok((identifier, symbol))
}

/// The position among the children of `node`, from `from` on, of the first
/// named one.
fn named_from(tree: &SyntaxTree, node: usize, from: usize) -> (r: Option<usize>)
    requires
        tree.wf(),
        node < tree.len(),
    ensures
        match r {
            Some(k) => tree.named_from(node as int, from as int) == Some(k as int) && k < tree.child_count(
                node as int,
            ),
            None => tree.named_from(node as int, from as int) is None,
        },
{
    let n = tree.child_count_of(node);
    let mut k: usize = from;
    while k < n
        invariant
            tree.wf(),
            node < tree.len(),
            n == tree.child_count(node as int),
            from <= k,
            tree.named_from(node as int, from as int) == tree.named_from(node as int, k as int),
        decreases n - k,
    {
        if tree.is_named(tree.child_at(node, k)) {
            return Some(k);
        }
        k += 1;
    }
    None
}

/// Whether `identifier` and `s` are what the type alias declaration at
/// `node` declares: the name in its first named part, and the type in the
/// named part after it.
pub open spec fn type_alias_read(tree: SyntaxTree, code: &str, node: int, identifier: Seq<char>, s: Symbol) -> bool {
    &&& tree.kind_of(node) == "type_alias_declaration"@
    &&& tree.named_from(node, 0) matches Some(i)
    &&& identifier == text_in(tree, code, tree.child(node, i))
    &&& tree.named_from(node, i + 1) matches Some(j)
    &&& s.source == range_of(tree, node)
    &&& s.kind matches SymbolKind::TypeAlias(a)
    &&& a.identifier@ == identifier
    &&& a.type_kind.source == range_of(tree, tree.child(node, j))
    &&& a.type_kind.kind matches SymbolKind::Type(t)
    &&& type_read(tree, code, tree.child(node, j), t)
}

/// Whether the type alias declaration at `node` reads: its first named
/// part can be read, and the named part after it reads as a type.
pub open spec fn type_alias_ok(tree: SyntaxTree, code: &str, node: int) -> bool {
    &&& tree.kind_of(node) == "type_alias_declaration"@
    &&& tree.named_from(node, 0) matches Some(i)
    &&& readable_in(tree, code, tree.child(node, i))
    &&& tree.named_from(node, i + 1) matches Some(j)
    &&& type_ok(tree, code, tree.child(node, j))
}

/// Parses the type alias declaration at node `node`: its name, from the
/// first named part, and the type it names, from the named part after it.
pub fn parse_type_alias(tree: &SyntaxTree, code: &str, node: usize) -> (r: Result<(String, Symbol), DossierError>)
    requires
        tree.wf(),
        node < tree.len(),
    ensures
        r matches Ok((identifier, s)) ==> type_alias_read(*tree, code, node as int, identifier@, s),
        tree.kind_of(node as int) != "type_alias_declaration"@ ==> r is Err,
        r is Ok <==> type_alias_ok(*tree, code, node as int),
{
    if !tree.is_kind(node, "type_alias_declaration") {
        return Err(DossierError::UnexpectedSyntax(tree.kind(node).to_owned()));
    }
    let first = match named_from(tree, node, 0) {
        Some(k) => k,
        None => return Err(DossierError::UnexpectedSyntax(tree.kind(node).to_owned())),
    };
    let identifier = tree.text_string(code, tree.child_at(node, first))?;
    let count = tree.child_count_of(node);
    assert(first < count);
    let second = match named_from(tree, node, first + 1) {
        Some(k) => k,
        None => return Err(DossierError::UnexpectedSyntax(tree.kind(node).to_owned())),
    };
    let value = tree.child_at(node, second);
    let t = parse_type(tree, code, value)?;
    let type_kind = Symbol {
        kind: SymbolKind::Type(t),
        source: Source {
            offset_start_bytes: tree.nodes[value].start_byte,
            offset_end_bytes: tree.nodes[value].end_byte,
        },
    };
    let symbol = Symbol {
        kind: SymbolKind::TypeAlias(
            crate::ts2::type_alias::TypeAlias { identifier: identifier.clone(), type_kind: Box::new(type_kind) },
        ),
        source: Source {
            offset_start_bytes: tree.nodes[node].start_byte,
            offset_end_bytes: tree.nodes[node].end_byte,
        },
    };
    Ok((identifier, symbol))
}

/// The texts of the named children of `node` from position 1 up to `k`.
pub open spec fn names_in(tree: SyntaxTree, code: &str, node: int, k: int) -> Seq<Seq<char>>
    decreases k,
{
    if k <= 1 {
        Seq::empty()
    } else {
        let c = tree.child(node, k - 1);
        let before = names_in(tree, code, node, k - 1);
        if tree.nodes@[c].named {
            before.push(text_in(tree, code, c))
        } else {
            before
        }
    }
}

/// Whether `i` is the import read from the import statement at `node`:
/// the names between its braces and the module path they come from.
pub open spec fn import_read(tree: SyntaxTree, code: &str, node: int, i: Import) -> bool {
    &&& tree.kind_of(node) == "import_statement"@
    &&& tree.child_count(node) > 3
    &&& tree.child_count(tree.child(node, 1)) > 0
    &&& tree.child_count(tree.child(node, 3)) > 1
    &&& {
        let named = tree.child(tree.child(node, 1), 0);
        views(i.names@) == names_in(tree, code, named, tree.child_count(named))
    }
    &&& i.source@ == text_in(tree, code, tree.child(tree.child(node, 3), 1))
}

/// Parses the import statement at `node`: the names between the braces and
/// the module path they come from.
pub fn parse_import(tree: &SyntaxTree, code: &str, node: usize) -> (r: Result<Import, DossierError>)
    requires
        tree.wf(),
        node < tree.len(),
    ensures
        r matches Ok(i) ==> import_read(*tree, code, node as int, i),
        tree.kind_of(node as int) != "import_statement"@ ==> r is Err,
        r is Ok <==> import_ok(*tree, code, node as int),
{
    if !tree.is_kind(node, "import_statement") || tree.child_count_of(node) < 4 {
        return Err(DossierError::UnexpectedSyntax(tree.kind(node).to_owned()));
    }
    let clause = tree.child_at(node, 1);
    if tree.child_count_of(clause) == 0 {
        return Err(DossierError::UnexpectedSyntax(tree.kind(clause).to_owned()));
    }
    let named = tree.child_at(clause, 0);
    let mut names: Vec<String> = Vec::new();
    let m = tree.child_count_of(named);
    let mut j: usize = 1;
    while j < m
        invariant
            tree.wf(),
            named < tree.len(),
            m == tree.child_count(named as int),
            1 <= j <= if m >= 1 { m } else { 1 },
            views(names@) == names_in(*tree, code, named as int, j as int),
            node < tree.len(),
            tree.child_count(node as int) > 3,
            clause == tree.child(node as int, 1),
            tree.child_count(clause as int) > 0,
            named == tree.child(clause as int, 0),
            forall|i: int| 1 <= i < j && tree.nodes@[#[trigger] tree.child(named as int, i)].named ==> readable_in(
                *tree,
                code,
                tree.child(named as int, i),
            ),
        decreases m - j,
    {
        let s = tree.child_at(named, j);
        if tree.is_named(s) {
            let ghost before = names@;
            let text = match tree.text_string(code, s) {
                Ok(t) => t,
                Err(e) => {
                    assert(tree.nodes@[tree.child(named as int, j as int)].named);
                    assert(!import_ok(*tree, code, node as int));
                    return Err(e);
                },
            };
            names.push(text);
            assert(views(names@) =~= views(before).push(names@.last()@));
        }
        j += 1;
    }
    let string = tree.child_at(node, 3);
    if tree.child_count_of(string) < 2 {
        return Err(DossierError::UnexpectedSyntax(tree.kind(string).to_owned()));
    }
    let fragment = tree.child_at(string, 1);
    let source = tree.text_string(code, fragment)?;
    proof {
        if m == 0 {
            assert(names_in(*tree, code, named as int, 0) == Seq::<Seq<char>>::empty());
        }
    }
    Ok(Import { names, source })
}

/// Whether `t1` is `t0` with what the statement at `node` declares added
/// to its current scope: the import an import statement reads, or the
/// function a function declaration reads, under its name; other
/// statements leave it as it was.
pub open spec fn statement_added(tree: SyntaxTree, code: &str, node: int, t0: SymbolTable, t1: SymbolTable) -> bool {
    let c = t0.current as int;
    let k = tree.kind_of(node);
    &&& t1.wf()
    &&& t1.file == t0.file
    &&& t1.current == t0.current
    &&& t1.scopes@.len() == t0.scopes@.len()
    &&& forall|s: int| 0 <= s < t0.scopes@.len() && s != c ==> #[trigger] t1.scopes@[s] == t0.scopes@[s]
    &&& t1.scopes@[c].identifier == t0.scopes@[c].identifier
    &&& t1.scopes@[c].id == t0.scopes@[c].id
    &&& t1.scopes@[c].parent == t0.scopes@[c].parent
    &&& t1.scopes@[c].parent_at == t0.scopes@[c].parent_at
    &&& if k == "import_statement"@ {
        &&& entries_of(t1.scopes@[c].entries) == entries_of(t0.scopes@[c].entries)
        &&& t1.scopes@[c].imports@.len() == t0.scopes@[c].imports@.len() + 1
        &&& t1.scopes@[c].imports@.drop_last() == t0.scopes@[c].imports@
        &&& import_read(tree, code, node, t1.scopes@[c].imports@.last())
    } else if k == "function_declaration"@ {
        &&& t1.scopes@[c].imports@ == t0.scopes@[c].imports@
        &&& exists|id: Seq<char>, sym: Symbol| #[trigger] function_read(tree, code, node, id, sym) && entry_added(
            entries_of(t0.scopes@[c].entries),
            entries_of(t1.scopes@[c].entries),
            id,
            sym,
            t0.fqn_for(id),
        )
    } else {
        &&& t1.scopes@[c].imports@ == t0.scopes@[c].imports@
        &&& entries_of(t1.scopes@[c].entries) == entries_of(t0.scopes@[c].entries)
    }
}

/// Adds to `table` what the top-level statement at `node` declares: an
/// import, or a function under its name; other statements add nothing.
pub fn handle_node(tree: &SyntaxTree, code: &str, node: usize, table: &mut SymbolTable) -> (r: Result<(), DossierError>)
    requires
        tree.wf(),
        node < tree.len(),
        old(table).wf(),
    ensures
        final(table).wf(),
        final(table).file == old(table).file,
        final(table).current == old(table).current,
        final(table).scopes@.len() == old(table).scopes@.len(),
        r is Ok ==> statement_added(*tree, code, node as int, *old(table), *final(table)),
        r is Ok <==> statement_ok(*tree, code, node as int),
{
    proof {
        reveal_strlit("import_statement");
        reveal_strlit("function_declaration");
    }
    let ghost t0 = *table;
    let ghost c = t0.current as int;
    if tree.is_kind(node, "import_statement") {
        let import = parse_import(tree, code, node)?;
        table.add_import(import);
        assert(table.scopes@[c].imports@.drop_last() =~= t0.scopes@[c].imports@);
        assert(statement_added(*tree, code, node as int, t0, *table));
    } else if tree.is_kind(node, "function_declaration") {
        assert("import_statement"@.len() == 16);
        let (identifier, symbol) = parse_function(tree, code, node)?;
        table.add_symbol(identifier.as_str(), symbol);
        assert(function_read(*tree, code, node as int, identifier@, symbol));
        assert(table.scopes@[c].imports == t0.scopes@[c].imports);
        assert(statement_added(*tree, code, node as int, t0, *table));
    } else {
        assert(statement_added(*tree, code, node as int, t0, *table));
    }
    Ok(())
}

/// Whether `fs` and `imports` are what the statements `nodes` of the file
/// `file` declare, in order: each function under its name, with its fully
/// qualified name in the root scope, and each import.
pub open spec fn declared(
    tree: SyntaxTree,
    code: &str,
    file: Seq<char>,
    nodes: Seq<int>,
    fs: Seq<(Seq<char>, TableEntry)>,
    imports: Seq<Import>,
) -> bool
    decreases nodes.len(),
{
    if nodes.len() == 0 {
        fs.len() == 0 && imports.len() == 0
    } else {
        let n = nodes.last();
        let k = tree.kind_of(n);
        if k == "import_statement"@ {
            &&& imports.len() > 0
            &&& import_read(tree, code, n, imports.last())
            &&& declared(tree, code, file, nodes.drop_last(), fs, imports.drop_last())
        } else if k == "function_declaration"@ {
            &&& fs.len() > 0
            &&& function_read(tree, code, n, fs.last().0, fs.last().1.symbol)
            &&& fs.last().1.fqn@ == file + qualified(seq![fs.last().0])
            &&& declared(tree, code, file, nodes.drop_last(), fs.drop_last(), imports)
        } else {
            declared(tree, code, file, nodes.drop_last(), fs, imports)
        }
    }
}

/// The entries of a scope after `fs` are declared in it one after the
/// other, from the entries `es`.
pub open spec fn inserted_all(es: Seq<(Seq<char>, TableEntry)>, fs: Seq<(Seq<char>, TableEntry)>) -> Seq<(Seq<char>, TableEntry)>
    decreases fs.len(),
{
    if fs.len() == 0 {
        es
    } else {
        entries_inserted(inserted_all(es, fs.drop_last()), fs.last().0, fs.last().1)
    }
}

/// Whether `t` is the table read from the program `tree` of the file
/// `path`: one root scope, holding what its statements declare.
pub open spec fn file_table(tree: SyntaxTree, code: &str, path: Seq<char>, t: SymbolTable) -> bool {
    &&& t.wf()
    &&& t.file@ == path
    &&& tree.kind_of(0) == "program"@
    &&& t.scopes@.len() == 1
    &&& t.current == 0
    &&& t.scopes@[0].identifier is None
    &&& exists|fs: Seq<(Seq<char>, TableEntry)>| {
        &&& #[trigger] declared(tree, code, path, statements(tree, tree.child_count(0)), fs, t.scopes@[0].imports@)
        &&& entries_of(t.scopes@[0].entries) == inserted_all(Seq::empty(), fs)
    }
}

/// Whether the program `tree` reads: its root is a program, and every
/// statement read from it reads.
pub open spec fn program_ok(tree: SyntaxTree, code: &str) -> bool {
    let all = statements(tree, tree.child_count(0));
    &&& tree.kind_of(0) == "program"@
    &&& forall|i: int| 0 <= i < all.len() ==> statement_ok(tree, code, #[trigger] all[i])
}

/// The symbol table of a whole file whose syntax tree is `tree`: every
/// top-level statement, and the statement within each export statement;
/// comments are skipped.
pub fn parse_file(path: &str, code: &str, tree: &SyntaxTree, ids: &mut ScopeIds) -> (r: Result<SymbolTable, DossierError>)
    requires
        tree.wf(),
    ensures
        r matches Ok(t) ==> file_table(*tree, code, path@, t),
        r matches Ok(t) ==> t.scopes@[0].id == old(ids)@ && final(ids)@ == after(old(ids)@),
        tree.kind_of(0) != "program"@ ==> r is Err,
        r is Ok <==> program_ok(*tree, code),
{
    if !tree.is_kind(0, "program") {
        return Err(DossierError::UnexpectedSyntax(tree.kind(0).to_owned()));
    }
    let mut table = SymbolTable::new(path, ids);
    let ghost mut fs: Seq<(Seq<char>, TableEntry)> = Seq::empty();
    let n = tree.child_count_of(0);
    let mut k: usize = 0;
    while k < n
        invariant
            tree.wf(),
            n == tree.child_count(0),
            k <= n,
            table.wf(),
            table.file@ == path@,
            tree.kind_of(0) == "program"@,
            table.scopes@.len() == 1,
            table.current == 0,
            table.scopes@[0].identifier is None,
            table.scopes@[0].id == old(ids)@,
            final(ids)@ == after(old(ids)@),
            declared(*tree, code, path@, statements(*tree, k as int), fs, table.scopes@[0].imports@),
            entries_of(table.scopes@[0].entries) == inserted_all(Seq::empty(), fs),
            forall|i: int| 0 <= i < statements(*tree, k as int).len() ==> statement_ok(
                *tree,
                code,
                #[trigger] statements(*tree, k as int)[i],
            ),
        decreases n - k,
    {
        let c = tree.child_at(0, k);
        let ghost t0 = table;
        let ghost before = statements(*tree, k as int);
        if tree.is_kind(c, "comment") {
        } else {
            let inner = if tree.is_kind(c, "export_statement") {
                if tree.child_count_of(c) > 1 {
                    tree.child_at(c, 1)
                } else if tree.child_count_of(c) == 1 {
                    tree.child_at(c, 0)
                } else {
                    c
                }
            } else {
                c
            };
            assert(inner == statement_of(*tree, c as int));
            match handle_node(tree, code, inner, &mut table) {
                Ok(()) => {},
                Err(e) => {
                    proof {
                        let all = statements(*tree, n as int);
                        let upto = statements(*tree, k + 1);
                        lemma_statements_prefix(*tree, k + 1, n as int);
                        assert(upto.last() == inner as int);
                        assert(all[upto.len() - 1] == upto[upto.len() - 1]);
                        assert(!program_ok(*tree, code));
                    }
                    return Err(e);
                },
            }
            proof {
                let upto = statements(*tree, k + 1);
                assert forall|i: int| 0 <= i < upto.len() implies statement_ok(*tree, code, #[trigger] upto[i]) by {
                    if i < before.len() {
                        assert(upto[i] == before[i]);
                    }
                }
            }
            proof {
                let nodes = statements(*tree, k + 1);
                assert(nodes.drop_last() =~= before);
                assert(nodes.last() == inner);
                assert(scope_names(t0.scopes@, 0) =~= Seq::<Seq<char>>::empty());
                let kd = tree.kind_of(inner as int);
                let im1 = table.scopes@[0].imports@;
                reveal_strlit("import_statement");
                reveal_strlit("function_declaration");
                assert("import_statement"@.len() == 16);
                if kd == "import_statement"@ {
                    assert(im1.drop_last() == t0.scopes@[0].imports@);
                } else if kd == "function_declaration"@ {
                    let (id, sym) = choose|id: Seq<char>, sym: Symbol| #[trigger] function_read(*tree, code, inner as int, id, sym)
                        && entry_added(
                        entries_of(t0.scopes@[0].entries),
                        entries_of(table.scopes@[0].entries),
                        id,
                        sym,
                        t0.fqn_for(id),
                    );
                    assert(t0.fqn_for(id) == path@ + qualified(seq![id]));
                    let e = choose|e: TableEntry| e.symbol == sym && e.fqn@ == t0.fqn_for(id) && entries_of(table.scopes@[0].entries)
                        == entries_inserted(entries_of(t0.scopes@[0].entries), id, e);
                    let fs0 = fs;
                    fs = fs.push((id, e));
                    assert(fs.drop_last() =~= fs0);
                }
            }
        }
        k += 1;
    }
    Ok(table)
}

/// Whether the TypeScript text `code` is owed a table: the library accepts
/// the grammar's version, and the syntax tree of the text parses, in
/// whatever order its nodes are numbered.
pub open spec fn source_accepted(code: &str) -> bool {
    &&& grammar_accepted(Grammar::TypeScript)
    &&& forall|tree: SyntaxTree| tree.wf() && #[trigger] tree_reads(tree, Grammar::TypeScript, code@) ==> program_ok(tree, code)
}

/// The symbol table of the TypeScript file `path` with the text `code`,
/// its root scope's identifier the next one `ids` hands out.
pub fn parse_source(path: &str, code: &str, ids: &mut ScopeIds) -> (r: Result<SymbolTable, DossierError>)
    ensures
        r matches Ok(t) ==> t.scopes@[0].id == old(ids)@ && final(ids)@ == after(old(ids)@),
        r matches Ok(t) ==> t.wf() && t.file@ == path@,
        r matches Ok(t) ==> exists|tree: SyntaxTree| tree.wf() && tree_reads(tree, Grammar::TypeScript, code@) && program_ok(tree, code) && #[trigger] file_table(
            tree,
            code,
            path@,
            t,
        ),
        r matches Err(e) ==> !grammar_accepted(Grammar::TypeScript) || exists|tree: SyntaxTree|
            tree.wf() && tree_reads(tree, Grammar::TypeScript, code@) && !program_ok(tree, code),
        source_accepted(code) ==> r is Ok,
{
    let tree = match crate::syntax::typescript_syntax(code) {
        Ok(t) => t,
        Err(e) => return Err(e),
    };
    let r = parse_file(path, code, &tree, ids);
    proof {
        if r is Ok {
            assert(file_table(tree, code, path@, r->Ok_0));
        }
    }
    r
}

} // verus!
