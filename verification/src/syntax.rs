//! Concrete syntax trees, as the front ends read them: every node of a
//! parse, in document order, with its kind, its byte range in the source
//! and the positions of its parent and children.
use vstd::prelude::*;
use vstd::string::StringSliceAdditionalSpecFns;
use vstd::utf8::{decode_utf8, is_char_boundary};
use crate::common::{DossierError, Utf8Error};
use tree_sitter::{Language, LanguageError, Node, Parser, Tree, TreeCursor};

verus! {

broadcast use vstd::seq_lib::group_seq_properties, vstd::utf8::group_utf8_lib;

#[verifier::external_type_specification]
#[verifier::external_body]
pub struct ExParser(Parser);

#[verifier::external_type_specification]
#[verifier::external_body]
pub struct ExLanguage(Language);

#[verifier::external_type_specification]
#[verifier::external_body]
pub struct ExLanguageError(LanguageError);

#[verifier::external_type_specification]
#[verifier::external_body]
pub struct ExTree(Tree);

#[verifier::external_type_specification]
#[verifier::external_body]
pub struct ExTreeCursor<'a>(TreeCursor<'a>);

#[verifier::external_type_specification]
#[verifier::external_body]
pub struct ExNode<'a>(Node<'a>);

/// The grammars code is read in.
#[derive(PartialEq, Eq, Structural, Clone, Copy)]
pub enum Grammar {
    TypeScript,
    Python,
}

/// A grammar of tree-sitter, with the grammar it is.
pub struct GrammarLanguage {
    language: Language,
    grammar: Ghost<Grammar>,
}

/// A parser of tree-sitter given a grammar, with the grammar it was given.
pub struct GrammarParser {
    parser: Parser,
    grammar: Ghost<Grammar>,
}

/// A syntax tree of tree-sitter, with the grammar and the code it was read
/// from.
pub struct ParsedTree {
    tree: Tree,
    grammar: Ghost<Grammar>,
    code: Ghost<Seq<char>>,
}

/// A cursor of tree-sitter on a syntax tree, with the grammar and the code
/// the tree was read from, and the positions among their siblings of the
/// nodes from the root down to the one under the cursor.
pub struct ParsedCursor<'a> {
    cursor: TreeCursor<'a>,
    grammar: Ghost<Grammar>,
    code: Ghost<Seq<char>>,
    path: Ghost<Seq<int>>,
}

/// A node of a syntax tree of tree-sitter, with the grammar and code the
/// tree was read from and the positions that lead to it from the root.
pub struct ParsedNode<'a> {
    node: Node<'a>,
    grammar: Ghost<Grammar>,
    code: Ghost<Seq<char>>,
    path: Ghost<Seq<int>>,
}

/// The grammar kind that tree-sitter gives the node of `code`, read in
/// `grammar`, that the child positions `path` lead to from the root.
pub uninterp spec fn syntax_kind(grammar: Grammar, code: Seq<char>, path: Seq<int>) -> Seq<char>;

/// Whether the grammar names that node.
pub uninterp spec fn syntax_named(grammar: Grammar, code: Seq<char>, path: Seq<int>) -> bool;

/// Where that node starts, in bytes.
pub uninterp spec fn syntax_start(grammar: Grammar, code: Seq<char>, path: Seq<int>) -> usize;

/// Where that node ends, in bytes.
pub uninterp spec fn syntax_end(grammar: Grammar, code: Seq<char>, path: Seq<int>) -> usize;

/// The field that node fills in its parent.
pub uninterp spec fn syntax_field(grammar: Grammar, code: Seq<char>, path: Seq<int>) -> Option<Seq<char>>;

/// Whether the grammar `grammar` was generated for a version of
/// tree-sitter that this version of the library accepts.
pub uninterp spec fn grammar_accepted(grammar: Grammar) -> bool;

/// Whether that node has a child.
pub uninterp spec fn syntax_first_child(grammar: Grammar, code: Seq<char>, path: Seq<int>) -> bool;

/// Whether that node has a sibling after it.
pub uninterp spec fn syntax_next_sibling(grammar: Grammar, code: Seq<char>, path: Seq<int>) -> bool;

/// A fresh parser, from `Parser::new`.
#[verifier::external_body]
fn new_parser() -> Parser {
    Parser::new()
}

/// The TypeScript grammar, from `tree_sitter_typescript::language_typescript`.
#[verifier::external_body]
fn typescript_language() -> (r: GrammarLanguage)
    ensures
        r.grammar@ == Grammar::TypeScript,
{
    GrammarLanguage { language: tree_sitter_typescript::language_typescript(), grammar: Ghost(Grammar::TypeScript) }
}

/// The Python grammar, from `tree_sitter_python::language`.
#[verifier::external_body]
fn python_language() -> (r: GrammarLanguage)
    ensures
        r.grammar@ == Grammar::Python,
{
    GrammarLanguage { language: tree_sitter_python::language(), grammar: Ghost(Grammar::Python) }
}

/// Gives `parser` a grammar, from `Parser::set_language`, which fails
/// exactly when the grammar's version is outside the range this version of
/// the library accepts, a fact of the grammar alone.
#[verifier::external_body]
fn set_language(parser: Parser, language: GrammarLanguage) -> (r: Result<GrammarParser, LanguageError>)
    ensures
        r is Ok <==> grammar_accepted(language.grammar@),
        r matches Ok(p) ==> p.grammar == language.grammar,
{
    let mut parser = parser;
    match parser.set_language(language.language) {
        Ok(()) => Ok(GrammarParser { parser, grammar: language.grammar }),
        Err(e) => Err(e),
    }
}

/// The syntax tree of `code`, from `Parser::parse`, read in the parser's
/// grammar. `Parser::parse` gives none only where no grammar is set, or a
/// timeout or a cancellation flag cuts it short; a `GrammarParser` always
/// has its grammar, and neither of the others is ever set on it.
#[verifier::external_body]
fn parse_text(parser: &mut GrammarParser, code: &str) -> (r: Option<ParsedTree>)
    ensures
        final(parser).grammar == old(parser).grammar,
        r is Some,
        r matches Some(t) ==> t.grammar == old(parser).grammar && t.code@ == code@,
{
    match parser.parser.parse(code, None) {
        Some(tree) => Some(ParsedTree { tree, grammar: parser.grammar, code: Ghost(code@) }),
        None => None,
    }
}

/// A cursor on the root of `tree`, from `Tree::walk`.
#[verifier::external_body]
fn tree_cursor(tree: &ParsedTree) -> (r: ParsedCursor<'_>)
    ensures
        r.grammar == tree.grammar,
        r.code == tree.code,
        r.path@ == Seq::<int>::empty(),
{
    ParsedCursor { cursor: tree.tree.walk(), grammar: tree.grammar, code: tree.code, path: Ghost(Seq::empty()) }
}

/// The node under the cursor, from `TreeCursor::node`.
#[verifier::external_body]
fn cursor_node<'a>(cursor: &ParsedCursor<'a>) -> (r: ParsedNode<'a>)
    ensures
        r.grammar == cursor.grammar,
        r.code == cursor.code,
        r.path == cursor.path,
{
    ParsedNode { node: cursor.cursor.node(), grammar: cursor.grammar, code: cursor.code, path: cursor.path }
}

/// The field the node under the cursor fills in its parent, from
/// `TreeCursor::field_name`.
#[verifier::external_body]
fn cursor_field_name(cursor: &ParsedCursor) -> (r: Option<String>)
    ensures
        match r {
            Some(f) => syntax_field(cursor.grammar@, cursor.code@, cursor.path@) == Some(f@),
            None => syntax_field(cursor.grammar@, cursor.code@, cursor.path@) is None,
        },
{
    cursor.cursor.field_name().map(str::to_owned)
}

/// Moves the cursor to the first child, from `TreeCursor::goto_first_child`;
/// false where there is none.
#[verifier::external_body]
fn cursor_first_child(cursor: &mut ParsedCursor) -> (r: bool)
    ensures
        r == syntax_first_child(old(cursor).grammar@, old(cursor).code@, old(cursor).path@),
        final(cursor).grammar == old(cursor).grammar,
        final(cursor).code == old(cursor).code,
        final(cursor).path@ == if r {
            old(cursor).path@.push(0)
        } else {
            old(cursor).path@
        },
{
    let r = cursor.cursor.goto_first_child();
    cursor.path = Ghost(if r { cursor.path@.push(0) } else { cursor.path@ });
    r
}

/// Moves the cursor to the next sibling, from
/// `TreeCursor::goto_next_sibling`; false where there is none, as at the
/// root.
#[verifier::external_body]
fn cursor_next_sibling(cursor: &mut ParsedCursor) -> (r: bool)
    ensures
        r == syntax_next_sibling(old(cursor).grammar@, old(cursor).code@, old(cursor).path@),
        r ==> old(cursor).path@.len() > 0,
        final(cursor).grammar == old(cursor).grammar,
        final(cursor).code == old(cursor).code,
        final(cursor).path@ == if r {
            old(cursor).path@.drop_last().push(old(cursor).path@.last() + 1)
        } else {
            old(cursor).path@
        },
{
    let r = cursor.cursor.goto_next_sibling();
    cursor.path = Ghost(
        if r {
            cursor.path@.drop_last().push(cursor.path@.last() + 1)
        } else {
            cursor.path@
        },
    );
    r
}

/// Moves the cursor to the parent, from `TreeCursor::goto_parent`; false
/// on the root, where the walk began.
#[verifier::external_body]
fn cursor_parent(cursor: &mut ParsedCursor) -> (r: bool)
    ensures
        r == (old(cursor).path@.len() > 0),
        final(cursor).grammar == old(cursor).grammar,
        final(cursor).code == old(cursor).code,
        final(cursor).path@ == if r {
            old(cursor).path@.drop_last()
        } else {
            old(cursor).path@
        },
{
    let r = cursor.cursor.goto_parent();
    cursor.path = Ghost(if r { cursor.path@.drop_last() } else { cursor.path@ });
    r
}

/// The grammar kind of a node, from `Node::kind`.
#[verifier::external_body]
fn node_kind(node: &ParsedNode) -> (r: String)
    ensures
        r@ == syntax_kind(node.grammar@, node.code@, node.path@),
{
    node.node.kind().to_owned()
}

/// Whether a node is named in the grammar, from `Node::is_named`.
#[verifier::external_body]
fn node_is_named(node: &ParsedNode) -> (r: bool)
    ensures
        r == syntax_named(node.grammar@, node.code@, node.path@),
{
    node.node.is_named()
}

/// Where a node starts, in bytes, from `Node::start_byte`.
#[verifier::external_body]
fn node_start_byte(node: &ParsedNode) -> (r: usize)
    ensures
        r == syntax_start(node.grammar@, node.code@, node.path@),
{
    node.node.start_byte()
}

/// Where a node ends, in bytes, from `Node::end_byte`.
#[verifier::external_body]
fn node_end_byte(node: &ParsedNode) -> (r: usize)
    ensures
        r == syntax_end(node.grammar@, node.code@, node.path@),
{
    node.node.end_byte()
}

/// Whether the bytes from `start` to `end` are a piece of `bytes` that
/// starts and ends at character boundaries.
pub open spec fn span_ok(bytes: Seq<u8>, start: int, end: int) -> bool {
    &&& 0 <= start <= end <= bytes.len()
    &&& is_char_boundary(bytes, start)
    &&& is_char_boundary(bytes, end)
}

/// The characters of the bytes from `start` to `end`.
pub open spec fn span_text(bytes: Seq<u8>, start: int, end: int) -> Seq<char> {
    decode_utf8(bytes.subrange(start, end))
}

/// The piece of `code` from byte `start` to byte `end`, from `str::get`,
/// which gives a piece exactly where slicing would not panic: the range
/// lies within the text and both ends fall on character boundaries.
#[verifier::external_body]
fn byte_range(code: &str, start: usize, end: usize) -> (r: Option<&str>)
    ensures
        r is Some <==> span_ok(code.spec_bytes(), start as int, end as int),
        r matches Some(t) ==> t.spec_bytes() == code.spec_bytes().subrange(start as int, end as int),
{
    code.get(start..end)
}

/// One node of a syntax tree.
#[derive(Debug, PartialEq)]
pub struct SyntaxNode {
    /// The grammar kind, e.g. `function_declaration` or `(`.
    pub kind: String,
    /// Whether the grammar names the node (punctuation and keywords are
    /// not named).
    pub named: bool,
    /// The field the node fills in its parent, e.g. `name`.
    pub field: Option<String>,
    pub start_byte: usize,
    pub end_byte: usize,
    pub parent: Option<usize>,
    /// The positions of the children, in order.
    pub children: Vec<usize>,
}

/// A syntax tree: node 0 is the root, and every node comes after its
/// parent and before its children.
#[derive(Debug, PartialEq)]
pub struct SyntaxTree {
    pub nodes: Vec<SyntaxNode>,
}

/// The shape every syntax tree has.
pub open spec fn nodes_wf(nodes: Seq<SyntaxNode>) -> bool {
    &&& nodes.len() >= 1
    &&& nodes[0].parent is None
    &&& forall|i: int| 0 < i < nodes.len() ==> ((#[trigger] nodes[i]).parent matches Some(p) && p < i)
    &&& forall|i: int, k: int|
        0 <= i < nodes.len() && 0 <= k < nodes[i].children@.len() ==> {
            let c = #[trigger] nodes[i].children@[k];
            &&& i < c < nodes.len()
            &&& nodes[c as int].parent == Some(i as usize)
        }
    &&& forall|i: int, a: int, b: int|
        0 <= i < nodes.len() && 0 <= a < b < nodes[i].children@.len() ==> #[trigger] nodes[i].children@[a]
            < #[trigger] nodes[i].children@[b]
}

impl SyntaxTree {
    pub open spec fn wf(self) -> bool {
        nodes_wf(self.nodes@)
    }

    pub open spec fn len(self) -> nat {
        self.nodes@.len()
    }

    /// The kind of node `i`.
    pub open spec fn kind_of(self, i: int) -> Seq<char> {
        self.nodes@[i].kind@
    }

    /// The `k`th child of node `i`.
    pub open spec fn child(self, i: int, k: int) -> int {
        self.nodes@[i].children@[k] as int
    }

    pub open spec fn child_count(self, i: int) -> int {
        self.nodes@[i].children@.len() as int
    }

    /// The text of node `i`, where its range cuts `bytes` at character
    /// boundaries.
    pub open spec fn text_of(self, bytes: Seq<u8>, i: int) -> Seq<char> {
        span_text(bytes, self.nodes@[i].start_byte as int, self.nodes@[i].end_byte as int)
    }

    /// Whether the text of node `i` can be read.
    pub open spec fn text_ok(self, bytes: Seq<u8>, i: int) -> bool {
        span_ok(bytes, self.nodes@[i].start_byte as int, self.nodes@[i].end_byte as int)
    }

    /// The position among its siblings of the first child of `i` with
    /// `field` from position `from` on.
    pub open spec fn field_from(self, i: int, field: Seq<char>, from: int) -> Option<int>
        decreases self.child_count(i) - from,
    {
        if from < 0 || from >= self.child_count(i) {
            None
        } else if self.nodes@[self.child(i, from)].field matches Some(f) && f@ == field {
            Some(from)
        } else {
            self.field_from(i, field, from + 1)
        }
    }

    /// The position among its siblings of the first named child of `i`
    /// from position `from` on.
    pub open spec fn named_from(self, i: int, from: int) -> Option<int>
        decreases self.child_count(i) - from,
    {
        if from < 0 || from >= self.child_count(i) {
            None
        } else if self.nodes@[self.child(i, from)].named {
            Some(from)
        } else {
            self.named_from(i, from + 1)
        }
    }

    /// The first child of `i` that fills `field`.
    pub open spec fn field_child(self, i: int, field: Seq<char>) -> Option<int> {
        match self.field_from(i, field, 0) {
            Some(k) => Some(self.child(i, k)),
            None => None,
        }
    }

    /// The position of `i` among the children of its parent.
    pub open spec fn position_in_parent(self, i: int) -> Option<int> {
        match self.nodes@[i].parent {
            Some(p) => if exists|k: int| 0 <= k < self.child_count(p as int) && self.child(p as int, k) == i {
                Some(choose|k: int| 0 <= k < self.child_count(p as int) && self.child(p as int, k) == i)
            } else {
                None
            },
            None => None,
        }
    }

    /// The sibling just before node `i`.
    pub open spec fn prev_sibling(self, i: int) -> Option<int> {
        match (self.nodes@[i].parent, self.position_in_parent(i)) {
            (Some(p), Some(k)) => if k > 0 {
                Some(self.child(p as int, k - 1))
            } else {
                None
            },
            _ => None,
        }
    }

    /// The kind of node `i`, as a string slice.
    pub fn kind(&self, i: usize) -> (r: &str)
        requires
            i < self.len(),
        ensures
            r@ == self.kind_of(i as int),
    {
        self.nodes[i].kind.as_str()
    }

    /// Whether node `i` is of kind `kind`.
    pub fn is_kind(&self, i: usize, kind: &str) -> (r: bool)
        requires
            i < self.len(),
        ensures
            r == (self.kind_of(i as int) == kind@),
    {
        crate::text::str_eq(self.nodes[i].kind.as_str(), kind)
    }

    pub fn is_named(&self, i: usize) -> (r: bool)
        requires
            i < self.len(),
        ensures
            r == self.nodes@[i as int].named,
    {
        self.nodes[i].named
    }

    pub fn child_count_of(&self, i: usize) -> (r: usize)
        requires
            i < self.len(),
        ensures
            r == self.child_count(i as int),
    {
        self.nodes[i].children.len()
    }

    /// The `k`th child of node `i`.
    pub fn child_at(&self, i: usize, k: usize) -> (r: usize)
        requires
            self.wf(),
            i < self.len(),
            k < self.child_count(i as int),
        ensures
            r == self.child(i as int, k as int),
            i < r < self.len(),
    {
        self.nodes[i].children[k]
    }

    /// The parent of node `i`.
    pub fn parent_of(&self, i: usize) -> (r: Option<usize>)
        requires
            self.wf(),
            i < self.len(),
        ensures
            r == self.nodes@[i as int].parent,
            r matches Some(p) ==> p < i,
    {
        self.nodes[i].parent
    }

    /// The text of node `i`: the piece of `code` its byte range covers.
    pub fn text<'a>(&self, code: &'a str, i: usize) -> (r: Result<&'a str, DossierError>)
        requires
            i < self.len(),
        ensures
            match r {
                Ok(t) => self.text_ok(code.spec_bytes(), i as int) && t@ == self.text_of(
                    code.spec_bytes(),
                    i as int,
                ),
                Err(e) => !self.text_ok(code.spec_bytes(), i as int) && e == DossierError::UTF8Error(
                    Utf8Error {
                        start_byte: self.nodes@[i as int].start_byte,
                        end_byte: self.nodes@[i as int].end_byte,
                    },
                ),
            },
    {
        let n = &self.nodes[i];
        match byte_range(code, n.start_byte, n.end_byte) {
            Some(t) => Ok(t),
            None => Err(DossierError::UTF8Error(Utf8Error { start_byte: n.start_byte, end_byte: n.end_byte })),
        }
    }

    /// The text of node `i`, as an owned string.
    pub fn text_string(&self, code: &str, i: usize) -> (r: Result<String, DossierError>)
        requires
            i < self.len(),
        ensures
            match r {
                Ok(t) => self.text_ok(code.spec_bytes(), i as int) && t@ == self.text_of(
                    code.spec_bytes(),
                    i as int,
                ),
                Err(e) => !self.text_ok(code.spec_bytes(), i as int) && e == DossierError::UTF8Error(
                    Utf8Error {
                        start_byte: self.nodes@[i as int].start_byte,
                        end_byte: self.nodes@[i as int].end_byte,
                    },
                ),
            },
    {
        match self.text(code, i) {
            Ok(t) => Ok(t.to_owned()),
            Err(e) => Err(e),
        }
    }

    /// The first child of `i` that fills `field`.
    pub fn child_by_field_name(&self, i: usize, field: &str) -> (r: Option<usize>)
        requires
            self.wf(),
            i < self.len(),
        ensures
            match r {
                Some(c) => self.field_child(i as int, field@) == Some(c as int) && i < c < self.len(),
                None => self.field_child(i as int, field@) is None,
            },
    {
        let n = self.nodes[i].children.len();
        let mut k: usize = 0;
        while k < n
            invariant
                self.wf(),
                i < self.len(),
                n == self.child_count(i as int),
                k <= n,
                self.field_from(i as int, field@, 0) == self.field_from(i as int, field@, k as int),
            decreases n - k,
        {
            let c = self.nodes[i].children[k];
            let matches = match &self.nodes[c].field {
                Some(f) => crate::text::str_eq(f.as_str(), field),
                None => false,
            };
            if matches {
                return Some(c);
            }
            k += 1;
        }
        None
    }

    /// The position of `i` among the children of its parent.
    fn position(&self, i: usize) -> (r: Option<usize>)
        requires
            self.wf(),
            i < self.len(),
        ensures
            match r {
                Some(k) => self.position_in_parent(i as int) == Some(k as int)
                    && (self.nodes@[i as int].parent matches Some(p) && k < self.child_count(p as int)),
                None => self.position_in_parent(i as int) is None,
            },
    {
        match self.nodes[i].parent {
            Some(p) => {
                let n = self.nodes[p].children.len();
                let mut k: usize = 0;
                while k < n
                    invariant
                        self.wf(),
                        i < self.len(),
                        p < self.len(),
                        self.nodes@[i as int].parent == Some(p),
                        n == self.child_count(p as int),
                        k <= n,
                        forall|j: int| 0 <= j < k ==> self.child(p as int, j) != i,
                    decreases n - k,
                {
                    if self.nodes[p].children[k] == i {
                        proof {
                            let cs = self.nodes@[p as int].children@;
                            assert(cs[k as int] == i);
                            assert(self.child(p as int, k as int) == i);
                            assert(exists|j: int| 0 <= j < self.child_count(p as int) && self.child(p as int, j) == i);
                            let w = choose|j: int| 0 <= j < self.child_count(p as int) && self.child(p as int, j) == i;
                            assert(cs[w] == i);
                            if w < k {
                                assert(self.child(p as int, w) != i);
                            } else if w > k {
                                assert(cs[k as int] < cs[w]);
                            }
                        }
                        return Some(k);
                    }
                    k += 1;
                }
                None
            },
            None => None,
        }
    }

    /// The sibling just before node `i`.
    pub fn prev_sibling_of(&self, i: usize) -> (r: Option<usize>)
        requires
            self.wf(),
            i < self.len(),
        ensures
            match r {
                Some(s) => self.prev_sibling(i as int) == Some(s as int) && s < self.len(),
                None => self.prev_sibling(i as int) is None,
            },
    {
        match (self.nodes[i].parent, self.position(i)) {
            (Some(p), Some(k)) => {
                if k > 0 {
                    Some(self.nodes[p].children[k - 1])
                } else {
                    None
                }
            },
            _ => None,
        }
    }
}

/// Whether the node of `code` that `path` leads to has a child at
/// position `k`.
pub open spec fn has_child(g: Grammar, code: Seq<char>, path: Seq<int>, k: int) -> bool
    decreases k,
{
    if k <= 0 {
        k == 0 && syntax_first_child(g, code, path)
    } else {
        has_child(g, code, path, k - 1) && syntax_next_sibling(g, code, path.push(k - 1))
    }
}

/// Whether the node of `code` that `path` leads to has exactly `n`
/// children.
pub open spec fn child_total(g: Grammar, code: Seq<char>, path: Seq<int>, n: int) -> bool {
    if n == 0 {
        !syntax_first_child(g, code, path)
    } else {
        n > 0 && has_child(g, code, path, n - 1) && !syntax_next_sibling(g, code, path.push(n - 1))
    }
}

/// Whether `n` holds what tree-sitter gives the node of `code` that `path`
/// leads to: its kind, whether it is named, its byte range and its field.
pub open spec fn node_reads(g: Grammar, code: Seq<char>, n: SyntaxNode, path: Seq<int>) -> bool {
    &&& n.kind@ == syntax_kind(g, code, path)
    &&& n.named == syntax_named(g, code, path)
    &&& n.start_byte == syntax_start(g, code, path)
    &&& n.end_byte == syntax_end(g, code, path)
    &&& match n.field {
        Some(f) => syntax_field(g, code, path) == Some(f@),
        None => syntax_field(g, code, path) is None,
    }
}

/// Whether the nodes of `t` stand for the nodes of `code` that `paths`
/// lead to, the first for the root: each holds what tree-sitter gives its
/// node, and its children are exactly those of its node, in order.
pub open spec fn reads_along(t: SyntaxTree, g: Grammar, code: Seq<char>, paths: Seq<Seq<int>>) -> bool {
    &&& paths.len() == t.nodes@.len()
    &&& t.nodes@.len() >= 1
    &&& paths[0] == Seq::<int>::empty()
    &&& forall|i: int|
        0 <= i < t.nodes@.len() ==> node_reads(g, code, t.nodes@[i], #[trigger] paths[i]) && child_total(
            g,
            code,
            paths[i],
            t.child_count(i),
        )
    &&& forall|i: int, k: int|
        0 <= i < t.nodes@.len() && 0 <= k < t.child_count(i) ==> paths[#[trigger] t.child(i, k)] == paths[i].push(k)
}

/// Whether `t` is the syntax tree tree-sitter reads from `code` in the
/// grammar `g`, its nodes numbered in some order.
pub open spec fn tree_reads(t: SyntaxTree, g: Grammar, code: Seq<char>) -> bool {
    exists|paths: Seq<Seq<int>>| #[trigger] reads_along(t, g, code, paths)
}

/// The node under the cursor, with no children yet.
fn read_node(cursor: &ParsedCursor, parent: Option<usize>) -> (r: SyntaxNode)
    ensures
        r.parent == parent,
        r.children@.len() == 0,
        node_reads(cursor.grammar@, cursor.code@, r, cursor.path@),
{
    let node = cursor_node(cursor);
    SyntaxNode {
        kind: node_kind(&node),
        named: node_is_named(&node),
        field: cursor_field_name(cursor),
        start_byte: node_start_byte(&node),
        end_byte: node_end_byte(&node),
        parent,
        children: Vec::new(),
    }
}

/// Appends `node` as a new child of `parent`.
fn add_child(nodes: &mut Vec<SyntaxNode>, parent: usize, node: SyntaxNode) -> (r: usize)
    requires
        nodes_wf(old(nodes)@),
        parent < old(nodes)@.len(),
        node.parent == Some(parent),
        node.children@.len() == 0,
    ensures
        nodes_wf(final(nodes)@),
        r == old(nodes)@.len(),
        final(nodes)@.len() == old(nodes)@.len() + 1,
        final(nodes)@.len() <= usize::MAX,
        final(nodes)@[r as int] == node,
        final(nodes)@[parent as int].children@ == old(nodes)@[parent as int].children@.push(r),
        final(nodes)@[parent as int] == (SyntaxNode { children: final(nodes)@[parent as int].children, ..old(nodes)@[parent as int] }),
        forall|i: int| 0 <= i < old(nodes)@.len() && i != parent ==> #[trigger] final(nodes)@[i] == old(nodes)@[i],
{
    let id = nodes.len();
    nodes.push(node);
    let total = nodes.len();
    assert(total == nodes@.len());
    let ghost mid = nodes@;
    nodes[parent].children.push(id);
    proof {
        let ns = nodes@;
        assert forall|i: int, k: int|
            0 <= i < ns.len() && 0 <= k < ns[i].children@.len() implies {
                let c = #[trigger] ns[i].children@[k];
                &&& i < c < ns.len()
                &&& ns[c as int].parent == Some(i as usize)
            } by {
            if i != parent {
                assert(ns[i] == mid[i]);
                if i < id {
                    assert(ns[i].children@ == old(nodes)@[i].children@);
                }
            } else if k < ns[i].children@.len() - 1 {
                assert(ns[i].children@[k] == old(nodes)@[i].children@[k]);
            }
        }
        assert forall|i: int, a: int, b: int|
            0 <= i < ns.len() && 0 <= a < b < ns[i].children@.len() implies #[trigger] ns[i].children@[a]
                < #[trigger] ns[i].children@[b] by {
            if i != parent {
                assert(ns[i] == mid[i]);
                if i < id {
                    assert(ns[i].children@ == old(nodes)@[i].children@);
                }
            } else {
                assert(ns[i].children@[a] == old(nodes)@[i].children@[a]);
                if b < ns[i].children@.len() - 1 {
                    assert(ns[i].children@[b] == old(nodes)@[i].children@[b]);
                }
            }
        }
        assert forall|i: int| 0 < i < ns.len() implies ((#[trigger] ns[i]).parent matches Some(p) && p < i) by {
            if i != parent && i < id {
                assert(ns[i] == old(nodes)@[i]);
            }
            if i == parent {
                assert(ns[i].parent == old(nodes)@[i].parent);
            }
        }
    }
    id
}

/// Where a walk over a syntax tree stands: `nodes` read so far, `paths`
/// the positions that lead to each from the root, `stack` the nodes from
/// the root down to the one under the cursor. Every node holds what
/// tree-sitter gives its node, each child read is a child of its node,
/// and every node off the stack has all its children read.
pub open spec fn walk_state(
    g: Grammar,
    code: Seq<char>,
    nodes: Seq<SyntaxNode>,
    paths: Seq<Seq<int>>,
    stack: Seq<usize>,
) -> bool {
    &&& nodes_wf(nodes)
    &&& nodes.len() <= usize::MAX
    &&& paths.len() == nodes.len()
    &&& paths[0] == Seq::<int>::empty()
    &&& stack.len() >= 1
    &&& stack[0] == 0
    &&& forall|j: int| 0 <= j < stack.len() ==> (#[trigger] stack[j]) < nodes.len()
    &&& forall|a: int, b: int| 0 <= a < b < stack.len() ==> #[trigger] stack[a] < #[trigger] stack[b]
    &&& forall|j: int|
        0 <= j < stack.len() - 1 ==> nodes[#[trigger] stack[j] as int].children@.len() > 0
            && nodes[stack[j] as int].children@.last() == stack[j + 1]
    &&& forall|i: int| 0 <= i < nodes.len() ==> node_reads(g, code, #[trigger] nodes[i], paths[i])
    &&& forall|i: int, k: int|
        0 <= i < nodes.len() && 0 <= k < nodes[i].children@.len() ==> paths[#[trigger] nodes[i].children@[k] as int]
            == paths[i].push(k) && has_child(g, code, paths[i], k)
    &&& forall|i: int|
        0 <= i < nodes.len() && !stack.contains(i as usize) ==> child_total(
            g,
            code,
            #[trigger] paths[i],
            nodes[i].children@.len() as int,
        )
}

/// A node added as the next child of the node on top keeps the walk's
/// facts, with the new node on top.
proof fn lemma_walk_add(
    g: Grammar,
    code: Seq<char>,
    n0: Seq<SyntaxNode>,
    n1: Seq<SyntaxNode>,
    p0: Seq<Seq<int>>,
    stack: Seq<usize>,
    parent: int,
    id: int,
)
    requires
        walk_state(g, code, n0, p0, stack),
        stack.last() == parent,
        nodes_wf(n1),
        id == n0.len(),
        n1.len() <= usize::MAX,
        n1.len() == n0.len() + 1,
        n1[parent].children@ == n0[parent].children@.push(id as usize),
        n1[parent] == (SyntaxNode { children: n1[parent].children, ..n0[parent] }),
        forall|i: int| 0 <= i < n0.len() && i != parent ==> #[trigger] n1[i] == n0[i],
        node_reads(g, code, n1[id], p0[parent].push(n0[parent].children@.len() as int)),
        n1[id].children@.len() == 0,
        has_child(g, code, p0[parent], n0[parent].children@.len() as int),
    ensures
        walk_state(g, code, n1, p0.push(p0[parent].push(n0[parent].children@.len() as int)), stack.push(id as usize)),
{
    let p1 = p0.push(p0[parent].push(n0[parent].children@.len() as int));
    let s1 = stack.push(id as usize);
    assert(stack[stack.len() - 1] == parent);
    assert(0 <= parent < n0.len());
    assert forall|j: int| 0 <= j < s1.len() implies (#[trigger] s1[j]) < n1.len() by {
        if j < stack.len() {
            assert(s1[j] == stack[j]);
        }
    }
    assert forall|a: int, b: int| 0 <= a < b < s1.len() implies #[trigger] s1[a] < #[trigger] s1[b] by {
        if b < stack.len() {
            assert(s1[a] == stack[a] && s1[b] == stack[b]);
        } else {
            assert(s1[a] == stack[a]);
            assert(s1[b] == id);
            assert(stack[a] < n0.len());
        }
    }
    assert forall|j: int| 0 <= j < s1.len() - 1 implies n1[#[trigger] s1[j] as int].children@.len() > 0
        && n1[s1[j] as int].children@.last() == s1[j + 1] by {
        assert(s1[j] == stack[j]);
        if j < stack.len() - 1 {
            assert(stack[j] < stack[stack.len() - 1]);
            assert(s1[j + 1] == stack[j + 1]);
            assert(n1[stack[j] as int] == n0[stack[j] as int]);
        }
    }
    assert forall|i: int, k: int|
        0 <= i < n1.len() && 0 <= k < n1[i].children@.len() implies p1[#[trigger] n1[i].children@[k] as int]
        == p1[i].push(k) && has_child(g, code, p1[i], k) by {
        if i == parent {
            assert(p1[i] == p0[i]);
            if k < n0[parent].children@.len() {
                assert(n1[i].children@[k] == n0[i].children@[k]);
                assert(n0[i].children@[k] < n0.len());
                assert(p1[n0[i].children@[k] as int] == p0[n0[i].children@[k] as int]);
            } else {
                assert(n1[i].children@[k] == id);
                assert(p1[id] == p0[parent].push(k));
            }
        } else if i < n0.len() {
            assert(n1[i] == n0[i]);
            assert(p1[i] == p0[i]);
            assert(n0[i].children@[k] < n0.len());
            assert(p1[n0[i].children@[k] as int] == p0[n0[i].children@[k] as int]);
        }
    }
    assert forall|i: int| 0 <= i < n1.len() && !s1.contains(i as usize) implies child_total(
        g,
        code,
        #[trigger] p1[i],
        n1[i].children@.len() as int,
    ) by {
        if i < n0.len() {
            if i == parent {
                assert(s1[stack.len() - 1] == parent);
            }
            if stack.contains(i as usize) {
                let j = choose|j: int| 0 <= j < stack.len() && stack[j] == i as usize;
                assert(s1[j] == i);
            }
            assert(n1[i] == n0[i]);
        } else {
            assert(s1[stack.len() as int] == id);
        }
    }
    assert forall|i: int| 0 <= i < n1.len() implies node_reads(g, code, #[trigger] n1[i], p1[i]) by {
        if i < n0.len() && i != parent {
            assert(n1[i] == n0[i]);
        }
    }
}

/// A node on top with all its children read can leave the stack.
proof fn lemma_walk_pop(g: Grammar, code: Seq<char>, nodes: Seq<SyntaxNode>, paths: Seq<Seq<int>>, stack: Seq<usize>)
    requires
        walk_state(g, code, nodes, paths, stack),
        stack.len() > 1,
        child_total(g, code, paths[stack.last() as int], nodes[stack.last() as int].children@.len() as int),
    ensures
        walk_state(g, code, nodes, paths, stack.drop_last()),
        ({
            let parent = stack[stack.len() - 2] as int;
            let k = nodes[parent].children@.len() - 1;
            &&& 0 <= parent < nodes.len()
            &&& k >= 0
            &&& nodes[parent].children@[k] == stack.last()
            &&& paths[stack.last() as int] == paths[parent].push(k)
            &&& has_child(g, code, paths[parent], k)
        }),
{
    let s1 = stack.drop_last();
    let top = stack.last();
    assert(stack[stack.len() - 1] == top);
    assert forall|j: int| 0 <= j < s1.len() implies (#[trigger] s1[j]) < nodes.len() by {
        assert(s1[j] == stack[j]);
    }
    assert forall|a: int, b: int| 0 <= a < b < s1.len() implies #[trigger] s1[a] < #[trigger] s1[b] by {
        assert(s1[a] == stack[a] && s1[b] == stack[b]);
    }
    assert forall|j: int| 0 <= j < s1.len() - 1 implies nodes[#[trigger] s1[j] as int].children@.len() > 0
        && nodes[s1[j] as int].children@.last() == s1[j + 1] by {
        assert(s1[j] == stack[j]);
        assert(s1[j + 1] == stack[j + 1]);
    }
    assert forall|i: int| 0 <= i < nodes.len() && !s1.contains(i as usize) implies child_total(
        g,
        code,
        #[trigger] paths[i],
        nodes[i].children@.len() as int,
    ) by {
        if stack.contains(i as usize) {
            let j = choose|j: int| 0 <= j < stack.len() && stack[j] == i as usize;
            if j < stack.len() - 1 {
                assert(s1[j] == i as usize);
                assert(s1.contains(i as usize));
            } else {
                assert(i == top as int);
            }
        }
    }
    let parent = stack[stack.len() - 2] as int;
    assert(stack[stack.len() - 2] == s1[s1.len() - 1]);
    let k = nodes[parent].children@.len() - 1;
    assert(nodes[parent].children@.last() == stack[stack.len() - 1]);
    assert(nodes[parent].children@[k] == top);
}

/// A walk back at the root with the root's children all read has read
/// the whole tree.
proof fn lemma_walk_done(g: Grammar, code: Seq<char>, t: SyntaxTree, paths: Seq<Seq<int>>, stack: Seq<usize>)
    requires
        walk_state(g, code, t.nodes@, paths, stack),
        stack.len() == 1,
        child_total(g, code, paths[stack.last() as int], t.nodes@[stack.last() as int].children@.len() as int),
    ensures
        reads_along(t, g, code, paths),
{
    assert(stack[0] == 0);
    assert forall|i: int| 0 <= i < t.nodes@.len() implies node_reads(g, code, t.nodes@[i], #[trigger] paths[i])
        && child_total(g, code, paths[i], t.child_count(i)) by {
        if stack.contains(i as usize) {
            let j = choose|j: int| 0 <= j < stack.len() && stack[j] == i as usize;
            assert(j == 0);
        }
    }
    assert forall|i: int, k: int| 0 <= i < t.nodes@.len() && 0 <= k < t.child_count(i) implies paths[#[trigger] t.child(i, k)]
        == paths[i].push(k) by {
        assert(t.child(i, k) == t.nodes@[i].children@[k] as int);
    }
}

/// The syntax tree a cursor on the root walks over, read node by node in
/// document order. Every step of the walk reads one more node into the
/// vector of nodes, which never holds more than `usize::MAX` of them, so
/// the walk ends.
#[verifier::rlimit(30)]
fn read_tree(cursor: &mut ParsedCursor) -> (t: SyntaxTree)
    requires
        old(cursor).path@ == Seq::<int>::empty(),
    ensures
        t.wf(),
        tree_reads(t, old(cursor).grammar@, old(cursor).code@),
{
    let ghost g = cursor.grammar@;
    let ghost code = cursor.code@;
    let mut nodes: Vec<SyntaxNode> = Vec::new();
    nodes.push(read_node(cursor, None));
    let ghost mut paths: Seq<Seq<int>> = seq![Seq::<int>::empty()];
    // The positions of the nodes from the root down to the one under the cursor.
    let mut path: Vec<usize> = Vec::new();
    path.push(0);
    proof {
        assert(path@[0] == 0);
        assert forall|i: int| 0 <= i < nodes@.len() && !path@.contains(i as usize) implies child_total(
            g,
            code,
            #[trigger] paths[i],
            nodes@[i].children@.len() as int,
        ) by {
            assert(path@[0] == i);
        }
    }
    loop
        invariant
            walk_state(g, code, nodes@, paths, path@),
            nodes@[path@.last() as int].children@.len() == 0,
            cursor.grammar@ == g,
            cursor.code@ == code,
            cursor.path@ == paths[path@.last() as int],
            g == old(cursor).grammar@,
            code == old(cursor).code@,
        decreases usize::MAX - nodes@.len(),
    {
        let ghost before = nodes@.len();
        let ghost top = path@.last() as int;
        proof {
            assert(path@[path@.len() - 1] == top);
        }
        if cursor_first_child(cursor) {
            let parent = path[path.len() - 1];
            let ghost n0 = nodes@;
            let node = read_node(cursor, Some(parent));
            let id = add_child(&mut nodes, parent, node);
            proof {
                lemma_walk_add(g, code, n0, nodes@, paths, path@, top, id as int);
                paths = paths.push(paths[top].push(0));
            }
            path.push(id);
        } else {
            loop
                invariant_except_break
                    child_total(g, code, paths[path@.last() as int], nodes@[path@.last() as int].children@.len() as int),
                    nodes@.len() == before,
                invariant
                    walk_state(g, code, nodes@, paths, path@),
                    cursor.grammar@ == g,
                    cursor.code@ == code,
                    cursor.path@ == paths[path@.last() as int],
                    g == old(cursor).grammar@,
                    code == old(cursor).code@,
                ensures
                    walk_state(g, code, nodes@, paths, path@),
                    nodes@.len() == before + 1,
                    nodes@[path@.last() as int].children@.len() == 0,
                    cursor.grammar@ == g,
                    cursor.code@ == code,
                    cursor.path@ == paths[path@.last() as int],
                decreases path@.len(),
            {
                let ghost depth = path@.len() as int;
                let ghost s0 = path@;
                let ghost cur = path@.last() as int;
                proof {
                    if depth > 1 {
                        lemma_walk_pop(g, code, nodes@, paths, path@);
                    }
                }
                if path.len() > 1 && cursor_next_sibling(cursor) {
                    let ghost parent_g = s0[depth - 2] as int;
                    let ghost k = nodes@[parent_g].children@.len() - 1;
                    path.pop();
                    proof {
                        assert(path@ == s0.drop_last());
                        assert(path@.last() == parent_g);
                    }
                    let parent = path[path.len() - 1];
                    let ghost n0 = nodes@;
                    let node = read_node(cursor, Some(parent));
                    let id = add_child(&mut nodes, parent, node);
                    proof {
                        assert(paths[parent_g].push(k).drop_last() =~= paths[parent_g]);
                        lemma_walk_add(g, code, n0, nodes@, paths, path@, parent_g, id as int);
                        paths = paths.push(paths[parent_g].push(k + 1));
                    }
                    path.push(id);
                    break;
                } else if path.len() > 1 && cursor_parent(cursor) {
                    let ghost parent_g = s0[depth - 2] as int;
                    path.pop();
                    proof {
                        assert(path@ == s0.drop_last());
                        assert(path@.last() == parent_g);
                        assert(paths[cur].drop_last() =~= paths[parent_g]);
                    }
                } else {
                    let t = SyntaxTree { nodes };
                    proof {
                        lemma_walk_done(g, code, t, paths, path@);
                        assert(reads_along(t, g, code, paths));
                    }
                    return t;
                }
            }
        }
    }
}

/// The syntax tree of `code` in the grammar `language`.
fn syntax_of(code: &str, language: GrammarLanguage) -> (r: Result<SyntaxTree, DossierError>)
    ensures
        r matches Ok(t) ==> t.wf() && tree_reads(t, language.grammar@, code@),
        r is Ok <==> grammar_accepted(language.grammar@),
{
    let parser = new_parser();
    let mut parser = match set_language(parser, language) {
        Ok(p) => p,
        Err(_) => return Err(DossierError::UnexpectedSyntax("grammar version".to_owned())),
    };
    match parse_text(&mut parser, code) {
        Some(tree) => {
            let mut cursor = tree_cursor(&tree);
            Ok(read_tree(&mut cursor))
        },
        None => Err(DossierError::UnexpectedSyntax("no syntax tree".to_owned())),
    }
}

/// The syntax tree of TypeScript code.
pub fn typescript_syntax(code: &str) -> (r: Result<SyntaxTree, DossierError>)
    ensures
        r matches Ok(t) ==> t.wf() && tree_reads(t, Grammar::TypeScript, code@),
        r is Ok <==> grammar_accepted(Grammar::TypeScript),
{
    syntax_of(code, typescript_language())
}

/// The syntax tree of Python code.
pub fn python_syntax(code: &str) -> (r: Result<SyntaxTree, DossierError>)
    ensures
        r matches Ok(t) ==> t.wf() && tree_reads(t, Grammar::Python, code@),
        r is Ok <==> grammar_accepted(Grammar::Python),
{
    syntax_of(code, python_language())
}

} // verus!
