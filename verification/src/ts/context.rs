//! What a parse of one TypeScript file carries along: the file, its code
//! and syntax tree, the symbol table being filled, and the stack of
//! contexts the symbols being parsed stand in.
use vstd::prelude::*;
use crate::common::{qualified, views};
use crate::syntax::SyntaxTree;
use crate::ts::symbol::{kind_identifier, Source, Symbol, SymbolContext, SymbolIds, SymbolKind};
use crate::ts::symbol_table::{after, scope_names, ScopeID, ScopeIds, SymbolTable};

verus! {

broadcast use vstd::seq_lib::group_seq_properties;

pub struct ParserContext<'a> {
    pub file: String,
    pub code: &'a str,
    pub tree: &'a SyntaxTree,
    pub symbol_table: SymbolTable,
    pub symbol_context: Vec<SymbolContext>,
    /// Hands out the identifiers of the scopes the parse enters.
    pub scope_ids: ScopeIds,
    /// Hands out the identifiers of the symbols the parse makes.
    pub symbol_ids: SymbolIds,
}

/// The source of node `node` of the tree being parsed.
pub open spec fn node_source(ctx: ParserContext, node: int) -> Source {
    Source {
        file: ctx.file,
        offset_start_bytes: ctx.tree.nodes@[node].start_byte,
        offset_end_bytes: ctx.tree.nodes@[node].end_byte,
    }
}

/// The fully qualified name a symbol of `kind` gets: the one its name
/// gets in the current scope, and empty for a symbol without a name.
pub open spec fn fqn_in(ctx: ParserContext, kind: SymbolKind) -> Seq<char> {
    match kind_identifier(kind) {
        Some(n) => ctx.symbol_table.fqn_for(n),
        None => Seq::empty(),
    }
}

/// What a symbol made while reading a file records of where it was made:
/// the tree and code being read, the file, the file its table names, and
/// the current scope.
pub struct Place<'a> {
    pub tree: &'a SyntaxTree,
    pub code: &'a str,
    pub file: String,
    pub table_file: String,
    pub scope: ScopeID,
}

/// Where symbols are made in `ctx`.
pub open spec fn place_of<'a>(ctx: ParserContext<'a>) -> Place<'a> {
    Place {
        tree: ctx.tree,
        code: ctx.code,
        file: ctx.file,
        table_file: ctx.symbol_table.file,
        scope: ctx.symbol_table.current_id(),
    }
}

/// The names that qualify the symbols made in `ctx`: those of the named
/// scopes from the root down, then the qualifying names being parsed.
pub open spec fn qualifiers(ctx: ParserContext) -> Seq<Seq<char>> {
    scope_names(ctx.symbol_table.scopes@, ctx.symbol_table.current as int) + views(
        ctx.symbol_table.fqn_parts@,
    )
}

/// Whether `s` is a symbol made at `p` for node `node`, in the context `c`
/// and qualified by the names `parts`.
pub open spec fn made_in(p: Place, c: Option<SymbolContext>, parts: Seq<Seq<char>>, s: Symbol, node: int) -> bool {
    &&& s.source == (Source {
        file: p.file,
        offset_start_bytes: p.tree.nodes@[node].start_byte,
        offset_end_bytes: p.tree.nodes@[node].end_byte,
    })
    &&& s.fqn@ == match kind_identifier(s.kind) {
        Some(n) => p.table_file@ + qualified(parts) + seq![':', ':'] + n,
        None => Seq::empty(),
    }
    &&& s.context == c
    &&& s.scope_id == p.scope
}

/// Whether `s` is the symbol of `kind` made in `ctx` for node `node`.
pub open spec fn made_at(ctx: ParserContext, s: Symbol, node: int) -> bool {
    &&& s.source == node_source(ctx, node)
    &&& s.fqn@ == fqn_in(ctx, s.kind)
    &&& s.context == ctx.top_context()
    &&& s.scope_id == ctx.symbol_table.current_id()
}

/// What a parse keeps of its context: the same file, code, tree and
/// contexts, the same symbols and qualifying names, the same current scope,
/// and every scope there was, though it may leave more scopes behind.
pub open spec fn same_frame(c0: ParserContext, c1: ParserContext) -> bool {
    &&& c1.wf()
    &&& c1.file == c0.file
    &&& c1.code == c0.code
    &&& c1.tree == c0.tree
    &&& c1.symbol_context@ == c0.symbol_context@
    &&& c1.symbol_table.file == c0.symbol_table.file
    &&& c1.symbol_table.symbols == c0.symbol_table.symbols
    &&& c1.symbol_table.current == c0.symbol_table.current
    &&& c1.symbol_table.fqn_parts@ == c0.symbol_table.fqn_parts@
    &&& c1.symbol_table.scopes@.len() >= c0.symbol_table.scopes@.len()
    &&& forall|i: int| 0 <= i < c0.symbol_table.scopes@.len() ==> #[trigger] c1.symbol_table.scopes@[i]
        == c0.symbol_table.scopes@[i]
}

impl<'a> ParserContext<'a> {
    pub open spec fn wf(self) -> bool {
        &&& self.symbol_table.wf()
        &&& self.tree.wf()
    }

    /// The context the symbols being parsed stand in: the innermost one.
    pub open spec fn top_context(self) -> Option<SymbolContext> {
        if self.symbol_context@.len() > 0 {
            Some(self.symbol_context@.last())
        } else {
            None
        }
    }

    /// A context for parsing `code`, whose syntax tree is `tree`, from the
    /// file `path`, with an empty table whose scope identifiers `ids` hands
    /// out, and whose symbols get their identifiers from `symbol_ids`.
    pub fn new(path: &str, code: &'a str, tree: &'a SyntaxTree, ids: ScopeIds, symbol_ids: SymbolIds) -> (r: Self)
        requires
            tree.wf(),
        ensures
            r.wf(),
            r.file@ == path@,
            r.code == code,
            r.tree == tree,
            r.symbol_table.file@ == path@,
            r.symbol_table.scopes@.len() == 1,
            r.symbol_table.scopes@[0].identifier is None,
            r.symbol_table.scopes@[0].imports@.len() == 0,
            r.symbol_table.scopes@[0].id == ids@,
            r.scope_ids@ == after(ids@),
            r.symbol_ids == symbol_ids,
            r.symbol_table.symbols@.len() == 0,
            r.symbol_table.current == 0,
            r.symbol_table.fqn_parts@.len() == 0,
            r.symbol_context@.len() == 0,
    {
        let mut scope_ids = ids;
        let symbol_table = SymbolTable::new(path, &mut scope_ids);
        ParserContext {
            file: path.to_owned(),
            code,
            tree,
            symbol_table,
            symbol_context: Vec::new(),
            scope_ids,
            symbol_ids,
        }
    }

    pub fn take_symbol_table(self) -> (r: SymbolTable)
        ensures
            r == self.symbol_table,
    {
        self.symbol_table
    }

    pub fn construct_fqn(&self, identifier: &str) -> (r: String)
        requires
            self.wf(),
        ensures
            r@ == self.symbol_table.fqn_for(identifier@),
    {
        self.symbol_table.construct_fqn(identifier)
    }

    pub fn push_fqn(&mut self, part: &str)
        requires
            old(self).wf(),
        ensures
            final(self).wf(),
            views(final(self).symbol_table.fqn_parts@) == views(old(self).symbol_table.fqn_parts@).push(part@),
            final(self).symbol_table.fqn_parts@.len() == old(self).symbol_table.fqn_parts@.len() + 1,
            final(self).symbol_table.fqn_parts@.drop_last() == old(self).symbol_table.fqn_parts@,
            final(self).file == old(self).file,
            final(self).code == old(self).code,
            final(self).tree == old(self).tree,
            final(self).symbol_context == old(self).symbol_context,
            final(self).symbol_table.file == old(self).symbol_table.file,
            final(self).symbol_table.scopes == old(self).symbol_table.scopes,
            final(self).symbol_table.symbols == old(self).symbol_table.symbols,
            final(self).symbol_table.current == old(self).symbol_table.current,
    {
        self.symbol_table.push_fqn(part)
    }

    pub fn pop_fqn(&mut self) -> (r: Option<String>)
        requires
            old(self).wf(),
        ensures
            final(self).wf(),
            old(self).symbol_table.fqn_parts@.len() > 0 ==> r == Some(old(self).symbol_table.fqn_parts@.last())
                && final(self).symbol_table.fqn_parts@ == old(self).symbol_table.fqn_parts@.drop_last(),
            old(self).symbol_table.fqn_parts@.len() == 0 ==> r is None
                && final(self).symbol_table.fqn_parts@ == old(self).symbol_table.fqn_parts@,
            final(self).file == old(self).file,
            final(self).code == old(self).code,
            final(self).tree == old(self).tree,
            final(self).symbol_context == old(self).symbol_context,
            final(self).symbol_table.file == old(self).symbol_table.file,
            final(self).symbol_table.scopes == old(self).symbol_table.scopes,
            final(self).symbol_table.symbols == old(self).symbol_table.symbols,
            final(self).symbol_table.current == old(self).symbol_table.current,
    {
        self.symbol_table.pop_fqn()
    }

    /// Enters a new unnamed scope inside the current one.
    pub fn push_scope(&mut self) -> (r: ScopeID)
        requires
            old(self).wf(),
        ensures
            final(self).wf(),
            crate::ts::symbol_table::scope_pushed(old(self).symbol_table, final(self).symbol_table, None, r),
            r == old(self).scope_ids@,
            final(self).scope_ids@ == after(old(self).scope_ids@),
            final(self).file == old(self).file,
            final(self).code == old(self).code,
            final(self).tree == old(self).tree,
            final(self).symbol_context == old(self).symbol_context,
    {
        self.symbol_table.push_scope_named(None, &mut self.scope_ids)
    }

    /// Leaves the current scope for its parent.
    pub fn pop_scope(&mut self)
        requires
            old(self).wf(),
        ensures
            final(self).wf(),
            crate::ts::symbol_table::scope_popped(
                old(self).symbol_table,
                final(self).symbol_table,
                old(self).symbol_table.current_id(),
            ),
            final(self).scope_ids == old(self).scope_ids,
            final(self).file == old(self).file,
            final(self).code == old(self).code,
            final(self).tree == old(self).tree,
            final(self).symbol_context == old(self).symbol_context,
    {
        self.symbol_table.pop_scope();
    }

    pub fn push_context(&mut self, context: SymbolContext)
        ensures
            final(self).symbol_context@ == old(self).symbol_context@.push(context),
            final(self).file == old(self).file,
            final(self).code == old(self).code,
            final(self).tree == old(self).tree,
            final(self).symbol_table == old(self).symbol_table,
    {
        self.symbol_context.push(context);
    }

    pub fn pop_context(&mut self)
        ensures
            final(self).symbol_context@ == if old(self).symbol_context@.len() > 0 {
                old(self).symbol_context@.drop_last()
            } else {
                old(self).symbol_context@
            },
            final(self).file == old(self).file,
            final(self).code == old(self).code,
            final(self).tree == old(self).tree,
            final(self).symbol_table == old(self).symbol_table,
    {
        self.symbol_context.pop();
    }

    pub fn symbol_context(&self) -> (r: Option<&SymbolContext>)
        ensures
            match self.top_context() {
                Some(c) => r == Some(&c),
                None => r is None,
            },
    {
        if self.symbol_context.len() > 0 {
            Some(&self.symbol_context[self.symbol_context.len() - 1])
        } else {
            None
        }
    }

    pub fn current_scope(&self) -> (r: ScopeID)
        requires
            self.wf(),
        ensures
            r == self.symbol_table.current_id(),
    {
        self.symbol_table.current_scope().id
    }
}

impl Symbol {
    /// The symbol of `kind` found at `source`, in the current context and
    /// scope of `ctx`, named as its identifier is named there, with the next
    /// identifier the context's counter hands out.
    pub fn in_context(ctx: &mut ParserContext, kind: SymbolKind, source: Source) -> (r: Self)
        requires
            old(ctx).wf(),
        ensures
            r.id == old(ctx).symbol_ids@,
            final(ctx).symbol_ids@ == after(old(ctx).symbol_ids@),
            *final(ctx) == (ParserContext { symbol_ids: final(ctx).symbol_ids, ..*old(ctx) }),
            r.kind == kind,
            r.source == source,
            r.fqn@ == fqn_in(*old(ctx), kind),
            r.context == old(ctx).top_context(),
            r.scope_id == old(ctx).symbol_table.current_id(),
    {
        let fqn = match kind.identifier() {
            Some(i) => ctx.construct_fqn(i),
            None => String::new(),
        };
        let scope_id = ctx.current_scope();
        let context = match ctx.symbol_context() {
            Some(c) => Some(*c),
            None => None,
        };
        let id = ctx.symbol_ids.take();
        Symbol { id, kind, source, fqn, context, scope_id }
    }
}

impl Source {
    /// The source of node `node` of the tree being parsed.
    pub fn for_node(node: usize, ctx: &ParserContext) -> (r: Self)
        requires
            node < ctx.tree.len(),
        ensures
            r == node_source(*ctx, node as int),
    {
        Source {
            file: ctx.file.clone(),
            offset_start_bytes: ctx.tree.nodes[node].start_byte,
            offset_end_bytes: ctx.tree.nodes[node].end_byte,
        }
    }
}


proof fn lemma_scope_names_prefix(s0: Seq<crate::ts::symbol_table::Scope>, s1: Seq<crate::ts::symbol_table::Scope>, id: int)
    requires
        s1.len() >= s0.len(),
        forall|i: int| 0 <= i < s0.len() ==> (#[trigger] s1[i]).identifier == s0[i].identifier && s1[i].parent_at
            == s0[i].parent_at,
    ensures
        0 <= id < s0.len() ==> scope_names(s1, id) == scope_names(s0, id),
    decreases id,
{
    if 0 <= id < s0.len() {
        match s0[id].parent_at {
            Some(p) => {
                if 0 <= p < id {
                    lemma_scope_names_prefix(s0, s1, p as int);
                }
            },
            None => {},
        }
    }
}

/// A parse that keeps the frame names symbols as they were named before
/// it, and in the same context and scope.
pub proof fn lemma_frame_names(a: ParserContext, b: ParserContext)
    requires
        a.wf(),
        same_frame(a, b),
    ensures
        forall|k: SymbolKind| #[trigger] fqn_in(b, k) == fqn_in(a, k),
        forall|n: Seq<char>| #[trigger] b.symbol_table.fqn_for(n) == a.symbol_table.fqn_for(n),
        b.top_context() == a.top_context(),
        forall|node: int| #[trigger] node_source(b, node) == node_source(a, node),
{
    lemma_scope_names_prefix(
        a.symbol_table.scopes@,
        b.symbol_table.scopes@,
        a.symbol_table.current as int,
    );
}

/// What reading a top-level statement keeps of its context: the same
/// file, code, tree and contexts, the same current scope and qualifying
/// names, every other scope there was, and the name and place of the
/// current one, though more scopes may follow; the symbols and the
/// imports of the current scope may change.
pub open spec fn names_frame(c0: ParserContext, c1: ParserContext) -> bool {
    let cur = c0.symbol_table.current as int;
    &&& c1.wf()
    &&& c1.file == c0.file
    &&& c1.code == c0.code
    &&& c1.tree == c0.tree
    &&& c1.symbol_context@ == c0.symbol_context@
    &&& c1.symbol_table.file == c0.symbol_table.file
    &&& c1.symbol_table.current == c0.symbol_table.current
    &&& c1.symbol_table.fqn_parts@ == c0.symbol_table.fqn_parts@
    &&& c1.symbol_table.scopes@.len() >= c0.symbol_table.scopes@.len()
    &&& forall|i: int| 0 <= i < c0.symbol_table.scopes@.len() && i != cur ==> #[trigger] c1.symbol_table.scopes@[i]
        == c0.symbol_table.scopes@[i]
    &&& c1.symbol_table.scopes@[cur].identifier == c0.symbol_table.scopes@[cur].identifier
    &&& c1.symbol_table.scopes@[cur].id == c0.symbol_table.scopes@[cur].id
    &&& c1.symbol_table.scopes@[cur].parent == c0.symbol_table.scopes@[cur].parent
    &&& c1.symbol_table.scopes@[cur].parent_at == c0.symbol_table.scopes@[cur].parent_at
}

/// A statement that keeps the names of the frame names symbols as they
/// were named before it, in the same context and scope.
pub proof fn lemma_names_frame(a: ParserContext, b: ParserContext)
    requires
        a.wf(),
        names_frame(a, b),
    ensures
        forall|k: SymbolKind| #[trigger] fqn_in(b, k) == fqn_in(a, k),
        forall|n: Seq<char>| #[trigger] b.symbol_table.fqn_for(n) == a.symbol_table.fqn_for(n),
        b.top_context() == a.top_context(),
        forall|node: int| #[trigger] node_source(b, node) == node_source(a, node),
        forall|s: Symbol, node: int| #[trigger] made_at(b, s, node) == made_at(a, s, node),
{
    let cur = a.symbol_table.current as int;
    assert forall|i: int| 0 <= i < a.symbol_table.scopes@.len() implies (#[trigger] b.symbol_table.scopes@[i]).identifier
        == a.symbol_table.scopes@[i].identifier && b.symbol_table.scopes@[i].parent_at == a.symbol_table.scopes@[i].parent_at by {
        if i != cur {
            assert(b.symbol_table.scopes@[i] == a.symbol_table.scopes@[i]);
        }
    }
    lemma_scope_names_prefix(a.symbol_table.scopes@, b.symbol_table.scopes@, cur);
}

/// A statement that keeps the names of the frame keeps where symbols are
/// made and how they are qualified.
pub proof fn lemma_frame_place(a: ParserContext, b: ParserContext)
    requires
        a.wf(),
        names_frame(a, b),
    ensures
        place_of(b) == place_of(a),
        qualifiers(b) == qualifiers(a),
        forall|s: Symbol, node: int| #[trigger] made_at(a, s, node) == made_in(place_of(a), a.top_context(), qualifiers(a), s, node),
{
    lemma_names_frame(a, b);
    let cur = a.symbol_table.current as int;
    assert forall|i: int| 0 <= i < a.symbol_table.scopes@.len() implies (#[trigger] b.symbol_table.scopes@[i]).identifier
        == a.symbol_table.scopes@[i].identifier && b.symbol_table.scopes@[i].parent_at == a.symbol_table.scopes@[i].parent_at by {
        if i != cur {
            assert(b.symbol_table.scopes@[i] == a.symbol_table.scopes@[i]);
        }
    }
    lemma_scope_names_prefix(a.symbol_table.scopes@, b.symbol_table.scopes@, cur);
}

/// Entering an unnamed scope keeps the qualifiers and moves the place to
/// the new scope.
pub proof fn lemma_unnamed_scope_place(a: ParserContext, b: ParserContext, id: usize)
    requires
        a.wf(),
        crate::ts::symbol_table::scope_pushed(a.symbol_table, b.symbol_table, None, id),
        b.file == a.file,
        b.code == a.code,
        b.tree == a.tree,
        b.symbol_context == a.symbol_context,
    ensures
        qualifiers(b) == qualifiers(a),
        place_of(b) == (Place { scope: id, ..place_of(a) }),
        b.top_context() == a.top_context(),
{
    let cur = a.symbol_table.current as int;
    assert forall|i: int| 0 <= i < a.symbol_table.scopes@.len() implies (#[trigger] b.symbol_table.scopes@[i]).identifier
        == a.symbol_table.scopes@[i].identifier && b.symbol_table.scopes@[i].parent_at == a.symbol_table.scopes@[i].parent_at by {
        assert(b.symbol_table.scopes@[i] == b.symbol_table.scopes@.drop_last()[i]);
    }
    lemma_scope_names_prefix(a.symbol_table.scopes@, b.symbol_table.scopes@, cur);
    assert(b.symbol_table.scopes@[b.symbol_table.current as int] == b.symbol_table.scopes@.last());
}

/// A symbol is made at a context exactly when it is made at its place,
/// in its context and under its qualifiers.
pub proof fn lemma_made_at_in(a: ParserContext, s: Symbol, node: int)
    ensures
        made_at(a, s, node) == made_in(place_of(a), a.top_context(), qualifiers(a), s, node),
{
}

/// Keeping the frame keeps its names.
pub proof fn lemma_same_frame_names(a: ParserContext, b: ParserContext)
    requires
        same_frame(a, b),
        a.wf(),
    ensures
        names_frame(a, b),
{
    let cur = a.symbol_table.current as int;
    assert(b.symbol_table.scopes@[cur] == a.symbol_table.scopes@[cur]);
}

pub proof fn lemma_names_frame_trans(a: ParserContext, b: ParserContext, c: ParserContext)
    requires
        a.wf(),
        names_frame(a, b),
        names_frame(b, c),
    ensures
        names_frame(a, c),
{
    let cur = a.symbol_table.current as int;
    assert forall|i: int| 0 <= i < a.symbol_table.scopes@.len() && i != cur implies #[trigger] c.symbol_table.scopes@[i]
        == a.symbol_table.scopes@[i] by {
        assert(b.symbol_table.scopes@[i] == a.symbol_table.scopes@[i]);
    }
}

pub proof fn lemma_same_frame_refl(a: ParserContext)
    requires
        a.wf(),
    ensures
        same_frame(a, a),
{
}

pub proof fn lemma_same_frame_trans(a: ParserContext, b: ParserContext, c: ParserContext)
    requires
        same_frame(a, b),
        same_frame(b, c),
    ensures
        same_frame(a, c),
{
    assert forall|i: int| 0 <= i < a.symbol_table.scopes@.len() implies #[trigger] c.symbol_table.scopes@[i]
        == a.symbol_table.scopes@[i] by {
        assert(b.symbol_table.scopes@[i] == a.symbol_table.scopes@[i]);
    }
}

/// Entering a scope and leaving it again keeps the frame.
pub proof fn lemma_push_pop_frame(a: ParserContext, b: ParserContext, c: ParserContext, id: usize)
    requires
        a.wf(),
        b.wf(),
        crate::ts::symbol_table::scope_pushed(a.symbol_table, b.symbol_table, None, id),
        b.file == a.file && b.code == a.code && b.tree == a.tree && b.symbol_context == a.symbol_context,
        same_frame(b, c),
        c.wf(),
    ensures
        forall|d: ParserContext| #![trigger crate::ts::symbol_table::scope_popped(c.symbol_table, d.symbol_table, id)]
            crate::ts::symbol_table::scope_popped(c.symbol_table, d.symbol_table, id)
            && d.file == c.file && d.code == c.code && d.tree == c.tree
            && d.symbol_context == c.symbol_context ==> same_frame(a, d),
{
    assert forall|d: ParserContext|
        crate::ts::symbol_table::scope_popped(c.symbol_table, d.symbol_table, id)
        && d.file == c.file && d.code == c.code && d.tree == c.tree
        && d.symbol_context == c.symbol_context implies same_frame(a, d) by {
        let sa = a.symbol_table.scopes@;
        let sb = b.symbol_table.scopes@;
        let at = sa.len() as int;
        assert(sb[at] == sb.last());
        assert(c.symbol_table.scopes@[at] == sb[at]);
        assert forall|i: int| 0 <= i < sa.len() implies #[trigger] d.symbol_table.scopes@[i] == sa[i] by {
            assert(sb.drop_last()[i] == sb[i]);
        }
    }
}


/// `b` is `a` with one more qualifying name.
pub open spec fn fqn_pushed(a: ParserContext, b: ParserContext) -> bool {
    &&& b.file == a.file && b.code == a.code && b.tree == a.tree && b.symbol_context == a.symbol_context
    &&& b.symbol_table.file == a.symbol_table.file
    &&& b.symbol_table.scopes == a.symbol_table.scopes
    &&& b.symbol_table.symbols == a.symbol_table.symbols
    &&& b.symbol_table.current == a.symbol_table.current
    &&& b.symbol_table.fqn_parts@.len() == a.symbol_table.fqn_parts@.len() + 1
    &&& b.symbol_table.fqn_parts@.drop_last() == a.symbol_table.fqn_parts@
}

/// Pushing a qualifying name, parsing, and popping the name again keeps
/// the frame.
pub proof fn lemma_fqn_push_pop_frame(a: ParserContext, b: ParserContext, c: ParserContext, d: ParserContext)
    requires
        a.wf(),
        fqn_pushed(a, b),
        same_frame(b, c),
        d.wf(),
        d.file == c.file && d.code == c.code && d.tree == c.tree && d.symbol_context == c.symbol_context,
        d.symbol_table.file == c.symbol_table.file,
        d.symbol_table.scopes == c.symbol_table.scopes,
        d.symbol_table.symbols == c.symbol_table.symbols,
        d.symbol_table.current == c.symbol_table.current,
        d.symbol_table.fqn_parts@ == c.symbol_table.fqn_parts@.drop_last(),
    ensures
        same_frame(a, d),
{
    assert(d.symbol_table.fqn_parts@ == a.symbol_table.fqn_parts@);
}

/// Pushing a context, parsing, and popping the context again keeps the
/// frame.
pub proof fn lemma_context_push_pop_frame(a: ParserContext, b: ParserContext, c: ParserContext, d: ParserContext)
    requires
        a.wf(),
        b.file == a.file && b.code == a.code && b.tree == a.tree && b.symbol_table == a.symbol_table,
        b.symbol_context@.len() == a.symbol_context@.len() + 1,
        b.symbol_context@.drop_last() == a.symbol_context@,
        same_frame(b, c),
        d.file == c.file && d.code == c.code && d.tree == c.tree && d.symbol_table == c.symbol_table,
        d.symbol_context@ == c.symbol_context@.drop_last(),
    ensures
        same_frame(a, d),
{
    assert(d.symbol_context@ == a.symbol_context@);
}

} // verus!
