//! What a parse of one Python file carries along.
use vstd::prelude::*;
use crate::common::{qualified, views};
use crate::py::symbol::SymbolContext;
use crate::syntax::SyntaxTree;

verus! {

broadcast use vstd::seq_lib::group_seq_properties;

pub struct ParserContext<'a> {
    pub file: String,
    pub code: &'a str,
    pub tree: &'a SyntaxTree,
    pub symbol_context: Vec<SymbolContext>,
    /// The names, innermost last, that qualify the symbols being parsed.
    pub fqn_parts: Vec<String>,
}

impl<'a> ParserContext<'a> {
    /// The context the symbols being parsed stand in: the innermost one.
    pub open spec fn top_context(self) -> Option<SymbolContext> {
        if self.symbol_context@.len() > 0 {
            Some(self.symbol_context@.last())
        } else {
            None
        }
    }

    /// The fully qualified name of `name` here: the file, the qualifying
    /// names, then the name.
    pub open spec fn fqn_for(self, name: Seq<char>) -> Seq<char> {
        self.file@ + qualified(views(self.fqn_parts@).push(name))
    }

    pub fn new(file: &str, code: &'a str, tree: &'a SyntaxTree) -> (r: Self)
        ensures
            r.file@ == file@,
            r.code == code,
            r.tree == tree,
            r.symbol_context@.len() == 0,
            r.fqn_parts@.len() == 0,
    {
        ParserContext {
            file: file.to_owned(),
            code,
            tree,
            symbol_context: Vec::new(),
            fqn_parts: Vec::new(),
        }
    }

    pub fn push_context(&mut self, context: SymbolContext)
        ensures
            final(self).symbol_context@ == old(self).symbol_context@.push(context),
            final(self).file == old(self).file,
            final(self).code == old(self).code,
            final(self).tree == old(self).tree,
            final(self).fqn_parts == old(self).fqn_parts,
    {
        self.symbol_context.push(context)
    }

    pub fn pop_context(&mut self) -> (r: Option<SymbolContext>)
        ensures
            old(self).symbol_context@.len() > 0 ==> r == Some(old(self).symbol_context@.last())
                && final(self).symbol_context@ == old(self).symbol_context@.drop_last(),
            old(self).symbol_context@.len() == 0 ==> r is None && final(self).symbol_context@
                == old(self).symbol_context@,
            final(self).file == old(self).file,
            final(self).code == old(self).code,
            final(self).tree == old(self).tree,
            final(self).fqn_parts == old(self).fqn_parts,
    {
        self.symbol_context.pop()
    }

    pub fn symbol_context(&self) -> (r: Option<SymbolContext>)
        ensures
            r == self.top_context(),
    {
        if self.symbol_context.len() > 0 {
            Some(self.symbol_context[self.symbol_context.len() - 1])
        } else {
            None
        }
    }

    pub fn push_fqn(&mut self, part: &str)
        ensures
            views(final(self).fqn_parts@) == views(old(self).fqn_parts@).push(part@),
            final(self).fqn_parts@.len() == old(self).fqn_parts@.len() + 1,
            final(self).fqn_parts@.drop_last() == old(self).fqn_parts@,
            final(self).file == old(self).file,
            final(self).code == old(self).code,
            final(self).tree == old(self).tree,
            final(self).symbol_context == old(self).symbol_context,
    {
        self.fqn_parts.push(part.to_owned());
        assert(views(self.fqn_parts@) =~= views(old(self).fqn_parts@).push(part@));
    }

    pub fn pop_fqn(&mut self) -> (r: Option<String>)
        ensures
            old(self).fqn_parts@.len() > 0 ==> r == Some(old(self).fqn_parts@.last())
                && final(self).fqn_parts@ == old(self).fqn_parts@.drop_last(),
            old(self).fqn_parts@.len() == 0 ==> r is None && final(self).fqn_parts@ == old(self).fqn_parts@,
            final(self).file == old(self).file,
            final(self).code == old(self).code,
            final(self).tree == old(self).tree,
            final(self).symbol_context == old(self).symbol_context,
    {
        self.fqn_parts.pop()
    }

    /// The fully qualified name of `identifier` here.
    pub fn construct_fqn(&self, identifier: &str) -> (r: String)
        ensures
            r@ == self.fqn_for(identifier@),
    {
        let mut out = self.file.clone();
        crate::common::push_parts(&mut out, &self.fqn_parts);
        crate::common::push_part(&mut out, identifier);
        proof {
            crate::common::lemma_qualified_push(views(self.fqn_parts@), identifier@);
        }
        out
    }
}

} // verus!
