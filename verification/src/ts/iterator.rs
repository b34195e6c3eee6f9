//! Walking symbols and everything beneath them, breadth first.
use vstd::prelude::*;
use std::collections::VecDeque;
use crate::ts::symbol::{children_of, Symbol};

verus! {

broadcast use vstd::seq_lib::group_seq_properties;

/// The symbols still to be visited, in the order they will be.
pub struct SymbolIterator<'a> {
    pub stack: VecDeque<&'a Symbol>,
}

/// The symbols behind a sequence of references.
pub open spec fn derefs(v: Seq<&Symbol>) -> Seq<Symbol> {
    v.map_values(|s: &Symbol| *s)
}

impl<'a> SymbolIterator<'a> {
    /// A walk that starts with `symbols`, in order.
    pub fn new(symbols: &'a [Symbol]) -> (r: Self)
        ensures
            derefs(r.stack@) == symbols@,
    {
        let mut stack: VecDeque<&'a Symbol> = VecDeque::new();
        let mut i: usize = 0;
        while i < symbols.len()
            invariant
                i <= symbols@.len(),
                derefs(stack@) == symbols@.take(i as int),
            decreases symbols@.len() - i,
        {
            let ghost prev = stack@;
            stack.push_back(&symbols[i]);
            assert(derefs(stack@) =~= derefs(prev).push(symbols@[i as int]));
            assert(symbols@.take(i + 1) =~= symbols@.take(i as int).push(symbols@[i as int]));
            i += 1;
        }
        assert(symbols@.take(symbols@.len() as int) =~= symbols@);
        SymbolIterator { stack }
    }

    /// The next symbol of the walk; its children join the end of the walk.
    pub fn next(&mut self) -> (r: Option<&'a Symbol>)
        ensures
            old(self).stack@.len() == 0 ==> r is None && final(self).stack@ == old(self).stack@,
            old(self).stack@.len() > 0 ==> r == Some(old(self).stack@[0]) && derefs(final(self).stack@)
                == derefs(old(self).stack@.drop_first()) + children_of(*old(self).stack@[0]),
    {
        match self.stack.pop_front() {
            Some(symbol) => {
                let children = symbol.children();
                let ghost start = self.stack@;
                let mut i: usize = 0;
                while i < children.len()
                    invariant
                        i <= children@.len(),
                        children@ == children_of(*symbol),
                        derefs(self.stack@) == derefs(start) + children@.take(i as int),
                    decreases children@.len() - i,
                {
                    let ghost prev = self.stack@;
                    self.stack.push_back(&children[i]);
                    assert(derefs(self.stack@) =~= derefs(prev).push(children@[i as int]));
                    assert(children@.take(i + 1) =~= children@.take(i as int).push(children@[i as int]));
                    i += 1;
                }
                assert(children@.take(children@.len() as int) =~= children@);
                assert(start =~= old(self).stack@.drop_first());
                Some(symbol)
            },
            None => None,
        }
    }
}

} // verus!
