use vstd::prelude::*;
use crate::ts::symbol::{deref_all, select, selects, Selector, Symbol};

verus! {

#[derive(Debug, PartialEq)]
pub struct TypeVariable {
    pub identifier: String,
    pub documentation: Option<String>,
    pub children: Vec<Symbol>,
}

impl TypeVariable {
    /// The constraints on the type variable, in order.
    pub fn constraints(&self) -> (r: Vec<&Symbol>)
        ensures
            deref_all(r@) == self.children@.filter(|s: Symbol| selects(Selector::TypeConstraint, s)),
    {
        select(self.children.as_slice(), Selector::TypeConstraint)
    }
}

} // verus!
