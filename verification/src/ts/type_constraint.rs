use vstd::prelude::*;
use crate::ts::symbol::Symbol;

verus! {

#[derive(Debug, PartialEq)]
pub struct TypeConstraint {
    /// Whether the constraint is written with `extends`.
    pub extends: bool,
    pub children: Vec<Symbol>,
}

impl TypeConstraint {
    /// The constraining type: the first child.
    pub fn the_type(&self) -> (r: &Symbol)
        requires
            self.children@.len() > 0,
        ensures
            *r == self.children@[0],
    {
        &self.children[0]
    }
}

} // verus!
