use vstd::prelude::*;
use crate::ts::symbol::{deref_all, find_first, first_selected, select, selects, Selector, Symbol};

verus! {

#[derive(Debug, PartialEq)]
pub struct TypeAlias {
    pub identifier: String,
    pub documentation: Option<String>,
    /// The aliased type, and the generic type variables.
    pub children: Vec<Symbol>,
    pub exported: bool,
}

impl TypeAlias {
    /// The aliased type: the first child that is a type.
    pub fn the_type(&self) -> (r: &Symbol)
        requires
            first_selected(self.children@, Selector::Type) is Some,
        ensures
            Some(*r) == first_selected(self.children@, Selector::Type),
    {
        find_first(self.children.as_slice(), Selector::Type).unwrap()
    }

    /// The generic type variables, in order.
    pub fn type_variables(&self) -> (r: Vec<&Symbol>)
        ensures
            deref_all(r@) == self.children@.filter(|s: Symbol| selects(Selector::TypeVariable, s)),
    {
        select(self.children.as_slice(), Selector::TypeVariable)
    }
}

} // verus!
