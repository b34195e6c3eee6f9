use vstd::prelude::*;
use crate::ts::symbol::{find_first, first_selected, opt_deref, Selector, Symbol};

verus! {

#[derive(Debug, PartialEq)]
pub struct Field {
    pub identifier: String,
    /// Technically will ever only have max one child, the type, but other
    /// parts of the program will expect a slice of children so this is simpler.
    pub children: Vec<Symbol>,
    pub readonly: bool,
    pub private: bool,
    pub protected: bool,
    pub documentation: Option<String>,
    /// The value the field is initialised with, as written.
    pub value: Option<String>,
}

impl Field {
    /// The declared type of the field, if any.
    pub fn the_type(&self) -> (r: Option<&Symbol>)
        ensures
            opt_deref(r) == first_selected(self.children@, Selector::Type),
    {
        find_first(self.children.as_slice(), Selector::Type)
    }
}

} // verus!
