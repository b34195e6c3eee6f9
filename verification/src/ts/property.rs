use vstd::prelude::*;
use crate::ts::symbol::{opt_deref, Symbol};

verus! {

#[derive(Debug, PartialEq)]
pub struct Property {
    pub identifier: String,
    pub documentation: Option<String>,
    /// Technically will ever only have one child, the type itself, but other
    /// parts of the program will expect a slice of children so this is simpler.
    pub children: Vec<Symbol>,
    pub optional: bool,
    pub readonly: bool,
    pub private: bool,
    pub protected: bool,
}

impl Property {
    /// The declared type of the property: its first child, if any.
    pub fn the_type(&self) -> (r: Option<&Symbol>)
        ensures
            opt_deref(r) == (if self.children@.len() > 0 { Some(self.children@[0]) } else { None }),
    {
        if self.children.len() > 0 {
            Some(&self.children[0])
        } else {
            None
        }
    }
}

} // verus!
