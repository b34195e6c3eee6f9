use vstd::prelude::*;
use crate::ts::symbol::{opt_deref, Symbol};

verus! {

#[derive(Debug, PartialEq)]
pub struct Parameter {
    pub identifier: String,
    /// Technically will ever only have one child, the type itself, but other
    /// parts of the program will expect a slice of children so this is simpler.
    pub children: Vec<Symbol>,
    pub optional: bool,
    pub readonly: bool,
}

impl Parameter {
    /// The declared type of the parameter: its first child, if any.
    pub fn parameter_type(&self) -> (r: Option<&Symbol>)
        ensures
            opt_deref(r) == (if self.children@.len() > 0 { Some(self.children@[0]) } else { None }),
    {
        if self.children.len() > 0 {
            Some(&self.children[0])
        } else {
            None
        }
    }
}

} // verus!
