use vstd::prelude::*;
use crate::ts::symbol::{deref_all, select, selects, Selector, Symbol};

verus! {

#[derive(Debug, PartialEq)]
pub struct Class {
    pub identifier: String,
    pub documentation: Option<String>,
    pub children: Vec<Symbol>,
    pub exported: bool,
    pub is_abstract: bool,
}

impl Class {
    /// The fields among the class members.
    pub fn fields(&self) -> (r: Vec<&Symbol>)
        ensures
            deref_all(r@) == self.children@.filter(|s: Symbol| selects(Selector::Field, s)),
    {
        select(self.children.as_slice(), Selector::Field)
    }
    /// The methods among the class members.
    pub fn methods(&self) -> (r: Vec<&Symbol>)
        ensures
            deref_all(r@) == self.children@.filter(|s: Symbol| selects(Selector::Method, s)),
    {
        select(self.children.as_slice(), Selector::Method)
    }
}

} // verus!
