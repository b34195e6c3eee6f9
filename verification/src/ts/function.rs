use vstd::prelude::*;
use crate::ts::symbol::{
    deref_all, find_first, first_selected, opt_deref, select, selects, Selector, Symbol,
    SymbolContext,
};

verus! {

#[derive(Debug, PartialEq)]
pub struct Function {
    pub identifier: String,
    pub documentation: Option<String>,
    pub is_exported: bool,
    pub children: Vec<Symbol>,
}

impl Function {
    /// The parameters, in order.
    pub fn parameters(&self) -> (r: Vec<&Symbol>)
        ensures
            deref_all(r@) == self.children@.filter(|s: Symbol| selects(Selector::Parameter, s)),
    {
        select(self.children.as_slice(), Selector::Parameter)
    }
    /// The generic type variables, in order.
    pub fn type_variables(&self) -> (r: Vec<&Symbol>)
        ensures
            deref_all(r@) == self.children@.filter(|s: Symbol| selects(Selector::TypeVariable, s)),
    {
        select(self.children.as_slice(), Selector::TypeVariable)
    }
    /// The declared return type, if any.
    pub fn return_type(&self) -> (r: Option<&Symbol>)
        ensures
            opt_deref(r) == first_selected(self.children@, Selector::Context(SymbolContext::ReturnType)),
    {
        find_first(self.children.as_slice(), Selector::Context(SymbolContext::ReturnType))
    }
}

} // verus!
