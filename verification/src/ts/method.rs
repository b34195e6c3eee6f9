use vstd::prelude::*;
use crate::ts::symbol::{
    deref_all, find_first, first_selected, opt_deref, select, selects, Selector, Symbol,
    SymbolContext,
};

verus! {

/// The name of a method: written out, or computed from an expression.
#[derive(Debug, PartialEq)]
pub enum Identifier {
    Computed(String),
    Name(String),
}

impl Identifier {
    pub open spec fn spec_str(self) -> Seq<char> {
        match self {
            Identifier::Computed(s) => s@,
            Identifier::Name(s) => s@,
        }
    }

    pub fn as_str(&self) -> (r: &str)
        ensures
            r@ == self.spec_str(),
    {
        match self {
            Identifier::Computed(s) => s.as_str(),
            Identifier::Name(s) => s.as_str(),
        }
    }
}

#[derive(Debug, PartialEq)]
pub struct Method {
    pub identifier: Identifier,
    pub children: Vec<Symbol>,
    pub documentation: Option<String>,
    pub is_abstract: bool,
    pub is_private: bool,
}

impl Method {
    /// The parameters, in order.
    pub fn parameters(&self) -> (r: Vec<&Symbol>)
        ensures
            deref_all(r@) == self.children@.filter(|s: Symbol| selects(Selector::Parameter, s)),
    {
        select(self.children.as_slice(), Selector::Parameter)
    }
    /// The generic type variables, in order.
    pub fn type_variables(&self) -> (r: Vec<&Symbol>)
        ensures
            deref_all(r@) == self.children@.filter(|s: Symbol| selects(Selector::TypeVariable, s)),
    {
        select(self.children.as_slice(), Selector::TypeVariable)
    }
    /// The declared return type, if any.
    pub fn return_type(&self) -> (r: Option<&Symbol>)
        ensures
            opt_deref(r) == first_selected(self.children@, Selector::Context(SymbolContext::ReturnType)),
    {
        find_first(self.children.as_slice(), Selector::Context(SymbolContext::ReturnType))
    }
}

} // verus!
