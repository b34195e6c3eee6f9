use vstd::prelude::*;
use crate::ts::symbol::{
    children_of, deref_all, find_first, first_selected, opt_deref, select, selects, Selector, Symbol,
    SymbolContext,
};

verus! {

#[derive(Debug, PartialEq)]
pub struct Interface {
    pub identifier: String,
    pub documentation: Option<String>,
    /// Interfaces are actually just a single object type.
    /// We forward a bunch of methods to this child object.
    pub children: Vec<Symbol>,
    pub exported: bool,
}

impl Interface {
    /// The generic type variables, in order.
    pub fn type_variables(&self) -> (r: Vec<&Symbol>)
        ensures
            deref_all(r@) == self.children@.filter(|s: Symbol| selects(Selector::TypeVariable, s)),
    {
        select(self.children.as_slice(), Selector::TypeVariable)
    }
    /// The properties of the object type the interface forwards to: its
    /// body, whatever type it extends.
    pub fn properties(&self) -> (r: Vec<&Symbol>)
        requires
            first_selected(self.children@, Selector::ObjectType) is Some,
        ensures
            deref_all(r@) == children_of(first_selected(self.children@, Selector::ObjectType).unwrap()).filter(
                |s: Symbol| selects(Selector::Property, s),
            ),
    {
        let body = find_first(self.children.as_slice(), Selector::ObjectType).unwrap();
        select(body.children(), Selector::Property)
    }

    /// The methods of the object type the interface forwards to: its body,
    /// whatever type it extends.
    pub fn methods(&self) -> (r: Vec<&Symbol>)
        requires
            first_selected(self.children@, Selector::ObjectType) is Some,
        ensures
            deref_all(r@) == children_of(first_selected(self.children@, Selector::ObjectType).unwrap()).filter(
                |s: Symbol| selects(Selector::Method, s),
            ),
    {
        let body = find_first(self.children.as_slice(), Selector::ObjectType).unwrap();
        select(body.children(), Selector::Method)
    }

    /// The type the interface extends, if any.
    pub fn extends(&self) -> (r: Option<&Symbol>)
        ensures
            opt_deref(r) == first_selected(self.children@, Selector::Context(SymbolContext::Extends)),
    {
        find_first(self.children.as_slice(), Selector::Context(SymbolContext::Extends))
    }
}

} // verus!
