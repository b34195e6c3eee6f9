//! Types named in declarations.
use vstd::prelude::*;

verus! {

#[derive(Debug, PartialEq)]
pub enum Type {
    Predefined(String),
    /// This is the case where we have a type alias, and we need to resolve it.
    ///
    /// When the type has been resolved, the second element in the tuple will
    /// contain the FQN of the type.
    Identifier(String, Option<String>),
}

/// The name a type is written with.
pub open spec fn named_type(t: Type) -> Seq<char> {
    match t {
        Type::Predefined(n) => n@,
        Type::Identifier(n, _) => n@,
    }
}

impl Type {
    pub fn identifier(&self) -> (r: &str)
        ensures
            r@ == named_type(*self),
    {
        match self {
            Type::Predefined(name) => name.as_str(),
            Type::Identifier(identifier, _) => identifier.as_str(),
        }
    }
}

} // verus!
