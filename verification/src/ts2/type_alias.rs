//! Type alias declarations.
use vstd::prelude::*;
use crate::ts2::symbols::Symbol;

verus! {

#[derive(Debug, PartialEq)]
pub struct TypeAlias {
    pub identifier: String,
    pub type_kind: Box<Symbol>,
}

} // verus!
