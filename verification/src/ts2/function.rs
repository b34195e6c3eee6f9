//! Function declarations.
use vstd::prelude::*;
use crate::ts2::types::Type;

verus! {

#[derive(Debug, PartialEq)]
pub struct Function {
    pub identifier: String,
    pub documentation: Option<String>,
    pub is_exported: bool,
    pub return_type: Option<Type>,
}

} // verus!
