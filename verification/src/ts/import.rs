use vstd::prelude::*;

verus! {

/// Represents an import statement: the names it brings in and the module
/// path it brings them from.
#[derive(Debug, PartialEq)]
pub struct Import {
    pub names: Vec<String>,
    pub source: String,
}

} // verus!
