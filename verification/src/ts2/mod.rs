//! A second TypeScript front end, whose scopes keep their declarations in
//! maps ordered as the declarations came.
pub mod entity;
pub mod entries;
pub mod function;
pub mod symbols;
pub mod type_alias;
pub mod types;
pub mod laws;
pub mod parse;
