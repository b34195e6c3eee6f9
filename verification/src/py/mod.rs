//! The Python front end.
pub mod context;
pub mod helpers;
pub mod symbol;
pub mod parse;
pub mod entity;
pub mod parser;
