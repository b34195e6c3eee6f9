//! The TypeScript front end.
pub mod accepts;
pub mod class;
pub mod declarations;
pub mod context;
pub mod entity;
pub mod field;
pub mod function;
pub mod helpers;
pub mod import;
pub mod interface;
pub mod iterator;
pub mod laws;
pub mod method;
pub mod parameter;
pub mod parse;
pub mod parser;
pub mod property;
pub mod symbol;
pub mod symbol_table;
pub mod type_alias;
pub mod type_constraint;
pub mod type_variable;
pub mod types;
