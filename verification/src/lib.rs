//! Dossier: reads source code and describes the interfaces, classes,
//! functions and types found in it, with their docstrings.

pub mod common;
pub mod paths;
pub mod syntax;
pub mod text;
pub mod ts;
pub mod ts2;
pub mod py;
