//! Version identifiers of three grammars: taking them apart, validating
//! them, computing the next version and casting from one grammar to
//! another, with what a project needs around that to rewrite its files.
//!
//! Every executable function states what it returns over the specification
//! functions of its module, and [`laws`] proves how the modules relate.

pub mod bump;
pub mod cast;
pub mod edit;
pub mod git;
pub mod laws;
pub mod number;
pub mod schema;
pub mod text;
pub mod tui;
pub mod version;
