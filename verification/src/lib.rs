//! A small scripting-language front end and tree-walking interpreter.
//!
//! Source text is turned into tokens by the [`lexer`], tokens into an
//! abstract syntax tree by the [`parser`], and the tree is executed against a
//! name/value environment by the [`evaluator`].  Every stage carries a full
//! functional specification: the exec code is proved to compute exactly what
//! the spec-level lexer, parser and evaluator describe.

pub mod ast;
pub mod evaluator;
pub mod lexer;
pub mod parser;
pub mod text;
pub mod tokens;
pub mod values;
