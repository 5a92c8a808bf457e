//! The display filter language: lexer -> parser -> AST -> type check against
//! the field registry -> evaluator over stored frames.
//!
//! Filtering never re-dissects: an expression is evaluated by walking the
//! flat tree a frame already carries.

pub mod addresses;
pub mod ast;
pub mod coercion;
pub mod complete;
pub mod eval;
pub mod lex;
pub mod meaning;
pub mod parse;
pub mod spelling;
pub mod suggesting;
pub mod types;

pub use lex::FilterError;
pub use parse::parse;
pub use types::compile;
