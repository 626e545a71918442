//! Skroll: a small language for branching stories, and the engine that plays them.
//!
//! The front end (`span`, `tokens`, `diagnostic`, `ast`, `parser`, `schema`,
//! `compiler`) turns script text into a portable document. The engine
//! (`error`, `model`, `condition`, `validate`, `runtime`) checks a story and
//! walks it as a choice-driven state machine; `host` is what an application
//! keeps of a loaded story. `text` holds what both halves need of texts.

pub mod span;
pub mod text;
pub mod diagnostic;
pub mod tokens;
pub mod ast;
pub mod parser;
pub mod schema;
pub mod compiler;
pub mod error;
pub mod model;
pub mod condition;
pub mod validate;
pub mod runtime;
pub mod host;
