//! A small line-oriented stack machine: a parser that turns source text into
//! annotated instructions and a label table, and a single-step interpreter.
pub mod text;
pub mod token;
pub mod program;
pub mod parser;
pub mod laws;
