//! Evaluation core of a small dynamically typed scripting language: a static
//! resolver that computes scope distances, and the runtime pieces that use them.
pub mod ast;
pub mod environment;
pub mod interpreter;
pub mod libs;
pub mod resolver;
pub mod value;
