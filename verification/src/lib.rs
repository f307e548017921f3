//! A verified JMESPath engine: a lexer, a Pratt parser, an opcode compiler
//! with a small stack machine, a tree interpreter, and the built-in
//! function library, over a JSON-shaped value model.

pub mod ast;
pub mod compiler;
pub mod functions;
pub mod interpreter;
pub mod lexer;
pub mod parser;
pub mod trusted;
pub mod value;
pub mod vm;
