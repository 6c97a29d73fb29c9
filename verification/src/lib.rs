//! Front end of a small source-to-source compiler: a tokenizer that turns
//! source text into a token sequence, a recursive-descent parser that builds
//! an abstract syntax tree, and an emitter that renders the tree as target
//! text.

pub mod ast;
pub mod tokenizer;
pub mod transpile;
