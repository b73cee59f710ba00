//! Quarter: a Forth interpreter whose core is verified with Verus.

pub mod memory;
pub mod text;
pub mod lexer;

pub use memory::Memory;
pub mod stack;
pub use stack::{LoopStack, ReturnStack, Stack};
pub mod machine;
pub use machine::Machine;
pub mod words;
pub mod ast;
pub mod dictionary;
pub mod parser;
pub mod interp;
pub mod session;
pub mod registry;
pub mod ast_words;
pub mod budget;
pub mod tail_calls;
pub mod word_laws;
pub use ast::AstNode;
pub use dictionary::Dictionary;
