//! Brainfuck embedded in a foreign token stream: normalising tokens into
//! canonical commands, compiling grouped tokens into a command tree, and
//! running that tree on a fixed tape of byte cells.

pub mod token;
pub mod command;
pub mod tree;
pub mod machine;
pub mod run;
pub mod laws;
