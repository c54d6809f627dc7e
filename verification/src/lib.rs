//! A minimalist Unix-like shell: the verified core.
//!
//! Everything that decides or computes lives here: the quote-aware command
//! parser, the argument rules of the built-in commands, the line editor's
//! key handling and tab completion, and the layout of `ls` listings.  Reading
//! the terminal and touching the file system is left to the caller.
pub mod text;
pub mod error;
pub mod parser;
pub mod order;
pub mod unicode;
pub mod commands;
pub mod path;
pub mod shell;
