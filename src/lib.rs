//! A small interactive shell: an incremental tokenizer for command lines with
//! POSIX-style quoting, redirections and pipes, and the pure decisions of the
//! pipeline builder, the executor and the builtins.

pub mod builtin;
pub mod cmd;
pub mod command;
pub mod complete;
pub mod laws;
pub mod lexer;
pub mod parse;
pub mod parser;
pub mod redirect;
pub mod search;
pub mod text;
pub mod token;
