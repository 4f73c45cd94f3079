//! A POSIX-style interactive shell core: tokenizer, command parser,
//! builtin commands and TAB-completion decisions, each with a contract.

pub mod text;
pub mod strmap;
pub mod parser;
pub mod numtext;
pub mod builtins;
pub mod completion;
pub mod sort;
pub mod exec;
