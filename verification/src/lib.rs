//! The command execution engine of an interactive shell: tokenizing a line,
//! planning redirections and pipelines, running builtins, and deciding where
//! each result goes. Everything here works on plain values; the caller spawns
//! processes and touches files and the terminal.

pub mod builtins;
pub mod completion;
pub mod engine;
pub mod job;
pub mod outcome;
pub mod pipeline;
pub mod redirect;
pub mod shell;
pub mod sink;
pub mod text;
pub mod tokenizer;
