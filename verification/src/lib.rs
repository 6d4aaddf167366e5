//! Core of a small POSIX-style shell: a parser that turns lines of shell
//! syntax into structured command lists, a planner that turns redirections
//! and pipelines into file-descriptor actions, and an executor state machine
//! that decides which pipelines run and what status the whole statement
//! reports. All operating-system work (spawning, waiting, opening files,
//! changing directory) is left to the surrounding program, which drives the
//! state machine here and reports outcomes back to it.

pub mod builtin;
pub mod command;
pub mod exec;
pub mod line_parser;
pub mod redirect;

pub use command::Command;
pub use command::CommandList;
pub use command::JoinOperator;
pub use command::ListEntry;
pub use command::ParseError;
pub use command::Pipeline;
pub use command::RedirectSpec;
