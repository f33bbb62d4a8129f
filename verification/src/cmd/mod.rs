//! The command-line subcommands.
pub mod common;
pub mod check;
pub mod add;
pub mod edit;
pub mod list;
pub mod remove;
pub mod start;
pub mod stop;
