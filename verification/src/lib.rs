//! A guard for SSH forced commands: rules that say which commands users may run, the
//! matching of commands against them, the plan of what a matched rule does, audit
//! events, and the learning of rules from example commands.
pub mod actions;
pub mod audit;
pub mod binaries;
pub mod cli;
pub mod config;
pub mod engine;
pub mod errors;
pub mod guard;
pub mod merge;
pub mod perform;
pub mod shell;
pub mod strmap;
pub mod text;
