//! Command grammar for chat bots: a help string such as `!hello <name> <other?> <rest...>`
//! is compiled into a validated command schema, and each incoming line is matched against
//! that schema to extract its arguments.
//!
//! Around that core: dispatch of a line over many commands, help listings, `${key}`
//! templates, stored per-channel responses, and durations in words. Transport, scheduling
//! and storage are left to the caller, which hands in plain values.

pub mod text;
pub mod command;
pub mod template;
pub mod render;
pub mod format;
pub mod cmd;
pub mod dispatch;
pub mod help;
pub mod responses;

pub use command::{Arg, ArgKind, Args, Command, Error, ExtractResult};
