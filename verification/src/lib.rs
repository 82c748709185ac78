//! Transparent object persistence in the prevalence style: durability comes
//! from logging the commands that produced each state transition, replaying
//! them to reconstruct state after a restart, and periodically checkpointing
//! the full state to bound replay cost.

pub mod command;
pub mod command_log;
pub mod counter;
pub mod madeleine;
pub mod madeleine_error;
pub mod madeleine_result;
pub mod memory;
pub mod replay;
pub mod snapshot;

pub use crate::command::Command;
pub use crate::command::Persistent;
pub use crate::madeleine::Madeleine;
pub use crate::madeleine_error::MadeleineError;
