//! Decision logic of a file watcher that runs templated command chains when
//! watched paths change: pattern matching, path templating, chain sequencing
//! and batch dispatch, each stated and proved against a mathematical model.
//!
//! The library decides; its caller acts. Watching the file system, waiting
//! out the debounce window and launching processes are the caller's part.

pub mod actions;
pub mod chain;
pub mod command;
pub mod config;
pub mod dispatch;
pub mod template;
pub mod text;

pub use crate::actions::{Action, CommandAction};
pub use crate::config::{CommandConfig, Config};
