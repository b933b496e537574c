//! Repository status for terminal status bars: the payload that the bridge
//! caches for the WezTerm and Kitty adapters, how the pane and repository of
//! an update are found, and the configuration text that setup writes.
pub mod cache;
pub mod cli;
pub mod event;
pub mod git_status;
pub mod herdr;
pub mod lua;
pub mod occurrences;
pub mod options;
pub mod path;
pub mod payload;
pub mod rerun;
pub mod setup;
pub mod text;

pub use cli::{SetupArgs, TerminalArgs, UpdateArgs};
pub use payload::{Payload, RepositoryStatus, StatusFlags};
