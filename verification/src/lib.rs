//! Instrumentation-and-control engine of a debugger for smart-contract
//! bytecode modules.
//!
//! - [`runtime`] rewrites a module so that the execution backend calls back
//!   into the debugger at the entry and the exit of hooked functions.
//! - [`debugger`] holds the session: its state, its breakpoints, the
//!   stepping policy, and the decision that the engine takes at each
//!   callback of the backend.
//! - [`inspector`] holds the call stack and the storage snapshot that a
//!   session shows.
//! - [`trace`] holds the ordered record of a session and the comparison of
//!   two such records.
//! - [`analyzer`] sums up the resource usage that traces record and
//!   suggests what to optimize.
//! - [`utils`] reads the exports and section counts of a module.
//! - [`cli`], [`config`], [`ui`] and [`output`] hold the arguments of the
//!   commands, the configuration merged into them, the settings of the
//!   log, and the formatting of what is shown.
//!
//! The execution backend itself is not part of the library: a driver hands
//! its events to [`debugger::engine::DebuggerEngine`] and acts on the
//! decision that comes back.

pub mod analyzer;
pub mod cli;
pub mod config;
pub mod debugger;
pub mod error;
pub mod inspector;
pub mod output;
pub mod runtime;
pub mod text;
pub mod trace;
pub mod ui;
pub mod utils;

pub use error::DebuggerError;
