//! The command-line surface: the arguments of each command, and how a
//! configuration fills in what the command line left open.

pub mod args;
pub mod logging;

pub use args::{
    Cli, Commands, CompareArgs, InspectArgs, InteractiveArgs, OptimizeArgs, RunArgs,
    UpgradeCheckArgs,
};
pub use logging::{json_log, log_filter, Verbosity};
