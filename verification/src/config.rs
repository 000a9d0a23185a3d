//! Settings that a configuration file supplies; command-line arguments are
//! merged over them.

use vstd::prelude::*;

verus! {

/// Debugger settings of a configuration.
#[derive(Debug, Clone, Default, PartialEq, Eq)]
pub struct DebugConfig {
    /// Breakpoints to set where the command line names none.
    pub breakpoints: Vec<String>,
    /// Verbosity level; any level above zero turns verbose output on.
    pub verbosity: Option<u8>,
}

/// Output settings of a configuration.
#[derive(Debug, Clone, Default, PartialEq, Eq)]
pub struct OutputConfig {
    /// Output format to use where the command line names none.
    pub format: Option<String>,
    /// Whether to show the events emitted during execution.
    pub show_events: Option<bool>,
}

/// A loaded configuration.
#[derive(Debug, Clone, Default, PartialEq, Eq)]
pub struct Config {
    pub debug: DebugConfig,
    pub output: OutputConfig,
}

} // verus!
