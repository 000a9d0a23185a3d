//! Arguments of the debugger's commands.

use crate::config::Config;
use crate::text::{option_view, string_views};
use std::path::PathBuf;
use vstd::prelude::*;

verus! {

/// A path of the file system, as `std::path::PathBuf`. Paths are carried
/// through; nothing here looks inside one.
#[verifier::external_type_specification]
#[verifier::external_body]
pub struct ExPathBuf(PathBuf);

/// The parsed command line.
pub struct Cli {
    pub command: Commands,
}

/// The debugger's commands.
pub enum Commands {
    /// Run a contract function with the debugger.
    Run(RunArgs),
    /// Start an interactive debugging session.
    Interactive(InteractiveArgs),
    /// Inspect contract information without executing.
    Inspect(InspectArgs),
    /// Analyze a contract and generate gas optimization suggestions.
    Optimize(OptimizeArgs),
    /// Check compatibility between two contract versions.
    UpgradeCheck(UpgradeCheckArgs),
    /// Compare two execution trace files side by side.
    Compare(CompareArgs),
}

/// Arguments of `run`.
pub struct RunArgs {
    /// Path to the contract module.
    pub contract: PathBuf,
    /// Function name to execute.
    pub function: String,
    /// Function arguments as a JSON array.
    pub args: Option<String>,
    /// Initial storage state as a JSON object.
    pub storage: Option<String>,
    /// Function names to set breakpoints at.
    pub breakpoint: Vec<String>,
    /// Network snapshot file to load before execution.
    pub network_snapshot: Option<PathBuf>,
    /// Enable verbose output.
    pub verbose: bool,
    /// Output format (text, json).
    pub format: Option<String>,
    /// Show contract events emitted during execution.
    pub show_events: bool,
    /// Filter events by topic.
    pub filter_topic: Option<String>,
    /// Execute the contract call this many times.
    pub repeat: Option<u32>,
    /// Patterns that filter the storage output by key.
    pub storage_filter: Vec<String>,
}

impl RunArgs {
    /// The breakpoints after merging: those of the command line, or those of
    /// the configuration where the command line names none.
    pub open spec fn merged_breakpoints(self, config: Config) -> Seq<Seq<char>> {
        if self.breakpoint@.len() == 0 {
            string_views(config.debug.breakpoints@)
        } else {
            string_views(self.breakpoint@)
        }
    }

    /// Whether events are shown after merging: the command line's flag, or
    /// the configuration's setting where the flag is off.
    pub open spec fn merged_show_events(self, config: Config) -> bool {
        self.show_events || config.output.show_events == Some(true)
    }

    /// The output format after merging: the command line's, or the
    /// configuration's where the command line names none.
    pub open spec fn merged_format(self, config: Config) -> Option<Seq<char>> {
        if self.format is None {
            option_view(config.output.format)
        } else {
            option_view(self.format)
        }
    }

    /// Whether output is verbose after merging: the command line's flag, or
    /// a configured verbosity level above zero.
    pub open spec fn merged_verbose(self, config: Config) -> bool {
        self.verbose || (config.debug.verbosity matches Some(level) && level > 0)
    }

    /// Fills in from `config` what the command line left open. A value given
    /// on the command line always wins; the other arguments are left alone.
    pub fn merge_config(&mut self, config: &Config)
        ensures
            string_views(final(self).breakpoint@) == old(self).merged_breakpoints(*config),
            final(self).show_events == old(self).merged_show_events(*config),
            option_view(final(self).format) == old(self).merged_format(*config),
            final(self).verbose == old(self).merged_verbose(*config),
            final(self).contract == old(self).contract,
            final(self).function == old(self).function,
            final(self).args == old(self).args,
            final(self).storage == old(self).storage,
            final(self).network_snapshot == old(self).network_snapshot,
            final(self).filter_topic == old(self).filter_topic,
            final(self).repeat == old(self).repeat,
            final(self).storage_filter == old(self).storage_filter,
    {
        if self.breakpoint.is_empty() && !config.debug.breakpoints.is_empty() {
            self.breakpoint = config.debug.breakpoints.clone();
            assert(self.breakpoint@ =~= config.debug.breakpoints@);
        }
        if !self.show_events {
            if let Some(show) = config.output.show_events {
                self.show_events = show;
            }
        }
        if self.format.is_none() {
            self.format = config.output.format.clone();
        }
        if !self.verbose {
            if let Some(level) = config.debug.verbosity {
                if level > 0 {
                    self.verbose = true;
                }
            }
        }
    }
}

/// Arguments of `interactive`.
pub struct InteractiveArgs {
    /// Path to the contract module.
    pub contract: PathBuf,
    /// Network snapshot file to load before the session starts.
    pub network_snapshot: Option<PathBuf>,
    /// Enable verbose output.
    pub verbose: bool,
}

impl InteractiveArgs {
    /// Fills in from `config` what the command line left open. No setting of
    /// a configuration concerns an interactive session, so nothing changes.
    pub fn merge_config(&mut self, config: &Config)
        ensures
            *final(self) == *old(self),
    {
    }
}

/// Arguments of `inspect`.
pub struct InspectArgs {
    /// Path to the contract module.
    pub contract: PathBuf,
    /// Show exported functions.
    pub functions: bool,
    /// Show contract metadata.
    pub metadata: bool,
}

/// Arguments of `optimize`.
pub struct OptimizeArgs {
    /// Path to the contract module.
    pub contract: PathBuf,
    /// Function names to analyze.
    pub function: Vec<String>,
    /// Function arguments as a JSON array.
    pub args: Option<String>,
    /// Output file for the optimization report; standard output if absent.
    pub output: Option<PathBuf>,
    /// Initial storage state as a JSON object.
    pub storage: Option<String>,
    /// Network snapshot file to load before analysis.
    pub network_snapshot: Option<PathBuf>,
}

/// Arguments of `upgrade-check`.
pub struct UpgradeCheckArgs {
    /// Path to the old contract module.
    pub old: PathBuf,
    /// Path to the new contract module.
    pub new: PathBuf,
    /// Function name to run side by side.
    pub function: Option<String>,
    /// Function arguments as a JSON array for the side-by-side run.
    pub args: Option<String>,
    /// Output file for the compatibility report; standard output if absent.
    pub output: Option<PathBuf>,
}

/// Arguments of `compare`.
pub struct CompareArgs {
    /// Path to the first execution trace file.
    pub trace_a: PathBuf,
    /// Path to the second execution trace file.
    pub trace_b: PathBuf,
    /// Output file for the comparison report; standard output if absent.
    pub output: Option<PathBuf>,
}

} // verus!
