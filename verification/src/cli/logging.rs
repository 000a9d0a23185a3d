//! What the program logs: the level that a verbosity stands for, and the
//! settings that the environment may override.

use vstd::prelude::*;
use vstd::string::*;

verus! {

/// How much the program logs.
#[derive(Debug, Clone, Copy, PartialEq, Eq)]
pub enum Verbosity {
    Quiet,
    Normal,
    Verbose,
}

impl Verbosity {
    /// The name of the log level.
    pub open spec fn level(self) -> Seq<char> {
        match self {
            Verbosity::Quiet => "error"@,
            Verbosity::Normal => "info"@,
            Verbosity::Verbose => "debug"@,
        }
    }

    /// The name of the log level.
    pub fn to_log_level(self) -> (name: &'static str)
        ensures
            name@ == self.level(),
    {
        match self {
            Verbosity::Quiet => "error",
            Verbosity::Normal => "info",
            Verbosity::Verbose => "debug",
        }
    }
}

/// The directive that filters the log: the setting `rust_log` of the
/// environment where there is one, else the level `level` for this crate.
pub open spec fn filter_directive(rust_log: Option<Seq<char>>, level: Seq<char>) -> Seq<char> {
    match rust_log {
        Some(setting) => setting,
        None => "soroban_debugger="@ + level,
    }
}

/// The directive that filters the log.
pub fn log_filter(rust_log: Option<&str>, level: &str) -> (directive: String)
    ensures
        directive@ == filter_directive(
            match rust_log {
                Some(setting) => Some(setting@),
                None => None,
            },
            level@,
        ),
{
    match rust_log {
        Some(setting) => String::from_str(setting),
        None => {
            let mut directive = String::from_str("soroban_debugger=");
            directive.append(level);
            directive
        },
    }
}

/// Whether the log is written as JSON: where the environment holds the
/// setting for it, whatever its value.
pub fn json_log(json_env: Option<&str>) -> (json: bool)
    ensures
        json == json_env is Some,
{
    json_env.is_some()
}

} // verus!
