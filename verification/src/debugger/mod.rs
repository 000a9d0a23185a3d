//! Control of a debugging session: its state, its breakpoints and the
//! stepping policy.

pub mod breakpoint;
pub mod engine;
pub mod state;
pub mod stepper;
pub mod theorems;

pub use breakpoint::{BreakpointManager, BreakpointSpec};
pub use engine::{AdvanceOutcome, BackendEvent, Control, DebuggerEngine, PauseReason};
pub use state::{DebugState, RunMode};
pub use stepper::{Directive, HookKind, Stepper};
