//! What prepares a module for a debugging session.

pub mod instrumentation;
pub mod leb;
pub mod outline;
pub mod plan;
pub mod reach;
pub mod reader;
pub mod targets;

pub use instrumentation::Instrumenter;
pub use plan::{HookPolicy, HookScope};
pub use targets::HookTarget;
