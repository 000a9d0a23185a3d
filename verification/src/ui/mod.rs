//! Presentation of the debugger's output.

pub mod formatter;

pub use formatter::Formatter;
