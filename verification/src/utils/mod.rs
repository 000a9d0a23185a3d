//! Helpers that read a module without executing it.

pub mod wasm;

pub use wasm::{get_module_info, parse_functions, ModuleInfo};
