//! Read-only views of the session for presentation: the call stack and a
//! snapshot of storage.

pub mod stack;
pub mod storage;

pub use stack::CallStackInspector;
pub use storage::StorageInspector;
