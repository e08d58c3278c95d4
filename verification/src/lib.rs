//! Distributed snapshot capture over a tree of debugger agents.

pub mod debugger;
pub mod gdbmi;
pub mod machine;
pub mod metadata;
pub mod protocol;
pub mod render;
pub mod report;
pub mod session;
pub mod snapshot;
pub mod tools;
pub mod tree;

pub use machine::GdbMachine;
pub use tree::TreeState;
