//! The replicated log and the state machine behind it.

pub mod log;
pub mod machine;
pub mod node;
pub mod types;
