//! Stores that live in memory.

pub mod sink;
pub mod targets;
