//! A railway track network: segments, the connection points between them,
//! junction switches, signals and trains.

pub mod common;
pub mod invariants;
pub mod system;
pub mod text;
