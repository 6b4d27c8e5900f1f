//! Bounded-parallelism execution of a shared task, and terminal text styling.

pub mod dispatch;
pub mod text;
