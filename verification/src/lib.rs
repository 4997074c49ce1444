//! Liveness regions of owners and borrows, the aliasing discipline that
//! decides whether a set of such regions may coexist, and two small
//! operations on an owned text buffer that are reached through a borrow.

pub mod buffer;
pub mod discipline;
pub mod laws;
pub mod order;
pub mod region;
pub mod span;
