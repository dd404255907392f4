//! Output rendering and frame scheduling for a nested display backend.
//!
//! The crate holds the decisions of the backend as verified functions on plain
//! values: which buffer allocator a session adopts, which surfaces are
//! registered, when a frame is rendered and what follows from a render attempt.
//! The graphics stack and the event loop stay with the caller, who reports what
//! they did and carries out what the functions here return.

pub mod allocator;
pub mod error;
pub mod geometry;
pub mod menu;
pub mod output;
pub mod overlap;
pub mod scheduler;
pub mod surface;
pub mod x11;
