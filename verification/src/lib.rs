//! Incremental sorting step-engine.
//!
//! Two sorting algorithms — insertion sort and pancake sort — are decomposed
//! into single, resumable micro-steps, so that an external frame clock can
//! advance a sort one bounded unit of work at a time while a renderer draws
//! the array between steps. The crate holds the array store, the two step
//! strategies, and the session controller that gates user commands and drives
//! setup and steps from clock ticks.

pub mod order;
pub mod session;
pub mod sorts;
