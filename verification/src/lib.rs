//! Age-based thinning of filesystem snapshots.
//!
//! The crate finds the snapshots of one volume in a listing, orders them by
//! the creation time encoded in their names, and decides which of them a
//! decay-radius sweep keeps and which it hands over for destruction.

pub mod command;
pub mod stamp;
pub mod snapshot;
pub mod pattern;
pub mod order;
pub mod discovery;
pub mod policy;
pub mod retention;
pub mod settled;
pub mod destroyer;
pub mod filters;
