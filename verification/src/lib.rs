//! Checkpointed voting weights.
//!
//! Each account has an append-only log of `(time step, weight)` checkpoints;
//! the library answers the current weight and the weight as of any past time
//! step (a floor query over the log, resolved by binary search).

pub mod checkpoint;
pub mod governance;
