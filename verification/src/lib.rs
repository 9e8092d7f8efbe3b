//! Timestamp synchronization engine for two independently clocked
//! data-acquisition streams (GET and FRIB) that recorded the same
//! experiment.  The engine turns each channel's timestamp series into a
//! first-difference series, locates the index pair at which the two
//! channels first agree, and walks both difference series forward to
//! produce a plan of matched event indices, absorbing one-sided missed
//! events on the FRIB side and tolerating small timing jitter.

pub mod align;
pub mod config;
pub mod delta;
pub mod engine;
pub mod laws;
pub mod paths;
pub mod plan;
