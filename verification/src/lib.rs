//! A temperature-sensor sampler: sensor discovery from a directory listing,
//! per-tick report assembly keyed by sensor id, and the decisions of the
//! refresh loop, all stated over plain values and verified.

pub mod text;
pub mod sensor;
pub mod report;
pub mod display;
pub mod provider;
