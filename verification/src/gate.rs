//! Gates that drop audio buffers or pitch frames.
pub mod confidence;
pub mod noise_suppression;
