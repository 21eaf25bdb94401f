//! Integer decisions of the audio capture pipeline.
pub mod chunker;
pub mod device;
