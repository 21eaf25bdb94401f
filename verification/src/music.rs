//! Music theory helpers and note transcription.
pub mod note;
pub mod transcriber;
pub mod segment_laws;
pub mod summary;
