//! Verified core of the FerroTone pitch trainer: note naming, note
//! segmentation, pitch-frame gating and the integer decisions of the audio
//! pipeline.
pub mod music;
pub mod pitch;
pub mod gate;
pub mod audio;
pub mod error;
pub mod config;
pub mod samples;
pub mod dataset;
