//! Error types.
use vstd::prelude::*;

verus! {

/// Failures while loading or saving the settings file.
#[derive(Debug)]
pub enum ConfigError {
    Io(String),
    Parse(String),
    Serialize(String),
}

/// Failures while setting up pitch detection or audio capture.
#[derive(Debug)]
pub enum DetectionError {
    InitFailed(String),
    NoDevice,
    UnsupportedSampleRate(u32),
    StreamError(String),
}

} // verus!
