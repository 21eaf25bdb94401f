//! Settings sections that hold no measured quantities.
use vstd::prelude::*;

verus! {

/// Audio capture settings.
#[derive(Clone, Debug)]
pub struct AudioSettings {
    pub sample_rate: u32,
    pub buffer_size: usize,
    /// Input device name; empty for the system default.
    pub device_name: String,
    /// Pitch detection algorithm.
    pub algorithm: String,
}

impl Default for AudioSettings {
    /// 48 kHz, 1024-sample buffers, the system default device and the
    /// "swipe" algorithm.
    fn default() -> (s: Self)
        ensures
            s.sample_rate == 48000,
            s.buffer_size == 1024,
            s.device_name@ == Seq::<char>::empty(),
            s.algorithm@ == seq!['s', 'w', 'i', 'p', 'e'],
    {
        proof {
            reveal_strlit("swipe");
        }
        AudioSettings {
            sample_rate: 48000,
            buffer_size: 1024,
            device_name: String::new(),
            algorithm: String::from_str("swipe"),
        }
    }
}

/// Per-user settings.
#[derive(Clone, Debug)]
pub struct UserSettings {
    /// Cache directory; empty for the platform default.
    pub cache_folder: String,
    pub active_profile: String,
}

impl Default for UserSettings {
    /// No cache folder and the "default" profile.
    fn default() -> (s: Self)
        ensures
            s.cache_folder@ == Seq::<char>::empty(),
            s.active_profile@ == seq!['d', 'e', 'f', 'a', 'u', 'l', 't'],
    {
        proof {
            reveal_strlit("default");
        }
        UserSettings { cache_folder: String::new(), active_profile: String::from_str("default") }
    }
}

} // verus!
