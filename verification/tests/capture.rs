use ferrotone::audio::chunker::SampleChunker;
use ferrotone::audio::device::{
    can_choose_input_config, choose_input_config, describe_input_devices, select_input_device, DeviceSelection, StreamChoice,
    SupportedInputRange,
};
use ferrotone::config::{AudioSettings, UserSettings};
use ferrotone::error::DetectionError;

#[test]
fn chunker_waits_for_half_a_chunk() {
    let mut c: SampleChunker<u32> = SampleChunker::new(8);
    assert!(c.push(vec![1, 2, 3]).is_none());
    let chunk = c.push(vec![4]).unwrap();
    assert_eq!(chunk, vec![1, 2, 3, 4]);
    assert!(c.take_rest().is_none());
}

#[test]
fn chunker_hands_out_full_chunks_first() {
    let mut c: SampleChunker<u32> = SampleChunker::new(4);
    let chunk = c.push((0..10).collect()).unwrap();
    assert_eq!(chunk, vec![0, 1, 2, 3]);
    let chunk = c.push(vec![]).unwrap();
    assert_eq!(chunk, vec![4, 5, 6, 7]);
    let chunk = c.push(vec![]).unwrap();
    assert_eq!(chunk, vec![8, 9]);
    assert!(c.push(vec![10]).is_none());
    assert_eq!(c.take_rest(), Some(vec![10]));
    assert!(c.take_rest().is_none());
}

#[test]
fn devices_marked_default_by_name() {
    let names = vec!["Mic A".to_string(), "Mic B".to_string()];
    let infos = describe_input_devices(&names, "Mic B");
    assert_eq!(infos.len(), 2);
    assert_eq!(infos[0].name, "Mic A");
    assert!(!infos[0].is_default);
    assert!(infos[1].is_default);
    let infos = describe_input_devices(&names, "");
    assert!(infos.iter().all(|d| d.is_default));
    let infos = describe_input_devices(&names, "Other");
    assert!(infos.iter().all(|d| !d.is_default));
}

#[test]
fn device_selected_by_name_or_default() {
    let names = vec![None, Some("USB".to_string()), Some("USB".to_string())];
    let sel = select_input_device(&Some("USB".to_string()), &names, false);
    assert_eq!(sel.unwrap(), DeviceSelection::Listed(1));
    let sel = select_input_device(&Some("Missing".to_string()), &names, true);
    assert!(matches!(sel, Err(DetectionError::NoDevice)));
    let sel = select_input_device(&None, &names, true);
    assert_eq!(sel.unwrap(), DeviceSelection::HostDefault);
    let sel = select_input_device(&None, &names, false);
    assert!(matches!(sel, Err(DetectionError::NoDevice)));
}

fn range(channels: u16, min: u32, max: u32) -> SupportedInputRange {
    SupportedInputRange { channels, min_sample_rate: min, max_sample_rate: max }
}

#[test]
fn config_defaults_without_ranges() {
    let choice = choose_input_config(2, 44100, &vec![], 48000);
    assert_eq!(choice, StreamChoice { channels: 2, sample_rate: 44100 });
}

#[test]
fn config_prefers_mono_at_wanted_rate() {
    let ranges = vec![range(2, 8000, 96000), range(1, 8000, 48000)];
    let choice = choose_input_config(2, 44100, &ranges, 48000);
    assert_eq!(choice, StreamChoice { channels: 1, sample_rate: 48000 });
}

#[test]
fn config_nearest_rate_on_default_channels() {
    let ranges = vec![range(1, 8000, 16000), range(2, 22050, 44100), range(2, 96000, 192000), range(4, 48000, 48000)];
    let choice = choose_input_config(2, 22050, &ranges, 48000);
    assert_eq!(choice, StreamChoice { channels: 2, sample_rate: 44100 });
    let ranges = vec![range(2, 8000, 96000)];
    let choice = choose_input_config(2, 22050, &ranges, 48000);
    assert_eq!(choice, StreamChoice { channels: 2, sample_rate: 48000 });
}

#[test]
fn config_ties_keep_first_candidate() {
    let ranges = vec![range(2, 40000, 40000), range(2, 56000, 56000)];
    let choice = choose_input_config(2, 1, &ranges, 48000);
    assert_eq!(choice.sample_rate, 40000);
}

#[test]
fn config_falls_back_to_default_rate() {
    let ranges = vec![range(1, 8000, 16000)];
    let choice = choose_input_config(2, 22050, &ranges, 48000);
    assert_eq!(choice, StreamChoice { channels: 2, sample_rate: 22050 });
}

#[test]
fn settings_defaults() {
    let audio = AudioSettings::default();
    assert_eq!(audio.sample_rate, 48000);
    assert_eq!(audio.buffer_size, 1024);
    assert_eq!(audio.device_name, "");
    assert_eq!(audio.algorithm, "swipe");
    let user = UserSettings::default();
    assert_eq!(user.cache_folder, "");
    assert_eq!(user.active_profile, "default");
}

#[test]
fn config_mono_above_signed_range() {
    let ranges = vec![range(2, 8000, 48000), range(1, 8000, 4_000_000_000)];
    assert!(can_choose_input_config(2, &ranges, 3_000_000_000));
    let choice = choose_input_config(2, 44100, &ranges, 3_000_000_000);
    assert_eq!(choice, StreamChoice { channels: 1, sample_rate: 3_000_000_000 });
}

#[test]
fn config_distance_uses_signed_readings() {
    // 3e9 and 4e9 read as -1294967296 and -294967296: the second is nearer
    // to 48000 in that reading.
    let ranges = vec![range(2, 3_000_000_000, 4_000_000_000)];
    assert!(can_choose_input_config(2, &ranges, 48000));
    let choice = choose_input_config(2, 44100, &ranges, 48000);
    assert_eq!(choice, StreamChoice { channels: 2, sample_rate: 4_000_000_000 });
}

#[test]
fn config_refuses_overflowing_distance() {
    // 3e9 reads as -1294967296; its distance to 1e9 leaves the signed range.
    let ranges = vec![range(2, 1_000_000_000, 1_000_000_000)];
    assert!(!can_choose_input_config(2, &ranges, 3_000_000_000));
    // A mono range covering the wanted rate makes the distances irrelevant.
    let ranges = vec![range(2, 1_000_000_000, 1_000_000_000), range(1, 0, u32::MAX)];
    assert!(can_choose_input_config(2, &ranges, 3_000_000_000));
    assert!(can_choose_input_config(2, &vec![], 3_000_000_000));
    // Ranges of another channel count offer no candidates.
    let ranges = vec![range(4, 1_000_000_000, 1_000_000_000)];
    assert!(can_choose_input_config(2, &ranges, 3_000_000_000));
}
