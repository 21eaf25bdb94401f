//! Choice of the input device and of its stream configuration.
use vstd::prelude::*;
use crate::error::DetectionError;

verus! {

/// An input device as listed to the user.
#[derive(Clone, Debug)]
pub struct AudioDeviceInfo {
    pub name: String,
    pub is_default: bool,
}

/// Device `name` counts as the configured default `default_name`: the
/// names are equal, or no default is configured.
pub open spec fn counts_as_default(name: Seq<char>, default_name: Seq<char>) -> bool {
    name == default_name || default_name.len() == 0
}

/// A listed device is marked default exactly when its name is the
/// configured default name; with no default configured, every device is.
pub proof fn lemma_default_marking(name: Seq<char>, default_name: Seq<char>)
    ensures
        default_name.len() > 0 ==> (counts_as_default(name, default_name) <==> name =~= default_name),
        default_name.len() == 0 ==> counts_as_default(name, default_name),
{
}

/// Lists devices by name, marking each that counts as the configured
/// default.
pub fn describe_input_devices(names: &Vec<String>, default_name: &str) -> (infos: Vec<AudioDeviceInfo>)
    ensures
        infos@.len() == names@.len(),
        forall|i: int|
            0 <= i < names@.len() ==> {
                &&& #[trigger] infos@[i].name@ == names@[i]@
                &&& infos@[i].is_default == counts_as_default(names@[i]@, default_name@)
            },
{
    let wanted = String::from_str(default_name);
    let no_default = default_name.is_empty();
    let mut infos: Vec<AudioDeviceInfo> = Vec::new();
    let n = names.len();
    let mut i: usize = 0;
    while i < n
        invariant
            n == names@.len(),
            i <= n,
            wanted@ == default_name@,
            no_default == (default_name@.len() == 0),
            infos@.len() == i,
            forall|k: int|
                0 <= k < i ==> {
                    &&& #[trigger] infos@[k].name@ == names@[k]@
                    &&& infos@[k].is_default == counts_as_default(names@[k]@, default_name@)
                },
        decreases n - i,
    {
        let name = names[i].clone();
        let is_default = name == wanted || no_default;
        infos.push(AudioDeviceInfo { name, is_default });
        assert(infos@[i as int].name@ == names@[i as int]@);
        assert(infos@[i as int].is_default == counts_as_default(names@[i as int]@, default_name@));
        i = i + 1;
    }
    infos
}

/// Which device to open.
#[derive(Debug, PartialEq, Eq, Structural)]
pub enum DeviceSelection {
    /// The device at this position of the host's device list.
    Listed(usize),
    /// The host's default input device.
    HostDefault,
}

/// A listed device (whose name could be read) is called `name`.
pub open spec fn is_named(device: Option<String>, name: Seq<char>) -> bool {
    match device {
        Some(n) => n@ == name,
        None => false,
    }
}

/// Picks the device to capture from: the first listed device called
/// `requested` when a name is requested, otherwise the host's default input
/// device. `device_names` lists the host's devices (`None` where a name
/// could not be read). Fails with `NoDevice` when the requested device is
/// not listed, or no name is requested and the host has no default device.
pub fn select_input_device(
    requested: &Option<String>,
    device_names: &Vec<Option<String>>,
    has_default: bool,
) -> (sel: Result<DeviceSelection, DetectionError>)
    ensures
        match requested {
            Some(name) => match sel {
                Ok(DeviceSelection::Listed(i)) => {
                    &&& i < device_names@.len()
                    &&& is_named(device_names@[i as int], name@)
                    &&& forall|j: int| 0 <= j < i ==> !is_named(#[trigger] device_names@[j], name@)
                },
                Ok(DeviceSelection::HostDefault) => false,
                Err(e) => {
                    &&& e is NoDevice
                    &&& forall|j: int|
                        0 <= j < device_names@.len() ==> !is_named(#[trigger] device_names@[j], name@)
                },
            },
            None => if has_default {
                sel == Ok::<DeviceSelection, DetectionError>(DeviceSelection::HostDefault)
            } else {
                sel matches Err(DetectionError::NoDevice)
            },
        },
{
    match requested {
        Some(name) => {
            let n = device_names.len();
            let mut i: usize = 0;
            while i < n
                invariant
                    n == device_names@.len(),
                    i <= n,
                    *requested == Some(*name),
                    forall|j: int| 0 <= j < i ==> !is_named(#[trigger] device_names@[j], name@),
                decreases n - i,
            {
                let entry = &device_names[i];
                let found = match entry {
                    Some(d) => d.eq(name),
                    None => false,
                };
                assert(found == is_named(device_names@[i as int], name@));
                if found {
                    return Ok(DeviceSelection::Listed(i));
                }
                i = i + 1;
            }
            Err(DetectionError::NoDevice)
        },
        None => {
            if has_default {
                Ok(DeviceSelection::HostDefault)
            } else {
                Err(DetectionError::NoDevice)
            }
        },
    }
}

} // verus!

verus! {

/// A range of stream configurations that a device supports.
#[derive(Clone, Copy, Debug)]
pub struct SupportedInputRange {
    pub channels: u16,
    pub min_sample_rate: u32,
    pub max_sample_rate: u32,
}

/// The stream configuration to open.
#[derive(Clone, Copy, Debug, PartialEq, Eq, Structural)]
pub struct StreamChoice {
    pub channels: u16,
    pub sample_rate: u32,
}

/// `rate` lies in the range's sample rates.
pub open spec fn covers(range: SupportedInputRange, rate: u32) -> bool {
    range.min_sample_rate <= rate <= range.max_sample_rate
}

/// A range offers mono capture at `rate`.
pub open spec fn mono_at(range: SupportedInputRange, rate: u32) -> bool {
    range.channels == 1 && covers(range, rate)
}

/// Rates a range with `channels` channels offers for a wanted `rate`: the
/// rate itself when covered, otherwise the range's two ends.
pub open spec fn range_candidates(range: SupportedInputRange, channels: u16, rate: u32) -> Seq<u32> {
    if range.channels != channels {
        seq![]
    } else if covers(range, rate) {
        seq![rate]
    } else {
        seq![range.min_sample_rate, range.max_sample_rate]
    }
}

/// Candidate rates of all ranges, in order.
pub open spec fn candidate_rates(ranges: Seq<SupportedInputRange>, channels: u16, rate: u32) -> Seq<u32>
    decreases ranges.len(),
{
    if ranges.len() == 0 {
        seq![]
    } else {
        candidate_rates(ranges.drop_last(), channels, rate) + range_candidates(
            ranges.last(),
            channels,
            rate,
        )
    }
}

/// A sample rate read as a signed 32-bit number: rates above `i32::MAX`
/// wrap round to negative values.
pub open spec fn signed_rate(rate: u32) -> int {
    if rate <= i32::MAX {
        rate as int
    } else {
        rate - 0x1_0000_0000
    }
}

/// The difference of two rates, each read as a signed 32-bit number, is
/// itself a signed 32-bit number.
pub open spec fn distance_fits(a: u32, b: u32) -> bool {
    i32::MIN <= signed_rate(a) - signed_rate(b) <= i32::MAX
}

/// Distance between two sample rates, measured between their signed 32-bit
/// readings.
pub open spec fn rate_distance(a: u32, b: u32) -> int {
    let d = signed_rate(a) - signed_rate(b);
    if d >= 0 {
        d
    } else {
        -d
    }
}

/// The best rate so far after looking at `candidate`: it replaces the
/// previous best only when strictly nearer to `rate`.
pub open spec fn nearer_rate(best: Option<u32>, candidate: u32, rate: u32) -> Option<u32> {
    match best {
        None => Some(candidate),
        Some(b) => if rate_distance(rate, candidate) < rate_distance(rate, b) {
            Some(candidate)
        } else {
            Some(b)
        },
    }
}

/// The first of the candidates nearest to `rate`.
pub open spec fn closest_rate(candidates: Seq<u32>, rate: u32) -> Option<u32>
    decreases candidates.len(),
{
    if candidates.len() == 0 {
        None
    } else {
        nearer_rate(closest_rate(candidates.drop_last(), rate), candidates.last(), rate)
    }
}

/// The stream configuration chosen for a device whose default has
/// `default_channels` channels at `default_rate`, given its supported
/// ranges and the wanted rate: the default when no range is known; mono at
/// the wanted rate when some range offers it; otherwise the default channel
/// count at the candidate rate nearest the wanted one (the default rate if
/// there is no candidate).
pub open spec fn chosen_config(
    default_channels: u16,
    default_rate: u32,
    ranges: Seq<SupportedInputRange>,
    rate: u32,
) -> StreamChoice {
    if ranges.len() == 0 {
        StreamChoice { channels: default_channels, sample_rate: default_rate }
    } else if offers_mono(ranges, rate) {
        StreamChoice { channels: 1, sample_rate: rate }
    } else {
        StreamChoice {
            channels: default_channels,
            sample_rate: match closest_rate(candidate_rates(ranges, default_channels, rate), rate) {
                Some(r) => r,
                None => default_rate,
            },
        }
    }
}

fn signed_rate_of(rate: u32) -> (v: i64)
    ensures
        v == signed_rate(rate),
{
    if rate <= 0x7fff_ffff {
        rate as i64
    } else {
        rate as i64 - 0x1_0000_0000
    }
}

fn distance_of(a: u32, b: u32) -> (d: i64)
    ensures
        d == rate_distance(a, b),
{
    let diff: i64 = signed_rate_of(a) - signed_rate_of(b);
    if diff >= 0 {
        diff
    } else {
        -diff
    }
}

fn nearer(best: Option<u32>, candidate: u32, rate: u32) -> (b: Option<u32>)
    ensures
        b == nearer_rate(best, candidate, rate),
{
    match best {
        None => Some(candidate),
        Some(prev) => {
            if distance_of(rate, candidate) < distance_of(rate, prev) {
                Some(candidate)
            } else {
                Some(prev)
            }
        },
    }
}

/// Some range offers mono capture at `rate`.
pub open spec fn offers_mono(ranges: Seq<SupportedInputRange>, rate: u32) -> bool {
    exists|i: int| 0 <= i < ranges.len() && mono_at(#[trigger] ranges[i], rate)
}

/// Every candidate rate that a range offers for `rate` has a distance to it
/// that fits a signed 32-bit number.
pub open spec fn range_distances_fit(range: SupportedInputRange, channels: u16, rate: u32) -> bool {
    range.channels != channels || covers(range, rate) || (distance_fits(rate, range.min_sample_rate)
        && distance_fits(rate, range.max_sample_rate))
}

/// The configuration can be chosen: no range is known, some range offers
/// mono at the wanted rate, or every candidate distance to the wanted rate
/// fits a signed 32-bit number.
pub open spec fn config_choosable(
    default_channels: u16,
    ranges: Seq<SupportedInputRange>,
    rate: u32,
) -> bool {
    ranges.len() == 0 || offers_mono(ranges, rate) || forall|i: int|
        0 <= i < ranges.len() ==> range_distances_fit(#[trigger] ranges[i], default_channels, rate)
}

/// Whether [`choose_input_config`] can choose for these inputs (see
/// [`config_choosable`]).
pub fn can_choose_input_config(
    default_channels: u16,
    ranges: &Vec<SupportedInputRange>,
    desired_rate: u32,
) -> (ok: bool)
    ensures
        ok == config_choosable(default_channels, ranges@, desired_rate),
{
    let n = ranges.len();
    if n == 0 {
        return true;
    }
    let mut i: usize = 0;
    let mut all_fit = true;
    while i < n
        invariant
            n == ranges@.len(),
            i <= n,
            forall|j: int| 0 <= j < i ==> !mono_at(#[trigger] ranges@[j], desired_rate),
            all_fit == forall|j: int|
                0 <= j < i ==> range_distances_fit(#[trigger] ranges@[j], default_channels, desired_rate),
        decreases n - i,
    {
        let r = ranges[i];
        let covered = r.min_sample_rate <= desired_rate && desired_rate <= r.max_sample_rate;
        if r.channels == 1 && covered {
            assert(mono_at(ranges@[i as int], desired_rate));
            return true;
        }
        if r.channels == default_channels && !covered {
            let w: i64 = signed_rate_of(desired_rate);
            let lo: i64 = w - signed_rate_of(r.min_sample_rate);
            let hi: i64 = w - signed_rate_of(r.max_sample_rate);
            if lo < -0x8000_0000 || lo > 0x7fff_ffff || hi < -0x8000_0000 || hi > 0x7fff_ffff {
                all_fit = false;
            }
        }
        proof {
            assert forall|j: int| 0 <= j < i + 1 implies !mono_at(#[trigger] ranges@[j], desired_rate) by {
                if j == i {
                    assert(ranges@[j] == r);
                }
            }
        }
        i = i + 1;
    }
    all_fit
}

/// Chooses the stream configuration to open (see [`chosen_config`]).
/// Candidate distances are taken between signed 32-bit readings of the
/// rates, and must fit that width (see [`config_choosable`]).
pub fn choose_input_config(
    default_channels: u16,
    default_rate: u32,
    ranges: &Vec<SupportedInputRange>,
    desired_rate: u32,
) -> (choice: StreamChoice)
    requires
        config_choosable(default_channels, ranges@, desired_rate),
    ensures
        choice == chosen_config(default_channels, default_rate, ranges@, desired_rate),
{
    let n = ranges.len();
    if n == 0 {
        return StreamChoice { channels: default_channels, sample_rate: default_rate };
    }
    let mut i: usize = 0;
    while i < n
        invariant
            n == ranges@.len(),
            i <= n,
            forall|j: int| 0 <= j < i ==> !mono_at(#[trigger] ranges@[j], desired_rate),
        decreases n - i,
    {
        let r = ranges[i];
        if r.channels == 1 && r.min_sample_rate <= desired_rate && desired_rate <= r.max_sample_rate {
            assert(mono_at(ranges@[i as int], desired_rate));
            return StreamChoice { channels: 1, sample_rate: desired_rate };
        }
        i = i + 1;
    }
    let mut best: Option<u32> = None;
    let mut k: usize = 0;
    while k < n
        invariant
            n == ranges@.len(),
            k <= n,
            best == closest_rate(candidate_rates(ranges@.take(k as int), default_channels, desired_rate), desired_rate),
        decreases n - k,
    {
        let r = ranges[k];
        let ghost before = candidate_rates(ranges@.take(k as int), default_channels, desired_rate);
        proof {
            assert(ranges@.take(k as int + 1).drop_last() =~= ranges@.take(k as int));
            assert(ranges@.take(k as int + 1).last() == r);
            assert(candidate_rates(ranges@.take(k as int + 1), default_channels, desired_rate)
                == before + range_candidates(r, default_channels, desired_rate));
        }
        if r.channels == default_channels {
            if r.min_sample_rate <= desired_rate && desired_rate <= r.max_sample_rate {
                best = nearer(best, desired_rate, desired_rate);
                proof {
                    let after = before + seq![desired_rate];
                    assert(after.drop_last() =~= before);
                    assert(after.last() == desired_rate);
                    assert(closest_rate(after, desired_rate) == nearer_rate(
                        closest_rate(before, desired_rate), desired_rate, desired_rate));
                }
            } else {
                let ghost mid = before.push(r.min_sample_rate);
                best = nearer(best, r.min_sample_rate, desired_rate);
                best = nearer(best, r.max_sample_rate, desired_rate);
                proof {
                    let after = before + seq![r.min_sample_rate, r.max_sample_rate];
                    assert(mid.drop_last() =~= before);
                    assert(mid.last() == r.min_sample_rate);
                    assert(after.drop_last() =~= mid);
                    assert(after.last() == r.max_sample_rate);
                    assert(closest_rate(mid, desired_rate) == nearer_rate(
                        closest_rate(before, desired_rate), r.min_sample_rate, desired_rate));
                    assert(closest_rate(after, desired_rate) == nearer_rate(
                        closest_rate(mid, desired_rate), r.max_sample_rate, desired_rate));
                }
            }
        } else {
            proof {
                assert(before + seq![] =~= before);
            }
        }
        k = k + 1;
    }
    proof {
        assert(ranges@.take(n as int) =~= ranges@);
    }
    let rate = match best {
        Some(r) => r,
        None => default_rate,
    };
    StreamChoice { channels: default_channels, sample_rate: rate }
}

/// The chosen candidate is the first of the nearest: no candidate is
/// nearer to the wanted rate, and every earlier one is farther.
pub proof fn lemma_closest_rate_is_first_nearest(candidates: Seq<u32>, rate: u32)
    ensures
        candidates.len() == 0 ==> closest_rate(candidates, rate) is None,
        candidates.len() > 0 ==> exists|k: int|
            0 <= k < candidates.len() && closest_rate(candidates, rate) == Some(candidates[k])
                && (forall|j: int|
                0 <= j < candidates.len() ==> rate_distance(rate, #[trigger] candidates[j])
                    >= rate_distance(rate, candidates[k])) && (forall|j: int|
                0 <= j < k ==> rate_distance(rate, #[trigger] candidates[j]) > rate_distance(
                    rate,
                    candidates[k],
                )),
    decreases candidates.len(),
{
    if candidates.len() > 0 {
        let init = candidates.drop_last();
        let x = candidates.last();
        let n = candidates.len() - 1;
        lemma_closest_rate_is_first_nearest(init, rate);
        if init.len() == 0 {
            assert(closest_rate(candidates, rate) == Some(candidates[0]));
        } else {
            let k0 = choose|k: int|
                0 <= k < init.len() && closest_rate(init, rate) == Some(init[k]) && (forall|j: int|
                    0 <= j < init.len() ==> rate_distance(rate, #[trigger] init[j])
                        >= rate_distance(rate, init[k])) && (forall|j: int|
                    0 <= j < k ==> rate_distance(rate, #[trigger] init[j]) > rate_distance(rate, init[k]));
            if rate_distance(rate, x) < rate_distance(rate, init[k0]) {
                assert forall|j: int| 0 <= j < n implies rate_distance(rate, #[trigger] candidates[j])
                    > rate_distance(rate, candidates[n]) by {
                    assert(candidates[j] == init[j]);
                }
                assert(closest_rate(candidates, rate) == Some(candidates[n]));
            } else {
                assert forall|j: int| 0 <= j < candidates.len() implies rate_distance(
                    rate,
                    #[trigger] candidates[j],
                ) >= rate_distance(rate, candidates[k0]) by {
                    if j < n {
                        assert(candidates[j] == init[j]);
                    }
                }
                assert forall|j: int| 0 <= j < k0 implies rate_distance(rate, #[trigger] candidates[j])
                    > rate_distance(rate, candidates[k0]) by {
                    assert(candidates[j] == init[j]);
                }
                assert(candidates[k0] == init[k0]);
            }
        }
    }
}

} // verus!
