//! Input devices: their labels, which one a recording uses, and the
//! stream format it asks for.

use vstd::prelude::*;
use crate::recorder::TARGET_SAMPLE_RATE;
use crate::text::{decimal, decimal_string};

verus! {

/// A microphone as listed to the frontend.
pub struct MicDevice {
    pub index: usize,
    pub name: String,
}

/// Label of device `index`: its name, or `デバイス <index>` where the name
/// could not be read.
pub open spec fn device_label(index: nat, name: Option<Seq<char>>) -> Seq<char> {
    match name {
        Some(n) => n,
        None => "デバイス "@ + decimal(index),
    }
}

/// The input devices in enumeration order, with their labels.
pub fn get_input_devices(names: Vec<Option<String>>) -> (r: Vec<(usize, String)>)
    ensures
        r@.len() == names@.len(),
        forall|i: int| 0 <= i < r@.len() ==> (#[trigger] r@[i]).0 == i && r@[i].1@ == device_label(
            i as nat,
            match names@[i] {
                Some(n) => Some(n@),
                None => None,
            },
        ),
{
    let mut out: Vec<(usize, String)> = Vec::new();
    let n: usize = names.len();
    let mut names = names;
    let ghost orig = names@;
    let mut i: usize = 0;
    while i < n
        invariant
            n == names@.len(),
            names@ == orig,
            i <= n,
            out@.len() == i,
            forall|k: int| 0 <= k < i ==> (#[trigger] out@[k]).0 == k && out@[k].1@ == device_label(
                k as nat,
                match orig[k] {
                    Some(s) => Some(s@),
                    None => None,
                },
            ),
        decreases n - i,
    {
        let label = match &names[i] {
            Some(s) => s.clone(),
            None => {
                let mut l = String::from_str("デバイス ");
                let digits = decimal_string(i);
                l.append(digits.as_str());
                l
            },
        };
        out.push((i, label));
        i = i + 1;
    }
    out
}

pub open spec fn mic_view(d: MicDevice) -> (usize, Seq<char>) {
    (d.index, d.name@)
}

/// The listed devices as the frontend receives them.
pub fn get_microphone_devices(devices: Vec<(usize, String)>) -> (r: Vec<MicDevice>)
    ensures
        r@.len() == devices@.len(),
        forall|i: int| 0 <= i < r@.len() ==> mic_view(#[trigger] r@[i]) == (devices@[i].0, devices@[i].1@),
{
    let mut out: Vec<MicDevice> = Vec::new();
    let n: usize = devices.len();
    let mut i: usize = 0;
    while i < n
        invariant
            n == devices@.len(),
            i <= n,
            out@.len() == i,
            forall|k: int| 0 <= k < i ==> mic_view(#[trigger] out@[k]) == (devices@[k].0, devices@[k].1@),
        decreases n - i,
    {
        let (index, name) = &devices[i];
        out.push(MicDevice { index: *index, name: name.clone() });
        i = i + 1;
    }
    out
}

/// Which device a recording opens.
#[derive(PartialEq, Eq, Structural, Clone, Copy)]
pub enum DeviceChoice {
    /// The device at this position of the enumeration.
    Listed(usize),
    /// The system's default input device.
    SystemDefault,
}

/// The requested device where it exists among the `count` enumerated
/// devices, the system default otherwise.
pub fn select_input_device(count: usize, requested: usize) -> (c: DeviceChoice)
    ensures
        c == (if requested < count { DeviceChoice::Listed(requested) } else { DeviceChoice::SystemDefault }),
{
    if requested < count {
        DeviceChoice::Listed(requested)
    } else {
        DeviceChoice::SystemDefault
    }
}

/// Whether a supported sample-rate range contains the target rate.
pub open spec fn supports_target(range: (u32, u32)) -> bool {
    range.0 <= TARGET_SAMPLE_RATE && TARGET_SAMPLE_RATE <= range.1
}

/// Among the supported configurations of a device, given as
/// `(min_sample_rate, max_sample_rate)`, the first that can run at the
/// target rate; `None` means the device's default configuration is used.
pub fn find_config_16khz(ranges: &Vec<(u32, u32)>) -> (r: Option<usize>)
    ensures
        match r {
            Some(i) => i < ranges@.len() && supports_target(ranges@[i as int]) && forall|j: int|
                0 <= j < i ==> !supports_target(#[trigger] ranges@[j]),
            None => forall|j: int| 0 <= j < ranges@.len() ==> !supports_target(#[trigger] ranges@[j]),
        },
{
    let mut i: usize = 0;
    while i < ranges.len()
        invariant
            i <= ranges@.len(),
            forall|j: int| 0 <= j < i ==> !supports_target(#[trigger] ranges@[j]),
        decreases ranges@.len() - i,
    {
        let (lo, hi) = ranges[i];
        if lo <= TARGET_SAMPLE_RATE && TARGET_SAMPLE_RATE <= hi {
            return Some(i);
        }
        i = i + 1;
    }
    None
}

/// Format of a WAV file, as far as recording and trimming look at it.
#[derive(PartialEq, Eq, Structural, Clone, Copy)]
pub struct WavFormat {
    pub channels: u16,
    pub sample_rate: u32,
    pub bits_per_sample: u16,
    /// Integer samples (as opposed to floating point).
    pub integer_samples: bool,
}

/// Format of a finished recording: mono, 16-bit integer samples.
pub fn recording_format(sample_rate: u32) -> (f: WavFormat)
    ensures
        f == (WavFormat { channels: 1, sample_rate, bits_per_sample: 16, integer_samples: true }),
{
    WavFormat { channels: 1, sample_rate, bits_per_sample: 16, integer_samples: true }
}

/// Mono, 16-bit integer samples: what silence trimming handles.
pub open spec fn trimmable(f: WavFormat) -> bool {
    f.channels == 1 && f.integer_samples && f.bits_per_sample == 16
}

/// Whether silence trimming handles a file of this format.
pub fn is_trimmable_format(f: &WavFormat) -> (b: bool)
    ensures
        b == trimmable(*f),
{
    f.channels == 1 && f.integer_samples && f.bits_per_sample == 16
}

/// Every recording this application writes can be trimmed.
pub proof fn lemma_recordings_trimmable(sample_rate: u32)
    ensures
        trimmable(WavFormat { channels: 1, sample_rate, bits_per_sample: 16, integer_samples: true }),
{
}

} // verus!
