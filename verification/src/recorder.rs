//! State of the microphone recorder: whether it records, the samples
//! gathered so far (first channel of every frame) and the sample rate.
//!
//! The recorder is generic over the sample type; the application keeps
//! normalised floating-point samples in it.

use vstd::prelude::*;
use crate::devices::{recording_format, WavFormat};

verus! {

/// Sample rate asked of the input device, and used until a device is opened.
pub const TARGET_SAMPLE_RATE: u32 = 16000;

/// Abstract state of a recorder.
pub struct RecorderView<S> {
    pub recording: bool,
    pub samples: Seq<S>,
    pub sample_rate: u32,
}

pub struct AudioRecorder<S> {
    is_recording: bool,
    buffer: Vec<S>,
    sample_rate: u32,
}

impl<S> View for AudioRecorder<S> {
    type V = RecorderView<S>;

    closed spec fn view(&self) -> RecorderView<S> {
        RecorderView { recording: self.is_recording, samples: self.buffer@, sample_rate: self.sample_rate }
    }
}

/// The first channel of every frame of `channels` interleaved samples
/// (the last frame may be incomplete).
pub open spec fn first_channel<S>(data: Seq<S>, channels: nat) -> Seq<S>
    recommends
        channels > 0,
{
    Seq::new(
        if data.len() == 0 { 0 } else { ((data.len() - 1) as nat / channels + 1) as nat },
        |i: int| data[i * channels],
    )
}

/// State after recording starts at `sample_rate` Hz.
pub open spec fn begun<S>(v: RecorderView<S>, sample_rate: u32) -> RecorderView<S> {
    RecorderView { recording: true, samples: Seq::empty(), sample_rate }
}

/// State after a block of input arrives: kept only while recording.
pub open spec fn recorded<S>(v: RecorderView<S>, data: Seq<S>, channels: nat) -> RecorderView<S> {
    if v.recording {
        RecorderView { samples: v.samples + first_channel(data, channels), ..v }
    } else {
        v
    }
}

/// State after a failed start: not recording, nothing kept.
pub open spec fn abandoned<S>(v: RecorderView<S>) -> RecorderView<S> {
    RecorderView { recording: false, samples: Seq::empty(), ..v }
}

/// Where a start of recording failed.
#[derive(PartialEq, Eq, Structural, Clone, Copy)]
pub enum StartStage {
    /// No device or no stream configuration: nothing was changed yet.
    Device,
    /// The input stream could not be built (recording stays marked as started).
    Stream,
    /// The stream was built but would not play.
    Play,
    /// The stream played but no samples arrived in time.
    Ready,
}

/// State after a start fails at `stage`: failures before recording began
/// change nothing, a stream that cannot be built leaves recording on, and a
/// stream that does not play or deliver is undone.
pub open spec fn after_failed_start<S>(v: RecorderView<S>, stage: StartStage) -> RecorderView<S> {
    match stage {
        StartStage::Device => v,
        StartStage::Stream => v,
        StartStage::Play => abandoned(v),
        StartStage::Ready => abandoned(v),
    }
}

/// Why stopping gave no recording.
pub enum StopError {
    /// The recorder was not recording.
    NotRecording,
    /// Recording ran but no sample arrived.
    Empty,
}

impl StopError {
    /// The text shown to the user.
    pub fn message(&self) -> (m: String)
        ensures
            m@ == (match self {
                StopError::NotRecording => "録音中ではありません"@,
                StopError::Empty => "録音データが空です"@,
            }),
    {
        match self {
            StopError::NotRecording => String::from_str("録音中ではありません"),
            StopError::Empty => String::from_str("録音データが空です"),
        }
    }
}

/// Outcome of stopping: the samples and their rate, or why there are none.
pub open spec fn stop_outcome<S>(v: RecorderView<S>) -> Result<(Seq<S>, u32), StopError> {
    if !v.recording {
        Err(StopError::NotRecording)
    } else if v.samples.len() == 0 {
        Err(StopError::Empty)
    } else {
        Ok((v.samples, v.sample_rate))
    }
}

/// State after stopping: not recording and empty, unless it was not recording.
pub open spec fn stopped<S>(v: RecorderView<S>) -> RecorderView<S> {
    if v.recording {
        RecorderView { recording: false, samples: Seq::empty(), ..v }
    } else {
        v
    }
}

impl<S: Copy> AudioRecorder<S> {
    /// An idle recorder with no samples, at the target sample rate.
    pub fn new() -> (r: Self)
        ensures
            r@ == (RecorderView::<S> { recording: false, samples: Seq::empty(), sample_rate: TARGET_SAMPLE_RATE }),
    {
        AudioRecorder { is_recording: false, buffer: Vec::new(), sample_rate: TARGET_SAMPLE_RATE }
    }

    pub fn is_recording(&self) -> (b: bool)
        ensures
            b == self@.recording,
    {
        self.is_recording
    }

    pub fn sample_rate(&self) -> (r: u32)
        ensures
            r == self@.sample_rate,
    {
        self.sample_rate
    }

    /// Starts a recording at `sample_rate` Hz, dropping any earlier samples.
    pub fn begin(&mut self, sample_rate: u32)
        ensures
            final(self)@ == begun(old(self)@, sample_rate),
    {
        self.buffer.clear();
        self.sample_rate = sample_rate;
        self.is_recording = true;
    }

    /// Whether a start request has anything to do: starting while already
    /// recording changes nothing.
    pub fn needs_start(&self) -> (b: bool)
        ensures
            b == !self@.recording,
    {
        !self.is_recording
    }

    /// Applies a failed start to the recorder.  Returns whether the input
    /// stream already made active is to be dropped.
    pub fn start_failed(&mut self, stage: StartStage) -> (drop_stream: bool)
        ensures
            final(self)@ == after_failed_start(old(self)@, stage),
            drop_stream == (stage == StartStage::Ready),
    {
        match stage {
            StartStage::Device => false,
            StartStage::Stream => false,
            StartStage::Play => {
                self.abandon();
                false
            },
            StartStage::Ready => {
                self.abandon();
                true
            },
        }
    }

    /// Undoes a start whose input stream could not run.
    pub fn abandon(&mut self)
        ensures
            final(self)@ == abandoned(old(self)@),
    {
        self.is_recording = false;
        self.buffer.clear();
    }

    /// Takes a block of `channels`-channel interleaved input; while
    /// recording, keeps the first channel of each frame.  Returns whether
    /// this block brought the first samples of the recording, which is when
    /// a waiting start may go on.
    pub fn record_input(&mut self, data: &[S], channels: usize) -> (first: bool)
        requires
            old(self)@.recording ==> channels > 0,
        ensures
            final(self)@ == recorded(old(self)@, data@, channels as nat),
            first == (old(self)@.recording && old(self)@.samples.len() == 0
                && final(self)@.samples.len() > 0),
    {
        if !self.is_recording {
            return false;
        }
        let had_samples = self.buffer.len() > 0;
        let ghost before = self.buffer@;
        let ghost rate = self.sample_rate;
        let ghost want = first_channel(data@, channels as nat);
        let n: usize = data.len();
        let frames: usize = if n == 0 { 0 } else { (n - 1) / channels + 1 };
        assert(frames == want.len());
        let mut k: usize = 0;
        while k < frames
            invariant
                channels > 0,
                n == data@.len(),
                frames == want.len(),
                want == first_channel(data@, channels as nat),
                k <= frames,
                self.buffer@ == before + want.take(k as int),
                self.is_recording,
                self.sample_rate == rate,
            decreases frames - k,
        {
            proof {
                lemma_frame_index(k as int, n as int, channels as int);
            }
            let s = data[k * channels];
            proof {
                assert(want[k as int] == data@[k * channels]);
                assert(want.take(k + 1) =~= want.take(k as int).push(want[k as int]));
            }
            self.buffer.push(s);
            k = k + 1;
        }
        assert(want.take(k as int) =~= want);
        !had_samples && self.buffer.len() > 0
    }

    /// Ends a recording and hands over its samples and sample rate.
    pub fn stop(&mut self) -> (r: Result<(Vec<S>, u32), StopError>)
        ensures
            final(self)@ == stopped(old(self)@),
            match (r, stop_outcome(old(self)@)) {
                (Ok((v, rate)), Ok((s, want_rate))) => v@ == s && rate == want_rate,
                (Err(e), Err(want)) => e == want,
                _ => false,
            },
    {
        if !self.is_recording {
            return Err(StopError::NotRecording);
        }
        self.is_recording = false;
        let mut taken: Vec<S> = Vec::new();
        std::mem::swap(&mut taken, &mut self.buffer);
        if taken.len() == 0 {
            Err(StopError::Empty)
        } else {
            Ok((taken, self.sample_rate))
        }
    }
}

/// Frame `k` starts inside the data exactly when `k` is below the frame count.
proof fn lemma_frame_index(k: int, n: int, channels: int)
    requires
        channels > 0,
        0 <= k,
        n >= 0,
    ensures
        (k < (if n == 0 { 0 } else { (n - 1) / channels + 1 })) <==> k * channels < n,
{
    if n > 0 {
        let q: int = (n - 1) / channels;
        assert(q * channels <= n - 1 && n - 1 < (q + 1) * channels) by (nonlinear_arith)
            requires
                channels > 0,
                n >= 1,
                q == (n - 1) / channels,
        ;
        if k <= q {
            assert(k * channels <= q * channels) by (nonlinear_arith)
                requires
                    0 <= k <= q,
                    channels > 0,
            ;
        } else {
            assert(k * channels >= (q + 1) * channels) by (nonlinear_arith)
                requires
                    k >= q + 1,
                    channels > 0,
            ;
        }
    } else {
        assert(k * channels >= 0) by (nonlinear_arith)
            requires
                k >= 0,
                channels > 0,
        ;
    }
}


/// State after each block of `blocks` arrives, in order.
pub open spec fn recorded_all<S>(v: RecorderView<S>, blocks: Seq<Seq<S>>, channels: nat) -> RecorderView<S>
    decreases blocks.len(),
{
    if blocks.len() == 0 {
        v
    } else {
        recorded(recorded_all(v, blocks.drop_last(), channels), blocks.last(), channels)
    }
}

/// The first channel of each block, one block after the other.
pub open spec fn first_channels<S>(blocks: Seq<Seq<S>>, channels: nat) -> Seq<S>
    decreases blocks.len(),
{
    if blocks.len() == 0 {
        Seq::empty()
    } else {
        first_channels(blocks.drop_last(), channels) + first_channel(blocks.last(), channels)
    }
}

/// A recording keeps what arrives between its start and its stop: after a
/// start at `sample_rate` and any blocks of input, stopping hands back the
/// first channel of every block, in order, at that rate (or reports an
/// empty recording when no sample arrived), and leaves the recorder idle
/// and empty.
pub proof fn lemma_stop_returns_recorded<S>(v: RecorderView<S>, sample_rate: u32, blocks: Seq<Seq<S>>, channels: nat)
    ensures
        recorded_all(begun(v, sample_rate), blocks, channels)
            == (RecorderView { recording: true, samples: first_channels(blocks, channels), sample_rate }),
        stop_outcome(recorded_all(begun(v, sample_rate), blocks, channels)) == (if first_channels(blocks, channels).len() == 0 {
            Err::<(Seq<S>, u32), StopError>(StopError::Empty)
        } else {
            Ok((first_channels(blocks, channels), sample_rate))
        }),
        stopped(recorded_all(begun(v, sample_rate), blocks, channels))
            == (RecorderView::<S> { recording: false, samples: Seq::empty(), sample_rate }),
    decreases blocks.len(),
{
    if blocks.len() > 0 {
        lemma_stop_returns_recorded(v, sample_rate, blocks.drop_last(), channels);
    }
}


/// A start that fails once the device stream plays (no play, or no samples
/// in time) leaves the recorder idle and empty, whatever it held; a
/// start that fails before recording began leaves it as it was.
pub proof fn lemma_failed_start_cleans_up<S>(v: RecorderView<S>, sample_rate: u32)
    ensures
        after_failed_start(begun(v, sample_rate), StartStage::Play).recording == false,
        after_failed_start(begun(v, sample_rate), StartStage::Play).samples.len() == 0,
        after_failed_start(begun(v, sample_rate), StartStage::Ready).recording == false,
        after_failed_start(begun(v, sample_rate), StartStage::Ready).samples.len() == 0,
        after_failed_start(v, StartStage::Device) == v,
{
}

/// Number of samples at the target rate for `n` samples at `rate` Hz.
pub open spec fn resampled_len(n: nat, rate: nat) -> nat
    recommends
        rate > 0,
{
    (n * TARGET_SAMPLE_RATE as nat / rate) as nat
}

/// `samples`, recorded at `rate` Hz, brought to the target rate by taking
/// for each output sample the input sample at or just before its time
/// (48 kHz keeps every third sample).  A rate of 0 gives no time base and
/// leaves the samples as they are.
pub open spec fn resampled<S>(samples: Seq<S>, rate: nat) -> Seq<S> {
    if rate == 0 {
        samples
    } else {
        Seq::new(resampled_len(samples.len(), rate), |k: int| samples[k * rate / TARGET_SAMPLE_RATE as int])
    }
}

proof fn lemma_resample_index(k: int, n: int, rate: int)
    requires
        rate > 0,
        0 <= k < n * 16000 / rate,
        n >= 0,
    ensures
        0 <= k * rate / 16000 < n,
        k * rate <= n * 16000,
{
    assert((k + 1) * rate <= n * 16000) by (nonlinear_arith)
        requires
            rate > 0,
            0 <= k,
            k < n * 16000 / rate,
            n >= 0,
    ;
    assert(0 <= k * rate / 16000 < n) by (nonlinear_arith)
        requires
            rate > 0,
            0 <= k,
            (k + 1) * rate <= n * 16000,
    ;
    assert(k * rate <= n * 16000) by (nonlinear_arith)
        requires
            rate > 0,
            0 <= k,
            (k + 1) * rate <= n * 16000,
    ;
}

/// `samples`, recorded at `rate` Hz, at the target rate.
pub fn to_target_rate<S: Copy>(samples: &Vec<S>, rate: u32) -> (r: Vec<S>)
    requires
        rate > 0 ==> resampled_len(samples@.len(), rate as nat) <= usize::MAX,
    ensures
        r@ == resampled(samples@, rate as nat),
{
    let n: usize = samples.len();
    let mut out: Vec<S> = Vec::new();
    if rate == 0 {
        let mut i: usize = 0;
        while i < n
            invariant
                n == samples@.len(),
                i <= n,
                out@ == samples@.take(i as int),
            decreases n - i,
        {
            out.push(samples[i]);
            assert(samples@.take(i + 1) =~= samples@.take(i as int).push(samples@[i as int]));
            i = i + 1;
        }
        assert(samples@.take(n as int) =~= samples@);
        return out;
    }
    let total: u128 = (n as u128) * (TARGET_SAMPLE_RATE as u128) / (rate as u128);
    let out_len: usize = total as usize;
    let ghost want = resampled(samples@, rate as nat);
    assert(out_len == want.len());
    let mut k: usize = 0;
    while k < out_len
        invariant
            n == samples@.len(),
            rate > 0,
            out_len == want.len(),
            want == resampled(samples@, rate as nat),
            k <= out_len,
            out@ == want.take(k as int),
        decreases out_len - k,
    {
        proof {
            lemma_resample_index(k as int, n as int, rate as int);
        }
        let idx: usize = ((k as u128) * (rate as u128) / (TARGET_SAMPLE_RATE as u128)) as usize;
        out.push(samples[idx]);
        assert(want.take(k + 1) =~= want.take(k as int).push(want[k as int]));
        k = k + 1;
    }
    assert(want.take(out_len as int) =~= want);
    out
}

/// What a stopped recording is written as: its samples brought to the
/// target rate, in a mono 16-bit integer WAV at that rate, whatever rate
/// the device ran at.
pub fn recording_output<S: Copy>(samples: &Vec<S>, rate: u32) -> (r: (Vec<S>, WavFormat))
    requires
        rate > 0 ==> resampled_len(samples@.len(), rate as nat) <= usize::MAX,
    ensures
        r.0@ == resampled(samples@, rate as nat),
        r.1 == (WavFormat { channels: 1, sample_rate: TARGET_SAMPLE_RATE, bits_per_sample: 16, integer_samples: true }),
{
    (to_target_rate(samples, rate), recording_format(TARGET_SAMPLE_RATE))
}

/// A recording made at the target rate is written sample for sample, in the
/// order recorded.
pub proof fn lemma_target_rate_unchanged<S>(samples: Seq<S>)
    ensures
        resampled(samples, TARGET_SAMPLE_RATE as nat) == samples,
{
    let r = resampled(samples, TARGET_SAMPLE_RATE as nat);
    assert(samples.len() * 16000 / 16000 == samples.len()) by (nonlinear_arith);
    assert forall|k: int| 0 <= k < r.len() implies r[k] == samples[k] by {
        assert(k * 16000 / 16000 == k) by (nonlinear_arith);
    }
    assert(r =~= samples);
}

} // verus!
