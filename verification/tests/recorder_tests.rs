use voice_input::devices::WavFormat;
use voice_input::recorder::{
    recording_output, to_target_rate, AudioRecorder, StartStage, StopError, TARGET_SAMPLE_RATE,
};

#[test]
fn new_recorder_is_idle() {
    let r: AudioRecorder<f32> = AudioRecorder::new();
    assert!(!r.is_recording());
    assert_eq!(r.sample_rate(), TARGET_SAMPLE_RATE);
    assert_eq!(TARGET_SAMPLE_RATE, 16000);
}

#[test]
fn input_is_ignored_while_idle() {
    let mut r: AudioRecorder<f32> = AudioRecorder::new();
    assert!(!r.record_input(&[0.5, 0.25], 1));
    assert!(matches!(r.stop(), Err(StopError::NotRecording)));
}

#[test]
fn stop_returns_first_channel_in_order() {
    let mut r: AudioRecorder<i32> = AudioRecorder::new();
    r.begin(48000);
    assert!(r.is_recording());
    assert!(r.record_input(&[1, 100, 2, 200, 3], 2));
    assert!(!r.record_input(&[4, 400], 2));
    let (samples, rate) = r.stop().ok().unwrap();
    assert_eq!(samples, vec![1, 2, 3, 4]);
    assert_eq!(rate, 48000);
    assert!(!r.is_recording());
    assert!(matches!(r.stop(), Err(StopError::NotRecording)));
}

#[test]
fn empty_recording_is_an_error() {
    let mut r: AudioRecorder<f32> = AudioRecorder::new();
    r.begin(16000);
    assert!(!r.record_input(&[], 1));
    assert!(matches!(r.stop(), Err(StopError::Empty)));
    assert!(!r.is_recording());
}

#[test]
fn begin_drops_earlier_samples() {
    let mut r: AudioRecorder<f32> = AudioRecorder::new();
    r.begin(16000);
    r.record_input(&[0.1, 0.2], 1);
    r.begin(22050);
    assert!(r.record_input(&[0.3], 1));
    let (s, rate) = r.stop().ok().unwrap();
    assert_eq!(s, vec![0.3]);
    assert_eq!(rate, 22050);
}

#[test]
fn abandon_clears() {
    let mut r: AudioRecorder<f32> = AudioRecorder::new();
    r.begin(16000);
    r.record_input(&[0.1], 1);
    r.abandon();
    assert!(!r.is_recording());
    assert!(!r.record_input(&[0.1], 1));
    assert!(matches!(r.stop(), Err(StopError::NotRecording)));
}

#[test]
fn stop_messages() {
    assert_eq!(StopError::NotRecording.message(), "録音中ではありません");
    assert_eq!(StopError::Empty.message(), "録音データが空です");
}

#[test]
fn idle_recorder_ignores_channel_count() {
    let mut r: AudioRecorder<f32> = AudioRecorder::new();
    assert!(!r.record_input(&[0.5], 0));
    assert!(matches!(r.stop(), Err(StopError::NotRecording)));
}

#[test]
fn start_only_when_idle() {
    let mut r: AudioRecorder<f32> = AudioRecorder::new();
    assert!(r.needs_start());
    r.begin(16000);
    assert!(!r.needs_start());
}

#[test]
fn failed_starts() {
    let mut r: AudioRecorder<f32> = AudioRecorder::new();
    r.begin(16000);
    assert!(!r.start_failed(StartStage::Stream));
    assert!(r.is_recording());
    assert!(!r.start_failed(StartStage::Device));
    assert!(r.is_recording());
    r.record_input(&[0.1], 1);
    assert!(!r.start_failed(StartStage::Play));
    assert!(!r.is_recording());
    r.begin(16000);
    r.record_input(&[0.1], 1);
    assert!(r.start_failed(StartStage::Ready));
    assert!(!r.is_recording());
    r.begin(16000);
    assert!(matches!(r.stop(), Err(StopError::Empty)));
}

#[test]
fn resampling_to_16khz() {
    let s: Vec<i32> = (0..12).collect();
    assert_eq!(to_target_rate(&s, 48000), vec![0, 3, 6, 9]);
    assert_eq!(to_target_rate(&s, 16000), s);
    assert_eq!(to_target_rate(&s, 32000), vec![0, 2, 4, 6, 8, 10]);
    assert_eq!(to_target_rate(&vec![1, 2, 3], 8000), vec![1, 1, 2, 2, 3, 3]);
    assert_eq!(to_target_rate(&s, 44100).len(), 12 * 16000 / 44100);
    assert_eq!(to_target_rate(&vec![7, 8], 0), vec![7, 8]);
    let v: Vec<i32> = vec![];
    assert!(to_target_rate(&v, 48000).is_empty());
}

#[test]
fn output_is_16khz_mono_pcm() {
    let (s, f) = recording_output(&vec![1.0f32, 2.0, 3.0, 4.0, 5.0, 6.0], 48000);
    assert_eq!(s, vec![1.0, 4.0]);
    assert!(f == WavFormat { channels: 1, sample_rate: 16000, bits_per_sample: 16, integer_samples: true });
    let (s, f) = recording_output(&vec![0.5f32, -0.5], 16000);
    assert_eq!(s, vec![0.5, -0.5]);
    assert_eq!(f.sample_rate, 16000);
}
