use voice_input::trim::{
    frame_count, gather_samples, merge, noise_floor_index, pad, speech_ranges, trim_params, trimmed_samples,
    TrimParams,
};

#[test]
fn params_at_16khz() {
    let p = trim_params(16000);
    assert_eq!(p.frame_size, 320);
    assert_eq!(p.min_silence_samples, 5600);
    assert_eq!(p.padding_samples, 1920);
}

#[test]
fn params_at_48khz_and_tiny_rates() {
    let p = trim_params(48000);
    assert_eq!((p.frame_size, p.min_silence_samples, p.padding_samples), (960, 16800, 5760));
    let q = trim_params(10);
    assert_eq!((q.frame_size, q.min_silence_samples, q.padding_samples), (1, 3, 1));
    let z = trim_params(0);
    assert_eq!((z.frame_size, z.min_silence_samples, z.padding_samples), (1, 0, 0));
    let big = trim_params(u32::MAX);
    assert_eq!(big.frame_size, 85_899_345);
}

#[test]
fn frame_counts_match_chunks() {
    for len in 0..50usize {
        for fs in 1..7usize {
            let v = vec![0i16; len];
            assert_eq!(frame_count(len, fs), v.chunks(fs).count());
        }
    }
}

#[test]
fn runs_become_ranges() {
    // frames of 10 samples, 95 samples in all (10 frames, the last one short)
    let voiced = vec![false, true, true, false, false, true, false, false, true, true];
    let r = speech_ranges(&voiced, 10, 95);
    assert_eq!(r, vec![(10, 30), (50, 60), (80, 95)]);
}

#[test]
fn no_voice_no_ranges() {
    let r = speech_ranges(&vec![false; 4], 10, 40);
    assert!(r.is_empty());
    let r = speech_ranges(&vec![], 10, 0);
    assert!(r.is_empty());
}

#[test]
fn padding_stays_inside_recording() {
    let r = pad(&vec![(10, 30), (50, 60), (80, 95)], 15, 95);
    assert_eq!(r, vec![(0, 45), (35, 75), (65, 95)]);
}

#[test]
fn merging_joins_short_gaps_only() {
    let r = merge(&vec![(0, 10), (15, 20), (40, 50), (45, 48)], 10, 60);
    assert_eq!(r, vec![(0, 20), (40, 50)]);
    // gaps of exactly the minimum are kept apart
    let r = merge(&vec![(0, 10), (20, 30)], 10, 60);
    assert_eq!(r, vec![(0, 10), (20, 30)]);
    // consecutive kept ranges are at least the minimum apart
    let r = merge(&vec![(0, 5), (7, 9), (30, 31), (33, 40), (60, 70)], 10, 80);
    for w in r.windows(2) {
        assert!(w[0].1 + 10 <= w[1].0);
    }
}

#[test]
fn gathering_concatenates() {
    let s: Vec<i16> = (0..10).collect();
    assert_eq!(gather_samples(&s, &vec![(1, 3), (6, 9)]), vec![1, 2, 6, 7, 8]);
}

#[test]
fn trimming_removes_long_silence() {
    let params = TrimParams { frame_size: 10, min_silence_samples: 20, padding_samples: 5 };
    let samples: Vec<i16> = (0..100).collect();
    let voiced = vec![false, true, false, false, false, false, false, true, false, false];
    let r = trimmed_samples(&samples, &voiced, &params).unwrap();
    let mut want: Vec<i16> = (5..25).collect();
    want.extend(65..85);
    assert_eq!(r, want);
    // every voiced frame is kept
    for i in 10..20 {
        assert!(r.contains(&(i as i16)));
    }
    for i in 70..80 {
        assert!(r.contains(&(i as i16)));
    }
}

#[test]
fn trimming_keeps_recording_without_voice() {
    let params = TrimParams { frame_size: 10, min_silence_samples: 20, padding_samples: 5 };
    let samples: Vec<i16> = (0..30).collect();
    assert!(trimmed_samples(&samples, &vec![false, false, false], &params).is_none());
    assert!(trimmed_samples(&vec![], &vec![], &params).is_none());
}

#[test]
fn trimming_keeps_recording_that_would_not_shrink() {
    let params = TrimParams { frame_size: 10, min_silence_samples: 20, padding_samples: 5 };
    let samples: Vec<i16> = (0..30).collect();
    assert!(trimmed_samples(&samples, &vec![true, false, true], &params).is_none());
    assert!(trimmed_samples(&samples, &vec![true, true, true], &params).is_none());
}

#[test]
fn trimming_at_real_rate() {
    let params = trim_params(16000);
    let len = 16000 * 2;
    let samples: Vec<i16> = (0..len).map(|i| (i % 1000) as i16).collect();
    let frames = frame_count(len, params.frame_size);
    assert_eq!(frames, 100);
    // speech in frames 40..50 only
    let voiced: Vec<bool> = (0..frames).map(|i| (40..50).contains(&i)).collect();
    let r = trimmed_samples(&samples, &voiced, &params).unwrap();
    assert_eq!(r.len(), 3200 + 2 * 1920);
    assert_eq!(r[0], samples[40 * 320 - 1920]);
}

#[test]
fn noise_floor_position() {
    assert_eq!(noise_floor_index(1), 0);
    assert_eq!(noise_floor_index(5), 1);
    assert_eq!(noise_floor_index(100), 20);
}

#[test]
fn kept_parts_are_ordered_at_tiny_rates() {
    // at 2 Hz there is no padding and no minimum silence: runs stay apart
    let params = trim_params(2);
    assert_eq!((params.frame_size, params.min_silence_samples, params.padding_samples), (1, 0, 0));
    let samples: Vec<i16> = (0..6).collect();
    let voiced = vec![true, false, true, true, false, false];
    let r = trimmed_samples(&samples, &voiced, &params).unwrap();
    assert_eq!(r, vec![0, 2, 3]);
}

#[test]
fn voiced_frame_keeps_its_padding() {
    let params = TrimParams { frame_size: 10, min_silence_samples: 100, padding_samples: 3 };
    let samples: Vec<i16> = (0..60).collect();
    let voiced = vec![false, false, true, false, false, false];
    let r = trimmed_samples(&samples, &voiced, &params).unwrap();
    assert_eq!(r, (17..33).collect::<Vec<i16>>());
}
