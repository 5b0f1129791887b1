use voice_input::devices::{
    find_config_16khz, get_input_devices, get_microphone_devices, is_trimmable_format, recording_format,
    select_input_device, DeviceChoice, WavFormat,
};

#[test]
fn labels_fall_back_to_number() {
    let r = get_input_devices(vec![Some("Mic".to_string()), None, Some("USB".to_string()), None]);
    assert_eq!(
        r,
        vec![
            (0, "Mic".to_string()),
            (1, "デバイス 1".to_string()),
            (2, "USB".to_string()),
            (3, "デバイス 3".to_string())
        ]
    );
    assert!(get_input_devices(vec![]).is_empty());
}

#[test]
fn microphone_list() {
    let r = get_microphone_devices(vec![(0, "a".to_string()), (5, "b".to_string())]);
    assert_eq!(r.len(), 2);
    assert_eq!((r[0].index, r[0].name.as_str()), (0, "a"));
    assert_eq!((r[1].index, r[1].name.as_str()), (5, "b"));
}

#[test]
fn device_choice() {
    assert!(select_input_device(3, 1) == DeviceChoice::Listed(1));
    assert!(select_input_device(3, 3) == DeviceChoice::SystemDefault);
    assert!(select_input_device(0, 0) == DeviceChoice::SystemDefault);
}

#[test]
fn config_choice() {
    assert_eq!(find_config_16khz(&vec![(44100, 48000), (8000, 16000), (16000, 96000)]), Some(1));
    assert_eq!(find_config_16khz(&vec![(44100, 48000), (16001, 96000)]), None);
    assert_eq!(find_config_16khz(&vec![]), None);
}

#[test]
fn formats() {
    let f = recording_format(16000);
    assert!(f == WavFormat { channels: 1, sample_rate: 16000, bits_per_sample: 16, integer_samples: true });
    assert!(is_trimmable_format(&f));
    assert!(!is_trimmable_format(&WavFormat { channels: 2, ..f }));
    assert!(!is_trimmable_format(&WavFormat { bits_per_sample: 24, ..f }));
    assert!(!is_trimmable_format(&WavFormat { integer_samples: false, ..f }));
}
