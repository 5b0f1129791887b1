use voice_input::files::{
    check_recording_access, ends_with, is_recording_file_name, recording_file_name,
    select_old_recordings, starts_with, AccessError,
};

#[test]
fn recording_names() {
    assert!(is_recording_file_name("voice_input_abc.wav"));
    assert!(is_recording_file_name("voice_input_.wav"));
    assert!(!is_recording_file_name("voice_input_abc.wav.bak"));
    assert!(!is_recording_file_name("other_abc.wav"));
    assert!(!is_recording_file_name(".wav"));
    assert!(!is_recording_file_name(""));
    assert!(is_recording_file_name("voice_input_音声.wav"));
}

#[test]
fn prefix_suffix_match_std() {
    let words = ["", "a", "ab", "abc", "b", "bc", "c", "日本", "日", "本"];
    for s in words.iter() {
        for p in words.iter() {
            assert_eq!(starts_with(s, p), s.starts_with(p));
            assert_eq!(ends_with(s, p), s.ends_with(p));
        }
    }
}

#[test]
fn recording_file_is_the_fixed_temp_name() {
    let a = recording_file_name();
    assert_eq!(a, "voice_input_temp.wav");
    assert!(is_recording_file_name(&a));
    assert_eq!(recording_file_name(), a);
    assert!(check_recording_access(true, Some(&a)).is_ok());
}

#[test]
fn access_checks() {
    assert!(check_recording_access(true, Some("voice_input_1.wav")).is_ok());
    assert!(check_recording_access(false, Some("voice_input_1.wav")) == Err(AccessError::NotAllowed));
    assert!(check_recording_access(true, Some("secret.txt")) == Err(AccessError::NotAllowed));
    assert!(check_recording_access(true, None) == Err(AccessError::InvalidName));
    assert!(check_recording_access(false, None) == Err(AccessError::InvalidName));
}

#[test]
fn access_messages() {
    assert_eq!(AccessError::InvalidName.trim_message(), "Invalid audio file name");
    assert_eq!(
        AccessError::NotAllowed.trim_message(),
        "Audio file is outside the allowed recordings directory"
    );
    assert_eq!(AccessError::InvalidName.read_message(), "録音ファイル名が不正です");
    assert_eq!(AccessError::NotAllowed.read_message(), "許可されていない録音ファイルです");
}

#[test]
fn cleanup_keeps_three_newest() {
    let times = vec![50i128, 10, 40, 20, 30];
    let current = vec![false; 5];
    assert_eq!(select_old_recordings(&times, &current), vec![1, 3]);
}

#[test]
fn cleanup_spares_current_and_small_sets() {
    let times = vec![50i128, 10, 40, 20, 30];
    let current = vec![false, true, false, false, false];
    assert_eq!(select_old_recordings(&times, &current), vec![3]);
    assert!(select_old_recordings(&vec![1, 2, 3], &vec![false; 3]).is_empty());
    assert!(select_old_recordings(&vec![], &vec![]).is_empty());
}

#[test]
fn cleanup_orders_times_before_1970() {
    // modification times before the epoch are negative and count as older
    let times = vec![-5i128, 10, 20, 30, -100];
    assert_eq!(select_old_recordings(&times, &vec![false; 5]), vec![0, 4]);
}

#[test]
fn cleanup_ties_follow_listing_order() {
    // like a stable sort by time: among equal times the earlier entry is older
    let times = vec![5i128, 5, 5, 5, 5];
    assert_eq!(select_old_recordings(&times, &vec![false; 5]), vec![0, 1]);
}
