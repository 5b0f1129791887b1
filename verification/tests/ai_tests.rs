use voice_input::ai::{
    chat_completions_url, correction_messages, endpoint_url, first_choice_content, is_success_status,
    transcription_fields, transcription_text, transcription_url, upload_file_name, AiError,
};

#[test]
fn urls_drop_trailing_slashes() {
    assert_eq!(transcription_url("http://127.0.0.1:13305/v1"), "http://127.0.0.1:13305/v1/audio/transcriptions");
    assert_eq!(transcription_url("http://host/v1///"), "http://host/v1/audio/transcriptions");
    assert_eq!(chat_completions_url("http://host/v1/"), "http://host/v1/chat/completions");
    assert_eq!(chat_completions_url(""), "/chat/completions");
    assert_eq!(endpoint_url("///", "/x"), "/x");
    for base in ["a", "a/", "a//", "/a/b/", "日本/"] {
        assert_eq!(endpoint_url(base, "/p"), format!("{}{}", base.trim_end_matches('/'), "/p"));
    }
}

fn pairs(v: Vec<voice_input::ai::FormField>) -> Vec<(String, String)> {
    v.into_iter().map(|f| (f.name, f.value)).collect()
}

#[test]
fn form_fields() {
    let f = pairs(transcription_fields("m".to_string(), false, false, "p".to_string()));
    assert_eq!(f, vec![("model".to_string(), "m".to_string())]);
    let f = pairs(transcription_fields("m".to_string(), true, true, "p".to_string()));
    assert_eq!(
        f,
        vec![
            ("model".to_string(), "m".to_string()),
            ("language".to_string(), "ja".to_string()),
            ("prompt".to_string(), "p".to_string())
        ]
    );
    let f = pairs(transcription_fields("m".to_string(), false, true, String::new()));
    assert_eq!(f, vec![("model".to_string(), "m".to_string())]);
    let f = pairs(transcription_fields("m".to_string(), false, true, "q".to_string()));
    assert_eq!(f[1], ("prompt".to_string(), "q".to_string()));
}

#[test]
fn upload_names() {
    assert_eq!(upload_file_name(Some("voice_input_1.wav")), "voice_input_1.wav");
    assert_eq!(upload_file_name(None), "audio.wav");
}

#[test]
fn success_codes() {
    assert!(is_success_status(200));
    assert!(is_success_status(299));
    assert!(!is_success_status(199));
    assert!(!is_success_status(300));
    assert!(!is_success_status(404));
}

#[test]
fn replies() {
    assert_eq!(transcription_text("  こんにちは\n"), "こんにちは");
    let r = first_choice_content(&vec![" a ".to_string(), "b".to_string()]);
    assert_eq!(r.ok().unwrap(), "a");
    let r = first_choice_content(&vec![]);
    assert!(matches!(r, Err(AiError::EmptyResponse)));
    assert_eq!(AiError::EmptyResponse.message(), "レスポンスが空でした");
}

#[test]
fn correction_request() {
    let m = correction_messages("text".to_string(), "fix it".to_string());
    assert_eq!(m.len(), 2);
    assert_eq!((m[0].role.as_str(), m[0].content.as_str()), ("system", "fix it"));
    assert_eq!((m[1].role.as_str(), m[1].content.as_str()), ("user", "text"));
}
