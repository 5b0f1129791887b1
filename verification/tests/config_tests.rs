use voice_input::config::{
    default_api_base_url, default_correction_prompt, default_llm_model, default_llm_models,
    default_post_recording_delay_ms, default_theme, default_whisper_model, load_config, AppConfig,
    CONFIG_KEY, STORE_FILE,
};

#[test]
fn defaults() {
    let c = AppConfig::default();
    assert_eq!(c.api_base_url, "http://127.0.0.1:13305/v1");
    assert_eq!(c.whisper_model, "whisper-v3-turbo-FLM");
    assert_eq!(c.llm_models, "qwen2.5-7b-instruct");
    assert_eq!(c.default_llm_model, "qwen2.5-7b-instruct");
    assert_eq!(
        c.correction_prompt,
        "以下の音声認識されたテキストの誤字脱字を修正し、自然な日本語にしてください。修正後のテキストのみを出力してください。"
    );
    assert_eq!(c.post_recording_delay_ms, 500);
    assert!(!c.is_auto_correction_enabled);
    assert_eq!(c.microphone_device_number, 0);
    assert_eq!(c.theme, "dark");
    assert!(!c.start_minimized);
    assert!(!c.whisper_language_fixed);
    assert!(!c.whisper_initial_prompt_enabled);
    assert_eq!(c.whisper_initial_prompt, "");
}

#[test]
fn default_fns() {
    assert_eq!(default_theme(), "dark");
    assert_eq!(default_api_base_url(), "http://127.0.0.1:13305/v1");
    assert_eq!(default_whisper_model(), "whisper-v3-turbo-FLM");
    assert_eq!(default_llm_models(), "qwen2.5-7b-instruct");
    assert_eq!(default_llm_model(), "qwen2.5-7b-instruct");
    assert!(default_correction_prompt().starts_with("以下の音声認識"));
    assert_eq!(default_post_recording_delay_ms(), 500);
}

#[test]
fn load_falls_back_to_defaults() {
    let c = load_config(None);
    assert_eq!(c.theme, "dark");
    let mut stored = AppConfig::default();
    stored.theme = "light".to_string();
    stored.microphone_device_number = 2;
    let c = load_config(Some(stored));
    assert_eq!(c.theme, "light");
    assert_eq!(c.microphone_device_number, 2);
}

#[test]
fn store_names() {
    assert_eq!(STORE_FILE, "config.json");
    assert_eq!(CONFIG_KEY, "config");
}
