//! Application settings and their defaults.

use vstd::prelude::*;

verus! {

/// Name of the settings store file.
pub const STORE_FILE: &'static str = "config.json";

/// Key under which the settings are stored.
pub const CONFIG_KEY: &'static str = "config";

/// Application settings, shared with the frontend.
pub struct AppConfig {
    pub api_base_url: String,
    pub whisper_model: String,
    pub llm_models: String,
    pub default_llm_model: String,
    pub correction_prompt: String,
    pub post_recording_delay_ms: u64,
    pub is_auto_correction_enabled: bool,
    pub microphone_device_number: usize,
    pub theme: String,
    pub start_minimized: bool,
    pub whisper_language_fixed: bool,
    pub whisper_initial_prompt_enabled: bool,
    pub whisper_initial_prompt: String,
}

pub fn default_theme() -> (s: String)
    ensures
        s@ == "dark"@,
{
    String::from_str("dark")
}

pub fn default_api_base_url() -> (s: String)
    ensures
        s@ == "http://127.0.0.1:13305/v1"@,
{
    String::from_str("http://127.0.0.1:13305/v1")
}

pub fn default_whisper_model() -> (s: String)
    ensures
        s@ == "whisper-v3-turbo-FLM"@,
{
    String::from_str("whisper-v3-turbo-FLM")
}

pub fn default_llm_models() -> (s: String)
    ensures
        s@ == "qwen2.5-7b-instruct"@,
{
    String::from_str("qwen2.5-7b-instruct")
}

pub fn default_llm_model() -> (s: String)
    ensures
        s@ == "qwen2.5-7b-instruct"@,
{
    String::from_str("qwen2.5-7b-instruct")
}

pub fn default_correction_prompt() -> (s: String)
    ensures
        s@ == "以下の音声認識されたテキストの誤字脱字を修正し、自然な日本語にしてください。修正後のテキストのみを出力してください。"@,
{
    String::from_str(
        "以下の音声認識されたテキストの誤字脱字を修正し、自然な日本語にしてください。修正後のテキストのみを出力してください。",
    )
}

pub fn default_post_recording_delay_ms() -> (ms: u64)
    ensures
        ms == 500,
{
    500
}

/// Whether `c` holds the default settings.
pub open spec fn is_default_config(c: AppConfig) -> bool {
    &&& c.api_base_url@ == "http://127.0.0.1:13305/v1"@
    &&& c.whisper_model@ == "whisper-v3-turbo-FLM"@
    &&& c.llm_models@ == "qwen2.5-7b-instruct"@
    &&& c.default_llm_model@ == "qwen2.5-7b-instruct"@
    &&& c.correction_prompt@ == "以下の音声認識されたテキストの誤字脱字を修正し、自然な日本語にしてください。修正後のテキストのみを出力してください。"@
    &&& c.post_recording_delay_ms == 500
    &&& !c.is_auto_correction_enabled
    &&& c.microphone_device_number == 0
    &&& c.theme@ == "dark"@
    &&& !c.start_minimized
    &&& !c.whisper_language_fixed
    &&& !c.whisper_initial_prompt_enabled
    &&& c.whisper_initial_prompt@ == Seq::<char>::empty()
}

impl Default for AppConfig {
    fn default() -> (c: Self)
        ensures
            is_default_config(c),
    {
        AppConfig {
            api_base_url: default_api_base_url(),
            whisper_model: default_whisper_model(),
            llm_models: default_llm_models(),
            default_llm_model: default_llm_model(),
            correction_prompt: default_correction_prompt(),
            post_recording_delay_ms: default_post_recording_delay_ms(),
            is_auto_correction_enabled: false,
            microphone_device_number: 0,
            theme: default_theme(),
            start_minimized: false,
            whisper_language_fixed: false,
            whisper_initial_prompt_enabled: false,
            whisper_initial_prompt: String::new(),
        }
    }
}

/// The settings to use, given what the store held: the stored settings
/// where they were present and readable, the defaults otherwise.
pub fn load_config(stored: Option<AppConfig>) -> (c: AppConfig)
    ensures
        match stored {
            Some(s) => c == s,
            None => is_default_config(c),
        },
{
    match stored {
        Some(s) => s,
        None => AppConfig::default(),
    }
}

} // verus!
