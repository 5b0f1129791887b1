//! Requests to an OpenAI-compatible server (speech recognition and chat),
//! as far as they are decided here: addresses, form fields, messages, and
//! what is taken from a reply.

use vstd::prelude::*;
use crate::text::{trim, trimmed};

verus! {

/// One message of a chat with the language model.
pub struct ChatMessage {
    pub role: String,
    pub content: String,
}

/// `s` without its trailing `/` characters.
pub open spec fn without_trailing_slashes(s: Seq<char>) -> Seq<char>
    decreases s.len(),
{
    if s.len() > 0 && s.last() == '/' {
        without_trailing_slashes(s.drop_last())
    } else {
        s
    }
}

proof fn lemma_without_slashes_prefix(s: Seq<char>, j: int)
    requires
        0 <= j <= s.len(),
        forall|k: int| j <= k < s.len() ==> s[k] == '/',
    ensures
        without_trailing_slashes(s) == without_trailing_slashes(s.take(j)),
    decreases s.len() - j,
{
    if j < s.len() {
        assert(s.drop_last() =~= s.take(s.len() - 1));
        assert(s.take(s.len() - 1).take(j) =~= s.take(j));
        lemma_without_slashes_prefix(s.take(s.len() - 1), j);
    } else {
        assert(s.take(j) =~= s);
    }
}

/// Endpoint addresses do not depend on trailing slashes of the base
/// address: one more slash changes nothing, and stripping is idempotent.
pub proof fn lemma_trailing_slashes_ignored(base: Seq<char>)
    ensures
        without_trailing_slashes(base.push('/')) == without_trailing_slashes(base),
        without_trailing_slashes(without_trailing_slashes(base)) == without_trailing_slashes(base),
    decreases base.len(),
{
    assert(base.push('/').drop_last() =~= base);
    if base.len() > 0 && base.last() == '/' {
        lemma_trailing_slashes_ignored(base.drop_last());
    }
}

/// `base` without trailing `/` characters, followed by `path`.
pub fn endpoint_url(base: &str, path: &str) -> (url: String)
    ensures
        url@ == without_trailing_slashes(base@) + path@,
{
    let n: usize = base.unicode_len();
    let mut j: usize = n;
    while j > 0 && base.get_char(j - 1) == '/'
        invariant
            n == base@.len(),
            j <= n,
            forall|k: int| j <= k < n ==> base@[k] == '/',
        decreases j,
    {
        j = j - 1;
    }
    proof {
        lemma_without_slashes_prefix(base@, j as int);
        let t = base@.take(j as int);
        if j > 0 {
            assert(t.last() != '/');
        }
        assert(t.len() == 0 || t.last() != '/');
    }
    let mut url = String::from_str(base.substring_char(0, j));
    url.append(path);
    url
}

/// Address of the speech recognition endpoint under `api_base_url`.
pub fn transcription_url(api_base_url: &str) -> (url: String)
    ensures
        url@ == without_trailing_slashes(api_base_url@) + "/audio/transcriptions"@,
{
    endpoint_url(api_base_url, "/audio/transcriptions")
}

/// Address of the chat endpoint under `api_base_url`.
pub fn chat_completions_url(api_base_url: &str) -> (url: String)
    ensures
        url@ == without_trailing_slashes(api_base_url@) + "/chat/completions"@,
{
    endpoint_url(api_base_url, "/chat/completions")
}

/// A text field of a multipart form.
pub struct FormField {
    pub name: String,
    pub value: String,
}

pub open spec fn field_view(f: FormField) -> (Seq<char>, Seq<char>) {
    (f.name@, f.value@)
}

/// The text fields sent with a recording: the model; the language `ja`
/// when the language is fixed; the initial prompt when it is enabled and
/// not empty.
pub open spec fn spec_transcription_fields(
    model: Seq<char>,
    language_fixed: bool,
    prompt_enabled: bool,
    prompt: Seq<char>,
) -> Seq<(Seq<char>, Seq<char>)> {
    let base = seq![("model"@, model)];
    let with_language = if language_fixed { base.push(("language"@, "ja"@)) } else { base };
    if prompt_enabled && prompt.len() > 0 { with_language.push(("prompt"@, prompt)) } else { with_language }
}

/// The fields of a speech recognition request: the model always comes
/// first; a `language` field with value `ja` is present exactly when the
/// language is fixed, right after the model, whatever the prompt settings;
/// a `prompt` field carrying the prompt is present exactly when the prompt
/// is enabled and not empty, last.
pub proof fn lemma_transcription_fields(
    model: Seq<char>,
    language_fixed: bool,
    prompt_enabled: bool,
    prompt: Seq<char>,
)
    ensures
        ({
            let f = spec_transcription_fields(model, language_fixed, prompt_enabled, prompt);
            let with_prompt = prompt_enabled && prompt.len() > 0;
            &&& f.len() == 1 + (if language_fixed { 1int } else { 0int }) + (if with_prompt { 1int } else { 0int })
            &&& f[0] == ("model"@, model)
            &&& language_fixed ==> f[1] == ("language"@, "ja"@)
            &&& (exists|i: int| 0 <= i < f.len() && #[trigger] f[i].0 == "language"@) <==> language_fixed
            &&& with_prompt ==> f[f.len() - 1] == ("prompt"@, prompt)
            &&& (exists|i: int| 0 <= i < f.len() && #[trigger] f[i].0 == "prompt"@) <==> with_prompt
        }),
{
    reveal_strlit("model");
    reveal_strlit("language");
    reveal_strlit("prompt");
    let f = spec_transcription_fields(model, language_fixed, prompt_enabled, prompt);
    assert("model"@ != "language"@) by {
        assert("model"@.len() != "language"@.len());
    }
    assert("prompt"@ != "language"@) by {
        assert("prompt"@[0] != "language"@[0]);
    }
    assert("model"@ != "prompt"@) by {
        assert("model"@[0] != "prompt"@[0]);
    }
    if language_fixed {
        assert(f[1].0 == "language"@);
    }
    if prompt_enabled && prompt.len() > 0 {
        assert(f[f.len() - 1].0 == "prompt"@);
    }
}

fn field(name: &str, value: String) -> (f: FormField)
    ensures
        field_view(f) == (name@, value@),
{
    FormField { name: String::from_str(name), value }
}

/// Text fields of a speech recognition request, in order.
pub fn transcription_fields(model: String, language_fixed: bool, prompt_enabled: bool, prompt: String) -> (r: Vec<FormField>)
    ensures
        r@.len() == spec_transcription_fields(model@, language_fixed, prompt_enabled, prompt@).len(),
        forall|i: int| 0 <= i < r@.len() ==> field_view(#[trigger] r@[i]) == spec_transcription_fields(model@, language_fixed, prompt_enabled, prompt@)[i],
{
    let mut fields: Vec<FormField> = Vec::new();
    let ghost want = spec_transcription_fields(model@, language_fixed, prompt_enabled, prompt@);
    let prompt_len: usize = prompt.as_str().unicode_len();
    fields.push(field("model", model));
    if language_fixed {
        fields.push(field("language", String::from_str("ja")));
    }
    if prompt_enabled && prompt_len > 0 {
        fields.push(field("prompt", prompt));
    }
    fields
}

/// Name under which a recording is uploaded: its own file name, or
/// `audio.wav` where it has none.
pub fn upload_file_name(file_name: Option<&str>) -> (name: String)
    ensures
        name@ == (match file_name {
            Some(n) => n@,
            None => "audio.wav"@,
        }),
{
    match file_name {
        Some(n) => String::from_str(n),
        None => String::from_str("audio.wav"),
    }
}

/// Whether an HTTP status code means success (200 to 299), as
/// `http::StatusCode::is_success` defines it.
pub fn is_success_status(code: u16) -> (b: bool)
    ensures
        b == (200 <= code && code < 300),
{
    200 <= code && code < 300
}

/// The recognised text of a speech recognition reply, without surrounding
/// white space.
pub fn transcription_text(text: &str) -> (r: String)
    ensures
        r@ == trimmed(text@),
{
    trim(text)
}

/// Why a chat reply gave no text.
pub enum AiError {
    /// The reply held no choice.
    EmptyResponse,
}

impl AiError {
    pub fn message(&self) -> (m: String)
        ensures
            m@ == "レスポンスが空でした"@,
    {
        String::from_str("レスポンスが空でした")
    }
}

/// The answer of a chat reply: the content of its first choice without
/// surrounding white space.
pub fn first_choice_content(contents: &Vec<String>) -> (r: Result<String, AiError>)
    ensures
        contents@.len() == 0 <==> r is Err,
        r matches Ok(t) ==> t@ == trimmed(contents@[0]@),
{
    if contents.len() == 0 {
        Err(AiError::EmptyResponse)
    } else {
        Ok(trim(contents[0].as_str()))
    }
}

pub open spec fn message_view(m: ChatMessage) -> (Seq<char>, Seq<char>) {
    (m.role@, m.content@)
}

/// The messages of a correction request: the correction prompt as the
/// system message, then the text to correct as the user message.
pub fn correction_messages(text: String, prompt: String) -> (r: Vec<ChatMessage>)
    ensures
        r@.len() == 2,
        message_view(r@[0]) == ("system"@, prompt@),
        message_view(r@[1]) == ("user"@, text@),
{
    let mut messages: Vec<ChatMessage> = Vec::new();
    messages.push(ChatMessage { role: String::from_str("system"), content: prompt });
    messages.push(ChatMessage { role: String::from_str("user"), content: text });
    messages
}

} // verus!
