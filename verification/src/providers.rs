//! The model backends: which one a provider name selects, how a
//! conversation is laid out for each wire format, and how an answer is read
//! back.  Sending requests is left to the caller.

use vstd::prelude::*;
use crate::json::{json_parse, json_same, parse_json, str_eq, JsonValue};
use crate::llm::{
    messages_view, ChatMessage, ChatMessageView, CompletionResponse, LlmError, LlmErrorView, Role,
    ToolCall,
};
use crate::text::{
    concat2, concat3, join, join_strings, lemma_trim_end_char, trim_end_char, trim_end_matches_char,
};

verus! {

// ---------------------------------------------------------------------------
// Choosing a backend
// ---------------------------------------------------------------------------

/// Where an OpenAI-compatible service lives, and which environment variable
/// holds its key (none for a local service).
pub struct ProviderPreset {
    pub base_url: &'static str,
    pub env_key: &'static str,
}

/// The known OpenAI-compatible services.
pub open spec fn preset_spec(provider: Seq<char>) -> Option<(Seq<char>, Seq<char>)> {
    if provider == "openai"@ {
        Some(("https://api.openai.com"@, "OPENAI_API_KEY"@))
    } else if provider == "deepseek"@ {
        Some(("https://api.deepseek.com"@, "DEEPSEEK_API_KEY"@))
    } else if provider == "ollama"@ {
        Some(("http://localhost:11434"@, ""@))
    } else if provider == "groq"@ {
        Some(("https://api.groq.com/openai"@, "GROQ_API_KEY"@))
    } else if provider == "together"@ {
        Some(("https://api.together.xyz"@, "TOGETHER_API_KEY"@))
    } else {
        None
    }
}

pub fn openai_compat_preset(provider: &str) -> (r: Option<ProviderPreset>)
    ensures
        match r {
            Some(p) => preset_spec(provider@) == Some((p.base_url@, p.env_key@)),
            None => preset_spec(provider@) is None,
        },
{
    if str_eq(provider, "openai") {
        Some(ProviderPreset { base_url: "https://api.openai.com", env_key: "OPENAI_API_KEY" })
    } else if str_eq(provider, "deepseek") {
        Some(ProviderPreset { base_url: "https://api.deepseek.com", env_key: "DEEPSEEK_API_KEY" })
    } else if str_eq(provider, "ollama") {
        Some(ProviderPreset { base_url: "http://localhost:11434", env_key: "" })
    } else if str_eq(provider, "groq") {
        Some(ProviderPreset { base_url: "https://api.groq.com/openai", env_key: "GROQ_API_KEY" })
    } else if str_eq(provider, "together") {
        Some(ProviderPreset { base_url: "https://api.together.xyz", env_key: "TOGETHER_API_KEY" })
    } else {
        None
    }
}

/// Each named OpenAI-compatible service is reached at its own address, with
/// its own key variable (none for a local Ollama).
pub proof fn lemma_preset_services()
    ensures
        preset_spec("openai"@) == Some(("https://api.openai.com"@, "OPENAI_API_KEY"@)),
        preset_spec("deepseek"@) == Some(("https://api.deepseek.com"@, "DEEPSEEK_API_KEY"@)),
        preset_spec("ollama"@) == Some(("http://localhost:11434"@, ""@)),
        preset_spec("groq"@) == Some(("https://api.groq.com/openai"@, "GROQ_API_KEY"@)),
        preset_spec("together"@) == Some(("https://api.together.xyz"@, "TOGETHER_API_KEY"@)),
        forall|p: Seq<char>|
            p != "openai"@ && p != "deepseek"@ && p != "ollama"@ && p != "groq"@ && p != "together"@
                ==> #[trigger] preset_spec(p) is None,
{
    reveal_strlit("openai");
    reveal_strlit("deepseek");
    reveal_strlit("ollama");
    reveal_strlit("groq");
    reveal_strlit("together");
    assert("deepseek"@.len() != "openai"@.len());
    assert("ollama"@[1] != "openai"@[1]);
    assert("ollama"@.len() != "deepseek"@.len());
    assert("groq"@.len() != "openai"@.len());
    assert("groq"@.len() != "deepseek"@.len());
    assert("groq"@.len() != "ollama"@.len());
    assert("together"@.len() != "openai"@.len());
    assert("together"@[0] != "deepseek"@[0]);
    assert("together"@.len() != "ollama"@.len());
    assert("together"@.len() != "groq"@.len());
}

/// The backend to build, with its settings.
#[derive(Debug)]
pub enum ProviderChoice {
    Anthropic(AnthropicProvider),
    OpenAiCompat(OpenAiCompatProvider),
    /// The scripted model, answering from the JSON script at `script_path`.
    Scripted { model: String, script_path: String },
}

pub open spec fn missing_key_error(provider: Seq<char>, key: Seq<char>) -> LlmErrorView {
    LlmErrorView::AuthFailed { provider: provider + ": "@ + key + " not set"@ }
}

/// The value of the environment variable `key`, or the error naming it.
pub fn env_or_err(value: Option<String>, key: &str, provider: &str) -> (r: Result<String, LlmError>)
    ensures
        match value {
            Some(v) => r matches Ok(s) && s@ == v@,
            None => r matches Err(e) && e@ == missing_key_error(provider@, key@),
        },
{
    match value {
        Some(v) => Ok(v),
        None => {
            let mut m = concat3(provider, ": ", key);
            m.append(" not set");
            Err(LlmError::AuthFailed { provider: m })
        },
    }
}

/// `get` answered `v` when asked for the environment variable `key`.
pub open spec fn env_answers<F: Fn(&str) -> Option<String>>(get: F, key: Seq<char>, v: Option<String>) -> bool {
    exists|k: &str| k@ == key && #[trigger] call_ensures(get, (k,), v)
}

/// The environment variable a provider needs first: its key (or, for
/// `custom`, its base URL); none for a local service.
pub open spec fn key_variable(provider: Seq<char>) -> Option<Seq<char>> {
    if provider == "anthropic"@ {
        Some("ANTHROPIC_API_KEY"@)
    } else if provider == "mock"@ {
        Some("MOCK_LLM_SCRIPT_PATH"@)
    } else if provider == "custom"@ {
        Some("LLM_BASE_URL"@)
    } else {
        match preset_spec(provider) {
            Some((_, k)) => if k.len() > 0 {
                Some(k)
            } else {
                None
            },
            None => None,
        }
    }
}

/// What a provider name selects, given the values of the environment
/// variables it reads: `anthropic` (key `ANTHROPIC_API_KEY`), `mock` (the
/// scripted model, script path `MOCK_LLM_SCRIPT_PATH`), `custom`
/// (`LLM_BASE_URL`, and the optional `LLM_API_KEY`), or one of the
/// OpenAI-compatible presets (their key variable, when they have one).
pub open spec fn provider_choice_ok(provider: Seq<char>, model: Seq<char>, r: Result<ProviderChoice, LlmError>, first: Option<Seq<char>>, second: Option<Seq<char>>) -> bool {
    if provider == "anthropic"@ {
        match first {
            Some(key) => r matches Ok(ProviderChoice::Anthropic(p)) && p.api_key@ == key && p.model@
                == model && p.base_url@ == "https://api.anthropic.com"@,
            None => r matches Err(e) && e@ == missing_key_error(provider, "ANTHROPIC_API_KEY"@),
        }
    } else if provider == "mock"@ {
        match first {
            Some(path) => r matches Ok(ProviderChoice::Scripted { model: m, script_path }) && m@
                == model && script_path@ == path,
            None => r matches Err(e) && e@ == missing_key_error(provider, "MOCK_LLM_SCRIPT_PATH"@),
        }
    } else if provider == "custom"@ {
        match first {
            Some(base) => r matches Ok(ProviderChoice::OpenAiCompat(p)) && p.base_url@ == trim_end_char(
                base,
                '/',
            ) && p.api_key@ == (match second {
                Some(k) => k,
                None => Seq::<char>::empty(),
            }) && p.model@ == model,
            None => r matches Err(e) && e@ == missing_key_error(provider, "LLM_BASE_URL"@),
        }
    } else {
        match preset_spec(provider) {
            Some((base, key)) => if key.len() == 0 {
                r matches Ok(ProviderChoice::OpenAiCompat(p)) && p.base_url@ == trim_end_char(base, '/')
                    && p.api_key@.len() == 0 && p.model@ == model
            } else {
                match first {
                    Some(k) => r matches Ok(ProviderChoice::OpenAiCompat(p)) && p.base_url@
                        == trim_end_char(base, '/') && p.api_key@ == k && p.model@ == model,
                    None => r matches Err(e) && e@ == missing_key_error(provider, key),
                }
            },
            None => r matches Err(e) && e@ == LlmErrorView::UnsupportedProvider { provider },
        }
    }
}

/// Chooses the backend for `provider` and `model`, reading environment
/// variables through `get`: the variable `key_variable` names, and, for
/// `custom` with a base URL, `LLM_API_KEY`.
pub fn create_provider<F: Fn(&str) -> Option<String>>(provider: &str, model: &str, get: F) -> (r: Result<ProviderChoice, LlmError>)
    requires
        forall|k: &str| get.requires((k,)),
    ensures
        exists|first: Option<String>, second: Option<String>|
            #![trigger provider_choice_ok(provider@, model@, r, first.deep_view(), second.deep_view())]
            provider_choice_ok(provider@, model@, r, first.deep_view(), second.deep_view())
                && (key_variable(provider@) matches Some(k) ==> env_answers(get, k, first))
                && (provider@ == "custom"@ && first is Some ==> env_answers(get, "LLM_API_KEY"@, second)),
{
    proof {
        reveal_strlit("anthropic");
        reveal_strlit("custom");
        reveal_strlit("mock");
    }
    if str_eq(provider, "anthropic") {
        let key_name = "ANTHROPIC_API_KEY";
        let key_value = get(key_name);
        let ghost first = key_value;
        assert(env_answers(get, "ANTHROPIC_API_KEY"@, first));
        let r = match env_or_err(key_value, key_name, provider) {
            Ok(k) => Ok(ProviderChoice::Anthropic(AnthropicProvider::new(k.as_str(), model))),
            Err(e) => Err(e),
        };
        assert(provider_choice_ok(provider@, model@, r, first.deep_view(), None::<String>.deep_view()));
        return r;
    }
    if str_eq(provider, "mock") {
        let path_name = "MOCK_LLM_SCRIPT_PATH";
        let path_value = get(path_name);
        let ghost first = path_value;
        assert(env_answers(get, "MOCK_LLM_SCRIPT_PATH"@, first));
        let r = match env_or_err(path_value, path_name, provider) {
            Ok(p) => Ok(ProviderChoice::Scripted { model: model.to_owned(), script_path: p }),
            Err(e) => Err(e),
        };
        assert(provider_choice_ok(provider@, model@, r, first.deep_view(), None::<String>.deep_view()));
        return r;
    }
    if str_eq(provider, "custom") {
        let base_name = "LLM_BASE_URL";
        let base_value = get(base_name);
        let ghost first = base_value;
        assert(env_answers(get, "LLM_BASE_URL"@, first));
        let base_url = match env_or_err(base_value, base_name, provider) {
            Ok(b) => b,
            Err(e) => {
                let r = Err(e);
                assert(provider_choice_ok(provider@, model@, r, first.deep_view(), None::<String>.deep_view()));
                return r;
            },
        };
        let api_name = "LLM_API_KEY";
        let key_value = get(api_name);
        let ghost second = key_value;
        assert(env_answers(get, "LLM_API_KEY"@, second));
        let api_key = match key_value {
            Some(k) => k,
            None => String::new(),
        };
        let r = Ok(ProviderChoice::OpenAiCompat(OpenAiCompatProvider::new(base_url.as_str(), api_key.as_str(), model)));
        assert(provider_choice_ok(provider@, model@, r, first.deep_view(), second.deep_view()));
        return r;
    }
    match openai_compat_preset(provider) {
        Some(preset) => {
            let env_key: &str = preset.env_key;
            if env_key.is_empty() {
                let r = Ok(ProviderChoice::OpenAiCompat(OpenAiCompatProvider::new(preset.base_url, "", model)));
                proof {
                    reveal_strlit("");
                }
                assert(provider_choice_ok(provider@, model@, r, None::<String>.deep_view(), None::<String>.deep_view()));
                r
            } else {
                let key_value = get(env_key);
                let ghost first = key_value;
                assert(env_answers(get, env_key@, first));
                let r = match env_or_err(key_value, env_key, provider) {
                    Ok(k) => Ok(ProviderChoice::OpenAiCompat(OpenAiCompatProvider::new(preset.base_url, k.as_str(), model))),
                    Err(e) => Err(e),
                };
                assert(provider_choice_ok(provider@, model@, r, first.deep_view(), None::<String>.deep_view()));
                r
            }
        },
        None => {
            let r = Err(LlmError::UnsupportedProvider { provider: provider.to_owned() });
            assert(provider_choice_ok(provider@, model@, r, None::<String>.deep_view(), None::<String>.deep_view()));
            r
        },
    }
}

// ---------------------------------------------------------------------------
// Answers over HTTP
// ---------------------------------------------------------------------------

pub open spec fn http_failure_reason(status_text: Seq<char>, body: Seq<char>) -> Seq<char> {
    "HTTP "@ + status_text + ": "@ + body
}

/// The error an HTTP answer of a model service stands for: status `401`
/// means the credentials were refused (reported for `auth_name`); any other
/// status outside `200..=299` is a failed request that shows the status
/// (`status_text`, as the HTTP client prints it) and the body text; a
/// success is no error.
pub fn response_error(status: u16, status_text: &str, body: &str, auth_name: &str) -> (r: Option<LlmError>)
    ensures
        status == 401 ==> (r matches Some(e) && e@ == (LlmErrorView::AuthFailed { provider: auth_name@ })),
        status != 401 && !(200 <= status <= 299) ==> (r matches Some(e) && e@
            == (LlmErrorView::RequestFailed { reason: http_failure_reason(status_text@, body@) })),
        200 <= status <= 299 ==> r is None,
{
    if status == 401 {
        Some(LlmError::AuthFailed { provider: auth_name.to_owned() })
    } else if status < 200 || status > 299 {
        let mut reason = concat3("HTTP ", status_text, ": ");
        reason.append(body);
        Some(LlmError::RequestFailed { reason })
    } else {
        None
    }
}

// ---------------------------------------------------------------------------
// OpenAI-compatible chat completions
// ---------------------------------------------------------------------------

/// Settings of an OpenAI-compatible service.
#[derive(Debug)]
pub struct OpenAiCompatProvider {
    pub base_url: String,
    pub api_key: String,
    pub model: String,
}

/// A tool call as the chat-completions format writes it in a request.
#[derive(Debug)]
pub struct OutgoingToolCall {
    pub id: String,
    pub tool_type: String,
    pub name: String,
    pub arguments: JsonValue,
}

/// A message as the chat-completions format writes it.
#[derive(Debug)]
pub struct ApiMessage {
    pub role: Role,
    pub content: Option<String>,
    pub tool_call_id: Option<String>,
    pub tool_calls: Option<Vec<OutgoingToolCall>>,
}

/// A tool call as the chat-completions format reads it in an answer; the
/// arguments are JSON text.
#[derive(Debug)]
pub struct ApiToolCall {
    pub id: String,
    pub tool_type: String,
    pub function: ApiFunction,
}

#[derive(Debug)]
pub struct ApiFunction {
    pub name: String,
    pub arguments: String,
}

#[derive(Debug)]
pub struct ApiChoiceMessage {
    pub content: Option<String>,
    pub tool_calls: Vec<ApiToolCall>,
}

#[derive(Debug)]
pub struct ApiChoice {
    pub message: ApiChoiceMessage,
}

/// An answer in the chat-completions format.
#[derive(Debug)]
pub struct ApiResponse {
    pub choices: Vec<ApiChoice>,
}

/// The type a tool call has when an answer leaves it out.
pub fn default_tool_type() -> (r: String)
    ensures
        r@ == "function"@,
{
    "function".to_owned()
}

/// How a message is laid out for the chat-completions format: its tool calls
/// as `function` calls (left out when there are none), and no content for
/// an assistant message whose text is empty.
pub open spec fn api_message_ok(m: ChatMessageView, a: ApiMessage) -> bool {
    &&& a.role == m.role
    &&& a.content.deep_view() == (if m.content.len() == 0 && m.role == Role::Assistant {
        None
    } else {
        Some(m.content)
    })
    &&& a.tool_call_id.deep_view() == m.tool_call_id
    &&& match a.tool_calls {
        None => m.tool_calls.len() == 0,
        Some(calls) => m.tool_calls.len() > 0 && calls@.len() == m.tool_calls.len() && forall|
            i: int,
        |
            0 <= i < calls@.len() ==> #[trigger] calls@[i].id@ == m.tool_calls[i].id && calls@[i].tool_type@
                == "function"@ && calls@[i].name@ == m.tool_calls[i].name && json_same(m.tool_calls[i].arguments, calls@[i].arguments),
    }
}

fn clone_json(v: &JsonValue) -> (r: JsonValue)
    ensures
        json_same(*v, r),
{
    v.clone()
}

impl OpenAiCompatProvider {
    /// Settings with trailing `'/'`s dropped from the base URL.
    pub fn new(base_url: &str, api_key: &str, model: &str) -> (r: OpenAiCompatProvider)
        ensures
            r.base_url@ == trim_end_char(base_url@, '/'),
            r.api_key@ == api_key@,
            r.model@ == model@,
    {
        OpenAiCompatProvider {
            base_url: trim_end_matches_char(base_url, '/'),
            api_key: api_key.to_owned(),
            model: model.to_owned(),
        }
    }

    pub fn model_name(&self) -> (r: &str)
        ensures
            r@ == self.model@,
    {
        self.model.as_str()
    }

    /// The endpoint requests go to.
    pub fn endpoint(&self) -> (r: String)
        ensures
            r@ == self.base_url@ + "/v1/chat/completions"@,
    {
        concat2(self.base_url.as_str(), "/v1/chat/completions")
    }

    /// The value of the `Authorization` header.
    pub fn authorization(&self) -> (r: String)
        ensures
            r@ == "Bearer "@ + self.api_key@,
    {
        concat2("Bearer ", self.api_key.as_str())
    }

    /// Lays out one message for the chat-completions format.
    pub fn build_message(&self, m: &ChatMessage) -> (a: ApiMessage)
        ensures
            api_message_ok(m@, a),
    {
        let tool_calls = if m.tool_calls.len() == 0 {
            None
        } else {
            let mut out: Vec<OutgoingToolCall> = Vec::new();
            let mut i: usize = 0;
            while i < m.tool_calls.len()
                invariant
                    i <= m.tool_calls@.len(),
                    out@.len() == i,
                    forall|k: int|
                        0 <= k < i ==> #[trigger] out@[k].id@ == m.tool_calls@[k].id@ && out@[k].tool_type@
                            == "function"@ && out@[k].name@ == m.tool_calls@[k].name@ && json_same(m.tool_calls@[k].arguments, out@[k].arguments),
                decreases m.tool_calls@.len() - i,
            {
                let tc = &m.tool_calls[i];
                out.push(
                    OutgoingToolCall {
                        id: tc.id.clone(),
                        tool_type: "function".to_owned(),
                        name: tc.name.clone(),
                        arguments: clone_json(&tc.arguments),
                    },
                );
                i = i + 1;
            }
            Some(out)
        };
        let content = if m.content.as_str().is_empty() && m.role == Role::Assistant {
            None
        } else {
            Some(m.content.clone())
        };
        ApiMessage { role: m.role, content, tool_call_id: m.tool_call_id.clone(), tool_calls }
    }

    /// Lays out a conversation for the chat-completions format, message by
    /// message.
    pub fn build_messages(&self, messages: &Vec<ChatMessage>) -> (r: Vec<ApiMessage>)
        ensures
            r@.len() == messages@.len(),
            forall|i: int| 0 <= i < r@.len() ==> api_message_ok(#[trigger] messages@[i]@, r@[i]),
    {
        let mut out: Vec<ApiMessage> = Vec::new();
        let mut i: usize = 0;
        while i < messages.len()
            invariant
                i <= messages@.len(),
                out@.len() == i,
                forall|k: int| 0 <= k < i ==> api_message_ok(#[trigger] messages@[k]@, out@[k]),
            decreases messages@.len() - i,
        {
            out.push(self.build_message(&messages[i]));
            i = i + 1;
        }
        out
    }
}

/// The endpoint of an OpenAI-compatible service is its base URL, without
/// trailing `'/'`s, followed by `/v1/chat/completions`: no `"//"` comes
/// before the path, however many `'/'`s the configured URL ends with, and
/// configuring the URL already trimmed gives the same endpoint.
pub proof fn lemma_endpoint_joins_cleanly(base_url: Seq<char>)
    ensures
        trim_end_char(base_url, '/').len() > 0 ==> trim_end_char(base_url, '/').last() != '/',
        trim_end_char(trim_end_char(base_url, '/'), '/') == trim_end_char(base_url, '/'),
{
    lemma_trim_end_char(base_url, '/');
}

/// The arguments a tool call carries when its JSON text is `text`: the
/// document it denotes, or an empty object when it is not JSON.
pub open spec fn arguments_from_text(text: Seq<char>, v: JsonValue) -> bool {
    match json_parse(text) {
        Ok(p) => v == p,
        Err(_) => v.object_len_spec() == Some(0nat),
    }
}

/// The text of the first choice of an answer (empty when there is none).
pub open spec fn first_choice_text(resp: ApiResponse) -> Seq<char> {
    if resp.choices@.len() == 0 {
        Seq::empty()
    } else {
        match resp.choices@[0].message.content {
            Some(c) => c@,
            None => Seq::empty(),
        }
    }
}

pub fn openai_extract_text(resp: &ApiResponse) -> (r: String)
    ensures
        r@ == first_choice_text(*resp),
{
    if resp.choices.len() == 0 {
        return String::new();
    }
    match &resp.choices[0].message.content {
        Some(c) => c.clone(),
        None => String::new(),
    }
}

/// Reads the first choice of an answer: its text and its tool calls, whose
/// JSON-text arguments become documents.  An answer without choices has
/// neither.
pub fn openai_extract_completion(resp: &ApiResponse) -> (r: CompletionResponse)
    ensures
        resp.choices@.len() == 0 ==> r.content is None && r.tool_calls@.len() == 0,
        resp.choices@.len() > 0 ==> {
            let m = resp.choices@[0].message;
            &&& r.content.deep_view() == m.content.deep_view()
            &&& r.tool_calls@.len() == m.tool_calls@.len()
            &&& forall|i: int|
                0 <= i < r.tool_calls@.len() ==> #[trigger] r.tool_calls@[i].id@ == m.tool_calls@[i].id@
                    && r.tool_calls@[i].name@ == m.tool_calls@[i].function.name@
                    && arguments_from_text(m.tool_calls@[i].function.arguments@, r.tool_calls@[i].arguments)
        },
{
    if resp.choices.len() == 0 {
        return CompletionResponse { content: None, tool_calls: Vec::new() };
    }
    let m = &resp.choices[0].message;
    let mut calls: Vec<ToolCall> = Vec::new();
    let mut i: usize = 0;
    while i < m.tool_calls.len()
        invariant
            i <= m.tool_calls@.len(),
            calls@.len() == i,
            forall|k: int|
                0 <= k < i ==> #[trigger] calls@[k].id@ == m.tool_calls@[k].id@ && calls@[k].name@
                    == m.tool_calls@[k].function.name@ && arguments_from_text(m.tool_calls@[k].function.arguments@, calls@[k].arguments),
        decreases m.tool_calls@.len() - i,
    {
        let tc = &m.tool_calls[i];
        let arguments = match parse_json(tc.function.arguments.as_str()) {
            Ok(v) => v,
            Err(_) => JsonValue::empty_object(),
        };
        assert(arguments_from_text(tc.function.arguments@, arguments));
        let ghost before = calls@;
        calls.push(ToolCall { id: tc.id.clone(), name: tc.function.name.clone(), arguments });
        assert(forall|k: int| 0 <= k < i ==> calls@[k] == before[k]);
        i = i + 1;
    }
    let content = match &m.content {
        Some(c) => Some(c.clone()),
        None => None,
    };
    CompletionResponse { content, tool_calls: calls }
}

// ---------------------------------------------------------------------------
// Anthropic messages
// ---------------------------------------------------------------------------

/// Settings of the Anthropic service.
#[derive(Debug)]
pub struct AnthropicProvider {
    pub base_url: String,
    pub api_key: String,
    pub model: String,
}

/// The content of a message in the Anthropic format: text, or blocks.
#[derive(Debug)]
pub enum AnthropicContent {
    Text(String),
    Blocks(Vec<ContentBlock>),
}

#[derive(Debug)]
pub enum ContentBlock {
    ToolResult { tool_use_id: String, content: String },
}

/// A message in the Anthropic format.
#[derive(Debug)]
pub struct AnthropicMessage {
    pub role: String,
    pub content: AnthropicContent,
}

/// A block of an Anthropic answer.
#[derive(Debug)]
pub enum ResponseBlock {
    Text { text: String },
    ToolUse { id: String, name: String, input: JsonValue },
}

/// An answer in the Anthropic format.
#[derive(Debug)]
pub struct AnthropicResponse {
    pub content: Vec<ResponseBlock>,
}

/// The messages that are not system prompts.
pub open spec fn non_system(ms: Seq<ChatMessageView>) -> Seq<ChatMessageView> {
    ms.filter(|m: ChatMessageView| m.role != Role::System)
}

/// The system prompts, joined with `'\n'`; none when there is none.
pub open spec fn system_text(ms: Seq<ChatMessageView>) -> Option<Seq<char>> {
    let sys = ms.filter(|m: ChatMessageView| m.role == Role::System);
    if sys.len() == 0 {
        None
    } else {
        Some(join(sys.map_values(|m: ChatMessageView| m.content), "\n"@))
    }
}

/// How a (non-system) message is laid out for the Anthropic format: tool
/// results are user messages holding one `tool_result` block; everything
/// else keeps its text, with the assistant's role or the user's.
pub open spec fn anthropic_message_ok(m: ChatMessageView, a: AnthropicMessage) -> bool {
    &&& a.role@ == (if m.role == Role::Assistant {
        "assistant"@
    } else {
        "user"@
    })
    &&& match (m.role, m.tool_call_id) {
        (Role::Tool, Some(id)) => a.content matches AnthropicContent::Blocks(bs) && bs@.len() == 1 && (
        match bs@[0] {
            ContentBlock::ToolResult { tool_use_id, content } => tool_use_id@ == id && content@
                == m.content,
        }),
        _ => a.content matches AnthropicContent::Text(t) && t@ == m.content,
    }
}

proof fn lemma_filter_push_chat(s: Seq<ChatMessageView>, keep: spec_fn(ChatMessageView) -> bool, e: ChatMessageView)
    ensures
        keep(e) ==> s.push(e).filter(keep) == s.filter(keep).push(e),
        !keep(e) ==> s.push(e).filter(keep) == s.filter(keep),
{
    reveal(Seq::filter);
    assert(s.push(e).drop_last() =~= s);
}

impl AnthropicProvider {
    pub fn new(api_key: &str, model: &str) -> (r: AnthropicProvider)
        ensures
            r.base_url@ == "https://api.anthropic.com"@,
            r.api_key@ == api_key@,
            r.model@ == model@,
    {
        AnthropicProvider {
            base_url: "https://api.anthropic.com".to_owned(),
            api_key: api_key.to_owned(),
            model: model.to_owned(),
        }
    }

    pub fn model_name(&self) -> (r: &str)
        ensures
            r@ == self.model@,
    {
        self.model.as_str()
    }

    /// The endpoint requests go to.
    pub fn endpoint(&self) -> (r: String)
        ensures
            r@ == self.base_url@ + "/v1/messages"@,
    {
        concat2(self.base_url.as_str(), "/v1/messages")
    }

    /// Splits a conversation into the system text (the Anthropic format
    /// keeps it apart) and the other messages, laid out for that format.
    pub fn split_messages(&self, messages: &Vec<ChatMessage>) -> (r: (Option<String>, Vec<AnthropicMessage>))
        ensures
            r.0.deep_view() == system_text(messages_view(messages@)),
            r.1@.len() == non_system(messages_view(messages@)).len(),
            forall|i: int|
                0 <= i < r.1@.len() ==> anthropic_message_ok(non_system(messages_view(messages@))[i], #[trigger] r.1@[i]),
    {
        let ghost mv = messages_view(messages@);
        let ghost is_sys = |m: ChatMessageView| m.role == Role::System;
        let ghost not_sys = |m: ChatMessageView| m.role != Role::System;
        let mut system: Vec<String> = Vec::new();
        let mut out: Vec<AnthropicMessage> = Vec::new();
        let mut i: usize = 0;
        while i < messages.len()
            invariant
                i <= messages@.len(),
                mv == messages_view(messages@),
                is_sys == (|m: ChatMessageView| m.role == Role::System),
                not_sys == (|m: ChatMessageView| m.role != Role::System),
                system.deep_view() == mv.take(i as int).filter(is_sys).map_values(|m: ChatMessageView| m.content),
                out@.len() == mv.take(i as int).filter(not_sys).len(),
                forall|k: int| 0 <= k < out@.len() ==> anthropic_message_ok(mv.take(i as int).filter(not_sys)[k], #[trigger] out@[k]),
            decreases messages@.len() - i,
        {
            let m = &messages[i];
            let ghost mi = mv[i as int];
            assert(mi == m@);
            proof {
                lemma_filter_push_chat(mv.take(i as int), is_sys, mi);
                lemma_filter_push_chat(mv.take(i as int), not_sys, mi);
                assert(mv.take(i + 1) =~= mv.take(i as int).push(mi));
            }
            if m.role == Role::System {
                let ghost before = system.deep_view();
                system.push(m.content.clone());
                assert(system.deep_view() =~= before.push(mi.content));
                assert(mv.take(i as int).filter(is_sys).push(mi).map_values(|x: ChatMessageView| x.content)
                    =~= mv.take(i as int).filter(is_sys).map_values(|x: ChatMessageView| x.content).push(mi.content));
            } else {
                let role = if m.role == Role::Assistant { "assistant".to_owned() } else { "user".to_owned() };
                let is_tool_result = m.role == Role::Tool && m.tool_call_id.is_some();
                let content = if is_tool_result {
                    let id = match &m.tool_call_id {
                        Some(id) => id.clone(),
                        None => String::new(),
                    };
                    AnthropicContent::Blocks(vec![ContentBlock::ToolResult { tool_use_id: id, content: m.content.clone() }])
                } else {
                    AnthropicContent::Text(m.content.clone())
                };
                let a = AnthropicMessage { role, content };
                assert(anthropic_message_ok(mi, a));
                out.push(a);
            }
            i = i + 1;
        }
        proof {
            assert(mv.take(mv.len() as int) =~= mv);
        }
        let sys = if system.len() == 0 {
            None
        } else {
            Some(join_strings(&system, "\n"))
        };
        (sys, out)
    }
}

/// The text blocks of an Anthropic answer, in order.
pub open spec fn text_blocks(blocks: Seq<ResponseBlock>) -> Seq<Seq<char>> {
    blocks.filter(|b: ResponseBlock| b is Text).map_values(|b: ResponseBlock| b->text@)
}

/// The tool-use blocks of an Anthropic answer, in order.
pub open spec fn tool_use_blocks(blocks: Seq<ResponseBlock>) -> Seq<ResponseBlock> {
    blocks.filter(|b: ResponseBlock| b is ToolUse)
}

proof fn lemma_filter_push_block(s: Seq<ResponseBlock>, keep: spec_fn(ResponseBlock) -> bool, e: ResponseBlock)
    ensures
        keep(e) ==> s.push(e).filter(keep) == s.filter(keep).push(e),
        !keep(e) ==> s.push(e).filter(keep) == s.filter(keep),
{
    reveal(Seq::filter);
    assert(s.push(e).drop_last() =~= s);
}

/// The text of an Anthropic answer: its text blocks, concatenated.
pub fn anthropic_extract_text(resp: &AnthropicResponse) -> (r: String)
    ensures
        r@ == join(text_blocks(resp.content@), Seq::empty()),
{
    let ghost bs = resp.content@;
    let ghost is_text = |b: ResponseBlock| b is Text;
    let mut parts: Vec<String> = Vec::new();
    let mut i: usize = 0;
    while i < resp.content.len()
        invariant
            i <= bs.len(),
            bs == resp.content@,
            is_text == (|b: ResponseBlock| b is Text),
            parts.deep_view() == bs.take(i as int).filter(is_text).map_values(|b: ResponseBlock| b->text@),
        decreases bs.len() - i,
    {
        proof {
            lemma_filter_push_block(bs.take(i as int), is_text, bs[i as int]);
            assert(bs.take(i + 1) =~= bs.take(i as int).push(bs[i as int]));
        }
        match &resp.content[i] {
            ResponseBlock::Text { text } => {
                let ghost before = parts.deep_view();
                parts.push(text.clone());
                assert(parts.deep_view() =~= before.push(text@));
                assert(bs.take(i as int).filter(is_text).push(bs[i as int]).map_values(|b: ResponseBlock| b->text@)
                    =~= bs.take(i as int).filter(is_text).map_values(|b: ResponseBlock| b->text@).push(text@));
            },
            _ => {},
        }
        i = i + 1;
    }
    assert(bs.take(bs.len() as int) =~= bs);
    proof {
        reveal_strlit("");
        assert(""@ =~= Seq::<char>::empty());
    }
    join_strings(&parts, "")
}

/// Reads an Anthropic answer: the text blocks, concatenated (none when
/// there is no text block), and one tool call per tool-use block, in order.
pub fn anthropic_extract_completion(resp: AnthropicResponse) -> (r: CompletionResponse)
    ensures
        text_blocks(resp.content@).len() == 0 ==> r.content is None,
        text_blocks(resp.content@).len() > 0 ==> r.content.deep_view() == Some(join(text_blocks(resp.content@), Seq::<char>::empty())),
        r.tool_calls@.len() == tool_use_blocks(resp.content@).len(),
        forall|i: int|
            0 <= i < r.tool_calls@.len() ==> match tool_use_blocks(resp.content@)[i] {
                ResponseBlock::ToolUse { id, name, input } => #[trigger] r.tool_calls@[i].id@ == id@
                    && r.tool_calls@[i].name@ == name@ && json_same(input, r.tool_calls@[i].arguments),
                _ => false,
            },
{
    let ghost bs = resp.content@;
    let ghost is_text = |b: ResponseBlock| b is Text;
    let ghost is_use = |b: ResponseBlock| b is ToolUse;
    let mut parts: Vec<String> = Vec::new();
    let mut calls: Vec<ToolCall> = Vec::new();
    let mut blocks = resp.content;
    let mut i: usize = 0;
    let n: usize = blocks.len();
    while i < n
        invariant
            i <= n == bs.len(),
            blocks@ == bs,
            is_text == (|b: ResponseBlock| b is Text),
            is_use == (|b: ResponseBlock| b is ToolUse),
            parts.deep_view() == bs.take(i as int).filter(is_text).map_values(|b: ResponseBlock| b->text@),
            calls@.len() == bs.take(i as int).filter(is_use).len(),
            forall|k: int|
                0 <= k < calls@.len() ==> match bs.take(i as int).filter(is_use)[k] {
                    ResponseBlock::ToolUse { id, name, input } => #[trigger] calls@[k].id@ == id@
                        && calls@[k].name@ == name@ && json_same(input, calls@[k].arguments),
                    _ => false,
                },
        decreases n - i,
    {
        proof {
            lemma_filter_push_block(bs.take(i as int), is_text, bs[i as int]);
            lemma_filter_push_block(bs.take(i as int), is_use, bs[i as int]);
            assert(bs.take(i + 1) =~= bs.take(i as int).push(bs[i as int]));
        }
        match &blocks[i] {
            ResponseBlock::Text { text } => {
                let ghost before = parts.deep_view();
                parts.push(text.clone());
                assert(parts.deep_view() =~= before.push(text@));
                assert(bs.take(i as int).filter(is_text).push(bs[i as int]).map_values(|b: ResponseBlock| b->text@)
                    =~= bs.take(i as int).filter(is_text).map_values(|b: ResponseBlock| b->text@).push(text@));
            },
            ResponseBlock::ToolUse { id, name, input } => {
                calls.push(ToolCall { id: id.clone(), name: name.clone(), arguments: clone_json(input) });
            },
        }
        i = i + 1;
    }
    assert(bs.take(bs.len() as int) =~= bs);
    let content = if parts.len() == 0 {
        None
    } else {
        Some(join_strings(&parts, ""))
    };
    proof {
        reveal_strlit("");
        assert(""@ =~= Seq::<char>::empty());
    }
    CompletionResponse { content, tool_calls: calls }
}

// ---------------------------------------------------------------------------
// Scripted model for local runs
// ---------------------------------------------------------------------------

/// One scripted answer, with the user message it expects to follow, if any.
#[derive(Debug)]
pub struct MockCompletionStep {
    pub expect_last_user_message: Option<String>,
    pub content: Option<String>,
    pub tool_calls: Vec<ToolCall>,
}

/// A model that gives scripted answers in order.
#[derive(Debug)]
pub struct MockProvider {
    pub model: String,
    pub steps: Vec<MockCompletionStep>,
}

/// `format!("{:?}", text)`.
pub uninterp spec fn debug_str(text: Seq<char>) -> Seq<char>;

/// `format!("{:?}", text)` (std's `Debug` for `str`: the text quoted, with
/// escapes).  The contract names the result only.
#[verifier::external_body]
pub(crate) fn debug_quoted(text: &str) -> (r: String)
    ensures
        r@ == debug_str(text@),
{
    format!("{:?}", text)
}

/// `{:?}` of an optional text.
pub open spec fn debug_opt(text: Option<Seq<char>>) -> Seq<char> {
    match text {
        Some(t) => "Some("@ + debug_str(t) + ")"@,
        None => "None"@,
    }
}

/// The text of the last user message, if any.
pub open spec fn last_user_text(ms: Seq<ChatMessageView>) -> Option<Seq<char>>
    decreases ms.len(),
{
    if ms.len() == 0 {
        None
    } else if ms.last().role == Role::User {
        Some(ms.last().content)
    } else {
        last_user_text(ms.drop_last())
    }
}

pub open spec fn exhausted_message() -> Seq<char> {
    "mock script exhausted before conversation completed"@
}

pub open spec fn mismatch_message(expected: Seq<char>, actual: Option<Seq<char>>) -> Seq<char> {
    "mock script expected last user message "@ + debug_str(expected) + ", got "@ + debug_opt(actual)
}

/// An answer of the scripted model: the text and tool calls of a step, or
/// the error.
pub open spec fn answer_parts(r: Result<CompletionResponse, LlmError>) -> Result<(Option<String>, Vec<ToolCall>), LlmErrorView> {
    match r {
        Ok(c) => Ok((c.content, c.tool_calls)),
        Err(e) => Err(e@),
    }
}

/// What one request to the scripted model does to the script and answers,
/// given the conversation `ms`: the first step is taken; it answers unless
/// it expects a last user message that is not there.
pub open spec fn script_step(steps: Seq<MockCompletionStep>, ms: Seq<ChatMessageView>) -> (
    Seq<MockCompletionStep>,
    Result<(Option<String>, Vec<ToolCall>), LlmErrorView>,
) {
    if steps.len() == 0 {
        (steps, Err(LlmErrorView::RequestFailed { reason: exhausted_message() }))
    } else {
        let step = steps[0];
        let actual = last_user_text(ms);
        (
            steps.drop_first(),
            match step.expect_last_user_message {
                Some(e) if actual != Some(e@) => Err(
                    LlmErrorView::RequestFailed { reason: mismatch_message(e@, actual) },
                ),
                _ => Ok((step.content, step.tool_calls)),
            },
        )
    }
}

/// Requests made one after the other with the conversations `convs`: the
/// script left, and the answers in order.
pub open spec fn script_run(steps: Seq<MockCompletionStep>, convs: Seq<Seq<ChatMessageView>>) -> (
    Seq<MockCompletionStep>,
    Seq<Result<(Option<String>, Vec<ToolCall>), LlmErrorView>>,
)
    decreases convs.len(),
{
    if convs.len() == 0 {
        (steps, Seq::empty())
    } else {
        let (left, answers) = script_run(steps, convs.drop_last());
        let (after, answer) = script_step(left, convs.last());
        (after, answers.push(answer))
    }
}

/// The k-th request to the scripted model is answered by the k-th step of
/// the script, as far as the script goes, and by the exhausted-script error
/// after its last step.
pub proof fn lemma_script_order(steps: Seq<MockCompletionStep>, convs: Seq<Seq<ChatMessageView>>)
    ensures
        script_run(steps, convs).0 == steps.skip(if convs.len() <= steps.len() { convs.len() as int } else { steps.len() as int }),
        script_run(steps, convs).1.len() == convs.len(),
        forall|i: int|
            0 <= i < convs.len() ==> #[trigger] script_run(steps, convs).1[i] == (if i < steps.len() {
                script_step(steps.skip(i), convs[i]).1
            } else {
                Err(LlmErrorView::RequestFailed { reason: exhausted_message() })
            }),
    decreases convs.len(),
{
    if convs.len() == 0 {
        assert(steps.skip(0) =~= steps);
    } else {
        let k = convs.len() - 1;
        lemma_script_order(steps, convs.drop_last());
        let left = script_run(steps, convs.drop_last()).0;
        let answers = script_run(steps, convs.drop_last()).1;
        if k < steps.len() {
            assert(left.drop_first() =~= steps.skip(k + 1));
        } else {
            assert(left.len() == 0);
        }
        assert forall|i: int| 0 <= i < convs.len() implies #[trigger] script_run(steps, convs).1[i] == (if i < steps.len() {
            script_step(steps.skip(i), convs[i]).1
        } else {
            Err(LlmErrorView::RequestFailed { reason: exhausted_message() })
        }) by {
            if i < k {
                assert(convs.drop_last()[i] == convs[i]);
                assert(script_run(steps, convs).1[i] == answers[i]);
            }
        }
    }
}

impl MockProvider {
    /// A scripted model; an empty script is refused.
    pub fn from_steps(steps: Vec<MockCompletionStep>, model: &str, script_name: &str) -> (r: Result<MockProvider, LlmError>)
        ensures
            steps@.len() == 0 <==> r is Err,
            r matches Ok(p) ==> p.model@ == model@ && p.steps@ == steps@,
            r matches Err(e) ==> e@ == (LlmErrorView::RequestFailed { reason: "mock script "@ + script_name@ + " is empty"@ }),
    {
        if steps.len() == 0 {
            return Err(LlmError::RequestFailed { reason: concat3("mock script ", script_name, " is empty") });
        }
        Ok(MockProvider { model: model.to_owned(), steps })
    }

    pub fn model_name(&self) -> (r: &str)
        ensures
            r@ == self.model@,
    {
        self.model.as_str()
    }

    /// The next scripted answer; it is taken from the script whether or not
    /// its expectation holds.  A step that expects a user message fails
    /// unless the last user message of `messages` is exactly that text.
    pub fn next_step(&mut self, messages: &Vec<ChatMessage>) -> (r: Result<CompletionResponse, LlmError>)
        ensures
            final(self).model == old(self).model,
            old(self).steps@.len() == 0 ==> final(self).steps@ == old(self).steps@ && (r matches Err(e)
                && e@ == (LlmErrorView::RequestFailed { reason: exhausted_message() })),
            (final(self).steps@, answer_parts(r)) == script_step(old(self).steps@, messages_view(messages@)),
            old(self).steps@.len() > 0 ==> {
                let step = old(self).steps@[0];
                let actual = last_user_text(messages_view(messages@));
                &&& final(self).steps@ == old(self).steps@.drop_first()
                &&& match step.expect_last_user_message {
                    Some(e) if actual != Some(e@) => r matches Err(err) && err@ == (LlmErrorView::RequestFailed {
                        reason: mismatch_message(e@, actual),
                    }),
                    _ => r matches Ok(c) && c.content == step.content && c.tool_calls == step.tool_calls,
                }
            },
    {
        if self.steps.len() == 0 {
            return Err(LlmError::RequestFailed { reason: "mock script exhausted before conversation completed".to_owned() });
        }
        let step = self.steps.remove(0);
        assert(self.steps@ =~= old(self).steps@.drop_first());
        let ghost mv = messages_view(messages@);
        let mut actual: Option<&str> = None;
        let mut found: bool = false;
        let mut j: usize = messages.len();
        assert(mv.take(mv.len() as int) =~= mv);
        while j > 0 && !found
            invariant
                j <= messages@.len(),
                mv == messages_view(messages@),
                !found ==> actual is None && last_user_text(mv) == last_user_text(mv.take(j as int)),
                found ==> (actual matches Some(a) && last_user_text(mv) == Some(a@)),
            decreases (if found { 0int } else { j + 1 }),
        {
            assert(mv.take(j as int).last() == messages@[j - 1]@);
            if messages[j - 1].role == Role::User {
                actual = Some(messages[j - 1].content.as_str());
                found = true;
            } else {
                assert(mv.take(j as int).drop_last() =~= mv.take(j - 1));
                j = j - 1;
            }
        }
        assert(!found ==> mv.take(j as int).len() == 0);
        assert(match actual { Some(a) => last_user_text(mv) == Some(a@), None => last_user_text(mv) is None });
        match &step.expect_last_user_message {
            Some(expected) => {
                let same = match actual {
                    Some(a) => str_eq(a, expected.as_str()),
                    None => false,
                };
                if !same {
                    let e = debug_quoted(expected.as_str());
                    let got = match actual {
                        Some(a) => {
                            let q = debug_quoted(a);
                            concat3("Some(", q.as_str(), ")")
                        },
                        None => "None".to_owned(),
                    };
                    let mut reason = concat3("mock script expected last user message ", e.as_str(), ", got ");
                    reason.append(got.as_str());
                    return Err(LlmError::RequestFailed { reason });
                }
            },
            None => {},
        }
        Ok(CompletionResponse { content: step.content, tool_calls: step.tool_calls })
    }
}

} // verus!
