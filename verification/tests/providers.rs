use resumeclaw::providers::response_error;
use std::collections::HashMap;

use resumeclaw::json::JsonValue;
use resumeclaw::llm::{ChatMessage, LlmError, Role, ToolCall};
use resumeclaw::providers::{
    anthropic_extract_completion, anthropic_extract_text, create_provider, default_tool_type,
    env_or_err, openai_compat_preset, openai_extract_completion, openai_extract_text,
    AnthropicContent, AnthropicProvider, AnthropicResponse, ApiChoice, ApiChoiceMessage,
    ApiFunction, ApiResponse, ApiToolCall, ContentBlock, MockCompletionStep, MockProvider,
    OpenAiCompatProvider, ProviderChoice, ResponseBlock,
};

fn select(provider: &str, vars: &[(&str, &str)]) -> Result<ProviderChoice, LlmError> {
    let vars: HashMap<String, String> =
        vars.iter().map(|(k, v)| (k.to_string(), v.to_string())).collect();
    create_provider(provider, "m", |key: &str| vars.get(key).cloned())
}

fn error_text(r: Result<ProviderChoice, LlmError>) -> String {
    match r {
        Err(e) => e.to_string(),
        Ok(p) => panic!("expected an error, got {:?}", p),
    }
}

#[test]
fn presets_of_known_services() {
    let p = openai_compat_preset("deepseek").expect("deepseek");
    assert_eq!((p.base_url, p.env_key), ("https://api.deepseek.com", "DEEPSEEK_API_KEY"));
    assert_eq!(openai_compat_preset("ollama").expect("ollama").env_key, "");
    assert!(openai_compat_preset("unknown").is_none());
}

#[test]
fn providers_are_chosen_from_the_environment() {
    match select("anthropic", &[("ANTHROPIC_API_KEY", "k")]).expect("anthropic") {
        ProviderChoice::Anthropic(p) => {
            assert_eq!(p.api_key, "k");
            assert_eq!(p.endpoint(), "https://api.anthropic.com/v1/messages");
            assert_eq!(p.model_name(), "m");
        }
        other => panic!("unexpected {:?}", other),
    }
    match select("custom", &[("LLM_BASE_URL", "http://h:1/"), ("LLM_API_KEY", "s")]).expect("custom") {
        ProviderChoice::OpenAiCompat(p) => {
            assert_eq!(p.base_url, "http://h:1");
            assert_eq!(p.endpoint(), "http://h:1/v1/chat/completions");
            assert_eq!(p.authorization(), "Bearer s");
        }
        other => panic!("unexpected {:?}", other),
    }
    match select("custom", &[("LLM_BASE_URL", "http://h")]).expect("custom without key") {
        ProviderChoice::OpenAiCompat(p) => assert_eq!(p.api_key, ""),
        other => panic!("unexpected {:?}", other),
    }
    match select("ollama", &[]).expect("ollama needs no key") {
        ProviderChoice::OpenAiCompat(p) => assert_eq!(p.base_url, "http://localhost:11434"),
        other => panic!("unexpected {:?}", other),
    }
}

#[test]
fn missing_keys_and_unknown_providers_are_refused() {
    assert_eq!(
        error_text(select("openai", &[])),
        "auth failed for provider openai: OPENAI_API_KEY not set"
    );
    assert_eq!(
        error_text(select("custom", &[("LLM_API_KEY", "x")])),
        "auth failed for provider custom: LLM_BASE_URL not set"
    );
    assert_eq!(error_text(select("mystery", &[])), "unsupported provider: mystery");
    assert!(env_or_err(Some("v".to_string()), "K", "p").is_ok());
}

#[test]
fn messages_are_laid_out_for_chat_completions() {
    let p = OpenAiCompatProvider::new("https://x//", "k", "m");
    assert_eq!(p.base_url, "https://x");
    let call = ToolCall {
        id: "c1".to_string(),
        name: "read_resume".to_string(),
        arguments: JsonValue::empty_object(),
    };
    let messages = vec![
        ChatMessage::system("sys"),
        ChatMessage::assistant_with_tools(String::new(), vec![call]),
        ChatMessage::tool_result("c1", "tex"),
        ChatMessage::assistant(""),
    ];
    let out = p.build_messages(&messages);
    assert_eq!(out.len(), 4);
    assert_eq!(out[0].content.as_deref(), Some("sys"));
    assert!(out[0].tool_calls.is_none());
    assert!(out[1].content.is_none());
    let calls = out[1].tool_calls.as_ref().expect("calls");
    assert_eq!(calls[0].tool_type, "function");
    assert_eq!(calls[0].name, "read_resume");
    assert_eq!(out[2].tool_call_id.as_deref(), Some("c1"));
    assert_eq!(out[2].role, Role::Tool);
    assert!(out[3].content.is_none());
    assert_eq!(default_tool_type(), "function");
}

#[test]
fn chat_completion_answers_are_read() {
    let resp = ApiResponse {
        choices: vec![ApiChoice {
            message: ApiChoiceMessage {
                content: Some("hi".to_string()),
                tool_calls: vec![
                    ApiToolCall {
                        id: "a".to_string(),
                        tool_type: "function".to_string(),
                        function: ApiFunction {
                            name: "write_resume".to_string(),
                            arguments: "{\"content\":\"x\"}".to_string(),
                        },
                    },
                    ApiToolCall {
                        id: "b".to_string(),
                        tool_type: "function".to_string(),
                        function: ApiFunction {
                            name: "read_resume".to_string(),
                            arguments: "not json".to_string(),
                        },
                    },
                ],
            },
        }],
    };
    assert_eq!(openai_extract_text(&resp), "hi");
    let c = openai_extract_completion(&resp);
    assert_eq!(c.content.as_deref(), Some("hi"));
    assert_eq!(c.tool_calls.len(), 2);
    assert_eq!(
        c.tool_calls[0].arguments,
        JsonValue::Object(vec![("content".to_string(), JsonValue::Str("x".to_string()))])
    );
    assert_eq!(c.tool_calls[1].arguments, JsonValue::Object(Vec::new()));
    let empty = openai_extract_completion(&ApiResponse { choices: Vec::new() });
    assert!(empty.content.is_none() && empty.tool_calls.is_empty());
    assert_eq!(openai_extract_text(&ApiResponse { choices: Vec::new() }), "");
}

#[test]
fn anthropic_keeps_the_system_prompt_apart() {
    let p = AnthropicProvider::new("k", "m");
    let messages = vec![
        ChatMessage::system("a"),
        ChatMessage::user("u"),
        ChatMessage::system("b"),
        ChatMessage::assistant("x"),
        ChatMessage::tool_result("t1", "out"),
    ];
    let (system, rest) = p.split_messages(&messages);
    assert_eq!(system.as_deref(), Some("a\nb"));
    assert_eq!(rest.len(), 3);
    assert_eq!(rest[0].role, "user");
    assert_eq!(rest[1].role, "assistant");
    assert_eq!(rest[2].role, "user");
    match &rest[2].content {
        AnthropicContent::Blocks(bs) => match &bs[0] {
            ContentBlock::ToolResult { tool_use_id, content } => {
                assert_eq!(tool_use_id, "t1");
                assert_eq!(content, "out");
            }
        },
        other => panic!("unexpected {:?}", other),
    }
    let (none, _) = p.split_messages(&vec![ChatMessage::user("u")]);
    assert!(none.is_none());
}

#[test]
fn anthropic_answers_are_read() {
    let blocks = vec![
        ResponseBlock::Text { text: "a".to_string() },
        ResponseBlock::ToolUse {
            id: "u1".to_string(),
            name: "compile_resume".to_string(),
            input: JsonValue::empty_object(),
        },
        ResponseBlock::Text { text: "b".to_string() },
    ];
    assert_eq!(anthropic_extract_text(&AnthropicResponse { content: Vec::new() }), "");
    let c = anthropic_extract_completion(AnthropicResponse { content: blocks });
    assert_eq!(c.content.as_deref(), Some("ab"));
    assert_eq!(c.tool_calls.len(), 1);
    assert_eq!(c.tool_calls[0].id, "u1");
    let none = anthropic_extract_completion(AnthropicResponse { content: Vec::new() });
    assert!(none.content.is_none());
}

fn step(expect: Option<&str>, content: &str) -> MockCompletionStep {
    MockCompletionStep {
        expect_last_user_message: expect.map(str::to_string),
        content: Some(content.to_string()),
        tool_calls: Vec::new(),
    }
}

#[test]
fn mock_script_answers_in_order() {
    let empty = MockProvider::from_steps(Vec::new(), "mock", "s.json").expect_err("empty script");
    assert_eq!(empty.to_string(), "request failed: mock script s.json is empty");

    let mut mock = MockProvider::from_steps(
        vec![step(Some("hi"), "one"), step(None, "two"), step(Some("bye"), "three")],
        "mock-dev",
        "s.json",
    )
    .expect("script");
    assert_eq!(mock.model_name(), "mock-dev");
    let conv = vec![ChatMessage::system("s"), ChatMessage::user("hi"), ChatMessage::assistant("x")];
    assert_eq!(mock.next_step(&conv).expect("first").content.as_deref(), Some("one"));
    assert_eq!(mock.next_step(&Vec::new()).expect("second").content.as_deref(), Some("two"));
    let err = mock.next_step(&conv).expect_err("mismatch");
    assert_eq!(
        err.to_string(),
        "request failed: mock script expected last user message \"bye\", got Some(\"hi\")"
    );
    let err = mock.next_step(&conv).expect_err("exhausted");
    assert_eq!(
        err.to_string(),
        "request failed: mock script exhausted before conversation completed"
    );
}

#[test]
fn mock_mismatch_without_user_message() {
    let mut mock = MockProvider::from_steps(vec![step(Some("a\"b"), "x")], "m", "s").expect("script");
    let err = mock.next_step(&vec![ChatMessage::system("s")]).expect_err("no user message");
    assert_eq!(
        err.to_string(),
        "request failed: mock script expected last user message \"a\\\"b\", got None"
    );
}

#[test]
fn http_statuses_become_errors() {
    assert!(response_error(200, "200 OK", "", "m").is_none());
    assert!(response_error(204, "204 No Content", "", "m").is_none());
    assert_eq!(
        response_error(401, "401 Unauthorized", "", "deepseek-chat").expect("auth").to_string(),
        "auth failed for provider deepseek-chat"
    );
    assert_eq!(
        response_error(429, "429 Too Many Requests", "slow down", "m").expect("failure").to_string(),
        "request failed: HTTP 429 Too Many Requests: slow down"
    );
    assert!(response_error(302, "302 Found", "", "m").is_some());
}

#[test]
fn mock_selects_the_scripted_model() {
    match select("mock", &[("MOCK_LLM_SCRIPT_PATH", "/tmp/mock-llm.json")]).expect("mock") {
        ProviderChoice::Scripted { model, script_path } => {
            assert_eq!(model, "m");
            assert_eq!(script_path, "/tmp/mock-llm.json");
        }
        other => panic!("unexpected {:?}", other),
    }
    assert_eq!(
        error_text(select("mock", &[])),
        "auth failed for provider mock: MOCK_LLM_SCRIPT_PATH not set"
    );
}
