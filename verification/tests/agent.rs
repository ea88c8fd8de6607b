use resumeclaw::agent::{
    direct_call_reply, direct_tool_usage, dev_command, find_definition, format_tool_list,
    parse_direct_tool_args, system_prompt, AgentAction, Conversation, DevCommand, Phase,
    MAX_TOOL_ROUNDS,
};
use resumeclaw::channel::{CliEvent, CliInput, IncomingMessage};
use resumeclaw::json::JsonValue;
use resumeclaw::llm::{CompletionResponse, LlmError, Role, ToolCall, ToolDefinition};
use resumeclaw::tools::{CompileResume, ReadResume, SendResumeEmail, ToolResult, WriteResume};

fn defs() -> Vec<ToolDefinition> {
    vec![
        ReadResume::new("/w").definition(),
        WriteResume::new("/w").definition(),
        CompileResume::new("/w").definition(),
        SendResumeEmail::new("/w").definition(),
    ]
}

fn cli(content: &str) -> IncomingMessage {
    IncomingMessage {
        id: "1".to_string(),
        channel: "cli".to_string(),
        user_id: "local".to_string(),
        user_name: "user".to_string(),
        content: content.to_string(),
        thread_id: None,
    }
}

fn call(id: &str, name: &str) -> ToolCall {
    ToolCall { id: id.to_string(), name: name.to_string(), arguments: JsonValue::empty_object() }
}

fn answer_with_calls(calls: Vec<ToolCall>) -> Result<CompletionResponse, LlmError> {
    Ok(CompletionResponse { content: None, tool_calls: calls })
}

fn text_answer(text: &str) -> Result<CompletionResponse, LlmError> {
    Ok(CompletionResponse { content: Some(text.to_string()), tool_calls: Vec::new() })
}

#[test]
fn conversation_runs_tools_then_replies_with_attachments() {
    let (mut conv, first) = Conversation::start("sys", "请编译");
    assert!(matches!(first, AgentAction::AskModel));
    assert_eq!(conv.messages().len(), 2);
    assert_eq!(conv.messages()[0].role, Role::System);
    assert_eq!(conv.messages()[1].content, "请编译");

    let next = conv.on_model_answer(answer_with_calls(vec![
        call("c1", "read_resume"),
        call("c2", "compile_resume"),
    ]));
    assert!(matches!(next, AgentAction::RunTool { index: 0 }));
    assert_eq!(conv.phase(), Phase::RunningTools);
    assert_eq!(conv.pending_call().name, "read_resume");

    let next = conv.on_tool_result(ToolResult::text("tex".to_string()));
    assert!(matches!(next, AgentAction::RunTool { index: 1 }));
    assert_eq!(conv.pending_call().id, "c2");

    let compiled = ToolResult {
        text: "Compilation successful. PDF generated.".to_string(),
        attachments: vec!["/w/resume.pdf".to_string()],
    };
    let next = conv.on_tool_result(compiled);
    assert!(matches!(next, AgentAction::AskModel));
    assert_eq!(conv.phase(), Phase::AwaitingModel);
    // system, user, assistant with calls, two tool results
    assert_eq!(conv.messages().len(), 5);
    assert_eq!(conv.messages()[3].role, Role::Tool);
    assert_eq!(conv.messages()[3].tool_call_id.as_deref(), Some("c1"));
    assert_eq!(conv.messages()[4].content, "Compilation successful. PDF generated.");

    match conv.on_model_answer(text_answer("done")) {
        AgentAction::Reply { text, attachments } => {
            assert_eq!(text, "done");
            assert_eq!(attachments, vec!["/w/resume.pdf".to_string()]);
        }
        other => panic!("unexpected action {:?}", other),
    }
    assert_eq!(conv.phase(), Phase::Finished);
}

#[test]
fn failed_model_request_is_apologised_for() {
    let (mut conv, _) = Conversation::start("sys", "hi");
    let err = LlmError::RequestFailed { reason: "boom".to_string() };
    match conv.on_model_answer(Err(err)) {
        AgentAction::Reply { text, attachments } => {
            assert_eq!(text, "Sorry, something went wrong: request failed: boom");
            assert!(attachments.is_empty());
        }
        other => panic!("unexpected action {:?}", other),
    }
}

#[test]
fn empty_answer_replies_with_empty_text() {
    let (mut conv, _) = Conversation::start("sys", "hi");
    match conv.on_model_answer(Ok(CompletionResponse { content: None, tool_calls: Vec::new() })) {
        AgentAction::Reply { text, attachments } => {
            assert_eq!(text, "");
            assert!(attachments.is_empty());
        }
        other => panic!("unexpected action {:?}", other),
    }
}

#[test]
fn conversation_stops_after_the_maximum_number_of_rounds() {
    let (mut conv, _) = Conversation::start("sys", "loop");
    let mut asks = 1;
    loop {
        let action = conv.on_model_answer(answer_with_calls(vec![call("c", "read_resume")]));
        assert!(matches!(action, AgentAction::RunTool { index: 0 }));
        let result = ToolResult { text: "x".to_string(), attachments: vec![format!("f{asks}")] };
        match conv.on_tool_result(result) {
            AgentAction::AskModel => asks += 1,
            AgentAction::Reply { text, attachments } => {
                assert_eq!(
                    text,
                    "I've reached the maximum number of steps. Please try again with a simpler request."
                );
                assert_eq!(attachments.len(), MAX_TOOL_ROUNDS);
                assert_eq!(attachments[0], "f1");
                break;
            }
            other => panic!("unexpected action {:?}", other),
        }
    }
    assert_eq!(asks, MAX_TOOL_ROUNDS);
    assert_eq!(MAX_TOOL_ROUNDS, 10);
}

#[test]
fn system_prompt_names_every_tool() {
    let p = system_prompt();
    for name in ["read_resume", "write_resume", "compile_resume", "send_resume_email"] {
        assert!(p.contains(name));
    }
}

#[test]
fn finds_tools_by_name() {
    let d = defs();
    assert_eq!(find_definition(&d, "compile_resume"), Some(2));
    assert_eq!(find_definition(&d, "nope"), None);
}

#[test]
fn usage_depends_on_arguments() {
    let d = defs();
    assert_eq!(direct_tool_usage(&d[0]), "/read_resume");
    assert_eq!(direct_tool_usage(&d[1]), "/write_resume <text or JSON args>");
    assert_eq!(direct_tool_usage(&d[3]), "/send_resume_email <JSON args>");
}

#[test]
fn tool_list_has_header_and_one_line_per_tool() {
    let d = defs();
    let text = format_tool_list(&d);
    let lines: Vec<&str> = text.split('\n').collect();
    assert_eq!(lines.len(), 4 + d.len());
    assert_eq!(lines[0], "开发模式 CLI 可直接调用以下工具：");
    assert_eq!(lines[1], "/list - 展示所有可直接调用的工具");
    assert_eq!(lines[3], "");
    assert!(lines[4].starts_with("- /read_resume: Read the current resume"));
    assert!(lines[5].starts_with("- /write_resume <text or JSON args>: "));
}

#[test]
fn direct_args_for_each_kind_of_text() {
    let d = defs();
    assert_eq!(parse_direct_tool_args(&d[0], ""), Ok(JsonValue::Object(Vec::new())));
    let raw = parse_direct_tool_args(&d[1], "\\documentclass{article}").expect("raw text");
    assert_eq!(
        raw,
        JsonValue::Object(vec![(
            "content".to_string(),
            JsonValue::Str("\\documentclass{article}".to_string())
        )])
    );
    let json = parse_direct_tool_args(&d[1], "{\"content\":\"abc\"}").expect("json object");
    assert_eq!(json.get("content").and_then(|v| v.as_str()), Some("abc"));
    assert_eq!(parse_direct_tool_args(&d[3], "[1,2]"), Err("参数必须是 JSON 对象".to_string()));
    let err = parse_direct_tool_args(&d[3], "not json").expect_err("not json");
    assert!(err.starts_with("参数不是合法 JSON："));
}

#[test]
fn dev_commands_only_in_dev_mode_on_the_command_line() {
    let d = defs();
    assert!(matches!(dev_command(false, &cli("/list"), &d), DevCommand::NotCommand));
    let mut discord = cli("/list");
    discord.channel = "discord".to_string();
    assert!(matches!(dev_command(true, &discord, &d), DevCommand::NotCommand));
    assert!(matches!(dev_command(true, &cli("hello"), &d), DevCommand::NotCommand));
}

#[test]
fn dev_list_and_unknown_commands() {
    let d = defs();
    match dev_command(true, &cli("  /LIST "), &d) {
        DevCommand::Reply(t) => assert_eq!(t, format_tool_list(&d)),
        other => panic!("unexpected {:?}", other),
    }
    match dev_command(true, &cli("/frobnicate x"), &d) {
        DevCommand::Reply(t) => {
            assert_eq!(t, "未知开发模式命令：/frobnicate\n输入 /list 查看可直接调用的工具。")
        }
        other => panic!("unexpected {:?}", other),
    }
}

#[test]
fn dev_invokes_a_tool_with_its_arguments() {
    let d = defs();
    match dev_command(true, &cli("/compile_resume"), &d) {
        DevCommand::Invoke { tool, args } => {
            assert_eq!(tool, 2);
            assert_eq!(args, JsonValue::Object(Vec::new()));
        }
        other => panic!("unexpected {:?}", other),
    }
    match dev_command(true, &cli("//write_resume  hello world "), &d) {
        DevCommand::Invoke { tool, args } => {
            assert_eq!(tool, 1);
            assert_eq!(args.get("content").and_then(|v| v.as_str()), Some("hello world"));
        }
        other => panic!("unexpected {:?}", other),
    }
}

#[test]
fn dev_refuses_bad_arguments_with_usage() {
    let d = defs();
    match dev_command(true, &cli("/send_resume_email 42"), &d) {
        DevCommand::Reply(t) => assert_eq!(
            t,
            "无法直接调用 /send_resume_email：参数必须是 JSON 对象\n参数示例：/send_resume_email <JSON args>"
        ),
        other => panic!("unexpected {:?}", other),
    }
}

#[test]
fn direct_call_reply_keeps_files() {
    let result = ToolResult { text: "ok".to_string(), attachments: vec!["a.pdf".to_string()] };
    let (text, files) = direct_call_reply("compile_resume", result);
    assert_eq!(text, "直接调用 /compile_resume 的结果：\nok");
    assert_eq!(files, vec!["a.pdf".to_string()]);
}

#[test]
fn multiline_entry_reaches_write_resume() {
    let d = defs();
    let mut input = CliInput::new();
    input.on_line("/write_resume");
    input.on_line("  \\documentclass{article}");
    input.on_line("\\begin{document}  ");
    let msg = match input.on_line("/end") {
        CliEvent::Send(m) => m,
        other => panic!("unexpected {:?}", other),
    };
    match dev_command(true, &msg, &d) {
        DevCommand::Invoke { tool, args } => {
            assert_eq!(tool, 1);
            assert_eq!(
                args.get("content").and_then(|v| v.as_str()),
                Some("\\documentclass{article}\n\\begin{document}")
            );
        }
        other => panic!("unexpected {:?}", other),
    }
}
