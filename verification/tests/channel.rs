use resumeclaw::channel::ChannelManager;
use resumeclaw::channel::{discord_incoming, reply_channel_id, CliChannel, CliEvent, CliInput, IncomingMessage};

fn sent(e: CliEvent) -> IncomingMessage {
    match e {
        CliEvent::Send(m) => m,
        other => panic!("expected a message, got {:?}", other),
    }
}

fn notice(e: CliEvent) -> String {
    match e {
        CliEvent::Notice(n) => n,
        other => panic!("expected a notice, got {:?}", other),
    }
}

#[test]
fn cli_lines_become_numbered_messages() {
    assert_eq!(CliChannel.name(), "cli");
    let mut input = CliInput::new();
    assert!(matches!(input.on_line("   "), CliEvent::Ignore));
    let m = sent(input.on_line("  hello  "));
    assert_eq!(m.id, "1");
    assert_eq!(m.channel, "cli");
    assert_eq!(m.user_id, "local");
    assert_eq!(m.user_name, "user");
    assert_eq!(m.content, "hello");
    assert!(m.thread_id.is_none());
    assert_eq!(sent(input.on_line("again")).id, "2");
}

#[test]
fn cli_multiline_write_resume() {
    let mut input = CliInput::new();
    assert_eq!(
        notice(input.on_line("/write_resume")),
        "进入 /write_resume 多行输入模式；输入 /end 提交，输入 /cancel 取消。"
    );
    assert_eq!(
        notice(input.on_line("/end")),
        "未检测到任何内容；继续保持在 /write_resume 多行输入模式。"
    );
    assert!(matches!(input.on_line("\\documentclass{article}"), CliEvent::Ignore));
    assert!(matches!(input.on_line("  indented"), CliEvent::Ignore));
    let m = sent(input.on_line(" /end "));
    assert_eq!(m.content, "/write_resume \\documentclass{article}\n  indented");
    assert_eq!(m.id, "1");
    // back to normal input
    assert_eq!(sent(input.on_line("next")).content, "next");
}

#[test]
fn cli_multiline_can_be_cancelled() {
    let mut input = CliInput::new();
    notice(input.on_line("/write_resume"));
    assert!(matches!(input.on_line("draft"), CliEvent::Ignore));
    assert_eq!(notice(input.on_line("/cancel")), "已取消 /write_resume 多行输入。");
    assert_eq!(sent(input.on_line("/end")).content, "/end");
}

#[test]
fn discord_messages_of_bots_are_dropped() {
    assert!(discord_incoming(true, "1", "2", "bot", "hi", "3").is_none());
    let m = discord_incoming(false, "10", "20", "alice", "hi", "30").expect("human message");
    assert_eq!(m.channel, "discord");
    assert_eq!(m.user_name, "alice");
    assert_eq!(m.thread_id.as_deref(), Some("30"));
    assert_eq!(reply_channel_id(&m), Ok(30));
}

#[test]
fn reply_channel_falls_back_to_message_id() {
    let mut m = discord_incoming(false, "123456789012345678", "2", "a", "x", "c").expect("message");
    assert_eq!(reply_channel_id(&m), Err("invalid discord channel id".to_string()));
    m.thread_id = None;
    assert_eq!(reply_channel_id(&m), Ok(123456789012345678));
    m.id = "18446744073709551616".to_string();
    assert!(reply_channel_id(&m).is_err());
    m.id = "18446744073709551615".to_string();
    assert_eq!(reply_channel_id(&m), Ok(u64::MAX));
}

#[test]
fn replies_are_routed_to_the_channel_of_the_message() {
    let mut manager = ChannelManager::new();
    assert_eq!(manager.add("cli"), 0);
    assert_eq!(manager.add("discord"), 1);
    assert_eq!(manager.add("cli"), 0);
    let msg = discord_incoming(false, "1", "2", "a", "x", "3").expect("message");
    assert_eq!(manager.respond(&msg), Ok(1));
    let mut other = msg.clone();
    other.channel = "feishu".to_string();
    assert_eq!(manager.respond(&other), Err("unknown channel: feishu".to_string()));
    assert_eq!(manager.start_all(), Ok(()));
    assert_eq!(manager.start_all(), Err("channels already started".to_string()));
}
