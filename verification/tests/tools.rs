use resumeclaw::tools::ToolRegistry;
use resumeclaw::json::JsonValue;
use resumeclaw::mailer::MailError;
use resumeclaw::tools::{
    last_lines, required_string, supports_raw_content_arg, tool_accepts_args, CompileResume,
    CompileRun, ReadResume, SendResumeEmail, WriteResume,
};

fn object(pairs: &[(&str, &str)]) -> JsonValue {
    JsonValue::Object(
        pairs
            .iter()
            .map(|(k, v)| (k.to_string(), JsonValue::Str(v.to_string())))
            .collect(),
    )
}

#[test]
fn rejects_missing_subject() {
    let tool = SendResumeEmail::new("/tmp/resumeclaw-email-tool");
    let result = tool
        .request_args(&object(&[("to", "user@example.com"), ("body", "hello")]))
        .expect_err("subject is missing");
    assert_eq!(result.text, "Error: missing 'subject' parameter");
    assert!(result.attachments.is_empty());
}

#[test]
fn requires_compiled_resume_pdf() {
    let tool = SendResumeEmail::new("/tmp/resumeclaw-email-tool");
    let (to, subject, body) = tool
        .request_args(&object(&[
            ("to", "user@example.com"),
            ("subject", "简历"),
            ("body", "附件是我的简历"),
        ]))
        .expect("arguments are complete");
    assert_eq!((to.as_str(), subject.as_str(), body.as_str()), ("user@example.com", "简历", "附件是我的简历"));
    let result = tool.missing_pdf();
    assert!(result.text.contains("Please call compile_resume first"));
    assert_eq!(
        result.text,
        "Error: resume attachment not found at /tmp/resumeclaw-email-tool/resume.pdf. Please call compile_resume first."
    );
}

#[test]
fn email_arguments_are_trimmed_and_checked_in_order() {
    let tool = SendResumeEmail::new("/w");
    let err = tool.request_args(&object(&[("subject", "s")])).expect_err("to missing");
    assert_eq!(err.text, "Error: missing 'to' parameter");
    let err = tool
        .request_args(&object(&[("to", "a@b.c"), ("subject", "s"), ("body", "   ")]))
        .expect_err("blank body");
    assert_eq!(err.text, "Error: missing 'body' parameter");
    let (to, _, _) = tool
        .request_args(&object(&[("to", "  a@b.c "), ("subject", "s"), ("body", "b")]))
        .expect("complete");
    assert_eq!(to, "a@b.c");
    let not_text = JsonValue::Object(vec![("to".to_string(), JsonValue::Number("1".to_string()))]);
    assert_eq!(required_string(&not_text, "to"), Err("Error: missing 'to' parameter".to_string()));
}

#[test]
fn email_outcome_reports_errors() {
    let tool = SendResumeEmail::new("/w");
    assert_eq!(
        tool.outcome(Ok(())).text,
        "Email sent successfully with the resume attachment."
    );
    let denied = tool.outcome(Err(MailError::RecipientNotAllowed("x@y.z".to_string())));
    assert_eq!(
        denied.text,
        "Failed to send resume email: recipient email address is not in SMTP_ALLOWED_RECIPIENTS: x@y.z"
    );
    assert_eq!(tool.attachment_path(), "/w/resume.pdf");
}

#[test]
fn read_resume_reports_content_or_error() {
    let tool = ReadResume::new("/w");
    assert_eq!(tool.resume_path(), "/w/resume.tex");
    assert_eq!(tool.outcome(Ok("tex".to_string())).text, "tex");
    assert_eq!(
        tool.outcome(Err("No such file".to_string())).text,
        "Error reading resume.tex: No such file"
    );
    assert!(!tool_accepts_args(&tool.definition()));
}

#[test]
fn write_resume_counts_bytes() {
    let tool = WriteResume::new("/w");
    let d = tool.definition();
    assert!(tool_accepts_args(&d));
    assert!(supports_raw_content_arg(&d));
    assert_eq!(tool.outcome("简历", Ok(())).text, "Successfully wrote 6 bytes to resume.tex");
    assert_eq!(tool.outcome("", Ok(())).text, "Successfully wrote 0 bytes to resume.tex");
    assert_eq!(
        tool.outcome("x", Err("denied".to_string())).text,
        "Error writing resume.tex: denied"
    );
    let args = object(&[("content", "\\documentclass{article}")]);
    assert_eq!(tool.content_arg(&args).expect("content"), "\\documentclass{article}");
    let missing = tool.content_arg(&JsonValue::Object(Vec::new())).expect_err("missing");
    assert_eq!(missing.text, "Error: missing 'content' parameter");
}

#[test]
fn compile_resume_uses_tectonic_and_returns_pdf_attachment() {
    let tool = CompileResume::new("/tmp/tectonic-compile");
    let run = CompileRun { success: true, stdout: String::new(), stderr: String::new() };
    let result = tool.outcome(Ok(run), true);
    assert_eq!(result.text, "Compilation successful. PDF generated.");
    assert_eq!(result.attachments, vec!["/tmp/tectonic-compile/resume.pdf".to_string()]);
}

#[test]
fn compile_outcomes() {
    let tool = CompileResume::new("/w");
    let ok = CompileRun { success: true, stdout: String::new(), stderr: String::new() };
    let no_pdf = tool.outcome(Ok(ok), false);
    assert_eq!(no_pdf.text, "tectonic exited successfully but resume.pdf was not found.");
    assert!(no_pdf.attachments.is_empty());
    let not_started = tool.outcome(Err("not found".to_string()), false);
    assert_eq!(not_started.text, "Failed to run tectonic: not found. Is tectonic installed?");
    let failed = CompileRun {
        success: false,
        stdout: "l1\nl2".to_string(),
        stderr: "boom".to_string(),
    };
    assert_eq!(
        tool.outcome(Err(String::new()), false).attachments.len(),
        0
    );
    assert_eq!(
        tool.outcome(Ok(failed), true).text,
        "Compilation failed.\n\nstderr:\nboom\n\nlog (last 50 lines):\nl1\nl2"
    );
}

#[test]
fn log_tail_keeps_the_last_fifty_lines() {
    let log: Vec<String> = (1..=60).map(|i| format!("line{i}")).collect();
    let tail = last_lines(&log.join("\n"));
    let kept: Vec<&str> = tail.split('\n').collect();
    assert_eq!(kept.len(), 50);
    assert_eq!(kept[0], "line11");
    assert_eq!(kept[49], "line60");
    assert_eq!(last_lines("a\r\nb\n"), "a\nb");
    assert_eq!(last_lines(""), "");
}

#[test]
fn registry_routes_calls_by_name() {
    let mut registry = ToolRegistry::new();
    registry.register(ReadResume::new("/w").definition());
    registry.register(CompileResume::new("/w").definition());
    assert_eq!(registry.definitions().len(), 2);
    assert_eq!(registry.definition("compile_resume").map(|d| d.name.as_str()), Some("compile_resume"));
    assert!(registry.definition("write_resume").is_none());
    assert_eq!(registry.execute("read_resume").expect("registered"), 0);
    assert_eq!(registry.execute("compile_resume").expect("registered"), 1);
    let unknown = registry.execute("send_resume_email").expect_err("not registered");
    assert_eq!(unknown.text, "Unknown tool: send_resume_email");
    assert!(unknown.attachments.is_empty());
}

#[test]
fn written_resume_reads_back_unchanged() {
    let writer = WriteResume::new("/w");
    let reader = ReadResume::new("/w");
    assert_eq!(writer.resume_path(), reader.resume_path());
    let args = object(&[("content", "\\documentclass{article}\n简历\n")]);
    let content = writer.content_arg(&args).expect("content");
    // The file holds what was written.
    let stored = content.to_string();
    assert_eq!(writer.outcome(content, Ok(())).text, "Successfully wrote 31 bytes to resume.tex");
    assert_eq!(reader.outcome(Ok(stored)).text, content);
}
