use std::collections::HashMap;

use resumeclaw::mailer::{
    check_outgoing, default_port, default_resume_attachment, EmailRequest, MailError, SmtpConfig,
    SmtpEnv, SmtpSecurity, transport_settings,
};

fn config_from(vars: &HashMap<&str, String>) -> Result<SmtpConfig, MailError> {
    SmtpConfig::from_lookup(|key: &str| vars.get(key).cloned())
}

#[test]
fn smtp_config_uses_starttls_defaults() {
    let vars = HashMap::from([
        ("SMTP_HOST", " smtp.example.com ".to_string()),
        ("SMTP_FROM", " bot@example.com ".to_string()),
        ("SMTP_ALLOWED_RECIPIENTS", " user@example.com ".to_string()),
        ("SMTP_USERNAME", " smtp-user ".to_string()),
        ("SMTP_PASSWORD", " smtp-pass ".to_string()),
        ("SMTP_FROM_NAME", " Resume Bot ".to_string()),
    ]);

    let config =
        SmtpConfig::from_lookup(|key| vars.get(key).cloned()).expect("config should parse");

    assert_eq!(config.host, "smtp.example.com");
    assert_eq!(config.port, 587);
    assert_eq!(config.from, "bot@example.com");
    assert_eq!(config.username.as_deref(), Some("smtp-user"));
    assert_eq!(config.password.as_deref(), Some("smtp-pass"));
    assert_eq!(config.from_name.as_deref(), Some("Resume Bot"));
    assert!(config.allows_recipient("USER@example.com"));
}

#[test]
fn smtp_config_requires_matching_credentials() {
    let vars = HashMap::from([
        ("SMTP_HOST", "smtp.example.com".to_string()),
        ("SMTP_FROM", "bot@example.com".to_string()),
        ("SMTP_ALLOWED_RECIPIENTS", "user@example.com".to_string()),
        ("SMTP_USERNAME", "user".to_string()),
    ]);

    let err =
        SmtpConfig::from_lookup(|key| vars.get(key).cloned()).expect_err("config should fail");
    assert!(err
        .to_string()
        .contains("SMTP_USERNAME and SMTP_PASSWORD must be set together"));
}

#[test]
fn smtp_config_uses_security_specific_default_ports() {
    let tls_vars = HashMap::from([
        ("SMTP_HOST", "smtp.example.com".to_string()),
        ("SMTP_FROM", "bot@example.com".to_string()),
        ("SMTP_ALLOWED_RECIPIENTS", "user@example.com".to_string()),
        ("SMTP_SECURITY", "tls".to_string()),
    ]);
    let plain_vars = HashMap::from([
        ("SMTP_HOST", "smtp.example.com".to_string()),
        ("SMTP_FROM", "bot@example.com".to_string()),
        ("SMTP_ALLOWED_RECIPIENTS", "user@example.com".to_string()),
        ("SMTP_SECURITY", "plain".to_string()),
    ]);

    let tls_config =
        SmtpConfig::from_lookup(|key| tls_vars.get(key).cloned()).expect("tls config should parse");
    let plain_config = SmtpConfig::from_lookup(|key| plain_vars.get(key).cloned())
        .expect("plain config should parse");

    assert_eq!(tls_config.port, 465);
    assert_eq!(plain_config.port, 25);
}

#[test]
fn smtp_config_requires_allowed_recipients() {
    let vars = HashMap::from([
        ("SMTP_HOST", "smtp.example.com".to_string()),
        ("SMTP_FROM", "bot@example.com".to_string()),
    ]);

    let err =
        SmtpConfig::from_lookup(|key| vars.get(key).cloned()).expect_err("config should fail");
    assert!(err
        .to_string()
        .contains("missing required environment variable SMTP_ALLOWED_RECIPIENTS"));
}

#[test]
fn default_attachment_points_to_resume_pdf() {
    let path = default_resume_attachment("/tmp/workspace");
    assert_eq!(path, "/tmp/workspace/resume.pdf");
}

fn base_vars() -> HashMap<&'static str, String> {
    HashMap::from([
        ("SMTP_HOST", "smtp.example.com".to_string()),
        ("SMTP_FROM", "bot@example.com".to_string()),
        ("SMTP_ALLOWED_RECIPIENTS", "user@example.com".to_string()),
    ])
}

#[test]
fn missing_host_is_reported_first() {
    let vars: HashMap<&str, String> = HashMap::new();
    let err = config_from(&vars).expect_err("config should fail");
    assert_eq!(err.to_string(), "missing required environment variable SMTP_HOST");
}

#[test]
fn blank_from_counts_as_missing() {
    let mut vars = base_vars();
    vars.insert("SMTP_FROM", "   ".to_string());
    let err = config_from(&vars).expect_err("config should fail");
    assert_eq!(err.to_string(), "missing required environment variable SMTP_FROM");
}

#[test]
fn security_is_case_insensitive_and_ssl_means_tls() {
    let mut vars = base_vars();
    vars.insert("SMTP_SECURITY", " SSL ".to_string());
    let config = config_from(&vars).expect("config should parse");
    assert_eq!(config.security, SmtpSecurity::Tls);
    assert_eq!(config.port, 465);
    assert_eq!(SmtpSecurity::parse("None").expect("none is plain"), SmtpSecurity::Plain);
    assert_eq!(SmtpSecurity::parse("StartTLS").expect("starttls"), SmtpSecurity::StartTls);
}

#[test]
fn unknown_security_is_rejected_with_lowercased_value() {
    let mut vars = base_vars();
    vars.insert("SMTP_SECURITY", " Quantum ".to_string());
    let err = config_from(&vars).expect_err("config should fail");
    assert_eq!(
        err.to_string(),
        "invalid SMTP_SECURITY 'quantum', expected one of: starttls, tls, plain"
    );
}

#[test]
fn explicit_port_wins_and_bad_port_is_rejected() {
    let mut vars = base_vars();
    vars.insert("SMTP_PORT", " 2525 ".to_string());
    assert_eq!(config_from(&vars).expect("port parses").port, 2525);

    vars.insert("SMTP_PORT", "+465".to_string());
    assert_eq!(config_from(&vars).expect("plus sign accepted").port, 465);

    vars.insert("SMTP_PORT", "70000".to_string());
    let err = config_from(&vars).expect_err("port out of range");
    assert_eq!(err.to_string(), "invalid SMTP_PORT '70000'");

    vars.insert("SMTP_PORT", "25a".to_string());
    let err = config_from(&vars).expect_err("port not a number");
    assert_eq!(err.to_string(), "invalid SMTP_PORT '25a'");
}

#[test]
fn allowed_recipients_are_normalized_and_blank_lists_rejected() {
    let mut vars = base_vars();
    vars.insert("SMTP_ALLOWED_RECIPIENTS", " A@Example.com , ,b@example.com,".to_string());
    let config = config_from(&vars).expect("config should parse");
    assert_eq!(config.allowed_recipients, vec!["a@example.com".to_string(), "b@example.com".to_string()]);
    assert!(config.allows_recipient("  a@EXAMPLE.com "));
    assert!(!config.allows_recipient("c@example.com"));

    vars.insert("SMTP_ALLOWED_RECIPIENTS", " , ".to_string());
    let err = config_from(&vars).expect_err("no recipient");
    assert_eq!(
        err.to_string(),
        "SMTP_ALLOWED_RECIPIENTS must contain at least one email address"
    );
}

#[test]
fn default_ports_by_security() {
    assert_eq!(default_port(SmtpSecurity::StartTls), 587);
    assert_eq!(default_port(SmtpSecurity::Tls), 465);
    assert_eq!(default_port(SmtpSecurity::Plain), 25);
}

#[test]
fn from_values_matches_lookup() {
    let env = SmtpEnv {
        host: Some("h".to_string()),
        from: Some("bot@example.com".to_string()),
        security: None,
        port: None,
        username: Some("u".to_string()),
        password: Some("p".to_string()),
        from_name: Some("   ".to_string()),
        allowed_recipients: Some("x@example.com".to_string()),
    };
    let config = SmtpConfig::from_values(&env).expect("config should parse");
    assert_eq!(config.host, "h");
    assert_eq!(config.from_name, None);
    assert_eq!(config.port, 587);
}

fn request(to: &str, path: &str) -> EmailRequest {
    EmailRequest {
        to: to.to_string(),
        subject: "s".to_string(),
        body: "b".to_string(),
        attachment_path: path.to_string(),
    }
}

#[test]
fn outgoing_checks_follow_the_allow_list() {
    let config = config_from(&base_vars()).expect("config should parse");
    let name = check_outgoing(&config, &request("User@Example.com", "/w/resume.pdf")).expect("allowed");
    assert_eq!(name, "resume.pdf");

    let err = check_outgoing(&config, &request("other@example.com", "/w/resume.pdf")).expect_err("not allowed");
    assert_eq!(
        err.to_string(),
        "recipient email address is not in SMTP_ALLOWED_RECIPIENTS: other@example.com"
    );

    let err = check_outgoing(&config, &request("not an address", "/w/resume.pdf")).expect_err("invalid");
    assert_eq!(err.to_string(), "invalid recipient email address: not an address");

    let name = check_outgoing(&config, &request("user@example.com", "/")).expect("allowed");
    assert_eq!(name, "resume.pdf");
}

#[test]
fn outgoing_checks_reject_a_bad_sender() {
    let mut vars = base_vars();
    vars.insert("SMTP_FROM", "bot-at-example".to_string());
    let config = config_from(&vars).expect("config should parse");
    let err = check_outgoing(&config, &request("user@example.com", "/w/cv.pdf")).expect_err("bad sender");
    assert_eq!(err.to_string(), "invalid SMTP_FROM 'bot-at-example'");
}

#[test]
fn error_messages_of_every_variant() {
    assert_eq!(MailError::Config("c".to_string()).to_string(), "c");
    assert_eq!(MailError::Build("b".to_string()).to_string(), "failed to build email: b");
    assert_eq!(
        MailError::Transport("t".to_string()).to_string(),
        "failed to configure SMTP transport: t"
    );
    assert_eq!(
        MailError::AttachmentRead { path: "/w/resume.pdf".to_string(), reason: "gone".to_string() }.to_string(),
        "failed to read attachment /w/resume.pdf: gone"
    );
    assert_eq!(MailError::Send("s".to_string()).to_string(), "failed to send email: s");
}

#[test]
fn transport_follows_security_and_credentials() {
    let mut vars = HashMap::from([
        ("SMTP_HOST", "smtp.example.com".to_string()),
        ("SMTP_FROM", "bot@example.com".to_string()),
        ("SMTP_ALLOWED_RECIPIENTS", "user@example.com".to_string()),
        ("SMTP_SECURITY", "tls".to_string()),
        ("SMTP_USERNAME", "u".to_string()),
        ("SMTP_PASSWORD", "p".to_string()),
    ]);
    let settings = transport_settings(&config_from(&vars).expect("config"));
    assert_eq!(settings.security, SmtpSecurity::Tls);
    assert_eq!(settings.host, "smtp.example.com");
    assert_eq!(settings.port, 465);
    assert_eq!(settings.credentials, Some(("u".to_string(), "p".to_string())));
    vars.remove("SMTP_USERNAME");
    vars.remove("SMTP_PASSWORD");
    vars.insert("SMTP_SECURITY", "plain".to_string());
    let settings = transport_settings(&config_from(&vars).expect("config"));
    assert_eq!(settings.security, SmtpSecurity::Plain);
    assert_eq!(settings.port, 25);
    assert!(settings.credentials.is_none());
}
