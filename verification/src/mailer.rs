//! SMTP settings and the checks made before a resume is mailed.
//!
//! The settings come from environment variables; every rule about them
//! (required keys, trimming, default ports, the recipient allow-list) is
//! decided here.  Talking to the SMTP server is left to the caller.

use vstd::prelude::*;
use crate::text::{
    concat2, concat3, lemma_trim_lower_idempotent, lower, owned,
    parse_unsigned, parse_unsigned_str, split, split_char, to_ascii_lowercase, trim, trim_str,
};
use crate::json::str_eq;
use crate::workspace::{file_name, file_name_of, join_path, path_join};

verus! {

// ---------------------------------------------------------------------------
// Errors
// ---------------------------------------------------------------------------

/// Why mailing failed.
#[derive(Debug)]
pub enum MailError {
    Config(String),
    InvalidRecipient(String),
    RecipientNotAllowed(String),
    Build(String),
    Transport(String),
    AttachmentRead { path: String, reason: String },
    Send(String),
}

pub enum MailErrorView {
    Config(Seq<char>),
    InvalidRecipient(Seq<char>),
    RecipientNotAllowed(Seq<char>),
    Build(Seq<char>),
    Transport(Seq<char>),
    AttachmentRead { path: Seq<char>, reason: Seq<char> },
    Send(Seq<char>),
}

impl View for MailError {
    type V = MailErrorView;

    open spec fn view(&self) -> MailErrorView {
        match self {
            MailError::Config(s) => MailErrorView::Config(s@),
            MailError::InvalidRecipient(s) => MailErrorView::InvalidRecipient(s@),
            MailError::RecipientNotAllowed(s) => MailErrorView::RecipientNotAllowed(s@),
            MailError::Build(s) => MailErrorView::Build(s@),
            MailError::Transport(s) => MailErrorView::Transport(s@),
            MailError::AttachmentRead { path, reason } => MailErrorView::AttachmentRead {
                path: path@,
                reason: reason@,
            },
            MailError::Send(s) => MailErrorView::Send(s@),
        }
    }
}

/// The text that describes a mailing error.
pub open spec fn mail_error_text(e: MailErrorView) -> Seq<char> {
    match e {
        MailErrorView::Config(s) => s,
        MailErrorView::InvalidRecipient(s) => "invalid recipient email address: "@ + s,
        MailErrorView::RecipientNotAllowed(s) => "recipient email address is not in SMTP_ALLOWED_RECIPIENTS: "@
            + s,
        MailErrorView::Build(s) => "failed to build email: "@ + s,
        MailErrorView::Transport(s) => "failed to configure SMTP transport: "@ + s,
        MailErrorView::AttachmentRead { path, reason } => "failed to read attachment "@ + path
            + ": "@ + reason,
        MailErrorView::Send(s) => "failed to send email: "@ + s,
    }
}

impl MailError {
    /// The error's message.
    pub fn to_string(&self) -> (r: String)
        ensures
            r@ == mail_error_text(self@),
    {
        match self {
            MailError::Config(s) => s.clone(),
            MailError::InvalidRecipient(s) => concat2(
                "invalid recipient email address: ",
                s.as_str(),
            ),
            MailError::RecipientNotAllowed(s) => concat2(
                "recipient email address is not in SMTP_ALLOWED_RECIPIENTS: ",
                s.as_str(),
            ),
            MailError::Build(s) => concat2("failed to build email: ", s.as_str()),
            MailError::Transport(s) => concat2("failed to configure SMTP transport: ", s.as_str()),
            MailError::AttachmentRead { path, reason } => {
                let mut r = concat3("failed to read attachment ", path.as_str(), ": ");
                r.append(reason.as_str());
                r
            },
            MailError::Send(s) => concat2("failed to send email: ", s.as_str()),
        }
    }
}

// ---------------------------------------------------------------------------
// Security mode and ports
// ---------------------------------------------------------------------------

/// How the SMTP connection is secured.
#[derive(Debug, Clone, Copy, PartialEq, Eq, Structural)]
pub enum SmtpSecurity {
    StartTls,
    Tls,
    Plain,
}

/// The mode a (trimmed, lower-cased) setting names.
pub open spec fn security_named(v: Seq<char>) -> Option<SmtpSecurity> {
    if v == "starttls"@ {
        Some(SmtpSecurity::StartTls)
    } else if v == "tls"@ || v == "ssl"@ {
        Some(SmtpSecurity::Tls)
    } else if v == "plain"@ || v == "none"@ {
        Some(SmtpSecurity::Plain)
    } else {
        None
    }
}

pub open spec fn invalid_security_message(v: Seq<char>) -> Seq<char> {
    "invalid SMTP_SECURITY '"@ + v + "', expected one of: starttls, tls, plain"@
}

/// What `SmtpSecurity::parse` returns for a setting.
pub open spec fn parse_security(value: Seq<char>) -> Result<SmtpSecurity, MailErrorView> {
    let v = lower(trim(value));
    match security_named(v) {
        Some(s) => Ok(s),
        None => Err(MailErrorView::Config(invalid_security_message(v))),
    }
}

/// The port used when none is configured.
pub open spec fn default_port_spec(security: SmtpSecurity) -> u16 {
    match security {
        SmtpSecurity::StartTls => 587,
        SmtpSecurity::Tls => 465,
        SmtpSecurity::Plain => 25,
    }
}

pub fn default_port(security: SmtpSecurity) -> (p: u16)
    ensures
        p == default_port_spec(security),
{
    match security {
        SmtpSecurity::StartTls => 587,
        SmtpSecurity::Tls => 465,
        SmtpSecurity::Plain => 25,
    }
}

impl SmtpSecurity {
    /// Reads a security mode, ignoring surrounding whitespace and ASCII case.
    pub fn parse(value: &str) -> (r: Result<SmtpSecurity, MailError>)
        ensures
            match (r, parse_security(value@)) {
                (Ok(a), Ok(b)) => a == b,
                (Err(e), Err(f)) => e@ == f,
                _ => false,
            },
    {
        let t = trim_str(value);
        let v = to_ascii_lowercase(t.as_str());
        if str_eq(v.as_str(), "starttls") {
            Ok(SmtpSecurity::StartTls)
        } else if str_eq(v.as_str(), "tls") || str_eq(v.as_str(), "ssl") {
            Ok(SmtpSecurity::Tls)
        } else if str_eq(v.as_str(), "plain") || str_eq(v.as_str(), "none") {
            Ok(SmtpSecurity::Plain)
        } else {
            let m = concat3(
                "invalid SMTP_SECURITY '",
                v.as_str(),
                "', expected one of: starttls, tls, plain",
            );
            proof {
                assert(m@ =~= invalid_security_message(lower(trim(value@))));
            }
            Err(MailError::Config(m))
        }
    }
}

// ---------------------------------------------------------------------------
// Settings
// ---------------------------------------------------------------------------

/// The raw values of the SMTP environment variables (`None` when unset).
pub struct SmtpEnv {
    pub host: Option<String>,
    pub from: Option<String>,
    pub security: Option<String>,
    pub port: Option<String>,
    pub username: Option<String>,
    pub password: Option<String>,
    pub from_name: Option<String>,
    pub allowed_recipients: Option<String>,
}

pub struct SmtpEnvView {
    pub host: Option<Seq<char>>,
    pub from: Option<Seq<char>>,
    pub security: Option<Seq<char>>,
    pub port: Option<Seq<char>>,
    pub username: Option<Seq<char>>,
    pub password: Option<Seq<char>>,
    pub from_name: Option<Seq<char>>,
    pub allowed_recipients: Option<Seq<char>>,
}

impl View for SmtpEnv {
    type V = SmtpEnvView;

    open spec fn view(&self) -> SmtpEnvView {
        SmtpEnvView {
            host: self.host.deep_view(),
            from: self.from.deep_view(),
            security: self.security.deep_view(),
            port: self.port.deep_view(),
            username: self.username.deep_view(),
            password: self.password.deep_view(),
            from_name: self.from_name.deep_view(),
            allowed_recipients: self.allowed_recipients.deep_view(),
        }
    }
}

/// SMTP settings.
#[derive(Debug, Clone)]
pub struct SmtpConfig {
    pub host: String,
    pub port: u16,
    pub username: Option<String>,
    pub password: Option<String>,
    pub from: String,
    pub from_name: Option<String>,
    pub security: SmtpSecurity,
    pub allowed_recipients: Vec<String>,
}

pub struct SmtpConfigView {
    pub host: Seq<char>,
    pub port: u16,
    pub username: Option<Seq<char>>,
    pub password: Option<Seq<char>>,
    pub from: Seq<char>,
    pub from_name: Option<Seq<char>>,
    pub security: SmtpSecurity,
    pub allowed_recipients: Seq<Seq<char>>,
}

impl View for SmtpConfig {
    type V = SmtpConfigView;

    open spec fn view(&self) -> SmtpConfigView {
        SmtpConfigView {
            host: self.host@,
            port: self.port,
            username: self.username.deep_view(),
            password: self.password.deep_view(),
            from: self.from@,
            from_name: self.from_name.deep_view(),
            security: self.security,
            allowed_recipients: self.allowed_recipients.deep_view(),
        }
    }
}

/// A setting with surrounding whitespace removed; blank counts as unset.
pub open spec fn setting(raw: Option<Seq<char>>) -> Option<Seq<char>> {
    match raw {
        Some(v) => if trim(v).len() > 0 {
            Some(trim(v))
        } else {
            None
        },
        None => None,
    }
}

pub open spec fn missing_message(key: Seq<char>) -> Seq<char> {
    "missing required environment variable "@ + key
}

/// A recipient address as compared against the allow-list.
pub open spec fn normalize(v: Seq<char>) -> Seq<char> {
    lower(trim(v))
}

/// The addresses of a comma-separated allow-list, normalized, blanks dropped.
pub open spec fn recipient_list(raw: Seq<char>) -> Seq<Seq<char>> {
    split(raw, ',').map_values(|p: Seq<char>| normalize(p)).filter(|p: Seq<char>| p.len() > 0)
}

pub open spec fn invalid_port_message(v: Seq<char>) -> Seq<char> {
    "invalid SMTP_PORT '"@ + v + "'"@
}

pub open spec fn credentials_message() -> Seq<char> {
    "SMTP_USERNAME and SMTP_PASSWORD must be set together"@
}

pub open spec fn empty_recipients_message() -> Seq<char> {
    "SMTP_ALLOWED_RECIPIENTS must contain at least one email address"@
}

/// The settings that the environment `env` describes, or the first problem
/// with it.  Keys are checked in this order: `SMTP_HOST`, `SMTP_FROM`,
/// `SMTP_SECURITY` (default `starttls`), `SMTP_PORT` (default by security),
/// `SMTP_USERNAME`/`SMTP_PASSWORD` (both or neither), `SMTP_FROM_NAME`,
/// `SMTP_ALLOWED_RECIPIENTS` (at least one address).
pub open spec fn smtp_config_spec(env: SmtpEnvView) -> Result<SmtpConfigView, MailErrorView> {
    match (setting(env.host), setting(env.from)) {
        (None, _) => Err(MailErrorView::Config(missing_message("SMTP_HOST"@))),
        (Some(_), None) => Err(MailErrorView::Config(missing_message("SMTP_FROM"@))),
        (Some(host), Some(from)) => {
            let sec_text = match setting(env.security) {
                Some(s) => s,
                None => "starttls"@,
            };
            match parse_security(sec_text) {
                Err(e) => Err(e),
                Ok(security) => {
                    let port: Result<u16, MailErrorView> = match setting(env.port) {
                        Some(p) => match parse_unsigned(p, 65535) {
                            Some(n) => Ok(n as u16),
                            None => Err(MailErrorView::Config(invalid_port_message(p))),
                        },
                        None => Ok(default_port_spec(security)),
                    };
                    match port {
                        Err(e) => Err(e),
                        Ok(port) => {
                            let username = setting(env.username);
                            let password = setting(env.password);
                            if username.is_some() != password.is_some() {
                                Err(MailErrorView::Config(credentials_message()))
                            } else {
                                match setting(env.allowed_recipients) {
                                    None => Err(
                                        MailErrorView::Config(
                                            missing_message("SMTP_ALLOWED_RECIPIENTS"@),
                                        ),
                                    ),
                                    Some(raw) => if recipient_list(raw).len() == 0 {
                                        Err(MailErrorView::Config(empty_recipients_message()))
                                    } else {
                                        Ok(
                                            SmtpConfigView {
                                                host,
                                                port,
                                                username,
                                                password,
                                                from,
                                                from_name: setting(env.from_name),
                                                security,
                                                allowed_recipients: recipient_list(raw),
                                            },
                                        )
                                    },
                                }
                            }
                        },
                    }
                },
            }
        },
    }
}

/// The trimmed value of a setting; `None` when unset or blank.
pub fn get_trimmed(raw: &Option<String>) -> (r: Option<String>)
    ensures
        r.deep_view() == setting(raw.deep_view()),
{
    match raw {
        Some(v) => {
            let t = trim_str(v.as_str());
            if t.as_str().is_empty() {
                None
            } else {
                Some(t)
            }
        },
        None => None,
    }
}

/// A setting that must be present.
pub fn required_env(raw: &Option<String>, key: &str) -> (r: Result<String, MailError>)
    ensures
        match r {
            Ok(v) => setting(raw.deep_view()) == Some(v@),
            Err(e) => setting(raw.deep_view()) is None && e@ == MailErrorView::Config(
                missing_message(key@),
            ),
        },
{
    match get_trimmed(raw) {
        Some(v) => Ok(v),
        None => Err(MailError::Config(concat2("missing required environment variable ", key))),
    }
}

/// A recipient address as compared against the allow-list.
pub fn normalize_value(value: &str) -> (r: String)
    ensures
        r@ == normalize(value@),
{
    let t = trim_str(value);
    to_ascii_lowercase(t.as_str())
}

proof fn lemma_filter_push_nonblank(s: Seq<Seq<char>>, e: Seq<char>)
    ensures
        e.len() > 0 ==> s.push(e).filter(|p: Seq<char>| p.len() > 0) == s.filter(
            |p: Seq<char>| p.len() > 0,
        ).push(e),
        e.len() == 0 ==> s.push(e).filter(|p: Seq<char>| p.len() > 0) == s.filter(
            |p: Seq<char>| p.len() > 0,
        ),
{
    reveal(Seq::filter);
    assert(s.push(e).drop_last() =~= s);
}

/// The allow-list read from `raw`: comma-separated, normalized, blanks
/// dropped.
pub fn parse_allowed_recipients(raw: &Option<String>) -> (r: Result<Vec<String>, MailError>)
    ensures
        match r {
            Ok(list) => setting(raw.deep_view()) matches Some(v) && list.deep_view() == recipient_list(v)
                && list@.len() > 0,
            Err(e) => e@ == (match setting(raw.deep_view()) {
                None => MailErrorView::Config(missing_message("SMTP_ALLOWED_RECIPIENTS"@)),
                Some(v) => MailErrorView::Config(empty_recipients_message()),
            }) && (setting(raw.deep_view()) matches Some(v) ==> recipient_list(v).len() == 0),
        },
{
    let text = required_env(raw, "SMTP_ALLOWED_RECIPIENTS")?;
    let parts = split_char(text.as_str(), ',');
    let ghost pv = parts.deep_view();
    let ghost normed = pv.map_values(|p: Seq<char>| normalize(p));
    let mut out: Vec<String> = Vec::new();
    let mut i: usize = 0;
    while i < parts.len()
        invariant
            i <= parts@.len(),
            pv == parts.deep_view(),
            normed == pv.map_values(|p: Seq<char>| normalize(p)),
            out.deep_view() == normed.take(i as int).filter(|p: Seq<char>| p.len() > 0),
        decreases parts@.len() - i,
    {
        let n = normalize_value(parts[i].as_str());
        assert(n@ == normed[i as int]);
        proof {
            lemma_filter_push_nonblank(normed.take(i as int), n@);
            assert(normed.take(i + 1) =~= normed.take(i as int).push(n@));
        }
        if !n.as_str().is_empty() {
            let ghost before = out.deep_view();
            out.push(n);
            assert(out.deep_view() =~= before.push(normed[i as int]));
        }
        i = i + 1;
    }
    assert(normed.take(normed.len() as int) =~= normed);
    if out.len() == 0 {
        return Err(
            MailError::Config(
                owned("SMTP_ALLOWED_RECIPIENTS must contain at least one email address"),
            ),
        );
    }
    Ok(out)
}


/// `env` holds what `get` answered for each SMTP key.
pub open spec fn lookup_answers<F: Fn(&str) -> Option<String>>(get: F, env: SmtpEnv) -> bool {
    &&& call_ensures(get, ("SMTP_HOST",), env.host)
    &&& call_ensures(get, ("SMTP_FROM",), env.from)
    &&& call_ensures(get, ("SMTP_SECURITY",), env.security)
    &&& call_ensures(get, ("SMTP_PORT",), env.port)
    &&& call_ensures(get, ("SMTP_USERNAME",), env.username)
    &&& call_ensures(get, ("SMTP_PASSWORD",), env.password)
    &&& call_ensures(get, ("SMTP_FROM_NAME",), env.from_name)
    &&& call_ensures(get, ("SMTP_ALLOWED_RECIPIENTS",), env.allowed_recipients)
}

/// The outcome `r` is what the settings `s` (or the problem with them) give.
pub open spec fn config_outcome(r: Result<SmtpConfig, MailError>, s: Result<SmtpConfigView, MailErrorView>) -> bool {
    match (r, s) {
        (Ok(c), Ok(v)) => c@ == v,
        (Err(e), Err(f)) => e@ == f,
        _ => false,
    }
}

impl SmtpConfig {
    /// Reads the settings through `get`, which maps an environment variable
    /// name to its value.
    pub fn from_lookup<F: Fn(&str) -> Option<String>>(get: F) -> (r: Result<SmtpConfig, MailError>)
        requires
            forall|k: &str| get.requires((k,)),
        ensures
            exists|env: SmtpEnv|
                #![trigger lookup_answers(get, env)]
                lookup_answers(get, env) && config_outcome(r, smtp_config_spec(env@)),
    {
        let env = SmtpEnv {
            host: get("SMTP_HOST"),
            from: get("SMTP_FROM"),
            security: get("SMTP_SECURITY"),
            port: get("SMTP_PORT"),
            username: get("SMTP_USERNAME"),
            password: get("SMTP_PASSWORD"),
            from_name: get("SMTP_FROM_NAME"),
            allowed_recipients: get("SMTP_ALLOWED_RECIPIENTS"),
        };
        let r = SmtpConfig::from_values(&env);
        assert(lookup_answers(get, env) && config_outcome(r, smtp_config_spec(env@)));
        r
    }

    /// The settings that `env` describes.
    pub fn from_values(env: &SmtpEnv) -> (r: Result<SmtpConfig, MailError>)
        ensures
            config_outcome(r, smtp_config_spec(env@)),
    {
        let host = required_env(&env.host, "SMTP_HOST")?;
        let from = required_env(&env.from, "SMTP_FROM")?;
        let sec_setting = get_trimmed(&env.security);
        let security = match &sec_setting {
            Some(s) => SmtpSecurity::parse(s.as_str())?,
            None => SmtpSecurity::parse("starttls")?,
        };
        let port: u16 = match get_trimmed(&env.port) {
            Some(p) => match parse_unsigned_str(p.as_str(), 65535) {
                Some(n) => n as u16,
                None => {
                    return Err(MailError::Config(concat3("invalid SMTP_PORT '", p.as_str(), "'")));
                },
            },
            None => default_port(security),
        };
        let username = get_trimmed(&env.username);
        let password = get_trimmed(&env.password);
        if username.is_some() != password.is_some() {
            return Err(
                MailError::Config(owned("SMTP_USERNAME and SMTP_PASSWORD must be set together")),
            );
        }
        let from_name = get_trimmed(&env.from_name);
        let allowed_recipients = parse_allowed_recipients(&env.allowed_recipients)?;
        Ok(
            SmtpConfig {
                host,
                port,
                username,
                password,
                from,
                from_name,
                security,
                allowed_recipients,
            },
        )
    }

    /// Whether `recipient` is on the allow-list, ignoring surrounding
    /// whitespace and ASCII case.
    pub fn allows_recipient(&self, recipient: &str) -> (r: bool)
        ensures
            r == self@.allowed_recipients.contains(normalize(recipient@)),
    {
        let normalized = normalize_value(recipient);
        crate::workspace::contains_name(&self.allowed_recipients, normalized.as_str())
    }
}

// ---------------------------------------------------------------------------
// Checks before sending
// ---------------------------------------------------------------------------

/// A resume to be mailed.
#[derive(Debug, Clone)]
pub struct EmailRequest {
    pub to: String,
    pub subject: String,
    pub body: String,
    pub attachment_path: String,
}

/// Where the compiled resume of a workspace lies.
pub open spec fn resume_attachment_path(workspace: Seq<char>) -> Seq<char> {
    path_join(workspace, "resume.pdf"@)
}

/// The PDF that is mailed by default: `resume.pdf` in the workspace.
pub fn default_resume_attachment(workspace: &str) -> (r: String)
    ensures
        r@ == resume_attachment_path(workspace@),
{
    join_path(workspace, "resume.pdf")
}

/// Whether `lettre` accepts a text as an email address.
pub uninterp spec fn lettre_accepts_address(text: Seq<char>) -> bool;

/// Parses `text` with `lettre::Address`'s `FromStr` and reports whether it
/// parsed.  Besides naming the outcome, the contract states one fact from
/// lettre's source: the parser splits at an `'@'`, so an accepted text
/// contains one.
#[verifier::external_body]
fn address_parses(text: &str) -> (ok: bool)
    ensures
        ok == lettre_accepts_address(text@),
        ok ==> text@.contains('@'),
{
    text.parse::<lettre::Address>().is_ok()
}

/// The name the attachment is sent under: the file name of its path, or
/// `resume.pdf` when the path has none.
pub open spec fn attachment_name(path: Seq<char>) -> Seq<char> {
    match file_name(path) {
        Some(n) => n,
        None => "resume.pdf"@,
    }
}

pub open spec fn invalid_from_message(from: Seq<char>) -> Seq<char> {
    "invalid SMTP_FROM '"@ + from + "'"@
}

/// What the checks before sending decide: the attachment's name, or the
/// first failing check among a sender address that does not parse, a
/// recipient address that does not parse, and a recipient off the
/// allow-list.
pub open spec fn outgoing_check(config: SmtpConfigView, to: Seq<char>, attachment_path: Seq<char>) -> Result<Seq<char>, MailErrorView> {
    if !lettre_accepts_address(config.from) {
        Err(MailErrorView::Config(invalid_from_message(config.from)))
    } else if !lettre_accepts_address(to) {
        Err(MailErrorView::InvalidRecipient(to))
    } else if !config.allowed_recipients.contains(normalize(to)) {
        Err(MailErrorView::RecipientNotAllowed(to))
    } else {
        Ok(attachment_name(attachment_path))
    }
}

/// Runs the checks made before a message is built and returns the name the
/// attachment is sent under.
pub fn check_outgoing(config: &SmtpConfig, request: &EmailRequest) -> (r: Result<String, MailError>)
    ensures
        match (r, outgoing_check(config@, request.to@, request.attachment_path@)) {
            (Ok(n), Ok(m)) => n@ == m,
            (Err(e), Err(f)) => e@ == f,
            _ => false,
        },
{
    let name = match file_name_of(request.attachment_path.as_str()) {
        Some(n) => n,
        None => owned("resume.pdf"),
    };
    if !address_parses(config.from.as_str()) {
        return Err(MailError::Config(concat3("invalid SMTP_FROM '", config.from.as_str(), "'")));
    }
    if !address_parses(request.to.as_str()) {
        return Err(MailError::InvalidRecipient(request.to.clone()));
    }
    if !config.allows_recipient(request.to.as_str()) {
        return Err(MailError::RecipientNotAllowed(request.to.clone()));
    }
    Ok(name)
}

// ---------------------------------------------------------------------------
// The SMTP connection
// ---------------------------------------------------------------------------

/// How to reach the SMTP server: the relay kind follows the security mode
/// (`StartTls`: a STARTTLS relay, `Tls`: a TLS relay, `Plain`: an
/// unencrypted connection), and credentials are sent only when both a user
/// name and a password are configured.
pub struct TransportSettings {
    pub security: SmtpSecurity,
    pub host: String,
    pub port: u16,
    pub credentials: Option<(String, String)>,
}

pub fn transport_settings(config: &SmtpConfig) -> (t: TransportSettings)
    ensures
        t.security == config.security,
        t.host@ == config.host@,
        t.port == config.port,
        match (config.username, config.password) {
            (Some(u), Some(p)) => t.credentials matches Some((tu, tp)) && tu@ == u@ && tp@ == p@,
            _ => t.credentials is None,
        },
{
    let credentials = match (&config.username, &config.password) {
        (Some(u), Some(p)) => Some((u.clone(), p.clone())),
        _ => None,
    };
    TransportSettings { security: config.security, host: config.host.clone(), port: config.port, credentials }
}

// ---------------------------------------------------------------------------
// Laws of the allow-list
// ---------------------------------------------------------------------------

/// Mail goes only to listed addresses: the checks made before sending pass
/// only for a recipient that `lettre` reads as an address and whose
/// normalized form is on the allow-list.
pub proof fn lemma_only_listed_recipients(config: SmtpConfigView, to: Seq<char>, attachment_path: Seq<char>)
    ensures
        outgoing_check(config, to, attachment_path) is Ok ==> lettre_accepts_address(to)
            && config.allowed_recipients.contains(normalize(to)),
{
}

/// Normalizing an address a second time changes nothing, so an address
/// compares against the allow-list as its normalized form does.
pub proof fn lemma_normalize_idempotent(v: Seq<char>)
    ensures
        normalize(normalize(v)) == normalize(v),
{
    lemma_trim_lower_idempotent(v);
}

/// Every address written in `SMTP_ALLOWED_RECIPIENTS` is allowed, and so is
/// any spelling of it that differs only in surrounding whitespace and the
/// case of ASCII letters.
pub proof fn lemma_listed_addresses_allowed(env: SmtpEnvView, part: Seq<char>, recipient: Seq<char>)
    requires
        smtp_config_spec(env) is Ok,
        setting(env.allowed_recipients) matches Some(raw) && split(raw, ',').contains(part),
        trim(part).len() > 0,
        normalize(recipient) == normalize(part),
    ensures
        smtp_config_spec(env)->Ok_0.allowed_recipients.contains(normalize(recipient)),
{
    let raw = setting(env.allowed_recipients)->0;
    let parts = split(raw, ',');
    let mapped = parts.map_values(|p: Seq<char>| normalize(p));
    let nonblank = |p: Seq<char>| p.len() > 0;
    let i = choose|i: int| 0 <= i < parts.len() && parts[i] == part;
    assert(mapped[i] == normalize(part));
    assert(normalize(part).len() == trim(part).len());
    mapped.filter_lemma(nonblank);
    assert(recipient_list(raw) == mapped.filter(nonblank));
}

} // verus!
