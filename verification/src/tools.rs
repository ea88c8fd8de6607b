//! The tools the model may call, their schemas, and what each reports.
//!
//! Each tool's work (reading or writing `resume.tex`, running the LaTeX
//! compiler, sending mail) is done by the caller; these functions decide
//! which arguments are acceptable and what text and attachments each outcome
//! yields.

use vstd::prelude::*;
use crate::agent::{find_definition, find_tool};
use crate::json::{entries_get, JsonValue};
use crate::llm::ToolDefinition;
use crate::mailer::{default_resume_attachment, mail_error_text, resume_attachment_path, MailError};
use crate::text::{
    concat2, concat3, decimal, decimal_string, join, join_strings, lines, lines_of, trim, trim_str,
};
use crate::workspace::{join_path, path_join};

verus! {

/// What a tool hands back: text for the model and files for the user.
#[derive(Debug)]
pub struct ToolResult {
    pub text: String,
    pub attachments: Vec<String>,
}

pub struct ToolResultView {
    pub text: Seq<char>,
    pub attachments: Seq<Seq<char>>,
}

impl View for ToolResult {
    type V = ToolResultView;

    open spec fn view(&self) -> ToolResultView {
        ToolResultView { text: self.text@, attachments: self.attachments.deep_view() }
    }
}

impl ToolResult {
    /// A result with text and no attachments.
    pub fn text(text: String) -> (r: ToolResult)
        ensures
            r@.text == text@,
            r@.attachments == Seq::<Seq<char>>::empty(),
    {
        let r = ToolResult { text, attachments: Vec::new() };
        assert(r@.attachments =~= Seq::<Seq<char>>::empty());
        r
    }
}

// ---------------------------------------------------------------------------
// Schemas
// ---------------------------------------------------------------------------

fn member(key: &str, value: JsonValue) -> (r: (String, JsonValue))
    ensures
        r.0@ == key@,
        r.1 == value,
{
    (key.to_owned(), value)
}

fn text_value(s: &str) -> (r: JsonValue)
    ensures
        r == JsonValue::Str(r->Str_0),
        r->Str_0@ == s@,
{
    JsonValue::Str(s.to_owned())
}

/// `{"type": "string", "description": description}`, as far as a reader of
/// the schema looks.
pub open spec fn string_property_is(v: JsonValue, description: Seq<char>) -> bool {
    &&& (v.get_spec("type"@) matches Some(t) && t.as_str_spec() == Some("string"@))
    &&& (v.get_spec("description"@) matches Some(d) && d.as_str_spec() == Some(description))
}

/// `{"type": "object", "properties": {...}, "required": [...]}` whose
/// properties are strings named `names`, in order, described by
/// `descriptions`, and whose required list is `required`.
pub open spec fn schema_is(
    params: JsonValue,
    names: Seq<Seq<char>>,
    descriptions: Seq<Seq<char>>,
    required: Seq<Seq<char>>,
) -> bool {
    &&& (params.get_spec("type"@) matches Some(t) && t.as_str_spec() == Some("object"@))
    &&& (params.get_spec("properties"@) matches Some(JsonValue::Object(props)) && props@.len()
        == names.len() && forall|i: int|
        0 <= i < names.len() ==> (#[trigger] props@[i]).0@ == names[i] && string_property_is(
            props@[i].1,
            descriptions[i],
        ))
    &&& (params.get_spec("required"@) matches Some(JsonValue::Array(items)) && items@.len()
        == required.len() && forall|i: int|
        0 <= i < required.len() ==> (#[trigger] items@[i]).as_str_spec() == Some(required[i]))
}

fn string_property(description: &str) -> (r: JsonValue)
    ensures
        string_property_is(r, description@),
{
    let r = JsonValue::Object(vec![member("type", text_value("string")), member("description", text_value(description))]);
    proof {
        let entries = r->Object_0@;
        reveal_strlit("type");
        reveal_strlit("description");
        assert(entries[0].0@ == "type"@);
        assert("type"@.len() != "description"@.len());
        assert(entries_get(entries.drop_first(), "description"@) == Some(entries[1].1));
    }
    r
}

fn object_schema(properties: Vec<(String, JsonValue)>, required: Vec<JsonValue>) -> (r: JsonValue)
    ensures
        r.get_spec("type"@) matches Some(t) && t.as_str_spec() == Some("object"@),
        r.get_spec("properties"@) == Some(JsonValue::Object(properties)),
        r.get_spec("required"@) == Some(JsonValue::Array(required)),
{
    let r = JsonValue::Object(
        vec![
            member("type", text_value("object")),
            member("properties", JsonValue::Object(properties)),
            member("required", JsonValue::Array(required)),
        ],
    );
    proof {
        let entries = r->Object_0@;
        reveal_strlit("type");
        reveal_strlit("properties");
        reveal_strlit("required");
        assert("type"@.len() != "properties"@.len());
        assert("type"@.len() != "required"@.len());
        assert("properties"@ != "required"@) by {
            assert("properties"@[0] != "required"@[0]);
        }
        assert(entries[0].0@ == "type"@);
        assert(entries.drop_first()[0].0@ == "properties"@);
        assert(entries.drop_first().drop_first()[0].0@ == "required"@);
        assert(entries_get(entries.drop_first(), "properties"@) == Some(entries[1].1));
        assert(entries_get(entries, "properties"@) == Some(entries[1].1));
        assert(entries_get(entries.drop_first().drop_first(), "required"@) == Some(entries[2].1));
        assert(entries_get(entries.drop_first(), "required"@) == Some(entries[2].1));
    }
    r
}

/// The member `properties` of a tool's parameter schema.
pub open spec fn schema_properties(def: ToolDefinition) -> Option<JsonValue> {
    def.parameters.get_spec("properties"@)
}

/// A tool takes arguments when its schema lists at least one property.
pub open spec fn accepts_args(def: ToolDefinition) -> bool {
    match schema_properties(def) {
        Some(p) => match p.object_len_spec() {
            Some(n) => n != 0,
            None => false,
        },
        None => false,
    }
}

/// A tool takes raw text as its argument when its only property is a
/// string named `content`.
pub open spec fn takes_raw_content(def: ToolDefinition) -> bool {
    match schema_properties(def) {
        Some(p) => p.object_len_spec() == Some(1nat) && match p.get_spec("content"@) {
            Some(c) => match c.get_spec("type"@) {
                Some(t) => t.as_str_spec() == Some("string"@),
                None => false,
            },
            None => false,
        },
        None => false,
    }
}

/// Whether a tool's schema lists any property.
pub fn tool_accepts_args(def: &ToolDefinition) -> (r: bool)
    ensures
        r == accepts_args(*def),
{
    match def.parameters.get("properties") {
        Some(p) => match p.object_len() {
            Some(n) => n != 0,
            None => false,
        },
        None => false,
    }
}

/// Whether a tool's only property is the string `content`.
pub fn supports_raw_content_arg(def: &ToolDefinition) -> (r: bool)
    ensures
        r == takes_raw_content(*def),
{
    match def.parameters.get("properties") {
        Some(p) => {
            let one = match p.object_len() {
                Some(n) => n == 1,
                None => false,
            };
            one && match p.get("content") {
                Some(c) => match c.get("type") {
                    Some(t) => match t.as_str() {
                        Some(s) => crate::json::str_eq(s, "string"),
                        None => false,
                    },
                    None => false,
                },
                None => false,
            }
        },
        None => false,
    }
}

// ---------------------------------------------------------------------------
// The registry
// ---------------------------------------------------------------------------

/// The tools on offer, in the order they were registered; the caller keeps
/// the tool that runs each one at the same position.
pub struct ToolRegistry {
    tools: Vec<ToolDefinition>,
}

impl View for ToolRegistry {
    type V = Seq<ToolDefinition>;

    closed spec fn view(&self) -> Seq<ToolDefinition> {
        self.tools@
    }
}

pub open spec fn unknown_tool_message(name: Seq<char>) -> Seq<char> {
    "Unknown tool: "@ + name
}

impl ToolRegistry {
    pub fn new() -> (r: ToolRegistry)
        ensures
            r@ == Seq::<ToolDefinition>::empty(),
    {
        ToolRegistry { tools: Vec::new() }
    }

    /// Adds a tool, by its definition, after those already registered.
    pub fn register(&mut self, definition: ToolDefinition)
        ensures
            final(self)@ == old(self)@.push(definition),
    {
        self.tools.push(definition);
    }

    /// The definitions handed to the model, in order.
    pub fn definitions(&self) -> (r: &Vec<ToolDefinition>)
        ensures
            r@ == self@,
    {
        &self.tools
    }

    /// The definition of the first tool named `name`.
    pub fn definition(&self, name: &str) -> (r: Option<&ToolDefinition>)
        ensures
            match find_tool(self@, name@) {
                Some(i) => r == Some(&self@[i]),
                None => r is None,
            },
    {
        match find_definition(&self.tools, name) {
            Some(i) => Some(&self.tools[i]),
            None => None,
        }
    }

    /// Which registered tool runs a call of `name` (the first of that name),
    /// or the result of a call of a tool that is not there.
    pub fn execute(&self, name: &str) -> (r: Result<usize, ToolResult>)
        ensures
            match find_tool(self@, name@) {
                Some(i) => r == Ok::<usize, ToolResult>(i as usize),
                None => r matches Err(t) && t@.text == unknown_tool_message(name@)
                    && t@.attachments.len() == 0,
            },
    {
        match find_definition(&self.tools, name) {
            Some(i) => Ok(i),
            None => Err(ToolResult::text(concat2("Unknown tool: ", name))),
        }
    }
}

// ---------------------------------------------------------------------------
// read_resume
// ---------------------------------------------------------------------------

pub const READ_RESUME_DESCRIPTION: &'static str =
    "Read the current resume LaTeX source file (.tex). Call this before making any changes.";

pub open spec fn resume_tex_path(workspace: Seq<char>) -> Seq<char> {
    path_join(workspace, "resume.tex"@)
}

/// Reads `resume.tex`.
pub struct ReadResume {
    pub workspace: String,
}

impl ReadResume {
    pub fn new(workspace: &str) -> (r: ReadResume)
        ensures
            r.workspace@ == workspace@,
    {
        ReadResume { workspace: workspace.to_owned() }
    }

    pub fn definition(&self) -> (d: ToolDefinition)
        ensures
            d.name@ == "read_resume"@,
            d.description@ == READ_RESUME_DESCRIPTION@,
            schema_is(d.parameters, seq![], seq![], seq![]),
            !accepts_args(d),
    {
        let d = ToolDefinition {
            name: "read_resume".to_owned(),
            description: READ_RESUME_DESCRIPTION.to_owned(),
            parameters: object_schema(Vec::new(), Vec::new()),
        };
        assert(schema_properties(d) matches Some(p) && p->Object_0@.len() == 0);
        d
    }

    /// The file the tool reads.
    pub fn resume_path(&self) -> (p: String)
        ensures
            p@ == resume_tex_path(self.workspace@),
    {
        join_path(self.workspace.as_str(), "resume.tex")
    }

    /// The report for the outcome of reading the file: its text, or the
    /// error.
    pub fn outcome(&self, read: Result<String, String>) -> (r: ToolResult)
        ensures
            r@.attachments.len() == 0,
            r@.text == read_report(match read {
                Ok(content) => Ok(content@),
                Err(e) => Err(e@),
            }),
    {
        match read {
            Ok(content) => ToolResult::text(content),
            Err(e) => ToolResult::text(concat2("Error reading resume.tex: ", e.as_str())),
        }
    }
}

// ---------------------------------------------------------------------------
// write_resume
// ---------------------------------------------------------------------------

pub const WRITE_RESUME_DESCRIPTION: &'static str = "Write the complete LaTeX content to the resume file. You must provide the full .tex file content including \\documentclass, \\begin{document}, etc.";

/// The report of `read_resume`: the file's text, or the error.
pub open spec fn read_report(read: Result<Seq<char>, Seq<char>>) -> Seq<char> {
    match read {
        Ok(content) => content,
        Err(e) => "Error reading resume.tex: "@ + e,
    }
}

/// The string argument `content`, if there is one.
pub open spec fn content_arg_spec(args: JsonValue) -> Option<Seq<char>> {
    match args.get_spec("content"@) {
        Some(v) => v.as_str_spec(),
        None => None,
    }
}

/// The report of `write_resume` for `content`: the number of bytes written,
/// or the error.
pub open spec fn write_report(content: Seq<char>, write: Result<(), Seq<char>>) -> Seq<char> {
    match write {
        Ok(()) => "Successfully wrote "@ + decimal(utf8_len(content)) + " bytes to resume.tex"@,
        Err(e) => "Error writing resume.tex: "@ + e,
    }
}

/// Replaces `resume.tex` with the given content.
pub struct WriteResume {
    pub workspace: String,
}

/// The number of bytes of the UTF-8 encoding of `s`.
pub open spec fn utf8_len(s: Seq<char>) -> nat {
    vstd::utf8::encode_utf8(s).len()
}

impl WriteResume {
    pub fn new(workspace: &str) -> (r: WriteResume)
        ensures
            r.workspace@ == workspace@,
    {
        WriteResume { workspace: workspace.to_owned() }
    }

    pub fn definition(&self) -> (d: ToolDefinition)
        ensures
            d.name@ == "write_resume"@,
            d.description@ == WRITE_RESUME_DESCRIPTION@,
            schema_is(
                d.parameters,
                seq!["content"@],
                seq!["The complete LaTeX content for the resume .tex file"@],
                seq!["content"@],
            ),
            accepts_args(d),
            takes_raw_content(d),
    {
        let content = string_property("The complete LaTeX content for the resume .tex file");
        let props: Vec<(String, JsonValue)> = vec![member("content", content)];
        let d = ToolDefinition {
            name: "write_resume".to_owned(),
            description: WRITE_RESUME_DESCRIPTION.to_owned(),
            parameters: object_schema(props, vec![text_value("content")]),
        };
        proof {
            let p = schema_properties(d)->0;
            assert(p->Object_0@[0].0@ == "content"@);
        }
        d
    }

    /// The file the tool writes.
    pub fn resume_path(&self) -> (p: String)
        ensures
            p@ == resume_tex_path(self.workspace@),
    {
        join_path(self.workspace.as_str(), "resume.tex")
    }

    /// The `content` argument, or the report for its absence.
    pub fn content_arg<'a>(&self, args: &'a JsonValue) -> (r: Result<&'a str, ToolResult>)
        ensures
            match r {
                Ok(c) => content_arg_spec(*args) == Some(c@),
                Err(t) => content_arg_spec(*args) is None && t@.text
                    == "Error: missing 'content' parameter"@ && t@.attachments.len() == 0,
            },
    {
        match args.get("content") {
            Some(v) => match v.as_str() {
                Some(c) => Ok(c),
                None => Err(ToolResult::text("Error: missing 'content' parameter".to_owned())),
            },
            None => Err(ToolResult::text("Error: missing 'content' parameter".to_owned())),
        }
    }

    /// The report for the outcome of writing `content`.
    pub fn outcome(&self, content: &str, write: Result<(), String>) -> (r: ToolResult)
        requires
            utf8_len(content@) <= usize::MAX,
        ensures
            r@.attachments.len() == 0,
            r@.text == write_report(content@, match write {
                Ok(()) => Ok(()),
                Err(e) => Err(e@),
            }),
    {
        match write {
            Ok(()) => {
                let n: usize = content.len();
                let count = decimal_string(n as u64);
                ToolResult::text(concat3("Successfully wrote ", count.as_str(), " bytes to resume.tex"))
            },
            Err(e) => ToolResult::text(concat2("Error writing resume.tex: ", e.as_str())),
        }
    }
}

/// What `write_resume` stores, `read_resume` reports unchanged: both tools
/// of a workspace work on the same file; a write stores the `content`
/// argument as it is and reports its length in bytes; and reading the file
/// while it holds that text reports exactly that text.  (That the file holds
/// what was written in between is the file system's part.)
pub proof fn lemma_write_then_read(write_tool: WriteResume, read_tool: ReadResume, args: JsonValue)
    requires
        write_tool.workspace@ == read_tool.workspace@,
        content_arg_spec(args) is Some,
    ensures
        ({
            let content = content_arg_spec(args)->0;
            &&& resume_tex_path(write_tool.workspace@) == resume_tex_path(read_tool.workspace@)
            &&& write_report(content, Ok(())) == "Successfully wrote "@ + decimal(utf8_len(content))
                + " bytes to resume.tex"@
            &&& read_report(Ok(content)) == content
        }),
{
}

// ---------------------------------------------------------------------------
// compile_resume
// ---------------------------------------------------------------------------

pub const COMPILE_RESUME_DESCRIPTION: &'static str = "Compile the resume LaTeX file to PDF using tectonic. Returns the compilation result. On success, the PDF will be automatically sent to the user.";

/// How a compiler run ended: whether it reported success, and what it
/// printed.
pub struct CompileRun {
    pub success: bool,
    pub stdout: String,
    pub stderr: String,
}

/// The number of log lines shown when compilation fails.
pub const LOG_TAIL_LINES: usize = 50;

/// The last `LOG_TAIL_LINES` lines of `out`, joined with `'\n'`.
pub open spec fn log_tail(out: Seq<char>) -> Seq<char> {
    let ls = lines(out);
    let start: int = if ls.len() > LOG_TAIL_LINES {
        ls.len() - LOG_TAIL_LINES
    } else {
        0
    };
    join(ls.skip(start), "\n"@)
}

pub open spec fn failure_report(stderr: Seq<char>, stdout: Seq<char>) -> Seq<char> {
    "Compilation failed.\n\nstderr:\n"@ + stderr + "\n\nlog (last 50 lines):\n"@ + log_tail(stdout)
}

/// The last lines of a compiler log.
pub fn last_lines(out: &str) -> (r: String)
    ensures
        r@ == log_tail(out@),
{
    let ls = lines_of(out);
    let start: usize = if ls.len() > LOG_TAIL_LINES { ls.len() - LOG_TAIL_LINES } else { 0 };
    let mut tail: Vec<String> = Vec::new();
    let mut i: usize = start;
    while i < ls.len()
        invariant
            start <= i <= ls@.len(),
            tail.deep_view() == ls.deep_view().subrange(start as int, i as int),
        decreases ls@.len() - i,
    {
        let ghost before = tail.deep_view();
        tail.push(ls[i].clone());
        assert(tail.deep_view() =~= before.push(ls.deep_view()[i as int]));
        assert(tail.deep_view() =~= ls.deep_view().subrange(start as int, i + 1));
        i = i + 1;
    }
    assert(ls.deep_view().subrange(start as int, ls@.len() as int) =~= ls.deep_view().skip(start as int));
    join_strings(&tail, "\n")
}

/// Compiles `resume.tex` to `resume.pdf`.
pub struct CompileResume {
    pub workspace: String,
}

impl CompileResume {
    pub fn new(workspace: &str) -> (r: CompileResume)
        ensures
            r.workspace@ == workspace@,
    {
        CompileResume { workspace: workspace.to_owned() }
    }

    pub fn definition(&self) -> (d: ToolDefinition)
        ensures
            d.name@ == "compile_resume"@,
            d.description@ == COMPILE_RESUME_DESCRIPTION@,
            schema_is(d.parameters, seq![], seq![], seq![]),
            !accepts_args(d),
    {
        let d = ToolDefinition {
            name: "compile_resume".to_owned(),
            description: COMPILE_RESUME_DESCRIPTION.to_owned(),
            parameters: object_schema(Vec::new(), Vec::new()),
        };
        assert(schema_properties(d) matches Some(p) && p->Object_0@.len() == 0);
        d
    }

    /// The PDF the compiler produces.
    pub fn pdf_path(&self) -> (p: String)
        ensures
            p@ == resume_attachment_path(self.workspace@),
    {
        default_resume_attachment(self.workspace.as_str())
    }

    /// The report for a compiler run: `run` is the run's outcome or why the
    /// compiler could not be started; `pdf_exists` (looked at only after a
    /// successful run) says whether `resume.pdf` is there.  A successful run
    /// attaches the PDF; a failed one shows `stderr` and the log's tail.
    pub fn outcome(&self, run: Result<CompileRun, String>, pdf_exists: bool) -> (r: ToolResult)
        ensures
            match run {
                Err(e) => r@.text == "Failed to run tectonic: "@ + e@ + ". Is tectonic installed?"@
                    && r@.attachments.len() == 0,
                Ok(out) => if out.success {
                    if pdf_exists {
                        r@.text == "Compilation successful. PDF generated."@ && r@.attachments
                            == seq![resume_attachment_path(self.workspace@)]
                    } else {
                        r@.text == "tectonic exited successfully but resume.pdf was not found."@
                            && r@.attachments.len() == 0
                    }
                } else {
                    r@.text == failure_report(out.stderr@, out.stdout@) && r@.attachments.len()
                        == 0
                },
            },
    {
        match run {
            Err(e) => ToolResult::text(concat3("Failed to run tectonic: ", e.as_str(), ". Is tectonic installed?")),
            Ok(out) => {
                if out.success {
                    if pdf_exists {
                        let r = ToolResult {
                            text: "Compilation successful. PDF generated.".to_owned(),
                            attachments: vec![self.pdf_path()],
                        };
                        assert(r@.attachments =~= seq![resume_attachment_path(self.workspace@)]);
                        r
                    } else {
                        ToolResult::text(
                            "tectonic exited successfully but resume.pdf was not found.".to_owned(),
                        )
                    }
                } else {
                    let log = last_lines(out.stdout.as_str());
                    let mut text = concat3("Compilation failed.\n\nstderr:\n", out.stderr.as_str(), "\n\nlog (last 50 lines):\n");
                    text.append(log.as_str());
                    ToolResult::text(text)
                }
            },
        }
    }
}

// ---------------------------------------------------------------------------
// send_resume_email
// ---------------------------------------------------------------------------

pub const SEND_RESUME_EMAIL_DESCRIPTION: &'static str = "Send the current compiled resume PDF to a specified email address. Requires the target email, subject, and plain-text body. The recipient must be listed in SMTP_ALLOWED_RECIPIENTS. Call compile_resume before this tool if the PDF is not up to date.";

/// Mails the compiled resume.
pub struct SendResumeEmail {
    pub workspace: String,
}

/// The trimmed, nonblank string argument `key`, if there is one.
pub open spec fn string_arg(args: JsonValue, key: Seq<char>) -> Option<Seq<char>> {
    match args.get_spec(key) {
        Some(v) => match v.as_str_spec() {
            Some(s) => if trim(s).len() > 0 {
                Some(trim(s))
            } else {
                None
            },
            None => None,
        },
        None => None,
    }
}

pub open spec fn missing_arg_message(key: Seq<char>) -> Seq<char> {
    "Error: missing '"@ + key + "' parameter"@
}

/// The trimmed, nonblank string argument `key`, or the message for its
/// absence.
pub fn required_string(args: &JsonValue, key: &str) -> (r: Result<String, String>)
    ensures
        match r {
            Ok(s) => string_arg(*args, key@) == Some(s@),
            Err(e) => string_arg(*args, key@) is None && e@ == missing_arg_message(key@),
        },
{
    let missing = concat3("Error: missing '", key, "' parameter");
    match args.get(key) {
        Some(v) => match v.as_str() {
            Some(s) => {
                let t = trim_str(s);
                if t.as_str().is_empty() {
                    Err(missing)
                } else {
                    Ok(t)
                }
            },
            None => Err(missing),
        },
        None => Err(missing),
    }
}

/// The arguments of a mailing request, in the order they are checked.
pub open spec fn email_args(args: JsonValue) -> Result<(Seq<char>, Seq<char>, Seq<char>), Seq<char>> {
    match (string_arg(args, "to"@), string_arg(args, "subject"@), string_arg(args, "body"@)) {
        (None, _, _) => Err(missing_arg_message("to"@)),
        (Some(_), None, _) => Err(missing_arg_message("subject"@)),
        (Some(_), Some(_), None) => Err(missing_arg_message("body"@)),
        (Some(t), Some(s), Some(b)) => Ok((t, s, b)),
    }
}

pub open spec fn missing_pdf_message(path: Seq<char>) -> Seq<char> {
    "Error: resume attachment not found at "@ + path + ". Please call compile_resume first."@
}

impl SendResumeEmail {
    pub fn new(workspace: &str) -> (r: SendResumeEmail)
        ensures
            r.workspace@ == workspace@,
    {
        SendResumeEmail { workspace: workspace.to_owned() }
    }

    pub fn definition(&self) -> (d: ToolDefinition)
        ensures
            d.name@ == "send_resume_email"@,
            d.description@ == SEND_RESUME_EMAIL_DESCRIPTION@,
            schema_is(
                d.parameters,
                seq!["to"@, "subject"@, "body"@],
                seq!["Recipient email address"@, "Email subject line"@, "Plain-text email body"@],
                seq!["to"@, "subject"@, "body"@],
            ),
            accepts_args(d),
            !takes_raw_content(d),
    {
        let props: Vec<(String, JsonValue)> = vec![
            member("to", string_property("Recipient email address")),
            member("subject", string_property("Email subject line")),
            member("body", string_property("Plain-text email body")),
        ];
        let d = ToolDefinition {
            name: "send_resume_email".to_owned(),
            description: SEND_RESUME_EMAIL_DESCRIPTION.to_owned(),
            parameters: object_schema(props, vec![text_value("to"), text_value("subject"), text_value("body")]),
        };
        proof {
            let p = schema_properties(d)->0;
            assert(p->Object_0@.len() == 3);
        }
        d
    }

    /// The PDF that is mailed.
    pub fn attachment_path(&self) -> (p: String)
        ensures
            p@ == resume_attachment_path(self.workspace@),
    {
        default_resume_attachment(self.workspace.as_str())
    }

    /// Recipient, subject and body, or the report for the first missing one.
    pub fn request_args(&self, args: &JsonValue) -> (r: Result<(String, String, String), ToolResult>)
        ensures
            match (r, email_args(*args)) {
                (Ok((t, s, b)), Ok((t2, s2, b2))) => t@ == t2 && s@ == s2 && b@ == b2,
                (Err(res), Err(m)) => res@.text == m && res@.attachments.len() == 0,
                _ => false,
            },
    {
        let to = match required_string(args, "to") {
            Ok(v) => v,
            Err(text) => return Err(ToolResult::text(text)),
        };
        let subject = match required_string(args, "subject") {
            Ok(v) => v,
            Err(text) => return Err(ToolResult::text(text)),
        };
        let body = match required_string(args, "body") {
            Ok(v) => v,
            Err(text) => return Err(ToolResult::text(text)),
        };
        Ok((to, subject, body))
    }

    /// The report when the PDF is not there yet.
    pub fn missing_pdf(&self) -> (r: ToolResult)
        ensures
            r@.text == missing_pdf_message(resume_attachment_path(self.workspace@)),
            r@.attachments.len() == 0,
    {
        let path = self.attachment_path();
        ToolResult::text(concat3("Error: resume attachment not found at ", path.as_str(), ". Please call compile_resume first."))
    }

    /// The report for the outcome of sending.
    pub fn outcome(&self, sent: Result<(), MailError>) -> (r: ToolResult)
        ensures
            r@.attachments.len() == 0,
            match sent {
                Ok(()) => r@.text == "Email sent successfully with the resume attachment."@,
                Err(e) => r@.text == "Failed to send resume email: "@ + mail_error_text(e@),
            },
    {
        match sent {
            Ok(()) => ToolResult::text("Email sent successfully with the resume attachment.".to_owned()),
            Err(e) => {
                let m = e.to_string();
                ToolResult::text(concat2("Failed to send resume email: ", m.as_str()))
            },
        }
    }
}

} // verus!
