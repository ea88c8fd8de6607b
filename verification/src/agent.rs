//! The resume agent: how one user message is answered.
//!
//! A message is either a developer command (in development mode, on the
//! command line) that calls one tool directly, or a request for the model.
//! A request is a conversation that alternates between asking the model and
//! running the tools it calls.  `Conversation` holds that conversation and
//! decides each next step; the caller performs the step (a model request or
//! a tool run) and reports its outcome back.

use vstd::prelude::*;
use crate::channel::{cli_step, CliModeView, CliOutcome, IncomingMessage};
use crate::json::{json_parse, parse_json, str_eq, JsonValue};
use crate::llm::{
    calls_view, llm_error_text, plain_message, ChatMessage, ChatMessageView, CompletionResponse,
    CompletionView, LlmError, LlmErrorView, Role, ToolCall, ToolCallView, ToolDefinition,
};
use crate::text::{
    concat2, concat3, eq_ignore_ascii_case, is_whitespace, join, join_strings, lemma_find_char_at,
    lemma_trim_end_append, lemma_trim_ends, lemma_trim_of_trimmed, lemma_trim_start_after_blank,
    lemma_trim_start_split, lower, split_once, split_once_char, starts_with, starts_with_str, trim,
    trim_start, trim_start_char, trim_start_matches_char, trim_str,
};
use crate::tools::{accepts_args, supports_raw_content_arg, takes_raw_content, tool_accepts_args, ToolResult, ToolResultView};

verus! {

/// The most model requests made for one user message.
pub const MAX_TOOL_ROUNDS: usize = 10;

/// The instructions the model receives before every conversation.
pub const SYSTEM_PROMPT: &'static str = "你是一个专业的简历助手。你帮助用户修改和优化他们的 LaTeX 简历。

你有以下工具:
- read_resume: 读取当前简历的 LaTeX 源文件
- write_resume: 写入完整的 LaTeX 内容到简历文件
- compile_resume: 使用 tectonic 编译简历为 PDF
- send_resume_email: 将当前编译好的简历 PDF 作为附件发送到指定邮箱，需要提供收件邮箱、邮件标题和正文
- send_resume_email 只能发送到系统配置的允许邮箱列表

工作流程:
1. 收到用户请求后，先用 read_resume 读取当前简历内容
2. 根据用户需求修改内容，用 write_resume 写入修改后的完整 .tex 文件
3. 用 compile_resume 编译为 PDF，PDF 会自动发送给用户
4. 如果用户要求把简历发送到邮箱，确认 PDF 已编译后，再调用 send_resume_email 发送邮件；收件人必须在系统允许列表中

简历使用自定义 LaTeX 类 (resume.cls)，主要命令:
- \\name{姓名}
- \\basicInfo{联系方式}
- \\section{节标题}
- \\datedsubsection{\\textbf{标题}}{日期范围}
- \\role{类型}{职位}
- \\begin{itemize} \\item 要点 \\end{itemize}

注意: write_resume 必须写入完整的 .tex 文件内容，包括 \\documentclass 和 \\begin{document} 等。
修改后务必 compile_resume 编译并发送 PDF。如果用户明确要求邮件投递，再调用 send_resume_email。";

/// A copy of `SYSTEM_PROMPT`.
pub fn system_prompt() -> (r: String)
    ensures
        r@ == SYSTEM_PROMPT@,
{
    SYSTEM_PROMPT.to_owned()
}

// ---------------------------------------------------------------------------
// The conversation
// ---------------------------------------------------------------------------

/// Where a conversation stands.
#[derive(Debug, Clone, Copy, PartialEq, Eq, Structural)]
pub enum Phase {
    /// A model request is outstanding.
    AwaitingModel,
    /// The tool calls of the last model answer are being run, in order.
    RunningTools,
    /// The reply has been given.
    Finished,
}

/// The next thing to do.
#[derive(Debug)]
pub enum AgentAction {
    /// Send the conversation's messages, with the tool definitions, to the
    /// model.
    AskModel,
    /// Run the tool call `index` of the last model answer (see
    /// `Conversation::pending_call`).
    RunTool { index: usize },
    /// Answer the user.
    Reply { text: String, attachments: Vec<String> },
}

pub enum ActionView {
    AskModel,
    RunTool { index: nat },
    Reply { text: Seq<char>, attachments: Seq<Seq<char>> },
}

impl View for AgentAction {
    type V = ActionView;

    open spec fn view(&self) -> ActionView {
        match self {
            AgentAction::AskModel => ActionView::AskModel,
            AgentAction::RunTool { index } => ActionView::RunTool { index: *index as nat },
            AgentAction::Reply { text, attachments } => ActionView::Reply {
                text: text@,
                attachments: attachments.deep_view(),
            },
        }
    }
}

/// One user request being answered.
pub struct Conversation {
    messages: Vec<ChatMessage>,
    attachments: Vec<String>,
    rounds: usize,
    next_tool: usize,
    phase: Phase,
}

pub struct ConversationView {
    /// The messages exchanged with the model so far.
    pub messages: Seq<ChatMessageView>,
    /// The files the tools produced so far, in order.
    pub attachments: Seq<Seq<char>>,
    /// How many model requests were made.
    pub rounds: nat,
    /// How many calls of the last model answer have been answered.
    pub next_tool: nat,
    pub phase: Phase,
}

impl View for Conversation {
    type V = ConversationView;

    closed spec fn view(&self) -> ConversationView {
        ConversationView {
            messages: self.messages@.map_values(|m: ChatMessage| m@),
            attachments: self.attachments.deep_view(),
            rounds: self.rounds as nat,
            next_tool: self.next_tool as nat,
            phase: self.phase,
        }
    }
}

/// Text of a model answer, empty when it has none.
pub open spec fn content_or_empty(c: Option<Seq<char>>) -> Seq<char> {
    match c {
        Some(t) => t,
        None => Seq::empty(),
    }
}

pub open spec fn tool_message(call_id: Seq<char>, text: Seq<char>) -> ChatMessageView {
    ChatMessageView { role: Role::Tool, content: text, tool_call_id: Some(call_id), tool_calls: Seq::empty() }
}

pub open spec fn assistant_message(content: Seq<char>, calls: Seq<ToolCallView>) -> ChatMessageView {
    ChatMessageView { role: Role::Assistant, content, tool_call_id: None, tool_calls: calls }
}

pub open spec fn error_reply_text(e: LlmErrorView) -> Seq<char> {
    "Sorry, something went wrong: "@ + llm_error_text(e)
}

pub open spec fn max_steps_text() -> Seq<char> {
    "I've reached the maximum number of steps. Please try again with a simpler request."@
}

/// Where the model answer whose calls are being run sits.
pub open spec fn answer_index(s: ConversationView) -> int {
    s.messages.len() - 1 - s.next_tool
}

/// The calls of the model answer being worked through.
pub open spec fn current_calls(s: ConversationView) -> Seq<ToolCallView> {
    s.messages[answer_index(s)].tool_calls
}

/// The conversation at its start: the system prompt and the user's message,
/// with the first model request made.
pub open spec fn start_spec(system: Seq<char>, user: Seq<char>) -> (ConversationView, ActionView) {
    (
        ConversationView {
            messages: seq![plain_message(Role::System, system), plain_message(Role::User, user)],
            attachments: Seq::empty(),
            rounds: 1,
            next_tool: 0,
            phase: Phase::AwaitingModel,
        },
        ActionView::AskModel,
    )
}

/// What a model answer leads to.  A failed request ends the conversation
/// with an apology (and no attachments); an answer without tool calls is
/// the reply; otherwise the answer joins the conversation and its first
/// call is run.
pub open spec fn after_answer(s: ConversationView, answer: Result<CompletionView, LlmErrorView>) -> (
    ConversationView,
    ActionView,
) {
    match answer {
        Err(e) => (
            ConversationView { attachments: Seq::empty(), phase: Phase::Finished, ..s },
            ActionView::Reply { text: error_reply_text(e), attachments: Seq::empty() },
        ),
        Ok(c) => if c.tool_calls.len() == 0 {
            (
                ConversationView { attachments: Seq::empty(), phase: Phase::Finished, ..s },
                ActionView::Reply { text: content_or_empty(c.content), attachments: s.attachments },
            )
        } else {
            (
                ConversationView {
                    messages: s.messages.push(
                        assistant_message(content_or_empty(c.content), c.tool_calls),
                    ),
                    next_tool: 0,
                    phase: Phase::RunningTools,
                    ..s
                },
                ActionView::RunTool { index: 0 },
            )
        },
    }
}

/// What a tool's result leads to.  The result answers the current call and
/// its files are kept; then the next call is run, or the model is asked
/// again, or, after the last allowed request, the conversation ends.
pub open spec fn after_tool(s: ConversationView, result: ToolResultView) -> (ConversationView, ActionView) {
    let calls = current_calls(s);
    let call = calls[s.next_tool as int];
    let messages = s.messages.push(tool_message(call.id, result.text));
    let attachments = s.attachments + result.attachments;
    let k = s.next_tool + 1;
    if k < calls.len() {
        (
            ConversationView { messages, attachments, next_tool: k, ..s },
            ActionView::RunTool { index: k },
        )
    } else if s.rounds < MAX_TOOL_ROUNDS {
        (
            ConversationView {
                messages,
                attachments,
                rounds: s.rounds + 1,
                next_tool: 0,
                phase: Phase::AwaitingModel,
                ..s
            },
            ActionView::AskModel,
        )
    } else {
        (
            ConversationView {
                messages,
                attachments: Seq::empty(),
                next_tool: k,
                phase: Phase::Finished,
                ..s
            },
            ActionView::Reply { text: max_steps_text(), attachments },
        )
    }
}

/// The invariant of a conversation.  It opens with the system prompt and
/// the user's message; between one and `MAX_TOOL_ROUNDS` requests were made;
/// while tools run, the answer being worked through is an assistant message
/// with tool calls, and the messages after it answer its first calls in
/// order.
pub open spec fn conversation_wf(s: ConversationView) -> bool {
    &&& s.messages.len() >= 2
    &&& s.messages[0].role == Role::System
    &&& s.messages[1].role == Role::User
    &&& 1 <= s.rounds <= MAX_TOOL_ROUNDS
    &&& s.phase == Phase::AwaitingModel ==> s.next_tool == 0
    &&& s.phase == Phase::RunningTools ==> {
        let a = answer_index(s);
        let calls = current_calls(s);
        &&& 2 <= a
        &&& s.messages[a].role == Role::Assistant
        &&& s.next_tool < calls.len()
        &&& forall|j: int|
            0 <= j < s.next_tool ==> #[trigger] s.messages[a + 1 + j] == tool_message(
                calls[j].id,
                s.messages[a + 1 + j].content,
            )
    }
}

pub open spec fn reply_view(r: Result<CompletionResponse, LlmError>) -> Result<CompletionView, LlmErrorView> {
    match r {
        Ok(c) => Ok(c@),
        Err(e) => Err(e@),
    }
}

impl Conversation {
    /// Starts answering `user_content`; the first step is a model request.
    pub fn start(system: &str, user_content: &str) -> (r: (Conversation, AgentAction))
        ensures
            (r.0@, r.1@) == start_spec(system@, user_content@),
            conversation_wf(r.0@),
            r.0@.messages.len() == 2,
            r.0@.messages[0].role == Role::System && r.0@.messages[0].content == system@,
            r.0@.messages[1].role == Role::User && r.0@.messages[1].content == user_content@,
    {
        let messages: Vec<ChatMessage> = vec![ChatMessage::system(system), ChatMessage::user(user_content)];
        let c = Conversation {
            messages,
            attachments: Vec::new(),
            rounds: 1,
            next_tool: 0,
            phase: Phase::AwaitingModel,
        };
        proof {
            assert(c@.messages =~= start_spec(system@, user_content@).0.messages);
            assert(c@.attachments =~= Seq::<Seq<char>>::empty());
        }
        (c, AgentAction::AskModel)
    }

    pub fn phase(&self) -> (p: Phase)
        ensures
            p == self@.phase,
    {
        self.phase
    }

    /// The messages to send to the model.
    pub fn messages(&self) -> (m: &Vec<ChatMessage>)
        ensures
            m@.map_values(|x: ChatMessage| x@) == self@.messages,
    {
        &self.messages
    }

    /// The tool call to run now.
    pub fn pending_call(&self) -> (c: &ToolCall)
        requires
            conversation_wf(self@),
            self@.phase == Phase::RunningTools,
        ensures
            c@ == current_calls(self@)[self@.next_tool as int],
    {
        let a: usize = self.messages.len() - 1 - self.next_tool;
        assert(self@.messages[a as int] == self.messages@[a as int]@);
        &self.messages[a].tool_calls[self.next_tool]
    }

    /// Takes in the model's answer to the last request.
    pub fn on_model_answer(&mut self, answer: Result<CompletionResponse, LlmError>) -> (a: AgentAction)
        requires
            conversation_wf(old(self)@),
            old(self)@.phase == Phase::AwaitingModel,
        ensures
            (final(self)@, a@) == after_answer(old(self)@, reply_view(answer)),
            conversation_wf(final(self)@),
    {
        match answer {
            Err(e) => {
                let text = concat2("Sorry, something went wrong: ", e.to_string().as_str());
                self.phase = Phase::Finished;
                self.attachments = Vec::new();
                let a = AgentAction::Reply { text, attachments: Vec::new() };
                proof {
                    assert(self@.attachments =~= Seq::<Seq<char>>::empty());
                    assert(a@ == after_answer(old(self)@, reply_view(answer)).1);
                    assert(self@ == after_answer(old(self)@, reply_view(answer)).0);
                }
                a
            },
            Ok(c) => {
                let content = match c.content {
                    Some(t) => t,
                    None => String::new(),
                };
                if c.tool_calls.len() == 0 {
                    let mut taken: Vec<String> = Vec::new();
                    std::mem::swap(&mut taken, &mut self.attachments);
                    self.phase = Phase::Finished;
                    let a = AgentAction::Reply { text: content, attachments: taken };
                    proof {
                        assert(self@.attachments =~= Seq::<Seq<char>>::empty());
                        assert(self@ == after_answer(old(self)@, reply_view(answer)).0);
                    }
                    a
                } else {
                    let ghost calls_v = calls_view(c.tool_calls@);
                    let m = ChatMessage::assistant_with_tools(content, c.tool_calls);
                    let ghost before = self.messages@;
                    self.messages.push(m);
                    self.next_tool = 0;
                    self.phase = Phase::RunningTools;
                    proof {
                        assert(self@.messages =~= old(self)@.messages.push(
                            assistant_message(content_or_empty(reply_view(answer)->Ok_0.content), calls_v),
                        ));
                        assert(self@ == after_answer(old(self)@, reply_view(answer)).0);
                    }
                    AgentAction::RunTool { index: 0 }
                }
            },
        }
    }

    /// Takes in the result of the tool call that was run.
    pub fn on_tool_result(&mut self, result: ToolResult) -> (a: AgentAction)
        requires
            conversation_wf(old(self)@),
            old(self)@.phase == Phase::RunningTools,
        ensures
            (final(self)@, a@) == after_tool(old(self)@, result@),
            conversation_wf(final(self)@),
    {
        let a_idx: usize = self.messages.len() - 1 - self.next_tool;
        let ghost old_view = self@;
        assert(old_view.messages[a_idx as int] == self.messages@[a_idx as int]@);
        let ncalls: usize = self.messages[a_idx].tool_calls.len();
        let id: String = self.messages[a_idx].tool_calls[self.next_tool].id.clone();
        let ghost result_view = result@;
        let msg = ChatMessage::tool_result(id.as_str(), result.text.as_str());
        self.messages.push(msg);
        let ghost before_att = self.attachments.deep_view();
        let mut extra = result.attachments;
        self.attachments.append(&mut extra);
        assert(self.attachments.deep_view() =~= before_att + result_view.attachments);
        let k: usize = self.next_tool + 1;
        proof {
            assert(self@.messages =~= old_view.messages.push(
                tool_message(current_calls(old_view)[old_view.next_tool as int].id, result_view.text),
            ));
        }
        if k < ncalls {
            self.next_tool = k;
            proof {
                let s = self@;
                assert(answer_index(s) == answer_index(old_view));
                assert(s.messages[answer_index(s)] == old_view.messages[answer_index(old_view)]);
                assert forall|j: int| 0 <= j < s.next_tool implies #[trigger] s.messages[answer_index(s) + 1 + j]
                    == tool_message(current_calls(s)[j].id, s.messages[answer_index(s) + 1 + j].content) by {
                    if j < old_view.next_tool {
                        assert(s.messages[answer_index(s) + 1 + j] == old_view.messages[answer_index(old_view) + 1 + j]);
                    }
                }
            }
            AgentAction::RunTool { index: k }
        } else if self.rounds < MAX_TOOL_ROUNDS {
            self.rounds = self.rounds + 1;
            self.next_tool = 0;
            self.phase = Phase::AwaitingModel;
            AgentAction::AskModel
        } else {
            let mut taken: Vec<String> = Vec::new();
            std::mem::swap(&mut taken, &mut self.attachments);
            self.next_tool = k;
            self.phase = Phase::Finished;
            assert(self@.attachments =~= Seq::<Seq<char>>::empty());
            AgentAction::Reply {
                text: "I've reached the maximum number of steps. Please try again with a simpler request.".to_owned(),
                attachments: taken,
            }
        }
    }
}

// ---------------------------------------------------------------------------
// Laws of the conversation
// ---------------------------------------------------------------------------

/// A conversation starts well formed.
pub proof fn lemma_start_wf(system: Seq<char>, user: Seq<char>)
    ensures
        conversation_wf(start_spec(system, user).0),
        start_spec(system, user).0.rounds == 1,
{
}

/// The model first sees exactly two messages: the system text as the system
/// message and the user's message as the user message, both plain (no tool
/// data), and nothing has been gathered yet.
pub proof fn lemma_start_messages(system: Seq<char>, user: Seq<char>)
    ensures
        ({
            let (c, a) = start_spec(system, user);
            &&& c.messages.len() == 2
            &&& c.messages[0].role == Role::System
            &&& c.messages[0].content == system
            &&& c.messages[0].tool_call_id is None
            &&& c.messages[0].tool_calls.len() == 0
            &&& c.messages[1].role == Role::User
            &&& c.messages[1].content == user
            &&& c.messages[1].tool_call_id is None
            &&& c.messages[1].tool_calls.len() == 0
            &&& c.attachments.len() == 0
            &&& c.phase == Phase::AwaitingModel
            &&& a is AskModel
        }),
{
}

/// Taking in a model answer keeps a conversation well formed, keeps every
/// earlier message, and makes no new model request.
pub proof fn lemma_answer_step(s: ConversationView, answer: Result<CompletionView, LlmErrorView>)
    requires
        conversation_wf(s),
        s.phase == Phase::AwaitingModel,
    ensures
        conversation_wf(after_answer(s, answer).0),
        s.messages.is_prefix_of(after_answer(s, answer).0.messages),
        after_answer(s, answer).0.rounds == s.rounds,
        !(after_answer(s, answer).1 is AskModel),
{
    let t = after_answer(s, answer).0;
    assert(s.messages.is_prefix_of(t.messages)) by {
        assert(forall|i: int| 0 <= i < s.messages.len() ==> t.messages[i] == s.messages[i]);
    }
}

/// Taking in a tool result keeps a conversation well formed and keeps every
/// earlier message; a new model request is made only while fewer than
/// `MAX_TOOL_ROUNDS` were made, and it is counted.  So no user message leads
/// to more than `MAX_TOOL_ROUNDS` model requests.
pub proof fn lemma_tool_step(s: ConversationView, result: ToolResultView)
    requires
        conversation_wf(s),
        s.phase == Phase::RunningTools,
    ensures
        conversation_wf(after_tool(s, result).0),
        s.messages.is_prefix_of(after_tool(s, result).0.messages),
        after_tool(s, result).1 is AskModel ==> s.rounds < MAX_TOOL_ROUNDS && after_tool(
            s,
            result,
        ).0.rounds == s.rounds + 1,
        !(after_tool(s, result).1 is AskModel) ==> after_tool(s, result).0.rounds == s.rounds,
        after_tool(s, result).0.rounds <= MAX_TOOL_ROUNDS,
{
    let t = after_tool(s, result).0;
    assert(s.messages.is_prefix_of(t.messages)) by {
        assert(forall|i: int| 0 <= i < s.messages.len() ==> t.messages[i] == s.messages[i]);
    }
    if t.phase == Phase::RunningTools {
        let calls = current_calls(s);
        assert(answer_index(t) == answer_index(s));
        assert(t.messages[answer_index(t)] == s.messages[answer_index(s)]);
        assert forall|j: int| 0 <= j < t.next_tool implies #[trigger] t.messages[answer_index(t) + 1 + j]
            == tool_message(current_calls(t)[j].id, t.messages[answer_index(t) + 1 + j].content) by {
            if j < s.next_tool {
                assert(t.messages[answer_index(t) + 1 + j] == s.messages[answer_index(s) + 1 + j]);
            }
        }
    }
}

/// The files of a reply are those of every tool result taken in since the
/// conversation's start, in order: each tool step appends its result's
/// files to those kept so far.
pub proof fn lemma_tool_step_attachments(s: ConversationView, result: ToolResultView)
    requires
        conversation_wf(s),
        s.phase == Phase::RunningTools,
    ensures
        match after_tool(s, result) {
            (t, ActionView::Reply { text, attachments }) => attachments == s.attachments
                + result.attachments && t.attachments.len() == 0,
            (t, _) => t.attachments == s.attachments + result.attachments,
        },
{
}

/// The files of a list of tool results, in order.
pub open spec fn result_files(results: Seq<ToolResultView>) -> Seq<Seq<char>>
    decreases results.len(),
{
    if results.len() == 0 {
        Seq::empty()
    } else {
        result_files(results.drop_last()) + results.last().attachments
    }
}

/// The conversation after taking in `results`, one after the other, and
/// the last action.
pub open spec fn after_tools(s: ConversationView, results: Seq<ToolResultView>) -> (ConversationView, ActionView)
    decreases results.len(),
{
    if results.len() == 0 {
        (s, ActionView::RunTool { index: s.next_tool })
    } else {
        after_tool(after_tools(s, results.drop_last()).0, results.last())
    }
}

/// The tool messages that answer `calls` with `results`, in order.
pub open spec fn tool_messages(calls: Seq<ToolCallView>, results: Seq<ToolResultView>) -> Seq<ChatMessageView> {
    Seq::new(results.len(), |i: int| tool_message(calls[i].id, results[i].text))
}

proof fn lemma_tools_prefix(s: ConversationView, c: CompletionView, results: Seq<ToolResultView>, k: int)
    requires
        s.phase == Phase::AwaitingModel,
        c.tool_calls.len() > 0,
        results.len() == c.tool_calls.len(),
        0 <= k < results.len(),
    ensures
        ({
            let t = after_answer(s, Ok(c)).0;
            let u = after_tools(t, results.take(k)).0;
            &&& u.phase == Phase::RunningTools
            &&& u.next_tool == k
            &&& u.rounds == s.rounds
            &&& u.messages == s.messages.push(assistant_message(content_or_empty(c.content), c.tool_calls))
                + tool_messages(c.tool_calls, results.take(k))
            &&& u.attachments == s.attachments + result_files(results.take(k))
        }),
    decreases k,
{
    let t = after_answer(s, Ok(c)).0;
    let base = s.messages.push(assistant_message(content_or_empty(c.content), c.tool_calls));
    if k == 0 {
        assert(results.take(0) =~= Seq::<ToolResultView>::empty());
        assert(base + tool_messages(c.tool_calls, results.take(0)) =~= base);
        assert(s.attachments + result_files(results.take(0)) =~= s.attachments);
    } else {
        lemma_tools_prefix(s, c, results, k - 1);
        let u = after_tools(t, results.take(k - 1)).0;
        assert(results.take(k).drop_last() =~= results.take(k - 1));
        assert(results.take(k).last() == results[k - 1]);
        assert(answer_index(u) == s.messages.len());
        assert(u.messages[answer_index(u)] == base[s.messages.len() as int]);
        assert(current_calls(u) == c.tool_calls);
        assert(tool_messages(c.tool_calls, results.take(k)) =~= tool_messages(c.tool_calls, results.take(k - 1)).push(
            tool_message(c.tool_calls[k - 1].id, results[k - 1].text),
        ));
        assert(after_tools(t, results.take(k)).0.messages =~= base + tool_messages(c.tool_calls, results.take(k)));
        assert(after_tools(t, results.take(k)).0.attachments =~= s.attachments + result_files(results.take(k)));
    }
}

/// One round of a conversation: a model answer with tool calls, then one
/// result per call.  The messages grow by the assistant's message and then
/// one tool message per call, in order; the files of the results are kept
/// in order; then the model is asked again, or, after the last allowed
/// request, the reply gives up with all files gathered.
pub proof fn lemma_round(s: ConversationView, c: CompletionView, results: Seq<ToolResultView>)
    requires
        conversation_wf(s),
        s.phase == Phase::AwaitingModel,
        c.tool_calls.len() > 0,
        results.len() == c.tool_calls.len(),
    ensures
        ({
            let t = after_answer(s, Ok(c)).0;
            let (u, a) = after_tools(t, results);
            &&& u.messages == s.messages.push(assistant_message(content_or_empty(c.content), c.tool_calls))
                + tool_messages(c.tool_calls, results)
            &&& if s.rounds < MAX_TOOL_ROUNDS {
                &&& a is AskModel
                &&& u.phase == Phase::AwaitingModel
                &&& u.rounds == s.rounds + 1
                &&& u.attachments == s.attachments + result_files(results)
            } else {
                &&& a == (ActionView::Reply {
                    text: max_steps_text(),
                    attachments: s.attachments + result_files(results),
                })
                &&& u.phase == Phase::Finished
            }
        }),
{
    let n = results.len() as int;
    let t = after_answer(s, Ok(c)).0;
    let base = s.messages.push(assistant_message(content_or_empty(c.content), c.tool_calls));
    lemma_tools_prefix(s, c, results, n - 1);
    let u = after_tools(t, results.take(n - 1)).0;
    assert(results.drop_last() =~= results.take(n - 1));
    assert(answer_index(u) == s.messages.len());
    assert(u.messages[answer_index(u)] == base[s.messages.len() as int]);
    assert(current_calls(u) == c.tool_calls);
    assert(tool_messages(c.tool_calls, results) =~= tool_messages(c.tool_calls, results.take(n - 1)).push(
        tool_message(c.tool_calls[n - 1].id, results[n - 1].text),
    ));
    assert(after_tools(t, results).0.messages =~= base + tool_messages(c.tool_calls, results));
    assert(result_files(results) == result_files(results.take(n - 1)) + results[n - 1].attachments);
    assert(s.attachments + result_files(results) =~= s.attachments + result_files(results.take(n - 1))
        + results[n - 1].attachments);
}

// ---------------------------------------------------------------------------
// Developer commands
// ---------------------------------------------------------------------------

/// The first tool named `name`.
pub open spec fn find_tool(defs: Seq<ToolDefinition>, name: Seq<char>) -> Option<int>
    decreases defs.len(),
{
    if defs.len() == 0 {
        None
    } else if defs[0].name@ == name {
        Some(0)
    } else {
        match find_tool(defs.drop_first(), name) {
            Some(i) => Some(i + 1),
            None => None,
        }
    }
}

proof fn lemma_find_tool_at(defs: Seq<ToolDefinition>, name: Seq<char>, i: int)
    requires
        0 <= i <= defs.len(),
        forall|k: int| 0 <= k < i ==> #[trigger] defs[k].name@ != name,
        i < defs.len() ==> defs[i].name@ == name,
    ensures
        find_tool(defs, name) == (if i < defs.len() { Some(i) } else { None::<int> }),
    decreases defs.len(),
{
    if defs.len() > 0 && i > 0 {
        assert forall|k: int| 0 <= k < i - 1 implies #[trigger] defs.drop_first()[k].name@ != name by {
            assert(defs.drop_first()[k] == defs[k + 1]);
        }
        lemma_find_tool_at(defs.drop_first(), name, i - 1);
    }
}

/// The position of the first tool named `name`.
pub fn find_definition(defs: &Vec<ToolDefinition>, name: &str) -> (r: Option<usize>)
    ensures
        r matches Some(i) ==> i < defs@.len(),
        match r {
            Some(i) => find_tool(defs@, name@) == Some(i as int),
            None => find_tool(defs@, name@) is None,
        },
{
    let mut i: usize = 0;
    while i < defs.len()
        invariant
            i <= defs@.len(),
            forall|k: int| 0 <= k < i ==> #[trigger] defs@[k].name@ != name@,
        decreases defs@.len() - i,
    {
        if str_eq(defs[i].name.as_str(), name) {
            proof {
                lemma_find_tool_at(defs@, name@, i as int);
            }
            return Some(i);
        }
        i = i + 1;
    }
    proof {
        lemma_find_tool_at(defs@, name@, i as int);
    }
    None
}

/// How a tool is called directly: raw text for a tool whose only argument
/// is `content`, a JSON object for other tools with arguments, nothing else
/// for tools without arguments.
pub open spec fn usage_text(def: ToolDefinition) -> Seq<char> {
    if takes_raw_content(def) {
        "/"@ + def.name@ + " <text or JSON args>"@
    } else if accepts_args(def) {
        "/"@ + def.name@ + " <JSON args>"@
    } else {
        "/"@ + def.name@
    }
}

pub fn direct_tool_usage(def: &ToolDefinition) -> (r: String)
    ensures
        r@ == usage_text(*def),
{
    if supports_raw_content_arg(def) {
        concat3("/", def.name.as_str(), " <text or JSON args>")
    } else if tool_accepts_args(def) {
        concat3("/", def.name.as_str(), " <JSON args>")
    } else {
        concat2("/", def.name.as_str())
    }
}

pub open spec fn tool_list_line(def: ToolDefinition) -> Seq<char> {
    "- "@ + usage_text(def) + ": "@ + def.description@
}

pub open spec fn tool_list_header() -> Seq<Seq<char>> {
    seq![
        "开发模式 CLI 可直接调用以下工具："@,
        "/list - 展示所有可直接调用的工具"@,
        "直接输入普通消息时，仍会按原流程发送给 Agent。"@,
        Seq::<char>::empty(),
    ]
}

/// The answer to `/list`: a header, then one line per tool.
pub open spec fn tool_list_text(defs: Seq<ToolDefinition>) -> Seq<char> {
    join(tool_list_header() + defs.map_values(|d: ToolDefinition| tool_list_line(d)), "\n"@)
}

pub fn format_tool_list(defs: &Vec<ToolDefinition>) -> (r: String)
    ensures
        r@ == tool_list_text(defs@),
{
    let mut lines: Vec<String> = vec![
        "开发模式 CLI 可直接调用以下工具：".to_owned(),
        "/list - 展示所有可直接调用的工具".to_owned(),
        "直接输入普通消息时，仍会按原流程发送给 Agent。".to_owned(),
        String::new(),
    ];
    let ghost head = lines.deep_view();
    assert(head =~= tool_list_header());
    let ghost body = defs@.map_values(|d: ToolDefinition| tool_list_line(d));
    let mut i: usize = 0;
    while i < defs.len()
        invariant
            i <= defs@.len(),
            head == tool_list_header(),
            body == defs@.map_values(|d: ToolDefinition| tool_list_line(d)),
            lines.deep_view() == head + body.take(i as int),
        decreases defs@.len() - i,
    {
        let usage = direct_tool_usage(&defs[i]);
        let mut line = concat3("- ", usage.as_str(), ": ");
        line.append(defs[i].description.as_str());
        assert(line@ == body[i as int]);
        let ghost before = lines.deep_view();
        lines.push(line);
        assert(lines.deep_view() =~= before.push(body[i as int]));
        assert(head + body.take(i + 1) =~= (head + body.take(i as int)).push(body[i as int]));
        i = i + 1;
    }
    assert(body.take(body.len() as int) =~= body);
    join_strings(&lines, "\n")
}

/// An object whose only member is `content` with the string `raw`.
pub open spec fn is_content_object(v: JsonValue, raw: Seq<char>) -> bool {
    &&& v is Object
    &&& v->Object_0@.len() == 1
    &&& v->Object_0@[0].0@ == "content"@
    &&& v->Object_0@[0].1.as_str_spec() == Some(raw)
}

pub open spec fn not_object_message() -> Seq<char> {
    "参数必须是 JSON 对象"@
}

pub open spec fn bad_json_message(err: Seq<char>) -> Seq<char> {
    "参数不是合法 JSON："@ + err
}

/// The arguments of a direct call given the JSON reading `parsed` of the
/// (nonblank) text `raw`: a JSON object is taken as it is; other JSON is
/// refused; text that is not JSON becomes `{"content": raw}` for a tool
/// that takes raw text and is refused for others.
pub open spec fn direct_args_from(def: ToolDefinition, raw: Seq<char>, parsed: Result<JsonValue, Seq<char>>, r: Result<JsonValue, String>) -> bool {
    match parsed {
        Ok(v) => if v is Object {
            r == Ok::<JsonValue, String>(v)
        } else {
            r matches Err(e) && e@ == not_object_message()
        },
        Err(msg) => if takes_raw_content(def) {
            r matches Ok(v) && is_content_object(v, raw)
        } else {
            r matches Err(e) && e@ == bad_json_message(msg)
        },
    }
}

/// The arguments of a direct call: an empty object for empty text,
/// otherwise what the JSON reading of the text gives (`direct_args_from`).
pub open spec fn direct_args(def: ToolDefinition, raw: Seq<char>, r: Result<JsonValue, String>) -> bool {
    if raw.len() == 0 {
        r matches Ok(v) && v.object_len_spec() == Some(0nat)
    } else {
        direct_args_from(def, raw, json_parse(raw), r)
    }
}

/// The refusal, if any, of the text `raw` as the arguments of a direct call.
pub open spec fn direct_args_error(def: ToolDefinition, raw: Seq<char>) -> Option<Seq<char>> {
    if raw.len() == 0 {
        None
    } else {
        match json_parse(raw) {
            Ok(v) => if v is Object {
                None
            } else {
                Some(not_object_message())
            },
            Err(m) => if takes_raw_content(def) {
                None
            } else {
                Some(bad_json_message(m))
            },
        }
    }
}

/// Decides the arguments of a direct call once the text has been read as
/// JSON (`parsed` is the document or the reader's error).
pub fn direct_args_from_parse(def: &ToolDefinition, raw_args: &str, parsed: Result<JsonValue, String>) -> (r: Result<JsonValue, String>)
    ensures
        direct_args_from(*def, raw_args@, match parsed { Ok(v) => Ok(v), Err(e) => Err(e@) }, r),
{
    match parsed {
        Ok(value) => match value {
            JsonValue::Object(entries) => Ok(JsonValue::Object(entries)),
            _ => Err("参数必须是 JSON 对象".to_owned()),
        },
        Err(err) => {
            if supports_raw_content_arg(def) {
                let content = JsonValue::Str(raw_args.to_owned());
                Ok(JsonValue::Object(vec![("content".to_owned(), content)]))
            } else {
                Err(concat2("参数不是合法 JSON：", err.as_str()))
            }
        },
    }
}

/// The arguments of a direct call, read from the text after the command.
pub fn parse_direct_tool_args(def: &ToolDefinition, raw_args: &str) -> (r: Result<JsonValue, String>)
    ensures
        direct_args(*def, raw_args@, r),
{
    if raw_args.is_empty() {
        return Ok(JsonValue::empty_object());
    }
    let parsed = parse_json(raw_args);
    direct_args_from_parse(def, raw_args, parsed)
}

/// What a message turns out to be.
#[derive(Debug)]
pub enum DevCommand {
    /// Not a developer command: the message goes to the model.
    NotCommand,
    /// A command answered at once (a listing or a refusal).
    Reply(String),
    /// Run the tool `tool` (a position in the definitions) with `args`.
    Invoke { tool: usize, args: JsonValue },
}

/// The name and the argument text of a command (the text after the `'/'`s).
pub open spec fn command_parts(command: Seq<char>) -> (Seq<char>, Seq<char>) {
    match split_once(command, ' ') {
        Some((n, r)) => (trim(n), trim(r)),
        None => (trim(command), Seq::empty()),
    }
}

pub open spec fn unknown_command_message(name: Seq<char>) -> Seq<char> {
    "未知开发模式命令：/"@ + name + "\n输入 /list 查看可直接调用的工具。"@
}

pub open spec fn bad_args_message(def: ToolDefinition, err: Seq<char>) -> Seq<char> {
    "无法直接调用 /"@ + def.name@ + "："@ + err + "\n参数示例："@ + usage_text(def)
}

/// Whether a message is handled as a developer command, and how.  Only in
/// development mode, only on the command line, and only for text starting
/// with `'/'`: `/list` (any ASCII case) lists the tools; `/name args` calls
/// the tool `name` with `args` (see `direct_args`); anything else is
/// answered with a hint.
pub open spec fn dev_command_spec(dev_mode: bool, msg: IncomingMessage, defs: Seq<ToolDefinition>, r: DevCommand) -> bool {
    let content = trim(msg.content@);
    let (name, raw) = command_parts(trim_start_char(content, '/'));
    if !dev_mode || msg.channel@ != "cli"@ || !starts_with(content, seq!['/']) {
        r is NotCommand
    } else if lower(name) == lower("list"@) {
        r matches DevCommand::Reply(t) && t@ == tool_list_text(defs)
    } else {
        match find_tool(defs, name) {
            None => r matches DevCommand::Reply(t) && t@ == unknown_command_message(name),
            Some(i) => {
                let def = defs[i];
                match direct_args_error(def, raw) {
                    Some(m) => r matches DevCommand::Reply(t) && t@ == bad_args_message(def, m),
                    None => r matches DevCommand::Invoke { tool, args } && tool == i
                        && direct_args(def, raw, Ok::<JsonValue, String>(args)),
                }
            },
        }
    }
}

/// Decides whether `msg` is a developer command.
pub fn dev_command(dev_mode: bool, msg: &IncomingMessage, defs: &Vec<ToolDefinition>) -> (r: DevCommand)
    ensures
        dev_command_spec(dev_mode, *msg, defs@, r),
{
    if !dev_mode || !str_eq(msg.channel.as_str(), "cli") {
        return DevCommand::NotCommand;
    }
    let content = trim_str(msg.content.as_str());
    if !starts_with_str(content.as_str(), "/") {
        proof {
            reveal_strlit("/");
            assert("/"@ =~= seq!['/']);
        }
        return DevCommand::NotCommand;
    }
    proof {
        reveal_strlit("/");
        assert("/"@ =~= seq!['/']);
    }
    let command = trim_start_matches_char(content.as_str(), '/');
    let (name, raw_args) = match split_once_char(command.as_str(), ' ') {
        Some((n, r)) => (trim_str(n.as_str()), trim_str(r.as_str())),
        None => (trim_str(command.as_str()), String::new()),
    };
    assert((name@, raw_args@) == command_parts(command@));
    if eq_ignore_ascii_case(name.as_str(), "list") {
        return DevCommand::Reply(format_tool_list(defs));
    }
    let index = match find_definition(defs, name.as_str()) {
        Some(i) => i,
        None => {
            let t = concat3("未知开发模式命令：/", name.as_str(), "\n输入 /list 查看可直接调用的工具。");
            return DevCommand::Reply(t);
        },
    };
    let def = &defs[index];
    assert(find_tool(defs@, name@) == Some(index as int));
    match parse_direct_tool_args(def, raw_args.as_str()) {
        Ok(args) => {
            let r = DevCommand::Invoke { tool: index, args };
            assert(dev_command_spec(dev_mode, *msg, defs@, r));
            r
        },
        Err(err) => {
            let usage = direct_tool_usage(def);
            let mut t = concat3("无法直接调用 /", def.name.as_str(), "：");
            t.append(err.as_str());
            t.append("\n参数示例：");
            t.append(usage.as_str());
            assert(direct_args_error(*def, raw_args@) == Some(err@));
            let r = DevCommand::Reply(t);
            assert(dev_command_spec(dev_mode, *msg, defs@, r));
            r
        },
    }
}

pub open spec fn direct_reply_text(name: Seq<char>, text: Seq<char>) -> Seq<char> {
    "直接调用 /"@ + name + " 的结果：\n"@ + text
}

/// The reply to a direct call of the tool `name`: its text, with its files.
pub fn direct_call_reply(name: &str, result: ToolResult) -> (r: (String, Vec<String>))
    ensures
        r.0@ == direct_reply_text(name@, result@.text),
        r.1.deep_view() == result@.attachments,
{
    let mut t = concat3("直接调用 /", name, " 的结果：\n");
    t.append(result.text.as_str());
    (t, result.attachments)
}

/// What is typed in the command line's multi-line mode reaches
/// `write_resume` as its `content`: the message that `/end` sends, read as a
/// developer command, calls the first tool named `write_resume` (one that
/// takes raw text) with the collected lines joined by `'\n'`, surrounding
/// whitespace removed, unless that text is itself a JSON document.
pub proof fn lemma_multiline_write_reaches_tool(
    lines: Seq<Seq<char>>,
    end_line: Seq<char>,
    msg: IncomingMessage,
    defs: Seq<ToolDefinition>,
    r: DevCommand,
)
    requires
        cli_step(CliModeView::Multiline(lines), end_line).1 matches CliOutcome::Send(c) && c
            == msg.content@,
        msg.channel@ == "cli"@,
        trim(join(lines, "\n"@)).len() > 0,
        json_parse(trim(join(lines, "\n"@))) is Err,
        find_tool(defs, "write_resume"@) matches Some(i) && takes_raw_content(defs[i]),
        dev_command_spec(true, msg, defs, r),
    ensures
        r matches DevCommand::Invoke { tool, args } && find_tool(defs, "write_resume"@) == Some(
            tool as int,
        ) && is_content_object(args, trim(join(lines, "\n"@))),
{
    reveal_strlit("/write_resume ");
    reveal_strlit("write_resume");
    reveal_strlit("list");
    reveal_strlit("cli");
    let j = join(lines, "\n"@);
    let t = trim(j);
    let p = "/write_resume "@;
    assert(msg.content@ == p + j);
    // The text of `j` without its leading whitespace `x`, then without its
    // trailing whitespace, is `t`.
    let k = lemma_trim_start_split(j);
    let x = j.take(k);
    assert(j =~= x + j.skip(k));
    lemma_trim_end_append(x, j.skip(k));
    lemma_trim_end_append(p, j);
    lemma_trim_ends(j);
    // The message, trimmed: nothing leads, the tail of `j` goes.
    let c = p + j;
    assert(!is_whitespace(c[0]));
    assert(trim_start(c) == c);
    let content = p + (x + t);
    assert(trim(c) =~= content);
    assert(content.take(1) =~= seq!['/']);
    // Its command and argument text.
    assert(content.drop_first()[0] == 'w');
    assert(trim_start_char(content.drop_first(), '/') == content.drop_first());
    let command = content.drop_first();
    assert forall|m: int| 0 <= m < 12 implies command[m] != ' ' by {}
    assert(command[12] == ' ');
    lemma_find_char_at(command, ' ', 12);
    assert(command.take(12) =~= "write_resume"@);
    lemma_trim_of_trimmed(command.take(12));
    assert(command.skip(13) =~= x + t);
    assert forall|m: int| 0 <= m < x.len() implies is_whitespace(#[trigger] x[m]) by {
        assert(x[m] == j[m]);
    }
    lemma_trim_start_after_blank(x, t);
    lemma_trim_of_trimmed(t);
    assert(trim(x + t) == t);
    assert(command_parts(command) == ("write_resume"@, t));
    assert(lower("write_resume"@) != lower("list"@)) by {
        assert(lower("write_resume"@).len() != lower("list"@).len());
    }
}

} // verus!
