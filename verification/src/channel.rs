//! Messages that arrive from chat channels, the replies sent back, and the
//! decisions of the command-line and Discord channels.

use vstd::prelude::*;
use crate::text::{
    concat2, decimal, decimal_string, join, join_strings, lemma_decimal_round_trip, parse_unsigned,
    parse_unsigned_str, trim, trim_str,
};
use crate::json::str_eq;

verus! {

/// A message received from a channel.
#[derive(Debug, Clone)]
pub struct IncomingMessage {
    /// Message id (platform-specific).
    pub id: String,
    /// The channel it came from (`"cli"`, `"discord"`, ...).
    pub channel: String,
    pub user_id: String,
    pub user_name: String,
    pub content: String,
    /// Conversation the reply belongs to.
    pub thread_id: Option<String>,
}

/// A reply for a channel.
#[derive(Debug, Clone)]
pub struct OutgoingResponse {
    pub content: String,
    pub thread_id: Option<String>,
    /// Files to hand to the user (paths).
    pub attachments: Vec<String>,
}

// ---------------------------------------------------------------------------
// Command line
// ---------------------------------------------------------------------------

/// The local command-line channel.
pub struct CliChannel;

impl CliChannel {
    pub fn name(&self) -> (r: &'static str)
        ensures
            r@ == "cli"@,
    {
        "cli"
    }
}

/// What the command line is collecting.
pub enum CliInputMode {
    Normal,
    /// Lines of a `/write_resume` text, entered one per line.
    WriteResumeMultiline { lines: Vec<String> },
}

/// What to do with one line typed at the command line.
#[derive(Debug)]
pub enum CliEvent {
    /// Nothing.
    Ignore,
    /// Show a notice to the user.
    Notice(String),
    /// Hand a message to the agent.
    Send(IncomingMessage),
}

/// The command-line reader: its mode and the id of the last message sent.
pub struct CliInput {
    pub mode: CliInputMode,
    pub last_id: u64,
}

pub enum CliModeView {
    Normal,
    Multiline(Seq<Seq<char>>),
}

pub open spec fn mode_view(m: CliInputMode) -> CliModeView {
    match m {
        CliInputMode::Normal => CliModeView::Normal,
        CliInputMode::WriteResumeMultiline { lines } => CliModeView::Multiline(lines.deep_view()),
    }
}

/// What a line typed at the command line becomes, as text to hand to the
/// agent, a notice, or nothing.
pub enum CliOutcome {
    Ignore,
    Notice(Seq<char>),
    Send(Seq<char>),
}

pub open spec fn enter_notice() -> Seq<char> {
    "进入 /write_resume 多行输入模式；输入 /end 提交，输入 /cancel 取消。"@
}

pub open spec fn cancel_notice() -> Seq<char> {
    "已取消 /write_resume 多行输入。"@
}

pub open spec fn empty_notice() -> Seq<char> {
    "未检测到任何内容；继续保持在 /write_resume 多行输入模式。"@
}

/// The command-line rules for one line: blank lines are skipped;
/// `/write_resume` starts collecting lines, `/cancel` drops them, `/end`
/// sends `"/write_resume "` followed by the collected lines joined with
/// `'\n'` (unless none were collected); other lines are sent trimmed in
/// normal mode and collected as typed otherwise.
pub open spec fn cli_step(mode: CliModeView, line: Seq<char>) -> (CliModeView, CliOutcome) {
    let t = trim(line);
    match mode {
        CliModeView::Normal => if t.len() == 0 {
            (mode, CliOutcome::Ignore)
        } else if t == "/write_resume"@ {
            (CliModeView::Multiline(Seq::empty()), CliOutcome::Notice(enter_notice()))
        } else {
            (mode, CliOutcome::Send(t))
        },
        CliModeView::Multiline(lines) => if t == "/cancel"@ {
            (CliModeView::Normal, CliOutcome::Notice(cancel_notice()))
        } else if t == "/end"@ {
            if lines.len() == 0 {
                (mode, CliOutcome::Notice(empty_notice()))
            } else {
                (CliModeView::Normal, CliOutcome::Send("/write_resume "@ + join(lines, "\n"@)))
            }
        } else {
            (CliModeView::Multiline(lines.push(line)), CliOutcome::Ignore)
        },
    }
}

/// The mode after typing `typed`, line by line, from `mode`.
pub open spec fn cli_mode_after(mode: CliModeView, typed: Seq<Seq<char>>) -> CliModeView
    decreases typed.len(),
{
    if typed.len() == 0 {
        mode
    } else {
        cli_step(cli_mode_after(mode, typed.drop_last()), typed.last()).0
    }
}

/// In the multi-line mode every line that is neither `/cancel` nor `/end`
/// (surrounding whitespace aside) is kept exactly as typed, blank lines
/// included, and nothing is shown or sent for it.
pub proof fn lemma_multiline_keeps_line(lines: Seq<Seq<char>>, line: Seq<char>)
    requires
        trim(line) != "/cancel"@,
        trim(line) != "/end"@,
    ensures
        cli_step(CliModeView::Multiline(lines), line) == (CliModeView::Multiline(lines.push(line)), CliOutcome::Ignore),
{
}

/// After `/write_resume`, typing lines that are neither `/cancel` nor `/end`
/// collects all of them, in order and as typed; `/end` then sends
/// `"/write_resume "` followed by those lines joined with `'\n'`.
pub proof fn lemma_multiline_entry(typed: Seq<Seq<char>>, end_line: Seq<char>)
    requires
        forall|k: int| 0 <= k < typed.len() ==> trim(#[trigger] typed[k]) != "/cancel"@ && trim(typed[k]) != "/end"@,
        trim(end_line) == "/end"@,
        typed.len() > 0,
    ensures
        cli_mode_after(CliModeView::Multiline(Seq::empty()), typed) == CliModeView::Multiline(typed),
        cli_step(cli_mode_after(CliModeView::Multiline(Seq::empty()), typed), end_line) == (
            CliModeView::Normal,
            CliOutcome::Send("/write_resume "@ + join(typed, "\n"@)),
        ),
{
    lemma_collects(typed);
    reveal_strlit("/end");
    reveal_strlit("/cancel");
    assert("/end"@.len() != "/cancel"@.len());
}

proof fn lemma_collects(typed: Seq<Seq<char>>)
    requires
        forall|k: int| 0 <= k < typed.len() ==> trim(#[trigger] typed[k]) != "/cancel"@ && trim(typed[k]) != "/end"@,
    ensures
        cli_mode_after(CliModeView::Multiline(Seq::empty()), typed) == CliModeView::Multiline(typed),
    decreases typed.len(),
{
    if typed.len() > 0 {
        assert forall|k: int| 0 <= k < typed.drop_last().len() implies trim(#[trigger] typed.drop_last()[k])
            != "/cancel"@ && trim(typed.drop_last()[k]) != "/end"@ by {
            assert(typed.drop_last()[k] == typed[k]);
        }
        lemma_collects(typed.drop_last());
        assert(trim(typed[typed.len() - 1]) != "/end"@);
        assert(trim(typed[typed.len() - 1]) != "/cancel"@);
        assert(typed.drop_last().push(typed.last()) =~= typed);
    } else {
        assert(typed =~= Seq::<Seq<char>>::empty());
    }
}

/// The message the command line hands to the agent.
pub open spec fn cli_message(msg: IncomingMessage, id: nat, content: Seq<char>) -> bool {
    &&& msg.id@ == decimal(id)
    &&& msg.channel@ == "cli"@
    &&& msg.user_id@ == "local"@
    &&& msg.user_name@ == "user"@
    &&& msg.content@ == content
    &&& msg.thread_id is None
}

impl CliInput {
    pub fn new() -> (r: CliInput)
        ensures
            mode_view(r.mode) == CliModeView::Normal,
            r.last_id == 0,
    {
        CliInput { mode: CliInputMode::Normal, last_id: 0 }
    }

    /// A message from the command line with the next id.
    fn next_message(&mut self, content: String) -> (m: IncomingMessage)
        requires
            old(self).last_id < u64::MAX,
        ensures
            final(self).last_id == old(self).last_id + 1,
            mode_view(final(self).mode) == mode_view(old(self).mode),
            cli_message(m, final(self).last_id as nat, content@),
    {
        self.last_id = self.last_id + 1;
        IncomingMessage {
            id: decimal_string(self.last_id),
            channel: "cli".to_owned(),
            user_id: "local".to_owned(),
            user_name: "user".to_owned(),
            content,
            thread_id: None,
        }
    }

    /// Handles one line read from standard input.
    pub fn on_line(&mut self, line: &str) -> (e: CliEvent)
        requires
            old(self).last_id < u64::MAX,
        ensures
            ({
                let (mode, outcome) = cli_step(mode_view(old(self).mode), line@);
                &&& mode_view(final(self).mode) == mode
                &&& match (e, outcome) {
                    (CliEvent::Ignore, CliOutcome::Ignore) => final(self).last_id == old(
                        self,
                    ).last_id,
                    (CliEvent::Notice(n), CliOutcome::Notice(m)) => n@ == m && final(self).last_id
                        == old(self).last_id,
                    (CliEvent::Send(msg), CliOutcome::Send(c)) => final(self).last_id == old(
                        self,
                    ).last_id + 1 && cli_message(msg, final(self).last_id as nat, c),
                    _ => false,
                }
            }),
    {
        let trimmed = trim_str(line);
        let is_write = str_eq(trimmed.as_str(), "/write_resume");
        let is_cancel = str_eq(trimmed.as_str(), "/cancel");
        let is_end = str_eq(trimmed.as_str(), "/end");
        let mut mode = CliInputMode::Normal;
        std::mem::swap(&mut mode, &mut self.mode);
        match mode {
            CliInputMode::Normal => {
                if trimmed.as_str().is_empty() {
                    CliEvent::Ignore
                } else if is_write {
                    let lines: Vec<String> = Vec::new();
                    assert(lines.deep_view() =~= Seq::<Seq<char>>::empty());
                    self.mode = CliInputMode::WriteResumeMultiline { lines };
                    CliEvent::Notice(
                        "进入 /write_resume 多行输入模式；输入 /end 提交，输入 /cancel 取消。".to_owned(),
                    )
                } else {
                    let m = self.next_message(trimmed);
                    CliEvent::Send(m)
                }
            },
            CliInputMode::WriteResumeMultiline { mut lines } => {
                if is_cancel {
                    CliEvent::Notice("已取消 /write_resume 多行输入。".to_owned())
                } else if is_end {
                    if lines.len() == 0 {
                        self.mode = CliInputMode::WriteResumeMultiline { lines };
                        CliEvent::Notice(
                            "未检测到任何内容；继续保持在 /write_resume 多行输入模式。".to_owned(),
                        )
                    } else {
                        let content = join_strings(&lines, "\n");
                        let text = concat2("/write_resume ", content.as_str());
                        let m = self.next_message(text);
                        CliEvent::Send(m)
                    }
                } else {
                    let ghost before = lines.deep_view();
                    lines.push(line.to_owned());
                    assert(lines.deep_view() =~= before.push(line@));
                    self.mode = CliInputMode::WriteResumeMultiline { lines };
                    CliEvent::Ignore
                }
            },
        }
    }
}

// ---------------------------------------------------------------------------
// Routing between channels
// ---------------------------------------------------------------------------

/// The channels that are registered, by name, each name once; the caller
/// keeps the channel itself at the same position.  Replies are routed to the
/// channel a message came from.
pub struct ChannelManager {
    names: Vec<String>,
    started: bool,
}

pub struct ChannelManagerView {
    pub names: Seq<Seq<char>>,
    pub started: bool,
}

impl View for ChannelManager {
    type V = ChannelManagerView;

    closed spec fn view(&self) -> ChannelManagerView {
        ChannelManagerView { names: self.names.deep_view(), started: self.started }
    }
}

/// The names after registering a channel called `name`, and its position:
/// a channel with a name already registered takes the place of the old one.
pub open spec fn channel_added(names: Seq<Seq<char>>, name: Seq<char>) -> (Seq<Seq<char>>, int) {
    if names.contains(name) {
        (names, names.index_of(name))
    } else {
        (names.push(name), names.len() as int)
    }
}

pub open spec fn unknown_channel_message(name: Seq<char>) -> Seq<char> {
    "unknown channel: "@ + name
}

pub open spec fn already_started_message() -> Seq<char> {
    "channels already started"@
}

/// Starting the channels: the first time succeeds, every later time is
/// refused; the registered names stay as they are.
pub open spec fn start_all_spec(m: ChannelManagerView) -> (ChannelManagerView, Result<(), Seq<char>>) {
    (
        ChannelManagerView { names: m.names, started: true },
        if m.started {
            Err(already_started_message())
        } else {
            Ok(())
        },
    )
}

impl ChannelManager {
    pub fn new() -> (r: ChannelManager)
        ensures
            r@.names == Seq::<Seq<char>>::empty(),
            !r@.started,
    {
        let r = ChannelManager { names: Vec::new(), started: false };
        assert(r@.names =~= Seq::<Seq<char>>::empty());
        r
    }

    /// Registers a channel called `name` and says at which position the
    /// caller keeps it.
    pub fn add(&mut self, name: &str) -> (i: usize)
        requires
            old(self)@.names.no_duplicates(),
        ensures
            final(self)@.names == channel_added(old(self)@.names, name@).0,
            i == channel_added(old(self)@.names, name@).1,
            final(self)@.names.no_duplicates(),
            final(self)@.started == old(self)@.started,
            i < final(self)@.names.len(),
            final(self)@.names[i as int] == name@,
    {
        let ghost before = self.names.deep_view();
        let mut k: usize = 0;
        while k < self.names.len()
            invariant
                k <= self.names@.len(),
                before == self.names.deep_view(),
                before.no_duplicates(),
                forall|j: int| 0 <= j < k ==> #[trigger] before[j] != name@,
            decreases self.names@.len() - k,
        {
            if str_eq(self.names[k].as_str(), name) {
                assert(before[k as int] == name@);
                assert(before.contains(name@));
                let ghost w = before.index_of(name@);
                assert(before[w] == name@);
                assert(w == k) by {
                    if w != k {
                        assert(before[w] == before[k as int]);
                    }
                }
                return k;
            }
            k = k + 1;
        }
        assert(!before.contains(name@));
        let i: usize = self.names.len();
        self.names.push(name.to_owned());
        assert(self.names.deep_view() =~= before.push(name@));
        i
    }

    /// Marks the channels started; they start only once.
    pub fn start_all(&mut self) -> (r: Result<(), String>)
        ensures
            final(self)@ == start_all_spec(old(self)@).0,
            match r {
                Ok(()) => start_all_spec(old(self)@).1 is Ok,
                Err(e) => start_all_spec(old(self)@).1 == Err::<(), Seq<char>>(e@),
            },
    {
        if self.started {
            return Err("channels already started".to_owned());
        }
        self.started = true;
        Ok(())
    }

    /// The position of the channel a reply to `msg` goes to.
    pub fn respond(&self, msg: &IncomingMessage) -> (r: Result<usize, String>)
        ensures
            match r {
                Ok(i) => i < self@.names.len() && self@.names[i as int] == msg.channel@,
                Err(e) => !self@.names.contains(msg.channel@) && e@ == unknown_channel_message(
                    msg.channel@,
                ),
            },
    {
        let mut k: usize = 0;
        while k < self.names.len()
            invariant
                k <= self.names@.len(),
                forall|j: int| 0 <= j < k ==> #[trigger] self@.names[j] != msg.channel@,
            decreases self.names@.len() - k,
        {
            assert(self@.names[k as int] == self.names@[k as int]@);
            if str_eq(self.names[k].as_str(), msg.channel.as_str()) {
                return Ok(k);
            }
            k = k + 1;
        }
        Err(concat2("unknown channel: ", msg.channel.as_str()))
    }
}

/// Channels start once: after any first attempt, every later one is
/// refused with the same message and changes nothing.
pub proof fn lemma_start_all_once(m: ChannelManagerView)
    ensures
        ({
            let (m1, r1) = start_all_spec(m);
            let (m2, r2) = start_all_spec(m1);
            &&& r1 is Ok <==> !m.started
            &&& r2 == Err::<(), Seq<char>>(already_started_message())
            &&& m2 == m1
            &&& m1.names == m.names
        }),
{
}

/// Registering a channel never reroutes the others: every channel keeps its
/// position, names stay unique, and replies for the new name reach the
/// position `add` reported.
pub proof fn lemma_add_keeps_routes(names: Seq<Seq<char>>, name: Seq<char>)
    requires
        names.no_duplicates(),
    ensures
        ({
            let (after, i) = channel_added(names, name);
            &&& after.no_duplicates()
            &&& 0 <= i < after.len() && after[i] == name
            &&& forall|j: int| 0 <= j < names.len() ==> #[trigger] after[j] == names[j]
            &&& forall|j: int| 0 <= j < after.len() && after[j] == name ==> j == i
        }),
{
    let (after, i) = channel_added(names, name);
    if names.contains(name) {
        assert(names[names.index_of(name)] == name);
    } else {
        assert forall|a: int, b: int| 0 <= a < after.len() && 0 <= b < after.len() && a != b
            implies after[a] != after[b] by {
            if a == names.len() {
                assert(names[b] != name);
            } else if b == names.len() {
                assert(names[a] != name);
            }
        }
    }
}

// ---------------------------------------------------------------------------
// Discord
// ---------------------------------------------------------------------------

/// The message that a Discord message becomes; messages of bots are
/// dropped so that the bot never answers itself.
pub fn discord_incoming(
    author_is_bot: bool,
    id: &str,
    author_id: &str,
    author_name: &str,
    content: &str,
    channel_id: &str,
) -> (r: Option<IncomingMessage>)
    ensures
        author_is_bot <==> r is None,
        r matches Some(m) ==> m.id@ == id@ && m.channel@ == "discord"@ && m.user_id@ == author_id@
            && m.user_name@ == author_name@ && m.content@ == content@ && m.thread_id.deep_view()
            == Some(channel_id@),
{
    if author_is_bot {
        return None;
    }
    Some(
        IncomingMessage {
            id: id.to_owned(),
            channel: "discord".to_owned(),
            user_id: author_id.to_owned(),
            user_name: author_name.to_owned(),
            content: content.to_owned(),
            thread_id: Some(channel_id.to_owned()),
        },
    )
}

/// The Discord channel a reply goes to: the message's thread, or the message
/// id itself when it has none, read as a decimal `u64`.
pub open spec fn reply_channel_text(msg: IncomingMessage) -> Seq<char> {
    match msg.thread_id {
        Some(t) => t@,
        None => msg.id@,
    }
}

pub fn reply_channel_id(msg: &IncomingMessage) -> (r: Result<u64, String>)
    ensures
        match r {
            Ok(n) => parse_unsigned(reply_channel_text(*msg), u64::MAX as nat) == Some(n as nat),
            Err(e) => parse_unsigned(reply_channel_text(*msg), u64::MAX as nat) is None && e@
                == "invalid discord channel id"@,
        },
{
    let text: &str = match &msg.thread_id {
        Some(t) => t.as_str(),
        None => msg.id.as_str(),
    };
    match parse_unsigned_str(text, u64::MAX) {
        Some(n) => Ok(n),
        None => Err("invalid discord channel id".to_owned()),
    }
}

/// A reply goes back where the message came from: for a Discord message
/// whose channel id was written in decimal, the reply channel read back is
/// that id.
pub proof fn lemma_reply_to_origin(msg: IncomingMessage, channel: nat)
    requires
        channel <= u64::MAX,
        msg.thread_id matches Some(t) && t@ == decimal(channel),
    ensures
        parse_unsigned(reply_channel_text(msg), u64::MAX as nat) == Some(channel),
{
    lemma_decimal_round_trip(channel, u64::MAX as nat);
}

} // verus!
