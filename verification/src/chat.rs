//! The chat session machine. A session asks the user for a name, announces
//! the user, relays the user's lines to everyone else through a broadcast
//! channel, writes the others' messages back to the user, and announces the
//! user's departure. The machine makes every decision; the caller performs
//! the actions (writes to the socket, sends on the channel, closes) and feeds
//! back what happened (a line read, end of input, a message received, ...).
//!
//! The rules cover the ways the servers differ: how a missing name is
//! handled, how lines are trimmed, whether empty lines are relayed, whether
//! users see their own messages, and when a departure is announced.

use vstd::prelude::*;
use crate::text::{chars_of, same_text, string_of, trim, trim_end, count_trailing_ws};
use vstd::string::StringExecFns;

verus! {

/// What a session does with a name that is empty after trimming.
#[derive(PartialEq, Eq, Structural, Clone, Copy)]
pub enum EmptyName {
    /// End the session without a word.
    Leave,
    /// Ask again.
    Reprompt,
    /// Use the client's address as the name.
    UseAddress,
    /// Keep the empty name.
    Accept,
    /// Tell the user `Username cannot be empty` and end the session.
    Refuse,
}

/// How a line read from the user is cut before it is looked at.
#[derive(PartialEq, Eq, Structural, Clone, Copy)]
pub enum LineTrim {
    /// Whitespace removed at both ends (`str::trim`).
    Both,
    /// Whitespace removed at the end (`str::trim_end`).
    End,
    /// Line-ending characters `\r` and `\n` removed at the end.
    Newlines,
    /// The line as read, line ending included.
    Keep,
}

/// The rules of a chat server.
pub struct ChatRules {
    /// The prompt for a name; `None` when no name is asked and the client's
    /// address serves as the name.
    pub prompt: Option<String>,
    /// What happens to an empty name.
    pub empty_name: EmptyName,
    /// Whether end of input before a name counts as an empty name (otherwise
    /// it ends the session).
    pub eof_is_empty_name: bool,
    /// Whether a failed write of the prompt ends the session.
    pub prompt_failure_ends: bool,
    /// How lines are trimmed.
    pub trim: LineTrim,
    /// Whether empty lines (after trimming) are dropped instead of relayed.
    pub skip_empty: bool,
    /// Whether the line `/quit` ends the session.
    pub quit_command: bool,
    /// Whether joining and leaving are announced.
    pub announce: bool,
    /// Whether a read error is announced as leaving.
    pub leave_on_read_error: bool,
    /// Whether the end of the channel or a failed write is announced as leaving.
    pub leave_on_channel_end: bool,
    /// Whether users are spared their own messages.
    pub skip_own: bool,
    /// Whether missed messages (`Lagged`) end the session.
    pub lagged_ends: bool,
    /// Whether messages take the form `[time] user name N:  message:LINE`
    /// (the line as read) instead of `[time] N: LINE\n`.
    pub verbose_format: bool,
}

impl ChatRules {
    /// Everyone, the sender included, sees every message. Names are asked once and an empty one ends the session; lines are trimmed at both ends and empty ones dropped; a departure is announced only on `/quit` or end of input; missed messages end the session.
    pub fn echoing() -> (res: ChatRules)
        ensures
            res@ == (RulesView {
                prompt: Some("Enter your username:\n"@),
                empty_name: EmptyName::Leave,
                eof_is_empty_name: true,
                prompt_failure_ends: false,
                trim: LineTrim::Both,
                skip_empty: true,
                quit_command: true,
                announce: true,
                leave_on_read_error: false,
                leave_on_channel_end: false,
                skip_own: false,
                lagged_ends: true,
                verbose_format: false,
            }),
    {
        ChatRules {
            prompt: Some(String::from_str("Enter your username:\n")),
            empty_name: EmptyName::Leave,
            eof_is_empty_name: true,
            prompt_failure_ends: false,
            trim: LineTrim::Both,
            skip_empty: true,
            quit_command: true,
            announce: true,
            leave_on_read_error: false,
            leave_on_channel_end: false,
            skip_own: false,
            lagged_ends: true,
            verbose_format: false,
        }
    }

    /// Names are asked until a non-empty one comes; line endings are cut and empty lines dropped; users never see their own messages; missed messages are skipped; every way out is announced.
    pub fn reprompting() -> (res: ChatRules)
        ensures
            res@ == (RulesView {
                prompt: Some("Enter your username:\n"@),
                empty_name: EmptyName::Reprompt,
                eof_is_empty_name: false,
                prompt_failure_ends: true,
                trim: LineTrim::Newlines,
                skip_empty: true,
                quit_command: true,
                announce: true,
                leave_on_read_error: true,
                leave_on_channel_end: true,
                skip_own: true,
                lagged_ends: false,
                verbose_format: false,
            }),
    {
        ChatRules {
            prompt: Some(String::from_str("Enter your username:\n")),
            empty_name: EmptyName::Reprompt,
            eof_is_empty_name: false,
            prompt_failure_ends: true,
            trim: LineTrim::Newlines,
            skip_empty: true,
            quit_command: true,
            announce: true,
            leave_on_read_error: true,
            leave_on_channel_end: true,
            skip_own: true,
            lagged_ends: false,
            verbose_format: false,
        }
    }

    /// An empty name is replaced by the client's address; trailing whitespace is cut and empty lines dropped; users never see their own messages; missed messages are skipped; every way out is announced.
    pub fn address_named() -> (res: ChatRules)
        ensures
            res@ == (RulesView {
                prompt: Some("Enter your username:\n"@),
                empty_name: EmptyName::UseAddress,
                eof_is_empty_name: false,
                prompt_failure_ends: true,
                trim: LineTrim::End,
                skip_empty: true,
                quit_command: true,
                announce: true,
                leave_on_read_error: true,
                leave_on_channel_end: true,
                skip_own: true,
                lagged_ends: false,
                verbose_format: false,
            }),
    {
        ChatRules {
            prompt: Some(String::from_str("Enter your username:\n")),
            empty_name: EmptyName::UseAddress,
            eof_is_empty_name: false,
            prompt_failure_ends: true,
            trim: LineTrim::End,
            skip_empty: true,
            quit_command: true,
            announce: true,
            leave_on_read_error: true,
            leave_on_channel_end: true,
            skip_own: true,
            lagged_ends: false,
            verbose_format: false,
        }
    }

    /// Any name is taken, even an empty one; lines are trimmed at both ends and relayed even when empty; everyone sees every message; any failure ends the session; every way out is announced.
    pub fn permissive() -> (res: ChatRules)
        ensures
            res@ == (RulesView {
                prompt: Some("Enter your username: "@),
                empty_name: EmptyName::Accept,
                eof_is_empty_name: false,
                prompt_failure_ends: true,
                trim: LineTrim::Both,
                skip_empty: false,
                quit_command: true,
                announce: true,
                leave_on_read_error: true,
                leave_on_channel_end: true,
                skip_own: false,
                lagged_ends: true,
                verbose_format: false,
            }),
    {
        ChatRules {
            prompt: Some(String::from_str("Enter your username: ")),
            empty_name: EmptyName::Accept,
            eof_is_empty_name: false,
            prompt_failure_ends: true,
            trim: LineTrim::Both,
            skip_empty: false,
            quit_command: true,
            announce: true,
            leave_on_read_error: true,
            leave_on_channel_end: true,
            skip_own: false,
            lagged_ends: true,
            verbose_format: false,
        }
    }

    /// An empty name (or none) is refused with a message; lines are trimmed at both ends and relayed even when empty; everyone sees every message; a failure of the channel or of a write ends the session without an announcement.
    pub fn strict_names() -> (res: ChatRules)
        ensures
            res@ == (RulesView {
                prompt: Some("Enter your username: "@),
                empty_name: EmptyName::Refuse,
                eof_is_empty_name: true,
                prompt_failure_ends: true,
                trim: LineTrim::Both,
                skip_empty: false,
                quit_command: true,
                announce: true,
                leave_on_read_error: true,
                leave_on_channel_end: false,
                skip_own: false,
                lagged_ends: true,
                verbose_format: false,
            }),
    {
        ChatRules {
            prompt: Some(String::from_str("Enter your username: ")),
            empty_name: EmptyName::Refuse,
            eof_is_empty_name: true,
            prompt_failure_ends: true,
            trim: LineTrim::Both,
            skip_empty: false,
            quit_command: true,
            announce: true,
            leave_on_read_error: true,
            leave_on_channel_end: false,
            skip_own: false,
            lagged_ends: true,
            verbose_format: false,
        }
    }

    /// An empty name ends the session; trailing whitespace is cut and lines relayed even when empty; users never see their own messages; any failure ends the session; every way out is announced.
    pub fn sender_filtered() -> (res: ChatRules)
        ensures
            res@ == (RulesView {
                prompt: Some("Enter your username:\n"@),
                empty_name: EmptyName::Leave,
                eof_is_empty_name: false,
                prompt_failure_ends: true,
                trim: LineTrim::End,
                skip_empty: false,
                quit_command: true,
                announce: true,
                leave_on_read_error: true,
                leave_on_channel_end: true,
                skip_own: true,
                lagged_ends: true,
                verbose_format: false,
            }),
    {
        ChatRules {
            prompt: Some(String::from_str("Enter your username:\n")),
            empty_name: EmptyName::Leave,
            eof_is_empty_name: false,
            prompt_failure_ends: true,
            trim: LineTrim::End,
            skip_empty: false,
            quit_command: true,
            announce: true,
            leave_on_read_error: true,
            leave_on_channel_end: true,
            skip_own: true,
            lagged_ends: true,
            verbose_format: false,
        }
    }

    /// No name is asked: the client's address stands for it; lines are relayed as read, in the long form, to everyone; nothing is announced and there is no `/quit`.
    pub fn anonymous() -> (res: ChatRules)
        ensures
            res@ == (RulesView {
                prompt: None,
                empty_name: EmptyName::Leave,
                eof_is_empty_name: false,
                prompt_failure_ends: false,
                trim: LineTrim::Keep,
                skip_empty: false,
                quit_command: false,
                announce: false,
                leave_on_read_error: false,
                leave_on_channel_end: false,
                skip_own: false,
                lagged_ends: true,
                verbose_format: true,
            }),
    {
        ChatRules {
            prompt: None,
            empty_name: EmptyName::Leave,
            eof_is_empty_name: false,
            prompt_failure_ends: false,
            trim: LineTrim::Keep,
            skip_empty: false,
            quit_command: false,
            announce: false,
            leave_on_read_error: false,
            leave_on_channel_end: false,
            skip_own: false,
            lagged_ends: true,
            verbose_format: true,
        }
    }
}

/// The mathematical form of the rules.
pub struct RulesView {
    pub prompt: Option<Seq<char>>,
    pub empty_name: EmptyName,
    pub eof_is_empty_name: bool,
    pub prompt_failure_ends: bool,
    pub trim: LineTrim,
    pub skip_empty: bool,
    pub quit_command: bool,
    pub announce: bool,
    pub leave_on_read_error: bool,
    pub leave_on_channel_end: bool,
    pub skip_own: bool,
    pub lagged_ends: bool,
    pub verbose_format: bool,
}

impl View for ChatRules {
    type V = RulesView;

    open spec fn view(&self) -> RulesView {
        RulesView {
            prompt: match self.prompt {
                Some(p) => Some(p@),
                None => None,
            },
            empty_name: self.empty_name,
            eof_is_empty_name: self.eof_is_empty_name,
            prompt_failure_ends: self.prompt_failure_ends,
            trim: self.trim,
            skip_empty: self.skip_empty,
            quit_command: self.quit_command,
            announce: self.announce,
            leave_on_read_error: self.leave_on_read_error,
            leave_on_channel_end: self.leave_on_channel_end,
            skip_own: self.skip_own,
            lagged_ends: self.lagged_ends,
            verbose_format: self.verbose_format,
        }
    }
}

/// Where a session stands.
#[derive(PartialEq, Eq, Structural, Clone, Copy)]
pub enum Phase {
    /// Waiting for the user's name.
    Naming,
    /// Relaying messages.
    Chatting,
    /// Over: nothing more happens.
    Ended,
}

/// Something that happened to a session.
pub enum ChatEvent {
    /// A line was read from the user (as read, line ending included).
    Line(String),
    /// The user's input ended.
    Eof,
    /// Reading from the user failed.
    ReadFailed,
    /// A message arrived on the channel from the session with id `sender`.
    Received { sender: u64, text: String },
    /// Messages on the channel were missed.
    Lagged,
    /// The channel closed.
    Closed,
    /// A write to the user failed.
    WriteFailed,
}

/// Something a session asks its caller to do.
pub enum ChatAction {
    /// Write this text to the user.
    Send(String),
    /// Send this text on the channel, from this session.
    Broadcast(String),
    /// End the session.
    Close,
}

/// The mathematical form of an event.
pub enum EventView {
    Line(Seq<char>),
    Eof,
    ReadFailed,
    Received(u64, Seq<char>),
    Lagged,
    Closed,
    WriteFailed,
}

/// The mathematical form of an action.
pub enum ActionView {
    Send(Seq<char>),
    Broadcast(Seq<char>),
    Close,
}

impl View for ChatEvent {
    type V = EventView;

    open spec fn view(&self) -> EventView {
        match self {
            ChatEvent::Line(l) => EventView::Line(l@),
            ChatEvent::Eof => EventView::Eof,
            ChatEvent::ReadFailed => EventView::ReadFailed,
            ChatEvent::Received { sender, text } => EventView::Received(*sender, text@),
            ChatEvent::Lagged => EventView::Lagged,
            ChatEvent::Closed => EventView::Closed,
            ChatEvent::WriteFailed => EventView::WriteFailed,
        }
    }
}

impl View for ChatAction {
    type V = ActionView;

    open spec fn view(&self) -> ActionView {
        match self {
            ChatAction::Send(t) => ActionView::Send(t@),
            ChatAction::Broadcast(t) => ActionView::Broadcast(t@),
            ChatAction::Close => ActionView::Close,
        }
    }
}

/// The views of a list of actions.
pub open spec fn action_views(v: Seq<ChatAction>) -> Seq<ActionView> {
    v.map_values(|a: ChatAction| a@)
}

/// The mathematical form of a session.
pub struct SessionView {
    pub rules: RulesView,
    pub id: u64,
    pub address: Seq<char>,
    pub username: Seq<char>,
    pub phase: Phase,
}

/// One user's chat session.
pub struct ChatSession {
    rules: ChatRules,
    id: u64,
    address: String,
    username: String,
    phase: Phase,
}

impl View for ChatSession {
    type V = SessionView;

    closed spec fn view(&self) -> SessionView {
        SessionView {
            rules: self.rules@,
            id: self.id,
            address: self.address@,
            username: self.username@,
            phase: self.phase,
        }
    }
}

// ---------------------------------------------------------------------------
// The texts a session sends
// ---------------------------------------------------------------------------

/// `[now] `.
pub open spec fn stamp(now: Seq<char>) -> Seq<char> {
    "["@ + now + "] "@
}

/// `[now] NAME joined the chat\n`.
pub open spec fn join_text(now: Seq<char>, name: Seq<char>) -> Seq<char> {
    stamp(now) + name + " joined the chat\n"@
}

/// `[now] NAME left the chat\n`.
pub open spec fn leave_text(now: Seq<char>, name: Seq<char>) -> Seq<char> {
    stamp(now) + name + " left the chat\n"@
}

/// The relayed form of a message.
pub open spec fn message_text(verbose: bool, now: Seq<char>, name: Seq<char>, msg: Seq<char>) -> Seq<char> {
    if verbose {
        stamp(now) + "user name "@ + name + ":  message:"@ + msg
    } else {
        stamp(now) + name + ": "@ + msg + "\n"@
    }
}

/// The count of `\r` and `\n` characters at the end of `s`.
pub open spec fn trailing_newlines(s: Seq<char>) -> nat
    decreases s.len(),
{
    if s.len() > 0 && (s.last() == '\r' || s.last() == '\n') {
        1 + trailing_newlines(s.drop_last())
    } else {
        0
    }
}

/// A line cut as the rules say.
pub open spec fn cut_line(mode: LineTrim, line: Seq<char>) -> Seq<char> {
    match mode {
        LineTrim::Both => trim(line),
        LineTrim::End => trim_end(line),
        LineTrim::Newlines => line.take(line.len() - trailing_newlines(line)),
        LineTrim::Keep => line,
    }
}

/// The text `Username cannot be empty\n`.
pub open spec fn empty_name_text() -> Seq<char> {
    "Username cannot be empty\n"@
}

// ---------------------------------------------------------------------------
// The machine
// ---------------------------------------------------------------------------

/// A session that starts out: it asks for a name when the rules give a
/// prompt, otherwise it chats at once under the client's address.
pub open spec fn chat_start(rules: RulesView, id: u64, address: Seq<char>) -> (SessionView, Seq<ActionView>) {
    match rules.prompt {
        Some(p) => (
            SessionView { rules, id, address, username: Seq::empty(), phase: Phase::Naming },
            seq![ActionView::Send(p)],
        ),
        None => (
            SessionView { rules, id, address, username: address, phase: Phase::Chatting },
            Seq::empty(),
        ),
    }
}

/// The session ends; its departure is announced when `announce_leave` holds
/// and the rules announce at all.
pub open spec fn end_session(s: SessionView, now: Seq<char>, announce_leave: bool) -> (SessionView, Seq<ActionView>) {
    let ended = SessionView { phase: Phase::Ended, ..s };
    if announce_leave && s.rules.announce {
        (ended, seq![ActionView::Broadcast(leave_text(now, s.username)), ActionView::Close])
    } else {
        (ended, seq![ActionView::Close])
    }
}

/// The session enters the chat under `name`, announced when the rules say so.
pub open spec fn enter_chat(s: SessionView, now: Seq<char>, name: Seq<char>) -> (SessionView, Seq<ActionView>) {
    let chatting = SessionView { username: name, phase: Phase::Chatting, ..s };
    if s.rules.announce {
        (chatting, seq![ActionView::Broadcast(join_text(now, name))])
    } else {
        (chatting, Seq::empty())
    }
}

/// What a session does with the name line `line` (already read).
pub open spec fn take_name(s: SessionView, now: Seq<char>, line: Seq<char>) -> (SessionView, Seq<ActionView>) {
    let name = trim(line);
    if name.len() > 0 {
        enter_chat(s, now, name)
    } else {
        match s.rules.empty_name {
            EmptyName::Leave => end_session(s, now, false),
            EmptyName::Reprompt => match s.rules.prompt {
                Some(p) => (s, seq![ActionView::Send(p)]),
                None => (s, Seq::empty()),
            },
            EmptyName::UseAddress => enter_chat(s, now, s.address),
            EmptyName::Accept => enter_chat(s, now, name),
            EmptyName::Refuse => (
                SessionView { phase: Phase::Ended, ..s },
                seq![ActionView::Send(empty_name_text()), ActionView::Close],
            ),
        }
    }
}

/// One step of a session: the event `e` happened at clock reading `now`.
pub open spec fn chat_step(s: SessionView, e: EventView, now: Seq<char>) -> (SessionView, Seq<ActionView>) {
    match s.phase {
        Phase::Ended => (s, Seq::empty()),
        Phase::Naming => match e {
            EventView::Line(l) => take_name(s, now, l),
            EventView::Eof => if s.rules.eof_is_empty_name {
                take_name(s, now, Seq::empty())
            } else {
                end_session(s, now, false)
            },
            EventView::ReadFailed => end_session(s, now, false),
            EventView::WriteFailed => if s.rules.prompt_failure_ends {
                end_session(s, now, false)
            } else {
                (s, Seq::empty())
            },
            _ => (s, Seq::empty()),
        },
        Phase::Chatting => match e {
            EventView::Line(l) => {
                let m = cut_line(s.rules.trim, l);
                if s.rules.quit_command && m == "/quit"@ {
                    end_session(s, now, true)
                } else if s.rules.skip_empty && m.len() == 0 {
                    (s, Seq::empty())
                } else {
                    (s, seq![ActionView::Broadcast(message_text(s.rules.verbose_format, now, s.username, m))])
                }
            },
            EventView::Eof => end_session(s, now, true),
            EventView::ReadFailed => end_session(s, now, s.rules.leave_on_read_error),
            EventView::Received(sender, text) => if s.rules.skip_own && sender == s.id {
                (s, Seq::empty())
            } else {
                (s, seq![ActionView::Send(text)])
            },
            EventView::Lagged => if s.rules.lagged_ends {
                end_session(s, now, s.rules.leave_on_channel_end)
            } else {
                (s, Seq::empty())
            },
            EventView::Closed => end_session(s, now, s.rules.leave_on_channel_end),
            EventView::WriteFailed => end_session(s, now, s.rules.leave_on_channel_end),
        },
    }
}

// ---------------------------------------------------------------------------
// Laws
// ---------------------------------------------------------------------------

/// How far a session has come: naming, then chatting, then ended.
pub open spec fn phase_rank(p: Phase) -> int {
    match p {
        Phase::Naming => 0,
        Phase::Chatting => 1,
        Phase::Ended => 2,
    }
}

/// An ended session stays ended and does nothing more.
pub proof fn law_ended_session_is_inert(s: SessionView, e: EventView, now: Seq<char>)
    requires
        s.phase == Phase::Ended,
    ensures
        chat_step(s, e, now) == (s, Seq::<ActionView>::empty()),
{
}

/// A step never moves a session back (naming, chatting, ended), and never
/// changes its rules, id or address.
pub proof fn law_session_moves_forward(s: SessionView, e: EventView, now: Seq<char>)
    ensures
        phase_rank(chat_step(s, e, now).0.phase) >= phase_rank(s.phase),
        chat_step(s, e, now).0.rules == s.rules,
        chat_step(s, e, now).0.id == s.id,
        chat_step(s, e, now).0.address == s.address,
{
}

/// A step ends a live session exactly when its last action is `Close`, and
/// `Close` is never followed by another action.
pub proof fn law_close_exactly_when_ending(s: SessionView, e: EventView, now: Seq<char>)
    requires
        s.phase != Phase::Ended,
    ensures
        ({
            let (t, acts) = chat_step(s, e, now);
            &&& (t.phase == Phase::Ended <==> (acts.len() > 0 && acts.last() == ActionView::Close))
            &&& forall|i: int| 0 <= i < acts.len() - 1 ==> acts[i] != ActionView::Close
        }),
{
}

/// A session that gets a non-empty name enters the chat under the trimmed
/// name, and announces it when the rules announce at all.
pub proof fn law_name_enters_chat(s: SessionView, line: Seq<char>, now: Seq<char>)
    requires
        s.phase == Phase::Naming,
        trim(line).len() > 0,
    ensures
        chat_step(s, EventView::Line(line), now).0.phase == Phase::Chatting,
        chat_step(s, EventView::Line(line), now).0.username == trim(line),
        s.rules.announce ==> chat_step(s, EventView::Line(line), now).1 == seq![
            ActionView::Broadcast(join_text(now, trim(line))),
        ],
{
}

/// When the rules know `/quit`, a chatting user who sends it leaves.
pub proof fn law_quit_ends_session(s: SessionView, line: Seq<char>, now: Seq<char>)
    requires
        s.phase == Phase::Chatting,
        s.rules.quit_command,
        cut_line(s.rules.trim, line) == "/quit"@,
    ensures
        chat_step(s, EventView::Line(line), now).0.phase == Phase::Ended,
{
}

/// When the rules spare users their own messages, a message from the
/// session itself is never written back to it.
pub proof fn law_own_messages_not_echoed(s: SessionView, text: Seq<char>, now: Seq<char>)
    requires
        s.rules.skip_own,
    ensures
        chat_step(s, EventView::Received(s.id, text), now).1.len() == 0,
{
}

/// A chatting session writes to its user, unchanged, every message that comes
/// from a session with another id, and stays as it is.
pub proof fn law_others_messages_delivered(s: SessionView, sender: u64, text: Seq<char>, now: Seq<char>)
    requires
        s.phase == Phase::Chatting,
        sender != s.id,
    ensures
        chat_step(s, EventView::Received(sender, text), now) == (s, seq![ActionView::Send(text)]),
{
}

/// When a write to a chatting user fails, the session ends. A departure
/// `[now] NAME left the chat` is broadcast first exactly when the rules
/// announce leaving at the channel's end (and announce at all); otherwise the
/// only action is `Close`.
pub proof fn law_failed_write_ends_session(s: SessionView, now: Seq<char>)
    requires
        s.phase == Phase::Chatting,
    ensures
        chat_step(s, EventView::WriteFailed, now).0.phase == Phase::Ended,
        chat_step(s, EventView::WriteFailed, now).0.username == s.username,
        !(s.rules.leave_on_channel_end && s.rules.announce) ==> chat_step(
            s,
            EventView::WriteFailed,
            now,
        ).1 == seq![ActionView::Close],
        s.rules.leave_on_channel_end && s.rules.announce ==> chat_step(
            s,
            EventView::WriteFailed,
            now,
        ).1 == seq![
            ActionView::Broadcast(seq!['['] + now + seq![']', ' '] + s.username + " left the chat\n"@),
            ActionView::Close,
        ],
{
    if s.rules.leave_on_channel_end && s.rules.announce {
        reveal_strlit("[");
        reveal_strlit("] ");
        assert("["@ =~= seq!['[']);
        assert("] "@ =~= seq![']', ' ']);
        assert(stamp(now) =~= seq!['['] + now + seq![']', ' ']);
    }
}

/// Every text a session broadcasts starts with the clock stamp `[now] `.
pub proof fn law_broadcasts_are_stamped(s: SessionView, e: EventView, now: Seq<char>)
    ensures
        forall|i: int|
            0 <= i < chat_step(s, e, now).1.len() ==> (#[trigger] chat_step(s, e, now).1[i] matches ActionView::Broadcast(t)
                ==> t.len() >= stamp(now).len() && t.take(stamp(now).len() as int) == stamp(now)),
{
    let acts = chat_step(s, e, now).1;
    assert forall|i: int| 0 <= i < acts.len() implies (#[trigger] acts[i] matches ActionView::Broadcast(t)
        ==> t.len() >= stamp(now).len() && t.take(stamp(now).len() as int) == stamp(now)) by {
        if let ActionView::Broadcast(t) = acts[i] {
            let p = stamp(now);
            assert(exists|rest: Seq<char>| t == p + rest) by {
                match s.phase {
                    Phase::Naming => {
                        let name = match e { EventView::Line(l) => trim(l), _ => trim(Seq::<char>::empty()) };
                        if name.len() > 0 {
                            assert(t == p + (name + " joined the chat\n"@));
                        } else {
                            assert(t == p + (s.address + " joined the chat\n"@) || t == p + (name + " joined the chat\n"@));
                        }
                    },
                    Phase::Chatting => {
                        let m = match e { EventView::Line(l) => cut_line(s.rules.trim, l), _ => Seq::<char>::empty() };
                        if t == leave_text(now, s.username) {
                            assert(t == p + (s.username + " left the chat\n"@));
                        } else if s.rules.verbose_format {
                            assert(t == p + ("user name "@ + s.username + ":  message:"@ + m));
                        } else {
                            assert(t == p + (s.username + ": "@ + m + "\n"@));
                        }
                    },
                    Phase::Ended => {},
                }
            }
            let rest = choose|rest: Seq<char>| t == p + rest;
            assert(t.take(p.len() as int) =~= p);
        }
    }
}

/// A session that asks for a name, never accepts an empty one, and has a
/// non-empty client address chats only under a non-empty name.
pub open spec fn named_when_chatting(s: SessionView) -> bool {
    (s.phase == Phase::Chatting && s.rules.prompt is Some && s.rules.empty_name != EmptyName::Accept
        && s.address.len() > 0) ==> s.username.len() > 0
}

/// Starting and stepping keep a session named while it chats.
pub proof fn law_chatting_under_a_name(s: SessionView, e: EventView, now: Seq<char>, rules: RulesView, id: u64, address: Seq<char>)
    ensures
        named_when_chatting(chat_start(rules, id, address).0),
        named_when_chatting(s) ==> named_when_chatting(chat_step(s, e, now).0),
{
}

// ---------------------------------------------------------------------------
// Executable helpers
// ---------------------------------------------------------------------------

/// A copy of a string.
fn copy_text(s: &String) -> (res: String)
    ensures
        res@ == s@,
{
    s.clone()
}

/// `[now] ` followed by `name`.
fn stamped(now: &str, name: &String) -> (res: String)
    ensures
        res@ == stamp(now@) + name@,
{
    let mut res = String::from_str("[");
    res.append(now);
    res.append("] ");
    res.append(name.as_str());
    res
}

/// The join announcement (see `join_text`).
fn join_message(now: &str, name: &String) -> (res: String)
    ensures
        res@ == join_text(now@, name@),
{
    let mut res = stamped(now, name);
    res.append(" joined the chat\n");
    res
}

/// The departure announcement (see `leave_text`).
fn leave_message(now: &str, name: &String) -> (res: String)
    ensures
        res@ == leave_text(now@, name@),
{
    let mut res = stamped(now, name);
    res.append(" left the chat\n");
    res
}

/// A relayed message (see `message_text`).
fn chat_message(verbose: bool, now: &str, name: &String, msg: &String) -> (res: String)
    ensures
        res@ == message_text(verbose, now@, name@, msg@),
{
    if verbose {
        let mut res = String::from_str("[");
        res.append(now);
        res.append("] ");
        res.append("user name ");
        res.append(name.as_str());
        res.append(":  message:");
        res.append(msg.as_str());
        res
    } else {
        let mut res = stamped(now, name);
        res.append(": ");
        res.append(msg.as_str());
        res.append("\n");
        res
    }
}

/// Cuts a line as the rules say (see `cut_line`).
pub fn cut(mode: LineTrim, line: &String) -> (res: String)
    ensures
        res@ == cut_line(mode, line@),
{
    match mode {
        LineTrim::Keep => copy_text(line),
        LineTrim::Both => crate::restaurant::trimmed(line),
        LineTrim::End => {
            let c = chars_of(line.as_str());
            let n = count_trailing_ws(c.as_slice(), c.len());
            assert(c@.take(c@.len() as int) =~= c@);
            string_of(c.as_slice(), 0, c.len() - n)
        },
        LineTrim::Newlines => {
            let c = chars_of(line.as_str());
            let mut i = c.len();
            assert(c@.take(i as int) =~= c@);
            while i > 0 && (c[i - 1] == '\r' || c[i - 1] == '\n')
                invariant
                    i <= c@.len(),
                    trailing_newlines(c@) == (c@.len() - i) + trailing_newlines(c@.take(i as int)),
                decreases i,
            {
                assert(c@.take(i as int).drop_last() =~= c@.take(i - 1));
                i = i - 1;
            }
            assert(c@.take(i as int).len() == 0 || !(c@.take(i as int).last() == '\r'
                || c@.take(i as int).last() == '\n'));
            string_of(c.as_slice(), 0, i)
        },
    }
}

impl ChatSession {
    /// The id of the session.
    pub fn id(&self) -> (res: u64)
        ensures
            res == self@.id,
    {
        self.id
    }

    /// Where the session stands.
    pub fn phase(&self) -> (res: Phase)
        ensures
            res == self@.phase,
    {
        self.phase
    }

    /// The user's name (empty before it is known).
    pub fn username(&self) -> (res: String)
        ensures
            res@ == self@.username,
    {
        self.username.clone()
    }

    /// Starts a session for the client with id `id` at `address` (see `chat_start`).
    pub fn start(rules: ChatRules, id: u64, address: String) -> (res: (ChatSession, Vec<ChatAction>))
        ensures
            (res.0@, action_views(res.1@)) == chat_start(rules@, id, address@),
    {
        let mut actions: Vec<ChatAction> = Vec::new();
        let ghost rv = rules@;
        let ghost av = address@;
        let session = match &rules.prompt {
            Some(p) => {
                actions.push(ChatAction::Send(copy_text(p)));
                ChatSession { rules, id, address, username: String::new(), phase: Phase::Naming }
            },
            None => {
                let username = copy_text(&address);
                ChatSession { rules, id, address, username, phase: Phase::Chatting }
            },
        };
        assert(action_views(actions@) =~= chat_start(rv, id, av).1);
        (session, actions)
    }

    /// Ends the session (see `end_session`).
    fn end(&mut self, now: &str, announce_leave: bool) -> (actions: Vec<ChatAction>)
        ensures
            (final(self)@, action_views(actions@)) == end_session(old(self)@, now@, announce_leave),
    {
        let mut actions: Vec<ChatAction> = Vec::new();
        if announce_leave && self.rules.announce {
            actions.push(ChatAction::Broadcast(leave_message(now, &self.username)));
        }
        actions.push(ChatAction::Close);
        self.phase = Phase::Ended;
        assert(action_views(actions@) =~= end_session(old(self)@, now@, announce_leave).1);
        actions
    }

    /// Enters the chat under `name` (see `enter_chat`).
    fn enter(&mut self, now: &str, name: String) -> (actions: Vec<ChatAction>)
        ensures
            (final(self)@, action_views(actions@)) == enter_chat(old(self)@, now@, name@),
    {
        let mut actions: Vec<ChatAction> = Vec::new();
        if self.rules.announce {
            actions.push(ChatAction::Broadcast(join_message(now, &name)));
        }
        self.username = name;
        self.phase = Phase::Chatting;
        assert(action_views(actions@) =~= enter_chat(old(self)@, now@, self.username@).1);
        actions
    }

    /// Takes the name line `line` (see `take_name`).
    fn name_from(&mut self, now: &str, line: &String) -> (actions: Vec<ChatAction>)
        requires
            old(self)@.phase == Phase::Naming,
        ensures
            (final(self)@, action_views(actions@)) == take_name(old(self)@, now@, line@),
    {
        let name = crate::restaurant::trimmed(line);
        if !name.as_str().is_empty() {
            return self.enter(now, name);
        }
        match self.rules.empty_name {
            EmptyName::Leave => self.end(now, false),
            EmptyName::Reprompt => {
                let mut actions: Vec<ChatAction> = Vec::new();
                match &self.rules.prompt {
                    Some(p) => {
                        actions.push(ChatAction::Send(copy_text(p)));
                    },
                    None => {},
                }
                assert(action_views(actions@) =~= take_name(old(self)@, now@, line@).1);
                actions
            },
            EmptyName::UseAddress => {
                let address = copy_text(&self.address);
                self.enter(now, address)
            },
            EmptyName::Accept => self.enter(now, name),
            EmptyName::Refuse => {
                let mut actions: Vec<ChatAction> = Vec::new();
                actions.push(ChatAction::Send(String::from_str("Username cannot be empty\n")));
                actions.push(ChatAction::Close);
                self.phase = Phase::Ended;
                assert(action_views(actions@) =~= take_name(old(self)@, now@, line@).1);
                actions
            },
        }
    }

    /// Handles one event at clock reading `now` (see `chat_step`).
    pub fn step(&mut self, event: ChatEvent, now: &str) -> (actions: Vec<ChatAction>)
        ensures
            (final(self)@, action_views(actions@)) == chat_step(old(self)@, event@, now@),
    {
        let none: Vec<ChatAction> = Vec::new();
        assert(action_views(none@) =~= Seq::<ActionView>::empty());
        match self.phase {
            Phase::Ended => none,
            Phase::Naming => match event {
                ChatEvent::Line(l) => self.name_from(now, &l),
                ChatEvent::Eof => if self.rules.eof_is_empty_name {
                    let empty = String::new();
                    self.name_from(now, &empty)
                } else {
                    self.end(now, false)
                },
                ChatEvent::ReadFailed => self.end(now, false),
                ChatEvent::WriteFailed => if self.rules.prompt_failure_ends {
                    self.end(now, false)
                } else {
                    none
                },
                _ => none,
            },
            Phase::Chatting => match event {
                ChatEvent::Line(l) => {
                    let m = cut(self.rules.trim, &l);
                    if self.rules.quit_command && same_text(m.as_str(), "/quit") {
                        self.end(now, true)
                    } else if self.rules.skip_empty && m.as_str().is_empty() {
                        none
                    } else {
                        let mut actions: Vec<ChatAction> = Vec::new();
                        actions.push(
                            ChatAction::Broadcast(
                                chat_message(self.rules.verbose_format, now, &self.username, &m),
                            ),
                        );
                        assert(action_views(actions@) =~= chat_step(old(self)@, event@, now@).1);
                        actions
                    }
                },
                ChatEvent::Eof => self.end(now, true),
                ChatEvent::ReadFailed => {
                    let leave = self.rules.leave_on_read_error;
                    self.end(now, leave)
                },
                ChatEvent::Received { sender, text } => if self.rules.skip_own && sender == self.id {
                    none
                } else {
                    let mut actions: Vec<ChatAction> = Vec::new();
                    actions.push(ChatAction::Send(text));
                    assert(action_views(actions@) =~= chat_step(old(self)@, event@, now@).1);
                    actions
                },
                ChatEvent::Lagged => if self.rules.lagged_ends {
                    let leave = self.rules.leave_on_channel_end;
                    self.end(now, leave)
                } else {
                    none
                },
                ChatEvent::Closed => {
                    let leave = self.rules.leave_on_channel_end;
                    self.end(now, leave)
                },
                ChatEvent::WriteFailed => {
                    let leave = self.rules.leave_on_channel_end;
                    self.end(now, leave)
                },
            },
        }
    }
}

} // verus!
