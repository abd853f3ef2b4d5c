//! Replies to the sender: what a reply holds, the reply for each outcome of a
//! request, and the message that carries it.

use crate::osc::{lemma_arg_views, ArgView, Message, MessageView, OscArg};
use crate::text::{chars_of, string_of, trim, trimmed};
use vstd::prelude::*;
use vstd::utf8::{decode_utf8, valid_utf8};

verus! {

/// Whether a reply reports success or failure.
#[derive(Clone, Copy, Debug, PartialEq, Eq)]
pub enum ReplyKind {
    Success,
    Error,
}

/// A reply: its kind, the address of the request it answers, and the output
/// of the command or a short word for what went wrong.
#[derive(Debug, PartialEq, Eq)]
pub struct ReplyPacket {
    pub kind: ReplyKind,
    pub origin: String,
    pub detail: String,
}

/// The value of a [`ReplyPacket`].
pub struct ReplyView {
    pub kind: ReplyKind,
    pub origin: Seq<char>,
    pub detail: Seq<char>,
}

impl View for ReplyPacket {
    type V = ReplyView;

    open spec fn view(&self) -> ReplyView {
        ReplyView { kind: self.kind, origin: self.origin@, detail: self.detail@ }
    }
}

/// How the run of a command ended.
#[derive(Debug, PartialEq, Eq)]
pub enum ExecOutcome {
    /// The program was started and waited for; `stdout` is what it wrote to
    /// its standard output. Its exit code plays no part.
    Completed { stdout: Vec<u8> },
    /// The program could not be started or waited for.
    Failed,
}

/// The address of a reply of the given kind.
pub open spec fn reply_address(kind: ReplyKind) -> Seq<char> {
    match kind {
        ReplyKind::Success => "/success"@,
        ReplyKind::Error => "/error"@,
    }
}

/// The reply to a request whose address has no command.
pub open spec fn unknown_command_reply(origin: Seq<char>) -> ReplyView {
    ReplyView { kind: ReplyKind::Error, origin, detail: "unknown command"@ }
}

/// The reply to a request whose command could not be run.
pub open spec fn exec_error_reply(origin: Seq<char>) -> ReplyView {
    ReplyView { kind: ReplyKind::Error, origin, detail: "exec error"@ }
}

/// What a reply shows of a command's output: the output as text, or a fixed
/// sentence where it is no UTF-8 text, without white space at either end.
pub open spec fn output_text(stdout: Seq<u8>) -> Seq<char> {
    if valid_utf8(stdout) {
        trimmed(decode_utf8(stdout))
    } else {
        trimmed("cannot display output due to an encoding error"@)
    }
}

/// The reply to a request whose command ran and wrote `stdout`.
pub open spec fn success_reply(origin: Seq<char>, stdout: Seq<u8>) -> ReplyView {
    ReplyView { kind: ReplyKind::Success, origin, detail: output_text(stdout) }
}

/// The reply to a request whose command ended with `outcome`.
pub open spec fn outcome_reply(origin: Seq<char>, outcome: ExecOutcome) -> ReplyView {
    match outcome {
        ExecOutcome::Completed { stdout } => success_reply(origin, stdout@),
        ExecOutcome::Failed => exec_error_reply(origin),
    }
}

/// The message that carries a reply: the reply's address, then the origin and
/// the detail as two string arguments.
pub open spec fn reply_message(reply: ReplyView) -> MessageView {
    MessageView {
        addr: reply_address(reply.kind),
        args: seq![ArgView::String(reply.origin), ArgView::String(reply.detail)],
    }
}

/// The reply that a message carries, or `None` where the message is no reply:
/// another address, or other arguments than two strings.
pub open spec fn message_reply(message: MessageView) -> Option<ReplyView> {
    if message.args.len() == 2 {
        match (message.args[0], message.args[1]) {
            (ArgView::String(origin), ArgView::String(detail)) => if message.addr
                == reply_address(ReplyKind::Success) {
                Some(ReplyView { kind: ReplyKind::Success, origin, detail })
            } else if message.addr == reply_address(ReplyKind::Error) {
                Some(ReplyView { kind: ReplyKind::Error, origin, detail })
            } else {
                None
            },
            _ => None,
        }
    } else {
        None
    }
}

/// A reply is read back from the message that carries it.
pub proof fn law_reply_read_back(reply: ReplyView)
    ensures
        message_reply(reply_message(reply)) == Some(reply),
{
    reveal_strlit("/success");
    reveal_strlit("/error");
    assert(reply_address(ReplyKind::Success).len() != reply_address(ReplyKind::Error).len());
}

/// `std::str::from_utf8` accepts exactly the byte sequences that are UTF-8,
/// and gives the text they encode.
#[verifier::external_body]
fn utf8_text(bytes: &[u8]) -> (r: Option<String>)
    ensures
        match r {
            Some(text) => valid_utf8(bytes@) && text@ == decode_utf8(bytes@),
            None => !valid_utf8(bytes@),
        },
{
    match std::str::from_utf8(bytes) {
        Ok(text) => Some(text.to_string()),
        Err(_) => None,
    }
}

impl ReplyPacket {
    /// The reply to a request whose address has no command.
    pub fn unknown_command(origin: &str) -> (reply: ReplyPacket)
        ensures
            reply@ == unknown_command_reply(origin@),
    {
        ReplyPacket {
            kind: ReplyKind::Error,
            origin: origin.to_owned(),
            detail: "unknown command".to_owned(),
        }
    }

    /// The reply to a request whose command could not be run.
    pub fn exec_error(origin: &str) -> (reply: ReplyPacket)
        ensures
            reply@ == exec_error_reply(origin@),
    {
        ReplyPacket {
            kind: ReplyKind::Error,
            origin: origin.to_owned(),
            detail: "exec error".to_owned(),
        }
    }

    /// The reply to a request whose command ran and wrote `stdout`.
    pub fn success(origin: &str, stdout: &[u8]) -> (reply: ReplyPacket)
        ensures
            reply@ == success_reply(origin@, stdout@),
    {
        let text = match utf8_text(stdout) {
            Some(text) => text,
            None => "cannot display output due to an encoding error".to_owned(),
        };
        let detail = string_of(&trim(&chars_of(text.as_str())));
        ReplyPacket { kind: ReplyKind::Success, origin: origin.to_owned(), detail }
    }

    /// The reply to a request whose command ended with `outcome`.
    pub fn for_outcome(origin: &str, outcome: &ExecOutcome) -> (reply: ReplyPacket)
        ensures
            reply@ == outcome_reply(origin@, *outcome),
    {
        match outcome {
            ExecOutcome::Completed { stdout } => ReplyPacket::success(origin, stdout.as_slice()),
            ExecOutcome::Failed => ReplyPacket::exec_error(origin),
        }
    }

    /// The address of the reply: `/success` or `/error`.
    pub fn address(&self) -> (addr: String)
        ensures
            addr@ == reply_address(self.kind),
    {
        match self.kind {
            ReplyKind::Success => "/success".to_owned(),
            ReplyKind::Error => "/error".to_owned(),
        }
    }

    /// The reply that `message` carries, or `None` where it is no reply.
    pub fn from_message(message: &Message) -> (r: Option<ReplyPacket>)
        ensures
            match r {
                Some(reply) => message_reply(message@) == Some(reply@),
                None => message_reply(message@) is None,
            },
    {
        proof {
            lemma_arg_views(message.args@);
        }
        if message.args.len() != 2 {
            return None;
        }
        let kind = if message.addr == "/success".to_owned() {
            ReplyKind::Success
        } else if message.addr == "/error".to_owned() {
            ReplyKind::Error
        } else {
            return None;
        };
        match (&message.args[0], &message.args[1]) {
            (OscArg::String(origin), OscArg::String(detail)) => Some(
                ReplyPacket { kind, origin: origin.clone(), detail: detail.clone() },
            ),
            _ => None,
        }
    }

    /// The message that carries the reply.
    pub fn to_message(&self) -> (message: Message)
        ensures
            message@ == reply_message(self@),
    {
        let mut args: Vec<OscArg> = Vec::new();
        args.push(OscArg::String(self.origin.clone()));
        args.push(OscArg::String(self.detail.clone()));
        let message = Message { addr: self.address(), args };
        proof {
            lemma_arg_views(message.args@);
        }
        assert(message@.args =~= reply_message(self@).args);
        message
    }
}

} // verus!
