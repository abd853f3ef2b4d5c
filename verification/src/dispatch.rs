//! From a datagram to what is to be done for each message in it: a reply at
//! once, a command to run, or nothing.

use crate::config::Configuration;
use crate::frame::{admitted, shallow, MAX_DATAGRAM, MAX_DEPTH};
use crate::osc::{lemma_packet_views, message_views, Message, MessageView, Packet, PacketView};
use crate::reply::{unknown_command_reply, ReplyPacket, ReplyView};
use crate::shell::{split_words, tokenize, word_views, ResolvedCommand, TemplateParseError};
use crate::template::{substitute, substituted};
use crate::wire::{decode_packet, osc_decoding, DecodeError};
use vstd::prelude::*;

verus! {

/// Whether no message of `packet` stands inside more than `limit` bundles.
pub open spec fn within_depth(packet: PacketView, limit: nat) -> bool
    decreases limit,
{
    match packet {
        PacketView::Message(_) => true,
        PacketView::Bundle { content, .. } => limit > 0 && forall|i: int|
            0 <= i < content.len() ==> within_depth(#[trigger] content[i], (limit - 1) as nat),
    }
}

/// The messages of `packet`, bundles flattened, in their declared order.
pub open spec fn flat(packet: PacketView) -> Seq<MessageView>
    decreases packet,
{
    match packet {
        PacketView::Message(m) => seq![m],
        PacketView::Bundle { content, .. } => flat_all(content),
    }
}

/// The messages of a list of packets: those of the first packet, then those
/// of the second, and so on.
pub open spec fn flat_all(packets: Seq<PacketView>) -> Seq<MessageView>
    decreases packets,
{
    if packets.len() == 0 {
        Seq::empty()
    } else {
        flat_all(packets.drop_last()) + flat(packets.last())
    }
}

/// Why a datagram gave no list of messages.
#[derive(Debug, PartialEq, Eq)]
pub enum DispatchError {
    /// The datagram holds no packet.
    Undecodable(DecodeError),
    /// The packet sets bundles in bundles more than [`MAX_DEPTH`] deep; it is
    /// dropped as a whole.
    TooDeep,
}

fn flatten_into<'a>(packet: &'a Packet, budget: usize, out: &mut Vec<&'a Message>) -> (ok: bool)
    ensures
        ok == within_depth(packet@, budget as nat),
        ok ==> message_views(final(out)@) == message_views(old(out)@) + flat(packet@),
    decreases budget,
{
    match packet {
        Packet::Message(m) => {
            out.push(m);
            assert(message_views(out@) =~= message_views(old(out)@) + flat(packet@));
            true
        },
        Packet::Bundle(b) => {
            if budget == 0 {
                return false;
            }
            let ghost views = packet@->content;
            proof {
                lemma_packet_views(b.content@);
            }
            let mut i: usize = 0;
            assert(message_views(out@) =~= message_views(old(out)@) + flat_all(views.take(0)));
            while i < b.content.len()
                invariant
                    i <= b.content.len(),
                    budget > 0,
                    packet@ is Bundle,
                    packet@->content == views,
                    views.len() == b.content@.len(),
                    forall|k: int| 0 <= k < views.len() ==> #[trigger] views[k] == b.content@[k]@,
                    forall|k: int|
                        0 <= k < i ==> within_depth(#[trigger] views[k], (budget - 1) as nat),
                    message_views(out@) == message_views(old(out)@) + flat_all(
                        views.take(i as int),
                    ),
                decreases b.content.len() - i,
            {
                let ghost before = out@;
                if !flatten_into(&b.content[i], budget - 1, out) {
                    assert(!within_depth(views[i as int], (budget - 1) as nat));
                    return false;
                }
                proof {
                    let longer = views.take(i + 1);
                    assert(longer.drop_last() =~= views.take(i as int));
                    assert(longer.last() == views[i as int]);
                    assert(message_views(out@) =~= message_views(old(out)@) + flat_all(longer));
                }
                i += 1;
            }
            assert(views.take(i as int) =~= views);
            true
        },
    }
}

/// The messages of `packet`, bundles flattened, in their declared order; an
/// error where bundles stand in bundles more than [`MAX_DEPTH`] deep.
pub fn flatten<'a>(packet: &'a Packet) -> (r: Result<Vec<&'a Message>, DispatchError>)
    ensures
        match r {
            Ok(messages) => within_depth(packet@, MAX_DEPTH as nat) && message_views(messages@)
                == flat(packet@),
            Err(e) => !within_depth(packet@, MAX_DEPTH as nat) && e == DispatchError::TooDeep,
        },
{
    let mut out: Vec<&'a Message> = Vec::new();
    if flatten_into(packet, MAX_DEPTH, &mut out) {
        assert(message_views(out@) =~= flat(packet@));
        Ok(out)
    } else {
        Err(DispatchError::TooDeep)
    }
}

/// A command to run for a request, with the address of the request, which
/// the reply will carry.
#[derive(Debug, PartialEq, Eq)]
pub struct Job {
    pub origin: String,
    pub command: ResolvedCommand,
}

/// What is to be done for one message.
#[derive(Debug, PartialEq, Eq)]
pub enum Resolution {
    /// Nothing is run; this reply goes to the sender.
    Reply(ReplyPacket),
    /// Nothing is run and nothing is sent: the template with its arguments
    /// gives no command. The sender gets no answer.
    Invalid(TemplateParseError),
    /// This command is run, and the reply follows from how it ends.
    Run(Job),
}

/// The value of a [`Resolution`].
pub enum ResolutionView {
    Reply(ReplyView),
    Invalid(TemplateParseError),
    Run { origin: Seq<char>, words: Seq<Seq<char>> },
}

impl View for Resolution {
    type V = ResolutionView;

    open spec fn view(&self) -> ResolutionView {
        match self {
            Resolution::Reply(reply) => ResolutionView::Reply(reply@),
            Resolution::Invalid(e) => ResolutionView::Invalid(*e),
            Resolution::Run(job) => ResolutionView::Run {
                origin: job.origin@,
                words: job.command@,
            },
        }
    }
}

/// The values of a list of resolutions, one for one.
pub open spec fn resolution_views(resolutions: Seq<Resolution>) -> Seq<ResolutionView> {
    Seq::new(resolutions.len(), |i: int| resolutions[i]@)
}

/// What is to be done once a command line has been split: the command of its
/// words, or nothing where it could not be split or holds no word.
pub open spec fn planned(
    origin: Seq<char>,
    split: Result<Seq<Seq<char>>, TemplateParseError>,
) -> ResolutionView {
    match split {
        Ok(words) => if words.len() == 0 {
            ResolutionView::Invalid(TemplateParseError::NoProgram)
        } else {
            ResolutionView::Run { origin, words }
        },
        Err(e) => ResolutionView::Invalid(e),
    }
}

/// What the tokenizer gives for `text`.
pub open spec fn tokenized(text: Seq<char>) -> Result<Seq<Seq<char>>, TemplateParseError> {
    match split_words(text) {
        Some(words) => Ok(words),
        None => Err(TemplateParseError::Untokenizable),
    }
}

/// What is to be done for `message` under the command table `commands`: the
/// reply `unknown command` where the table has no such address; else the
/// command that the template of the address gives with the arguments of the
/// message substituted.
pub open spec fn resolved(
    commands: Map<Seq<char>, Seq<char>>,
    message: MessageView,
) -> ResolutionView {
    if commands.contains_key(message.addr) {
        planned(message.addr, tokenized(substituted(commands[message.addr], message.args)))
    } else {
        ResolutionView::Reply(unknown_command_reply(message.addr))
    }
}

/// What is to be done for each of `messages`, one for one.
pub open spec fn resolved_all(
    commands: Map<Seq<char>, Seq<char>>,
    messages: Seq<MessageView>,
) -> Seq<ResolutionView> {
    Seq::new(messages.len(), |i: int| resolved(commands, messages[i]))
}

/// What is to be done once a command line has been split.
pub fn plan(origin: &str, split: Result<Vec<String>, TemplateParseError>) -> (r: Resolution)
    ensures
        r@ == planned(
            origin@,
            match split {
                Ok(words) => Ok(word_views(words@)),
                Err(e) => Err(e),
            },
        ),
{
    match split {
        Ok(words) => match ResolvedCommand::new(words) {
            Some(command) => Resolution::Run(Job { origin: origin.to_owned(), command }),
            None => Resolution::Invalid(TemplateParseError::NoProgram),
        },
        Err(e) => Resolution::Invalid(e),
    }
}

/// Resolves one message: looks its address up, substitutes its arguments
/// into the template, and splits the result into the words of a command.
pub fn resolve(config: &Configuration, message: &Message) -> (r: Resolution)
    ensures
        r@ == resolved(config@.commands, message@),
{
    match config.template(message.addr.as_str()) {
        None => Resolution::Reply(ReplyPacket::unknown_command(message.addr.as_str())),
        Some(template) => {
            let text = substitute(template.as_str(), &message.args);
            plan(message.addr.as_str(), tokenize(text.as_str()))
        },
    }
}

/// Resolves every message of `packet`, in the order of the flattening.
pub fn dispatch(config: &Configuration, packet: &Packet) -> (r: Result<
    Vec<Resolution>,
    DispatchError,
>)
    ensures
        match r {
            Ok(resolutions) => within_depth(packet@, MAX_DEPTH as nat) && resolution_views(
                resolutions@,
            ) == resolved_all(config@.commands, flat(packet@)),
            Err(e) => !within_depth(packet@, MAX_DEPTH as nat) && e == DispatchError::TooDeep,
        },
{
    let messages = flatten(packet)?;
    let mut out: Vec<Resolution> = Vec::new();
    let mut i: usize = 0;
    while i < messages.len()
        invariant
            i <= messages.len(),
            out@.len() == i,
            forall|k: int|
                0 <= k < i ==> (#[trigger] out@[k])@ == resolved(config@.commands, messages@[k]@),
        decreases messages.len() - i,
    {
        let resolution = resolve(config, messages[i]);
        out.push(resolution);
        i += 1;
    }
    assert(resolution_views(out@) =~= resolved_all(config@.commands, flat(packet@)));
    Ok(out)
}

/// What is to be done for a datagram of the given bytes.
pub open spec fn handled(commands: Map<Seq<char>, Seq<char>>, data: Seq<u8>) -> Option<
    Seq<ResolutionView>,
> {
    if !admitted(data) {
        None
    } else {
        match osc_decoding(data) {
            Some(packet) => if within_depth(packet, MAX_DEPTH as nat) {
                Some(resolved_all(commands, flat(packet)))
            } else {
                None
            },
            None => None,
        }
    }
}

/// Decodes a datagram and resolves every message in it. Where the datagram
/// holds no packet, or one that is too deep, nothing is to be done for it.
pub fn handle_datagram(config: &Configuration, data: &[u8]) -> (r: Result<
    Vec<Resolution>,
    DispatchError,
>)
    ensures
        match r {
            Ok(resolutions) => handled(config@.commands, data@) == Some(
                resolution_views(resolutions@),
            ),
            Err(DispatchError::Undecodable(DecodeError::Oversize)) => data@.len() > MAX_DATAGRAM,
            Err(DispatchError::Undecodable(DecodeError::TooDeep)) => data@.len() <= MAX_DATAGRAM
                && !shallow(data@),
            Err(DispatchError::Undecodable(DecodeError::Malformed(_))) => admitted(data@)
                && osc_decoding(data@) is None,
            Err(DispatchError::TooDeep) => admitted(data@) && osc_decoding(data@) is Some
                && !within_depth(osc_decoding(data@)->0, MAX_DEPTH as nat),
        },
{
    match decode_packet(data) {
        Ok(packet) => dispatch(config, &packet),
        Err(e) => Err(DispatchError::Undecodable(e)),
    }
}

} // verus!
