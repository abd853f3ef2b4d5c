//! The Open Sound Control data model: arguments, messages, bundles and
//! packets, each with the mathematical value that contracts speak of.

use vstd::prelude::*;

verus! {

/// A time tag: seconds since 1900-01-01 and fractions of a second.
#[derive(Clone, Copy, Debug, PartialEq, Eq)]
pub struct TimeTag {
    pub seconds: u32,
    pub fractional: u32,
}

/// A colour with its four channels.
#[derive(Clone, Copy, Debug, PartialEq, Eq)]
pub struct Color {
    pub red: u8,
    pub green: u8,
    pub blue: u8,
    pub alpha: u8,
}

/// The four bytes of a MIDI message.
#[derive(Clone, Copy, Debug, PartialEq, Eq)]
pub struct Midi {
    pub port: u8,
    pub status: u8,
    pub data1: u8,
    pub data2: u8,
}

/// One argument of a message.
///
/// The two floating-point kinds hold the decimal text of their number, which
/// is all that a command template takes from them.
#[derive(Debug, PartialEq, Eq)]
pub enum OscArg {
    Int(i32),
    Float(String),
    String(String),
    Blob(Vec<u8>),
    Time(TimeTag),
    Long(i64),
    Double(String),
    Char(char),
    Color(Color),
    Midi(Midi),
    Bool(bool),
    Array(Vec<OscArg>),
    Nil,
    Inf,
}

/// The value of an [`OscArg`].
pub enum ArgView {
    Int(i32),
    Float(Seq<char>),
    String(Seq<char>),
    Blob(Seq<u8>),
    Time(TimeTag),
    Long(i64),
    Double(Seq<char>),
    Char(char),
    Color(Color),
    Midi(Midi),
    Bool(bool),
    Array(Seq<ArgView>),
    Nil,
    Inf,
}

/// A message: an address and its arguments.
#[derive(Debug, PartialEq, Eq)]
pub struct Message {
    pub addr: String,
    pub args: Vec<OscArg>,
}

/// The value of an [`Message`].
pub struct MessageView {
    pub addr: Seq<char>,
    pub args: Seq<ArgView>,
}

/// A bundle: a time tag and the packets it holds, in their declared order.
#[derive(Debug, PartialEq, Eq)]
pub struct Bundle {
    pub timetag: TimeTag,
    pub content: Vec<Packet>,
}

/// A packet: one message, or a bundle of packets.
#[derive(Debug, PartialEq, Eq)]
pub enum Packet {
    Message(Message),
    Bundle(Bundle),
}

/// The value of an [`Packet`].
pub enum PacketView {
    Message(MessageView),
    Bundle { timetag: TimeTag, content: Seq<PacketView> },
}

/// The value of an argument.
pub open spec fn arg_view(arg: OscArg) -> ArgView
    decreases arg,
{
    match arg {
        OscArg::Int(v) => ArgView::Int(v),
        OscArg::Float(text) => ArgView::Float(text@),
        OscArg::String(text) => ArgView::String(text@),
        OscArg::Blob(bytes) => ArgView::Blob(bytes@),
        OscArg::Time(t) => ArgView::Time(t),
        OscArg::Long(v) => ArgView::Long(v),
        OscArg::Double(text) => ArgView::Double(text@),
        OscArg::Char(c) => ArgView::Char(c),
        OscArg::Color(c) => ArgView::Color(c),
        OscArg::Midi(m) => ArgView::Midi(m),
        OscArg::Bool(b) => ArgView::Bool(b),
        OscArg::Array(items) => ArgView::Array(arg_views(items@)),
        OscArg::Nil => ArgView::Nil,
        OscArg::Inf => ArgView::Inf,
    }
}

/// The values of a list of arguments, one for one.
pub open spec fn arg_views(args: Seq<OscArg>) -> Seq<ArgView>
    decreases args,
{
    if args.len() == 0 {
        Seq::empty()
    } else {
        arg_views(args.drop_last()).push(arg_view(args.last()))
    }
}

impl View for OscArg {
    type V = ArgView;

    open spec fn view(&self) -> ArgView {
        arg_view(*self)
    }
}

impl View for Message {
    type V = MessageView;

    open spec fn view(&self) -> MessageView {
        MessageView { addr: self.addr@, args: arg_views(self.args@) }
    }
}

/// The value of a packet.
pub open spec fn packet_view(packet: Packet) -> PacketView
    decreases packet,
{
    match packet {
        Packet::Message(m) => PacketView::Message(m@),
        Packet::Bundle(b) => PacketView::Bundle {
            timetag: b.timetag,
            content: packet_views(b.content@),
        },
    }
}

/// The values of a list of packets, one for one.
pub open spec fn packet_views(packets: Seq<Packet>) -> Seq<PacketView>
    decreases packets,
{
    if packets.len() == 0 {
        Seq::empty()
    } else {
        packet_views(packets.drop_last()).push(packet_view(packets.last()))
    }
}

impl View for Packet {
    type V = PacketView;

    open spec fn view(&self) -> PacketView {
        packet_view(*self)
    }
}

/// The values of a list of messages, one for one.
pub open spec fn message_views(messages: Seq<&Message>) -> Seq<MessageView> {
    Seq::new(messages.len(), |i: int| messages[i]@)
}

/// The values of a list of arguments have its length, and stand at the same
/// places.
pub proof fn lemma_arg_views(args: Seq<OscArg>)
    ensures
        arg_views(args).len() == args.len(),
        forall|i: int| 0 <= i < args.len() ==> #[trigger] arg_views(args)[i] == args[i]@,
    decreases args.len(),
{
    if args.len() > 0 {
        lemma_arg_views(args.drop_last());
    }
}

/// The values of a list of packets have its length, and stand at the same
/// places.
pub proof fn lemma_packet_views(packets: Seq<Packet>)
    ensures
        packet_views(packets).len() == packets.len(),
        forall|i: int|
            0 <= i < packets.len() ==> #[trigger] packet_views(packets)[i] == packets[i]@,
    decreases packets.len(),
{
    if packets.len() > 0 {
        lemma_packet_views(packets.drop_last());
    }
}

} // verus!
