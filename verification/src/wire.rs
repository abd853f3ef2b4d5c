//! The binary encoding of packets, which the `rosc` crate reads and writes.

use crate::frame::{admitted, is_admitted, shallow, MAX_DATAGRAM};
use crate::osc::{
    arg_views, packet_views, ArgView, Bundle, Color, Message, MessageView, Midi, OscArg, Packet,
    PacketView, TimeTag,
};
use crate::reply::{reply_address, ReplyPacket, ReplyView};
#[allow(unused_imports)]
use vstd::float::FloatBitsProperties;
use vstd::prelude::*;
use vstd::utf8::encode_utf8;

verus! {

// The types of `rosc` that packets are made of. All their fields are public,
// and the declarations let them be read; they claim nothing.

/// `rosc::OscTime`, with its two public fields.
#[verifier::external_type_specification]
pub struct ExOscTime(rosc::OscTime);

/// `rosc::OscColor`, with its four public fields.
#[verifier::external_type_specification]
pub struct ExOscColor(rosc::OscColor);

/// `rosc::OscMidiMessage`, with its four public fields.
#[verifier::external_type_specification]
pub struct ExOscMidiMessage(rosc::OscMidiMessage);

/// `rosc::OscArray`, with its public field.
#[verifier::external_type_specification]
pub struct ExOscArray(rosc::OscArray);

/// `rosc::OscType`, with its variants.
#[verifier::external_type_specification]
pub struct ExOscType(rosc::OscType);

/// `rosc::OscMessage`, with its two public fields.
#[verifier::external_type_specification]
pub struct ExOscMessage(rosc::OscMessage);

/// `rosc::OscBundle`, with its two public fields.
#[verifier::external_type_specification]
pub struct ExOscBundle(rosc::OscBundle);

/// `rosc::OscPacket`, with its two variants.
#[verifier::external_type_specification]
pub struct ExOscPacket(rosc::OscPacket);

/// `rosc::OscError`; nothing is read from it but its text.
#[verifier::external_type_specification]
#[verifier::external_body]
pub struct ExOscError(rosc::OscError);

/// The text that std prints for the 32-bit floating-point number of the
/// given bits.
pub uninterp spec fn single_text(bits: u32) -> Seq<char>;

/// The text that std prints for the 64-bit floating-point number of the
/// given bits.
pub uninterp spec fn double_text(bits: u64) -> Seq<char>;

/// The bits of the number of a `Float` argument.
pub open spec fn single_bits(w: rosc::OscType) -> u32 {
    match w {
        rosc::OscType::Float(x) => x.to_bits_spec(),
        _ => 0,
    }
}

/// The bits of the number of a `Double` argument.
pub open spec fn double_bits(w: rosc::OscType) -> u64 {
    match w {
        rosc::OscType::Double(x) => x.to_bits_spec(),
        _ => 0,
    }
}

/// The value of the argument `w`. A floating-point number is taken as the
/// text that std prints for it.
pub open spec fn wire_arg(w: rosc::OscType) -> ArgView
    decreases w,
{
    match w {
        rosc::OscType::Int(x) => ArgView::Int(x),
        rosc::OscType::Float(_) => ArgView::Float(single_text(single_bits(w))),
        rosc::OscType::String(text) => ArgView::String(text@),
        rosc::OscType::Blob(bytes) => ArgView::Blob(bytes@),
        rosc::OscType::Time(t) => ArgView::Time(wire_time(t)),
        rosc::OscType::Long(x) => ArgView::Long(x),
        rosc::OscType::Double(_) => ArgView::Double(double_text(double_bits(w))),
        rosc::OscType::Char(c) => ArgView::Char(c),
        rosc::OscType::Color(c) => ArgView::Color(
            Color { red: c.red, green: c.green, blue: c.blue, alpha: c.alpha },
        ),
        rosc::OscType::Midi(m) => ArgView::Midi(
            Midi { port: m.port, status: m.status, data1: m.data1, data2: m.data2 },
        ),
        rosc::OscType::Bool(b) => ArgView::Bool(b),
        rosc::OscType::Array(array) => ArgView::Array(wire_args(array.content@)),
        rosc::OscType::Nil => ArgView::Nil,
        rosc::OscType::Inf => ArgView::Inf,
    }
}

/// The values of a list of arguments, one for one.
pub open spec fn wire_args(ws: Seq<rosc::OscType>) -> Seq<ArgView>
    decreases ws,
{
    if ws.len() == 0 {
        Seq::empty()
    } else {
        wire_args(ws.drop_last()).push(wire_arg(ws.last()))
    }
}

/// The time tag `t`.
pub open spec fn wire_time(t: rosc::OscTime) -> TimeTag {
    TimeTag { seconds: t.seconds, fractional: t.fractional }
}

/// The value of the packet `w`.
pub open spec fn wire_packet(w: rosc::OscPacket) -> PacketView
    decreases w,
{
    match w {
        rosc::OscPacket::Message(m) => PacketView::Message(
            MessageView { addr: m.addr@, args: wire_args(m.args@) },
        ),
        rosc::OscPacket::Bundle(b) => PacketView::Bundle {
            timetag: wire_time(b.timetag),
            content: wire_packets(b.content@),
        },
    }
}

/// The values of a list of packets, one for one.
pub open spec fn wire_packets(ws: Seq<rosc::OscPacket>) -> Seq<PacketView>
    decreases ws,
{
    if ws.len() == 0 {
        Seq::empty()
    } else {
        wire_packets(ws.drop_last()).push(wire_packet(ws.last()))
    }
}

/// `to_string` on the number of a `Float` argument gives the text that std
/// prints for that number, which depends on its bits alone.
#[verifier::external_body]
fn single_text_of(w: &rosc::OscType) -> (text: String)
    requires
        w is Float,
    ensures
        text@ == single_text(single_bits(*w)),
{
    match w {
        rosc::OscType::Float(x) => x.to_string(),
        _ => String::new(),
    }
}

/// `to_string` on the number of a `Double` argument gives the text that std
/// prints for that number, which depends on its bits alone.
#[verifier::external_body]
fn double_text_of(w: &rosc::OscType) -> (text: String)
    requires
        w is Double,
    ensures
        text@ == double_text(double_bits(*w)),
{
    match w {
        rosc::OscType::Double(x) => x.to_string(),
        _ => String::new(),
    }
}

/// The library's argument for the argument `w`.
fn arg_from_wire(w: &rosc::OscType) -> (a: OscArg)
    ensures
        a@ == wire_arg(*w),
    decreases w,
{
    match w {
        rosc::OscType::Int(x) => OscArg::Int(*x),
        rosc::OscType::Float(_) => OscArg::Float(single_text_of(w)),
        rosc::OscType::String(text) => OscArg::String(text.clone()),
        rosc::OscType::Blob(bytes) => {
            let copy = bytes.clone();
            assert(copy@ =~= bytes@);
            OscArg::Blob(copy)
        },
        rosc::OscType::Time(t) => OscArg::Time(
            TimeTag { seconds: t.seconds, fractional: t.fractional },
        ),
        rosc::OscType::Long(x) => OscArg::Long(*x),
        rosc::OscType::Double(_) => OscArg::Double(double_text_of(w)),
        rosc::OscType::Char(c) => OscArg::Char(*c),
        rosc::OscType::Color(c) => OscArg::Color(
            Color { red: c.red, green: c.green, blue: c.blue, alpha: c.alpha },
        ),
        rosc::OscType::Midi(m) => OscArg::Midi(
            Midi { port: m.port, status: m.status, data1: m.data1, data2: m.data2 },
        ),
        rosc::OscType::Bool(b) => OscArg::Bool(*b),
        rosc::OscType::Array(array) => {
            let items = args_from_wire(&array.content);
            OscArg::Array(items)
        },
        rosc::OscType::Nil => OscArg::Nil,
        rosc::OscType::Inf => OscArg::Inf,
    }
}

/// The library's arguments for the arguments `ws`, one for one.
fn args_from_wire(ws: &Vec<rosc::OscType>) -> (args: Vec<OscArg>)
    ensures
        arg_views(args@) == wire_args(ws@),
    decreases ws,
{
    let mut args: Vec<OscArg> = Vec::new();
    let mut i: usize = 0;
    assert(ws@.take(0) =~= Seq::<rosc::OscType>::empty());
    while i < ws.len()
        invariant
            i <= ws.len(),
            arg_views(args@) == wire_args(ws@.take(i as int)),
        decreases ws.len() - i,
    {
        proof {
            assert(decreases_to!(ws => ws[i as int]));
        }
        let arg = arg_from_wire(&ws[i]);
        let ghost before = args@;
        args.push(arg);
        i += 1;
        proof {
            assert(args@.drop_last() =~= before);
            assert(ws@.take(i as int).drop_last() =~= ws@.take(i - 1));
        }
    }
    assert(ws@.take(i as int) =~= ws@);
    args
}

/// The library's packet for the packet `w`.
fn packet_from_wire(w: &rosc::OscPacket) -> (p: Packet)
    ensures
        p@ == wire_packet(*w),
    decreases w,
{
    match w {
        rosc::OscPacket::Message(m) => {
            let args = args_from_wire(&m.args);
            Packet::Message(Message { addr: m.addr.clone(), args })
        },
        rosc::OscPacket::Bundle(b) => {
            let mut content: Vec<Packet> = Vec::new();
            let mut i: usize = 0;
            assert(b.content@.take(0) =~= Seq::<rosc::OscPacket>::empty());
            while i < b.content.len()
                invariant
                    i <= b.content.len(),
                    decreases_to!(w => b.content),
                    packet_views(content@) == wire_packets(b.content@.take(i as int)),
                decreases b.content.len() - i,
            {
                proof {
                    assert(decreases_to!(b.content => b.content[i as int]));
                }
                let packet = packet_from_wire(&b.content[i]);
                let ghost before = content@;
                content.push(packet);
                i += 1;
                proof {
                    assert(content@.drop_last() =~= before);
                    assert(b.content@.take(i as int).drop_last() =~= b.content@.take(i - 1));
                }
            }
            assert(b.content@.take(i as int) =~= b.content@);
            Packet::Bundle(
                Bundle {
                    timetag: TimeTag {
                        seconds: b.timetag.seconds,
                        fractional: b.timetag.fractional,
                    },
                    content,
                },
            )
        },
    }
}

/// What the bytes of a datagram decode to: the value of the packet that
/// `rosc::decoder::decode_udp` reads from them, or `None` where it reads none.
pub uninterp spec fn osc_decoding(bytes: Seq<u8>) -> Option<PacketView>;

/// `rosc::decoder::decode_udp` reads one packet from the start of `data`, or
/// fails. What it returns depends on `data` alone; the encoding is not stated
/// here. The bytes it leaves over after the packet are dropped.
///
/// The decoder calls itself for each bundle within a bundle, and what it
/// builds for arrays within arrays is as deep as they are; on a shallow
/// datagram neither goes deeper than the limit.
#[verifier::external_body]
fn decode_wire(data: &[u8]) -> (r: Result<rosc::OscPacket, rosc::OscError>)
    requires
        shallow(data@),
    ensures
        match r {
            Ok(packet) => osc_decoding(data@) == Some(wire_packet(packet)),
            Err(_) => osc_decoding(data@) is None,
        },
{
    match rosc::decoder::decode_udp(data) {
        Ok((_, packet)) => Ok(packet),
        Err(e) => Err(e),
    }
}

/// The text that `rosc::OscError` shows of itself.
#[verifier::external_body]
fn error_text(e: &rosc::OscError) -> (text: String) {
    e.to_string()
}

/// Why a datagram gave no packet.
#[derive(Debug, PartialEq, Eq)]
pub enum DecodeError {
    /// The datagram is longer than [`MAX_DATAGRAM`] bytes.
    Oversize,
    /// The datagram sets bundles in bundles, or arrays in arrays, deeper than
    /// the limit.
    TooDeep,
    /// The bytes are no packet; the text says what the decoder found.
    Malformed(String),
}

/// Decodes a datagram into the packet it holds.
pub fn decode_packet(data: &[u8]) -> (r: Result<Packet, DecodeError>)
    ensures
        match r {
            Ok(packet) => admitted(data@) && osc_decoding(data@) == Some(packet@),
            Err(DecodeError::Oversize) => data@.len() > MAX_DATAGRAM,
            Err(DecodeError::TooDeep) => data@.len() <= MAX_DATAGRAM && !shallow(data@),
            Err(DecodeError::Malformed(_)) => admitted(data@) && osc_decoding(data@) is None,
        },
{
    if data.len() > MAX_DATAGRAM {
        return Err(DecodeError::Oversize);
    }
    if !is_admitted(data) {
        return Err(DecodeError::TooDeep);
    }
    match decode_wire(data) {
        Ok(packet) => Ok(packet_from_wire(&packet)),
        Err(e) => Err(DecodeError::Malformed(error_text(&e))),
    }
}

/// `n` zero bytes.
pub open spec fn zeros(n: nat) -> Seq<u8> {
    Seq::new(n, |i: int| 0u8)
}

/// The encoding of a string: its UTF-8 bytes, then one to four zero bytes, so
/// that the length is a multiple of four.
pub open spec fn osc_string(text: Seq<char>) -> Seq<u8> {
    let bytes = encode_utf8(text);
    bytes + zeros((4 - bytes.len() % 4) as nat)
}

/// A message with two string arguments.
pub struct TwoStrings {
    pub addr: Seq<char>,
    pub first: Seq<char>,
    pub second: Seq<char>,
}

/// The encoding of a message with two string arguments: the address, the type
/// tags `,ss`, and the two strings.
pub open spec fn two_string_bytes(message: TwoStrings) -> Seq<u8> {
    osc_string(message.addr) + seq![0x2cu8, 0x73u8, 0x73u8, 0x00u8] + osc_string(message.first)
        + osc_string(message.second)
}

/// The bytes that carry a reply.
pub open spec fn reply_bytes(reply: ReplyView) -> Seq<u8> {
    two_string_bytes(
        TwoStrings {
            addr: reply_address(reply.kind),
            first: reply.origin,
            second: reply.detail,
        },
    )
}

/// The address and the two arguments of `packet`, where it is a message with
/// two string arguments.
pub open spec fn two_strings(packet: rosc::OscPacket) -> Option<TwoStrings> {
    match packet {
        rosc::OscPacket::Message(m) => if m.args@.len() == 2 {
            match (m.args@[0], m.args@[1]) {
                (rosc::OscType::String(first), rosc::OscType::String(second)) => Some(
                    TwoStrings { addr: m.addr@, first: first@, second: second@ },
                ),
                _ => None,
            }
        } else {
            None
        },
        rosc::OscPacket::Bundle(_) => None,
    }
}

/// `rosc::encoder::encode` writes a packet into a fresh vector, which cannot
/// fail. Of a message with two string arguments it writes the address, the
/// type tags `,ss` and the two strings, each string followed by one to four
/// zero bytes. It is called on such messages only.
pub assume_specification[ rosc::encoder::encode ](packet: &rosc::OscPacket) -> (r: Result<
    Vec<u8>,
    rosc::OscError,
>)
    requires
        two_strings(*packet) is Some,
    ensures
        r is Ok,
        r->Ok_0@ == two_string_bytes(two_strings(*packet)->0),
;

/// Why a reply gave no bytes; the text says what the encoder found.
#[derive(Debug, PartialEq, Eq)]
pub struct EncodeError {
    pub diagnostic: String,
}

impl ReplyPacket {
    /// The bytes that carry the reply to its sender. The encoder has no
    /// failure for a reply, so the bytes are always there.
    pub fn encode(&self) -> (r: Result<Vec<u8>, EncodeError>)
        ensures
            r is Ok,
            r->Ok_0@ == reply_bytes(self@),
    {
        let mut args: Vec<rosc::OscType> = Vec::new();
        args.push(rosc::OscType::String(self.origin.clone()));
        args.push(rosc::OscType::String(self.detail.clone()));
        let packet = rosc::OscPacket::Message(rosc::OscMessage { addr: self.address(), args });
        match rosc::encoder::encode(&packet) {
            Ok(bytes) => Ok(bytes),
            Err(e) => Err(EncodeError { diagnostic: error_text(&e) }),
        }
    }
}

} // verus!
