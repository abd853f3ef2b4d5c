//! Commands triggered over the network by Open Sound Control messages: the
//! pipeline from a datagram to the commands to run and the replies to send.
//!
//! A datagram is decoded into a packet ([`wire`], after [`frame`] has turned
//! away what nests too deep), the packet is flattened into its messages, and
//! each message is resolved against the command table of the
//! [`config::Configuration`]: the arguments of the message are substituted
//! into the template of its address ([`template`]), and the result is split
//! into the words of a command ([`shell`]). What is to be done for each
//! message is a [`dispatch::Resolution`]; how a command ended becomes a
//! [`reply::ReplyPacket`], which is encoded for the way back.
//!
//! The library decides and computes; it neither listens, nor runs a command,
//! nor sends. [`laws`] states what holds for every input.

pub mod config;
pub mod dispatch;
pub mod frame;
pub mod laws;
pub mod osc;
pub mod reply;
pub mod shell;
pub mod template;
pub mod text;
pub mod wire;
