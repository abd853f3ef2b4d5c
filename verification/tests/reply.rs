use osc_commands::osc::{Message, OscArg, Packet};
use osc_commands::reply::{ExecOutcome, ReplyKind, ReplyPacket};
use osc_commands::wire::decode_packet;

fn reply(kind: ReplyKind, origin: &str, detail: &str) -> ReplyPacket {
    ReplyPacket { kind, origin: origin.to_string(), detail: detail.to_string() }
}

#[test]
fn unknown_command_reply() {
    assert_eq!(
        ReplyPacket::unknown_command("/unknown"),
        reply(ReplyKind::Error, "/unknown", "unknown command")
    );
}

#[test]
fn exec_error_reply() {
    assert_eq!(ReplyPacket::exec_error("/play"), reply(ReplyKind::Error, "/play", "exec error"));
    assert_eq!(
        ReplyPacket::for_outcome("/play", &ExecOutcome::Failed),
        reply(ReplyKind::Error, "/play", "exec error")
    );
}

#[test]
fn success_reply_trims_the_output() {
    assert_eq!(ReplyPacket::success("/play", b"hi\n"), reply(ReplyKind::Success, "/play", "hi"));
    assert_eq!(
        ReplyPacket::success("/play", b"  two words \r\n\n"),
        reply(ReplyKind::Success, "/play", "two words")
    );
    assert_eq!(ReplyPacket::success("/play", b""), reply(ReplyKind::Success, "/play", ""));
    assert_eq!(
        ReplyPacket::success("/play", "grüße\n".as_bytes()),
        reply(ReplyKind::Success, "/play", "grüße")
    );
}

#[test]
fn success_reply_for_output_that_is_no_text() {
    let expected =
        reply(ReplyKind::Success, "/play", "cannot display output due to an encoding error");
    assert_eq!(ReplyPacket::success("/play", &[0xff, 0xfe, b'\n']), expected);
    assert_eq!(ReplyPacket::success("/play", &[b'a', 0xc3]), expected);
    assert_eq!(ReplyPacket::success("/play", &[0xed, 0xa0, 0x80]), expected);
}

#[test]
fn reply_address_follows_the_kind() {
    assert_eq!(reply(ReplyKind::Success, "/a", "b").address(), "/success");
    assert_eq!(reply(ReplyKind::Error, "/a", "b").address(), "/error");
}

#[test]
fn reply_message_has_two_string_arguments() {
    let m = reply(ReplyKind::Success, "/play", "hi").to_message();
    assert_eq!(
        m,
        Message {
            addr: "/success".to_string(),
            args: vec![OscArg::String("/play".to_string()), OscArg::String("hi".to_string())],
        }
    );
}

#[test]
fn reply_is_read_back_from_its_message() {
    for r in [
        reply(ReplyKind::Success, "/play", "hi"),
        reply(ReplyKind::Error, "/unknown", "unknown command"),
        reply(ReplyKind::Success, "", ""),
    ] {
        assert_eq!(ReplyPacket::from_message(&r.to_message()), Some(r));
    }
}

#[test]
fn other_messages_are_no_replies() {
    let s = |t: &str| OscArg::String(t.to_string());
    let m = Message { addr: "/play".to_string(), args: vec![s("a"), s("b")] };
    assert_eq!(ReplyPacket::from_message(&m), None);
    let m = Message { addr: "/error".to_string(), args: vec![s("a")] };
    assert_eq!(ReplyPacket::from_message(&m), None);
    let m = Message { addr: "/error".to_string(), args: vec![s("a"), OscArg::Int(1)] };
    assert_eq!(ReplyPacket::from_message(&m), None);
    let m = Message { addr: "/success".to_string(), args: vec![s("a"), s("b"), s("c")] };
    assert_eq!(ReplyPacket::from_message(&m), None);
}

#[test]
fn reply_bytes_are_the_osc_encoding() {
    let bytes = reply(ReplyKind::Success, "/play", "hi").encode().unwrap();
    assert_eq!(bytes, b"/success\0\0\0\0,ss\0/play\0\0\0hi\0\0".to_vec());
    let bytes = reply(ReplyKind::Error, "/unknown", "unknown command").encode().unwrap();
    assert_eq!(bytes, b"/error\0\0,ss\0/unknown\0\0\0\0unknown command\0".to_vec());
    let bytes = reply(ReplyKind::Success, "/é", "").encode().unwrap();
    assert_eq!(bytes, b"/success\0\0\0\0,ss\0/\xc3\xa9\0\0\0\0\0".to_vec());
}

#[test]
fn reply_bytes_agree_with_the_encoder_on_its_own_types() {
    let r = reply(ReplyKind::Error, "/lights/3", "exec error");
    let packet = rosc::OscPacket::Message(rosc::OscMessage {
        addr: "/error".to_string(),
        args: vec![
            rosc::OscType::String("/lights/3".to_string()),
            rosc::OscType::String("exec error".to_string()),
        ],
    });
    assert_eq!(r.encode().unwrap(), rosc::encoder::encode(&packet).unwrap());
}

#[test]
fn encoded_reply_decodes_to_an_equal_reply() {
    for r in [
        reply(ReplyKind::Success, "/play", "hi"),
        reply(ReplyKind::Success, "/play", ""),
        reply(ReplyKind::Success, "/play", "line one\nline two"),
        reply(ReplyKind::Success, "/ünï/cödé", "grüße 語"),
        reply(ReplyKind::Error, "/unknown", "unknown command"),
        reply(ReplyKind::Error, "/play", "exec error"),
    ] {
        let bytes = r.encode().unwrap();
        assert_eq!(bytes.len() % 4, 0);
        let packet = decode_packet(&bytes).unwrap();
        assert_eq!(packet, Packet::Message(r.to_message()));
        match packet {
            Packet::Message(m) => assert_eq!(ReplyPacket::from_message(&m), Some(r)),
            Packet::Bundle(_) => panic!("a reply is no bundle"),
        }
    }
}

#[test]
fn zero_character_ends_a_string_on_the_wire() {
    let r = reply(ReplyKind::Success, "/play", "a\0b");
    let bytes = r.encode().unwrap();
    assert_eq!(bytes, b"/success\0\0\0\0,ss\0/play\0\0\0a\0b\0".to_vec());
    let cut = reply(ReplyKind::Success, "/play", "a");
    assert_eq!(decode_packet(&bytes).unwrap(), Packet::Message(cut.to_message()));
}
