//! Heart-beats: asking for them, agreeing on them, and keeping them.

use async_stomp::client::{accept_reply, ClientCodec, Connector};
use async_stomp::heartbeat::{format_heartbeat, negotiate, parse_heartbeat, Heartbeat};
use async_stomp::{FromServer, Message};
use bytes::BytesMut;

fn connected(heartbeat: Option<&str>) -> Option<Message<FromServer>> {
    Some(Message {
        content: FromServer::Connected {
            version: "1.2".to_string(),
            session: None,
            server: None,
            heartbeat: heartbeat.map(|v| v.to_string()),
        },
        extra_headers: vec![],
    })
}

fn agreed(
    reply: &Option<Message<FromServer>>,
    requested: Option<(u32, u32)>,
) -> (Option<u32>, Option<u32>) {
    let beats = accept_reply(reply, requested, true).expect("Accepted");
    (beats.outgoing, beats.incoming)
}

fn connect_frame(heartbeat: Option<(u32, u32)>) -> String {
    let connector = Connector::builder().server("a:1").virtualhost("/");
    let connector = match heartbeat {
        Some((outgoing, incoming)) => connector.heartbeat(outgoing, incoming),
        None => connector,
    };
    let mut buffer = BytesMut::new();
    connector.msg().to_frame().serialize(&mut buffer);
    String::from_utf8(buffer.to_vec()).expect("Text")
}

#[test]
fn a_connect_carries_the_requested_interval() {
    assert!(connect_frame(Some((250, 250))).contains("heart-beat:250,250\n"));
    assert!(connect_frame(Some((0, 4294967295))).contains("heart-beat:0,4294967295\n"));
}

#[test]
fn a_connect_names_no_heartbeat_without_a_request() {
    assert!(!connect_frame(None).contains("heart-beat"));
}

#[test]
fn both_sides_agree_on_the_slower_interval() {
    assert_eq!(negotiate((250, 250), (250, 250)), (Some(250), Some(250)));
    assert_eq!(negotiate((20000, 20000), (10000, 10000)), (Some(20000), Some(20000)));
    assert_eq!(negotiate((1, 2), (3, 4)), (Some(4), Some(3)));
    assert_eq!(negotiate((0, 250), (250, 0)), (None, Some(250)));
    assert_eq!(negotiate((250, 250), (0, 0)), (None, None));
    assert_eq!(negotiate((0, 0), (5, 5)), (None, None));
}

#[test]
fn a_server_may_decline() {
    assert_eq!(agreed(&connected(Some("0,0")), Some((250, 250))), (None, None));
    assert_eq!(agreed(&connected(None), Some((250, 250))), (None, None));
}

#[test]
fn nothing_is_agreed_on_without_a_request() {
    assert_eq!(agreed(&connected(Some("250,250")), None), (None, None));
    assert_eq!(agreed(&connected(Some("nonsense")), None), (None, None));
}

#[test]
fn an_answer_that_cannot_be_read_is_refused() {
    assert!(accept_reply(&connected(Some("nonsense")), Some((1, 1)), true).is_err());
    assert!(accept_reply(&connected(Some("1,x")), Some((1, 1)), true).is_err());
}

#[test]
fn a_reply_settles_the_heartbeats() {
    let reply = connected(Some("10000,10000"));
    let settled = accept_reply(&reply, Some((20000, 20000)), true).expect("Accepted");
    assert_eq!((settled.outgoing, settled.incoming), (Some(20000), Some(20000)));
    assert!(settled.automatic);
    let manual = accept_reply(&reply, Some((20000, 20000)), false).expect("Accepted");
    assert_eq!((manual.outgoing, manual.incoming), (Some(20000), Some(20000)));
    assert!(!manual.automatic);
}

#[test]
fn a_beat_is_due_after_the_interval() {
    let beats = Heartbeat { outgoing: Some(250), incoming: None, automatic: true };
    assert_eq!(beats.until_beat(0), Some(250));
    assert_eq!(beats.until_beat(100), Some(150));
    assert_eq!(beats.until_beat(249), Some(1));
    assert_eq!(beats.until_beat(250), Some(0));
    assert_eq!(beats.until_beat(u64::MAX), Some(0));
    assert_eq!(beats.until_silent(u64::MAX), None);
}

#[test]
fn a_server_is_gone_after_twice_the_interval() {
    let beats = Heartbeat { outgoing: None, incoming: Some(250), automatic: true };
    assert_eq!(beats.until_silent(0), Some(500));
    assert_eq!(beats.until_silent(499), Some(1));
    assert_eq!(beats.until_silent(500), Some(0));
    assert_eq!(beats.until_beat(1000), None);
    let slow = Heartbeat { outgoing: None, incoming: Some(u32::MAX), automatic: true };
    assert_eq!(slow.until_silent(0), Some(8589934590));
}

#[test]
fn an_application_that_beats_itself_is_left_alone() {
    let beats = Heartbeat { outgoing: Some(250), incoming: Some(250), automatic: false };
    assert_eq!(beats.until_beat(1000), None);
    assert_eq!(beats.until_silent(1000), None);
}

#[test]
fn intervals_are_read_back() {
    for intervals in [(0, 0), (6, 7), (10, 250), (u32::MAX, 1)] {
        let text = String::from_utf8(format_heartbeat(intervals)).expect("Text");
        assert_eq!(parse_heartbeat(&text).expect("Two numbers"), intervals);
    }
    assert_eq!(format_heartbeat((6, 70)), b"6,70");
}

#[test]
fn a_frame_after_heartbeats_is_decoded() {
    let mut codec = ClientCodec::new();
    let mut buffer = BytesMut::new();
    for _ in 0..3 {
        buffer.extend_from_slice(b"\n");
        assert!(codec.decode(&mut buffer).expect("A heart-beat").is_none());
        assert!(buffer.is_empty(), "A heart-beat leaves nothing behind");
    }
    buffer.extend_from_slice(b"\n\r\n\nMESSAGE\ndestination:/test\nmessage-id:1\nsubscription:s\n\nhi\0\n\n");
    let msg = codec.decode(&mut buffer).expect("Well formed").expect("A message");
    let FromServer::Message { body, .. } = msg.content else {
        panic!("Expected a MESSAGE");
    };
    assert_eq!(body.as_deref(), Some(&b"hi"[..]));
    assert_eq!(&buffer[..], b"\n");
    assert!(codec.decode(&mut buffer).expect("A heart-beat").is_none());
    assert!(buffer.is_empty());
}

#[test]
fn heartbeats_do_not_count_towards_the_bound() {
    let mut codec = ClientCodec::with_max_frame_size(2);
    let mut buffer = BytesMut::from(&b"\n\n\n\n\n\nER"[..]);
    assert!(codec.decode(&mut buffer).expect("Within the bound").is_none());
    assert_eq!(&buffer[..], b"ER");
}

#[test]
fn a_heartbeat_is_a_line_feed() {
    let mut codec = ClientCodec::new();
    let mut buffer = BytesMut::from(&b"x\0"[..]);
    codec.encode_heartbeat(&mut buffer).expect("Room");
    assert_eq!(&buffer[..], b"x\0\n");
}
