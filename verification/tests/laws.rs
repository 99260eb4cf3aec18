//! What holds of every message and every stream, on some of each.

use async_stomp::client::{
    accept_reply, closing, disconnect_msg, ClientCodec, Closing, Connector, Subscriber,
    DEFAULT_MAX_FRAME_SIZE,
};
use async_stomp::escape::{headers_are_escaped, unescape_header_value};
use async_stomp::frame::Frame;
use async_stomp::grammar::{get_content_length, is_empty_slice, parse_frame, ParseError};
use async_stomp::{pretty_bytes, AckMode, FromServer, Message, ToServer};
use bytes::BytesMut;
use std::borrow::Cow;

fn written(msg: &Message<ToServer>) -> Vec<u8> {
    let mut buffer = BytesMut::new();
    msg.to_frame().serialize(&mut buffer);
    buffer.to_vec()
}

fn read_back(data: &[u8]) -> Message<ToServer> {
    let mut input = data;
    let frame = parse_frame(&mut input).expect("A frame");
    assert!(input.is_empty());
    frame.to_client_msg().expect("A message")
}

fn texts(pairs: &[(&str, &str)]) -> Vec<(String, String)> {
    pairs.iter().map(|(k, v)| (k.to_string(), v.to_string())).collect()
}

fn bytes(pairs: &[(&str, &str)]) -> Vec<(Vec<u8>, Vec<u8>)> {
    pairs.iter().map(|(k, v)| (k.as_bytes().to_vec(), v.as_bytes().to_vec())).collect()
}

/// Decodes a stream that arrives in pieces of `size` bytes
fn decode_in_pieces(data: &[u8], size: usize) -> Vec<String> {
    let mut codec = ClientCodec::new();
    let mut buffer = BytesMut::new();
    let mut messages = Vec::new();
    for piece in data.chunks(size) {
        buffer.extend_from_slice(piece);
        while let Some(msg) = codec.decode(&mut buffer).expect("Well formed") {
            messages.push(format!("{msg:?}"));
        }
    }
    assert!(buffer.is_empty());
    messages
}

#[test]
fn every_message_but_send_is_read_back() {
    let contents = vec![
        ToServer::Connect {
            accept_version: "1.2".to_string(),
            host: "a:b\\c".to_string(),
            login: Some("DOMAIN\\user".to_string()),
            passcode: None,
            heartbeat: Some((6, 7)),
        },
        ToServer::Subscribe {
            destination: "/q:1\n\r\\".to_string(),
            id: "räksmörgås".to_string(),
            ack: Some(AckMode::Client),
        },
        ToServer::Subscribe { destination: "d".to_string(), id: "".to_string(), ack: Some(AckMode::Auto) },
        ToServer::Subscribe {
            destination: "d".to_string(),
            id: "i".to_string(),
            ack: Some(AckMode::ClientIndividual),
        },
        ToServer::Unsubscribe { id: "\\n".to_string() },
        ToServer::Ack { id: "1".to_string(), transaction: Some("t:1".to_string()) },
        ToServer::Nack { id: "1".to_string(), transaction: None },
        ToServer::Begin { transaction: "t\0".to_string() },
        ToServer::Commit { transaction: "t".to_string() },
        ToServer::Abort { transaction: "t".to_string() },
        ToServer::Disconnect { receipt: None },
        ToServer::Disconnect { receipt: Some("77".to_string()) },
    ];
    for content in contents {
        let msg = Message { content, extra_headers: bytes(&[("x-one", "1"), ("x-two", "2")]) };
        let again = read_back(&written(&msg));
        assert_eq!(format!("{again:?}"), format!("{msg:?}"));
    }
}

#[test]
fn a_send_is_read_back() {
    let msg: Message<ToServer> = ToServer::Send {
        destination: "/queue/a:1".to_string(),
        transaction: Some("tx\\1".to_string()),
        headers: Some(texts(&[("x-one", "a:b\\c\r\n"), ("x-two", "")])),
        body: Some(b"text\r\n".to_vec()),
    }
    .into();
    let again = read_back(&written(&msg));
    assert_eq!(format!("{:?}", again.content), format!("{:?}", msg.content));
    assert_eq!(again.extra_headers, bytes(&[("x-one", "a\\cb\\\\c\\r\\n"), ("x-two", "")]));
}

#[test]
fn a_send_with_everything_is_written_alike_again() {
    let msg = Message {
        content: ToServer::Send {
            destination: "d".to_string(),
            transaction: None,
            headers: Some(texts(&[("x-one", "1")])),
            body: Some(b"a\0b".to_vec()),
        },
        extra_headers: bytes(&[("x-one", "2"), ("x-two", "2"), ("destination", "other")]),
    };
    let data = written(&msg);
    assert_eq!(data, b"SEND\ndestination:d\nx-one:1\ncontent-length:3\nx-two:2\n\na\0b\0");
    let again = read_back(&data);
    assert_eq!(written(&again), data);
    let ToServer::Send { headers, body, .. } = again.content else {
        panic!("Expected a SEND");
    };
    assert_eq!(headers, Some(texts(&[("x-one", "1"), ("content-length", "3"), ("x-two", "2")])));
    assert_eq!(body.as_deref(), Some(&b"a\0b"[..]));
}

#[test]
fn a_body_of_any_bytes_is_read_back() {
    let all: Vec<u8> = (0..=255).collect();
    for body in [all, vec![0], vec![0; 1000], b"\0\n\0".to_vec(), b"x".to_vec(), vec![255; 5]] {
        let msg: Message<ToServer> = ToServer::Send {
            destination: "d".to_string(),
            transaction: None,
            headers: None,
            body: Some(body.clone()),
        }
        .into();
        let ToServer::Send { body: again, .. } = read_back(&written(&msg)).content else {
            panic!("Expected a SEND");
        };
        assert_eq!(again, Some(body));
    }
}

#[test]
fn an_empty_body_is_no_body() {
    let msg: Message<ToServer> = ToServer::Send {
        destination: "d".to_string(),
        transaction: None,
        headers: None,
        body: Some(vec![]),
    }
    .into();
    let ToServer::Send { body, .. } = read_back(&written(&msg)).content else {
        panic!("Expected a SEND");
    };
    assert_eq!(body, None);
}

#[test]
fn extra_headers_never_override() {
    let msg = Message {
        content: ToServer::Disconnect { receipt: Some("1".to_string()) },
        extra_headers: bytes(&[("receipt", "2"), ("x", "1"), ("x", "2")]),
    };
    assert_eq!(written(&msg), b"DISCONNECT\nreceipt:1\nx:1\nx:2\n\n\0");
}

#[test]
fn extra_headers_are_added_to_a_frame() {
    let extra = bytes(&[("a", "2"), ("b", "3"), ("b", "4")]);
    let mut frame = Frame::new(
        b"FOO",
        &[(b"a", Some(Cow::Borrowed(b"1"))), (b"c", None)],
        Some(b"body"),
    );
    frame.add_extra_headers(&extra);
    let headers: Vec<(&[u8], &[u8])> = frame.headers.iter().map(|(k, v)| (*k, &**v)).collect();
    assert_eq!(headers, vec![(&b"a"[..], &b"1"[..]), (b"b", b"3"), (b"b", b"4")]);
    let mut buffer = BytesMut::from(&b"before"[..]);
    frame.serialize(&mut buffer);
    assert_eq!(&buffer[..], b"beforeFOO\na:1\nb:3\nb:4\n\nbody\0");
    assert_eq!(frame.size_within(usize::MAX), Some(22));
    assert_eq!(frame.size_within(22), Some(22));
    assert_eq!(frame.size_within(21), None);
    assert_eq!(frame.size_within(0), None);
}

#[test]
fn a_frame_that_needs_escaping_takes_more_room() {
    let frame = Frame::new(b"FOO", &[(b"a:", Some(Cow::Owned(b"\r\n\\".to_vec())))], None);
    let mut buffer = BytesMut::new();
    frame.serialize(&mut buffer);
    assert_eq!(&buffer[..], b"FOO\na\\c:\\r\\n\\\\\n\n\0");
    assert_eq!(frame.size_within(100), Some(buffer.len()));
    assert_eq!(frame.size_within(buffer.len() - 1), None);
}

#[test]
fn it_does_not_matter_where_a_stream_is_cut() {
    let data = b"CONNECTED\nversion:1.2\n\n\0\nMESSAGE\ndestination:d\nmessage-id:1\nsubscription:s\n\
content-length:3\n\na\0b\0\n\n\nERROR\nmessage:a\\cb\n\nbody\0RECEIPT\nreceipt-id:r\n\n\0\n";
    let whole = decode_in_pieces(data, data.len());
    assert_eq!(whole.len(), 4);
    for size in 1..data.len() {
        assert_eq!(decode_in_pieces(data, size), whole, "{size}");
    }
}

#[test]
fn a_part_of_a_frame_is_unfinished() {
    let data = b"MESSAGE\r\ndestination:d\r\nmessage-id:1\nsubscription:s\n\r\nhi\0";
    for end in 0..data.len() {
        let mut input = &data[..end];
        assert!(matches!(parse_frame(&mut input), Err(ParseError::Incomplete)), "{end}");
    }
    let mut longer = data.to_vec();
    longer.extend_from_slice(b"\r\nrest");
    let mut input = &longer[..];
    assert_eq!(parse_frame(&mut input).expect("A frame").body, Some(&b"hi"[..]));
    assert_eq!(input, b"rest");
}

#[test]
fn a_frame_that_cannot_be_converted_is_taken_from_the_buffer() {
    let mut codec = ClientCodec::new();
    let mut buffer = BytesMut::from(&b"RECEIPT\n\n\0RECEIPT\nreceipt-id:r\n\n\0"[..]);
    assert!(codec.decode(&mut buffer).is_err());
    let msg = codec.decode(&mut buffer).expect("Well formed").expect("A message");
    assert!(matches!(msg.content, FromServer::Receipt { receipt_id } if receipt_id == "r"));
}

#[test]
fn bytes_that_are_no_frame_stay_in_the_buffer() {
    let mut codec = ClientCodec::new();
    let mut buffer = BytesMut::from(&b"\n123\n\n\0"[..]);
    assert!(codec.decode(&mut buffer).is_err());
    assert_eq!(&buffer[..], b"123\n\n\0");
}

#[test]
fn an_unfinished_frame_is_bounded() {
    let data = b"ERROR\n\nbody";
    let mut codec = ClientCodec::with_max_frame_size(11);
    let mut buffer = BytesMut::from(&data[..]);
    assert!(codec.decode(&mut buffer).expect("At the bound").is_none());
    buffer.extend_from_slice(b"x");
    assert!(codec.decode(&mut buffer).is_err());
    // A frame that is there is taken whatever its size
    buffer.extend_from_slice(b"\0");
    assert!(codec.decode(&mut buffer).expect("A frame").is_some());
    assert_eq!(DEFAULT_MAX_FRAME_SIZE, 100 * 1024 * 1024);
}

#[test]
fn a_message_is_delivered_as_it_was_sent() {
    let mut codec = ClientCodec::new();
    let mut buffer = BytesMut::from(
        &b"MESSAGE\ndestination:/q\\c1\nmessage-id:m\\\\1\nsubscription:s\nack:\\a\nx-tricky:a\\cb\\\\c\n\nhi\0\r\nrest"[..],
    );
    let msg = codec.decode(&mut buffer).expect("Well formed").expect("A message");
    assert_eq!(&buffer[..], b"rest");
    let FromServer::Message { destination, message_id, subscription, ack, headers, body } = msg.content else {
        panic!("Expected a MESSAGE");
    };
    assert_eq!(destination, "/q:1");
    assert_eq!(message_id, "m\\1");
    assert_eq!(subscription, "s");
    assert_eq!(ack.as_deref(), Some("\\a"));
    assert_eq!(
        headers,
        texts(&[
            ("destination", "/q:1"),
            ("message-id", "m\\1"),
            ("subscription", "s"),
            ("ack", "\\a"),
            ("x-tricky", "a:b\\c"),
        ])
    );
    assert_eq!(body.as_deref(), Some(&b"hi"[..]));
    assert_eq!(msg.extra_headers, bytes(&[("x-tricky", "a\\cb\\\\c")]));
}

#[test]
fn an_error_and_a_receipt_are_delivered() {
    let mut codec = ClientCodec::new();
    let mut buffer = BytesMut::from(&b"ERROR\nmessage:no\n\nwhy\0error\n\n\0"[..]);
    let msg = codec.decode(&mut buffer).expect("Well formed").expect("A message");
    assert!(matches!(
        msg.content,
        FromServer::Error { message: Some(m), body: Some(b) } if m == "no" && b == b"why"
    ));
    let msg = codec.decode(&mut buffer).expect("Well formed").expect("A message");
    assert!(matches!(msg.content, FromServer::Error { message: None, body: None }));
}

#[test]
fn the_codec_writes_behind_what_is_there() {
    let mut codec = ClientCodec::new();
    let mut buffer = BytesMut::new();
    codec.encode(ToServer::Begin { transaction: "t".to_string() }.into(), &mut buffer).expect("Room");
    codec.encode(ToServer::Commit { transaction: "t".to_string() }.into(), &mut buffer).expect("Room");
    assert_eq!(&buffer[..], b"BEGIN\ntransaction:t\n\n\0COMMIT\ntransaction:t\n\n\0");
}

#[test]
fn handshake_sends_the_connect_message() {
    let connector = || {
        Connector::builder()
            .server("127.0.0.1:0")
            .virtualhost("virtual.stomp.example.com")
            .login("guest_login".to_string())
            .passcode("guest_passcode".to_string())
            .headers(texts(&[("client-id", "ClientTest")]))
    };
    let mut received = BytesMut::new();
    let mut codec = connector().codec();
    codec.encode(connector().msg(), &mut received).expect("Room");
    let mut expected = BytesMut::new();
    connector().msg().to_frame().serialize(&mut expected);
    assert_eq!(received, expected);
    assert_eq!(
        &received[..],
        b"CONNECT\naccept-version:1.2\nhost:virtual.stomp.example.com\nlogin:guest_login\n\
passcode:guest_passcode\nclient-id:ClientTest\n\n\0"
    );
    let mut reply = BytesMut::from(&b"CONNECTED\nversion:1.2\n\n\0"[..]);
    let reply = codec.decode(&mut reply).expect("Well formed");
    assert!(accept_reply(&reply, None, true).is_ok());
}

#[test]
fn handshake_refuses_a_version_it_did_not_ask_for() {
    let mut buffer = BytesMut::from(&b"CONNECTED\nversion:1.1\n\n\0"[..]);
    let reply = ClientCodec::new().decode(&mut buffer).expect("Well formed");
    let error = accept_reply(&reply, None, true).expect_err("A CONNECTED naming 1.1 should be refused");
    assert!(error.message().contains("1.1"), "{}", error.message());
}

#[test]
fn a_connection_without_options_sends_none() {
    let msg = Connector::builder().server("a:1").virtualhost("h".to_string()).msg();
    assert_eq!(written(&msg), b"CONNECT\naccept-version:1.2\nhost:h\n\n\0");
}

#[test]
fn the_builder_keeps_what_it_is_told() {
    let connector = Connector::builder();
    assert!(!connector.use_tls);
    assert!(connector.auto_heartbeat);
    assert_eq!(connector.heartbeat, None);
    assert_eq!(connector.max_frame_size, DEFAULT_MAX_FRAME_SIZE);
    let connector = connector
        .server("first")
        .use_tls(true)
        .max_frame_size(1)
        .max_frame_size(2)
        .tls_server_name("name".to_string())
        .heartbeat(1, 2)
        .heartbeat(3, 4)
        .auto_heartbeat(false)
        .virtualhost("v")
        .server(7u8);
    assert_eq!(connector.server, 7);
    assert_eq!(connector.virtualhost, "v");
    assert!(connector.use_tls);
    assert!(!connector.auto_heartbeat);
    assert_eq!(connector.heartbeat, Some((3, 4)));
    assert_eq!(connector.max_frame_size, 2);
    assert_eq!(connector.tls_server_name.as_deref(), Some("name"));
}

#[test]
fn a_subscription_can_be_built_in_any_order() {
    let msg = Subscriber::builder()
        .id("first")
        .ack(AckMode::Auto)
        .id("second".to_string())
        .ack(AckMode::Client)
        .headers(texts(&[("x", "1")]))
        .destination("d")
        .headers(texts(&[("y", "2")]))
        .subscribe();
    assert_eq!(written(&msg), b"SUBSCRIBE\ndestination:d\nid:second\nack:client\ny:2\n\n\0");
}

#[test]
fn a_shutdown_waits_for_its_receipt() {
    let msg = disconnect_msg("bye".to_string());
    assert_eq!(written(&msg), b"DISCONNECT\nreceipt:bye\n\n\0");
    let reply = |data: &[u8]| ClientCodec::new().decode(&mut BytesMut::from(data)).expect("Well formed");
    assert_eq!(closing(&reply(b"RECEIPT\nreceipt-id:bye\n\n\0"), "bye"), Closing::Acknowledged);
    assert_eq!(closing(&reply(b"RECEIPT\nreceipt-id:by\n\n\0"), "bye"), Closing::Waiting);
    assert_eq!(closing(&reply(b"CONNECTED\nversion:1.2\n\n\0"), "bye"), Closing::Waiting);
    assert_eq!(closing(&reply(b"ERROR\n\n\0"), "bye"), Closing::Failed);
    assert_eq!(closing(&None, "bye"), Closing::Failed);
}

#[test]
fn bodies_are_shown_as_text() {
    assert_eq!(pretty_bytes(&None), "None");
    assert_eq!(pretty_bytes(&Some(b"text".to_vec())), "text");
    assert_eq!(pretty_bytes(&Some("räksmörgås".as_bytes().to_vec())), "räksmörgås");
    assert_eq!(pretty_bytes(&Some(vec![65, 255, 66])), "A\u{fffd}B");
}

#[test]
fn escapes_are_undone_once() {
    assert_eq!(unescape_header_value(b"a\\rb\\nc\\cd\\\\e"), b"a\rb\nc:d\\e");
    assert_eq!(unescape_header_value(b"\\\\c"), b"\\c");
    assert_eq!(unescape_header_value(b"\\x\\"), b"\\x\\");
    assert_eq!(unescape_header_value(b""), b"");
    for command in ["CONNECT", "connect", "CONNECTED", "connected", "STOMP", "stomp"] {
        assert!(!headers_are_escaped(command.as_bytes()));
    }
    for command in ["SEND", "MESSAGE", "Connect", "", "CONNECTE"] {
        assert!(headers_are_escaped(command.as_bytes()));
    }
}

#[test]
fn small_parts_are_read() {
    assert_eq!(is_empty_slice(b""), None);
    assert_eq!(is_empty_slice(b"a"), Some(&b"a"[..]));
    let frame = parse_frame(&mut &b"SEND\ncontent-length:2\ncontent-length:9\n\nab\0"[..]).expect("A frame");
    assert_eq!(get_content_length(&frame.headers), Some(2));
    let frame = parse_frame(&mut &b"SEND\ncontent-length:x\ncontent-length:9\n\nab\0"[..]).expect("A frame");
    assert_eq!(get_content_length(&frame.headers), None);
}

#[test]
fn an_error_stays_an_error() {
    let words = |data: &[u8]| {
        ClientCodec::new().decode(&mut BytesMut::from(data)).expect_err("Refused").message()
    };
    for data in [&b"1"[..], b"\nFOO\n\n\0", b"ERROR\n:\n", b"RECEIPT\n\n\0", b"ERROR\rx"] {
        let mut longer = data.to_vec();
        longer.extend_from_slice(b"\nERROR\n\n\0");
        assert_eq!(words(data), words(&longer), "{data:?}");
    }
}

#[test]
fn a_carriage_return_alone_is_waited_on() {
    let mut codec = ClientCodec::new();
    let mut buffer = BytesMut::from(&b"\n\r"[..]);
    assert!(codec.decode(&mut buffer).expect("Unfinished").is_none());
    assert_eq!(&buffer[..], b"\r");
    assert!(matches!(parse_frame(&mut &b"\r"[..]), Err(ParseError::Incomplete)));
    buffer.extend_from_slice(b"\nERROR\n\n\0\r");
    assert!(codec.decode(&mut buffer).expect("Well formed").is_some());
    assert!(codec.decode(&mut buffer).expect("Unfinished").is_none());
    buffer.extend_from_slice(b"\n");
    assert!(codec.decode(&mut buffer).expect("A heart-beat").is_none());
    assert!(buffer.is_empty());
    // What follows has to be the line feed
    buffer.extend_from_slice(b"\rE");
    assert!(codec.decode(&mut buffer).is_err());
}

#[test]
fn a_stream_with_carriage_returns_can_be_cut_anywhere() {
    let data = b"\r\n\r\nERROR\r\nmessage:a\r\n\r\nbody\0\r\n\r\nRECEIPT\r\nreceipt-id:r\r\n\r\n\0\r\n";
    let whole = decode_in_pieces(data, data.len());
    assert_eq!(whole.len(), 2);
    for size in 1..data.len() {
        assert_eq!(decode_in_pieces(data, size), whole, "{size}");
    }
}

#[test]
fn a_connect_is_read_from_its_frame_whatever_it_holds() {
    let msg: Message<ToServer> = ToServer::Connect {
        accept_version: "1.2\n".to_string(),
        host: "a\r\nb:\0".to_string(),
        login: Some("\\c".to_string()),
        passcode: Some("".to_string()),
        heartbeat: None,
    }
    .into();
    let again = msg.to_frame().to_client_msg().expect("A message");
    assert_eq!(format!("{again:?}"), format!("{msg:?}"));
}

#[test]
fn a_send_with_a_bad_header_is_refused() {
    let mut input = &b"SEND\ndestination:d\nx:\xff\n\n\0"[..];
    assert!(parse_frame(&mut input).expect("A frame").to_client_msg().is_err());
    // The transaction is a field of its own, and is left out instead
    let mut input = &b"SEND\ndestination:d\ntransaction:\xff\n\n\0"[..];
    let msg = parse_frame(&mut input).expect("A frame").to_client_msg().expect("A message");
    assert!(matches!(msg.content, ToServer::Send { transaction: None, headers: None, .. }));
}
