//! Every error, the input that gives it, and its words.

use async_stomp::client::{accept_reply, server_host, ClientCodec, Connector};
use async_stomp::convert::{
    all_headers, expect_header, expect_raw_header, fetch_header, fetch_raw_header,
    header_to_string, optional_headers,
};
use async_stomp::error::Error;
use async_stomp::frame::Frame;
use async_stomp::grammar::{parse_frame, ParseError, Part};
use async_stomp::heartbeat::parse_heartbeat;
use async_stomp::text::NumberError;
use async_stomp::{FromServer, Message, ToServer};
use bytes::BytesMut;

fn read(data: &[u8]) -> Frame<'_> {
    parse_frame(&mut &data[..]).expect("A frame")
}

fn server_error(data: &[u8]) -> Error {
    read(data).to_server_msg().expect_err("An error")
}

fn client_error(data: &[u8]) -> Error {
    read(data).to_client_msg().expect_err("An error")
}

fn decode_error(data: &[u8], max_frame_size: usize) -> Error {
    let mut buffer = BytesMut::from(data);
    ClientCodec::with_max_frame_size(max_frame_size)
        .decode(&mut buffer)
        .expect_err("An error")
}

fn failed(part: &str) -> String {
    format!("Parse failed: Backtrack(ContextError {{ context: [Label(\"{part}\")], cause: None }})")
}

#[test]
fn a_missing_header_is_named() {
    let e = server_error(b"MESSAGE\nmessage-id:1\nsubscription:s\n\n\0");
    assert!(matches!(&e, Error::MissingHeader(key) if key == "destination"));
    assert_eq!(e.message(), "Expected header 'destination' missing");
    let e = server_error(b"MESSAGE\ndestination:d\nsubscription:s\n\n\0");
    assert_eq!(e.message(), "Expected header 'message-id' missing");
    let e = server_error(b"MESSAGE\ndestination:d\nmessage-id:1\n\n\0");
    assert_eq!(e.message(), "Expected header 'subscription' missing");
    assert_eq!(server_error(b"RECEIPT\n\n\0").message(), "Expected header 'receipt-id' missing");
    assert_eq!(server_error(b"CONNECTED\n\n\0").message(), "Expected header 'version' missing");
    assert_eq!(client_error(b"CONNECT\n\n\0").message(), "Expected header 'accept-version' missing");
    assert_eq!(client_error(b"STOMP\naccept-version:1.2\n\n\0").message(), "Expected header 'host' missing");
    assert_eq!(client_error(b"ACK\n\n\0").message(), "Expected header 'id' missing");
    assert_eq!(client_error(b"BEGIN\n\n\0").message(), "Expected header 'transaction' missing");
}

#[test]
fn a_required_header_that_is_not_utf8_counts_as_missing() {
    let e = server_error(b"RECEIPT\nreceipt-id:\xff\n\n\0");
    assert!(matches!(e, Error::MissingHeader(key) if key == "receipt-id"));
}

#[test]
fn a_header_name_that_is_not_utf8_is_refused() {
    let e = server_error(b"MESSAGE\ndestination:d\nmessage-id:1\nsubscription:s\n\xff:1\n\n\0");
    assert!(matches!(e, Error::HeaderNameNotUtf8));
    assert_eq!(e.message(), "Header name is not valid UTF-8");
}

#[test]
fn a_header_value_that_is_not_utf8_is_refused() {
    let e = client_error(b"SEND\ndestination:d\nx-bin:\xff\xfe\n\n\0");
    assert!(matches!(&e, Error::HeaderValueNotUtf8(key) if key == "x-bin"));
    assert_eq!(e.message(), "Value of header 'x-bin' is not valid UTF-8");
}

#[test]
fn the_first_bad_header_decides() {
    let e = client_error(b"SEND\ndestination:d\na:\xff\n\xff:1\nb:\xff\n\n\0");
    assert_eq!(e.message(), "Value of header 'a' is not valid UTF-8");
}

#[test]
fn an_unknown_ack_mode_is_refused() {
    let e = client_error(b"SUBSCRIBE\ndestination:d\nid:1\nack:sometimes\n\n\0");
    assert!(matches!(&e, Error::InvalidAckMode(mode) if mode == "sometimes"));
    assert_eq!(e.message(), "Invalid ack mode: sometimes");
}

#[test]
fn an_unknown_command_is_refused() {
    let e = server_error(b"SEND\ndestination:d\n\n\0");
    assert!(matches!(&e, Error::UnrecognizedFrame(command) if command == b"SEND"));
    assert_eq!(e.message(), "Frame not recognized: \"SEND\"");
    assert_eq!(client_error(b"MESSAGE\n\n\0").message(), "Frame not recognized: \"MESSAGE\"");
    // A command is spelled in one case throughout
    assert_eq!(client_error(b"Send\ndestination:d\n\n\0").message(), "Frame not recognized: \"Send\"");
}

#[test]
fn an_unknown_command_is_quoted_with_its_odd_bytes() {
    let frame = Frame { command: b"A\xff\n\"", headers: vec![], body: None };
    let e = frame.to_client_msg().expect_err("An error");
    assert_eq!(e.message(), "Frame not recognized: \"A\u{fffd}\\n\\\"\"");
}

#[test]
fn a_bad_heartbeat_is_refused() {
    let e = client_error(b"CONNECT\naccept-version:1.2\nhost:h\nheart-beat:5\n\n\0");
    assert!(matches!(e, Error::BadHeartbeat));
    assert_eq!(e.message(), "Bad heartbeat");
    // The heart-beat is looked at first
    assert!(matches!(client_error(b"CONNECT\nheart-beat:5\n\n\0"), Error::BadHeartbeat));
}

#[test]
fn a_bad_interval_is_refused() {
    let e = parse_heartbeat("5,").expect_err("Nothing behind the comma");
    assert!(matches!(e, Error::BadInterval(NumberError::Empty)));
    assert_eq!(e.message(), "cannot parse integer from empty string");
    let e = parse_heartbeat("a,1").expect_err("A letter");
    assert!(matches!(e, Error::BadInterval(NumberError::InvalidDigit)));
    assert_eq!(e.message(), "invalid digit found in string");
    let e = parse_heartbeat("1,4294967296").expect_err("Past the largest number");
    assert!(matches!(e, Error::BadInterval(NumberError::TooLarge)));
    assert_eq!(e.message(), "number too large to fit in target type");
    assert!(parse_heartbeat("1,2,3").is_err());
    assert!(parse_heartbeat("").is_err());
    assert!(parse_heartbeat(" 1,2").is_err());
}

#[test]
fn the_words_for_a_bad_number_are_those_of_the_standard_library() {
    for text in ["", "+", "-", "a", "1a", "-1", "4294967296", "42949672950", "99999999999999", "4294967295a"] {
        let expected = text.parse::<u32>().expect_err("Not a number").to_string();
        let found = parse_heartbeat(&format!("{text},0")).expect_err("Not a number");
        assert_eq!(found.message(), expected, "{text}");
    }
    for text in ["0", "+0", "7", "007", "+4294967295", "4294967295"] {
        let expected = text.parse::<u32>().expect("A number");
        let found = parse_heartbeat(&format!("{text},{text}")).expect("Two numbers");
        assert_eq!(found, (expected, expected), "{text}");
    }
}

#[test]
fn an_oversized_frame_is_refused_with_the_bound() {
    let e = decode_error(b"MESSAGE\ndestination:d\n", 21);
    assert!(matches!(e, Error::FrameTooLarge(21)));
    assert_eq!(e.message(), "Frame exceeds the maximum of 21 bytes");
    assert_eq!(decode_error(b"M", 0).message(), "Frame exceeds the maximum of 0 bytes");
}

#[test]
fn bytes_that_are_no_frame_are_refused() {
    let e = decode_error(b"123\n\n\0", 100);
    assert!(matches!(e, Error::ParseFailed(Part::CommandOrHeaders)));
    assert_eq!(e.message(), failed("Command/Headers"));
    let e = decode_error(b"ERROR\ncontent-length:1\n\nab\0", 100);
    assert!(matches!(e, Error::ParseFailed(Part::Terminator)));
    assert_eq!(e.message(), failed("NullTermination/LineEnding"));
    assert_eq!(Error::ParseFailed(Part::Header).message(), failed("Header"));
    assert!(matches!(
        parse_frame(&mut &b"ERROR\n:1\n\n\0"[..]),
        Err(ParseError::Invalid(Part::CommandOrHeaders))
    ));
}

#[test]
fn a_full_buffer_is_told() {
    assert_eq!(Error::BufferFull.message(), "The frame does not fit in the buffer");
}

#[test]
fn an_answer_that_is_no_connected_is_refused() {
    let e = accept_reply(&None, None, true).expect_err("No answer");
    assert!(matches!(&e, Error::UnexpectedReply(reply) if reply == "None"));
    assert_eq!(e.message(), "unexpected reply: None");
    let reply = read(b"ERROR\nmessage:de\\nnied\nx:1\n\nr\xe4k\0").to_server_msg().expect("An ERROR");
    let e = accept_reply(&Some(reply), Some((1, 1)), true).expect_err("An ERROR");
    assert_eq!(
        e.message(),
        "unexpected reply: Some(Message { content: Error { message: Some(\"de\\nnied\"), \
body: r\u{fffd}k }, extra_headers: [([120], [49])] })"
    );
}

#[test]
fn messages_are_shown_as_debug_output_shows_them() {
    for data in [
        &b"CONNECTED\nversion:1.2\n\n\0"[..],
        b"CONNECTED\nversion:1.2\nsession:\"s\nserver:a\\b\nheart-beat:0,0\nx:1\ny:\n\n\0",
        b"MESSAGE\ndestination:d\nmessage-id:m\nsubscription:s\n\n\0",
        b"MESSAGE\ndestination:d\nmessage-id:m\nsubscription:s\nack:a\nx:\xc3\xa5\n\n\0",
        b"RECEIPT\nreceipt-id:r\n\n\0",
        b"ERROR\n\n\0",
        b"ERROR\nmessage:m\nabc:de\n\n\0",
    ] {
        let msg = read(data).to_server_msg().expect("A message");
        assert_eq!(msg.debug_text(), format!("{msg:?}"));
        assert_eq!(msg.content.debug_text(), format!("{:?}", msg.content));
    }
    let msg = read(b"MESSAGE\ndestination:d\nmessage-id:m\nsubscription:s\n\nhi\0")
        .to_server_msg()
        .expect("A message");
    assert_eq!(
        msg.content.debug_text(),
        "Message { destination: \"d\", message_id: \"m\", subscription: \"s\", ack: None, \
headers: [(\"destination\", \"d\"), (\"message-id\", \"m\"), (\"subscription\", \"s\")], body: hi }"
    );
    assert_eq!(msg.debug_text(), format!("{msg:?}"));
    let msg = read(b"ERROR\nmessage:m\nx:1\n\na\xff\"\nb\0").to_server_msg().expect("A message");
    assert_eq!(msg.debug_text(), format!("{msg:?}"));
}

#[test]
fn debug_output_shows_bodies_as_text() {
    let error = FromServer::Error { message: None, body: Some(b"two\nlines".to_vec()) };
    assert_eq!(format!("{error:?}"), "Error { message: None, body: two\nlines }");
    assert_eq!(format!("{error:#?}"), "Error {\n    message: None,\n    body: two\n    lines,\n}");
    let receipt = FromServer::Receipt { receipt_id: "r".to_string() };
    assert_eq!(format!("{receipt:#?}"), "Receipt {\n    receipt_id: \"r\",\n}");
}

#[test]
fn another_version_is_refused() {
    let reply = Message {
        content: FromServer::Connected {
            version: "1.20".to_string(),
            session: None,
            server: None,
            heartbeat: Some("nonsense".to_string()),
        },
        extra_headers: vec![],
    };
    let e = accept_reply(&Some(reply), Some((1, 1)), true).expect_err("Another version");
    assert!(matches!(&e, Error::WrongVersion(version) if version == "1.20"));
    assert_eq!(e.message(), "server negotiated STOMP 1.20, this client speaks 1.2");
}

#[test]
fn a_certificate_needs_a_name() {
    let connector = Connector::builder().server("a:1").virtualhost("v");
    let name = |configured, peer| connector.tls_name(configured, peer);
    assert_eq!(name(Some("stomp.example.com:61613"), "10.0.0.1").expect("The host"), "stomp.example.com");
    assert_eq!(name(Some("[::1]:61613"), "").expect("The host"), "::1");
    assert_eq!(name(None, "10.0.0.1").expect("The peer"), "10.0.0.1");
    let e = name(None, "").expect_err("No host");
    assert!(matches!(e, Error::NoHostname));
    assert_eq!(e.message(), "Could not determine server hostname for TLS verification");
    assert!(matches!(name(Some(":61613"), "10.0.0.1"), Err(Error::NoHostname)));
}

#[test]
fn a_name_that_was_set_is_taken_as_it_is() {
    let connector = Connector::builder().server("a:1").virtualhost("v");
    let set = connector.tls_server_name("stomp.example.com".to_string());
    assert_eq!(set.tls_name(None, "").expect("The name"), "stomp.example.com");
    assert_eq!(set.tls_name(Some("b:1"), "10.0.0.1").expect("The name"), "stomp.example.com");
    assert_eq!(set.tls_server_name("".to_string()).tls_name(Some("b:1"), "c").expect("The name"), "");
}

#[test]
fn an_address_names_its_host() {
    assert_eq!(server_host("localhost:61613"), "localhost");
    assert_eq!(server_host("stomp.example.com"), "stomp.example.com");
    assert_eq!(server_host("127.0.0.1:1"), "127.0.0.1");
    assert_eq!(server_host("[::1]:61613"), "::1");
    assert_eq!(server_host("[]:1"), "");
    assert_eq!(server_host("[:1"), "[");
    assert_eq!(server_host(":1"), "");
    assert_eq!(server_host("räk:1"), "räk");
    assert_eq!(server_host(""), "");
}

#[test]
fn the_first_header_of_a_name_decides() {
    let frame = read(b"RECEIPT\nreceipt-id:a\\cb\nreceipt-id:2\n\n\0");
    assert_eq!(fetch_header(&frame.headers, "receipt-id").as_deref(), Some("a:b"));
    assert_eq!(fetch_raw_header(&frame.headers, "receipt-id").as_deref(), Some("a\\cb"));
    assert_eq!(expect_header(&frame.headers, "receipt-id").expect("A value"), "a:b");
    assert_eq!(expect_raw_header(&frame.headers, "receipt-id").expect("A value"), "a\\cb");
    assert_eq!(fetch_header(&frame.headers, "Receipt-Id"), None);
    assert_eq!(fetch_raw_header(&frame.headers, ""), None);
    assert!(expect_header(&frame.headers, "x").is_err());
    assert!(expect_raw_header(&frame.headers, "x").is_err());
}

#[test]
fn headers_become_text() {
    assert_eq!(
        header_to_string(b"a\\cb", b"1\\c2").expect("Text"),
        ("a\\cb".to_string(), "1:2".to_string())
    );
    let frame = read(b"SEND\nid:1\nx:a\\nb\n\n\0");
    assert_eq!(
        all_headers(&frame.headers).expect("Text"),
        vec![("id".to_string(), "1".to_string()), ("x".to_string(), "a\nb".to_string())]
    );
    assert_eq!(
        optional_headers(&frame.headers, &["id"]).expect("Text"),
        Some(vec![("x".to_string(), "a\nb".to_string())])
    );
    assert_eq!(optional_headers(&frame.headers, &["id", "x"]).expect("Text"), None);
}

#[test]
fn a_frame_becomes_a_message_through_either_type() {
    let m = Message::<ToServer>::from_frame(read(b"commit\ntransaction:t\n\n\0")).expect("COMMIT");
    assert!(matches!(m.content, ToServer::Commit { transaction } if transaction == "t"));
    let m = Message::<FromServer>::from_frame(read(b"receipt\nreceipt-id:r\nx:1\n\n\0")).expect("RECEIPT");
    assert!(matches!(m.content, FromServer::Receipt { receipt_id } if receipt_id == "r"));
    assert_eq!(m.extra_headers, vec![(b"x".to_vec(), b"1".to_vec())]);
}
