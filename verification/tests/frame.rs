//! Frames on the wire: reading them, and writing them.

use async_stomp::frame::Frame;
use async_stomp::grammar::parse_frame;
use async_stomp::{FromServer, Message, ToServer};
use bytes::BytesMut;

/// For all Frames Client -> Server
fn parse_and_serialize_to_server(
    data: &[u8],
    frame: Frame<'_>,
    headers_expect: Vec<(&[u8], &[u8])>,
    body_expect: Option<&[u8]>,
) {
    let fh: Vec<(&[u8], &[u8])> = frame.headers.iter().map(|&(k, ref v)| (k, &**v)).collect();
    println!("Provided Headers: ");
    for f in &fh {
        println!(
            "  {}: {}",
            std::str::from_utf8(f.0).unwrap(),
            std::str::from_utf8(f.1).unwrap()
        );
    }
    println!("Expected Headers: ");
    for f in &headers_expect {
        println!(
            "  {}: {}",
            std::str::from_utf8(f.0).unwrap(),
            std::str::from_utf8(f.1).unwrap()
        );
    }

    println!("Provided Body: ");
    println!(
        "{}",
        std::str::from_utf8(frame.body.unwrap_or(b"")).unwrap()
    );
    println!("Expected Body: ");
    println!(
        "{}",
        std::str::from_utf8(body_expect.unwrap_or(b"")).unwrap()
    );
    assert_eq!(fh, headers_expect, "headers dont match");
    assert_eq!(frame.body, body_expect, "body doesnt match");
    let stomp = frame.to_client_msg().unwrap();
    let mut buffer = BytesMut::new();
    stomp.to_frame().serialize(&mut buffer);
    println!("left: {}", std::str::from_utf8(&buffer).unwrap());
    println!("right: {}", std::str::from_utf8(data).unwrap());
    assert_eq!(&*buffer, data, "frame data doesnt match");
}

/// Tests STOMP CONNECT frame parsing and serialization with a heartbeat configuration
///
/// This test validates that a CONNECT frame with heartbeat configuration can be correctly
/// parsed from raw bytes into a Frame structure and then serialized back to the exact
/// same byte representation. It verifies the command, headers, and heart-beat values
/// are preserved correctly through the parse-serialize cycle.
///
/// If this test fails, it means the STOMP frame parser or serializer is not correctly
/// handling CONNECT frames with heartbeat configurations, which would cause connection
/// issues or prevent proper heartbeat functionality when connecting to a STOMP server.
#[test]
fn parse_and_serialize_client_connect_with_heartbeat() {
    let data = b"CONNECT
accept-version:1.2
host:datafeeds.here.co.uk
login:user
heart-beat:6,7
passcode:password\n\n\x00"
        .to_vec();
    let frame = parse_frame(&mut (data.as_slice())).unwrap();
    let headers_expect: Vec<(&[u8], &[u8])> = vec![
        (&b"accept-version"[..], &b"1.2"[..]),
        (b"host", b"datafeeds.here.co.uk"),
        (b"login", b"user"),
        (b"heart-beat", b"6,7"),
        (b"passcode", b"password"),
    ];

    assert_eq!(frame.command, b"CONNECT");
    parse_and_serialize_to_server(&data, frame, headers_expect, None);
}

/// Tests STOMP CONNECT frame parsing and serialization without heartbeat configuration
///
/// This test validates that a CONNECT frame without heartbeat configuration can be correctly
/// parsed from raw bytes into a Frame structure and then serialized back to the exact
/// same byte representation. It verifies the command and headers are preserved correctly
/// through the parse-serialize cycle.
///
/// If this test fails, it means the STOMP frame parser or serializer is not correctly
/// handling basic CONNECT frames without optional heartbeat settings, which would cause
/// connection failures when connecting to a STOMP server.
#[test]
fn parse_and_serialize_client_connect_without_heartbeat() {
    let data = b"CONNECT
accept-version:1.2
host:datafeeds.here.co.uk
login:user
passcode:password\n\n\x00";
    let frame = parse_frame(&mut (data.as_slice())).unwrap();
    println!("Frame: {frame:?}");
    let headers_expect: Vec<(&[u8], &[u8])> = vec![
        (&b"accept-version"[..], &b"1.2"[..]),
        (b"host", b"datafeeds.here.co.uk"),
        (b"login", b"user"),
        (b"passcode", b"password"),
    ];

    assert_eq!(frame.command, b"CONNECT");
    parse_and_serialize_to_server(data, frame, headers_expect, None);
}

/// Tests STOMP DISCONNECT frame parsing and serialization
///
/// This test validates that a DISCONNECT frame can be correctly parsed from raw bytes
/// into a Frame structure and then serialized back to the exact same byte representation.
/// It verifies the command and receipt header are preserved correctly through the
/// parse-serialize cycle.
///
/// If this test fails, it means the STOMP frame parser or serializer is not correctly
/// handling DISCONNECT frames, which would cause issues with graceful client disconnection
/// and potentially leave server resources allocated unnecessarily.
#[test]
fn parse_and_serialize_client_disconnect() {
    let data = b"DISCONNECT\nreceipt:77\n\n\x00";
    let frame = parse_frame(&mut (data.as_slice())).unwrap();
    let headers_expect: Vec<(&[u8], &[u8])> = vec![(b"receipt", b"77")];

    assert_eq!(frame.command, b"DISCONNECT");
    parse_and_serialize_to_server(data, frame, headers_expect, None);
}

/// Tests STOMP SEND frame parsing and serialization with minimal headers
///
/// This test validates that a SEND frame with only the required destination header
/// can be correctly parsed from raw bytes into a Frame structure and then serialized
/// back to the exact same byte representation. It verifies the command, headers, and body
/// are preserved correctly through the parse-serialize cycle.
///
/// If this test fails, it means the STOMP frame parser or serializer is not correctly
/// handling basic SEND frames, which would prevent clients from sending messages to
/// destinations in the message broker.
#[test]
fn parse_and_serialize_client_send_message_minimum() {
    let mut data = b"SEND\ndestination:/queue/a\n\n".to_vec();
    let body = b"this body contains no nulls \n and \n newlines OK?";
    data.extend_from_slice(body);
    data.extend_from_slice(b"\x00");
    let frame = parse_frame(&mut (data.as_slice())).unwrap();
    let headers_expect: Vec<(&[u8], &[u8])> = vec![(&b"destination"[..], &b"/queue/a"[..])];
    assert_eq!(frame.command, b"SEND");
    parse_and_serialize_to_server(&data, frame, headers_expect, Some(body));
}

/// Tests STOMP SEND frame parsing and serialization with content-length and content-type headers
///
/// This test validates that a SEND frame with recommended headers (content-type and content-length)
/// can be correctly parsed from raw bytes into a Frame structure and then serialized back to the
/// exact same byte representation. It especially verifies that a message body containing null bytes
/// is handled correctly when a content-length header is present.
///
/// If this test fails, it means the STOMP frame parser or serializer is not correctly handling
/// SEND frames with content-length headers, which would cause binary message data or message bodies
/// containing null bytes to be corrupted or incorrectly processed.
#[test]
fn parse_and_serialize_client_send_message_recommended() {
    let mut data =
        b"SEND\ndestination:/queue/a\ncontent-type:text/html;charset=utf-8\n".to_vec();
    let body = "this body contains \x00 nulls \n and \r\n newlines \x00 OK?";
    let rest = format!("content-length:{}\n\n{}\x00", body.len(), body);
    data.extend_from_slice(rest.as_bytes());
    let frame = parse_frame(&mut (data.as_slice())).unwrap();
    let headers_expect: Vec<(&[u8], &[u8])> = vec![
        (&b"destination"[..], &b"/queue/a"[..]),
        (b"content-type", b"text/html;charset=utf-8"),
        (b"content-length", b"50"),
    ];

    assert_eq!(frame.command, b"SEND");
    parse_and_serialize_to_server(&data, frame, headers_expect, Some(body.as_bytes()));
}

/// Tests parsing of STOMP MESSAGE frame with escaped characters in headers
///
/// This test validates that a MESSAGE frame with headers containing escape sequences
/// (e.g., \n, \r, \c, \\) can be correctly parsed and the escape sequences properly
/// converted to their corresponding characters. It verifies the header unescape
/// functionality works correctly for all supported escape sequences.
///
/// If this test fails, it means the header unescaping mechanism is not working correctly,
/// which would cause headers with special characters to be misinterpreted and potentially
/// lead to protocol errors or incorrect message routing.
#[test]
fn parse_message_with_escaped_characters() {
    // Create a MESSAGE frame with all types of escaped characters
    let data = b"MESSAGE
destination:/queue/test
message-id:ID\\cnotificationator\\n\\rwith\\\\backslash-1\\c1
subscription:sub-123\n\ntest message body\x00";

    // Parse the frame
    let frame = parse_frame(&mut (data.as_slice())).unwrap();

    // Convert to server message
    let message = frame.to_server_msg().unwrap();

    // Verify that all escape sequences have been unescaped properly
    if let FromServer::Message { message_id, .. } = message.content {
        assert_eq!(
            message_id, "ID:notificationator\n\rwith\\backslash-1:1",
            "Message ID should have all escape sequences unescaped"
        );
    } else {
        panic!("Expected Message type but got: {:?}", message.content);
    }
}

/// Tests serialization of STOMP messages with special characters in headers
///
/// This test validates that when creating a STOMP message with special characters
/// in headers (e.g., colons, newlines, carriage returns, backslashes), these characters
/// are properly escaped in the serialized output.
///
/// If this test fails, it means the header escaping mechanism is not working correctly,
/// which would cause messages with special characters in headers to be rejected by the
/// server or lead to protocol errors when communicating with a STOMP broker.
#[test]
fn serialize_message_with_special_characters() {
    // Create a message ID with all types of special characters
    let message_id = "ID:notificationator\n\rwith\\backslash-1:1";

    // Create an ACK message with this ID
    let ack_message = Message {
        content: ToServer::Ack {
            id: message_id.to_string(),
            transaction: None,
        },
        extra_headers: vec![],
    };

    // Serialize the message
    let mut buffer = BytesMut::new();
    ack_message.to_frame().serialize(&mut buffer);

    // Check that the serialized message contains the properly escaped characters
    let serialized = String::from_utf8_lossy(&buffer);

    // Each special character should be properly escaped
    assert!(
        serialized.contains("ID\\cnotificationator\\n\\rwith\\\\backslash-1\\c1"),
        "Serialized message should contain properly escaped special characters.\nActual: {serialized}"
    );
}

/// Tests that a SEND frame names its transaction header `transaction`
///
/// `transaction` is the only optional header that SEND has, and it is
/// what binds the message to a started transaction. This runs the frame
/// through the same parse-serialize cycle as the other SEND tests, so it
/// covers both the name on the wire and the round trip through
/// `to_client_msg`.
///
/// If this test fails, messages sent inside a transaction are published
/// straight away instead, and an ABORT no longer takes them back — silently,
/// since brokers pass an unknown header through as a user header.
#[test]
fn parse_and_serialize_client_send_message_in_transaction() {
    let mut data = b"SEND\ndestination:/queue/a\ntransaction:tx-1\n\n".to_vec();
    let body = b"sent inside a transaction";
    data.extend_from_slice(body);
    data.extend_from_slice(b"\x00");
    let frame = parse_frame(&mut (data.as_slice())).unwrap();
    let headers_expect: Vec<(&[u8], &[u8])> = vec![
        (&b"destination"[..], &b"/queue/a"[..]),
        (b"transaction", b"tx-1"),
    ];

    assert_eq!(frame.command, b"SEND");
    parse_and_serialize_to_server(&data, frame, headers_expect, Some(body));
}

/// Tests that a body holding NULL octets is sent with a content-length
///
/// Without the header a reader stops at the first NULL, so
/// content-length is mandatory for such a body. The body is parsed back here
/// rather than only inspected, since surviving the round trip is the whole
/// point of the header.
///
/// If this test fails, every binary payload containing a zero byte is
/// silently truncated at that byte on its way to the broker.
#[test]
fn send_with_null_octets_in_the_body_sets_content_length() {
    let body = b"binary \x00 payload \x00 here".to_vec();
    let msg: Message<ToServer> = ToServer::Send {
        destination: "/queue/a".into(),
        transaction: None,
        headers: None,
        body: Some(body.clone()),
    }
    .into();

    let mut buffer = BytesMut::new();
    msg.to_frame().serialize(&mut buffer);

    let serialized = String::from_utf8_lossy(&buffer);
    assert!(
        serialized.contains(&format!("content-length:{}", body.len())),
        "Expected a content-length header.\nActual: {serialized:?}"
    );

    let parsed = parse_frame(&mut (&buffer[..])).expect("Parse the frame back");
    assert_eq!(
        parsed.body,
        Some(body.as_slice()),
        "The whole body should survive the round trip"
    );
}

/// Tests that an ordinary body is sent without a content-length
///
/// For a body without NULL octets the header is only recommended, and
/// adding it is not free: ActiveMQ reads its presence as "this payload is
/// binary" and maps the message to a different JMS type. Leaving it off
/// keeps what every existing caller already puts on the wire.
///
/// If this test fails, messages that used to arrive as text arrive as bytes
/// instead, which consumers notice.
#[test]
fn send_without_null_octets_leaves_content_length_off() {
    let msg: Message<ToServer> = ToServer::Send {
        destination: "/queue/a".into(),
        transaction: None,
        headers: None,
        body: Some(b"an ordinary text body".to_vec()),
    }
    .into();

    let mut buffer = BytesMut::new();
    msg.to_frame().serialize(&mut buffer);
    let serialized = String::from_utf8_lossy(&buffer);

    assert!(
        !serialized.contains("content-length"),
        "Did not expect a content-length header.\nActual: {serialized:?}"
    );
}

/// Tests that a caller supplying content-length is not overruled
///
/// The header may be set through the `headers` field, and the frame must
/// then carry it once. Two entries would make the broker use the first and
/// the meaning depend on ordering.
///
/// If this test fails, a caller who sets the header themselves produces a
/// frame with a duplicate, which is at best wasteful and at worst ambiguous.
#[test]
fn send_keeps_a_caller_supplied_content_length() {
    let body = b"a\x00b".to_vec();
    let msg: Message<ToServer> = ToServer::Send {
        destination: "/queue/a".into(),
        transaction: None,
        headers: Some(vec![("content-length".into(), body.len().to_string())]),
        body: Some(body),
    }
    .into();

    let mut buffer = BytesMut::new();
    msg.to_frame().serialize(&mut buffer);
    let serialized = String::from_utf8_lossy(&buffer);

    assert_eq!(
        serialized.matches("content-length:").count(),
        1,
        "Expected exactly one content-length header.\nActual: {serialized:?}"
    );
}

/// Tests that CONNECT headers go out unescaped
///
/// CONNECT and CONNECTED are exempt from header escaping, for
/// backward compatibility with STOMP 1.0. A colon or a backslash in a
/// credential is therefore sent as itself.
///
/// If this test fails, a login or passcode containing `:` or `\` reaches the
/// broker altered, and authentication fails for a reason nothing in the
/// error points at.
#[test]
fn connect_headers_are_not_escaped() {
    let msg: Message<ToServer> = ToServer::Connect {
        accept_version: "1.2".into(),
        host: "stomp.example.com".into(),
        login: Some("DOMAIN\\user".into()),
        passcode: Some("pa:ss\\word".into()),
        heartbeat: None,
    }
    .into();

    let mut buffer = BytesMut::new();
    msg.to_frame().serialize(&mut buffer);
    let serialized = String::from_utf8_lossy(&buffer);

    assert!(
        serialized.contains("login:DOMAIN\\user\n"),
        "Login should be sent verbatim.\nActual: {serialized:?}"
    );
    assert!(
        serialized.contains("passcode:pa:ss\\word\n"),
        "Passcode should be sent verbatim.\nActual: {serialized:?}"
    );
}

/// Tests that CONNECTED headers are read unescaped
///
/// The mirror image of the rule above: a backslash in a `session` or
/// `server` value is a backslash, not the start of an escape sequence.
///
/// If this test fails, session identifiers and server names containing a
/// backslash are mangled on the way in.
#[test]
fn connected_headers_are_not_unescaped() {
    let data = b"CONNECTED\nversion:1.2\nsession:ID\\c1\nserver:ActiveMQ\\n5\n\n\x00";
    let frame = parse_frame(&mut (data.as_slice())).unwrap();
    let message = frame.to_server_msg().expect("Read the CONNECTED frame");

    let FromServer::Connected {
        session, server, ..
    } = message.content
    else {
        panic!("Expected a CONNECTED frame but got: {:?}", message.content);
    };
    assert_eq!(session.as_deref(), Some("ID\\c1"));
    assert_eq!(server.as_deref(), Some("ActiveMQ\\n5"));
}

/// Tests that a header which is not valid UTF-8 is reported, not panicked on
///
/// Headers are UTF-8, so these bytes are a malformed frame. A
/// client has to reject them: the conversion runs inside the codec, on
/// whatever task polls the transport, where a panic takes the task with it.
///
/// If this test fails, anything on the wire able to put a stray byte in a
/// header can bring the client down.
#[test]
fn a_header_that_is_not_utf8_is_an_error() {
    let from_server =
        b"MESSAGE\ndestination:/queue/a\nmessage-id:1\nsubscription:sub-1\nx-bin:\xff\xfe\n\n\x00";
    let frame = parse_frame(&mut (from_server.as_slice())).unwrap();
    assert!(
        frame.to_server_msg().is_err(),
        "A MESSAGE with a non-UTF-8 header should be rejected"
    );

    let to_server = b"SEND\ndestination:/queue/a\nx-bin:\xff\xfe\n\n\x00";
    let frame = parse_frame(&mut (to_server.as_slice())).unwrap();
    assert!(
        frame.to_client_msg().is_err(),
        "A SEND with a non-UTF-8 header should be rejected"
    );
}

/// Tests that a MESSAGE carries the value an ACK has to quote
///
/// STOMP 1.2 acknowledges by the `ack` header, and it is a different value
/// from `message-id`. Reaching it used to mean scanning the header list
/// while `message_id` sat there as a field, which is how the wrong one gets
/// picked.
///
/// If this test fails, the value needed to acknowledge a message is not
/// exposed and callers fall back to `message_id`, which a 1.2 broker
/// rejects with an ERROR and a closed connection.
#[test]
fn a_message_carries_its_ack_value() {
    let data =
        b"MESSAGE\ndestination:/queue/a\nmessage-id:mid-1\nsubscription:sub-1\nack:ack-1\n\nbody\x00";
    let frame = parse_frame(&mut (data.as_slice())).unwrap();
    let message = frame.to_server_msg().expect("Read the MESSAGE frame");

    let FromServer::Message {
        ack, message_id, ..
    } = message.content
    else {
        panic!("Expected a MESSAGE frame");
    };
    assert_eq!(ack.as_deref(), Some("ack-1"));
    assert_ne!(
        ack.as_deref(),
        Some(message_id.as_str()),
        "The two are different values, which is the whole point"
    );
}

/// Tests that a MESSAGE needing no acknowledgment has no ack value
///
/// The header is only sent for a subscription in client or
/// client-individual mode, so in auto mode there is nothing to quote.
///
/// If this test fails, callers are handed an acknowledgment value that the
/// broker never issued.
#[test]
fn a_message_in_auto_mode_has_no_ack_value() {
    let data =
        b"MESSAGE\ndestination:/queue/a\nmessage-id:mid-1\nsubscription:sub-1\n\nbody\x00";
    let frame = parse_frame(&mut (data.as_slice())).unwrap();
    let message = frame.to_server_msg().expect("Read the MESSAGE frame");

    let FromServer::Message { ack, .. } = message.content else {
        panic!("Expected a MESSAGE frame");
    };
    assert_eq!(ack, None);
}
