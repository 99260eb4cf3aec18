//! Building messages, and the codec.

use async_stomp::client::{ClientCodec, Connector, Subscriber};
use async_stomp::{AckMode, Message, ToServer};
use bytes::BytesMut;

/// Tests the creation of a STOMP subscription message
///
/// This test validates that a subscription message created using the Subscriber builder
/// contains the correct destination, ID, and custom headers. It verifies that the
/// subscription message serializes to the same byte sequence as a manually constructed
/// equivalent message.
///
/// If this test fails, it means the Subscriber builder is not correctly constructing
/// STOMP SUBSCRIBE frames, which would cause
/// client subscriptions to fail or behave incorrectly when connecting to a STOMP server.
#[test]
fn subscription_message() {
    let headers = vec![(
        "activemq.subscriptionName".to_string(),
        "ClientTest".to_string(),
    )];
    let subscribe_msg = Subscriber::builder()
        .destination("queue.test")
        .id("custom-subscriber-id")
        .headers(headers.clone())
        .subscribe();
    let mut expected: Message<ToServer> = ToServer::Subscribe {
        destination: "queue.test".to_string(),
        id: "custom-subscriber-id".to_string(),
        ack: None,
    }
    .into();
    expected.extra_headers = headers
        .into_iter()
        .map(|(k, v)| (k.as_bytes().to_vec(), v.as_bytes().to_vec()))
        .collect();

    let mut expected_buffer = BytesMut::new();
    expected.to_frame().serialize(&mut expected_buffer);
    let mut actual_buffer = BytesMut::new();
    subscribe_msg.to_frame().serialize(&mut actual_buffer);

    assert_eq!(expected_buffer, actual_buffer);
}

/// Tests the creation of a STOMP connection message
///
/// This test validates that a connection message created using the Connector builder
/// contains the correct server, virtualhost, login credentials, and custom headers.
/// It verifies that the connection message serializes to the same byte sequence as
/// a manually constructed equivalent message.
///
/// If this test fails, it means the Connector builder is not correctly constructing
/// STOMP CONNECT frames, which would cause
/// client connections to fail when attempting to connect to a STOMP server.
#[test]
fn connection_message() {
    let headers = vec![("client-id".to_string(), "ClientTest".to_string())];
    let connect_msg = Connector::builder()
        .server("stomp.example.com")
        .virtualhost("virtual.stomp.example.com")
        .login("guest_login".to_string())
        .passcode("guest_passcode".to_string())
        .headers(headers.clone())
        .msg();

    let mut expected: Message<ToServer> = ToServer::Connect {
        accept_version: "1.2".into(),
        host: "virtual.stomp.example.com".into(),
        login: Some("guest_login".to_string()),
        passcode: Some("guest_passcode".to_string()),
        heartbeat: None,
    }
    .into();
    expected.extra_headers = headers
        .into_iter()
        .map(|(k, v)| (k.as_bytes().to_vec(), v.as_bytes().to_vec()))
        .collect();

    let mut expected_buffer = BytesMut::new();
    expected.to_frame().serialize(&mut expected_buffer);
    let mut actual_buffer = BytesMut::new();
    connect_msg.to_frame().serialize(&mut actual_buffer);

    assert_eq!(expected_buffer, actual_buffer);
}

/// Tests that the optional builder fields are left out when not set
///
/// Everything but the server and the virtualhost is optional, and an
/// option that was never asked for must not turn up in the frame.
///
/// If this test fails, the client sends credentials or headers the caller
/// never supplied, which brokers may well reject.
#[test]
fn connection_message_defaults() {
    let connect_msg = Connector::builder()
        .server("stomp.example.com")
        .virtualhost("virtual.stomp.example.com")
        .msg();

    let mut buffer = BytesMut::new();
    connect_msg.to_frame().serialize(&mut buffer);
    let frame = String::from_utf8_lossy(&buffer);

    assert!(!frame.contains("login:"), "{frame}");
    assert!(!frame.contains("passcode:"), "{frame}");
    assert!(frame.contains("host:virtual.stomp.example.com"), "{frame}");
}

/// Tests that setting a field twice keeps the value set last
///
/// The builder lets any field be set again, so the later call has to win
/// rather than the value being merged or the first one kept.
///
/// If this test fails, a connector assembled in steps, where a later step
/// overrides an earlier default, connects with the wrong values.
#[test]
fn later_setter_calls_win() {
    let connect_msg = Connector::builder()
        .server("first.example.com")
        .server("second.example.com")
        .virtualhost("first.example.com")
        .virtualhost("second.example.com")
        .login("first".to_string())
        .login("second".to_string())
        .msg();

    let mut buffer = BytesMut::new();
    connect_msg.to_frame().serialize(&mut buffer);
    let frame = String::from_utf8_lossy(&buffer);

    assert!(frame.contains("host:second.example.com"), "{frame}");
    assert!(frame.contains("login:second"), "{frame}");
}

/// Tests that the ack mode reaches the SUBSCRIBE frame
///
/// The mode decides whether the broker expects an ACK per message, so
/// getting it onto the wire is what makes the difference between a message
/// that is redelivered after a crash and one that is lost.
///
/// If this test fails, a subscription asking for explicit acknowledgment
/// silently runs in auto mode instead.
#[test]
fn subscribe_sets_the_ack_mode() {
    let msg = Subscriber::builder()
        .destination("queue.test")
        .id("sub-1")
        .ack(AckMode::ClientIndividual)
        .subscribe();

    let mut buffer = BytesMut::new();
    msg.to_frame().serialize(&mut buffer);
    let frame = String::from_utf8_lossy(&buffer);

    assert!(frame.contains("ack:client-individual"), "{frame}");
}

/// Tests that no ack mode is sent unless one was asked for
///
/// Leaving the header off means the server's default, auto, which is what
/// every caller of this crate has had so far.
///
/// If this test fails, existing subscriptions change acknowledgment mode
/// under their callers.
#[test]
fn subscribe_leaves_the_ack_mode_out_by_default() {
    let msg = Subscriber::builder()
        .destination("queue.test")
        .id("sub-1")
        .subscribe();

    let mut buffer = BytesMut::new();
    msg.to_frame().serialize(&mut buffer);
    let frame = String::from_utf8_lossy(&buffer);

    assert!(!frame.contains("ack:"), "{frame}");
}

/// Tests that an unfinished frame past the bound is refused
///
/// A content-length far larger than anything real would otherwise have the
/// decoder wait, and the read buffer grow, until the process runs out of
/// memory.
///
/// If this test fails, a broken or hostile length header can exhaust the
/// client's memory.
#[test]
fn a_frame_growing_past_the_bound_is_refused() {
    let mut codec = ClientCodec::with_max_frame_size(64);
    let mut buffer = BytesMut::new();
    buffer.extend_from_slice(
        b"MESSAGE\ndestination:/queue/a\nmessage-id:1\nsubscription:s\ncontent-length:999999999\n\n",
    );
    buffer.extend_from_slice(&[b'x'; 200]);

    assert!(
        codec.decode(&mut buffer).is_err(),
        "An unfinished frame past the bound should be refused"
    );
}

/// Tests that an unfinished frame under the bound is simply waited on
///
/// The bound must not turn ordinary fragmentation, where a frame arrives
/// over several reads, into an error.
///
/// If this test fails, any message split across TCP segments fails to
/// arrive.
#[test]
fn an_unfinished_frame_under_the_bound_waits_for_more() {
    let mut codec = ClientCodec::with_max_frame_size(1024);
    let mut buffer = BytesMut::new();
    buffer.extend_from_slice(b"MESSAGE\ndestination:/queue/a\nmessage-id:1\n");

    assert!(
        codec
            .decode(&mut buffer)
            .expect("A partial frame is not an error")
            .is_none(),
        "The decoder should ask for more data"
    );
}
