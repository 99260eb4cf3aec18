//! A STOMP 1.2 client: its messages, the frames they travel in, and the codec
//! between the two.
//!
//! [`client::Connector`] describes a connection, and [`client::Subscriber`]
//! builds the SUBSCRIBE message. [`client::ClientCodec`] turns [`ToServer`]
//! messages into bytes, and bytes into [`FromServer`] ones. Opening the
//! connection itself, and carrying the bytes, is left to the program around
//! this library.
//!
//! Heart-beating is off by default. Turning it on keeps an idle connection
//! alive against brokers that close quiet sessions, see [`client::Connector`].

use vstd::prelude::*;

pub mod buffer;
pub mod client;
pub mod compose;
pub mod connection_laws;
pub mod convert;
pub mod error;
pub mod escape;
pub mod frame;
pub mod frame_laws;
pub mod grammar;
pub mod heartbeat;
pub mod message_laws;
pub mod model;
pub mod names;
pub mod reading_laws;
pub mod received_laws;
pub mod request_laws;
pub mod request_reading_laws;
pub mod send_laws;
pub mod sent_laws;
pub mod server_laws;
pub mod session_laws;
pub mod show;
pub mod stream_laws;
pub mod text;
pub mod wire_laws;
pub mod wording_laws;

verus! {

/// A STOMP frame: its content, plus any headers the content type has no field
/// for
///
/// `T` is [`ToServer`] or [`FromServer`]. Since a bare [`ToServer`] converts
/// into a `Message` with no extra headers, `.into()` is usually all you need.
#[derive(Debug)]
pub struct Message<T> {
    /// The message itself, a [`ToServer`] or [`FromServer`] variant
    pub content: T,
    /// Headers the content type has no field for, as raw bytes
    pub extra_headers: Vec<(Vec<u8>, Vec<u8>)>,
}

/// A message received from the server
///
/// Reached through the `content` field of a [`Message`]. Debug output shows
/// bodies as text.
#[derive(Clone)]
pub enum FromServer {
    /// Connection established acknowledgment
    ///
    /// Sent by the server in response to a successful CONNECT/STOMP frame.
    Connected {
        /// Protocol version
        version: String,
        /// Optional session identifier
        session: Option<String>,
        /// Optional server identifier
        server: Option<String>,
        /// Optional heartbeat settings
        heartbeat: Option<String>,
    },
    /// Message received from a subscription
    ///
    /// Conveys messages from subscriptions to the client. Contains the
    /// message content and associated metadata.
    Message {
        /// Destination the message was sent to
        destination: String,
        /// Unique message identifier
        message_id: String,
        /// Subscription identifier this message relates to
        subscription: String,
        /// Value to acknowledge this message with
        ///
        /// Present when the subscription asked for explicit acknowledgment.
        /// Pass it as the `id` of [`ToServer::Ack`] or [`ToServer::Nack`]:
        /// acknowledging by `message_id` is the STOMP 1.0 and 1.1 rule, and a
        /// 1.2 broker answers an ERROR and closes the connection.
        ack: Option<String>,
        /// All headers included in the message
        headers: Vec<(String, String)>,
        /// Optional message body
        body: Option<Vec<u8>>,
    },
    /// Receipt confirmation
    ///
    /// Sent from the server to the client once a server has successfully
    /// processed a client frame that requested a receipt.
    Receipt {
        /// Receipt identifier matching the client's receipt request
        receipt_id: String,
    },
    /// Error notification
    ///
    /// Sent when something goes wrong. After sending an Error,
    /// the server will close the connection.
    Error {
        /// Optional error message
        message: Option<String>,
        /// Optional error body with additional details
        body: Option<Vec<u8>>,
    },
}

/// A message to send to the server
///
/// Convert one into a [`Message`] with `.into()` and hand it to
/// [`client::ClientCodec::encode`].
#[allow(inconsistent_fields)]
#[derive(Debug, Clone)]
pub enum ToServer {
    /// Connection request message
    ///
    /// First frame sent to the server to establish a STOMP session.
    Connect {
        /// Protocol versions the client supports
        accept_version: String,
        /// Virtual host the client wants to connect to
        host: String,
        /// Optional authentication username
        login: Option<String>,
        /// Optional authentication password
        passcode: Option<String>,
        /// Optional heartbeat configuration (cx, cy)
        heartbeat: Option<(u32, u32)>,
    },
    /// Send a message to a destination in the messaging system
    ///
    /// Used to send a message to a specific destination like a queue or topic.
    Send {
        /// Destination to send the message to
        destination: String,
        /// Optional transaction identifier
        transaction: Option<String>,
        /// Optional additional headers to include
        headers: Option<Vec<(String, String)>>,
        /// Optional message body
        body: Option<Vec<u8>>,
    },
    /// Register to listen to a given destination
    ///
    /// Creates a subscription to receive messages from a specific destination.
    Subscribe {
        /// Destination to subscribe to
        destination: String,
        /// Client-generated subscription identifier
        id: String,
        /// Optional acknowledgment mode
        ack: Option<AckMode>,
    },
    /// Remove an existing subscription
    ///
    /// Cancels a subscription so the client stops receiving messages from it.
    Unsubscribe {
        /// Subscription identifier to unsubscribe from
        id: String,
    },
    /// Acknowledge consumption of a message from a subscription
    ///
    /// Used with 'client' or 'client-individual' acknowledgment modes to
    /// confirm successful processing of a message.
    Ack {
        /// The `ack` field of the [`FromServer::Message`] being acknowledged
        ///
        /// Not its `message_id`: that is the STOMP 1.0 and 1.1 rule, and a 1.2
        /// broker answers an ERROR and closes the connection.
        id: String,
        /// Optional transaction identifier
        transaction: Option<String>,
    },
    /// Notify the server that the client did not consume the message
    ///
    /// Used with 'client' or 'client-individual' acknowledgment modes to
    /// indicate that a message could not be processed successfully.
    Nack {
        /// The `ack` field of the [`FromServer::Message`] being rejected
        ///
        /// Not its `message_id`, for the same reason as [`ToServer::Ack`].
        id: String,
        /// Optional transaction identifier
        transaction: Option<String>,
    },
    /// Start a transaction
    ///
    /// Begins a new transaction that can group multiple STOMP operations.
    Begin {
        /// Client-generated transaction identifier
        transaction: String,
    },
    /// Commit an in-progress transaction
    ///
    /// Completes a transaction and applies all its operations.
    Commit {
        /// Transaction identifier to commit
        transaction: String,
    },
    /// Roll back an in-progress transaction
    ///
    /// Cancels a transaction and rolls back all its operations.
    Abort {
        /// Transaction identifier to abort
        transaction: String,
    },
    /// Gracefully disconnect from the server
    ///
    /// Cleanly ends the STOMP session. Clients MUST NOT send any more
    /// frames after the DISCONNECT frame is sent.
    Disconnect {
        /// Optional receipt request
        receipt: Option<String>,
    },
}

/// How messages from a subscription are acknowledged
///
/// Set on [`ToServer::Subscribe`]; leaving it at `None` means [`AckMode::Auto`].
#[derive(Debug, Clone, Copy)]
pub enum AckMode {
    /// Auto acknowledgment (the default if not specified)
    ///
    /// The client does not need to send ACK frames; the server will
    /// assume the client received the message as soon as it is sent.
    Auto,
    /// Client acknowledgment
    ///
    /// The client must send an ACK frame for each message received.
    /// An ACK acknowledges all messages received so far on the connection.
    Client,
    /// Client individual acknowledgment
    ///
    /// The client must send an ACK frame for each individual message.
    /// Only the individual message referenced in the ACK is acknowledged.
    ClientIndividual,
}

/// Wraps a [`ToServer`] in a [`Message`] with no extra headers
impl From<ToServer> for Message<ToServer> {
    fn from(content: ToServer) -> (r: Message<ToServer>)
        ensures
            r.content == content,
            r.extra_headers@ == Seq::<(Vec<u8>, Vec<u8>)>::empty(),
    {
        Message { content, extra_headers: Vec::new() }
    }
}

impl vstd::std_specs::convert::FromSpecImpl<ToServer> for Message<ToServer> {
    open spec fn obeys_from_spec() -> bool {
        false
    }

    open spec fn from_spec(content: ToServer) -> Message<ToServer> {
        arbitrary()
    }
}

/// The text that stands for a body in debug output: its bytes read as UTF-8, or
/// "None".
pub fn pretty_bytes(b: &Option<Vec<u8>>) -> (r: String)
    ensures
        r@ == match *b {
            Some(v) => crate::text::lossy_text(v@),
            None => "None"@,
        },
        *b matches Some(v) ==> vstd::utf8::valid_utf8(v@) ==> r@ == vstd::utf8::decode_utf8(v@),
{
    match b {
        Some(v) => crate::text::lossy(v.as_slice()),
        None => "None".to_owned(),
    }
}

} // verus!
