//! What users get to read: the words of each error, and messages as debug output
//! shows them.

use crate::client::{accept_reply, ClientCodec, Connector};
use crate::error::Error;
use crate::frame::pairs_view;
use crate::grammar::Part;
use crate::heartbeat::Heartbeat;
use crate::model::texts;
use crate::show::{joined, shown_bytes, shown_pair};
use crate::text::{decimal, decimal_text, lossy_text, quoted_text, NumberError};
use crate::{pretty_bytes, FromServer, Message};
use vstd::prelude::*;
use vstd::utf8::*;

verus! {

/// Each error has its own words, around what it is about.
pub proof fn law_errors_in_words(e: &Error, r: String)
    requires
        call_ensures(Error::message, (e,), r),
    ensures
        r@ == (match *e {
            Error::MissingHeader(key) => "Expected header '"@ + key@ + "' missing"@,
            Error::HeaderNameNotUtf8 => "Header name is not valid UTF-8"@,
            Error::HeaderValueNotUtf8(key) => "Value of header '"@ + key@
                + "' is not valid UTF-8"@,
            Error::InvalidAckMode(mode) => "Invalid ack mode: "@ + mode@,
            Error::UnrecognizedFrame(command) => "Frame not recognized: "@ + quoted_text(
                lossy_text(command@),
            ),
            Error::BadHeartbeat => "Bad heartbeat"@,
            Error::BadInterval(NumberError::Empty) => "cannot parse integer from empty string"@,
            Error::BadInterval(NumberError::InvalidDigit) => "invalid digit found in string"@,
            Error::BadInterval(NumberError::TooLarge) => "number too large to fit in target type"@,
            Error::FrameTooLarge(limit) => "Frame exceeds the maximum of "@ + decode_utf8(
                decimal(limit as nat),
            ) + " bytes"@,
            Error::ParseFailed(Part::Header) =>
                "Parse failed: Backtrack(ContextError { context: [Label(\""@ + "Header"@
                + "\")], cause: None })"@,
            Error::ParseFailed(Part::CommandOrHeaders) =>
                "Parse failed: Backtrack(ContextError { context: [Label(\""@ + "Command/Headers"@
                + "\")], cause: None })"@,
            Error::ParseFailed(Part::Terminator) =>
                "Parse failed: Backtrack(ContextError { context: [Label(\""@
                + "NullTermination/LineEnding"@ + "\")], cause: None })"@,
            Error::BufferFull => "The frame does not fit in the buffer"@,
            Error::UnexpectedReply(reply) => "unexpected reply: "@ + reply@,
            Error::WrongVersion(version) => "server negotiated STOMP "@ + version@
                + ", this client speaks 1.2"@,
            Error::NoHostname => "Could not determine server hostname for TLS verification"@,
        }),
{
    reveal_strlit("");
    assert(""@ =~= Seq::<char>::empty());
    match *e {
        Error::InvalidAckMode(mode) => {
            assert(r@ =~= "Invalid ack mode: "@ + mode@);
        },
        Error::UnrecognizedFrame(command) => {
            assert(r@ =~= "Frame not recognized: "@ + quoted_text(lossy_text(command@)));
        },
        Error::UnexpectedReply(reply) => {
            assert(r@ =~= "unexpected reply: "@ + reply@);
        },
        _ => {},
    }
}

/// Items are joined one behind the other, with a comma and a space between two.
pub proof fn law_items_are_joined(items: Seq<Seq<char>>, item: Seq<char>)
    ensures
        joined(Seq::empty()) == Seq::<char>::empty(),
        joined(seq![item]) == item,
        items.len() > 0 ==> joined(items.push(item)) == joined(items) + seq![',', ' '] + item,
{
    reveal_strlit(", ");
    assert(", "@ =~= seq![',', ' ']);
    assert(items.push(item).drop_last() =~= items);
}

/// A message is shown as the name of its variant and its fields in order, with
/// texts in quotes and its body as text.
#[verifier::rlimit(50)]
pub proof fn law_messages_are_shown_by_fields(m: &FromServer, r: String)
    requires
        call_ensures(FromServer::debug_text, (m,), r),
    ensures
        ({
            let option = |value: Option<String>|
                match value {
                    Some(v) => "Some("@ + quoted_text(v@) + ")"@,
                    None => "None"@,
                };
            let text = |body: Option<Vec<u8>>|
                match body {
                    Some(b) => lossy_text(b@),
                    None => "None"@,
                };
            r@ == (match *m {
                FromServer::Connected { version, session, server, heartbeat } =>
                    "Connected { version: "@ + quoted_text(version@) + ", session: "@ + option(
                    session,
                ) + ", server: "@ + option(server) + ", heartbeat: "@ + option(heartbeat) + " }"@,
                FromServer::Message {
                    destination,
                    message_id,
                    subscription,
                    ack,
                    headers,
                    body,
                } => "Message { destination: "@ + quoted_text(destination@) + ", message_id: "@
                    + quoted_text(message_id@) + ", subscription: "@ + quoted_text(subscription@)
                    + ", ack: "@ + option(ack) + ", headers: "@ + ("["@ + joined(
                    headers@.map_values(
                        |h: (String, String)|
                            "("@ + quoted_text(h.0@) + ", "@ + quoted_text(h.1@) + ")"@,
                    ),
                ) + "]"@) + ", body: "@ + text(body) + " }"@,
                FromServer::Receipt { receipt_id } => "Receipt { receipt_id: "@ + quoted_text(
                    receipt_id@,
                ) + " }"@,
                FromServer::Error { message, body } => "Error { message: "@ + option(message)
                    + ", body: "@ + text(body) + " }"@,
            })
        }),
{
    if let FromServer::Message { headers, .. } = *m {
        let shown = headers@.map_values(
            |h: (String, String)| "("@ + quoted_text(h.0@) + ", "@ + quoted_text(h.1@) + ")"@,
        );
        let seen = texts(headers@).map_values(
            |h: (Seq<char>, Seq<char>)|
                shown_pair(quoted_text(h.0), quoted_text(h.1)),
        );
        assert(shown =~= seen);
    }
}

/// Extra headers are shown behind the content, as pairs of lists of numbers.
#[verifier::rlimit(50)]
pub proof fn law_extra_headers_are_shown_as_numbers(
    m: &Message<FromServer>,
    content: String,
    r: String,
)
    requires
        call_ensures(Message::<FromServer>::debug_text, (m,), r),
        call_ensures(FromServer::debug_text, (&m.content,), content),
    ensures
        ({
            let numbers = |bytes: Seq<u8>|
                "["@ + joined(bytes.map_values(|b: u8| decode_utf8(decimal(b as nat)))) + "]"@;
            r@ == "Message { content: "@ + content@ + ", extra_headers: "@ + ("["@ + joined(
                m.extra_headers@.map_values(
                    |h: (Vec<u8>, Vec<u8>)| "("@ + numbers(h.0@) + ", "@ + numbers(h.1@) + ")"@,
                ),
            ) + "]"@) + " }"@
        }),
{
    let numbers = |bytes: Seq<u8>|
        "["@ + joined(bytes.map_values(|b: u8| decode_utf8(decimal(b as nat)))) + "]"@;
    assert forall|bytes: Seq<u8>| #[trigger] shown_bytes(bytes) == numbers(bytes) by {
        assert(bytes.map_values(|b: u8| decode_utf8(decimal(b as nat))) =~= bytes.map_values(
            |b: u8| decimal_text(b as nat),
        ));
    }
    let shown = m.extra_headers@.map_values(
        |h: (Vec<u8>, Vec<u8>)| "("@ + numbers(h.0@) + ", "@ + numbers(h.1@) + ")"@,
    );
    let seen = pairs_view(m.extra_headers@).map_values(
        |h: (Seq<u8>, Seq<u8>)| shown_pair(shown_bytes(h.0), shown_bytes(h.1)),
    );
    assert(shown =~= seen);
}

/// A body is shown as the text that it encodes, and no body as "None".
pub proof fn law_bodies_are_shown_as_text(b: &Option<Vec<u8>>, r: String)
    requires
        call_ensures(pretty_bytes, (b,), r),
    ensures
        *b matches Some(bytes) ==> valid_utf8(bytes@) ==> r@ == decode_utf8(bytes@),
        *b is None ==> r@ == "None"@,
{
}

/// A reply that is not what was waited for is shown whole in the error.
pub proof fn law_unexpected_reply_is_shown(
    message: Message<FromServer>,
    requested: Option<(u32, u32)>,
    automatic: bool,
    shown: String,
    r: Result<Heartbeat, Error>,
    none: Result<Heartbeat, Error>,
)
    requires
        !(message.content is Connected),
        call_ensures(accept_reply, (&Some(message), requested, automatic), r),
        call_ensures(accept_reply, (&None, requested, automatic), none),
        call_ensures(Message::<FromServer>::debug_text, (&message,), shown),
    ensures
        r matches Err(Error::UnexpectedReply(text)) && text@ == "Some("@ + shown@ + ")"@,
        none matches Err(Error::UnexpectedReply(text)) && text@ == "None"@,
{
}

/// A codec is bounded by what was asked for, and by 100 MiB otherwise: all that
/// are made for the same bound are the same.
pub proof fn law_codec_has_the_configured_bound<S, V>(
    c: &Connector<S, V>,
    codec: ClientCodec,
    bounded: ClientCodec,
    plain: ClientCodec,
    default: ClientCodec,
    usual: ClientCodec,
)
    requires
        call_ensures(Connector::<S, V>::codec, (c,), codec),
        call_ensures(ClientCodec::with_max_frame_size, (c.max_frame_size,), bounded),
        call_ensures(ClientCodec::new, (), plain),
        call_ensures(<ClientCodec as Default>::default, (), default),
        call_ensures(ClientCodec::with_max_frame_size, (104857600usize,), usual),
    ensures
        codec.bound() == bounded.bound(),
        plain.bound() == usual.bound(),
        default.bound() == usual.bound(),
        bounded.bound() == c.max_frame_size,
{
}

} // verus!
