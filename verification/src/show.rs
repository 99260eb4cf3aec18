//! Messages from the server as text, for logs and errors: their debug output,
//! with bodies as text, and that output as a string.

use crate::frame::pairs_view;
use crate::model::{opt_text, texts, FromServerView, MessageView};
use crate::text::{decimal_text, lossy_text, quoted, quoted_text, to_decimal_text};
use crate::{pretty_bytes, FromServer, Message};
use std::fmt::{DebugStruct, Formatter};
use vstd::prelude::*;

verus! {

/// `std::fmt::Formatter`, which takes debug output.
#[verifier::external_type_specification]
#[verifier::external_body]
pub struct ExFormatter<'a>(std::fmt::Formatter<'a>);

/// The error of a formatter whose writer failed.
#[verifier::external_type_specification]
#[verifier::external_body]
pub struct ExFmtError(std::fmt::Error);

/// `std::fmt::DebugStruct`, which lays out the fields of a struct.
#[verifier::external_type_specification]
#[verifier::external_body]
pub struct ExDebugStruct<'a, 'b: 'a>(std::fmt::DebugStruct<'a, 'b>);

/// `Formatter::write_str`: writes `text` as it is. What the writer behind the
/// formatter does with it is not said.
#[verifier::external_body]
fn write_str(f: &mut Formatter<'_>, text: &str) -> (r: Result<(), std::fmt::Error>) {
    f.write_str(text)
}

/// `Formatter::debug_struct`: starts the output of a struct `name`.
#[verifier::external_body]
fn debug_struct<'a, 'b>(f: &'a mut Formatter<'b>, name: &str) -> (r: DebugStruct<'a, 'b>) {
    f.debug_struct(name)
}

/// `DebugStruct::finish`: ends the output of a struct.
#[verifier::external_body]
fn finish(builder: &mut DebugStruct<'_, '_>) -> (r: Result<(), std::fmt::Error>) {
    builder.finish()
}

/// `DebugStruct::field`: writes a field by the `Debug` of its value.
#[verifier::external_body]
fn field<F: std::fmt::Debug>(builder: &mut DebugStruct<'_, '_>, name: &str, value: &F) {
    builder.field(name, value);
}

/// A body, shown as text.
struct Body<'a>(&'a Option<Vec<u8>>);

impl<'a> std::fmt::Debug for Body<'a> {
    fn fmt(&self, f: &mut Formatter<'_>) -> (r: Result<(), std::fmt::Error>) {
        let text = pretty_bytes(self.0);
        write_str(f, text.as_str())
    }
}

/// Each field by its name, with bodies as text. [`FromServer::debug_text`] is what
/// `{:?}` writes; that a formatter lays out what it is handed in that way is not
/// said here.
impl std::fmt::Debug for FromServer {
    fn fmt(&self, f: &mut Formatter<'_>) -> (r: Result<(), std::fmt::Error>) {
        match self {
            FromServer::Connected { version, session, server, heartbeat } => {
                let mut builder = debug_struct(f, "Connected");
                field(&mut builder, "version", version);
                field(&mut builder, "session", session);
                field(&mut builder, "server", server);
                field(&mut builder, "heartbeat", heartbeat);
                finish(&mut builder)
            },
            FromServer::Message { destination, message_id, subscription, ack, headers, body } => {
                let mut builder = debug_struct(f, "Message");
                field(&mut builder, "destination", destination);
                field(&mut builder, "message_id", message_id);
                field(&mut builder, "subscription", subscription);
                field(&mut builder, "ack", ack);
                field(&mut builder, "headers", headers);
                field(&mut builder, "body", &Body(body));
                finish(&mut builder)
            },
            FromServer::Receipt { receipt_id } => {
                let mut builder = debug_struct(f, "Receipt");
                field(&mut builder, "receipt_id", receipt_id);
                finish(&mut builder)
            },
            FromServer::Error { message, body } => {
                let mut builder = debug_struct(f, "Error");
                field(&mut builder, "message", message);
                field(&mut builder, "body", &Body(body));
                finish(&mut builder)
            },
        }
    }
}

/// Items with commas between them.
pub open spec fn joined(items: Seq<Seq<char>>) -> Seq<char>
    decreases items.len(),
{
    if items.len() == 0 {
        Seq::empty()
    } else if items.len() == 1 {
        items[0]
    } else {
        joined(items.drop_last()) + ", "@ + items.last()
    }
}

/// Items in square brackets.
pub open spec fn shown_list(items: Seq<Seq<char>>) -> Seq<char> {
    "["@ + joined(items) + "]"@
}

/// Two items in round brackets.
pub open spec fn shown_pair(first: Seq<char>, second: Seq<char>) -> Seq<char> {
    "("@ + first + ", "@ + second + ")"@
}

/// An optional text, in quotes.
pub open spec fn shown_option(value: Option<Seq<char>>) -> Seq<char> {
    match value {
        Some(v) => "Some("@ + quoted_text(v) + ")"@,
        None => "None"@,
    }
}

/// Bytes as a list of numbers.
pub open spec fn shown_bytes(bytes: Seq<u8>) -> Seq<char> {
    shown_list(bytes.map_values(|b: u8| decimal_text(b as nat)))
}

/// Headers as a list of pairs of texts.
pub open spec fn shown_texts(hs: Seq<(Seq<char>, Seq<char>)>) -> Seq<char> {
    shown_list(
        hs.map_values(
            |h: (Seq<char>, Seq<char>)| shown_pair(quoted_text(h.0), quoted_text(h.1)),
        ),
    )
}

/// Headers as a list of pairs of lists of numbers.
pub open spec fn shown_headers(hs: Seq<(Seq<u8>, Seq<u8>)>) -> Seq<char> {
    shown_list(
        hs.map_values(|h: (Seq<u8>, Seq<u8>)| shown_pair(shown_bytes(h.0), shown_bytes(h.1))),
    )
}

/// A body as text.
pub open spec fn shown_body(body: Option<Seq<u8>>) -> Seq<char> {
    match body {
        Some(b) => lossy_text(b),
        None => "None"@,
    }
}

/// What a message says, field by field.
pub open spec fn shown_content(m: FromServerView) -> Seq<char> {
    match m {
        FromServerView::Connected { version, session, server, heartbeat } =>
            "Connected { version: "@ + quoted_text(version) + ", session: "@ + shown_option(session)
            + ", server: "@ + shown_option(server) + ", heartbeat: "@ + shown_option(heartbeat)
            + " }"@,
        FromServerView::Message { destination, message_id, subscription, ack, headers, body } =>
            "Message { destination: "@ + quoted_text(destination) + ", message_id: "@ + quoted_text(
            message_id,
        ) + ", subscription: "@ + quoted_text(subscription) + ", ack: "@ + shown_option(ack)
            + ", headers: "@ + shown_texts(headers) + ", body: "@ + shown_body(body) + " }"@,
        FromServerView::Receipt { receipt_id } => "Receipt { receipt_id: "@ + quoted_text(
            receipt_id,
        ) + " }"@,
        FromServerView::Error { message, body } => "Error { message: "@ + shown_option(message)
            + ", body: "@ + shown_body(body) + " }"@,
    }
}

/// A message and its extra headers.
pub open spec fn shown_message(m: MessageView<FromServerView>) -> Seq<char> {
    "Message { content: "@ + shown_content(m.content) + ", extra_headers: "@ + shown_headers(
        m.extra_headers,
    ) + " }"@
}

/// The answer of a server, if there is one.
pub open spec fn shown_reply(reply: Option<MessageView<FromServerView>>) -> Seq<char> {
    match reply {
        Some(m) => "Some("@ + shown_message(m) + ")"@,
        None => "None"@,
    }
}

/// Puts an item behind those that are there.
fn push_item(items: &mut String, count: usize, item: &str, Ghost(before): Ghost<Seq<Seq<char>>>)
    requires
        count == before.len(),
        old(items)@ == joined(before),
    ensures
        final(items)@ == joined(before.push(item@)),
{
    if count > 0 {
        items.append(", ");
    }
    items.append(item);
    assert(before.push(item@).drop_last() =~= before);
    assert(items@ =~= joined(before.push(item@)));
}

/// Items in square brackets.
fn bracketed(items: &str) -> (r: String)
    ensures
        r@ == "["@ + items@ + "]"@,
{
    let mut text = "[".to_owned();
    text.append(items);
    text.append("]");
    text
}

/// Two items in round brackets.
fn show_pair(first: &str, second: &str) -> (r: String)
    ensures
        r@ == shown_pair(first@, second@),
{
    let mut text = "(".to_owned();
    text.append(first);
    text.append(", ");
    text.append(second);
    text.append(")");
    text
}

/// An optional text, in quotes.
fn show_option(value: &Option<String>) -> (r: String)
    ensures
        r@ == shown_option(opt_text(*value)),
{
    match value {
        Some(v) => {
            let mut text = "Some(".to_owned();
            text.append(quoted(v.as_str()).as_str());
            text.append(")");
            text
        },
        None => "None".to_owned(),
    }
}

/// Bytes as a list of numbers.
fn show_bytes(bytes: &Vec<u8>) -> (r: String)
    ensures
        r@ == shown_bytes(bytes@),
{
    let ghost all = bytes@.map_values(|b: u8| decimal_text(b as nat));
    let mut items = String::new();
    let mut i: usize = 0;
    assert(items@ =~= joined(all.take(0)));
    while i < bytes.len()
        invariant
            i <= bytes@.len(),
            all == bytes@.map_values(|b: u8| decimal_text(b as nat)),
            items@ == joined(all.take(i as int)),
        decreases bytes@.len() - i,
    {
        let item = to_decimal_text(bytes[i] as u64);
        push_item(&mut items, i, item.as_str(), Ghost(all.take(i as int)));
        assert(all.take(i + 1) =~= all.take(i as int).push(item@));
        i += 1;
    }
    assert(all.take(i as int) =~= all);
    bracketed(items.as_str())
}

/// Headers as a list of pairs of texts.
fn show_texts(hs: &Vec<(String, String)>) -> (r: String)
    ensures
        r@ == shown_texts(texts(hs@)),
{
    let ghost all = texts(hs@).map_values(
        |h: (Seq<char>, Seq<char>)| shown_pair(quoted_text(h.0), quoted_text(h.1)),
    );
    let mut items = String::new();
    let mut i: usize = 0;
    assert(items@ =~= joined(all.take(0)));
    while i < hs.len()
        invariant
            i <= hs@.len(),
            all == texts(hs@).map_values(
                |h: (Seq<char>, Seq<char>)| shown_pair(quoted_text(h.0), quoted_text(h.1)),
            ),
            items@ == joined(all.take(i as int)),
        decreases hs@.len() - i,
    {
        let h = &hs[i];
        let item = show_pair(quoted(h.0.as_str()).as_str(), quoted(h.1.as_str()).as_str());
        push_item(&mut items, i, item.as_str(), Ghost(all.take(i as int)));
        assert(all[i as int] == item@);
        assert(all.take(i + 1) =~= all.take(i as int).push(item@));
        i += 1;
    }
    assert(all.take(i as int) =~= all);
    bracketed(items.as_str())
}

/// Headers as a list of pairs of lists of numbers.
fn show_headers(hs: &Vec<(Vec<u8>, Vec<u8>)>) -> (r: String)
    ensures
        r@ == shown_headers(pairs_view(hs@)),
{
    let ghost all = pairs_view(hs@).map_values(
        |h: (Seq<u8>, Seq<u8>)| shown_pair(shown_bytes(h.0), shown_bytes(h.1)),
    );
    let mut items = String::new();
    let mut i: usize = 0;
    assert(items@ =~= joined(all.take(0)));
    while i < hs.len()
        invariant
            i <= hs@.len(),
            all == pairs_view(hs@).map_values(
                |h: (Seq<u8>, Seq<u8>)| shown_pair(shown_bytes(h.0), shown_bytes(h.1)),
            ),
            items@ == joined(all.take(i as int)),
        decreases hs@.len() - i,
    {
        let h = &hs[i];
        let item = show_pair(show_bytes(&h.0).as_str(), show_bytes(&h.1).as_str());
        push_item(&mut items, i, item.as_str(), Ghost(all.take(i as int)));
        assert(all[i as int] == item@);
        assert(all.take(i + 1) =~= all.take(i as int).push(item@));
        i += 1;
    }
    assert(all.take(i as int) =~= all);
    bracketed(items.as_str())
}

impl FromServer {
    /// This message as debug output shows it, with its body as text
    pub fn debug_text(&self) -> (r: String)
        ensures
            r@ == shown_content(self@),
    {
        match self {
            FromServer::Connected { version, session, server, heartbeat } => {
                let mut text = "Connected { version: ".to_owned();
                text.append(quoted(version.as_str()).as_str());
                text.append(", session: ");
                text.append(show_option(session).as_str());
                text.append(", server: ");
                text.append(show_option(server).as_str());
                text.append(", heartbeat: ");
                text.append(show_option(heartbeat).as_str());
                text.append(" }");
                text
            },
            FromServer::Message { destination, message_id, subscription, ack, headers, body } => {
                let mut text = "Message { destination: ".to_owned();
                text.append(quoted(destination.as_str()).as_str());
                text.append(", message_id: ");
                text.append(quoted(message_id.as_str()).as_str());
                text.append(", subscription: ");
                text.append(quoted(subscription.as_str()).as_str());
                text.append(", ack: ");
                text.append(show_option(ack).as_str());
                text.append(", headers: ");
                text.append(show_texts(headers).as_str());
                text.append(", body: ");
                text.append(pretty_bytes(body).as_str());
                text.append(" }");
                text
            },
            FromServer::Receipt { receipt_id } => {
                let mut text = "Receipt { receipt_id: ".to_owned();
                text.append(quoted(receipt_id.as_str()).as_str());
                text.append(" }");
                text
            },
            FromServer::Error { message, body } => {
                let mut text = "Error { message: ".to_owned();
                text.append(show_option(message).as_str());
                text.append(", body: ");
                text.append(pretty_bytes(body).as_str());
                text.append(" }");
                text
            },
        }
    }
}

impl Message<FromServer> {
    /// This message as debug output shows it, with its body as text
    pub fn debug_text(&self) -> (r: String)
        ensures
            r@ == shown_message(self@),
    {
        let mut text = "Message { content: ".to_owned();
        text.append(self.content.debug_text().as_str());
        text.append(", extra_headers: ");
        text.append(show_headers(&self.extra_headers).as_str());
        text.append(" }");
        text
    }
}

/// The answer of a server, if there is one.
pub open spec fn reply_view(reply: Option<Message<FromServer>>) -> Option<
    MessageView<FromServerView>,
> {
    match reply {
        Some(message) => Some(message@),
        None => None,
    }
}

/// The answer of a server as debug output shows it.
pub(crate) fn show_reply(reply: &Option<Message<FromServer>>) -> (r: String)
    ensures
        r@ == shown_reply(reply_view(*reply)),
{
    match reply {
        Some(message) => {
            let mut text = "Some(".to_owned();
            text.append(message.debug_text().as_str());
            text.append(")");
            text
        },
        None => "None".to_owned(),
    }
}

} // verus!
