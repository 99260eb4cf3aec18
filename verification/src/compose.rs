//! Frames from messages.

use crate::convert::{command_name, ClientCommand};
use crate::escape::NUL;
use crate::frame::{
    cow_view, has_header, present, tuple_view, tuples_view, Frame, FrameView, HeaderTuple,
};
use crate::heartbeat::{format_heartbeat, heartbeat_bytes};
use crate::model::{opt_bytes, opt_text, opt_texts, texts, MessageView, ToServerView};
use crate::text::{bytes_equal, decimal, to_decimal};
use crate::{AckMode, Message, ToServer};
use std::borrow::Cow;
use vstd::prelude::*;
use vstd::utf8::*;

verus! {

/// The command of a message.
pub open spec fn command_of(m: ToServerView) -> ClientCommand {
    match m {
        ToServerView::Connect { .. } => ClientCommand::Connect,
        ToServerView::Send { .. } => ClientCommand::Send,
        ToServerView::Subscribe { .. } => ClientCommand::Subscribe,
        ToServerView::Unsubscribe { .. } => ClientCommand::Unsubscribe,
        ToServerView::Ack { .. } => ClientCommand::Ack,
        ToServerView::Nack { .. } => ClientCommand::Nack,
        ToServerView::Begin { .. } => ClientCommand::Begin,
        ToServerView::Commit { .. } => ClientCommand::Commit,
        ToServerView::Abort { .. } => ClientCommand::Abort,
        ToServerView::Disconnect { .. } => ClientCommand::Disconnect,
    }
}

/// The header `key` with these bytes, none if there are none.
pub open spec fn header_of(key: Seq<char>, value: Option<Seq<u8>>) -> Seq<(Seq<u8>, Seq<u8>)> {
    match value {
        Some(v) => seq![(encode_utf8(key), v)],
        None => Seq::empty(),
    }
}

/// The bytes of an optional text.
pub open spec fn encoded_text(value: Option<Seq<char>>) -> Option<Seq<u8>> {
    match value {
        Some(v) => Some(encode_utf8(v)),
        None => None,
    }
}

/// The header `key` with this text, none if there is none.
pub open spec fn text_header(key: Seq<char>, value: Option<Seq<char>>) -> Seq<(Seq<u8>, Seq<u8>)> {
    header_of(key, encoded_text(value))
}

/// The bytes of headers that are given as text.
pub open spec fn encoded_texts(hs: Seq<(Seq<char>, Seq<char>)>) -> Seq<(Seq<u8>, Seq<u8>)> {
    hs.map_values(|h: (Seq<char>, Seq<char>)| (encode_utf8(h.0), encode_utf8(h.1)))
}

/// The name of an acknowledgment mode.
pub open spec fn ack_mode_name(mode: AckMode) -> Seq<char> {
    match mode {
        AckMode::Auto => "auto"@,
        AckMode::Client => "client"@,
        AckMode::ClientIndividual => "client-individual"@,
    }
}

/// The headers of a SEND frame that its message asks for.
pub open spec fn requested_headers(
    destination: Seq<char>,
    transaction: Option<Seq<char>>,
    headers: Option<Seq<(Seq<char>, Seq<char>)>>,
) -> Seq<(Seq<u8>, Seq<u8>)> {
    text_header("destination"@, Some(destination)) + text_header("transaction"@, transaction) + (
    match headers {
        Some(hs) => encoded_texts(hs),
        None => Seq::empty(),
    })
}

/// Whether a body can only be read back if its length is known, which the
/// headers do not tell.
pub open spec fn needs_length(hs: Seq<(Seq<u8>, Seq<u8>)>, body: Option<Seq<u8>>) -> bool {
    body matches Some(b) && b.contains(NUL) && !has_header(hs, encode_utf8("content-length"@))
}

/// The headers of a SEND frame: those that its message asks for, and the length
/// of the body where that is needed.
pub open spec fn send_headers(
    destination: Seq<char>,
    transaction: Option<Seq<char>>,
    headers: Option<Seq<(Seq<char>, Seq<char>)>>,
    body: Option<Seq<u8>>,
) -> Seq<(Seq<u8>, Seq<u8>)> {
    let hs = requested_headers(destination, transaction, headers);
    if needs_length(hs, body) {
        hs + header_of("content-length"@, Some(decimal(body->0.len())))
    } else {
        hs
    }
}

/// The headers of a message, in order.
pub open spec fn headers_of(m: ToServerView) -> Seq<(Seq<u8>, Seq<u8>)> {
    match m {
        ToServerView::Connect { accept_version, host, login, passcode, heartbeat } => text_header(
            "accept-version"@,
            Some(accept_version),
        ) + text_header("host"@, Some(host)) + text_header("login"@, login) + header_of(
            "heart-beat"@,
            match heartbeat {
                Some(intervals) => Some(heartbeat_bytes(intervals)),
                None => None,
            },
        ) + text_header("passcode"@, passcode),
        ToServerView::Send { destination, transaction, headers, body } => send_headers(
            destination,
            transaction,
            headers,
            body,
        ),
        ToServerView::Subscribe { destination, id, ack } => text_header(
            "destination"@,
            Some(destination),
        ) + text_header("id"@, Some(id)) + text_header(
            "ack"@,
            match ack {
                Some(mode) => Some(ack_mode_name(mode)),
                None => None,
            },
        ),
        ToServerView::Unsubscribe { id } => text_header("id"@, Some(id)),
        ToServerView::Ack { id, transaction } => text_header("id"@, Some(id)) + text_header(
            "transaction"@,
            transaction,
        ),
        ToServerView::Nack { id, transaction } => text_header("id"@, Some(id)) + text_header(
            "transaction"@,
            transaction,
        ),
        ToServerView::Begin { transaction } => text_header("transaction"@, Some(transaction)),
        ToServerView::Commit { transaction } => text_header("transaction"@, Some(transaction)),
        ToServerView::Abort { transaction } => text_header("transaction"@, Some(transaction)),
        ToServerView::Disconnect { receipt } => text_header("receipt"@, receipt),
    }
}

/// The body of a message: only SEND has one.
pub open spec fn body_of(m: ToServerView) -> Option<Seq<u8>> {
    match m {
        ToServerView::Send { body, .. } => body,
        _ => None,
    }
}

/// The frame of a message without extra headers.
pub open spec fn content_frame(m: ToServerView) -> FrameView {
    FrameView {
        command: encode_utf8(command_name(command_of(m))),
        headers: headers_of(m),
        body: body_of(m),
    }
}

/// The frame of a message: extra headers follow those of the content, but for
/// names that the content has a header for.
pub open spec fn message_frame(m: MessageView<ToServerView>) -> FrameView {
    let frame = content_frame(m.content);
    FrameView {
        headers: frame.headers + crate::frame::not_in(m.extra_headers, frame.headers),
        ..frame
    }
}

/// One more header.
proof fn lemma_present_push(
    hs: Seq<(Seq<u8>, Option<Seq<u8>>)>,
    key: Seq<char>,
    value: Option<Seq<u8>>,
)
    ensures
        present(hs.push((encode_utf8(key), value))) == present(hs) + header_of(key, value),
{
    let all = hs.push((encode_utf8(key), value));
    assert(all.drop_last() =~= hs);
    assert(present(all) =~= present(hs) + header_of(key, value));
}

/// Convert an Option<String> to Option<Cow<[u8]>>
///
/// This helper function is used when creating frames to convert String
/// header values to the binary format needed by the Frame struct.
pub fn opt_str_to_bytes<'a>(s: &'a Option<String>) -> (r: Option<Cow<'a, [u8]>>)
    ensures
        cow_view(r) == encoded_text(opt_text(*s)),
{
    match s {
        Some(v) => Some(Cow::Borrowed(v.as_str().as_bytes())),
        None => None,
    }
}

/// The bytes of a text
fn borrowed<'a>(s: &'a String) -> (r: Option<Cow<'a, [u8]>>)
    ensures
        cow_view(r) == encoded_text(Some(s@)),
{
    Some(Cow::Borrowed(s.as_str().as_bytes()))
}

/// Puts a header behind those that are there.
fn push_header<'a>(
    headers: &mut Vec<HeaderTuple<'a>>,
    key: &'a str,
    value: Option<Cow<'a, [u8]>>,
)
    ensures
        present(tuples_view(final(headers)@)) == present(tuples_view(old(headers)@)) + header_of(
            key@,
            cow_view(value),
        ),
        tuples_view(final(headers)@) == tuples_view(old(headers)@).push(
            (encode_utf8(key@), cow_view(value)),
        ),
{
    let ghost before = headers@;
    let ghost bytes = cow_view(value);
    headers.push((key.as_bytes(), value));
    proof {
        assert(tuples_view(headers@) =~= tuples_view(before).push((encode_utf8(key@), bytes)));
        lemma_present_push(tuples_view(before), key@, bytes);
    }
}

/// Whether there is a header `key` with a value.
fn sets_header(headers: &Vec<HeaderTuple<'_>>, key: &str) -> (r: bool)
    ensures
        r == has_header(present(tuples_view(headers@)), encode_utf8(key@)),
{
    let ghost hs = tuples_view(headers@);
    let ghost name = encode_utf8(key@);
    let mut found = false;
    let mut i: usize = 0;
    assert(hs.take(0) =~= Seq::<(Seq<u8>, Option<Seq<u8>>)>::empty());
    while i < headers.len()
        invariant
            i <= headers@.len(),
            hs == tuples_view(headers@),
            name == encode_utf8(key@),
            found == has_header(present(hs.take(i as int)), name),
        decreases headers@.len() - i,
    {
        let ghost kept = present(hs.take(i as int));
        let ghost next = present(hs.take(i + 1));
        let header = &headers[i];
        assert(hs[i as int] == tuple_view(*header));
        assert(hs.take(i + 1).drop_last() =~= hs.take(i as int));
        if header.1.is_some() {
            let same = bytes_equal(header.0, key.as_bytes());
            proof {
                assert(next == kept.push((header.0@, hs[i as int].1->0)));
                if same {
                    assert(next[kept.len() as int].0 == name);
                }
                if found {
                    let j = choose|j: int| 0 <= j < kept.len() && (#[trigger] kept[j]).0 == name;
                    assert(next[j] == kept[j]);
                }
                if has_header(next, name) && !same {
                    let j = choose|j: int| 0 <= j < next.len() && (#[trigger] next[j]).0 == name;
                    assert(kept[j] == next[j]);
                }
            }
            found = found || same;
        }
        i += 1;
    }
    assert(hs.take(i as int) =~= hs);
    found
}

/// Whether bytes hold a null byte.
fn contains_nul(bytes: &Vec<u8>) -> (r: bool)
    ensures
        r == bytes@.contains(NUL),
{
    let mut i: usize = 0;
    while i < bytes.len()
        invariant
            i <= bytes@.len(),
            forall|j: int| 0 <= j < i ==> bytes@[j] != NUL,
        decreases bytes@.len() - i,
    {
        if bytes[i] == NUL {
            return true;
        }
        i += 1;
    }
    false
}

/// The frame of a CONNECT message
fn connect_frame<'a>(
    accept_version: &'a String,
    host: &'a String,
    login: &'a Option<String>,
    passcode: &'a Option<String>,
    heartbeat: &Option<(u32, u32)>,
) -> (r: Frame<'a>)
    ensures
        r@ == content_frame(
            ToServerView::Connect {
                accept_version: accept_version@,
                host: host@,
                login: opt_text(*login),
                passcode: opt_text(*passcode),
                heartbeat: *heartbeat,
            },
        ),
{
    let mut headers: Vec<HeaderTuple<'a>> = Vec::new();
    assert(tuples_view(headers@) =~= Seq::<(Seq<u8>, Option<Seq<u8>>)>::empty());
    push_header(
        &mut headers,
        "accept-version",
        borrowed(accept_version),
    );
    push_header(&mut headers, "host", borrowed(host));
    push_header(&mut headers, "login", opt_str_to_bytes(login));
    let intervals: Option<Cow<'a, [u8]>> = match heartbeat {
        Some(intervals) => Some(Cow::Owned(format_heartbeat(*intervals))),
        None => None,
    };
    push_header(&mut headers, "heart-beat", intervals);
    push_header(&mut headers, "passcode", opt_str_to_bytes(passcode));
    let frame = Frame::new("CONNECT".as_bytes(), headers.as_slice(), None);
    assert(frame@.headers =~= headers_of(
        ToServerView::Connect {
            accept_version: accept_version@,
            host: host@,
            login: opt_text(*login),
            passcode: opt_text(*passcode),
            heartbeat: *heartbeat,
        },
    ));
    frame
}

/// The frame of a SUBSCRIBE message
fn subscribe_frame<'a>(destination: &'a String, id: &'a String, ack: &Option<AckMode>) -> (r: Frame<
    'a,
>)
    ensures
        r@ == content_frame(
            ToServerView::Subscribe { destination: destination@, id: id@, ack: *ack },
        ),
{
    let mut headers: Vec<HeaderTuple<'a>> = Vec::new();
    assert(tuples_view(headers@) =~= Seq::<(Seq<u8>, Option<Seq<u8>>)>::empty());
    push_header(&mut headers, "destination", borrowed(destination));
    push_header(&mut headers, "id", borrowed(id));
    let mode: Option<Cow<'a, [u8]>> = match ack {
        Some(AckMode::Auto) => Some(Cow::Borrowed("auto".as_bytes())),
        Some(AckMode::Client) => Some(Cow::Borrowed("client".as_bytes())),
        Some(AckMode::ClientIndividual) => Some(Cow::Borrowed("client-individual".as_bytes())),
        None => None,
    };
    push_header(&mut headers, "ack", mode);
    let frame = Frame::new("SUBSCRIBE".as_bytes(), headers.as_slice(), None);
    assert(frame@.headers =~= headers_of(
        ToServerView::Subscribe { destination: destination@, id: id@, ack: *ack },
    ));
    frame
}

/// The frame of a SEND message
fn send_frame<'a>(
    destination: &'a String,
    transaction: &'a Option<String>,
    headers: &'a Option<Vec<(String, String)>>,
    body: &'a Option<Vec<u8>>,
) -> (r: Frame<'a>)
    ensures
        r@ == content_frame(
            ToServerView::Send {
                destination: destination@,
                transaction: opt_text(*transaction),
                headers: opt_texts(*headers),
                body: opt_bytes(*body),
            },
        ),
{
    // Create the base headers for the SEND frame
    let mut hdr: Vec<HeaderTuple<'a>> = Vec::new();
    assert(tuples_view(hdr@) =~= Seq::<(Seq<u8>, Option<Seq<u8>>)>::empty());
    push_header(&mut hdr, "destination", borrowed(destination));
    push_header(&mut hdr, "transaction", opt_str_to_bytes(transaction));
    let ghost base = text_header("destination"@, Some(destination@)) + text_header(
        "transaction"@,
        opt_text(*transaction),
    );
    assert(present(tuples_view(hdr@)) =~= base);

    // Add any custom headers
    if let Some(custom) = headers {
        let ghost all = encoded_texts(texts(custom@));
        let mut i: usize = 0;
        assert(base + all.take(0) =~= base);
        while i < custom.len()
            invariant
                i <= custom@.len(),
                all == encoded_texts(texts(custom@)),
                present(tuples_view(hdr@)) == base + all.take(i as int),
            decreases custom@.len() - i,
        {
            let header = &custom[i];
            push_header(
                &mut hdr,
                header.0.as_str(),
                borrowed(&header.1),
            );
            assert(all[i as int] == (encode_utf8(header.0@), encode_utf8(header.1@)));
            assert(base + all.take(i + 1) =~= (base + all.take(i as int)) + seq![all[i as int]]);
            i += 1;
        }
        assert(all.take(i as int) =~= all);
    }
    let ghost requested = requested_headers(
        destination@,
        opt_text(*transaction),
        opt_texts(*headers),
    );
    assert(present(tuples_view(hdr@)) =~= requested);

    // A body holding NULL octets can only be read back if the frame says how
    // long it is, so content-length is required there. It stays off otherwise,
    // where it is merely recommended: brokers such as ActiveMQ read its
    // presence as "this payload is binary" and map the message differently.
    if let Some(bytes) = body {
        if contains_nul(bytes) && !sets_header(&hdr, "content-length") {
            push_header(
                &mut hdr,
                "content-length",
                Some(Cow::Owned(to_decimal(bytes.len() as u64))),
            );
        }
    }
    let slice: Option<&'a [u8]> = match body {
        Some(bytes) => Some(bytes.as_slice()),
        None => None,
    };
    let frame = Frame::new("SEND".as_bytes(), hdr.as_slice(), slice);
    assert(frame@.headers =~= send_headers(
        destination@,
        opt_text(*transaction),
        opt_texts(*headers),
        opt_bytes(*body),
    ));
    frame
}

/// A frame without a body that has one header, if that has a value
fn short_frame<'a>(command: &'a str, key: &'a str, value: Option<Cow<'a, [u8]>>) -> (r: Frame<'a>)
    ensures
        r@ == (FrameView {
            command: encode_utf8(command@),
            headers: header_of(key@, cow_view(value)),
            body: None,
        }),
{
    let mut headers: Vec<HeaderTuple<'a>> = Vec::new();
    assert(tuples_view(headers@) =~= Seq::<(Seq<u8>, Option<Seq<u8>>)>::empty());
    let ghost bytes = cow_view(value);
    push_header(&mut headers, key, value);
    let frame = Frame::new(command.as_bytes(), headers.as_slice(), None);
    assert(frame@.headers =~= header_of(key@, bytes));
    frame
}

/// The frame that acknowledges a message, or rejects it
fn ack_frame<'a>(command: &'a str, id: &'a String, transaction: &'a Option<String>) -> (r: Frame<
    'a,
>)
    ensures
        r@ == (FrameView {
            command: encode_utf8(command@),
            headers: text_header("id"@, Some(id@)) + text_header(
                "transaction"@,
                opt_text(*transaction),
            ),
            body: None,
        }),
{
    let mut headers: Vec<HeaderTuple<'a>> = Vec::new();
    assert(tuples_view(headers@) =~= Seq::<(Seq<u8>, Option<Seq<u8>>)>::empty());
    push_header(&mut headers, "id", borrowed(id));
    push_header(&mut headers, "transaction", opt_str_to_bytes(transaction));
    let frame = Frame::new(command.as_bytes(), headers.as_slice(), None);
    assert(frame@.headers =~= text_header("id"@, Some(id@)) + text_header(
        "transaction"@,
        opt_text(*transaction),
    ));
    frame
}

impl ToServer {
    /// Convert this ToServer enum to a Frame
    ///
    /// This method creates a Frame representation of the message
    /// that can be serialized and sent over the wire.
    pub fn to_frame<'a>(&'a self) -> (r: Frame<'a>)
        ensures
            r@ == content_frame(self@),
    {
        match self {
            ToServer::Connect { accept_version, host, login, passcode, heartbeat } => connect_frame(
                accept_version,
                host,
                login,
                passcode,
                heartbeat,
            ),
            ToServer::Disconnect { receipt } => short_frame(
                "DISCONNECT",
                "receipt",
                opt_str_to_bytes(receipt),
            ),
            ToServer::Subscribe { destination, id, ack } => subscribe_frame(destination, id, ack),
            ToServer::Unsubscribe { id } => short_frame("UNSUBSCRIBE", "id", borrowed(id)),
            ToServer::Send { destination, transaction, headers, body } => send_frame(
                destination,
                transaction,
                headers,
                body,
            ),
            ToServer::Ack { id, transaction } => ack_frame("ACK", id, transaction),
            ToServer::Nack { id, transaction } => ack_frame("NACK", id, transaction),
            ToServer::Begin { transaction } => short_frame(
                "BEGIN",
                "transaction",
                borrowed(transaction),
            ),
            ToServer::Commit { transaction } => short_frame(
                "COMMIT",
                "transaction",
                borrowed(transaction),
            ),
            ToServer::Abort { transaction } => short_frame(
                "ABORT",
                "transaction",
                borrowed(transaction),
            ),
        }
    }
}

impl Message<ToServer> {
    /// Convert this message to a low-level Frame
    ///
    /// Any extra headers follow those of the content, unless the content has a
    /// header of that name.
    pub fn to_frame<'a>(&'a self) -> (r: Frame<'a>)
        ensures
            r@ == message_frame(self@),
    {
        // Create a frame from the message content
        let mut frame = self.content.to_frame();
        // Add any extra headers to the frame
        frame.add_extra_headers(self.extra_headers.as_slice());
        frame
    }
}

} // verus!
