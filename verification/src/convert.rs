//! Messages from frames.

use crate::error::{Error, ErrorView};
use crate::escape::{command_is, is_command, unescape, unescape_header_value};
use crate::frame::{cow_bytes, headers_view, pairs_view, Frame, FrameView, Header};
use crate::grammar::value_of;
use crate::heartbeat::{heartbeat_value, parse_heartbeat};
use crate::model::{opt_bytes, opt_text, outcome, texts, FromServerView, MessageView, ToServerView};
use crate::text::{bytes_equal, text_is};
use crate::{AckMode, FromServer, Message, ToServer};
use std::borrow::Cow;
use vstd::prelude::*;
use vstd::slice::slice_to_vec;
use vstd::utf8::*;

verus! {

/// The commands that a client sends
#[derive(Debug, Clone, Copy, PartialEq, Eq, Structural)]
pub enum ClientCommand {
    Connect,
    Disconnect,
    Send,
    Subscribe,
    Unsubscribe,
    Ack,
    Nack,
    Begin,
    Commit,
    Abort,
}

/// The commands that a server sends
#[derive(Debug, Clone, Copy, PartialEq, Eq, Structural)]
pub enum ServerCommand {
    Connected,
    Message,
    Receipt,
    Error,
}

/// The client's command that these bytes name, in upper or in lower case.
pub open spec fn client_command(command: Seq<u8>) -> Option<ClientCommand> {
    if is_command(command, "STOMP"@, "stomp"@) || is_command(command, "CONNECT"@, "connect"@) {
        Some(ClientCommand::Connect)
    } else if is_command(command, "DISCONNECT"@, "disconnect"@) {
        Some(ClientCommand::Disconnect)
    } else if is_command(command, "SEND"@, "send"@) {
        Some(ClientCommand::Send)
    } else if is_command(command, "SUBSCRIBE"@, "subscribe"@) {
        Some(ClientCommand::Subscribe)
    } else if is_command(command, "UNSUBSCRIBE"@, "unsubscribe"@) {
        Some(ClientCommand::Unsubscribe)
    } else if is_command(command, "ACK"@, "ack"@) {
        Some(ClientCommand::Ack)
    } else if is_command(command, "NACK"@, "nack"@) {
        Some(ClientCommand::Nack)
    } else if is_command(command, "BEGIN"@, "begin"@) {
        Some(ClientCommand::Begin)
    } else if is_command(command, "COMMIT"@, "commit"@) {
        Some(ClientCommand::Commit)
    } else if is_command(command, "ABORT"@, "abort"@) {
        Some(ClientCommand::Abort)
    } else {
        None
    }
}

/// The name that a client's command is sent under.
pub open spec fn command_name(command: ClientCommand) -> Seq<char> {
    match command {
        ClientCommand::Connect => "CONNECT"@,
        ClientCommand::Disconnect => "DISCONNECT"@,
        ClientCommand::Send => "SEND"@,
        ClientCommand::Subscribe => "SUBSCRIBE"@,
        ClientCommand::Unsubscribe => "UNSUBSCRIBE"@,
        ClientCommand::Ack => "ACK"@,
        ClientCommand::Nack => "NACK"@,
        ClientCommand::Begin => "BEGIN"@,
        ClientCommand::Commit => "COMMIT"@,
        ClientCommand::Abort => "ABORT"@,
    }
}

/// The server's command that these bytes name, in upper or in lower case.
pub open spec fn server_command(command: Seq<u8>) -> Option<ServerCommand> {
    if is_command(command, "CONNECTED"@, "connected"@) {
        Some(ServerCommand::Connected)
    } else if is_command(command, "MESSAGE"@, "message"@) {
        Some(ServerCommand::Message)
    } else if is_command(command, "RECEIPT"@, "receipt"@) {
        Some(ServerCommand::Receipt)
    } else if is_command(command, "ERROR"@, "error"@) {
        Some(ServerCommand::Error)
    } else {
        None
    }
}

/// The name that a server's command is sent under.
pub open spec fn server_command_name(command: ServerCommand) -> Seq<char> {
    match command {
        ServerCommand::Connected => "CONNECTED"@,
        ServerCommand::Message => "MESSAGE"@,
        ServerCommand::Receipt => "RECEIPT"@,
        ServerCommand::Error => "ERROR"@,
    }
}

/// The headers that the message of a client's command has fields for.
pub open spec fn client_keys(command: ClientCommand) -> Seq<Seq<char>> {
    match command {
        ClientCommand::Connect => seq![
            "accept-version"@,
            "host"@,
            "login"@,
            "passcode"@,
            "heart-beat"@,
        ],
        ClientCommand::Disconnect => seq!["receipt"@],
        ClientCommand::Send => seq!["destination"@, "transaction"@],
        ClientCommand::Subscribe => seq!["destination"@, "id"@, "ack"@],
        ClientCommand::Unsubscribe => seq!["id"@],
        ClientCommand::Ack | ClientCommand::Nack => seq!["id"@, "transaction"@],
        ClientCommand::Begin | ClientCommand::Commit | ClientCommand::Abort => seq![
            "transaction"@,
        ],
    }
}

/// The headers that the message of a server's command has fields for.
pub open spec fn server_keys(command: ServerCommand) -> Seq<Seq<char>> {
    match command {
        ServerCommand::Connected => seq!["version"@, "session"@, "server"@, "heart-beat"@],
        ServerCommand::Message => seq!["destination"@, "message-id"@, "subscription"@, "ack"@],
        ServerCommand::Receipt => seq!["receipt-id"@],
        ServerCommand::Error => seq!["message"@],
    }
}

/// The characters that bytes encode, if they are UTF-8.
pub open spec fn text_of(bytes: Seq<u8>) -> Option<Seq<char>> {
    if valid_utf8(bytes) {
        Some(decode_utf8(bytes))
    } else {
        None
    }
}

/// The value of a header as text: that of the first header with this name,
/// unescaped. `None` if there is no such header or its value is not UTF-8.
pub open spec fn fetched(hs: Seq<(Seq<u8>, Seq<u8>)>, key: Seq<char>) -> Option<Seq<char>> {
    match value_of(hs, encode_utf8(key)) {
        Some(v) => text_of(unescape(v)),
        None => None,
    }
}

/// Like [`fetched`], for a frame whose headers are not escaped.
pub open spec fn fetched_raw(hs: Seq<(Seq<u8>, Seq<u8>)>, key: Seq<char>) -> Option<Seq<char>> {
    match value_of(hs, encode_utf8(key)) {
        Some(v) => text_of(v),
        None => None,
    }
}

/// A value, or the error that the header `key` is missing.
pub open spec fn expected(value: Option<Seq<char>>, key: Seq<char>) -> Result<
    Seq<char>,
    ErrorView,
> {
    match value {
        Some(v) => Ok(v),
        None => Err(ErrorView::MissingHeader(key)),
    }
}

/// A header as text, its value unescaped.
pub open spec fn header_text(h: (Seq<u8>, Seq<u8>)) -> Result<(Seq<char>, Seq<char>), ErrorView> {
    if !valid_utf8(h.0) {
        Err(ErrorView::HeaderNameNotUtf8)
    } else if !valid_utf8(unescape(h.1)) {
        Err(ErrorView::HeaderValueNotUtf8(decode_utf8(h.0)))
    } else {
        Ok((decode_utf8(h.0), decode_utf8(unescape(h.1))))
    }
}

/// Headers as text, in order, or the error of the first that is not UTF-8.
pub open spec fn header_texts(hs: Seq<(Seq<u8>, Seq<u8>)>) -> Result<
    Seq<(Seq<char>, Seq<char>)>,
    ErrorView,
>
    decreases hs.len(),
{
    if hs.len() == 0 {
        Ok(Seq::empty())
    } else {
        match header_texts(hs.drop_last()) {
            Err(e) => Err(e),
            Ok(ts) => match header_text(hs.last()) {
                Err(e) => Err(e),
                Ok(t) => Ok(ts.push(t)),
            },
        }
    }
}

/// Whether `key` is one of `keys`.
pub open spec fn is_among(key: Seq<u8>, keys: Seq<Seq<char>>) -> bool {
    exists|i: int| 0 <= i < keys.len() && encode_utf8(#[trigger] keys[i]) == key
}

/// The headers whose names are not among `keys`, in order.
pub open spec fn without(hs: Seq<(Seq<u8>, Seq<u8>)>, keys: Seq<Seq<char>>) -> Seq<
    (Seq<u8>, Seq<u8>),
>
    decreases hs.len(),
{
    if hs.len() == 0 {
        Seq::empty()
    } else if is_among(hs.last().0, keys) {
        without(hs.drop_last(), keys)
    } else {
        without(hs.drop_last(), keys).push(hs.last())
    }
}

/// The headers whose names are not among `keys` as text, `None` if there are
/// none.
pub open spec fn optional_texts(hs: Seq<(Seq<u8>, Seq<u8>)>, keys: Seq<Seq<char>>) -> Result<
    Option<Seq<(Seq<char>, Seq<char>)>>,
    ErrorView,
> {
    match header_texts(without(hs, keys)) {
        Err(e) => Err(e),
        Ok(ts) => Ok(
            if ts.len() == 0 {
                None
            } else {
                Some(ts)
            },
        ),
    }
}

/// The acknowledgment mode that a header names.
pub open spec fn ack_mode(value: Option<Seq<char>>) -> Result<Option<AckMode>, ErrorView> {
    match value {
        None => Ok(None),
        Some(v) => if v == "auto"@ {
            Ok(Some(AckMode::Auto))
        } else if v == "client"@ {
            Ok(Some(AckMode::Client))
        } else if v == "client-individual"@ {
            Ok(Some(AckMode::ClientIndividual))
        } else {
            Err(ErrorView::InvalidAckMode(v))
        },
    }
}

/// The intervals that a heart-beat header holds, if there is one.
pub open spec fn requested_heartbeat(value: Option<Seq<char>>) -> Result<
    Option<(u32, u32)>,
    ErrorView,
> {
    match value {
        None => Ok(None),
        Some(v) => match heartbeat_value(encode_utf8(v)) {
            Ok(intervals) => Ok(Some(intervals)),
            Err(e) => Err(e),
        },
    }
}

/// What a CONNECT frame says.
pub open spec fn connect_content(h: Seq<(Seq<u8>, Seq<u8>)>) -> Result<ToServerView, ErrorView> {
    match requested_heartbeat(fetched_raw(h, "heart-beat"@)) {
        Err(e) => Err(e),
        Ok(heartbeat) => match expected(fetched_raw(h, "accept-version"@), "accept-version"@) {
            Err(e) => Err(e),
            Ok(accept_version) => match expected(fetched_raw(h, "host"@), "host"@) {
                Err(e) => Err(e),
                Ok(host) => Ok(
                    ToServerView::Connect {
                        accept_version,
                        host,
                        login: fetched_raw(h, "login"@),
                        passcode: fetched_raw(h, "passcode"@),
                        heartbeat,
                    },
                ),
            },
        },
    }
}

/// What a SEND frame says.
pub open spec fn send_content(f: FrameView) -> Result<ToServerView, ErrorView> {
    match expected(fetched(f.headers, "destination"@), "destination"@) {
        Err(e) => Err(e),
        Ok(destination) => match optional_texts(f.headers, client_keys(ClientCommand::Send)) {
            Err(e) => Err(e),
            Ok(headers) => Ok(
                ToServerView::Send {
                    destination,
                    transaction: fetched(f.headers, "transaction"@),
                    headers,
                    body: f.body,
                },
            ),
        },
    }
}

/// What a SUBSCRIBE frame says.
pub open spec fn subscribe_content(h: Seq<(Seq<u8>, Seq<u8>)>) -> Result<ToServerView, ErrorView> {
    match expected(fetched(h, "destination"@), "destination"@) {
        Err(e) => Err(e),
        Ok(destination) => match expected(fetched(h, "id"@), "id"@) {
            Err(e) => Err(e),
            Ok(id) => match ack_mode(fetched(h, "ack"@)) {
                Err(e) => Err(e),
                Ok(ack) => Ok(ToServerView::Subscribe { destination, id, ack }),
            },
        },
    }
}

/// What a frame with one of the client's commands says.
pub open spec fn client_content(command: ClientCommand, f: FrameView) -> Result<
    ToServerView,
    ErrorView,
> {
    let h = f.headers;
    match command {
        ClientCommand::Connect => connect_content(h),
        ClientCommand::Disconnect => Ok(
            ToServerView::Disconnect { receipt: fetched(h, "receipt"@) },
        ),
        ClientCommand::Send => send_content(f),
        ClientCommand::Subscribe => subscribe_content(h),
        ClientCommand::Unsubscribe => match expected(fetched(h, "id"@), "id"@) {
            Err(e) => Err(e),
            Ok(id) => Ok(ToServerView::Unsubscribe { id }),
        },
        ClientCommand::Ack => match expected(fetched(h, "id"@), "id"@) {
            Err(e) => Err(e),
            Ok(id) => Ok(ToServerView::Ack { id, transaction: fetched(h, "transaction"@) }),
        },
        ClientCommand::Nack => match expected(fetched(h, "id"@), "id"@) {
            Err(e) => Err(e),
            Ok(id) => Ok(ToServerView::Nack { id, transaction: fetched(h, "transaction"@) }),
        },
        ClientCommand::Begin => match expected(fetched(h, "transaction"@), "transaction"@) {
            Err(e) => Err(e),
            Ok(transaction) => Ok(ToServerView::Begin { transaction }),
        },
        ClientCommand::Commit => match expected(fetched(h, "transaction"@), "transaction"@) {
            Err(e) => Err(e),
            Ok(transaction) => Ok(ToServerView::Commit { transaction }),
        },
        ClientCommand::Abort => match expected(fetched(h, "transaction"@), "transaction"@) {
            Err(e) => Err(e),
            Ok(transaction) => Ok(ToServerView::Abort { transaction }),
        },
    }
}

/// The message that a client's frame carries.
pub open spec fn client_message(f: FrameView) -> Result<MessageView<ToServerView>, ErrorView> {
    match client_command(f.command) {
        None => Err(ErrorView::UnrecognizedFrame(f.command)),
        Some(command) => match client_content(command, f) {
            Err(e) => Err(e),
            Ok(content) => Ok(
                MessageView { content, extra_headers: without(f.headers, client_keys(command)) },
            ),
        },
    }
}

/// What a MESSAGE frame says.
pub open spec fn message_content(f: FrameView) -> Result<FromServerView, ErrorView> {
    let h = f.headers;
    match expected(fetched(h, "destination"@), "destination"@) {
        Err(e) => Err(e),
        Ok(destination) => match expected(fetched(h, "message-id"@), "message-id"@) {
            Err(e) => Err(e),
            Ok(message_id) => match expected(fetched(h, "subscription"@), "subscription"@) {
                Err(e) => Err(e),
                Ok(subscription) => match header_texts(h) {
                    Err(e) => Err(e),
                    Ok(headers) => Ok(
                        FromServerView::Message {
                            destination,
                            message_id,
                            subscription,
                            ack: fetched(h, "ack"@),
                            headers,
                            body: f.body,
                        },
                    ),
                },
            },
        },
    }
}

/// What a frame with one of the server's commands says.
pub open spec fn server_content(command: ServerCommand, f: FrameView) -> Result<
    FromServerView,
    ErrorView,
> {
    let h = f.headers;
    match command {
        ServerCommand::Connected => match expected(fetched_raw(h, "version"@), "version"@) {
            Err(e) => Err(e),
            Ok(version) => Ok(
                FromServerView::Connected {
                    version,
                    session: fetched_raw(h, "session"@),
                    server: fetched_raw(h, "server"@),
                    heartbeat: fetched_raw(h, "heart-beat"@),
                },
            ),
        },
        ServerCommand::Message => message_content(f),
        ServerCommand::Receipt => match expected(fetched(h, "receipt-id"@), "receipt-id"@) {
            Err(e) => Err(e),
            Ok(receipt_id) => Ok(FromServerView::Receipt { receipt_id }),
        },
        ServerCommand::Error => Ok(
            FromServerView::Error { message: fetched(h, "message"@), body: f.body },
        ),
    }
}

/// The message that a server's frame carries.
pub open spec fn server_message(f: FrameView) -> Result<MessageView<FromServerView>, ErrorView> {
    match server_command(f.command) {
        None => Err(ErrorView::UnrecognizedFrame(f.command)),
        Some(command) => match server_content(command, f) {
            Err(e) => Err(e),
            Ok(content) => Ok(
                MessageView { content, extra_headers: without(f.headers, server_keys(command)) },
            ),
        },
    }
}

/// The client's command in these bytes.
fn parse_client_command(command: &[u8]) -> (r: Option<ClientCommand>)
    ensures
        r == client_command(command@),
{
    if command_is(command, "STOMP", "stomp") || command_is(command, "CONNECT", "connect") {
        Some(ClientCommand::Connect)
    } else if command_is(command, "DISCONNECT", "disconnect") {
        Some(ClientCommand::Disconnect)
    } else if command_is(command, "SEND", "send") {
        Some(ClientCommand::Send)
    } else if command_is(command, "SUBSCRIBE", "subscribe") {
        Some(ClientCommand::Subscribe)
    } else if command_is(command, "UNSUBSCRIBE", "unsubscribe") {
        Some(ClientCommand::Unsubscribe)
    } else if command_is(command, "ACK", "ack") {
        Some(ClientCommand::Ack)
    } else if command_is(command, "NACK", "nack") {
        Some(ClientCommand::Nack)
    } else if command_is(command, "BEGIN", "begin") {
        Some(ClientCommand::Begin)
    } else if command_is(command, "COMMIT", "commit") {
        Some(ClientCommand::Commit)
    } else if command_is(command, "ABORT", "abort") {
        Some(ClientCommand::Abort)
    } else {
        None
    }
}

/// The server's command in these bytes.
fn parse_server_command(command: &[u8]) -> (r: Option<ServerCommand>)
    ensures
        r == server_command(command@),
{
    if command_is(command, "CONNECTED", "connected") {
        Some(ServerCommand::Connected)
    } else if command_is(command, "MESSAGE", "message") {
        Some(ServerCommand::Message)
    } else if command_is(command, "RECEIPT", "receipt") {
        Some(ServerCommand::Receipt)
    } else if command_is(command, "ERROR", "error") {
        Some(ServerCommand::Error)
    } else {
        None
    }
}

/// The value of the first header with this name.
fn find_header<'b>(headers: &'b [Header<'_>], key: &str) -> (r: Option<&'b [u8]>)
    ensures
        crate::frame::body_view(r) == value_of(headers_view(headers@), encode_utf8(key@)),
{
    let ghost hs = headers_view(headers@);
    let ghost name = encode_utf8(key@);
    let mut i: usize = 0;
    assert(hs.skip(0) =~= hs);
    while i < headers.len()
        invariant
            i <= headers@.len(),
            hs == headers_view(headers@),
            name == encode_utf8(key@),
            value_of(hs.skip(i as int), name) == value_of(hs, name),
        decreases headers@.len() - i,
    {
        assert(hs.skip(i as int)[0] == (headers@[i as int].0@, headers@[i as int].1@));
        assert(hs.skip(i as int).skip(1) =~= hs.skip(i + 1));
        if bytes_equal(headers[i].0, key.as_bytes()) {
            return Some(cow_bytes(&headers[i].1));
        }
        i += 1;
    }
    None
}

/// Fetch a header value by key from a collection of headers
///
/// The value of the first header with this key, unescaped, or None if there is
/// no such header or its value is not UTF-8.
pub fn fetch_header(headers: &[Header<'_>], key: &str) -> (r: Option<String>)
    ensures
        opt_text(r) == fetched(headers_view(headers@), key@),
{
    match find_header(headers, key) {
        Some(v) => String::from_utf8(unescape_header_value(v)).ok(),
        None => None,
    }
}

/// Fetch a header value by key, without unescaping it
///
/// For the CONNECT and CONNECTED frames, whose headers never carry escape
/// sequences, so that a literal backslash survives as itself.
pub fn fetch_raw_header(headers: &[Header<'_>], key: &str) -> (r: Option<String>)
    ensures
        opt_text(r) == fetched_raw(headers_view(headers@), key@),
{
    match find_header(headers, key) {
        Some(v) => String::from_utf8(slice_to_vec(v)).ok(),
        None => None,
    }
}

/// Fetch a required header value by key, without unescaping it
///
/// The counterpart of [`expect_header`] for CONNECT and CONNECTED.
pub fn expect_raw_header(headers: &[Header<'_>], key: &str) -> (r: Result<String, Error>)
    ensures
        outcome(r) == expected(fetched_raw(headers_view(headers@), key@), key@),
{
    match fetch_raw_header(headers, key) {
        Some(v) => Ok(v),
        None => Err(Error::MissingHeader(key.to_owned())),
    }
}

/// Fetch a required header value by key from a collection of headers
///
/// If the header is not found, or its value is not UTF-8, it returns an error.
pub fn expect_header(headers: &[Header<'_>], key: &str) -> (r: Result<String, Error>)
    ensures
        outcome(r) == expected(fetched(headers_view(headers@), key@), key@),
{
    match fetch_header(headers, key) {
        Some(v) => Ok(v),
        None => Err(Error::MissingHeader(key.to_owned())),
    }
}

/// Convert one header, unescaping its value, into a (String, String) pair
///
/// Headers are UTF-8, so bytes that are not are a malformed frame rather than
/// something to render as best we can.
pub fn header_to_string(key: &[u8], value: &[u8]) -> (r: Result<(String, String), Error>)
    ensures
        outcome(r) == header_text((key@, value@)),
{
    match String::from_utf8(slice_to_vec(key)) {
        Err(_) => Err(Error::HeaderNameNotUtf8),
        Ok(name) => match String::from_utf8(unescape_header_value(value)) {
            Err(_) => Err(Error::HeaderValueNotUtf8(name)),
            Ok(text) => Ok((name, text)),
        },
    }
}

proof fn lemma_header_texts_next(hs: Seq<(Seq<u8>, Seq<u8>)>, i: int)
    requires
        0 <= i < hs.len(),
    ensures
        header_texts(hs.take(i + 1)) == match header_texts(hs.take(i)) {
            Err(e) => Err(e),
            Ok(ts) => match header_text(hs[i]) {
                Err(e) => Err(e),
                Ok(t) => Ok(ts.push(t)),
            },
        },
{
    assert(hs.take(i + 1).drop_last() =~= hs.take(i));
}

/// The error of some headers is the error of these headers and others.
proof fn lemma_header_texts_error(hs: Seq<(Seq<u8>, Seq<u8>)>, i: int)
    requires
        0 <= i <= hs.len(),
        header_texts(hs.take(i)) is Err,
    ensures
        header_texts(hs) == header_texts(hs.take(i)),
    decreases hs.len() - i,
{
    if i < hs.len() {
        lemma_header_texts_next(hs, i);
        lemma_header_texts_error(hs, i + 1);
    } else {
        assert(hs.take(i) =~= hs);
    }
}

/// Convert all headers to a collection of (String, String) pairs
///
/// The first header that is not UTF-8 decides the error.
pub fn all_headers(headers: &[Header<'_>]) -> (r: Result<Vec<(String, String)>, Error>)
    ensures
        match r {
            Ok(ts) => Ok::<Seq<(Seq<char>, Seq<char>)>, ErrorView>(texts(ts@)),
            Err(e) => Err::<Seq<(Seq<char>, Seq<char>)>, ErrorView>(e@),
        } == header_texts(headers_view(headers@)),
{
    let ghost hs = headers_view(headers@);
    let mut res: Vec<(String, String)> = Vec::new();
    let mut i: usize = 0;
    assert(hs.take(0) =~= Seq::<(Seq<u8>, Seq<u8>)>::empty());
    assert(texts(res@) =~= Seq::<(Seq<char>, Seq<char>)>::empty());
    while i < headers.len()
        invariant
            i <= headers@.len(),
            hs == headers_view(headers@),
            header_texts(hs.take(i as int)) == Ok::<Seq<(Seq<char>, Seq<char>)>, ErrorView>(
                texts(res@),
            ),
        decreases headers@.len() - i,
    {
        proof {
            lemma_header_texts_next(hs, i as int);
        }
        let ghost before = res@;
        let header = &headers[i];
        assert(hs[i as int] == (header.0@, header.1@));
        match header_to_string(header.0, cow_bytes(&header.1)) {
            Err(e) => {
                proof {
                    lemma_header_texts_error(hs, i + 1);
                }
                return Err(e);
            },
            Ok(pair) => {
                res.push(pair);
                assert(texts(res@) =~= texts(before).push((pair.0@, pair.1@)));
            },
        }
        i += 1;
    }
    assert(hs.take(i as int) =~= hs);
    Ok(res)
}

/// The characters of names.
pub open spec fn keys_view(keys: Seq<&str>) -> Seq<Seq<char>> {
    keys.map_values(|k: &str| k@)
}

/// Whether `key` is one of `keys`.
fn is_key(key: &[u8], keys: &[&str]) -> (r: bool)
    ensures
        r == is_among(key@, keys_view(keys@)),
{
    let ghost ks = keys_view(keys@);
    let mut i: usize = 0;
    while i < keys.len()
        invariant
            i <= keys@.len(),
            ks == keys_view(keys@),
            forall|j: int| 0 <= j < i ==> encode_utf8(#[trigger] ks[j]) != key@,
        decreases keys@.len() - i,
    {
        assert(ks[i as int] == keys@[i as int]@);
        if bytes_equal(key, keys[i].as_bytes()) {
            return true;
        }
        i += 1;
    }
    false
}

proof fn lemma_without_next(hs: Seq<(Seq<u8>, Seq<u8>)>, keys: Seq<Seq<char>>, i: int)
    requires
        0 <= i < hs.len(),
    ensures
        without(hs.take(i + 1), keys) == if is_among(hs[i].0, keys) {
            without(hs.take(i), keys)
        } else {
            without(hs.take(i), keys).push(hs[i])
        },
{
    assert(hs.take(i + 1).drop_last() =~= hs.take(i));
}

/// Extract optional headers that aren't in the expected_keys list
///
/// Returns the headers that no field of the message stands for, as a Vec of
/// String pairs, or None if there are none.
pub fn optional_headers(headers: &[Header<'_>], expected_keys: &[&str]) -> (r: Result<
    Option<Vec<(String, String)>>,
    Error,
>)
    ensures
        match r {
            Ok(ts) => Ok::<Option<Seq<(Seq<char>, Seq<char>)>>, ErrorView>(
                crate::model::opt_texts(ts),
            ),
            Err(e) => Err::<Option<Seq<(Seq<char>, Seq<char>)>>, ErrorView>(e@),
        } == optional_texts(headers_view(headers@), keys_view(expected_keys@)),
{
    let ghost hs = headers_view(headers@);
    let ghost ks = keys_view(expected_keys@);
    let mut kept: Vec<Header<'_>> = Vec::new();
    let mut i: usize = 0;
    assert(hs.take(0) =~= Seq::<(Seq<u8>, Seq<u8>)>::empty());
    assert(headers_view(kept@) =~= without(hs.take(0), ks));
    while i < headers.len()
        invariant
            i <= headers@.len(),
            hs == headers_view(headers@),
            ks == keys_view(expected_keys@),
            headers_view(kept@) == without(hs.take(i as int), ks),
        decreases headers@.len() - i,
    {
        proof {
            lemma_without_next(hs, ks, i as int);
        }
        let ghost before = kept@;
        let header = &headers[i];
        assert(hs[i as int] == (header.0@, header.1@));
        if !is_key(header.0, expected_keys) {
            kept.push((header.0, Cow::Borrowed(cow_bytes(&header.1))));
            assert(headers_view(kept@) =~= headers_view(before).push(hs[i as int]));
        }
        i += 1;
    }
    assert(hs.take(i as int) =~= hs);
    match all_headers(kept.as_slice()) {
        Err(e) => Err(e),
        Ok(res) => Ok(
            if res.len() == 0 {
                None
            } else {
                Some(res)
            },
        ),
    }
}

/// The headers whose names are not among `keys`, as they are.
fn extra_headers(headers: &[Header<'_>], keys: &[&str]) -> (r: Vec<(Vec<u8>, Vec<u8>)>)
    ensures
        pairs_view(r@) == without(headers_view(headers@), keys_view(keys@)),
{
    let ghost hs = headers_view(headers@);
    let ghost ks = keys_view(keys@);
    let mut res: Vec<(Vec<u8>, Vec<u8>)> = Vec::new();
    let mut i: usize = 0;
    assert(hs.take(0) =~= Seq::<(Seq<u8>, Seq<u8>)>::empty());
    assert(pairs_view(res@) =~= without(hs.take(0), ks));
    while i < headers.len()
        invariant
            i <= headers@.len(),
            hs == headers_view(headers@),
            ks == keys_view(keys@),
            pairs_view(res@) == without(hs.take(i as int), ks),
        decreases headers@.len() - i,
    {
        proof {
            lemma_without_next(hs, ks, i as int);
        }
        let ghost before = res@;
        let header = &headers[i];
        assert(hs[i as int] == (header.0@, header.1@));
        if !is_key(header.0, keys) {
            res.push((slice_to_vec(header.0), slice_to_vec(cow_bytes(&header.1))));
            assert(pairs_view(res@) =~= pairs_view(before).push(hs[i as int]));
        }
        i += 1;
    }
    assert(hs.take(i as int) =~= hs);
    res
}

/// The headers that the message of a client's command has fields for.
fn client_key_list(command: ClientCommand) -> (r: Vec<&'static str>)
    ensures
        keys_view(r@) == client_keys(command),
{
    let keys: Vec<&'static str> = match command {
        ClientCommand::Connect => vec!["accept-version", "host", "login", "passcode", "heart-beat"],
        ClientCommand::Disconnect => vec!["receipt"],
        ClientCommand::Send => vec!["destination", "transaction"],
        ClientCommand::Subscribe => vec!["destination", "id", "ack"],
        ClientCommand::Unsubscribe => vec!["id"],
        ClientCommand::Ack | ClientCommand::Nack => vec!["id", "transaction"],
        ClientCommand::Begin | ClientCommand::Commit | ClientCommand::Abort => vec!["transaction"],
    };
    assert(keys_view(keys@) =~= client_keys(command));
    keys
}

/// The headers that the message of a server's command has fields for.
fn server_key_list(command: ServerCommand) -> (r: Vec<&'static str>)
    ensures
        keys_view(r@) == server_keys(command),
{
    let keys: Vec<&'static str> = match command {
        ServerCommand::Connected => vec!["version", "session", "server", "heart-beat"],
        ServerCommand::Message => vec!["destination", "message-id", "subscription", "ack"],
        ServerCommand::Receipt => vec!["receipt-id"],
        ServerCommand::Error => vec!["message"],
    };
    assert(keys_view(keys@) =~= server_keys(command));
    keys
}

/// A body as a vector.
fn body_to_vec(body: Option<&[u8]>) -> (r: Option<Vec<u8>>)
    ensures
        opt_bytes(r) == crate::frame::body_view(body),
{
    match body {
        Some(b) => Some(slice_to_vec(b)),
        None => None,
    }
}

/// The acknowledgment mode that a header names.
fn parse_ack_mode(value: Option<String>) -> (r: Result<Option<AckMode>, Error>)
    ensures
        match r {
            Ok(mode) => Ok::<Option<AckMode>, ErrorView>(mode),
            Err(e) => Err::<Option<AckMode>, ErrorView>(e@),
        } == ack_mode(opt_text(value)),
{
    match value {
        None => Ok(None),
        Some(v) => if text_is(v.as_str(), "auto") {
            Ok(Some(AckMode::Auto))
        } else if text_is(v.as_str(), "client") {
            Ok(Some(AckMode::Client))
        } else if text_is(v.as_str(), "client-individual") {
            Ok(Some(AckMode::ClientIndividual))
        } else {
            Err(Error::InvalidAckMode(v))
        },
    }
}

impl<'a> Frame<'a> {
    /// What this frame says, if its command is CONNECT
    fn to_connect(&self) -> (r: Result<ToServer, Error>)
        ensures
            outcome(r) == connect_content(self@.headers),
    {
        let h = self.headers.as_slice();
        // CONNECT headers are not escaped, so they are read as they are
        let heartbeat = match fetch_raw_header(h, "heart-beat") {
            Some(hb) => match parse_heartbeat(hb.as_str()) {
                Ok(intervals) => Some(intervals),
                Err(e) => {
                    return Err(e);
                },
            },
            None => None,
        };
        let accept_version = match expect_raw_header(h, "accept-version") {
            Ok(v) => v,
            Err(e) => {
                return Err(e);
            },
        };
        let host = match expect_raw_header(h, "host") {
            Ok(v) => v,
            Err(e) => {
                return Err(e);
            },
        };
        Ok(
            ToServer::Connect {
                accept_version,
                host,
                login: fetch_raw_header(h, "login"),
                passcode: fetch_raw_header(h, "passcode"),
                heartbeat,
            },
        )
    }

    /// What this frame says, if its command is SEND
    fn to_send(&self) -> (r: Result<ToServer, Error>)
        ensures
            outcome(r) == send_content(self@),
    {
        let h = self.headers.as_slice();
        let destination = match expect_header(h, "destination") {
            Ok(v) => v,
            Err(e) => {
                return Err(e);
            },
        };
        let keys = client_key_list(ClientCommand::Send);
        match optional_headers(h, keys.as_slice()) {
            Err(e) => Err(e),
            Ok(headers) => Ok(
                ToServer::Send {
                    destination,
                    transaction: fetch_header(h, "transaction"),
                    headers,
                    body: body_to_vec(self.body),
                },
            ),
        }
    }

    /// What this frame says, if its command is SUBSCRIBE
    fn to_subscribe(&self) -> (r: Result<ToServer, Error>)
        ensures
            outcome(r) == subscribe_content(self@.headers),
    {
        let h = self.headers.as_slice();
        let destination = match expect_header(h, "destination") {
            Ok(v) => v,
            Err(e) => {
                return Err(e);
            },
        };
        let id = match expect_header(h, "id") {
            Ok(v) => v,
            Err(e) => {
                return Err(e);
            },
        };
        match parse_ack_mode(fetch_header(h, "ack")) {
            Err(e) => Err(e),
            Ok(ack) => Ok(ToServer::Subscribe { destination, id, ack }),
        }
    }

    /// What this frame says, if it has this command
    fn to_client_content(&self, command: ClientCommand) -> (r: Result<ToServer, Error>)
        ensures
            outcome(r) == client_content(command, self@),
    {
        let h = self.headers.as_slice();
        match command {
            ClientCommand::Connect => self.to_connect(),
            ClientCommand::Disconnect => Ok(
                ToServer::Disconnect { receipt: fetch_header(h, "receipt") },
            ),
            ClientCommand::Send => self.to_send(),
            ClientCommand::Subscribe => self.to_subscribe(),
            ClientCommand::Unsubscribe => match expect_header(h, "id") {
                Err(e) => Err(e),
                Ok(id) => Ok(ToServer::Unsubscribe { id }),
            },
            ClientCommand::Ack => match expect_header(h, "id") {
                Err(e) => Err(e),
                Ok(id) => Ok(ToServer::Ack { id, transaction: fetch_header(h, "transaction") }),
            },
            ClientCommand::Nack => match expect_header(h, "id") {
                Err(e) => Err(e),
                Ok(id) => Ok(ToServer::Nack { id, transaction: fetch_header(h, "transaction") }),
            },
            ClientCommand::Begin => match expect_header(h, "transaction") {
                Err(e) => Err(e),
                Ok(transaction) => Ok(ToServer::Begin { transaction }),
            },
            ClientCommand::Commit => match expect_header(h, "transaction") {
                Err(e) => Err(e),
                Ok(transaction) => Ok(ToServer::Commit { transaction }),
            },
            ClientCommand::Abort => match expect_header(h, "transaction") {
                Err(e) => Err(e),
                Ok(transaction) => Ok(ToServer::Abort { transaction }),
            },
        }
    }

    /// Convert this frame to a Message<ToServer>
    ///
    /// This method interprets the frame as a client-to-server message
    /// and converts it to the appropriate ToServer enum variant.
    pub fn to_client_msg(&self) -> (r: Result<Message<ToServer>, Error>)
        ensures
            outcome(r) == client_message(self@),
    {
        let command = match parse_client_command(self.command) {
            Some(command) => command,
            None => {
                return Err(Error::UnrecognizedFrame(slice_to_vec(self.command)));
            },
        };
        match self.to_client_content(command) {
            Err(e) => Err(e),
            Ok(content) => {
                // Collect any extra headers not required by the specific message type
                let keys = client_key_list(command);
                let extra_headers = extra_headers(self.headers.as_slice(), keys.as_slice());
                Ok(Message { content, extra_headers })
            },
        }
    }

    /// What this frame says, if its command is MESSAGE
    fn to_message(&self) -> (r: Result<FromServer, Error>)
        ensures
            outcome(r) == message_content(self@),
    {
        let h = self.headers.as_slice();
        let destination = match expect_header(h, "destination") {
            Ok(v) => v,
            Err(e) => {
                return Err(e);
            },
        };
        let message_id = match expect_header(h, "message-id") {
            Ok(v) => v,
            Err(e) => {
                return Err(e);
            },
        };
        let subscription = match expect_header(h, "subscription") {
            Ok(v) => v,
            Err(e) => {
                return Err(e);
            },
        };
        match all_headers(h) {
            Err(e) => Err(e),
            Ok(headers) => Ok(
                FromServer::Message {
                    destination,
                    message_id,
                    subscription,
                    ack: fetch_header(h, "ack"),
                    headers,
                    body: body_to_vec(self.body),
                },
            ),
        }
    }

    /// What this frame says, if it has this command
    fn to_server_content(&self, command: ServerCommand) -> (r: Result<FromServer, Error>)
        ensures
            outcome(r) == server_content(command, self@),
    {
        let h = self.headers.as_slice();
        match command {
            // CONNECTED headers are not escaped, so they are read as they are
            ServerCommand::Connected => match expect_raw_header(h, "version") {
                Err(e) => Err(e),
                Ok(version) => Ok(
                    FromServer::Connected {
                        version,
                        session: fetch_raw_header(h, "session"),
                        server: fetch_raw_header(h, "server"),
                        heartbeat: fetch_raw_header(h, "heart-beat"),
                    },
                ),
            },
            ServerCommand::Message => self.to_message(),
            ServerCommand::Receipt => match expect_header(h, "receipt-id") {
                Err(e) => Err(e),
                Ok(receipt_id) => Ok(FromServer::Receipt { receipt_id }),
            },
            ServerCommand::Error => Ok(
                FromServer::Error {
                    message: fetch_header(h, "message"),
                    body: body_to_vec(self.body),
                },
            ),
        }
    }

    /// Convert this frame to a Message<FromServer>
    ///
    /// This method interprets the frame as a server-to-client message
    /// and converts it to the appropriate FromServer enum variant.
    pub fn to_server_msg(&self) -> (r: Result<Message<FromServer>, Error>)
        ensures
            outcome(r) == server_message(self@),
    {
        let command = match parse_server_command(self.command) {
            Some(command) => command,
            None => {
                return Err(Error::UnrecognizedFrame(slice_to_vec(self.command)));
            },
        };
        match self.to_server_content(command) {
            Err(e) => Err(e),
            Ok(content) => {
                // Collect any extra headers not required by the specific message type
                let keys = server_key_list(command);
                let extra_headers = extra_headers(self.headers.as_slice(), keys.as_slice());
                Ok(Message { content, extra_headers })
            },
        }
    }
}

impl Message<ToServer> {
    /// Convert a Frame into a Message<ToServer>
    pub fn from_frame(frame: Frame<'_>) -> (r: Result<Message<ToServer>, Error>)
        ensures
            outcome(r) == client_message(frame@),
    {
        frame.to_client_msg()
    }
}

impl Message<FromServer> {
    /// Convert a Frame into a Message<FromServer>
    pub fn from_frame(frame: Frame<'_>) -> (r: Result<Message<FromServer>, Error>)
        ensures
            outcome(r) == server_message(frame@),
    {
        frame.to_server_msg()
    }
}

} // verus!
