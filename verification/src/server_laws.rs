//! What a server sends is what the client gets, and what is no frame is refused.

use crate::client::decoded;
use crate::compose::encoded_text;
use crate::convert::{
    header_text, header_texts, is_among, server_command_name, server_content, server_keys,
    server_message, ServerCommand,
};
use crate::error::ErrorView;
use crate::escape::escaped_command;
use crate::frame::{encoded, wire, FrameView};
use crate::grammar::{skip_line_ending, value_of};
use crate::message_laws::{
    encoded_value, field_headers, fields_differ, fields_named, lemma_fetched, lemma_fetched_raw,
    lemma_field_headers, lemma_field_value, lemma_headers_are_found, lemma_is_among,
};
use crate::model::{FromServerView, MessageView};
use crate::names::{is_name, lemma_header_names, lemma_name_is_plain, lemma_server_command_names};
use crate::send_laws::{
    decoded_texts, header_is_text, lemma_bad_header_is_found, lemma_headers_are_text,
};
use crate::stream_laws::lemma_start_without_beats;
use crate::wire_laws::{
    distinct_body, distinct_on_wire, encoded_headers, law_frame_is_read_back, on_one_line,
    readable,
};
use vstd::prelude::*;
use vstd::utf8::*;

verus! {

/// The command of a message from a server.
pub open spec fn server_command_of(m: FromServerView) -> ServerCommand {
    match m {
        FromServerView::Connected { .. } => ServerCommand::Connected,
        FromServerView::Message { .. } => ServerCommand::Message,
        FromServerView::Receipt { .. } => ServerCommand::Receipt,
        FromServerView::Error { .. } => ServerCommand::Error,
    }
}

/// The fields of a message from a server that its command has headers for.
pub open spec fn server_fields(m: FromServerView) -> Seq<(Seq<char>, Option<Seq<u8>>)> {
    match m {
        FromServerView::Connected { version, session, server, heartbeat } => seq![
            ("version"@, encoded_text(Some(version))),
            ("session"@, encoded_text(session)),
            ("server"@, encoded_text(server)),
            ("heart-beat"@, encoded_text(heartbeat)),
        ],
        FromServerView::Message { destination, message_id, subscription, ack, .. } => seq![
            ("destination"@, encoded_text(Some(destination))),
            ("message-id"@, encoded_text(Some(message_id))),
            ("subscription"@, encoded_text(Some(subscription))),
            ("ack"@, encoded_text(ack)),
        ],
        FromServerView::Receipt { receipt_id } => seq![
            ("receipt-id"@, encoded_text(Some(receipt_id))),
        ],
        FromServerView::Error { message, .. } => seq![("message"@, encoded_text(message))],
    }
}

/// The body of a message from a server.
pub open spec fn server_body(m: FromServerView) -> Option<Seq<u8>> {
    match m {
        FromServerView::Message { body, .. } => body,
        FromServerView::Error { body, .. } => body,
        _ => None,
    }
}

/// The frame that a server sends for a message, with headers of its own behind
/// those of the fields.
pub open spec fn server_frame(m: FromServerView, extra: Seq<(Seq<u8>, Seq<u8>)>) -> FrameView {
    FrameView {
        command: encode_utf8(server_command_name(server_command_of(m))),
        headers: field_headers(server_fields(m)) + extra,
        body: server_body(m),
    }
}

/// The message that the client gets: a MESSAGE shows all headers as text, and
/// headers that are not those of fields are kept as they stand on the wire.
pub open spec fn as_delivered(m: FromServerView, extra: Seq<(Seq<u8>, Seq<u8>)>) -> MessageView<
    FromServerView,
> {
    MessageView {
        content: match m {
            FromServerView::Message { destination, message_id, subscription, ack, body, .. } =>
                FromServerView::Message {
                destination,
                message_id,
                subscription,
                ack,
                headers: decoded_texts(field_headers(server_fields(m)) + extra),
                body,
            },
            _ => m,
        },
        extra_headers: encoded_headers(extra, !(m is Connected)),
    }
}

/// Whether a header of a server's own is told from the fields of the message. In
/// a MESSAGE it has to be text.
pub open spec fn extra_is_delivered(m: FromServerView, h: (Seq<u8>, Seq<u8>)) -> bool {
    &&& distinct_on_wire(h, !(m is Connected))
    &&& !is_among(encoded(h.0, !(m is Connected)), server_keys(server_command_of(m)))
    &&& m is Message ==> header_is_text(h)
}

/// Whether a message from a server can be told apart on the wire: those of a
/// CONNECTED are not escaped, so each field has to be on one line, and the end of
/// the body has to be told by its length or by a null byte.
pub open spec fn is_delivered(m: FromServerView, extra: Seq<(Seq<u8>, Seq<u8>)>) -> bool {
    let escaped = !(m is Connected);
    let fields = server_fields(m);
    &&& forall|i: int| 0 <= i < extra.len() ==> extra_is_delivered(m, #[trigger] extra[i])
    &&& forall|i: int|
        0 <= i < fields.len() ==> ((#[trigger] fields[i]).1 matches Some(v) ==> escaped
            || on_one_line(v))
    &&& distinct_body(encoded_headers(server_frame(m, extra).headers, escaped), server_body(m))
}

/// The fields of a message have the names that the reader looks for.
proof fn lemma_server_fields_are_named(m: FromServerView)
    ensures
        fields_named(server_fields(m), server_keys(server_command_of(m))),
{
    let fields = server_fields(m);
    let keys = server_keys(server_command_of(m));
    lemma_header_names();
    assert forall|i: int| 0 <= i < fields.len() implies is_name((#[trigger] fields[i]).0)
        && is_among(encode_utf8(fields[i].0), keys) by {
        assert(fields[i].0 == keys[i]);
        lemma_is_among(keys, i);
    }
}

/// No message has two fields of one name.
proof fn lemma_server_fields_differ(m: FromServerView)
    ensures
        fields_differ(server_fields(m)),
{
    let fields = server_fields(m);
    reveal_strlit("version");
    reveal_strlit("session");
    reveal_strlit("server");
    reveal_strlit("heart-beat");
    reveal_strlit("destination");
    reveal_strlit("message-id");
    reveal_strlit("subscription");
    reveal_strlit("ack");
    assert forall|i: int, j: int| 0 <= i < j < fields.len() implies (#[trigger] fields[i]).0 != (
    #[trigger] fields[j]).0 by {
        match m {
            FromServerView::Connected { .. } => {
                assert(fields[0].0.len() == 7 && fields[0].0[0] == 'v');
                assert(fields[1].0.len() == 7 && fields[1].0[0] == 's');
                assert(fields[2].0.len() == 6);
                assert(fields[3].0.len() == 10);
            },
            FromServerView::Message { .. } => {
                assert(fields[0].0.len() == 11);
                assert(fields[1].0.len() == 10);
                assert(fields[2].0.len() == 12);
                assert(fields[3].0.len() == 3);
            },
            _ => {},
        }
    }
}

/// The headers of fields that hold text are text.
proof fn lemma_field_headers_are_text(fields: Seq<(Seq<char>, Option<Seq<u8>>)>)
    requires
        forall|i: int|
            0 <= i < fields.len() ==> is_name((#[trigger] fields[i]).0) && (fields[i].1
                matches Some(v) ==> valid_utf8(v)),
    ensures
        forall|i: int|
            0 <= i < field_headers(fields).len() ==> header_is_text(
                #[trigger] field_headers(fields)[i],
            ),
    decreases fields.len(),
{
    if fields.len() > 0 {
        let init = fields.drop_last();
        let all = field_headers(fields);
        assert(fields.last() == fields[fields.len() - 1]);
        assert forall|i: int| 0 <= i < init.len() implies is_name((#[trigger] init[i]).0) && (
        init[i].1 matches Some(v) ==> valid_utf8(v)) by {
            assert(init[i] == fields[i]);
        }
        lemma_field_headers_are_text(init);
        lemma_name_is_plain(fields.last().0);
        assert forall|i: int| 0 <= i < all.len() implies header_is_text(#[trigger] all[i]) by {
            if i < field_headers(init).len() {
                assert(all[i] == field_headers(init)[i]);
            } else {
                assert(all[i] == (encode_utf8(fields.last().0), fields.last().1->0));
            }
        }
    }
}

/// Whether the values of fields are found in these headers.
spec fn server_fields_found(m: FromServerView, hs: Seq<(Seq<u8>, Seq<u8>)>) -> bool {
    forall|i: int|
        0 <= i < server_fields(m).len() ==> value_of(
            hs,
            encode_utf8((#[trigger] server_fields(m)[i]).0),
        ) == encoded_value(server_fields(m)[i].1, !(m is Connected))
}

/// A message from a server is read from a frame that has its fields.
proof fn lemma_server_content(m: FromServerView, f: FrameView)
    requires
        server_fields_found(m, f.headers),
        f.body == server_body(m),
        m matches FromServerView::Message { headers, .. } ==> header_texts(f.headers) == Ok::<
            Seq<(Seq<char>, Seq<char>)>,
            ErrorView,
        >(headers),
    ensures
        server_content(server_command_of(m), f) == Ok::<FromServerView, ErrorView>(m),
{
    let h = f.headers;
    let fields = server_fields(m);
    match m {
        FromServerView::Connected { version, session, server, heartbeat } => {
            assert(fields[0].0 == "version"@);
            lemma_fetched_raw(h, "version"@, Some(version));
            assert(fields[1].0 == "session"@);
            lemma_fetched_raw(h, "session"@, session);
            assert(fields[2].0 == "server"@);
            lemma_fetched_raw(h, "server"@, server);
            assert(fields[3].0 == "heart-beat"@);
            lemma_fetched_raw(h, "heart-beat"@, heartbeat);
        },
        FromServerView::Message { destination, message_id, subscription, ack, .. } => {
            assert(fields[0].0 == "destination"@);
            lemma_fetched(h, "destination"@, Some(destination));
            assert(fields[1].0 == "message-id"@);
            lemma_fetched(h, "message-id"@, Some(message_id));
            assert(fields[2].0 == "subscription"@);
            lemma_fetched(h, "subscription"@, Some(subscription));
            assert(fields[3].0 == "ack"@);
            lemma_fetched(h, "ack"@, ack);
        },
        FromServerView::Receipt { receipt_id } => {
            assert(fields[0].0 == "receipt-id"@);
            lemma_fetched(h, "receipt-id"@, Some(receipt_id));
        },
        FromServerView::Error { message, .. } => {
            assert(fields[0].0 == "message"@);
            lemma_fetched(h, "message"@, message);
        },
    }
}

/// The frame of a message from a server is read as that message.
proof fn lemma_server_message(m: FromServerView, extra: Seq<(Seq<u8>, Seq<u8>)>)
    requires
        is_delivered(m, extra),
    ensures
        ({
            let frame = server_frame(m, extra);
            let escaped = !(m is Connected);
            let read = encoded_headers(frame.headers, escaped);
            &&& escaped_command(frame.command) == escaped
            &&& readable(frame)
            &&& server_message(FrameView { headers: read, ..frame }) == Ok::<
                MessageView<FromServerView>,
                ErrorView,
            >(as_delivered(m, extra))
        }),
{
    let frame = server_frame(m, extra);
    let command = server_command_of(m);
    let escaped = !(m is Connected);
    let fields = server_fields(m);
    let own = field_headers(fields);
    let keys = server_keys(command);
    let read = encoded_headers(frame.headers, escaped);
    lemma_server_command_names(command);
    lemma_server_fields_are_named(m);
    lemma_server_fields_differ(m);
    lemma_field_headers(fields, keys, escaped);
    assert forall|i: int| 0 <= i < frame.headers.len() implies distinct_on_wire(
        #[trigger] frame.headers[i],
        escaped,
    ) by {
        if i < own.len() {
            assert(frame.headers[i] == own[i]);
        } else {
            assert(frame.headers[i] == extra[i - own.len()]);
        }
    }
    assert forall|i: int| 0 <= i < extra.len() implies !is_among(
        encoded((#[trigger] extra[i]).0, escaped),
        keys,
    ) by {
        assert(extra_is_delivered(m, extra[i]));
    }
    lemma_headers_are_found(fields, extra, keys, escaped);
    assert forall|i: int| 0 <= i < fields.len() implies value_of(
        read,
        encode_utf8((#[trigger] fields[i]).0),
    ) == encoded_value(fields[i].1, escaped) by {
        lemma_field_value(fields, i);
        assert(is_among(encode_utf8(fields[i].0), keys));
    }
    if m is Message {
        lemma_message_headers_are_text(m, extra);
    }
    let shown = as_delivered(m, extra).content;
    assert(server_fields(shown) == fields);
    lemma_server_content(shown, FrameView { headers: read, ..frame });
}

/// All headers of a MESSAGE are read as text.
proof fn lemma_message_headers_are_text(m: FromServerView, extra: Seq<(Seq<u8>, Seq<u8>)>)
    requires
        m is Message,
        is_delivered(m, extra),
    ensures
        header_texts(encoded_headers(server_frame(m, extra).headers, true)) == Ok::<
            Seq<(Seq<char>, Seq<char>)>,
            ErrorView,
        >(decoded_texts(server_frame(m, extra).headers)),
{
    let fields = server_fields(m);
    let own = field_headers(fields);
    let all = server_frame(m, extra).headers;
    lemma_server_fields_are_named(m);
    if let FromServerView::Message { destination, message_id, subscription, ack, .. } = m {
        encode_utf8_valid_utf8(destination);
        encode_utf8_valid_utf8(message_id);
        encode_utf8_valid_utf8(subscription);
        if let Some(v) = ack {
            encode_utf8_valid_utf8(v);
        }
        assert forall|i: int| 0 <= i < fields.len() implies is_name((#[trigger] fields[i]).0) && (
        fields[i].1 matches Some(v) ==> valid_utf8(v)) by {}
    }
    lemma_field_headers_are_text(fields);
    assert forall|i: int| 0 <= i < all.len() implies header_is_text(#[trigger] all[i]) by {
        if i < own.len() {
            assert(all[i] == own[i]);
        } else {
            assert(all[i] == extra[i - own.len()]);
            assert(extra_is_delivered(m, extra[i - own.len()]));
        }
    }
    lemma_headers_are_text(all);
}

/// What a server sends is what the client gets: the bytes of its frame, whatever
/// follows them, are decoded as the message that it was sent for, and exactly
/// those bytes are used up, with a line ending behind them if there is one.
pub proof fn law_server_message_is_delivered(
    m: FromServerView,
    extra: Seq<(Seq<u8>, Seq<u8>)>,
    rest: Seq<u8>,
    max_frame_size: usize,
)
    requires
        is_delivered(m, extra),
    ensures
        decoded(wire(server_frame(m, extra)) + rest, max_frame_size).0 == Ok::<
            Option<MessageView<FromServerView>>,
            ErrorView,
        >(Some(as_delivered(m, extra))),
        decoded(wire(server_frame(m, extra)) + rest, max_frame_size).1 == skip_line_ending(
            wire(server_frame(m, extra)) + rest,
            wire(server_frame(m, extra)).len() as int,
        ),
{
    let frame = server_frame(m, extra);
    let s = wire(frame) + rest;
    lemma_server_message(m, extra);
    law_frame_is_read_back(frame, rest);
    assert(s[0] == frame.command[0]);
    assert(skip_line_ending(s, 0) == 0);
    lemma_start_without_beats(s, Seq::empty());
    assert(s + Seq::<u8>::empty() =~= s);
    assert(s.skip(0) =~= s);
}

/// A MESSAGE with a header that is not UTF-8 is refused: there is an error, and
/// never a message with that header made up or left out.
pub proof fn law_message_with_a_bad_header_is_refused(f: FrameView, i: int)
    requires
        crate::convert::server_command(f.command) == Some(ServerCommand::Message),
        0 <= i < f.headers.len(),
        header_text(f.headers[i]) is Err,
    ensures
        server_message(f) is Err,
{
    lemma_bad_header_is_found(f.headers, i);
}

} // verus!
