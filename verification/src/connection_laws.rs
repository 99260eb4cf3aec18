//! The laws of connecting: what a CONNECT carries, which answers are taken, and
//! how messages follow one another.

use crate::buffer::has_room;
use crate::client::{accepted, closing_after, connect_request, content_of, encoded_onto, Closing};
use crate::compose::{encoded_texts, headers_of, message_frame};
use crate::convert::{client_keys, ClientCommand};
use crate::error::ErrorView;
use crate::escape::{COLON, LF, NUL};
use crate::frame::{has_header, header_line, header_lines, not_in, wire};
use crate::grammar::value_of;
use crate::heartbeat::heartbeat_bytes;
use crate::message_laws::{
    field_headers, fields_of, lemma_field_is_found, lemma_field_value, lemma_fields_are_named,
    lemma_fields_differ, lemma_headers_are_fields, lemma_value_of_add, lemma_value_of_is_header,
};
use crate::model::{FromServerView, MessageView, ToServerView};
use crate::names::lemma_command_names;
use crate::show::shown_reply;
use crate::wire_laws::encoded_headers;
use vstd::prelude::*;
use vstd::utf8::*;

verus! {

/// Headers of a CONNECT go out verbatim: a login or a passcode reaches the server
/// with every colon and backslash that it has.
pub proof fn law_connect_headers_are_verbatim(m: MessageView<ToServerView>)
    requires
        m.content is Connect,
    ensures
        wire(message_frame(m)) == encode_utf8("CONNECT"@) + seq![LF] + header_lines(
            message_frame(m).headers,
            false,
        ) + seq![LF] + seq![NUL],
        forall|h: (Seq<u8>, Seq<u8>)| #[trigger]
            header_line(h, false) == h.0 + seq![COLON] + h.1 + seq![LF],
{
    lemma_command_names(ClientCommand::Connect);
    assert(wire(message_frame(m)) =~= encode_utf8("CONNECT"@) + seq![LF] + header_lines(
        message_frame(m).headers,
        false,
    ) + seq![LF] + seq![NUL]);
}

/// What was never asked for is not sent: without options a CONNECT offers its
/// version and names its host, and nothing else.
pub proof fn law_options_are_left_out(host: Seq<char>)
    ensures
        message_frame(connect_request(host, None, None, Seq::empty(), None)).headers == seq![
            (encode_utf8("accept-version"@), encode_utf8("1.2"@)),
            (encode_utf8("host"@), encode_utf8(host)),
        ],
        message_frame(connect_request(host, None, None, Seq::empty(), None)).body is None,
{
    let m = connect_request(host, None, None, Seq::empty(), None);
    assert(m.extra_headers =~= Seq::<(Seq<u8>, Seq<u8>)>::empty());
    assert(not_in(m.extra_headers, headers_of(m.content)) =~= Seq::<(Seq<u8>, Seq<u8>)>::empty());
    assert(message_frame(m).headers =~= seq![
        (encode_utf8("accept-version"@), encode_utf8("1.2"@)),
        (encode_utf8("host"@), encode_utf8(host)),
    ]);
}

/// Extra headers never override: a header that the content of a message has
/// keeps its value, whatever extra headers there are.
pub proof fn law_extra_headers_never_override(m: MessageView<ToServerView>, key: Seq<u8>)
    requires
        has_header(headers_of(m.content), key),
    ensures
        value_of(message_frame(m).headers, key) == value_of(headers_of(m.content), key),
{
    let own = headers_of(m.content);
    lemma_value_of_is_header(own, key);
    lemma_value_of_add(own, not_in(m.extra_headers, own), key);
}

/// The heart-beats that a connection asks for are those that its CONNECT frame
/// names, and without a request the frame names none, unless an extra header
/// does.
pub proof fn law_connect_carries_the_heartbeat(
    host: Seq<char>,
    login: Option<Seq<char>>,
    passcode: Option<Seq<char>>,
    headers: Seq<(Seq<char>, Seq<char>)>,
    heartbeat: Option<(u32, u32)>,
)
    requires
        !has_header(encoded_texts(headers), encode_utf8("heart-beat"@)),
    ensures
        value_of(
            message_frame(connect_request(host, login, passcode, headers, heartbeat)).headers,
            encode_utf8("heart-beat"@),
        ) == (match heartbeat {
            Some(intervals) => Some(heartbeat_bytes(intervals)),
            None => None,
        }),
{
    let m = connect_request(host, login, passcode, headers, heartbeat);
    let fields = fields_of(m.content);
    let own = field_headers(fields);
    let key = encode_utf8("heart-beat"@);
    let extra = not_in(m.extra_headers, headers_of(m.content));
    lemma_headers_are_fields(m);
    lemma_fields_are_named(m.content);
    lemma_fields_differ(m.content);
    lemma_field_value(fields, 3);
    assert(fields[3].0 == "heart-beat"@);
    lemma_field_is_found(fields, client_keys(ClientCommand::Connect), false, "heart-beat"@);
    assert(encoded_headers(own, false) =~= own);
    lemma_value_of_add(own, extra, key);
    crate::send_laws::lemma_not_in_has(m.extra_headers, headers_of(m.content), key);
    lemma_value_of_is_header(extra, key);
}

/// Only the version that was offered is taken: a connection is accepted exactly
/// if the first message from the server is a CONNECTED for version 1.2, and its
/// heart-beats, where some were asked for, can be read. Anything but a CONNECTED
/// is an error that shows what came instead.
pub proof fn law_only_version_1_2_is_accepted(
    reply: Option<MessageView<FromServerView>>,
    requested: Option<(u32, u32)>,
)
    ensures
        accepted(reply, requested) is Ok ==> (content_of(reply) matches Some(
            FromServerView::Connected { version, .. },
        ) && version == "1.2"@),
        requested is None && (content_of(reply) matches Some(
            FromServerView::Connected { version, .. },
        ) && version == "1.2"@) ==> accepted(reply, requested) is Ok,
        !(content_of(reply) matches Some(FromServerView::Connected { .. })) ==> accepted(
            reply,
            requested,
        ) == Err::<(Option<u32>, Option<u32>), ErrorView>(
            ErrorView::UnexpectedReply(shown_reply(reply)),
        ),
{
}

/// Nobody beats unless both sides agreed to it: without a request, or where the
/// server names no heart-beats, there are none; and an interval that holds is no
/// shorter than the one that the client asked for.
pub proof fn law_heartbeats_need_agreement(
    reply: Option<MessageView<FromServerView>>,
    requested: Option<(u32, u32)>,
)
    ensures
        accepted(reply, requested) matches Ok((outgoing, incoming)) ==> {
            &&& requested is None ==> outgoing is None && incoming is None
            &&& (content_of(reply) matches Some(FromServerView::Connected { heartbeat: None, .. }))
                ==> outgoing is None && incoming is None
            &&& outgoing matches Some(interval) ==> requested matches Some(asked) && asked.0 > 0
                && interval >= asked.0
            &&& incoming matches Some(interval) ==> requested matches Some(asked) && asked.1 > 0
                && interval >= asked.1
        },
{
}

/// A shutdown counts as acknowledged exactly when the receipt that it asked for
/// comes back.
pub proof fn law_only_its_receipt_acknowledges(reply: Option<FromServerView>, receipt: Seq<char>)
    ensures
        closing_after(reply, receipt) == Closing::Acknowledged <==> reply == Some(
            FromServerView::Receipt { receipt_id: receipt },
        ),
{
}

/// Messages are appended whole and in order: encoding one message and then
/// another puts the bytes of the first, and behind them those of the second,
/// behind what was there. Both succeed exactly if all of that fits in a buffer;
/// no bound on what is received applies.
pub proof fn law_messages_are_appended_in_order(
    held: Seq<u8>,
    first: MessageView<ToServerView>,
    second: MessageView<ToServerView>,
)
    ensures
        ({
            let total = held + wire(message_frame(first)) + wire(message_frame(second));
            let fits = has_room(
                held.len(),
                wire(message_frame(first)).len() + wire(message_frame(second)).len(),
            );
            match encoded_onto(held, first) {
                Ok(between) => encoded_onto(between, second) == (if fits {
                    Ok::<Seq<u8>, ErrorView>(total)
                } else {
                    Err::<Seq<u8>, ErrorView>(ErrorView::BufferFull)
                }),
                Err(_) => !fits,
            }
        }),
{
}

} // verus!
