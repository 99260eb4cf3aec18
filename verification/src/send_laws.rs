//! What a SEND carries is what the other side reads: its body above all,
//! whatever bytes it holds.

use crate::compose::{
    encoded_texts, header_of, headers_of, message_frame, needs_length, requested_headers,
    send_headers, text_header,
};
use crate::convert::{
    client_command, client_keys, client_message, header_text, header_texts, is_among, without,
    ClientCommand,
};
use crate::error::ErrorView;
use crate::escape::{escape, law_unescape_undoes_escape, NUL};
use crate::frame::{encoded, has_header, not_in, wire, FrameView};
use crate::grammar::unterminated_frame_at;
use crate::message_laws::{
    field_headers, fields_of, lemma_encoded_headers_add, lemma_fetched, lemma_field_headers,
    lemma_field_value, lemma_fields_are_named, lemma_fields_differ, lemma_headers_are_fields,
    lemma_headers_are_found, lemma_length_is_no_field, lemma_own_name_is_plain, lemma_value_of_add,
    lemma_value_of_is_header, other_headers,
};
use crate::model::{MessageView, ToServerView};
use crate::names::{is_plain, lemma_command_names, lemma_header_names, lemma_name_is_plain};
use crate::text::{decimal, law_decimal_is_read_back, lemma_decimal_digits, lemma_decimal_is_utf8};
use crate::wire_laws::{
    distinct_body, distinct_on_wire, encoded_headers, law_frame_is_read_back, lemma_escape_plain,
};
use vstd::prelude::*;
use vstd::utf8::*;

verus! {

/// Whether a header is read as the text that it is: it has a name that needs no
/// escaping, and both parts are UTF-8.
pub open spec fn header_is_text(h: (Seq<u8>, Seq<u8>)) -> bool {
    h.0.len() > 0 && is_plain(h.0) && valid_utf8(h.0) && valid_utf8(h.1)
}

/// Whether a header that the caller adds to a SEND is read back: it is text, and
/// no field has its name.
pub open spec fn header_is_kept(h: (Seq<u8>, Seq<u8>)) -> bool {
    header_is_text(h) && !is_among(h.0, client_keys(ClientCommand::Send))
}

/// Whether all headers of a list are read back.
pub open spec fn headers_are_kept(hs: Seq<(Seq<u8>, Seq<u8>)>) -> bool {
    forall|i: int| 0 <= i < hs.len() ==> header_is_kept(#[trigger] hs[i])
}

/// The headers that the caller gives a SEND.
pub open spec fn custom_headers(m: ToServerView) -> Seq<(Seq<u8>, Seq<u8>)> {
    match m {
        ToServerView::Send { headers: Some(hs), .. } => encoded_texts(hs),
        _ => Seq::empty(),
    }
}

/// Whether all headers that the caller adds to a SEND are read back.
pub open spec fn send_is_kept(m: MessageView<ToServerView>) -> bool {
    &&& m.content is Send
    &&& headers_are_kept(custom_headers(m.content))
    &&& headers_are_kept(m.extra_headers)
}

/// The text of headers.
pub open spec fn decoded_texts(hs: Seq<(Seq<u8>, Seq<u8>)>) -> Seq<(Seq<char>, Seq<char>)> {
    hs.map_values(|h: (Seq<u8>, Seq<u8>)| (decode_utf8(h.0), decode_utf8(h.1)))
}

/// A SEND as the other side reads it: every header that is not that of a field
/// is among the headers of the content, and as it stood on the wire among the
/// extra headers.
pub open spec fn as_received(m: MessageView<ToServerView>) -> MessageView<ToServerView> {
    let others = other_headers(m);
    match m.content {
        ToServerView::Send { destination, transaction, body, .. } => MessageView {
            content: ToServerView::Send {
                destination,
                transaction,
                headers: if others.len() == 0 {
                    None
                } else {
                    Some(decoded_texts(others))
                },
                body,
            },
            extra_headers: encoded_headers(others, true),
        },
        _ => m,
    }
}

/// Some of the headers that are kept are kept.
proof fn lemma_not_in_is_kept(extra: Seq<(Seq<u8>, Seq<u8>)>, hs: Seq<(Seq<u8>, Seq<u8>)>)
    requires
        headers_are_kept(extra),
    ensures
        headers_are_kept(not_in(extra, hs)),
    decreases extra.len(),
{
    if extra.len() > 0 {
        let init = extra.drop_last();
        assert forall|i: int| 0 <= i < init.len() implies header_is_kept(#[trigger] init[i]) by {
            assert(init[i] == extra[i]);
        }
        lemma_not_in_is_kept(init, hs);
        assert(header_is_kept(extra[extra.len() - 1]));
    }
}

/// The length of a body is a header that is kept.
proof fn lemma_length_is_kept(n: nat)
    ensures
        header_is_kept((encode_utf8("content-length"@), decimal(n))),
{
    lemma_header_names();
    lemma_name_is_plain("content-length"@);
    lemma_length_is_no_field(ClientCommand::Send);
    lemma_decimal_is_utf8(n);
}

/// All headers that do not come from fields are kept.
proof fn lemma_others_are_kept(m: MessageView<ToServerView>)
    requires
        send_is_kept(m),
    ensures
        headers_are_kept(other_headers(m)),
{
    let others = other_headers(m);
    let custom = custom_headers(m.content);
    let extra = not_in(m.extra_headers, headers_of(m.content));
    lemma_not_in_is_kept(m.extra_headers, headers_of(m.content));
    if let ToServerView::Send { destination, transaction, headers, body } = m.content {
        let length = if needs_length(requested_headers(destination, transaction, headers), body) {
            header_of("content-length"@, Some(decimal(body->0.len())))
        } else {
            Seq::empty()
        };
        assert(others == custom + length + extra);
        if length.len() > 0 {
            lemma_length_is_kept(body->0.len());
        }
        assert forall|i: int| 0 <= i < others.len() implies header_is_kept(
            #[trigger] others[i],
        ) by {
            if i < custom.len() {
                assert(others[i] == custom[i]);
            } else if i < custom.len() + length.len() {
                assert(others[i] == length[i - custom.len()]);
            } else {
                assert(others[i] == extra[i - custom.len() - length.len()]);
            }
        }
    }
}

/// Headers that are text are read as that text.
pub proof fn lemma_headers_are_text(hs: Seq<(Seq<u8>, Seq<u8>)>)
    requires
        forall|i: int| 0 <= i < hs.len() ==> header_is_text(#[trigger] hs[i]),
    ensures
        header_texts(encoded_headers(hs, true)) == Ok::<Seq<(Seq<char>, Seq<char>)>, ErrorView>(
            decoded_texts(hs),
        ),
    decreases hs.len(),
{
    let read = encoded_headers(hs, true);
    if hs.len() == 0 {
        assert(decoded_texts(hs) =~= Seq::<(Seq<char>, Seq<char>)>::empty());
    } else {
        let init = hs.drop_last();
        let last = hs[hs.len() - 1];
        assert forall|i: int| 0 <= i < init.len() implies header_is_text(#[trigger] init[i]) by {
            assert(init[i] == hs[i]);
        }
        lemma_headers_are_text(init);
        assert(read.drop_last() =~= encoded_headers(init, true));
        assert(header_is_text(last));
        lemma_escape_plain(last.0);
        law_unescape_undoes_escape(last.1);
        assert(read.last() == (escape(last.0), escape(last.1)));
        assert(decoded_texts(hs) =~= decoded_texts(init).push(
            (decode_utf8(last.0), decode_utf8(last.1)),
        ));
    }
}

/// A SEND is read back: its frame, as it stands on the wire and whatever follows
/// it there, gives its destination, its transaction, its headers and its body.
/// The end of the body has to be told by its length or by a null byte.
pub proof fn law_send_is_read_back(m: MessageView<ToServerView>, rest: Seq<u8>)
    requires
        send_is_kept(m),
        distinct_body(encoded_headers(message_frame(m).headers, true), message_frame(m).body),
    ensures
        unterminated_frame_at(wire(message_frame(m)) + rest) matches Ok((frame, end)) && end
            == wire(message_frame(m)).len() && client_message(frame) == Ok::<
            MessageView<ToServerView>,
            ErrorView,
        >(as_received(m)),
{
    let frame = message_frame(m);
    let fields = fields_of(m.content);
    let own = field_headers(fields);
    let others = other_headers(m);
    let keys = client_keys(ClientCommand::Send);
    let read = encoded_headers(frame.headers, true);
    lemma_command_names(ClientCommand::Send);
    lemma_headers_are_fields(m);
    lemma_fields_are_named(m.content);
    lemma_field_headers(fields, keys, true);
    lemma_others_are_kept(m);
    assert forall|i: int| 0 <= i < frame.headers.len() implies distinct_on_wire(
        #[trigger] frame.headers[i],
        true,
    ) by {
        if i < own.len() {
            assert(frame.headers[i] == own[i]);
        } else {
            assert(frame.headers[i] == others[i - own.len()]);
        }
    }
    law_frame_is_read_back(frame, rest);
    assert forall|i: int| 0 <= i < others.len() implies !is_among(
        encoded((#[trigger] others[i]).0, true),
        keys,
    ) by {
        assert(header_is_kept(others[i]));
        lemma_escape_plain(others[i].0);
    }
    lemma_headers_are_found(fields, others, keys, true);
    assert forall|i: int| 0 <= i < others.len() implies header_is_text(#[trigger] others[i]) by {
        assert(header_is_kept(others[i]));
    }
    lemma_headers_are_text(others);
    lemma_fields_differ(m.content);
    if let ToServerView::Send { destination, transaction, body, .. } = m.content {
        lemma_field_value(fields, 0);
        assert(fields[0].0 == "destination"@);
        assert(is_among(encode_utf8(fields[0].0), keys));
        lemma_fetched(read, "destination"@, Some(destination));
        lemma_field_value(fields, 1);
        assert(fields[1].0 == "transaction"@);
        assert(is_among(encode_utf8(fields[1].0), keys));
        lemma_fetched(read, "transaction"@, transaction);
    }
}

/// The length of a body is given once: where the caller gives it, nothing is
/// added; where the body holds a null byte, there is one; and where it holds
/// none, it stays off.
pub proof fn law_length_is_never_doubled(
    destination: Seq<char>,
    transaction: Option<Seq<char>>,
    headers: Option<Seq<(Seq<char>, Seq<char>)>>,
    body: Option<Seq<u8>>,
)
    ensures
        ({
            let length = encode_utf8("content-length"@);
            let requested = requested_headers(destination, transaction, headers);
            let sent = send_headers(destination, transaction, headers, body);
            &&& has_header(requested, length) ==> sent == requested
            &&& !has_header(requested, length) ==> forall|i: int, j: int|
                0 <= i < sent.len() && 0 <= j < sent.len() && (#[trigger] sent[i]).0 == length && (
                #[trigger] sent[j]).0 == length ==> i == j
            &&& (body matches Some(b) && b.contains(NUL)) ==> has_header(sent, length)
            &&& !(body matches Some(b) && b.contains(NUL)) ==> sent == requested
        }),
{
    let length = encode_utf8("content-length"@);
    let requested = requested_headers(destination, transaction, headers);
    let sent = send_headers(destination, transaction, headers, body);
    if needs_length(requested, body) {
        assert(sent[requested.len() as int].0 == length);
        assert forall|i: int, j: int|
            0 <= i < sent.len() && 0 <= j < sent.len() && (#[trigger] sent[i]).0 == length && (
            #[trigger] sent[j]).0 == length implies i == j by {
            if i < requested.len() {
                assert(requested[i] == sent[i]);
            }
            if j < requested.len() {
                assert(requested[j] == sent[j]);
            }
        }
    }
}

/// The headers that a SEND asks for are those of its fields, and the caller's.
proof fn lemma_requested_headers(m: ToServerView)
    requires
        m is Send,
    ensures
        m matches ToServerView::Send { destination, transaction, headers, .. }
            && requested_headers(destination, transaction, headers) == field_headers(fields_of(m))
            + custom_headers(m),
{
    if let ToServerView::Send { destination, transaction, headers, body } = m {
        let fields = fields_of(m);
        reveal_with_fuel(field_headers, 3);
        assert(fields.drop_last() =~= fields.take(1));
        assert(fields.drop_last().drop_last() =~= fields.take(0));
        assert(field_headers(fields) =~= text_header("destination"@, Some(destination))
            + text_header("transaction"@, transaction));
    }
}

/// No field is the length of the body.
proof fn lemma_fields_have_no_length(m: ToServerView)
    requires
        m is Send,
    ensures
        !has_header(field_headers(fields_of(m)), encode_utf8("content-length"@)),
{
    let fields = fields_of(m);
    let own = field_headers(fields);
    let length = encode_utf8("content-length"@);
    lemma_fields_are_named(m);
    lemma_field_headers(fields, client_keys(ClientCommand::Send), true);
    lemma_length_is_no_field(ClientCommand::Send);
    if has_header(own, length) {
        let i = choose|i: int| 0 <= i < own.len() && (#[trigger] own[i]).0 == length;
        assert(is_among(own[i].0, client_keys(ClientCommand::Send)));
    }
}

/// A header is in two lists if it is in one of them.
proof fn lemma_has_header_add(
    a: Seq<(Seq<u8>, Seq<u8>)>,
    b: Seq<(Seq<u8>, Seq<u8>)>,
    key: Seq<u8>,
)
    ensures
        has_header(a + b, key) <==> has_header(a, key) || has_header(b, key),
{
    lemma_value_of_add(a, b, key);
    lemma_value_of_is_header(a, key);
    lemma_value_of_is_header(b, key);
    lemma_value_of_is_header(a + b, key);
}

/// Extra headers whose names are taken are dropped.
proof fn lemma_not_in_everything(extra: Seq<(Seq<u8>, Seq<u8>)>, hs: Seq<(Seq<u8>, Seq<u8>)>)
    requires
        forall|i: int| 0 <= i < extra.len() ==> has_header(hs, (#[trigger] extra[i]).0),
    ensures
        not_in(extra, hs) == Seq::<(Seq<u8>, Seq<u8>)>::empty(),
    decreases extra.len(),
{
    if extra.len() > 0 {
        let init = extra.drop_last();
        assert forall|i: int| 0 <= i < init.len() implies has_header(
            hs,
            (#[trigger] init[i]).0,
        ) by {
            assert(init[i] == extra[i]);
        }
        lemma_not_in_everything(init, hs);
        assert(extra.last() == extra[extra.len() - 1]);
    }
}

/// Where the body holds a null byte, its length is sent.
proof fn lemma_length_is_sent(m: MessageView<ToServerView>)
    requires
        m.content is Send,
        m.content->Send_body matches Some(b) && b.contains(NUL),
    ensures
        has_header(other_headers(m), encode_utf8("content-length"@)),
{
    let length = encode_utf8("content-length"@);
    let custom = custom_headers(m.content);
    let extra = not_in(m.extra_headers, headers_of(m.content));
    lemma_requested_headers(m.content);
    lemma_fields_have_no_length(m.content);
    if let ToServerView::Send { destination, transaction, headers, body } = m.content {
        let requested = requested_headers(destination, transaction, headers);
        let added = if needs_length(requested, body) {
            header_of("content-length"@, Some(decimal(body->0.len())))
        } else {
            Seq::empty()
        };
        assert(other_headers(m) == custom + added + extra);
        lemma_has_header_add(field_headers(fields_of(m.content)), custom, length);
        lemma_has_header_add(custom, added, length);
        lemma_has_header_add(custom + added, extra, length);
        if needs_length(requested, body) {
            assert(added[0].0 == length);
        }
    }
}

/// Reading a SEND and writing it again gives the same frame, and so the same
/// bytes.
pub proof fn law_received_send_is_written_alike(m: MessageView<ToServerView>)
    requires
        send_is_kept(m),
    ensures
        message_frame(as_received(m)) == message_frame(m),
        wire(message_frame(as_received(m))) == wire(message_frame(m)),
{
    let again = as_received(m);
    let others = other_headers(m);
    let own = field_headers(fields_of(m.content));
    let length = encode_utf8("content-length"@);
    lemma_others_are_kept(m);
    lemma_headers_are_fields(m);
    lemma_headers_are_fields(again);
    lemma_requested_headers(again.content);
    assert(fields_of(again.content) == fields_of(m.content));

    // The caller's headers are now all the others
    assert(custom_headers(again.content) =~= others) by {
        assert forall|i: int| 0 <= i < others.len() implies encode_utf8(
            decode_utf8((#[trigger] others[i]).0),
        ) == others[i].0 && encode_utf8(decode_utf8(others[i].1)) == others[i].1 by {
            assert(header_is_kept(others[i]));
            decode_utf8_encode_utf8(others[i].0);
            decode_utf8_encode_utf8(others[i].1);
        }
    }
    if let ToServerView::Send { destination, transaction, headers, body } = again.content {
        let requested = requested_headers(destination, transaction, headers);
        assert(requested == own + others);
        lemma_has_header_add(own, others, length);
        if body matches Some(b) && b.contains(NUL) {
            lemma_length_is_sent(m);
        }
        assert(!needs_length(requested, body));

        // No extra header has a name of its own
        assert forall|i: int| 0 <= i < again.extra_headers.len() implies has_header(
            requested,
            (#[trigger] again.extra_headers[i]).0,
        ) by {
            assert(header_is_kept(others[i]));
            lemma_escape_plain(others[i].0);
            assert(again.extra_headers[i].0 == others[i].0);
            assert(requested[own.len() + i] == others[i]);
        }
        lemma_not_in_everything(again.extra_headers, requested);
        assert(other_headers(again) =~= others);
    }
}

/// A SEND without extra headers whose body holds no null byte is read back as it
/// is.
pub proof fn law_plain_send_is_unchanged(m: MessageView<ToServerView>)
    requires
        m.content matches ToServerView::Send { headers, body, .. } && (headers matches Some(hs)
            ==> hs.len() > 0) && !(body matches Some(b) && b.contains(NUL)),
        m.extra_headers.len() == 0,
    ensures
        as_received(m).content == m.content,
{
    assert(other_headers(m) =~= custom_headers(m.content));
    if let ToServerView::Send { headers: Some(hs), .. } = m.content {
        assert(decoded_texts(encoded_texts(hs)) =~= hs) by {
            assert forall|i: int| 0 <= i < hs.len() implies decode_utf8(
                encode_utf8((#[trigger] hs[i]).0),
            ) == hs[i].0 && decode_utf8(encode_utf8(hs[i].1)) == hs[i].1 by {
                encode_utf8_decode_utf8(hs[i].0);
                encode_utf8_decode_utf8(hs[i].1);
            }
        }
    }
}

/// Digits need no escaping.
proof fn lemma_digits_are_plain(n: nat)
    ensures
        escape(decimal(n)) == decimal(n),
{
    lemma_decimal_digits(n);
    let digits = decimal(n);
    assert forall|i: int| 0 <= i < digits.len() implies (#[trigger] digits[i])
        != crate::escape::BACKSLASH by {}
    lemma_escape_plain(digits);
}

/// A body of any bytes, null bytes among them, is read back whole, up to the
/// length that can be given: the library supplies the length where it is needed.
/// A caller who gives a length of their own is not overruled, so none is given
/// here.
#[verifier::rlimit(50)]
pub proof fn law_any_body_is_read_back(m: MessageView<ToServerView>, rest: Seq<u8>)
    requires
        send_is_kept(m),
        m.content->Send_body matches Some(b) && b.len() > 0 && (b.contains(NUL) ==> b.len()
            <= u32::MAX),
        !has_header(custom_headers(m.content), encode_utf8("content-length"@)),
        !has_header(m.extra_headers, encode_utf8("content-length"@)),
    ensures
        distinct_body(encoded_headers(message_frame(m).headers, true), message_frame(m).body),
        unterminated_frame_at(wire(message_frame(m)) + rest) matches Ok((frame, _)) && frame.body
            == m.content->Send_body,
        as_received(m).content->Send_body == m.content->Send_body,
{
    let frame = message_frame(m);
    let own = field_headers(fields_of(m.content));
    let others = other_headers(m);
    let custom = custom_headers(m.content);
    let extra = not_in(m.extra_headers, headers_of(m.content));
    let read = encoded_headers(frame.headers, true);
    let length = encode_utf8("content-length"@);
    lemma_headers_are_fields(m);
    lemma_requested_headers(m.content);
    lemma_fields_have_no_length(m.content);
    lemma_others_are_kept(m);
    lemma_not_in_has(m.extra_headers, headers_of(m.content), length);
    if let ToServerView::Send { destination, transaction, headers, body } = m.content {
        let requested = requested_headers(destination, transaction, headers);
        let b = body->0;
        lemma_has_header_add(own, custom, length);
        assert(needs_length(requested, body) <==> b.contains(NUL));
        let added = if b.contains(NUL) {
            header_of("content-length"@, Some(decimal(b.len())))
        } else {
            Seq::empty()
        };
        assert(others == custom + added + extra);

        // Names stand on the wire as they are
        lemma_names_on_wire(m);
        assert(forall|i: int| 0 <= i < read.len() ==> (#[trigger] read[i]).0 == frame.headers[i].0);
        lemma_same_names(read, frame.headers, length);
        lemma_has_header_add(own, others, length);
        lemma_has_header_add(custom + added, extra, length);
        lemma_has_header_add(custom, added, length);
        lemma_value_of_is_header(read, length);
        if b.contains(NUL) {
            assert(added[0].0 == length);
            // The first header of that name is the one that was added
            let before = own + custom;
            lemma_has_header_add(own, custom, length);
            lemma_encoded_headers_add(before, added + extra, true);
            assert(frame.headers =~= before + (added + extra));
            let first = encoded_headers(before, true);
            assert forall|i: int| 0 <= i < first.len() implies (#[trigger] first[i]).0
                == before[i].0 by {
                assert(read[i].0 == frame.headers[i].0);
                assert(read[i] == first[i]);
            }
            lemma_same_names(first, before, length);
            lemma_value_of_is_header(first, length);
            let second = encoded_headers(added + extra, true);
            lemma_value_of_add(first, second, length);
            lemma_header_names();
            lemma_name_is_plain("content-length"@);
            lemma_digits_are_plain(b.len());
            assert(second[0] == (escape(length), escape(decimal(b.len()))));
            law_decimal_is_read_back(b.len() as u32);
        } else {
            assert(!has_header(added, length));
        }
    }
    law_send_is_read_back(m, rest);
}

/// A header that is not among extra headers is not among those that are sent.
pub proof fn lemma_not_in_has(
    extra: Seq<(Seq<u8>, Seq<u8>)>,
    hs: Seq<(Seq<u8>, Seq<u8>)>,
    key: Seq<u8>,
)
    requires
        !has_header(extra, key),
    ensures
        !has_header(not_in(extra, hs), key),
    decreases extra.len(),
{
    if extra.len() > 0 {
        let init = extra.drop_last();
        assert(!has_header(init, key)) by {
            assert forall|i: int| 0 <= i < init.len() implies (#[trigger] init[i]).0 != key by {
                assert(init[i] == extra[i]);
            }
        }
        lemma_not_in_has(init, hs, key);
        assert(extra[extra.len() - 1].0 != key);
        let kept = not_in(extra, hs);
        let kept_init = not_in(init, hs);
        assert forall|i: int| 0 <= i < kept.len() implies (#[trigger] kept[i]).0 != key by {
            if i < kept_init.len() {
                assert(kept[i] == kept_init[i]);
            }
        }
    }
}

/// Lists of headers with the same names have the same headers.
proof fn lemma_same_names(
    a: Seq<(Seq<u8>, Seq<u8>)>,
    b: Seq<(Seq<u8>, Seq<u8>)>,
    key: Seq<u8>,
)
    requires
        a.len() == b.len(),
        forall|i: int| 0 <= i < a.len() ==> (#[trigger] a[i]).0 == b[i].0,
    ensures
        has_header(a, key) <==> has_header(b, key),
{
    if has_header(a, key) {
        let i = choose|i: int| 0 <= i < a.len() && (#[trigger] a[i]).0 == key;
        assert(b[i].0 == key);
    }
    if has_header(b, key) {
        let i = choose|i: int| 0 <= i < b.len() && (#[trigger] b[i]).0 == key;
        assert(a[i].0 == key);
    }
}

/// The names of the headers of a SEND that is kept stand on the wire as they are.
proof fn lemma_names_on_wire(m: MessageView<ToServerView>)
    requires
        send_is_kept(m),
    ensures
        forall|i: int|
            0 <= i < message_frame(m).headers.len() ==> (#[trigger] encoded_headers(
                message_frame(m).headers,
                true,
            )[i]).0 == message_frame(m).headers[i].0,
{
    let hs = message_frame(m).headers;
    let own = field_headers(fields_of(m.content));
    let others = other_headers(m);
    lemma_headers_are_fields(m);
    lemma_others_are_kept(m);
    lemma_fields_are_named(m.content);
    assert forall|i: int| 0 <= i < hs.len() implies (#[trigger] encoded_headers(hs, true)[i]).0
        == hs[i].0 by {
        if i < own.len() {
            lemma_own_name_is_plain(fields_of(m.content), client_keys(ClientCommand::Send), i);
            assert(hs[i] == own[i]);
        } else {
            assert(hs[i] == others[i - own.len()]);
            assert(header_is_kept(others[i - own.len()]));
            lemma_escape_plain(hs[i].0);
        }
    }
}

/// The text of headers stops at the first that is not text.
pub proof fn lemma_bad_header_is_found(hs: Seq<(Seq<u8>, Seq<u8>)>, i: int)
    requires
        0 <= i < hs.len(),
        header_text(hs[i]) is Err,
    ensures
        header_texts(hs) is Err,
    decreases hs.len(),
{
    if i < hs.len() - 1 {
        assert(hs.drop_last()[i] == hs[i]);
        lemma_bad_header_is_found(hs.drop_last(), i);
    } else {
        assert(hs.last() == hs[i]);
    }
}

/// A header whose name is not among `keys` is left.
proof fn lemma_without_keeps(hs: Seq<(Seq<u8>, Seq<u8>)>, keys: Seq<Seq<char>>, i: int) -> (j: int)
    requires
        0 <= i < hs.len(),
        !is_among(hs[i].0, keys),
    ensures
        0 <= j < without(hs, keys).len(),
        without(hs, keys)[j] == hs[i],
    decreases hs.len(),
{
    if i < hs.len() - 1 {
        assert(hs.drop_last()[i] == hs[i]);
        lemma_without_keeps(hs.drop_last(), keys, i)
    } else {
        assert(hs.last() == hs[i]);
        without(hs, keys).len() - 1
    }
}

/// A SEND with a header that is not UTF-8 is refused, unless a field has its
/// name, which is then read by the rules for that field.
pub proof fn law_send_with_a_bad_header_is_refused(f: FrameView, i: int)
    requires
        client_command(f.command) == Some(ClientCommand::Send),
        0 <= i < f.headers.len(),
        !is_among(f.headers[i].0, client_keys(ClientCommand::Send)),
        header_text(f.headers[i]) is Err,
    ensures
        client_message(f) is Err,
{
    let j = lemma_without_keeps(f.headers, client_keys(ClientCommand::Send), i);
    lemma_bad_header_is_found(without(f.headers, client_keys(ClientCommand::Send)), j);
}

} // verus!
