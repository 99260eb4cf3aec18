//! What is sent is what the other side reads: the laws of messages.

use crate::compose::{
    ack_mode_name, command_of, encoded_text, encoded_texts, header_of, headers_of, message_frame,
    needs_length, requested_headers,
};
use crate::convert::{
    client_content, client_keys, client_message, fetched, fetched_raw, is_among, text_of, without,
    ClientCommand,
};
use crate::error::ErrorView;
use crate::escape::{escape, escaped_command, law_unescape_undoes_escape, unescape};
use crate::frame::{encoded, has_header, not_in, wire, FrameView};
use crate::grammar::{content_length, unterminated_frame_at, value_of};
use crate::heartbeat::{heartbeat_bytes, law_heartbeat_is_read_back};
use crate::model::{MessageView, ToServerView};
use crate::names::{
    is_name, is_plain, lemma_command_names, lemma_encode_is_injective, lemma_header_names,
    lemma_name_is_plain,
};
use crate::text::{decimal, lemma_decimal_digits};
use crate::wire_laws::{
    distinct_on_wire, encoded_headers, law_frame_is_read_back, lemma_escape_plain, on_one_line,
    readable,
};
use vstd::prelude::*;
use vstd::utf8::*;

verus! {

/// The value of a header in two lists of headers: the first list decides.
pub proof fn lemma_value_of_add(
    a: Seq<(Seq<u8>, Seq<u8>)>,
    b: Seq<(Seq<u8>, Seq<u8>)>,
    key: Seq<u8>,
)
    ensures
        value_of(a + b, key) == match value_of(a, key) {
            Some(v) => Some(v),
            None => value_of(b, key),
        },
    decreases a.len(),
{
    if a.len() == 0 {
        assert(a + b =~= b);
    } else {
        assert((a + b).skip(1) =~= a.skip(1) + b);
        assert((a + b)[0] == a[0]);
        lemma_value_of_add(a.skip(1), b, key);
    }
}

/// There is a value exactly if there is a header.
pub proof fn lemma_value_of_is_header(hs: Seq<(Seq<u8>, Seq<u8>)>, key: Seq<u8>)
    ensures
        value_of(hs, key) is Some <==> has_header(hs, key),
    decreases hs.len(),
{
    if hs.len() > 0 {
        let rest = hs.skip(1);
        lemma_value_of_is_header(rest, key);
        if has_header(hs, key) && hs[0].0 != key {
            let i = choose|i: int| 0 <= i < hs.len() && (#[trigger] hs[i]).0 == key;
            assert(rest[i - 1] == hs[i]);
        }
        if has_header(rest, key) {
            let i = choose|i: int| 0 <= i < rest.len() && (#[trigger] rest[i]).0 == key;
            assert(hs[i + 1] == rest[i]);
        }
    }
}

/// What is left of two lists of headers.
proof fn lemma_without_add(
    a: Seq<(Seq<u8>, Seq<u8>)>,
    b: Seq<(Seq<u8>, Seq<u8>)>,
    keys: Seq<Seq<char>>,
)
    ensures
        without(a + b, keys) == without(a, keys) + without(b, keys),
    decreases b.len(),
{
    if b.len() == 0 {
        assert(a + b =~= a);
        assert(without(a, keys) + without(b, keys) =~= without(a, keys));
    } else {
        assert((a + b).drop_last() =~= a + b.drop_last());
        assert((a + b).last() == b.last());
        lemma_without_add(a, b.drop_last(), keys);
        assert(without(a + b, keys) =~= without(a, keys) + without(b, keys));
    }
}

/// Headers with other names are all left.
proof fn lemma_without_nothing(hs: Seq<(Seq<u8>, Seq<u8>)>, keys: Seq<Seq<char>>)
    requires
        forall|i: int| 0 <= i < hs.len() ==> !is_among((#[trigger] hs[i]).0, keys),
    ensures
        without(hs, keys) == hs,
    decreases hs.len(),
{
    if hs.len() > 0 {
        let init = hs.drop_last();
        assert forall|i: int| 0 <= i < init.len() implies !is_among(
            (#[trigger] init[i]).0,
            keys,
        ) by {
            assert(init[i] == hs[i]);
        }
        lemma_without_nothing(init, keys);
        assert(hs.last() == hs[hs.len() - 1]);
        assert(without(hs, keys) =~= hs);
    }
}

pub proof fn lemma_encoded_headers_add(
    a: Seq<(Seq<u8>, Seq<u8>)>,
    b: Seq<(Seq<u8>, Seq<u8>)>,
    escaped: bool,
)
    ensures
        encoded_headers(a + b, escaped) == encoded_headers(a, escaped) + encoded_headers(
            b,
            escaped,
        ),
{
    assert(encoded_headers(a + b, escaped) =~= encoded_headers(a, escaped) + encoded_headers(
        b,
        escaped,
    ));
}

/// The headers for fields that may have a value each.
pub open spec fn field_headers(fields: Seq<(Seq<char>, Option<Seq<u8>>)>) -> Seq<
    (Seq<u8>, Seq<u8>),
>
    decreases fields.len(),
{
    if fields.len() == 0 {
        Seq::empty()
    } else {
        field_headers(fields.drop_last()) + header_of(fields.last().0, fields.last().1)
    }
}

/// The value of the first field of this name that has one.
pub open spec fn field_value(fields: Seq<(Seq<char>, Option<Seq<u8>>)>, key: Seq<char>) -> Option<
    Seq<u8>,
>
    decreases fields.len(),
{
    if fields.len() == 0 {
        None
    } else {
        match field_value(fields.drop_last(), key) {
            Some(v) => Some(v),
            None => if fields.last().0 == key {
                fields.last().1
            } else {
                None
            },
        }
    }
}

/// The fields of a message that its command has headers for.
pub open spec fn fields_of(m: ToServerView) -> Seq<(Seq<char>, Option<Seq<u8>>)> {
    match m {
        ToServerView::Connect { accept_version, host, login, passcode, heartbeat } => seq![
            ("accept-version"@, encoded_text(Some(accept_version))),
            ("host"@, encoded_text(Some(host))),
            ("login"@, encoded_text(login)),
            (
                "heart-beat"@,
                match heartbeat {
                    Some(intervals) => Some(heartbeat_bytes(intervals)),
                    None => None,
                },
            ),
            ("passcode"@, encoded_text(passcode)),
        ],
        ToServerView::Send { destination, transaction, .. } => seq![
            ("destination"@, encoded_text(Some(destination))),
            ("transaction"@, encoded_text(transaction)),
        ],
        ToServerView::Subscribe { destination, id, ack } => seq![
            ("destination"@, encoded_text(Some(destination))),
            ("id"@, encoded_text(Some(id))),
            (
                "ack"@,
                encoded_text(
                    match ack {
                        Some(mode) => Some(ack_mode_name(mode)),
                        None => None,
                    },
                ),
            ),
        ],
        ToServerView::Unsubscribe { id } => seq![("id"@, encoded_text(Some(id)))],
        ToServerView::Ack { id, transaction } => seq![
            ("id"@, encoded_text(Some(id))),
            ("transaction"@, encoded_text(transaction)),
        ],
        ToServerView::Nack { id, transaction } => seq![
            ("id"@, encoded_text(Some(id))),
            ("transaction"@, encoded_text(transaction)),
        ],
        ToServerView::Begin { transaction } => seq![
            ("transaction"@, encoded_text(Some(transaction))),
        ],
        ToServerView::Commit { transaction } => seq![
            ("transaction"@, encoded_text(Some(transaction))),
        ],
        ToServerView::Abort { transaction } => seq![
            ("transaction"@, encoded_text(Some(transaction))),
        ],
        ToServerView::Disconnect { receipt } => seq![("receipt"@, encoded_text(receipt))],
    }
}

/// The headers of a message that do not come from its fields: those that the
/// caller added, and the length of the body where the library supplies it.
pub open spec fn other_headers(m: MessageView<ToServerView>) -> Seq<(Seq<u8>, Seq<u8>)> {
    let extra = not_in(m.extra_headers, headers_of(m.content));
    match m.content {
        ToServerView::Send { destination, transaction, headers, body } => (match headers {
            Some(hs) => encoded_texts(hs),
            None => Seq::empty(),
        }) + (if needs_length(requested_headers(destination, transaction, headers), body) {
            header_of("content-length"@, Some(decimal(body->0.len())))
        } else {
            Seq::empty()
        }) + extra,
        _ => extra,
    }
}

/// The headers of a message are those of its fields, and then the others.
pub proof fn lemma_headers_are_fields(m: MessageView<ToServerView>)
    ensures
        message_frame(m).headers == field_headers(fields_of(m.content)) + other_headers(m),
        m.content is Send || headers_of(m.content) == field_headers(fields_of(m.content)),
{
    let fields = fields_of(m.content);
    reveal_with_fuel(field_headers, 6);
    let n = fields.len();
    if n >= 1 {
        assert(fields.take(0) =~= Seq::<(Seq<char>, Option<Seq<u8>>)>::empty());
        assert(fields.drop_last() =~= fields.take(n - 1));
    }
    if n >= 2 {
        assert(fields.drop_last().drop_last() =~= fields.take(n - 2));
    }
    if n >= 3 {
        assert(fields.drop_last().drop_last().drop_last() =~= fields.take(n - 3));
    }
    if n >= 4 {
        assert(fields.drop_last().drop_last().drop_last().drop_last() =~= fields.take(n - 4));
    }
    if !(m.content is Send) {
        assert(headers_of(m.content) =~= field_headers(fields));
    }
    assert(message_frame(m).headers =~= field_headers(fields) + other_headers(m));
}

/// Whether the names of fields are names, and all of them among `keys`.
pub open spec fn fields_named(
    fields: Seq<(Seq<char>, Option<Seq<u8>>)>,
    keys: Seq<Seq<char>>,
) -> bool {
    forall|i: int|
        0 <= i < fields.len() ==> is_name((#[trigger] fields[i]).0) && is_among(
            encode_utf8(fields[i].0),
            keys,
        )
}

/// Whether no header has its name on the wire among `keys`.
pub open spec fn others_named(
    hs: Seq<(Seq<u8>, Seq<u8>)>,
    keys: Seq<Seq<char>>,
    escaped: bool,
) -> bool {
    forall|i: int|
        0 <= i < hs.len() ==> !is_among(encoded((#[trigger] hs[i]).0, escaped), keys)
}

/// A value on the wire.
pub open spec fn encoded_value(value: Option<Seq<u8>>, escaped: bool) -> Option<Seq<u8>> {
    match value {
        Some(v) => Some(encoded(v, escaped)),
        None => None,
    }
}

/// The header of one field on the wire.
proof fn lemma_encoded_field(key: Seq<char>, value: Option<Seq<u8>>, escaped: bool)
    requires
        is_name(key),
    ensures
        encoded_headers(header_of(key, value), escaped) == header_of(
            key,
            encoded_value(value, escaped),
        ),
{
    lemma_name_is_plain(key);
    assert(encoded_headers(header_of(key, value), escaped) =~= header_of(
        key,
        encoded_value(value, escaped),
    ));
}

/// The value of a field is found among the headers of the fields.
pub proof fn lemma_field_is_found(
    fields: Seq<(Seq<char>, Option<Seq<u8>>)>,
    keys: Seq<Seq<char>>,
    escaped: bool,
    key: Seq<char>,
)
    requires
        fields_named(fields, keys),
    ensures
        value_of(encoded_headers(field_headers(fields), escaped), encode_utf8(key))
            == encoded_value(field_value(fields, key), escaped),
    decreases fields.len(),
{
    if fields.len() == 0 {
        assert(encoded_headers(field_headers(fields), escaped) =~= Seq::<
            (Seq<u8>, Seq<u8>),
        >::empty());
    } else {
        let init = fields.drop_last();
        let (name, value) = fields.last();
        assert(fields.last() == fields[fields.len() - 1]);
        assert forall|i: int| 0 <= i < init.len() implies is_name((#[trigger] init[i]).0)
            && is_among(encode_utf8(init[i].0), keys) by {
            assert(init[i] == fields[i]);
        }
        lemma_field_is_found(init, keys, escaped, key);
        lemma_encoded_headers_add(field_headers(init), header_of(name, value), escaped);
        lemma_encoded_field(name, value, escaped);
        lemma_value_of_add(
            encoded_headers(field_headers(init), escaped),
            header_of(name, encoded_value(value, escaped)),
            encode_utf8(key),
        );
        lemma_encode_is_injective(name, key);
        let one = header_of(name, encoded_value(value, escaped));
        if one.len() > 0 {
            assert(one.skip(1) =~= Seq::<(Seq<u8>, Seq<u8>)>::empty());
        }
        reveal_with_fuel(value_of, 2);
    }
}

/// Nothing is left of the headers of the fields.
proof fn lemma_fields_are_known(
    fields: Seq<(Seq<char>, Option<Seq<u8>>)>,
    keys: Seq<Seq<char>>,
    escaped: bool,
)
    requires
        fields_named(fields, keys),
    ensures
        without(encoded_headers(field_headers(fields), escaped), keys) == Seq::<
            (Seq<u8>, Seq<u8>),
        >::empty(),
    decreases fields.len(),
{
    let none = Seq::<(Seq<u8>, Seq<u8>)>::empty();
    if fields.len() == 0 {
        assert(encoded_headers(field_headers(fields), escaped) =~= none);
    } else {
        let init = fields.drop_last();
        let (name, value) = fields.last();
        assert(fields.last() == fields[fields.len() - 1]);
        assert forall|i: int| 0 <= i < init.len() implies is_name((#[trigger] init[i]).0)
            && is_among(encode_utf8(init[i].0), keys) by {
            assert(init[i] == fields[i]);
        }
        lemma_fields_are_known(init, keys, escaped);
        lemma_encoded_headers_add(field_headers(init), header_of(name, value), escaped);
        lemma_encoded_field(name, value, escaped);
        let one = header_of(name, encoded_value(value, escaped));
        lemma_without_add(encoded_headers(field_headers(init), escaped), one, keys);
        reveal_with_fuel(without, 2);
        if one.len() > 0 {
            assert(one.drop_last() =~= none);
        }
        assert(without(one, keys) =~= none);
        assert(none + none =~= none);
    }
}

/// What the reader of a message finds: the values of the fields, and the other
/// headers as they stand on the wire.
pub proof fn lemma_headers_are_found(
    fields: Seq<(Seq<char>, Option<Seq<u8>>)>,
    others: Seq<(Seq<u8>, Seq<u8>)>,
    keys: Seq<Seq<char>>,
    escaped: bool,
)
    requires
        fields_named(fields, keys),
        others_named(others, keys, escaped),
    ensures
        forall|key: Seq<char>|
            is_among(encode_utf8(key), keys) ==> #[trigger] value_of(
                encoded_headers(field_headers(fields) + others, escaped),
                encode_utf8(key),
            ) == encoded_value(field_value(fields, key), escaped),
        without(encoded_headers(field_headers(fields) + others, escaped), keys) == encoded_headers(
            others,
            escaped,
        ),
{
    let first = encoded_headers(field_headers(fields), escaped);
    let second = encoded_headers(others, escaped);
    lemma_encoded_headers_add(field_headers(fields), others, escaped);
    assert forall|i: int| 0 <= i < second.len() implies !is_among(
        (#[trigger] second[i]).0,
        keys,
    ) by {
        assert(second[i].0 == encoded(others[i].0, escaped));
    }
    assert forall|key: Seq<char>| is_among(encode_utf8(key), keys) implies #[trigger] value_of(
        encoded_headers(field_headers(fields) + others, escaped),
        encode_utf8(key),
    ) == encoded_value(field_value(fields, key), escaped) by {
        lemma_field_is_found(fields, keys, escaped, key);
        lemma_value_of_add(first, second, encode_utf8(key));
        lemma_value_of_is_header(second, encode_utf8(key));
        if has_header(second, encode_utf8(key)) {
            let i = choose|i: int|
                0 <= i < second.len() && (#[trigger] second[i]).0 == encode_utf8(key);
            assert(!is_among(second[i].0, keys));
        }
    }
    lemma_without_add(first, second, keys);
    lemma_fields_are_known(fields, keys, escaped);
    lemma_without_nothing(second, keys);
    assert(Seq::<(Seq<u8>, Seq<u8>)>::empty() + second =~= second);
}

/// A text that was encoded and escaped is read back.
proof fn lemma_text_is_read_back(value: Seq<char>)
    ensures
        text_of(unescape(escape(encode_utf8(value)))) == Some(value),
        text_of(encode_utf8(value)) == Some(value),
{
    law_unescape_undoes_escape(encode_utf8(value));
    encode_utf8_valid_utf8(value);
    encode_utf8_decode_utf8(value);
}

/// The bytes of a name are among keys that hold the name.
pub proof fn lemma_is_among(keys: Seq<Seq<char>>, i: int)
    requires
        0 <= i < keys.len(),
    ensures
        is_among(encode_utf8(keys[i]), keys),
{
}

/// The fields of a message have the names that the reader looks for.
#[verifier::rlimit(50)]
pub proof fn lemma_fields_are_named(m: ToServerView)
    ensures
        fields_named(fields_of(m), client_keys(command_of(m))),
{
    let fields = fields_of(m);
    let keys = client_keys(command_of(m));
    lemma_header_names();
    assert forall|i: int| 0 <= i < fields.len() implies is_name((#[trigger] fields[i]).0)
        && is_among(encode_utf8(fields[i].0), keys) by {
        match m {
            ToServerView::Connect { .. } => {
                // The reader looks for the passcode before the heart-beat
                let j = if i == 3 {
                    4
                } else if i == 4 {
                    3
                } else {
                    i
                };
                assert(fields[i].0 == keys[j]);
                lemma_is_among(keys, j);
            },
            _ => {
                assert(fields[i].0 == keys[i]);
                lemma_is_among(keys, i);
            },
        }
    }
}

/// Whether no two fields have the same name.
pub open spec fn fields_differ(fields: Seq<(Seq<char>, Option<Seq<u8>>)>) -> bool {
    forall|i: int, j: int|
        0 <= i < j < fields.len() ==> (#[trigger] fields[i]).0 != (#[trigger] fields[j]).0
}

/// A field that is not there has no value.
proof fn lemma_no_field(fields: Seq<(Seq<char>, Option<Seq<u8>>)>, key: Seq<char>)
    requires
        forall|i: int| 0 <= i < fields.len() ==> (#[trigger] fields[i]).0 != key,
    ensures
        field_value(fields, key) is None,
    decreases fields.len(),
{
    if fields.len() > 0 {
        let init = fields.drop_last();
        assert forall|i: int| 0 <= i < init.len() implies (#[trigger] init[i]).0 != key by {
            assert(init[i] == fields[i]);
        }
        lemma_no_field(init, key);
        assert(fields.last() == fields[fields.len() - 1]);
    }
}

/// Where names differ, the value of each field is its own.
pub proof fn lemma_field_value(fields: Seq<(Seq<char>, Option<Seq<u8>>)>, i: int)
    requires
        fields_differ(fields),
        0 <= i < fields.len(),
    ensures
        field_value(fields, fields[i].0) == fields[i].1,
    decreases fields.len(),
{
    let init = fields.drop_last();
    let last = fields.len() - 1;
    assert(fields.last() == fields[last]);
    if i == last {
        assert forall|j: int| 0 <= j < init.len() implies (#[trigger] init[j]).0 != fields[i].0 by {
            assert(init[j] == fields[j]);
        }
        lemma_no_field(init, fields[i].0);
    } else {
        assert forall|j: int, k: int| 0 <= j < k < init.len() implies (#[trigger] init[j]).0 != (
        #[trigger] init[k]).0 by {
            assert(init[j] == fields[j]);
            assert(init[k] == fields[k]);
        }
        assert(init[i] == fields[i]);
        lemma_field_value(init, i);
        assert(fields[i].0 != fields[last].0);
    }
}

/// No message has two fields of one name.
pub proof fn lemma_fields_differ(m: ToServerView)
    ensures
        fields_differ(fields_of(m)),
{
    reveal_strlit("accept-version");
    reveal_strlit("host");
    reveal_strlit("login");
    reveal_strlit("passcode");
    reveal_strlit("heart-beat");
    reveal_strlit("destination");
    reveal_strlit("transaction");
    reveal_strlit("id");
    reveal_strlit("ack");
    assert("destination"@[0] == 'd' && "transaction"@[0] == 't');
    let fields = fields_of(m);
    assert forall|i: int, j: int| 0 <= i < j < fields.len() implies (#[trigger] fields[i]).0 != (
    #[trigger] fields[j]).0 by {
        match m {
            ToServerView::Connect { .. } => {
                assert(fields[0].0.len() == 14);
                assert(fields[1].0.len() == 4);
                assert(fields[2].0.len() == 5);
                assert(fields[3].0.len() == 10);
                assert(fields[4].0.len() == 8);
            },
            ToServerView::Subscribe { .. } => {
                assert(fields[0].0.len() == 11);
                assert(fields[1].0.len() == 2);
                assert(fields[2].0.len() == 3);
            },
            _ => {},
        }
    }
}

/// The length of the body is no field of any message.
pub proof fn lemma_length_is_no_field(command: ClientCommand)
    ensures
        !is_among(encode_utf8("content-length"@), client_keys(command)),
{
    let keys = client_keys(command);
    reveal_strlit("content-length");
    reveal_strlit("accept-version");
    reveal_strlit("host");
    reveal_strlit("login");
    reveal_strlit("passcode");
    reveal_strlit("heart-beat");
    reveal_strlit("destination");
    reveal_strlit("transaction");
    reveal_strlit("id");
    reveal_strlit("ack");
    reveal_strlit("receipt");
    assert("content-length"@[0] == 'c' && "accept-version"@[0] == 'a');
    assert forall|i: int| 0 <= i < keys.len() implies encode_utf8(#[trigger] keys[i])
        != encode_utf8("content-length"@) by {
        lemma_encode_is_injective(keys[i], "content-length"@);
    }
}

/// The headers of fields can be told apart on the wire.
pub proof fn lemma_field_headers(
    fields: Seq<(Seq<char>, Option<Seq<u8>>)>,
    keys: Seq<Seq<char>>,
    escaped: bool,
)
    requires
        fields_named(fields, keys),
        forall|i: int|
            0 <= i < fields.len() ==> ((#[trigger] fields[i]).1 matches Some(v) ==> escaped
                || on_one_line(v)),
    ensures
        forall|i: int|
            #![trigger field_headers(fields)[i]]
            0 <= i < field_headers(fields).len() ==> is_among(field_headers(fields)[i].0, keys)
                && distinct_on_wire(field_headers(fields)[i], escaped),
    decreases fields.len(),
{
    if fields.len() > 0 {
        let init = fields.drop_last();
        let all = field_headers(fields);
        assert(fields.last() == fields[fields.len() - 1]);
        assert forall|i: int| 0 <= i < init.len() implies is_name((#[trigger] init[i]).0)
            && is_among(encode_utf8(init[i].0), keys) && (init[i].1 matches Some(v) ==> escaped
            || on_one_line(v)) by {
            assert(init[i] == fields[i]);
        }
        lemma_field_headers(init, keys, escaped);
        lemma_name_is_plain(fields.last().0);
        assert forall|i: int| #![trigger all[i]] 0 <= i < all.len() implies is_among(
            all[i].0,
            keys,
        ) && distinct_on_wire(all[i], escaped) by {
            if i < field_headers(init).len() {
                assert(all[i] == field_headers(init)[i]);
            } else {
                assert(all[i] == (encode_utf8(fields.last().0), fields.last().1->0));
            }
        }
    }
}

/// Extra headers with names of their own are all added.
proof fn lemma_not_in_nothing(extra: Seq<(Seq<u8>, Seq<u8>)>, hs: Seq<(Seq<u8>, Seq<u8>)>)
    requires
        forall|i: int| 0 <= i < extra.len() ==> !has_header(hs, (#[trigger] extra[i]).0),
    ensures
        not_in(extra, hs) == extra,
    decreases extra.len(),
{
    if extra.len() > 0 {
        let init = extra.drop_last();
        assert forall|i: int| 0 <= i < init.len() implies !has_header(
            hs,
            (#[trigger] init[i]).0,
        ) by {
            assert(init[i] == extra[i]);
        }
        lemma_not_in_nothing(init, hs);
        assert(extra.last() == extra[extra.len() - 1]);
        assert(not_in(extra, hs) =~= extra);
    }
}

/// Whether an extra header of a message with this command is read back as an
/// extra header: it can be told apart on the wire, it needs no escaping where
/// headers are escaped, and no field of the message has its name.
pub open spec fn extra_is_kept(h: (Seq<u8>, Seq<u8>), command: ClientCommand) -> bool {
    &&& distinct_on_wire(h, command != ClientCommand::Connect)
    &&& command != ClientCommand::Connect ==> is_plain(h.0) && is_plain(h.1)
    &&& !is_among(h.0, client_keys(command))
}

/// Whether an optional text is on one line.
pub open spec fn text_on_one_line(value: Option<Seq<char>>) -> bool {
    value matches Some(v) ==> on_one_line(encode_utf8(v))
}

/// Whether the fields of a message can be told apart on the wire: those of a
/// CONNECT are not escaped, so each has to be on one line.
pub open spec fn fields_are_kept(m: ToServerView) -> bool {
    m matches ToServerView::Connect { accept_version, host, login, passcode, .. } ==> {
        &&& text_on_one_line(Some(accept_version))
        &&& text_on_one_line(Some(host))
        &&& text_on_one_line(login)
        &&& text_on_one_line(passcode)
    }
}

/// Numbers and commas are on one line.
proof fn lemma_heartbeat_on_one_line(intervals: (u32, u32))
    ensures
        on_one_line(heartbeat_bytes(intervals)),
{
    lemma_decimal_digits(intervals.0 as nat);
    lemma_decimal_digits(intervals.1 as nat);
    let bytes = heartbeat_bytes(intervals);
    let n = decimal(intervals.0 as nat).len();
    assert forall|i: int| 0 <= i < bytes.len() implies (#[trigger] bytes[i]) != crate::escape::CR
        && bytes[i] != crate::escape::LF by {
        if i < n {
            assert(bytes[i] == decimal(intervals.0 as nat)[i]);
        } else if i > n {
            assert(bytes[i] == decimal(intervals.1 as nat)[i - n - 1]);
        }
    }
}

/// The values of fields are on one line where they have to be.
proof fn lemma_field_values_on_one_line(m: ToServerView)
    requires
        fields_are_kept(m),
    ensures
        forall|i: int|
            0 <= i < fields_of(m).len() ==> ((#[trigger] fields_of(m)[i]).1 matches Some(v) ==> !(
            m is Connect) || on_one_line(v)),
{
    if let ToServerView::Connect { heartbeat: Some(intervals), .. } = m {
        lemma_heartbeat_on_one_line(intervals);
    }
}

/// Whether a message other than SEND is read back as it is: its fields and its
/// extra headers are, and no extra header gives the length of a body.
pub open spec fn is_kept(m: MessageView<ToServerView>) -> bool {
    &&& !(m.content is Send)
    &&& fields_are_kept(m.content)
    &&& content_length(m.extra_headers) is None
    &&& forall|i: int|
        0 <= i < m.extra_headers.len() ==> extra_is_kept(
            #[trigger] m.extra_headers[i],
            command_of(m.content),
        )
}

/// The frame of a message that is kept, and what the reader finds in it.
#[verifier::rlimit(50)]
proof fn lemma_kept_frame(m: MessageView<ToServerView>)
    requires
        is_kept(m),
    ensures
        ({
            let frame = message_frame(m);
            let command = command_of(m.content);
            let escaped = command != ClientCommand::Connect;
            let keys = client_keys(command);
            let read = encoded_headers(frame.headers, escaped);
            &&& escaped_command(frame.command) == escaped
            &&& readable(frame)
            &&& forall|i: int|
                0 <= i < fields_of(m.content).len() ==> value_of(
                    read,
                    encode_utf8((#[trigger] fields_of(m.content)[i]).0),
                ) == encoded_value(fields_of(m.content)[i].1, escaped)
            &&& without(read, keys) == m.extra_headers
        }),
{
    let frame = message_frame(m);
    let command = command_of(m.content);
    let escaped = command != ClientCommand::Connect;
    let keys = client_keys(command);
    let fields = fields_of(m.content);
    let own = field_headers(fields);
    let extra = m.extra_headers;
    let read = encoded_headers(frame.headers, escaped);
    let length = encode_utf8("content-length"@);
    lemma_command_names(command);
    lemma_headers_are_fields(m);
    lemma_fields_are_named(m.content);
    lemma_field_values_on_one_line(m.content);
    lemma_field_headers(fields, keys, escaped);

    // All extra headers are sent, and stand on the wire as they are
    assert forall|i: int| 0 <= i < extra.len() implies !has_header(
        own,
        (#[trigger] extra[i]).0,
    ) by {
        if has_header(own, extra[i].0) {
            let j = choose|j: int| 0 <= j < own.len() && (#[trigger] own[j]).0 == extra[i].0;
            assert(is_among(own[j].0, keys));
        }
    }
    lemma_not_in_nothing(extra, own);
    assert(frame.headers == own + extra);
    assert forall|i: int| 0 <= i < extra.len() implies encoded(
        (#[trigger] extra[i]).0,
        escaped,
    ) == extra[i].0 && encoded(extra[i].1, escaped) == extra[i].1 by {
        if escaped {
            lemma_escape_plain(extra[i].0);
            lemma_escape_plain(extra[i].1);
        }
    }
    assert(encoded_headers(extra, escaped) =~= extra);
    lemma_headers_are_found(fields, extra, keys, escaped);

    // Every header can be told apart
    assert forall|i: int| 0 <= i < frame.headers.len() implies distinct_on_wire(
        #[trigger] frame.headers[i],
        escaped,
    ) by {
        if i < own.len() {
            assert(frame.headers[i] == own[i]);
        } else {
            assert(frame.headers[i] == extra[i - own.len()]);
        }
    }

    // No field gives a length
    lemma_length_is_no_field(command);
    let first = encoded_headers(own, escaped);
    lemma_encoded_headers_add(own, extra, escaped);
    lemma_value_of_is_header(first, length);
    if has_header(first, length) {
        let i = choose|i: int| 0 <= i < first.len() && (#[trigger] first[i]).0 == length;
        lemma_own_name_is_plain(fields, keys, i);
        assert(first[i].0 == encoded(own[i].0, escaped));
        assert(is_among(own[i].0, keys));
    }
    lemma_value_of_add(first, extra, length);

    // The fields have their values
    lemma_fields_differ(m.content);
    assert forall|i: int| 0 <= i < fields.len() implies value_of(
        read,
        encode_utf8((#[trigger] fields[i]).0),
    ) == encoded_value(fields[i].1, escaped) by {
        lemma_field_value(fields, i);
        assert(is_among(encode_utf8(fields[i].0), keys));
    }
}

/// The names of the headers of fields need no escaping.
pub proof fn lemma_own_name_is_plain(
    fields: Seq<(Seq<char>, Option<Seq<u8>>)>,
    keys: Seq<Seq<char>>,
    i: int,
)
    requires
        fields_named(fields, keys),
        0 <= i < field_headers(fields).len(),
    ensures
        escape(field_headers(fields)[i].0) == field_headers(fields)[i].0,
    decreases fields.len(),
{
    if fields.len() > 0 {
        let init = fields.drop_last();
        assert(fields.last() == fields[fields.len() - 1]);
        assert forall|j: int| 0 <= j < init.len() implies is_name((#[trigger] init[j]).0)
            && is_among(encode_utf8(init[j].0), keys) by {
            assert(init[j] == fields[j]);
        }
        if i < field_headers(init).len() {
            lemma_own_name_is_plain(init, keys, i);
            assert(field_headers(fields)[i] == field_headers(init)[i]);
        } else {
            lemma_name_is_plain(fields.last().0);
        }
    }
}

/// A text that was sent in an escaped header is fetched.
pub proof fn lemma_fetched(hs: Seq<(Seq<u8>, Seq<u8>)>, key: Seq<char>, value: Option<Seq<char>>)
    requires
        value_of(hs, encode_utf8(key)) == encoded_value(encoded_text(value), true),
    ensures
        fetched(hs, key) == value,
{
    if let Some(v) = value {
        lemma_text_is_read_back(v);
    }
}

/// A text that was sent in a header that is not escaped is fetched.
pub proof fn lemma_fetched_raw(
    hs: Seq<(Seq<u8>, Seq<u8>)>,
    key: Seq<char>,
    value: Option<Seq<char>>,
)
    requires
        value_of(hs, encode_utf8(key)) == encoded_value(encoded_text(value), false),
    ensures
        fetched_raw(hs, key) == value,
{
    if let Some(v) = value {
        lemma_text_is_read_back(v);
    }
}

/// Whether the values of fields are found in these headers.
spec fn fields_found(m: ToServerView, hs: Seq<(Seq<u8>, Seq<u8>)>) -> bool {
    forall|i: int|
        0 <= i < fields_of(m).len() ==> value_of(hs, encode_utf8((#[trigger] fields_of(m)[i]).0))
            == encoded_value(fields_of(m)[i].1, !(m is Connect))
}

proof fn lemma_connect_is_read_back(m: ToServerView, f: FrameView)
    requires
        m is Connect,
        fields_found(m, f.headers),
    ensures
        client_content(ClientCommand::Connect, f) == Ok::<ToServerView, ErrorView>(m),
{
    let h = f.headers;
    let fields = fields_of(m);
    if let ToServerView::Connect { accept_version, host, login, passcode, heartbeat } = m {
        assert(fields[0].0 == "accept-version"@);
        lemma_fetched_raw(h, "accept-version"@, Some(accept_version));
        assert(fields[1].0 == "host"@);
        lemma_fetched_raw(h, "host"@, Some(host));
        assert(fields[2].0 == "login"@);
        lemma_fetched_raw(h, "login"@, login);
        assert(fields[3].0 == "heart-beat"@);
        if let Some(intervals) = heartbeat {
            lemma_heartbeat_is_text(intervals);
            law_heartbeat_is_read_back(intervals);
        }
        assert(fields[4].0 == "passcode"@);
        lemma_fetched_raw(h, "passcode"@, passcode);
    }
}

proof fn lemma_subscribe_is_read_back(m: ToServerView, f: FrameView)
    requires
        m is Subscribe,
        fields_found(m, f.headers),
    ensures
        client_content(ClientCommand::Subscribe, f) == Ok::<ToServerView, ErrorView>(m),
{
    let h = f.headers;
    let fields = fields_of(m);
    if let ToServerView::Subscribe { destination, id, ack } = m {
        assert(fields[0].0 == "destination"@);
        lemma_fetched(h, "destination"@, Some(destination));
        assert(fields[1].0 == "id"@);
        lemma_fetched(h, "id"@, Some(id));
        assert(fields[2].0 == "ack"@);
        match ack {
            Some(mode) => {
                lemma_fetched(h, "ack"@, Some(ack_mode_name(mode)));
                lemma_ack_mode_is_read_back(mode);
            },
            None => {
                lemma_fetched(h, "ack"@, None);
            },
        }
    }
}

proof fn lemma_content_is_read_back(m: ToServerView, f: FrameView)
    requires
        !(m is Send),
        fields_found(m, f.headers),
    ensures
        client_content(command_of(m), f) == Ok::<ToServerView, ErrorView>(m),
{
    let h = f.headers;
    let fields = fields_of(m);
    match m {
        ToServerView::Connect { .. } => {
            lemma_connect_is_read_back(m, f);
        },
        ToServerView::Send { .. } => {},
        ToServerView::Subscribe { .. } => {
            lemma_subscribe_is_read_back(m, f);
        },
        ToServerView::Unsubscribe { id } => {
            assert(fields[0].0 == "id"@);
            lemma_fetched(h, "id"@, Some(id));
        },
        ToServerView::Ack { id, transaction } => {
            assert(fields[0].0 == "id"@);
            lemma_fetched(h, "id"@, Some(id));
            assert(fields[1].0 == "transaction"@);
            lemma_fetched(h, "transaction"@, transaction);
        },
        ToServerView::Nack { id, transaction } => {
            assert(fields[0].0 == "id"@);
            lemma_fetched(h, "id"@, Some(id));
            assert(fields[1].0 == "transaction"@);
            lemma_fetched(h, "transaction"@, transaction);
        },
        ToServerView::Begin { transaction } => {
            assert(fields[0].0 == "transaction"@);
            lemma_fetched(h, "transaction"@, Some(transaction));
        },
        ToServerView::Commit { transaction } => {
            assert(fields[0].0 == "transaction"@);
            lemma_fetched(h, "transaction"@, Some(transaction));
        },
        ToServerView::Abort { transaction } => {
            assert(fields[0].0 == "transaction"@);
            lemma_fetched(h, "transaction"@, Some(transaction));
        },
        ToServerView::Disconnect { receipt } => {
            assert(fields[0].0 == "receipt"@);
            lemma_fetched(h, "receipt"@, receipt);
        },
    }
}

/// A message other than SEND is read back: its frame, as it stands on the wire
/// and whatever follows it there, gives the same message. A CONNECT is not
/// escaped, so its fields have to be on one line each; extra headers have to be
/// such that they can be told from the fields.
pub proof fn law_message_is_read_back(m: MessageView<ToServerView>, rest: Seq<u8>)
    requires
        is_kept(m),
    ensures
        unterminated_frame_at(wire(message_frame(m)) + rest) matches Ok((frame, end)) && end
            == wire(message_frame(m)).len() && client_message(frame) == Ok::<
            MessageView<ToServerView>,
            ErrorView,
        >(m),
{
    let frame = message_frame(m);
    let command = command_of(m.content);
    let read = encoded_headers(frame.headers, command != ClientCommand::Connect);
    lemma_kept_frame(m);
    law_frame_is_read_back(frame, rest);
    lemma_command_names(command);
    lemma_content_is_read_back(m.content, FrameView { headers: read, ..frame });
}

/// The name of an acknowledgment mode names that mode.
proof fn lemma_ack_mode_is_read_back(mode: crate::AckMode)
    ensures
        crate::convert::ack_mode(Some(ack_mode_name(mode))) == Ok::<
            Option<crate::AckMode>,
            ErrorView,
        >(Some(mode)),
{
    reveal_strlit("auto");
    reveal_strlit("client");
    reveal_strlit("client-individual");
    assert("auto"@.len() == 4 && "client"@.len() == 6 && "client-individual"@.len() == 17);
}

/// Heart-beat intervals are text.
proof fn lemma_heartbeat_is_text(intervals: (u32, u32))
    ensures
        text_of(heartbeat_bytes(intervals)) matches Some(text) && encode_utf8(text)
            == heartbeat_bytes(intervals),
{
    let bytes = heartbeat_bytes(intervals);
    let n = decimal(intervals.0 as nat).len();
    lemma_decimal_digits(intervals.0 as nat);
    lemma_decimal_digits(intervals.1 as nat);
    let text = bytes.map_values(|b: u8| b as char);
    assert forall|i: int| 0 <= i < text.len() implies '\0' <= #[trigger] text[i] <= '\u{7f}' by {
        if i < n {
            assert(bytes[i] == decimal(intervals.0 as nat)[i]);
        } else if i > n {
            assert(bytes[i] == decimal(intervals.1 as nat)[i - n - 1]);
        }
    }
    assert(is_ascii_chars(text));
    is_ascii_chars_encode_utf8(text);
    assert forall|i: int| 0 <= i < text.len() implies encode_utf8(text)[i] == bytes[i] by {
        assert(text[i] as u8 == encode_utf8(text)[i]);
        if i < n {
            assert(bytes[i] == decimal(intervals.0 as nat)[i]);
        } else if i > n {
            assert(bytes[i] == decimal(intervals.1 as nat)[i - n - 1]);
        }
    }
    assert(encode_utf8(text) =~= bytes);
    encode_utf8_valid_utf8(text);
    encode_utf8_decode_utf8(text);
}

/// A CONNECT is read back from its frame whatever its fields hold: nothing in
/// them is escaped, altered or cut. Extra headers have to have names of their
/// own.
pub proof fn law_connect_is_read_from_its_frame(m: MessageView<ToServerView>)
    requires
        m.content is Connect,
        forall|i: int|
            0 <= i < m.extra_headers.len() ==> !is_among(
                (#[trigger] m.extra_headers[i]).0,
                client_keys(ClientCommand::Connect),
            ),
    ensures
        client_message(message_frame(m)) == Ok::<MessageView<ToServerView>, ErrorView>(m),
{
    let frame = message_frame(m);
    let keys = client_keys(ClientCommand::Connect);
    let fields = fields_of(m.content);
    let own = field_headers(fields);
    let extra = m.extra_headers;
    lemma_command_names(ClientCommand::Connect);
    lemma_headers_are_fields(m);
    lemma_fields_are_named(m.content);
    lemma_field_headers(fields, keys, true);
    assert forall|i: int| 0 <= i < extra.len() implies !has_header(
        own,
        (#[trigger] extra[i]).0,
    ) by {
        if has_header(own, extra[i].0) {
            let j = choose|j: int| 0 <= j < own.len() && (#[trigger] own[j]).0 == extra[i].0;
            assert(is_among(own[j].0, keys));
        }
    }
    lemma_not_in_nothing(extra, own);
    assert(encoded_headers(extra, false) =~= extra);
    assert(encoded_headers(frame.headers, false) =~= frame.headers);
    lemma_headers_are_found(fields, extra, keys, false);
    lemma_fields_differ(m.content);
    assert forall|i: int| 0 <= i < fields.len() implies value_of(
        frame.headers,
        encode_utf8((#[trigger] fields[i]).0),
    ) == encoded_value(fields[i].1, false) by {
        lemma_field_value(fields, i);
        assert(is_among(encode_utf8(fields[i].0), keys));
    }
    lemma_connect_is_read_back(m.content, frame);
}

} // verus!
