//! What a server gets to see of each message: the literal commands, header names
//! and bytes of STOMP 1.2.
//!
//! The laws here speak of what the library's functions return, whatever their
//! contracts are written in terms of.

use crate::buffer::contents;
use crate::client::ClientCodec;
use crate::compose::{
    ack_mode_name, command_of, content_frame, encoded_texts, header_of, headers_of, message_frame,
    requested_headers, text_header,
};
use crate::convert::{command_name, ClientCommand};
use crate::error::Error;
use crate::escape::{escape, escaped_command, NUL};
use crate::frame::{
    has_header, header_line, header_lines, lemma_header_lines_add, not_in, wire, Frame, Header,
};
use crate::heartbeat::heartbeat_bytes;
use crate::model::{opt_text, texts};
use crate::names::{
    is_name, lemma_command_names, lemma_encode_is_injective, lemma_header_names,
    lemma_name_is_plain,
};
use crate::text::decimal;
use crate::{AckMode, Message, ToServer};
use bytes::BytesMut;
use vstd::prelude::*;
use vstd::utf8::*;

verus! {

/// Each message goes out under the name of its command.
pub proof fn law_each_message_has_its_command<'a>(m: &'a ToServer, f: Frame<'a>)
    requires
        call_ensures(ToServer::to_frame, (m,), f),
    ensures
        f.command@ == encode_utf8(
            match *m {
                ToServer::Connect { .. } => "CONNECT"@,
                ToServer::Send { .. } => "SEND"@,
                ToServer::Subscribe { .. } => "SUBSCRIBE"@,
                ToServer::Unsubscribe { .. } => "UNSUBSCRIBE"@,
                ToServer::Ack { .. } => "ACK"@,
                ToServer::Nack { .. } => "NACK"@,
                ToServer::Begin { .. } => "BEGIN"@,
                ToServer::Commit { .. } => "COMMIT"@,
                ToServer::Abort { .. } => "ABORT"@,
                ToServer::Disconnect { .. } => "DISCONNECT"@,
            },
        ),
        match *m {
            ToServer::Send { body: Some(b), .. } => f.body matches Some(sent) && sent@ == b@,
            _ => f.body is None,
        },
{
}

/// Each field of a message goes out under its own name, in order: the fields of
/// all messages but SEND, which has further headers.
pub proof fn law_each_field_has_its_header<'a>(m: &'a ToServer, f: Frame<'a>)
    requires
        call_ensures(ToServer::to_frame, (m,), f),
    ensures
        ({
            let header = |key: Seq<char>, value: Seq<char>| (encode_utf8(key), encode_utf8(value));
            let option = |key: Seq<char>, value: Option<String>|
                match value {
                    Some(v) => seq![header(key, v@)],
                    None => Seq::empty(),
                };
            let sent = f.headers@.map_values(|h: Header<'_>| (h.0@, h.1@));
            match *m {
                ToServer::Connect { accept_version, host, login, passcode, heartbeat } => sent
                    == seq![
                    header("accept-version"@, accept_version@),
                    header("host"@, host@),
                ] + option("login"@, login) + (match heartbeat {
                    Some((outgoing, incoming)) => seq![
                        (
                            encode_utf8("heart-beat"@),
                            decimal(outgoing as nat) + seq![44u8] + decimal(incoming as nat),
                        ),
                    ],
                    None => Seq::empty(),
                }) + option("passcode"@, passcode),
                ToServer::Send { .. } => true,
                ToServer::Subscribe { destination, id, ack } => sent == seq![
                    header("destination"@, destination@),
                    header("id"@, id@),
                ] + (match ack {
                    Some(AckMode::Auto) => seq![header("ack"@, "auto"@)],
                    Some(AckMode::Client) => seq![header("ack"@, "client"@)],
                    Some(AckMode::ClientIndividual) => seq![header("ack"@, "client-individual"@)],
                    None => Seq::empty(),
                }),
                ToServer::Unsubscribe { id } => sent == seq![header("id"@, id@)],
                ToServer::Ack { id, transaction } => sent == seq![header("id"@, id@)] + option(
                    "transaction"@,
                    transaction,
                ),
                ToServer::Nack { id, transaction } => sent == seq![header("id"@, id@)] + option(
                    "transaction"@,
                    transaction,
                ),
                ToServer::Begin { transaction } => sent
                    == seq![header("transaction"@, transaction@)],
                ToServer::Commit { transaction } => sent
                    == seq![header("transaction"@, transaction@)],
                ToServer::Abort { transaction } => sent
                    == seq![header("transaction"@, transaction@)],
                ToServer::Disconnect { receipt } => sent == option("receipt"@, receipt),
            }
        }),
{
    let sent = f.headers@.map_values(|h: Header<'_>| (h.0@, h.1@));
    assert(sent =~= f@.headers);
    let header = |key: Seq<char>, value: Seq<char>| (encode_utf8(key), encode_utf8(value));
    let option = |key: Seq<char>, value: Option<String>|
        match value {
            Some(v) => seq![header(key, v@)],
            None => Seq::empty(),
        };
    match *m {
        ToServer::Connect { accept_version, host, login, passcode, heartbeat } => {
            assert(f@.headers =~= seq![
                header("accept-version"@, accept_version@),
                header("host"@, host@),
            ] + option("login"@, login) + (match heartbeat {
                Some((outgoing, incoming)) => seq![
                    (
                        encode_utf8("heart-beat"@),
                        decimal(outgoing as nat) + seq![44u8] + decimal(incoming as nat),
                    ),
                ],
                None => Seq::empty(),
            }) + option("passcode"@, passcode));
        },
        _ => {},
    }
}

/// A SEND names its destination and its transaction, then carries every header
/// of the caller in order, and then, exactly if the body holds a null byte and
/// the caller gives no length, the length of the body.
pub proof fn law_send_has_its_headers<'a>(
    m: &'a ToServer,
    f: Frame<'a>,
    sent: Seq<(Seq<u8>, Seq<u8>)>,
    own: Seq<(Seq<u8>, Seq<u8>)>,
    custom: Seq<(String, String)>,
)
    requires
        call_ensures(ToServer::to_frame, (m,), f),
        m is Send,
        sent == f.headers@.map_values(|h: Header<'_>| (h.0@, h.1@)),
        own == seq![(encode_utf8("destination"@), encode_utf8(m->Send_destination@))] + (
        match m->Send_transaction {
            Some(t) => seq![(encode_utf8("transaction"@), encode_utf8(t@))],
            None => Seq::empty(),
        }),
        custom == (match m->Send_headers {
            Some(hs) => hs@,
            None => Seq::empty(),
        }),
    ensures
        sent.len() >= own.len() + custom.len(),
        sent.take(own.len() as int) == own,
        forall|i: int|
            0 <= i < custom.len() ==> sent[own.len() + i] == (
                encode_utf8((#[trigger] custom[i]).0@),
                encode_utf8(custom[i].1@),
            ),
        ({
            let has_nul = m->Send_body matches Some(b) && exists|i: int|
                0 <= i < b@.len() && #[trigger] b@[i] == 0;
            let has_length = exists|i: int|
                0 <= i < custom.len() && (#[trigger] custom[i]).0@ == "content-length"@;
            sent.skip((own.len() + custom.len()) as int) == (if has_nul && !has_length {
                seq![(encode_utf8("content-length"@), decimal(m->Send_body->0@.len()))]
            } else {
                Seq::empty()
            })
        }),
{
    assert(sent =~= f@.headers);
    if let ToServer::Send { destination, transaction, headers, body } = *m {
        let length = encode_utf8("content-length"@);
        let bytes = encoded_texts(texts(custom));
        let requested = requested_headers(
            m@->Send_destination,
            m@->Send_transaction,
            m@->Send_headers,
        );
        assert(requested =~= own + bytes);
        let has_length = exists|i: int|
            0 <= i < custom.len() && (#[trigger] custom[i]).0@ == "content-length"@;
        lemma_encode_is_injective("destination"@, "content-length"@);
        lemma_encode_is_injective("transaction"@, "content-length"@);
        reveal_strlit("destination");
        reveal_strlit("transaction");
        reveal_strlit("content-length");
        assert(has_header(requested, length) == has_length) by {
            if has_header(requested, length) {
                let i = choose|i: int|
                    0 <= i < requested.len() && (#[trigger] requested[i]).0 == length;
                if i >= own.len() {
                    let j = i - own.len();
                    assert(requested[i] == bytes[j]);
                    lemma_encode_is_injective(custom[j].0@, "content-length"@);
                }
            }
            if has_length {
                let j = choose|j: int|
                    0 <= j < custom.len() && (#[trigger] custom[j]).0@ == "content-length"@;
                assert(requested[own.len() + j] == bytes[j]);
            }
        }
        if let Some(b) = body {
            assert(b@.contains(NUL) == exists|i: int|
                0 <= i < b@.len() && #[trigger] b@[i] == 0);
        }
        assert forall|i: int| 0 <= i < custom.len() implies sent[own.len() + i] == (
            encode_utf8((#[trigger] custom[i]).0@),
            encode_utf8(custom[i].1@),
        ) by {
            assert(sent[own.len() + i] == bytes[i]);
        }
        assert(sent.take(own.len() as int) =~= own);
        let has_nul = body matches Some(b) && exists|i: int|
            0 <= i < b@.len() && #[trigger] b@[i] == 0;
        assert(has_nul == (body matches Some(b) && b@.contains(NUL)));
        assert(sent.skip((own.len() + custom.len()) as int) =~= (if has_nul && !has_length {
            seq![(encode_utf8("content-length"@), decimal(body->0@.len()))]
        } else {
            Seq::empty()
        }));
    }
}

/// Extra headers follow those of the content, in order, but for names that the
/// content has a header for: one more extra header is one more header at the end,
/// or none.
pub proof fn law_extra_headers_follow<'a>(
    content: Frame<'a>,
    m: &'a Message<ToServer>,
    f: Frame<'a>,
    longer: &'a Message<ToServer>,
    g: Frame<'a>,
    extra: (Vec<u8>, Vec<u8>),
)
    requires
        call_ensures(ToServer::to_frame, (&m.content,), content),
        call_ensures(Message::<ToServer>::to_frame, (m,), f),
        call_ensures(Message::<ToServer>::to_frame, (longer,), g),
        longer.content == m.content,
        longer.extra_headers@ == m.extra_headers@.push(extra),
    ensures
        f.command@ == content.command@,
        g.command@ == content.command@,
        (f.body matches Some(b) ==> content.body matches Some(c) && b@ == c@),
        f.body is None == content.body is None,
        (g.body matches Some(b) ==> content.body matches Some(c) && b@ == c@),
        g.body is None == content.body is None,
        m.extra_headers@.len() == 0 ==> f.headers@.map_values(|h: Header<'_>| (h.0@, h.1@))
            == content.headers@.map_values(|h: Header<'_>| (h.0@, h.1@)),
        ({
            let taken = exists|i: int|
                0 <= i < content.headers@.len() && (#[trigger] content.headers@[i]).0@ == extra.0@;
            g.headers@.map_values(|h: Header<'_>| (h.0@, h.1@)) == f.headers@.map_values(
                |h: Header<'_>| (h.0@, h.1@),
            ) + (if taken {
                Seq::empty()
            } else {
                seq![(extra.0@, extra.1@)]
            })
        }),
{
    let own = content@.headers;
    assert(content.headers@.map_values(|h: Header<'_>| (h.0@, h.1@)) =~= own);
    assert(f.headers@.map_values(|h: Header<'_>| (h.0@, h.1@)) =~= f@.headers);
    assert(g.headers@.map_values(|h: Header<'_>| (h.0@, h.1@)) =~= g@.headers);
    let few = m@.extra_headers;
    let more = longer@.extra_headers;
    assert(more.drop_last() =~= few);
    assert(more.last() == (extra.0@, extra.1@));
    assert(content@ == content_frame(m.content@));
    assert(f@ == message_frame(m@));
    assert(g@ == message_frame(longer@));
    assert(own == headers_of(m.content@));
    assert(f@.headers == own + not_in(few, own));
    assert(g@.headers == own + not_in(more, own));
    let taken = exists|i: int|
        0 <= i < content.headers@.len() && (#[trigger] content.headers@[i]).0@ == extra.0@;
    assert(taken == has_header(own, extra.0@)) by {
        if taken {
            let i = choose|i: int|
                0 <= i < content.headers@.len() && (#[trigger] content.headers@[i]).0@ == extra.0@;
            assert(own[i].0 == extra.0@);
        }
        if has_header(own, extra.0@) {
            let i = choose|i: int| 0 <= i < own.len() && (#[trigger] own[i]).0 == extra.0@;
            assert(content.headers@[i].0@ == extra.0@);
        }
    }
    assert(g@.headers =~= f@.headers + (if taken {
        Seq::empty()
    } else {
        seq![(extra.0@, extra.1@)]
    }));
    if m.extra_headers@.len() == 0 {
        assert(f@.headers =~= own);
    }
}

/// Without headers a frame is its command, two line feeds, its body and a null
/// byte, behind what the buffer held.
pub proof fn law_frame_without_headers_on_the_wire(f: &Frame<'_>)
    requires
        f.headers@.len() == 0,
    ensures
        forall|b: &mut BytesMut| #[trigger]
            call_ensures(Frame::serialize, (f, b), ()) ==> contents(*final(b)) == contents(*b)
                + f.command@ + seq![10u8, 10u8] + (match f.body {
                Some(body) => body@,
                None => Seq::empty(),
            }) + seq![0u8],
{
    assert(f@.headers =~= Seq::empty());
    assert forall|b: &mut BytesMut| #[trigger]
        call_ensures(Frame::serialize, (f, b), ()) implies contents(*final(b)) == contents(*b)
        + f.command@ + seq![10u8, 10u8] + (match f.body {
        Some(body) => body@,
        None => Seq::empty(),
    }) + seq![0u8] by {
        assert(contents(*final(b)) =~= contents(*b) + f.command@ + seq![10u8, 10u8] + (
        match f.body {
            Some(body) => body@,
            None => Seq::empty(),
        }) + seq![0u8]);
    }
}

/// Each further header is one further line in front of the empty one: its name,
/// a colon, its value and a line feed. Name and value are escaped, but in a
/// CONNECT, a CONNECTED and a STOMP frame.
pub proof fn law_header_is_a_line_on_the_wire<'a>(
    f: &Frame<'a>,
    g: &Frame<'a>,
    header: Header<'a>,
    held: Seq<u8>,
    after_f: Seq<u8>,
    after_g: Seq<u8>,
)
    requires
        g.command@ == f.command@,
        g.body == f.body,
        g.headers@ == f.headers@.push(header),
        exists|b: &mut BytesMut| #[trigger]
            call_ensures(Frame::serialize, (f, b), ()) && contents(*b) == held && contents(
                *final(b),
            ) == after_f,
        exists|b: &mut BytesMut| #[trigger]
            call_ensures(Frame::serialize, (g, b), ()) && contents(*b) == held && contents(
                *final(b),
            ) == after_g,
    ensures
        ({
            let verbatim = {
                ||| f.command@ == encode_utf8("CONNECT"@)
                ||| f.command@ == encode_utf8("connect"@)
                ||| f.command@ == encode_utf8("CONNECTED"@)
                ||| f.command@ == encode_utf8("connected"@)
                ||| f.command@ == encode_utf8("STOMP"@)
                ||| f.command@ == encode_utf8("stomp"@)
            };
            let line = if verbatim {
                header.0@ + seq![58u8] + header.1@ + seq![10u8]
            } else {
                escape(header.0@) + seq![58u8] + escape(header.1@) + seq![10u8]
            };
            let end = seq![10u8] + (match f.body {
                Some(body) => body@,
                None => Seq::empty(),
            }) + seq![0u8];
            let split = after_f.len() - end.len();
            &&& split >= 0
            &&& after_f.skip(split) == end
            &&& after_g == after_f.take(split) + line + end
        }),
{
    let escaped = escaped_command(f.command@);
    let end = seq![10u8] + (match f.body {
        Some(body) => body@,
        None => Seq::empty(),
    }) + seq![0u8];
    let line = header_line((header.0@, header.1@), escaped);
    let head = held + f.command@ + seq![10u8] + header_lines(f@.headers, escaped);
    assert(g@.headers =~= f@.headers.push((header.0@, header.1@)));
    assert(g@.headers.drop_last() =~= f@.headers);
    assert(after_f == held + wire(f@));
    assert(after_g == held + wire(g@));
    assert(head + end =~= after_f);
    assert(after_g =~= head + line + end);
    let split = after_f.len() - end.len();
    assert(after_f.skip(split) =~= end);
    assert(after_f.take(split) =~= head);
    assert(after_g == after_f.take(split) + line + end);
    assert(line == if escaped {
        escape(header.0@) + seq![58u8] + escape(header.1@) + seq![10u8]
    } else {
        header.0@ + seq![58u8] + header.1@ + seq![10u8]
    });
}

/// A message is encoded as its frame is written: behind what the buffer held,
/// unless no buffer could hold it all.
pub proof fn law_encoding_writes_the_frame<'a>(item: &'a Message<ToServer>, f: Frame<'a>)
    requires
        call_ensures(Message::<ToServer>::to_frame, (item,), f),
    ensures
        forall|
            codec: &mut ClientCodec,
            b: &mut BytesMut,
            r: Result<(), Error>,
            other: &mut BytesMut,
        |
            #[trigger] call_ensures(ClientCodec::encode, (codec, *item, b), r)
                && #[trigger] call_ensures(Frame::serialize, (&f, other), ()) && contents(*other)
                == contents(*b) ==> (if contents(*final(other)).len() <= isize::MAX {
                r is Ok && contents(*final(b)) == contents(*final(other))
            } else {
                r == Err::<(), Error>(Error::BufferFull) && *final(b) == *b
            }),
{
}

/// The bytes of a message without extra headers: the name of the command, a line
/// for each field, an empty line and a null byte. A line is the name of the
/// field, a colon and the value, which is escaped in every frame but a CONNECT.
#[verifier::rlimit(50)]
pub proof fn law_each_message_has_its_bytes(item: Message<ToServer>)
    requires
        item.extra_headers@.len() == 0,
        !(item.content is Send),
    ensures
        forall|codec: &mut ClientCodec, b: &mut BytesMut|
            #[trigger] call_ensures(ClientCodec::encode, (codec, item, b), Ok(())) ==> ({
                let line = |key: Seq<char>, value: Seq<char>|
                    encode_utf8(key) + seq![58u8] + escape(encode_utf8(value)) + seq![10u8];
                let verbatim = |key: Seq<char>, value: Seq<char>|
                    encode_utf8(key) + seq![58u8] + encode_utf8(value) + seq![10u8];
                let sent = |command: Seq<char>, lines: Seq<u8>|
                    contents(*b) + encode_utf8(command) + seq![10u8] + lines + seq![10u8, 0u8];
                contents(*final(b)) == (match item.content {
                    ToServer::Connect { accept_version, host, login, passcode, heartbeat } => sent(
                        "CONNECT"@,
                        verbatim("accept-version"@, accept_version@) + verbatim("host"@, host@) + (
                        match login {
                            Some(login) => verbatim("login"@, login@),
                            None => Seq::empty(),
                        }) + (match heartbeat {
                            Some((outgoing, incoming)) => encode_utf8("heart-beat"@) + seq![58u8]
                                + decimal(outgoing as nat) + seq![44u8] + decimal(incoming as nat)
                                + seq![10u8],
                            None => Seq::empty(),
                        }) + (match passcode {
                            Some(passcode) => verbatim("passcode"@, passcode@),
                            None => Seq::empty(),
                        }),
                    ),
                    ToServer::Send { .. } => contents(*final(b)),
                    ToServer::Subscribe { destination, id, ack } => sent(
                        "SUBSCRIBE"@,
                        line("destination"@, destination@) + line("id"@, id@) + (match ack {
                            Some(AckMode::Auto) => verbatim("ack"@, "auto"@),
                            Some(AckMode::Client) => verbatim("ack"@, "client"@),
                            Some(AckMode::ClientIndividual) => verbatim(
                                "ack"@,
                                "client-individual"@,
                            ),
                            None => Seq::empty(),
                        }),
                    ),
                    ToServer::Unsubscribe { id } => sent("UNSUBSCRIBE"@, line("id"@, id@)),
                    ToServer::Ack { id, transaction } => sent(
                        "ACK"@,
                        line("id"@, id@) + (match transaction {
                            Some(t) => line("transaction"@, t@),
                            None => Seq::empty(),
                        }),
                    ),
                    ToServer::Nack { id, transaction } => sent(
                        "NACK"@,
                        line("id"@, id@) + (match transaction {
                            Some(t) => line("transaction"@, t@),
                            None => Seq::empty(),
                        }),
                    ),
                    ToServer::Begin { transaction } => sent(
                        "BEGIN"@,
                        line("transaction"@, transaction@),
                    ),
                    ToServer::Commit { transaction } => sent(
                        "COMMIT"@,
                        line("transaction"@, transaction@),
                    ),
                    ToServer::Abort { transaction } => sent(
                        "ABORT"@,
                        line("transaction"@, transaction@),
                    ),
                    ToServer::Disconnect { receipt } => sent(
                        "DISCONNECT"@,
                        match receipt {
                            Some(receipt) => line("receipt"@, receipt@),
                            None => Seq::empty(),
                        },
                    ),
                })
            }),
{
    lemma_names_need_no_escaping();
    let m = item@;
    let own = headers_of(m.content);
    assert(m.extra_headers =~= Seq::empty());
    assert(not_in(m.extra_headers, own) =~= Seq::empty());
    assert(message_frame(m).headers =~= own);
    let command = command_of(m.content);
    lemma_command_names(command);
    let escaped = command != ClientCommand::Connect;
    assert(wire(message_frame(m)) =~= encode_utf8(command_name(command)) + seq![10u8]
        + header_lines(own, escaped) + seq![10u8, 0u8]);
    assert forall|key: Seq<char>, value: Option<Seq<u8>>|
        header_lines(#[trigger] header_of(key, value), escaped) == (match value {
            Some(v) => header_line((encode_utf8(key), v), escaped),
            None => Seq::empty(),
        }) by {
        lemma_one_header_line(key, value, escaped);
    }
    let line = |key: Seq<char>, value: Seq<char>|
        encode_utf8(key) + seq![58u8] + escape(encode_utf8(value)) + seq![10u8];
    match item.content {
        ToServer::Connect { accept_version, host, login, passcode, heartbeat } => {
            let beats = match heartbeat {
                Some(intervals) => Some(heartbeat_bytes(intervals)),
                None => None,
            };
            let a = text_header("accept-version"@, Some(accept_version@));
            let b = text_header("host"@, Some(host@));
            let c = text_header("login"@, opt_text(login));
            let d = header_of("heart-beat"@, beats);
            let e = text_header("passcode"@, opt_text(passcode));
            lemma_header_lines_add(a + b + c + d, e, escaped);
            lemma_header_lines_add(a + b + c, d, escaped);
            lemma_header_lines_add(a + b, c, escaped);
            lemma_header_lines_add(a, b, escaped);
            assert(header_lines(d, false) =~= (match heartbeat {
                Some((outgoing, incoming)) => encode_utf8("heart-beat"@) + seq![58u8] + decimal(
                    outgoing as nat,
                ) + seq![44u8] + decimal(incoming as nat) + seq![10u8],
                None => Seq::empty(),
            }));
        },
        ToServer::Send { .. } => {},
        ToServer::Subscribe { destination, id, ack } => {
            let mode = match ack {
                Some(mode) => Some(ack_mode_name(mode)),
                None => None,
            };
            let a = text_header("destination"@, Some(destination@));
            let b = text_header("id"@, Some(id@));
            let c = text_header("ack"@, mode);
            lemma_header_lines_add(a + b, c, escaped);
            lemma_header_lines_add(a, b, escaped);
        },
        ToServer::Ack { id, transaction } => {
            lemma_header_lines_add(
                text_header("id"@, Some(id@)),
                text_header("transaction"@, opt_text(transaction)),
                escaped,
            );
        },
        ToServer::Nack { id, transaction } => {
            lemma_header_lines_add(
                text_header("id"@, Some(id@)),
                text_header("transaction"@, opt_text(transaction)),
                escaped,
            );
        },
        _ => {},
    }
    assert forall|codec: &mut ClientCodec, b: &mut BytesMut| #[trigger]
        call_ensures(ClientCodec::encode, (codec, item, b), Ok(())) implies contents(*final(b))
        == contents(*b) + encode_utf8(command_name(command)) + seq![10u8] + header_lines(
        own,
        escaped,
    ) + seq![10u8, 0u8] by {
        assert(contents(*b) + wire(message_frame(m)) =~= contents(*b) + encode_utf8(
            command_name(command),
        ) + seq![10u8] + header_lines(own, escaped) + seq![10u8, 0u8]);
    }
}

proof fn lemma_one_header_line(key: Seq<char>, value: Option<Seq<u8>>, escaped: bool)
    ensures
        header_lines(header_of(key, value), escaped) == (match value {
            Some(v) => header_line((encode_utf8(key), v), escaped),
            None => Seq::empty(),
        }),
{
    if let Some(v) = value {
        let one = seq![(encode_utf8(key), v)];
        assert(one.drop_last() =~= Seq::empty());
        assert(header_lines(one.drop_last(), escaped) =~= Seq::empty());
        assert(header_lines(one, escaped) =~= header_line(one.last(), escaped));
    }
}

proof fn lemma_names_need_no_escaping()
    ensures
        escape(encode_utf8("destination"@)) == encode_utf8("destination"@),
        escape(encode_utf8("id"@)) == encode_utf8("id"@),
        escape(encode_utf8("ack"@)) == encode_utf8("ack"@),
        escape(encode_utf8("transaction"@)) == encode_utf8("transaction"@),
        escape(encode_utf8("receipt"@)) == encode_utf8("receipt"@),
        escape(encode_utf8("auto"@)) == encode_utf8("auto"@),
        escape(encode_utf8("client"@)) == encode_utf8("client"@),
        escape(encode_utf8("client-individual"@)) == encode_utf8("client-individual"@),
{
    lemma_header_names();
    lemma_name_is_plain("destination"@);
    lemma_name_is_plain("id"@);
    lemma_name_is_plain("ack"@);
    lemma_name_is_plain("transaction"@);
    lemma_name_is_plain("receipt"@);
    assert(is_name("auto"@) && is_name("client"@) && is_name("client-individual"@)) by {
        reveal(is_name);
        reveal_strlit("auto");
        reveal_strlit("client");
        reveal_strlit("client-individual");
    }
    lemma_name_is_plain("auto"@);
    lemma_name_is_plain("client"@);
    lemma_name_is_plain("client-individual"@);
}

/// A heart-beat is one line feed behind what the buffer held, unless no buffer
/// could hold that.
pub proof fn law_heartbeat_is_a_line_feed()
    ensures
        forall|codec: &mut ClientCodec, b: &mut BytesMut, r: Result<(), Error>|
            #[trigger] call_ensures(ClientCodec::encode_heartbeat, (codec, b), r) ==> (if contents(
                *b,
            ).len() + 1 <= isize::MAX {
                r is Ok && contents(*final(b)) == contents(*b) + seq![10u8]
            } else {
                r == Err::<(), Error>(Error::BufferFull) && *final(b) == *b
            }),
{
    assert(forall|s: Seq<u8>| #[trigger] s.push(10) =~= s + seq![10u8]);
}

/// A message made of its content alone has no extra headers.
pub proof fn law_bare_message_has_no_extra_headers(content: ToServer, m: Message<ToServer>)
    requires
        call_ensures(<Message<ToServer> as From<ToServer>>::from, (content,), m),
    ensures
        m.content == content,
        m.extra_headers@.len() == 0,
{
}

} // verus!
