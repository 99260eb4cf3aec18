//! What a client makes of the frames of a server: the literal commands and header
//! names of STOMP 1.2, and where each value ends up.
//!
//! The laws here speak of what the library's functions return, whatever their
//! contracts are written in terms of.

use crate::buffer::contents;
use crate::client::{beats_end, ClientCodec};
use crate::convert::{
    all_headers, expect_header, expect_raw_header, fetch_header, fetch_raw_header, header_text,
    header_texts, header_to_string, is_among, keys_view, optional_headers, server_command,
    server_keys, without, ServerCommand,
};
use crate::error::{Error, ErrorView};
use crate::escape::unescape;
use crate::frame::{headers_view, Frame, Header};
use crate::grammar::{parse_frame, skip_line_ending, value_of, ParseError};
use crate::model::texts;
use crate::names::lemma_encode_is_injective;
use crate::{FromServer, Message, ToServer};
use bytes::BytesMut;
use vstd::prelude::*;
use vstd::utf8::*;

verus! {

/// The value of a header is that of the first one with its name.
pub proof fn law_value_is_that_of_the_first_header(
    hs: Seq<(Seq<u8>, Seq<u8>)>,
    key: Seq<u8>,
    i: int,
)
    ensures
        (forall|j: int| 0 <= j < hs.len() ==> (#[trigger] hs[j]).0 != key) ==> value_of(hs, key)
            is None,
        0 <= i < hs.len() && hs[i].0 == key && (forall|j: int|
            0 <= j < i ==> (#[trigger] hs[j]).0 != key) ==> value_of(hs, key) == Some(hs[i].1),
    decreases hs.len(),
{
    if hs.len() > 0 {
        let rest = hs.skip(1);
        law_value_is_that_of_the_first_header(rest, key, i - 1);
        assert(forall|j: int| 0 <= j < rest.len() ==> #[trigger] rest[j] == hs[j + 1]);
    }
}

/// A header is fetched by its name: the text of the first one that has it,
/// unescaped or as it is, and nothing if there is none or it is not UTF-8.
pub proof fn law_header_is_fetched_by_name(
    headers: &[Header<'_>],
    key: &str,
    i: int,
    plain: Option<String>,
    raw: Option<String>,
)
    requires
        call_ensures(fetch_header, (headers, key), plain),
        call_ensures(fetch_raw_header, (headers, key), raw),
        0 <= i <= headers@.len(),
        forall|j: int| 0 <= j < i ==> (#[trigger] headers@[j]).0@ != encode_utf8(key@),
        i < headers@.len() ==> headers@[i].0@ == encode_utf8(key@),
    ensures
        i == headers@.len() ==> plain is None && raw is None,
        i < headers@.len() ==> {
            &&& raw is Some <==> valid_utf8(headers@[i].1@)
            &&& raw matches Some(text) ==> text@ == decode_utf8(headers@[i].1@)
            &&& plain is Some <==> valid_utf8(unescape(headers@[i].1@))
            &&& plain matches Some(text) ==> text@ == decode_utf8(unescape(headers@[i].1@))
        },
{
    let hs = headers_view(headers@);
    assert(hs.len() == headers@.len());
    assert(forall|j: int|
        0 <= j < hs.len() ==> #[trigger] hs[j] == (headers@[j].0@, headers@[j].1@));
    law_value_is_that_of_the_first_header(hs, encode_utf8(key@), i);
}

/// Where each header is text, all are text: name by name, and each value
/// unescaped.
proof fn lemma_all_headers_are_text(hs: Seq<(Seq<u8>, Seq<u8>)>)
    requires
        forall|i: int|
            0 <= i < hs.len() ==> valid_utf8((#[trigger] hs[i]).0) && valid_utf8(unescape(hs[i].1)),
    ensures
        header_texts(hs) == Ok::<Seq<(Seq<char>, Seq<char>)>, ErrorView>(
            hs.map_values(
                |h: (Seq<u8>, Seq<u8>)| (decode_utf8(h.0), decode_utf8(unescape(h.1))),
            ),
        ),
    decreases hs.len(),
{
    let f = |h: (Seq<u8>, Seq<u8>)| (decode_utf8(h.0), decode_utf8(unescape(h.1)));
    if hs.len() == 0 {
        assert(hs.map_values(f) =~= Seq::empty());
    } else {
        let init = hs.drop_last();
        assert(forall|i: int| 0 <= i < init.len() ==> #[trigger] init[i] == hs[i]);
        lemma_all_headers_are_text(init);
        assert(hs.last() == hs[hs.len() - 1]);
        assert(hs.map_values(f) =~= init.map_values(f).push(f(hs.last())));
    }
}

/// The first header that is not text decides the error.
proof fn lemma_first_bad_header(hs: Seq<(Seq<u8>, Seq<u8>)>, i: int)
    requires
        0 <= i < hs.len(),
        forall|j: int|
            0 <= j < i ==> valid_utf8((#[trigger] hs[j]).0) && valid_utf8(unescape(hs[j].1)),
        !(valid_utf8(hs[i].0) && valid_utf8(unescape(hs[i].1))),
    ensures
        header_texts(hs) == Err::<Seq<(Seq<char>, Seq<char>)>, ErrorView>(
            header_text(hs[i])->Err_0,
        ),
    decreases hs.len(),
{
    let init = hs.drop_last();
    assert(forall|j: int| 0 <= j < init.len() ==> #[trigger] init[j] == hs[j]);
    if i < hs.len() - 1 {
        lemma_first_bad_header(init, i);
    } else {
        lemma_all_headers_are_text(init);
        assert(hs.last() == hs[i]);
    }
}

/// All headers of a frame become text, in order, unless one of them is not
/// UTF-8; the first of those is the error.
pub proof fn law_headers_become_text(
    headers: &[Header<'_>],
    i: int,
    r: Result<Vec<(String, String)>, Error>,
)
    requires
        call_ensures(all_headers, (headers,), r),
        0 <= i <= headers@.len(),
        forall|j: int|
            0 <= j < i ==> valid_utf8((#[trigger] headers@[j]).0@) && valid_utf8(
                unescape(headers@[j].1@),
            ),
        i < headers@.len() ==> !(valid_utf8(headers@[i].0@) && valid_utf8(
            unescape(headers@[i].1@),
        )),
    ensures
        i < headers@.len() && !valid_utf8(headers@[i].0@) ==> r matches Err(
            Error::HeaderNameNotUtf8,
        ),
        i < headers@.len() && valid_utf8(headers@[i].0@) ==> (r matches Err(
            Error::HeaderValueNotUtf8(name),
        ) && name@ == decode_utf8(headers@[i].0@)),
        i == headers@.len() ==> {
            &&& r is Ok
            &&& r->Ok_0@.len() == headers@.len()
            &&& forall|j: int|
                #![trigger r->Ok_0@[j]]
                #![trigger headers@[j]]
                0 <= j < headers@.len() ==> r->Ok_0@[j].0@ == decode_utf8(headers@[j].0@)
                    && r->Ok_0@[j].1@ == decode_utf8(unescape(headers@[j].1@))
        },
{
    let hs = headers_view(headers@);
    assert(hs.len() == headers@.len());
    assert(forall|j: int|
        0 <= j < hs.len() ==> #[trigger] hs[j] == (headers@[j].0@, headers@[j].1@));
    if i < hs.len() {
        lemma_first_bad_header(hs, i);
    } else {
        lemma_all_headers_are_text(hs);
        let read = hs.map_values(
            |h: (Seq<u8>, Seq<u8>)| (decode_utf8(h.0), decode_utf8(unescape(h.1))),
        );
        assert(r is Ok);
        let found = r->Ok_0@;
        let seen = texts(found);
        assert(seen == read);
        assert(seen.len() == found.len());
        assert forall|j: int|
            #![trigger r->Ok_0@[j]]
            #![trigger headers@[j]]
            0 <= j < headers@.len() implies r->Ok_0@[j].0@ == decode_utf8(headers@[j].0@)
            && r->Ok_0@[j].1@ == decode_utf8(unescape(headers@[j].1@)) by {
            assert(seen[j] == (found[j].0@, found[j].1@));
            assert(read[j] == (decode_utf8(hs[j].0), decode_utf8(unescape(hs[j].1))));
        }
    }
}

/// Leaving out the headers with some names is keeping those with others.
pub proof fn lemma_without_is_a_filter(
    hs: Seq<(Seq<u8>, Seq<u8>)>,
    keys: Seq<Seq<char>>,
    kept: spec_fn((Seq<u8>, Seq<u8>)) -> bool,
)
    requires
        forall|h: (Seq<u8>, Seq<u8>)| #[trigger] kept(h) == !is_among(h.0, keys),
    ensures
        without(hs, keys) == hs.filter(kept),
    decreases hs.len(),
{
    reveal(Seq::filter);
    if hs.len() > 0 {
        lemma_without_is_a_filter(hs.drop_last(), keys, kept);
    }
}

/// A text names a server's command in upper or in lower case.
proof fn lemma_server_spellings(text: Seq<char>)
    ensures
        server_command(encode_utf8(text)) == (if text == "CONNECTED"@ || text == "connected"@ {
            Some(ServerCommand::Connected)
        } else if text == "MESSAGE"@ || text == "message"@ {
            Some(ServerCommand::Message)
        } else if text == "RECEIPT"@ || text == "receipt"@ {
            Some(ServerCommand::Receipt)
        } else if text == "ERROR"@ || text == "error"@ {
            Some(ServerCommand::Error)
        } else {
            None
        }),
{
    lemma_encode_is_injective(text, "CONNECTED"@);
    lemma_encode_is_injective(text, "connected"@);
    lemma_encode_is_injective(text, "MESSAGE"@);
    lemma_encode_is_injective(text, "message"@);
    lemma_encode_is_injective(text, "RECEIPT"@);
    lemma_encode_is_injective(text, "receipt"@);
    lemma_encode_is_injective(text, "ERROR"@);
    lemma_encode_is_injective(text, "error"@);
}

/// The extra headers of a CONNECTED frame's message, and what its fields hold:
/// the texts of the headers version, session, server and heart-beat, as they
/// are. Only the version has to be there.
pub proof fn law_connected_is_read_by_names(
    f: &Frame<'_>,
    hs: Seq<(Seq<u8>, Seq<u8>)>,
    r: Result<Message<FromServer>, Error>,
)
    requires
        call_ensures(Frame::to_server_msg, (f,), r),
        f.command@ == encode_utf8("CONNECTED"@) || f.command@ == encode_utf8("connected"@),
        hs == f.headers@.map_values(|h: Header<'_>| (h.0@, h.1@)),
    ensures
        ({
            let field = |key: Seq<char>|
                match value_of(hs, encode_utf8(key)) {
                    Some(v) => if valid_utf8(v) {
                        Some(decode_utf8(v))
                    } else {
                        None
                    },
                    None => None,
                };
            let text = |s: Option<String>|
                match s {
                    Some(s) => Some(s@),
                    None => None,
                };
            match field("version"@) {
                None => r matches Err(Error::MissingHeader(key)) && key@ == "version"@,
                Some(named) => r matches Ok(m) && m.content matches FromServer::Connected {
                    version,
                    session,
                    server,
                    heartbeat,
                } && version@ == named && text(session) == field("session"@) && text(server)
                    == field("server"@) && text(heartbeat) == field("heart-beat"@)
                    && m.extra_headers@.map_values(|h: (Vec<u8>, Vec<u8>)| (h.0@, h.1@))
                    == hs.filter(
                    |h: (Seq<u8>, Seq<u8>)|
                        h.0 != encode_utf8("version"@) && h.0 != encode_utf8("session"@) && h.0
                            != encode_utf8("server"@) && h.0 != encode_utf8("heart-beat"@),
                ),
            }
        }),
{
    assert(hs =~= f@.headers);
    lemma_server_spellings("CONNECTED"@);
    lemma_server_spellings("connected"@);
    let keys = server_keys(ServerCommand::Connected);
    let kept = |h: (Seq<u8>, Seq<u8>)|
        h.0 != encode_utf8("version"@) && h.0 != encode_utf8("session"@) && h.0 != encode_utf8(
            "server"@,
        ) && h.0 != encode_utf8("heart-beat"@);
    assert forall|h: (Seq<u8>, Seq<u8>)| #[trigger] kept(h) == !is_among(h.0, keys) by {
        assert(encode_utf8(keys[0]) == encode_utf8("version"@));
        assert(encode_utf8(keys[1]) == encode_utf8("session"@));
        assert(encode_utf8(keys[2]) == encode_utf8("server"@));
        assert(encode_utf8(keys[3]) == encode_utf8("heart-beat"@));
    }
    lemma_without_is_a_filter(hs, keys, kept);
    if let Ok(m) = r {
        assert(m.extra_headers@.map_values(|h: (Vec<u8>, Vec<u8>)| (h.0@, h.1@))
            =~= m@.extra_headers);
    }
}

/// A MESSAGE is read by the names of its headers: destination, message-id and
/// subscription, which have to be there, and ack, all unescaped; then all of its
/// headers as text, and its body.
pub proof fn law_message_is_read_by_names(
    f: &Frame<'_>,
    headers: &[Header<'_>],
    hs: Seq<(Seq<u8>, Seq<u8>)>,
    all: Result<Vec<(String, String)>, Error>,
    r: Result<Message<FromServer>, Error>,
)
    requires
        call_ensures(Frame::to_server_msg, (f,), r),
        f.command@ == encode_utf8("MESSAGE"@) || f.command@ == encode_utf8("message"@),
        hs == f.headers@.map_values(|h: Header<'_>| (h.0@, h.1@)),
        headers@ == f.headers@,
        call_ensures(all_headers, (headers,), all),
    ensures
        ({
            let field = |key: Seq<char>|
                match value_of(hs, encode_utf8(key)) {
                    Some(v) => if valid_utf8(unescape(v)) {
                        Some(decode_utf8(unescape(v)))
                    } else {
                        None
                    },
                    None => None,
                };
            let text = |s: Option<String>|
                match s {
                    Some(s) => Some(s@),
                    None => None,
                };
            let missing = |key: Seq<char>|
                r matches Err(Error::MissingHeader(named)) && named@ == key;
            if field("destination"@) is None {
                missing("destination"@)
            } else if field("message-id"@) is None {
                missing("message-id"@)
            } else if field("subscription"@) is None {
                missing("subscription"@)
            } else {
                match all {
                    Err(e) => r matches Err(found) && found@ == e@,
                    Ok(pairs) => r matches Ok(m) && m.content matches FromServer::Message {
                        destination,
                        message_id,
                        subscription,
                        ack,
                        headers,
                        body,
                    } && Some(destination@) == field("destination"@) && Some(message_id@) == field(
                        "message-id"@,
                    ) && Some(subscription@) == field("subscription"@) && text(ack) == field("ack"@)
                        && headers@.map_values(|h: (String, String)| (h.0@, h.1@))
                        == pairs@.map_values(|h: (String, String)| (h.0@, h.1@)) && (match f.body {
                        Some(sent) => body matches Some(b) && b@ == sent@,
                        None => body is None,
                    }) && m.extra_headers@.map_values(|h: (Vec<u8>, Vec<u8>)| (h.0@, h.1@))
                        == hs.filter(
                        |h: (Seq<u8>, Seq<u8>)|
                            h.0 != encode_utf8("destination"@) && h.0 != encode_utf8("message-id"@)
                                && h.0 != encode_utf8("subscription"@) && h.0 != encode_utf8(
                                "ack"@,
                            ),
                    ),
                }
            }
        }),
{
    assert(hs =~= f@.headers);
    assert(headers_view(headers@) =~= hs);
    lemma_server_spellings("MESSAGE"@);
    lemma_server_spellings("message"@);
    lemma_server_commands_differ();
    let keys = server_keys(ServerCommand::Message);
    let kept = |h: (Seq<u8>, Seq<u8>)|
        h.0 != encode_utf8("destination"@) && h.0 != encode_utf8("message-id"@) && h.0
            != encode_utf8("subscription"@) && h.0 != encode_utf8("ack"@);
    assert forall|h: (Seq<u8>, Seq<u8>)| #[trigger] kept(h) == !is_among(h.0, keys) by {
        assert(encode_utf8(keys[0]) == encode_utf8("destination"@));
        assert(encode_utf8(keys[1]) == encode_utf8("message-id"@));
        assert(encode_utf8(keys[2]) == encode_utf8("subscription"@));
        assert(encode_utf8(keys[3]) == encode_utf8("ack"@));
    }
    lemma_without_is_a_filter(hs, keys, kept);
    if let Ok(m) = r {
        assert(m.extra_headers@.map_values(|h: (Vec<u8>, Vec<u8>)| (h.0@, h.1@))
            =~= m@.extra_headers);
        if let FromServer::Message { headers: found, .. } = m.content {
            assert(found@.map_values(|h: (String, String)| (h.0@, h.1@)) =~= texts(found@));
        }
    }
    if let Ok(pairs) = all {
        assert(pairs@.map_values(|h: (String, String)| (h.0@, h.1@)) =~= texts(pairs@));
    }
}

proof fn lemma_server_commands_differ()
    ensures
        "MESSAGE"@ != "CONNECTED"@,
        "MESSAGE"@ != "connected"@,
        "message"@ != "CONNECTED"@,
        "message"@ != "connected"@,
        "RECEIPT"@ != "CONNECTED"@,
        "RECEIPT"@ != "connected"@,
        "receipt"@ != "CONNECTED"@,
        "receipt"@ != "connected"@,
        "RECEIPT"@ != "MESSAGE"@,
        "RECEIPT"@ != "message"@,
        "receipt"@ != "MESSAGE"@,
        "receipt"@ != "message"@,
        "ERROR"@.len() == 5,
        "error"@.len() == 5,
        "CONNECTED"@.len() == 9,
        "connected"@.len() == 9,
        "MESSAGE"@.len() == 7,
        "message"@.len() == 7,
        "RECEIPT"@.len() == 7,
        "receipt"@.len() == 7,
{
    reveal_strlit("CONNECTED");
    reveal_strlit("connected");
    reveal_strlit("MESSAGE");
    reveal_strlit("message");
    reveal_strlit("RECEIPT");
    reveal_strlit("receipt");
    reveal_strlit("ERROR");
    reveal_strlit("error");
    assert("MESSAGE"@[0] == 'M' && "message"@[0] == 'm' && "RECEIPT"@[0] == 'R' && "receipt"@[0]
        == 'r');
}

/// A RECEIPT is read by the name of its header, receipt-id, which has to be
/// there.
pub proof fn law_receipt_is_read_by_names(
    f: &Frame<'_>,
    hs: Seq<(Seq<u8>, Seq<u8>)>,
    r: Result<Message<FromServer>, Error>,
)
    requires
        call_ensures(Frame::to_server_msg, (f,), r),
        f.command@ == encode_utf8("RECEIPT"@) || f.command@ == encode_utf8("receipt"@),
        hs == f.headers@.map_values(|h: Header<'_>| (h.0@, h.1@)),
    ensures
        ({
            let named = match value_of(hs, encode_utf8("receipt-id"@)) {
                Some(v) => if valid_utf8(unescape(v)) {
                    Some(decode_utf8(unescape(v)))
                } else {
                    None
                },
                None => None,
            };
            match named {
                None => r matches Err(Error::MissingHeader(key)) && key@ == "receipt-id"@,
                Some(id) => r matches Ok(m) && m.content matches FromServer::Receipt { receipt_id }
                    && receipt_id@ == id && m.extra_headers@.map_values(
                    |h: (Vec<u8>, Vec<u8>)| (h.0@, h.1@),
                ) == hs.filter(|h: (Seq<u8>, Seq<u8>)| h.0 != encode_utf8("receipt-id"@)),
            }
        }),
{
    assert(hs =~= f@.headers);
    lemma_server_spellings("RECEIPT"@);
    lemma_server_spellings("receipt"@);
    lemma_server_commands_differ();
    let keys = server_keys(ServerCommand::Receipt);
    let kept = |h: (Seq<u8>, Seq<u8>)| h.0 != encode_utf8("receipt-id"@);
    assert forall|h: (Seq<u8>, Seq<u8>)| #[trigger] kept(h) == !is_among(h.0, keys) by {
        assert(encode_utf8(keys[0]) == encode_utf8("receipt-id"@));
    }
    lemma_without_is_a_filter(hs, keys, kept);
    if let Ok(m) = r {
        assert(m.extra_headers@.map_values(|h: (Vec<u8>, Vec<u8>)| (h.0@, h.1@))
            =~= m@.extra_headers);
    }
}

/// An ERROR is always read: the text of its header message, if there is one, and
/// its body.
pub proof fn law_error_is_read_by_names(
    f: &Frame<'_>,
    hs: Seq<(Seq<u8>, Seq<u8>)>,
    r: Result<Message<FromServer>, Error>,
)
    requires
        call_ensures(Frame::to_server_msg, (f,), r),
        f.command@ == encode_utf8("ERROR"@) || f.command@ == encode_utf8("error"@),
        hs == f.headers@.map_values(|h: Header<'_>| (h.0@, h.1@)),
    ensures
        r matches Ok(m) && m.content matches FromServer::Error { message, body } && (match value_of(
            hs,
            encode_utf8("message"@),
        ) {
            Some(v) => if valid_utf8(unescape(v)) {
                message matches Some(text) && text@ == decode_utf8(unescape(v))
            } else {
                message is None
            },
            None => message is None,
        }) && (match f.body {
            Some(sent) => body matches Some(b) && b@ == sent@,
            None => body is None,
        }) && m.extra_headers@.map_values(|h: (Vec<u8>, Vec<u8>)| (h.0@, h.1@)) == hs.filter(
            |h: (Seq<u8>, Seq<u8>)| h.0 != encode_utf8("message"@),
        ),
{
    assert(hs =~= f@.headers);
    lemma_server_spellings("ERROR"@);
    lemma_server_spellings("error"@);
    lemma_server_commands_differ();
    let keys = server_keys(ServerCommand::Error);
    let kept = |h: (Seq<u8>, Seq<u8>)| h.0 != encode_utf8("message"@);
    assert forall|h: (Seq<u8>, Seq<u8>)| #[trigger] kept(h) == !is_among(h.0, keys) by {
        assert(encode_utf8(keys[0]) == encode_utf8("message"@));
    }
    lemma_without_is_a_filter(hs, keys, kept);
    if let Ok(m) = r {
        assert(m.extra_headers@.map_values(|h: (Vec<u8>, Vec<u8>)| (h.0@, h.1@))
            =~= m@.extra_headers);
    }
}

/// Any other command is refused, with the command in the error.
pub proof fn law_other_commands_are_refused(f: &Frame<'_>, r: Result<Message<FromServer>, Error>)
    requires
        call_ensures(Frame::to_server_msg, (f,), r),
        f.command@ != encode_utf8("CONNECTED"@),
        f.command@ != encode_utf8("connected"@),
        f.command@ != encode_utf8("MESSAGE"@),
        f.command@ != encode_utf8("message"@),
        f.command@ != encode_utf8("RECEIPT"@),
        f.command@ != encode_utf8("receipt"@),
        f.command@ != encode_utf8("ERROR"@),
        f.command@ != encode_utf8("error"@),
    ensures
        r matches Err(Error::UnrecognizedFrame(command)) && command@ == f.command@,
{
}

/// The bytes of a CONNECTED frame are decoded by the names of its headers:
/// version, which has to be there, session, server and heart-beat, each the text
/// of the first header with that very name, and none if there is no such header
/// or it is not UTF-8.
pub proof fn law_connected_is_decoded_by_names(
    s: Seq<u8>,
    frame: Frame<'_>,
    hs: Seq<(Seq<u8>, Seq<u8>)>,
)
    requires
        s.len() >= 1 ==> s[0] != 10,
        s.len() >= 2 && s[0] == 13 ==> s[1] != 10,
        exists|input: &mut &[u8]|
            #[trigger] call_ensures(parse_frame, (input,), Ok::<Frame<'_>, ParseError>(frame))
                && (*input)@ == s,
        frame.command@ == encode_utf8("CONNECTED"@) || frame.command@ == encode_utf8("connected"@),
        hs == frame.headers@.map_values(|h: Header<'_>| (h.0@, h.1@)),
    ensures
        ({
            let field = |key: Seq<char>|
                match value_of(hs, encode_utf8(key)) {
                    Some(v) => if valid_utf8(v) {
                        Some(decode_utf8(v))
                    } else {
                        None
                    },
                    None => None,
                };
            let text = |s: Option<String>|
                match s {
                    Some(s) => Some(s@),
                    None => None,
                };
            forall|
                codec: &mut ClientCodec,
                b: &mut BytesMut,
                r: Result<Option<Message<FromServer>>, Error>,
            |
                #[trigger] call_ensures(ClientCodec::decode, (codec, b), r) && contents(*b) == s
                    ==> (match field("version"@) {
                    None => r matches Err(Error::MissingHeader(key)) && key@ == "version"@,
                    Some(named) => r matches Ok(Some(m))
                        && m.content matches FromServer::Connected {
                        version,
                        session,
                        server,
                        heartbeat,
                    } && version@ == named && text(session) == field("session"@) && text(server)
                        == field("server"@) && text(heartbeat) == field("heart-beat"@),
                })
        }),
{
    assert(skip_line_ending(s, 0) == 0);
    assert(beats_end(s, 0) == 0);
    assert(s.skip(0) =~= s);
    assert(hs =~= frame@.headers);
}

/// Messages that look the same are the same, field by field.
pub proof fn law_view_of_a_message_tells_all(a: Message<FromServer>, b: Message<FromServer>)
    requires
        a@ == b@,
    ensures
        ({
            let text = |s: Option<String>|
                match s {
                    Some(s) => Some(s@),
                    None => None,
                };
            let bytes = |s: Option<Vec<u8>>|
                match s {
                    Some(s) => Some(s@),
                    None => None,
                };
            match a.content {
                FromServer::Connected { version, session, server, heartbeat } => {
                    &&& b.content is Connected
                    &&& version@ == b.content->version@
                    &&& text(session) == text(b.content->session)
                    &&& text(server) == text(b.content->server)
                    &&& text(heartbeat) == text(b.content->heartbeat)
                },
                FromServer::Message {
                    destination,
                    message_id,
                    subscription,
                    ack,
                    headers,
                    body,
                } => {
                    &&& b.content is Message
                    &&& destination@ == b.content->destination@
                    &&& message_id@ == b.content->message_id@
                    &&& subscription@ == b.content->subscription@
                    &&& text(ack) == text(b.content->ack)
                    &&& headers@.map_values(|h: (String, String)| (h.0@, h.1@))
                        == b.content->headers@.map_values(|h: (String, String)| (h.0@, h.1@))
                    &&& bytes(body) == bytes(b.content->Message_body)
                },
                FromServer::Receipt { receipt_id } => {
                    &&& b.content is Receipt
                    &&& receipt_id@ == b.content->receipt_id@
                },
                FromServer::Error { message, body } => {
                    &&& b.content is Error
                    &&& text(message) == text(b.content->message)
                    &&& bytes(body) == bytes(b.content->Error_body)
                },
            }
        }),
        a.extra_headers@.map_values(|h: (Vec<u8>, Vec<u8>)| (h.0@, h.1@))
            == b.extra_headers@.map_values(|h: (Vec<u8>, Vec<u8>)| (h.0@, h.1@)),
{
    assert(a.extra_headers@.map_values(|h: (Vec<u8>, Vec<u8>)| (h.0@, h.1@)) =~= a@.extra_headers);
    assert(b.extra_headers@.map_values(|h: (Vec<u8>, Vec<u8>)| (h.0@, h.1@)) =~= b@.extra_headers);
    if a.content is Message {
        let f = |h: (String, String)| (h.0@, h.1@);
        assert(a.content->headers@.map_values(f) =~= texts(a.content->headers@));
        assert(b.content->headers@.map_values(f) =~= texts(b.content->headers@));
    }
}

/// A required header is the one that is fetched; without one the error names it.
pub proof fn law_required_header_is_fetched(
    headers: &[Header<'_>],
    key: &str,
    plain: Option<String>,
    raw: Option<String>,
    expected: Result<String, Error>,
    expected_raw: Result<String, Error>,
)
    requires
        call_ensures(fetch_header, (headers, key), plain),
        call_ensures(fetch_raw_header, (headers, key), raw),
        call_ensures(expect_header, (headers, key), expected),
        call_ensures(expect_raw_header, (headers, key), expected_raw),
    ensures
        plain matches Some(text) ==> (expected matches Ok(found) && found@ == text@),
        plain is None ==> (expected matches Err(Error::MissingHeader(named)) && named@ == key@),
        raw matches Some(text) ==> (expected_raw matches Ok(found) && found@ == text@),
        raw is None ==> (expected_raw matches Err(Error::MissingHeader(named)) && named@ == key@),
{
}

/// A header becomes text if its name and its unescaped value are UTF-8; else the
/// error tells which of the two is not, the name first.
pub proof fn law_header_becomes_text(key: &[u8], value: &[u8], r: Result<(String, String), Error>)
    requires
        call_ensures(header_to_string, (key, value), r),
    ensures
        !valid_utf8(key@) ==> r matches Err(Error::HeaderNameNotUtf8),
        valid_utf8(key@) && !valid_utf8(unescape(value@)) ==> (r matches Err(
            Error::HeaderValueNotUtf8(name),
        ) && name@ == decode_utf8(key@)),
        valid_utf8(key@) && valid_utf8(unescape(value@)) ==> (r matches Ok((name, text)) && name@
            == decode_utf8(key@) && text@ == decode_utf8(unescape(value@))),
{
}

/// The headers that no field stands for become text like any others: those whose
/// names are not listed, in order. None of them is no list at all.
pub proof fn law_other_headers_become_text(
    headers: &[Header<'_>],
    names: &[&str],
    kept: &[Header<'_>],
    all: Result<Vec<(String, String)>, Error>,
    r: Result<Option<Vec<(String, String)>>, Error>,
)
    requires
        call_ensures(optional_headers, (headers, names), r),
        call_ensures(all_headers, (kept,), all),
        kept@.map_values(|h: Header<'_>| (h.0@, h.1@)) == headers@.map_values(
            |h: Header<'_>| (h.0@, h.1@),
        ).filter(
            |h: (Seq<u8>, Seq<u8>)|
                forall|i: int|
                    0 <= i < names@.len() ==> h.0 != encode_utf8((#[trigger] names@[i])@),
        ),
    ensures
        all matches Err(e) ==> (r matches Err(found) && found@ == e@),
        kept@.len() == 0 ==> r matches Ok(None),
        kept@.len() > 0 && all is Ok ==> (r matches Ok(Some(found)) && found@.map_values(
            |h: (String, String)| (h.0@, h.1@),
        ) == all->Ok_0@.map_values(|h: (String, String)| (h.0@, h.1@))),
{
    let hs = headers_view(headers@);
    let keys = keys_view(names@);
    let others = |h: (Seq<u8>, Seq<u8>)|
        forall|i: int| 0 <= i < names@.len() ==> h.0 != encode_utf8((#[trigger] names@[i])@);
    assert(headers@.map_values(|h: Header<'_>| (h.0@, h.1@)) =~= hs);
    assert(kept@.map_values(|h: Header<'_>| (h.0@, h.1@)) =~= headers_view(kept@));
    assert(keys.len() == names@.len());
    assert(forall|i: int| 0 <= i < keys.len() ==> #[trigger] keys[i] == names@[i]@);
    assert forall|h: (Seq<u8>, Seq<u8>)| #[trigger] others(h) == !is_among(h.0, keys) by {
        if is_among(h.0, keys) {
            let i = choose|i: int| 0 <= i < keys.len() && encode_utf8(#[trigger] keys[i]) == h.0;
            assert(encode_utf8(names@[i]@) == h.0);
        }
        if !others(h) {
            let i = choose|i: int|
                0 <= i < names@.len() && h.0 == encode_utf8((#[trigger] names@[i])@);
            assert(encode_utf8(keys[i]) == h.0);
        }
    }
    lemma_without_is_a_filter(hs, keys, others);
    let left = headers_view(kept@);
    assert(left == without(hs, keys));
    assert(left.len() == kept@.len());
    lemma_as_many_texts(left);
    if let Ok(list) = all {
        assert(list@.map_values(|h: (String, String)| (h.0@, h.1@)) =~= texts(list@));
        assert(texts(list@).len() == list@.len());
    }
    if let Ok(Some(list)) = r {
        assert(list@.map_values(|h: (String, String)| (h.0@, h.1@)) =~= texts(list@));
    }
}

proof fn lemma_as_many_texts(hs: Seq<(Seq<u8>, Seq<u8>)>)
    ensures
        header_texts(hs) matches Ok(ts) ==> ts.len() == hs.len(),
    decreases hs.len(),
{
    if hs.len() > 0 {
        lemma_as_many_texts(hs.drop_last());
    }
}

/// Errors that look the same are the same, and tell what they are about.
pub proof fn law_view_of_an_error_tells_all(a: Error, b: Error)
    requires
        a@ == b@,
    ensures
        match a {
            Error::MissingHeader(x) => b matches Error::MissingHeader(y) && x@ == y@,
            Error::HeaderNameNotUtf8 => b is HeaderNameNotUtf8,
            Error::HeaderValueNotUtf8(x) => b matches Error::HeaderValueNotUtf8(y) && x@ == y@,
            Error::InvalidAckMode(x) => b matches Error::InvalidAckMode(y) && x@ == y@,
            Error::UnrecognizedFrame(x) => b matches Error::UnrecognizedFrame(y) && x@ == y@,
            Error::BadHeartbeat => b is BadHeartbeat,
            Error::BadInterval(x) => b matches Error::BadInterval(y) && x == y,
            Error::FrameTooLarge(x) => b matches Error::FrameTooLarge(y) && x == y,
            Error::ParseFailed(x) => b matches Error::ParseFailed(y) && x == y,
            Error::BufferFull => b is BufferFull,
            Error::UnexpectedReply(x) => b matches Error::UnexpectedReply(y) && x@ == y@,
            Error::WrongVersion(x) => b matches Error::WrongVersion(y) && x@ == y@,
            Error::NoHostname => b is NoHostname,
        },
{
}

/// A message is made from a frame as the frame is read.
pub proof fn law_message_is_made_from_its_frame(
    f: Frame<'_>,
    received: Result<Message<FromServer>, Error>,
    read: Result<Message<FromServer>, Error>,
    sent: Result<Message<ToServer>, Error>,
    read_sent: Result<Message<ToServer>, Error>,
)
    requires
        call_ensures(Message::<FromServer>::from_frame, (f,), received),
        call_ensures(Frame::to_server_msg, (&f,), read),
        call_ensures(Message::<ToServer>::from_frame, (f,), sent),
        call_ensures(Frame::to_client_msg, (&f,), read_sent),
    ensures
        read matches Ok(m) ==> (received matches Ok(n) && n@ == m@),
        read matches Err(e) ==> (received matches Err(found) && found@ == e@),
        read_sent matches Ok(m) ==> (sent matches Ok(n) && n@ == m@),
        read_sent matches Err(e) ==> (sent matches Err(found) && found@ == e@),
{
}

} // verus!
