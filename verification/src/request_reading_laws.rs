//! What a server makes of the frames of a client: the literal commands and header
//! names of STOMP 1.2, and where each value ends up.
//!
//! The laws here speak of what the library's functions return, whatever their
//! contracts are written in terms of.

use crate::convert::{
    client_command, client_keys, client_message, connect_content, is_among, keys_view,
    optional_headers, ClientCommand,
};
use crate::error::Error;
use crate::escape::unescape;
use crate::frame::{headers_view, Frame, Header};
use crate::grammar::value_of;
use crate::heartbeat::parse_heartbeat;
use crate::model::{outcome, texts};
use crate::names::{lemma_client_command, lemma_command_names};
use crate::received_laws::lemma_without_is_a_filter;
use crate::{AckMode, Message, ToServer};
use vstd::prelude::*;
use vstd::utf8::*;

verus! {

/// The spellings of the commands in lower case, and the one more of CONNECT.
proof fn lemma_other_spellings()
    ensures
        client_command(encode_utf8("STOMP"@)) == Some(ClientCommand::Connect),
        client_command(encode_utf8("stomp"@)) == Some(ClientCommand::Connect),
        client_command(encode_utf8("disconnect"@)) == Some(ClientCommand::Disconnect),
        client_command(encode_utf8("unsubscribe"@)) == Some(ClientCommand::Unsubscribe),
        client_command(encode_utf8("ack"@)) == Some(ClientCommand::Ack),
        client_command(encode_utf8("nack"@)) == Some(ClientCommand::Nack),
        client_command(encode_utf8("begin"@)) == Some(ClientCommand::Begin),
        client_command(encode_utf8("commit"@)) == Some(ClientCommand::Commit),
        client_command(encode_utf8("abort"@)) == Some(ClientCommand::Abort),
        client_command(encode_utf8("subscribe"@)) == Some(ClientCommand::Subscribe),
        client_command(encode_utf8("send"@)) == Some(ClientCommand::Send),
        client_command(encode_utf8("connect"@)) == Some(ClientCommand::Connect),
{
    reveal_strlit("STOMP");
    reveal_strlit("stomp");
    reveal_strlit("DISCONNECT");
    reveal_strlit("disconnect");
    reveal_strlit("UNSUBSCRIBE");
    reveal_strlit("unsubscribe");
    reveal_strlit("ACK");
    reveal_strlit("ack");
    reveal_strlit("NACK");
    reveal_strlit("nack");
    reveal_strlit("BEGIN");
    reveal_strlit("begin");
    reveal_strlit("COMMIT");
    reveal_strlit("commit");
    reveal_strlit("ABORT");
    reveal_strlit("abort");
    reveal_strlit("SUBSCRIBE");
    reveal_strlit("subscribe");
    reveal_strlit("SEND");
    reveal_strlit("send");
    reveal_strlit("CONNECT");
    reveal_strlit("connect");
    lemma_client_command("STOMP"@);
    lemma_client_command("stomp"@);
    lemma_client_command("disconnect"@);
    lemma_client_command("unsubscribe"@);
    lemma_client_command("ack"@);
    lemma_client_command("nack"@);
    lemma_client_command("begin"@);
    lemma_client_command("commit"@);
    lemma_client_command("abort"@);
    lemma_client_command("subscribe"@);
    lemma_client_command("send"@);
    lemma_client_command("connect"@);
    // Texts of the same length differ in their first character
    assert("STOMP"@[0] == 'S' && "stomp"@[0] == 's' && "BEGIN"@[0] == 'B' && "begin"@[0] == 'b'
        && "ABORT"@[0] == 'A' && "abort"@[0] == 'a');
    assert("SEND"@[0] == 'S' && "send"@[0] == 's' && "NACK"@[0] == 'N' && "nack"@[0] == 'n');
}

/// A DISCONNECT is always read: the header receipt, if there is one.
pub proof fn law_disconnect_is_read_by_names(
    f: &Frame<'_>,
    hs: Seq<(Seq<u8>, Seq<u8>)>,
    r: Result<Message<ToServer>, Error>,
)
    requires
        call_ensures(Frame::to_client_msg, (f,), r),
        f.command@ == encode_utf8("DISCONNECT"@) || f.command@ == encode_utf8("disconnect"@),
        hs == f.headers@.map_values(|h: Header<'_>| (h.0@, h.1@)),
    ensures
        ({
            let field = |key: Seq<char>|
                match value_of(hs, encode_utf8(key)) {
                    Some(v) => if valid_utf8(unescape(v)) {
                        Some(decode_utf8(unescape(v)))
                    } else {
                        None
                    },
                    None => None,
                };
            let text = |s: Option<String>|
                match s {
                    Some(s) => Some(s@),
                    None => None,
                };
            r matches Ok(m) && m.content matches ToServer::Disconnect { receipt } && text(receipt)
                == field("receipt"@)
                && m.extra_headers@.map_values(|h: (Vec<u8>, Vec<u8>)| (h.0@, h.1@)) == hs.filter(
                    |h: (Seq<u8>, Seq<u8>)|
                        h.0 != encode_utf8("receipt"@),
                )
        }),
{
    assert(hs =~= f@.headers);
    lemma_command_names(ClientCommand::Disconnect);
    lemma_other_spellings();
    let keys = client_keys(ClientCommand::Disconnect);
    let kept = |h: (Seq<u8>, Seq<u8>)| h.0 != encode_utf8("receipt"@);
    assert forall|h: (Seq<u8>, Seq<u8>)| #[trigger] kept(h) == !is_among(h.0, keys) by {
        assert(encode_utf8(keys[0]) == encode_utf8("receipt"@));
    }
    lemma_without_is_a_filter(hs, keys, kept);
    if let Ok(m) = r {
        assert(m.extra_headers@.map_values(|h: (Vec<u8>, Vec<u8>)| (h.0@, h.1@))
            =~= m@.extra_headers);
    }
}

/// An UNSUBSCRIBE is read by the header id.
pub proof fn law_unsubscribe_is_read_by_names(
    f: &Frame<'_>,
    hs: Seq<(Seq<u8>, Seq<u8>)>,
    r: Result<Message<ToServer>, Error>,
)
    requires
        call_ensures(Frame::to_client_msg, (f,), r),
        f.command@ == encode_utf8("UNSUBSCRIBE"@) || f.command@ == encode_utf8("unsubscribe"@),
        hs == f.headers@.map_values(|h: Header<'_>| (h.0@, h.1@)),
    ensures
        ({
            let field = |key: Seq<char>|
                match value_of(hs, encode_utf8(key)) {
                    Some(v) => if valid_utf8(unescape(v)) {
                        Some(decode_utf8(unescape(v)))
                    } else {
                        None
                    },
                    None => None,
                };
            match field("id"@) {
                None => r matches Err(Error::MissingHeader(key)) && key@ == "id"@,
                Some(value) => r matches Ok(m) && m.content matches ToServer::Unsubscribe { id }
                    && id@ == value
                    && m.extra_headers@.map_values(|h: (Vec<u8>, Vec<u8>)| (h.0@, h.1@))
                    == hs.filter(
                        |h: (Seq<u8>, Seq<u8>)|
                            h.0 != encode_utf8("id"@),
                    ),
            }
        }),
{
    assert(hs =~= f@.headers);
    lemma_command_names(ClientCommand::Unsubscribe);
    lemma_other_spellings();
    let keys = client_keys(ClientCommand::Unsubscribe);
    let kept = |h: (Seq<u8>, Seq<u8>)| h.0 != encode_utf8("id"@);
    assert forall|h: (Seq<u8>, Seq<u8>)| #[trigger] kept(h) == !is_among(h.0, keys) by {
        assert(encode_utf8(keys[0]) == encode_utf8("id"@));
    }
    lemma_without_is_a_filter(hs, keys, kept);
    if let Ok(m) = r {
        assert(m.extra_headers@.map_values(|h: (Vec<u8>, Vec<u8>)| (h.0@, h.1@))
            =~= m@.extra_headers);
    }
}

/// An ACK is read by the header id, and transaction if there is one.
pub proof fn law_ack_is_read_by_names(
    f: &Frame<'_>,
    hs: Seq<(Seq<u8>, Seq<u8>)>,
    r: Result<Message<ToServer>, Error>,
)
    requires
        call_ensures(Frame::to_client_msg, (f,), r),
        f.command@ == encode_utf8("ACK"@) || f.command@ == encode_utf8("ack"@),
        hs == f.headers@.map_values(|h: Header<'_>| (h.0@, h.1@)),
    ensures
        ({
            let field = |key: Seq<char>|
                match value_of(hs, encode_utf8(key)) {
                    Some(v) => if valid_utf8(unescape(v)) {
                        Some(decode_utf8(unescape(v)))
                    } else {
                        None
                    },
                    None => None,
                };
            let text = |s: Option<String>|
                match s {
                    Some(s) => Some(s@),
                    None => None,
                };
            match field("id"@) {
                None => r matches Err(Error::MissingHeader(key)) && key@ == "id"@,
                Some(value) => r matches Ok(m)
                    && m.content matches ToServer::Ack { id, transaction }
                    && id@ == value && text(transaction) == field("transaction"@)
                    && m.extra_headers@.map_values(|h: (Vec<u8>, Vec<u8>)| (h.0@, h.1@))
                    == hs.filter(
                        |h: (Seq<u8>, Seq<u8>)|
                            h.0 != encode_utf8("id"@) && h.0 != encode_utf8("transaction"@),
                    ),
            }
        }),
{
    assert(hs =~= f@.headers);
    lemma_command_names(ClientCommand::Ack);
    lemma_other_spellings();
    let keys = client_keys(ClientCommand::Ack);
    let kept = |h: (Seq<u8>, Seq<u8>)| h.0 != encode_utf8("id"@)
        && h.0 != encode_utf8("transaction"@);
    assert forall|h: (Seq<u8>, Seq<u8>)| #[trigger] kept(h) == !is_among(h.0, keys) by {
        assert(encode_utf8(keys[0]) == encode_utf8("id"@));
        assert(encode_utf8(keys[1]) == encode_utf8("transaction"@));
    }
    lemma_without_is_a_filter(hs, keys, kept);
    if let Ok(m) = r {
        assert(m.extra_headers@.map_values(|h: (Vec<u8>, Vec<u8>)| (h.0@, h.1@))
            =~= m@.extra_headers);
    }
}

/// A NACK is read by the header id, and transaction if there is one.
pub proof fn law_nack_is_read_by_names(
    f: &Frame<'_>,
    hs: Seq<(Seq<u8>, Seq<u8>)>,
    r: Result<Message<ToServer>, Error>,
)
    requires
        call_ensures(Frame::to_client_msg, (f,), r),
        f.command@ == encode_utf8("NACK"@) || f.command@ == encode_utf8("nack"@),
        hs == f.headers@.map_values(|h: Header<'_>| (h.0@, h.1@)),
    ensures
        ({
            let field = |key: Seq<char>|
                match value_of(hs, encode_utf8(key)) {
                    Some(v) => if valid_utf8(unescape(v)) {
                        Some(decode_utf8(unescape(v)))
                    } else {
                        None
                    },
                    None => None,
                };
            let text = |s: Option<String>|
                match s {
                    Some(s) => Some(s@),
                    None => None,
                };
            match field("id"@) {
                None => r matches Err(Error::MissingHeader(key)) && key@ == "id"@,
                Some(value) => r matches Ok(m)
                    && m.content matches ToServer::Nack { id, transaction }
                    && id@ == value && text(transaction) == field("transaction"@)
                    && m.extra_headers@.map_values(|h: (Vec<u8>, Vec<u8>)| (h.0@, h.1@))
                    == hs.filter(
                        |h: (Seq<u8>, Seq<u8>)|
                            h.0 != encode_utf8("id"@) && h.0 != encode_utf8("transaction"@),
                    ),
            }
        }),
{
    assert(hs =~= f@.headers);
    lemma_command_names(ClientCommand::Nack);
    lemma_other_spellings();
    let keys = client_keys(ClientCommand::Nack);
    let kept = |h: (Seq<u8>, Seq<u8>)| h.0 != encode_utf8("id"@)
        && h.0 != encode_utf8("transaction"@);
    assert forall|h: (Seq<u8>, Seq<u8>)| #[trigger] kept(h) == !is_among(h.0, keys) by {
        assert(encode_utf8(keys[0]) == encode_utf8("id"@));
        assert(encode_utf8(keys[1]) == encode_utf8("transaction"@));
    }
    lemma_without_is_a_filter(hs, keys, kept);
    if let Ok(m) = r {
        assert(m.extra_headers@.map_values(|h: (Vec<u8>, Vec<u8>)| (h.0@, h.1@))
            =~= m@.extra_headers);
    }
}

/// A BEGIN is read by the header transaction.
pub proof fn law_begin_is_read_by_names(
    f: &Frame<'_>,
    hs: Seq<(Seq<u8>, Seq<u8>)>,
    r: Result<Message<ToServer>, Error>,
)
    requires
        call_ensures(Frame::to_client_msg, (f,), r),
        f.command@ == encode_utf8("BEGIN"@) || f.command@ == encode_utf8("begin"@),
        hs == f.headers@.map_values(|h: Header<'_>| (h.0@, h.1@)),
    ensures
        ({
            let field = |key: Seq<char>|
                match value_of(hs, encode_utf8(key)) {
                    Some(v) => if valid_utf8(unescape(v)) {
                        Some(decode_utf8(unescape(v)))
                    } else {
                        None
                    },
                    None => None,
                };
            match field("transaction"@) {
                None => r matches Err(Error::MissingHeader(key)) && key@ == "transaction"@,
                Some(value) => r matches Ok(m) && m.content matches ToServer::Begin { transaction }
                    && transaction@ == value
                    && m.extra_headers@.map_values(|h: (Vec<u8>, Vec<u8>)| (h.0@, h.1@))
                    == hs.filter(
                        |h: (Seq<u8>, Seq<u8>)|
                            h.0 != encode_utf8("transaction"@),
                    ),
            }
        }),
{
    assert(hs =~= f@.headers);
    lemma_command_names(ClientCommand::Begin);
    lemma_other_spellings();
    let keys = client_keys(ClientCommand::Begin);
    let kept = |h: (Seq<u8>, Seq<u8>)| h.0 != encode_utf8("transaction"@);
    assert forall|h: (Seq<u8>, Seq<u8>)| #[trigger] kept(h) == !is_among(h.0, keys) by {
        assert(encode_utf8(keys[0]) == encode_utf8("transaction"@));
    }
    lemma_without_is_a_filter(hs, keys, kept);
    if let Ok(m) = r {
        assert(m.extra_headers@.map_values(|h: (Vec<u8>, Vec<u8>)| (h.0@, h.1@))
            =~= m@.extra_headers);
    }
}

/// A COMMIT is read by the header transaction.
pub proof fn law_commit_is_read_by_names(
    f: &Frame<'_>,
    hs: Seq<(Seq<u8>, Seq<u8>)>,
    r: Result<Message<ToServer>, Error>,
)
    requires
        call_ensures(Frame::to_client_msg, (f,), r),
        f.command@ == encode_utf8("COMMIT"@) || f.command@ == encode_utf8("commit"@),
        hs == f.headers@.map_values(|h: Header<'_>| (h.0@, h.1@)),
    ensures
        ({
            let field = |key: Seq<char>|
                match value_of(hs, encode_utf8(key)) {
                    Some(v) => if valid_utf8(unescape(v)) {
                        Some(decode_utf8(unescape(v)))
                    } else {
                        None
                    },
                    None => None,
                };
            match field("transaction"@) {
                None => r matches Err(Error::MissingHeader(key)) && key@ == "transaction"@,
                Some(value) => r matches Ok(m) && m.content matches ToServer::Commit { transaction }
                    && transaction@ == value
                    && m.extra_headers@.map_values(|h: (Vec<u8>, Vec<u8>)| (h.0@, h.1@))
                    == hs.filter(
                        |h: (Seq<u8>, Seq<u8>)|
                            h.0 != encode_utf8("transaction"@),
                    ),
            }
        }),
{
    assert(hs =~= f@.headers);
    lemma_command_names(ClientCommand::Commit);
    lemma_other_spellings();
    let keys = client_keys(ClientCommand::Commit);
    let kept = |h: (Seq<u8>, Seq<u8>)| h.0 != encode_utf8("transaction"@);
    assert forall|h: (Seq<u8>, Seq<u8>)| #[trigger] kept(h) == !is_among(h.0, keys) by {
        assert(encode_utf8(keys[0]) == encode_utf8("transaction"@));
    }
    lemma_without_is_a_filter(hs, keys, kept);
    if let Ok(m) = r {
        assert(m.extra_headers@.map_values(|h: (Vec<u8>, Vec<u8>)| (h.0@, h.1@))
            =~= m@.extra_headers);
    }
}

/// An ABORT is read by the header transaction.
pub proof fn law_abort_is_read_by_names(
    f: &Frame<'_>,
    hs: Seq<(Seq<u8>, Seq<u8>)>,
    r: Result<Message<ToServer>, Error>,
)
    requires
        call_ensures(Frame::to_client_msg, (f,), r),
        f.command@ == encode_utf8("ABORT"@) || f.command@ == encode_utf8("abort"@),
        hs == f.headers@.map_values(|h: Header<'_>| (h.0@, h.1@)),
    ensures
        ({
            let field = |key: Seq<char>|
                match value_of(hs, encode_utf8(key)) {
                    Some(v) => if valid_utf8(unescape(v)) {
                        Some(decode_utf8(unescape(v)))
                    } else {
                        None
                    },
                    None => None,
                };
            match field("transaction"@) {
                None => r matches Err(Error::MissingHeader(key)) && key@ == "transaction"@,
                Some(value) => r matches Ok(m) && m.content matches ToServer::Abort { transaction }
                    && transaction@ == value
                    && m.extra_headers@.map_values(|h: (Vec<u8>, Vec<u8>)| (h.0@, h.1@))
                    == hs.filter(
                        |h: (Seq<u8>, Seq<u8>)|
                            h.0 != encode_utf8("transaction"@),
                    ),
            }
        }),
{
    assert(hs =~= f@.headers);
    lemma_command_names(ClientCommand::Abort);
    lemma_other_spellings();
    let keys = client_keys(ClientCommand::Abort);
    let kept = |h: (Seq<u8>, Seq<u8>)| h.0 != encode_utf8("transaction"@);
    assert forall|h: (Seq<u8>, Seq<u8>)| #[trigger] kept(h) == !is_among(h.0, keys) by {
        assert(encode_utf8(keys[0]) == encode_utf8("transaction"@));
    }
    lemma_without_is_a_filter(hs, keys, kept);
    if let Ok(m) = r {
        assert(m.extra_headers@.map_values(|h: (Vec<u8>, Vec<u8>)| (h.0@, h.1@))
            =~= m@.extra_headers);
    }
}

/// A SUBSCRIBE is read by the headers destination and id, and by ack, which has to
/// name one of the three modes if it is there.
pub proof fn law_subscribe_is_read_by_names(
    f: &Frame<'_>,
    hs: Seq<(Seq<u8>, Seq<u8>)>,
    r: Result<Message<ToServer>, Error>,
)
    requires
        call_ensures(Frame::to_client_msg, (f,), r),
        f.command@ == encode_utf8("SUBSCRIBE"@) || f.command@ == encode_utf8("subscribe"@),
        hs == f.headers@.map_values(|h: Header<'_>| (h.0@, h.1@)),
    ensures
        ({
            let field = |key: Seq<char>|
                match value_of(hs, encode_utf8(key)) {
                    Some(v) => if valid_utf8(unescape(v)) {
                        Some(decode_utf8(unescape(v)))
                    } else {
                        None
                    },
                    None => None,
                };
            let missing = |key: Seq<char>|
                r matches Err(Error::MissingHeader(named)) && named@ == key;
            if field("destination"@) is None {
                missing("destination"@)
            } else if field("id"@) is None {
                missing("id"@)
            } else if field("ack"@) is None || field("ack"@) == Some("auto"@) || field("ack"@)
                == Some("client"@) || field("ack"@) == Some("client-individual"@) {
                r matches Ok(m) && m.content matches ToServer::Subscribe { destination, id, ack }
                    && Some(destination@) == field("destination"@) && Some(id@) == field("id"@)
                    && ack == (if field("ack"@) is None {
                    None
                } else if field("ack"@) == Some("auto"@) {
                    Some(AckMode::Auto)
                } else if field("ack"@) == Some("client"@) {
                    Some(AckMode::Client)
                } else {
                    Some(AckMode::ClientIndividual)
                }) && m.extra_headers@.map_values(|h: (Vec<u8>, Vec<u8>)| (h.0@, h.1@))
                    == hs.filter(
                        |h: (Seq<u8>, Seq<u8>)|
                            h.0 != encode_utf8("destination"@) && h.0 != encode_utf8("id"@)
                            && h.0 != encode_utf8("ack"@),
                    )
            } else {
                r matches Err(Error::InvalidAckMode(named)) && Some(named@) == field("ack"@)
            }
        }),
{
    assert(hs =~= f@.headers);
    lemma_command_names(ClientCommand::Subscribe);
    lemma_other_spellings();
    let keys = client_keys(ClientCommand::Subscribe);
    let kept = |h: (Seq<u8>, Seq<u8>)| h.0 != encode_utf8("destination"@)
        && h.0 != encode_utf8("id"@) && h.0 != encode_utf8("ack"@);
    assert forall|h: (Seq<u8>, Seq<u8>)| #[trigger] kept(h) == !is_among(h.0, keys) by {
        assert(encode_utf8(keys[0]) == encode_utf8("destination"@));
        assert(encode_utf8(keys[1]) == encode_utf8("id"@));
        assert(encode_utf8(keys[2]) == encode_utf8("ack"@));
    }
    lemma_without_is_a_filter(hs, keys, kept);
    if let Ok(m) = r {
        assert(m.extra_headers@.map_values(|h: (Vec<u8>, Vec<u8>)| (h.0@, h.1@))
            =~= m@.extra_headers);
    }
}

/// A CONNECT is read by the headers accept-version and host, which have to be
/// there, login, passcode and heart-beat, all as they are. Heart-beats that cannot
/// be read are an error, before anything that is missing.
pub proof fn law_connect_is_read_by_names(
    f: &Frame<'_>,
    hs: Seq<(Seq<u8>, Seq<u8>)>,
    beats: &str,
    intervals: Result<(u32, u32), Error>,
    r: Result<Message<ToServer>, Error>,
)
    requires
        call_ensures(Frame::to_client_msg, (f,), r),
        f.command@ == encode_utf8("CONNECT"@) || f.command@ == encode_utf8("connect"@) || f.command@
            == encode_utf8("STOMP"@) || f.command@ == encode_utf8("stomp"@),
        hs == f.headers@.map_values(|h: Header<'_>| (h.0@, h.1@)),
        call_ensures(parse_heartbeat, (beats,), intervals),
        value_of(hs, encode_utf8("heart-beat"@)) matches Some(v) ==> valid_utf8(v) ==> beats@
            == decode_utf8(v),
    ensures
        ({
            let field = |key: Seq<char>|
                match value_of(hs, encode_utf8(key)) {
                    Some(v) => if valid_utf8(v) {
                        Some(decode_utf8(v))
                    } else {
                        None
                    },
                    None => None,
                };
            let text = |s: Option<String>|
                match s {
                    Some(s) => Some(s@),
                    None => None,
                };
            let missing = |key: Seq<char>|
                r matches Err(Error::MissingHeader(named)) && named@ == key;
            if field("heart-beat"@) is Some && intervals is Err {
                r matches Err(found) && found@ == intervals->Err_0@
            } else if field("accept-version"@) is None {
                missing("accept-version"@)
            } else if field("host"@) is None {
                missing("host"@)
            } else {
                r matches Ok(m) && m.content matches ToServer::Connect {
                    accept_version,
                    host,
                    login,
                    passcode,
                    heartbeat,
                } && Some(accept_version@) == field("accept-version"@) && Some(host@) == field(
                    "host"@,
                ) && text(login) == field("login"@) && text(passcode) == field("passcode"@)
                    && heartbeat == (if field("heart-beat"@) is Some {
                    Some(intervals->Ok_0)
                } else {
                    None
                })
            }
        }),
{
    assert(hs =~= f@.headers);
    lemma_command_names(ClientCommand::Connect);
    lemma_other_spellings();
    assert(client_command(f.command@) == Some(ClientCommand::Connect));
    assert(outcome(r) == client_message(f@));
    match connect_content(hs) {
        Ok(content) => {
            assert(r matches Ok(m) && m.content@ == content);
        },
        Err(e) => {
            assert(r matches Err(found) && found@ == e);
        },
    }
}

/// The headers of a CONNECT that no field stands for are kept.
pub proof fn law_connect_keeps_other_headers(
    f: &Frame<'_>,
    hs: Seq<(Seq<u8>, Seq<u8>)>,
    m: Message<ToServer>,
)
    requires
        call_ensures(Frame::to_client_msg, (f,), Ok::<Message<ToServer>, Error>(m)),
        m.content is Connect,
        hs == f.headers@.map_values(|h: Header<'_>| (h.0@, h.1@)),
    ensures
        m.extra_headers@.map_values(|h: (Vec<u8>, Vec<u8>)| (h.0@, h.1@)) == hs.filter(
            |h: (Seq<u8>, Seq<u8>)|
                h.0 != encode_utf8("accept-version"@) && h.0 != encode_utf8("host"@)
                && h.0 != encode_utf8("login"@) && h.0 != encode_utf8("passcode"@)
                && h.0 != encode_utf8("heart-beat"@),
        ),
{
    assert(hs =~= f@.headers);
    let keys = client_keys(ClientCommand::Connect);
    let kept = |h: (Seq<u8>, Seq<u8>)| h.0 != encode_utf8("accept-version"@)
        && h.0 != encode_utf8("host"@) && h.0 != encode_utf8("login"@)
        && h.0 != encode_utf8("passcode"@) && h.0 != encode_utf8("heart-beat"@);
    assert forall|h: (Seq<u8>, Seq<u8>)| #[trigger] kept(h) == !is_among(h.0, keys) by {
        assert(encode_utf8(keys[0]) == encode_utf8("accept-version"@));
        assert(encode_utf8(keys[1]) == encode_utf8("host"@));
        assert(encode_utf8(keys[2]) == encode_utf8("login"@));
        assert(encode_utf8(keys[3]) == encode_utf8("passcode"@));
        assert(encode_utf8(keys[4]) == encode_utf8("heart-beat"@));
    }
    lemma_without_is_a_filter(hs, keys, kept);
    assert(m.extra_headers@.map_values(|h: (Vec<u8>, Vec<u8>)| (h.0@, h.1@)) =~= m@.extra_headers);
}

/// A SEND is read by the headers destination, which has to be there, and
/// transaction; all others become text, in order, and none of them is no list at
/// all. The body is taken as it is.
pub proof fn law_send_is_read_by_names(
    f: &Frame<'_>,
    hs: Seq<(Seq<u8>, Seq<u8>)>,
    headers: &[Header<'_>],
    names: &[&str],
    others: Result<Option<Vec<(String, String)>>, Error>,
    r: Result<Message<ToServer>, Error>,
)
    requires
        call_ensures(Frame::to_client_msg, (f,), r),
        f.command@ == encode_utf8("SEND"@) || f.command@ == encode_utf8("send"@),
        hs == f.headers@.map_values(|h: Header<'_>| (h.0@, h.1@)),
        headers@ == f.headers@,
        names@ == seq!["destination", "transaction"],
        call_ensures(optional_headers, (headers, names), others),
    ensures
        ({
            let field = |key: Seq<char>|
                match value_of(hs, encode_utf8(key)) {
                    Some(v) => if valid_utf8(unescape(v)) {
                        Some(decode_utf8(unescape(v)))
                    } else {
                        None
                    },
                    None => None,
                };
            let text = |s: Option<String>|
                match s {
                    Some(s) => Some(s@),
                    None => None,
                };
            match field("destination"@) {
                None => r matches Err(Error::MissingHeader(key)) && key@ == "destination"@,
                Some(value) => match others {
                    Err(e) => r matches Err(found) && found@ == e@,
                    Ok(list) => r matches Ok(m) && m.content matches ToServer::Send {
                        destination,
                        transaction,
                        headers,
                        body,
                    } && destination@ == value && text(transaction) == field("transaction"@)
                        && headers is None == list is None && (list matches Some(list)
                        ==> headers->0@.map_values(|h: (String, String)| (h.0@, h.1@))
                        == list@.map_values(|h: (String, String)| (h.0@, h.1@))) && (match f.body {
                        Some(sent) => body matches Some(b) && b@ == sent@,
                        None => body is None,
                    }) && m.extra_headers@.map_values(|h: (Vec<u8>, Vec<u8>)| (h.0@, h.1@))
                        == hs.filter(
                            |h: (Seq<u8>, Seq<u8>)|
                                h.0 != encode_utf8("destination"@)
                                    && h.0 != encode_utf8("transaction"@),
                        ),
                },
            }
        }),
{
    assert(hs =~= f@.headers);
    lemma_command_names(ClientCommand::Send);
    lemma_other_spellings();
    let keys = client_keys(ClientCommand::Send);
    let kept = |h: (Seq<u8>, Seq<u8>)| h.0 != encode_utf8("destination"@)
        && h.0 != encode_utf8("transaction"@);
    assert forall|h: (Seq<u8>, Seq<u8>)| #[trigger] kept(h) == !is_among(h.0, keys) by {
        assert(encode_utf8(keys[0]) == encode_utf8("destination"@));
        assert(encode_utf8(keys[1]) == encode_utf8("transaction"@));
    }
    lemma_without_is_a_filter(hs, keys, kept);
    if let Ok(m) = r {
        assert(m.extra_headers@.map_values(|h: (Vec<u8>, Vec<u8>)| (h.0@, h.1@))
            =~= m@.extra_headers);
    }
    assert(headers_view(headers@) =~= hs);
    assert(keys_view(names@) =~= keys);
    if let Ok(Some(list)) = others {
        assert(list@.map_values(|h: (String, String)| (h.0@, h.1@)) =~= texts(list@));
    }
    if let Ok(m) = r {
        if let ToServer::Send { headers: Some(found), .. } = m.content {
            assert(found@.map_values(|h: (String, String)| (h.0@, h.1@)) =~= texts(found@));
        }
    }
}

/// Any other command is refused, with the command in the error.
pub proof fn law_unknown_requests_are_refused(f: &Frame<'_>, r: Result<Message<ToServer>, Error>)
    requires
        call_ensures(Frame::to_client_msg, (f,), r),
        f.command@ != encode_utf8("STOMP"@),
        f.command@ != encode_utf8("stomp"@),
        f.command@ != encode_utf8("DISCONNECT"@),
        f.command@ != encode_utf8("disconnect"@),
        f.command@ != encode_utf8("UNSUBSCRIBE"@),
        f.command@ != encode_utf8("unsubscribe"@),
        f.command@ != encode_utf8("ACK"@),
        f.command@ != encode_utf8("ack"@),
        f.command@ != encode_utf8("NACK"@),
        f.command@ != encode_utf8("nack"@),
        f.command@ != encode_utf8("BEGIN"@),
        f.command@ != encode_utf8("begin"@),
        f.command@ != encode_utf8("COMMIT"@),
        f.command@ != encode_utf8("commit"@),
        f.command@ != encode_utf8("ABORT"@),
        f.command@ != encode_utf8("abort"@),
        f.command@ != encode_utf8("SUBSCRIBE"@),
        f.command@ != encode_utf8("subscribe"@),
        f.command@ != encode_utf8("SEND"@),
        f.command@ != encode_utf8("send"@),
        f.command@ != encode_utf8("CONNECT"@),
        f.command@ != encode_utf8("connect"@),
    ensures
        r matches Err(Error::UnrecognizedFrame(command)) && command@ == f.command@,
{
}

} // verus!
