//! The names of commands and headers, and why they cannot be mistaken for one
//! another.

use crate::convert::{
    client_command, command_name, server_command, server_command_name, ClientCommand,
    ServerCommand,
};
use crate::escape::{escape, escaped_command, is_command, BACKSLASH, COLON, CR, LF};
use crate::grammar::{stops, Stop};
use crate::wire_laws::{is_word, lemma_escape_plain, on_one_line, without_colon};
use vstd::prelude::*;
use vstd::utf8::*;

verus! {

/// Whether bytes are the same escaped and not: there is nothing to escape.
pub open spec fn is_plain(s: Seq<u8>) -> bool {
    on_one_line(s) && without_colon(s) && !s.contains(BACKSLASH)
}

/// Whether a character is a letter.
pub open spec fn is_letter(c: char) -> bool {
    'A' <= c <= 'Z' || 'a' <= c <= 'z'
}

/// Whether a text is a name: letters and hyphens, and some of them.
#[verifier::opaque]
pub open spec fn is_name(s: Seq<char>) -> bool {
    s.len() > 0 && forall|i: int| 0 <= i < s.len() ==> is_letter(#[trigger] s[i]) || s[i] == '-'
}

/// Texts with the same bytes are the same.
pub proof fn lemma_encode_is_injective(a: Seq<char>, b: Seq<char>)
    ensures
        encode_utf8(a) == encode_utf8(b) <==> a == b,
{
    encode_utf8_decode_utf8(a);
    encode_utf8_decode_utf8(b);
}

/// A name needs no escaping.
pub proof fn lemma_name_is_plain(s: Seq<char>)
    requires
        is_name(s),
    ensures
        encode_utf8(s).len() > 0,
        is_plain(encode_utf8(s)),
        escape(encode_utf8(s)) == encode_utf8(s),
        valid_utf8(encode_utf8(s)),
        (forall|i: int| 0 <= i < s.len() ==> is_letter(#[trigger] s[i])) ==> is_word(
            encode_utf8(s),
        ),
{
    reveal(is_name);
    let bytes = encode_utf8(s);
    assert(is_ascii_chars(s));
    is_ascii_chars_encode_utf8(s);
    encode_utf8_valid_utf8(s);
    assert forall|i: int| 0 <= i < bytes.len() implies (#[trigger] bytes[i]) != CR && bytes[i] != LF
        && bytes[i] != COLON && bytes[i] != BACKSLASH by {
        assert(bytes[i] == s[i] as u8);
    }
    lemma_escape_plain(bytes);
    if forall|i: int| 0 <= i < s.len() ==> is_letter(#[trigger] s[i]) {
        assert forall|i: int| 0 <= i < bytes.len() implies !stops(
            Stop::NotLetter,
            #[trigger] bytes[i],
        ) by {
            assert(bytes[i] == s[i] as u8);
            assert(is_letter(s[i]));
        }
    }
}

/// The names of headers are names.
pub proof fn lemma_header_names()
    ensures
        is_name("accept-version"@),
        is_name("host"@),
        is_name("login"@),
        is_name("passcode"@),
        is_name("heart-beat"@),
        is_name("receipt"@),
        is_name("destination"@),
        is_name("transaction"@),
        is_name("id"@),
        is_name("ack"@),
        is_name("content-length"@),
        is_name("version"@),
        is_name("session"@),
        is_name("server"@),
        is_name("message-id"@),
        is_name("subscription"@),
        is_name("receipt-id"@),
        is_name("message"@),
{
    reveal(is_name);
    reveal_strlit("accept-version");
    reveal_strlit("host");
    reveal_strlit("login");
    reveal_strlit("passcode");
    reveal_strlit("heart-beat");
    reveal_strlit("receipt");
    reveal_strlit("destination");
    reveal_strlit("transaction");
    reveal_strlit("id");
    reveal_strlit("ack");
    reveal_strlit("content-length");
    reveal_strlit("version");
    reveal_strlit("session");
    reveal_strlit("server");
    reveal_strlit("message-id");
    reveal_strlit("subscription");
    reveal_strlit("receipt-id");
    reveal_strlit("message");
}

/// The bytes of a text name a command exactly if the text is one of its
/// spellings.
proof fn lemma_is_command(text: Seq<char>, upper: Seq<char>, lower: Seq<char>)
    ensures
        is_command(encode_utf8(text), upper, lower) <==> text == upper || text == lower,
{
    lemma_encode_is_injective(text, upper);
    lemma_encode_is_injective(text, lower);
}

/// The command that a text names, one spelling after the other.
pub proof fn lemma_client_command(text: Seq<char>)
    ensures
        client_command(encode_utf8(text)) == (if text == "STOMP"@ || text == "stomp"@ || text
            == "CONNECT"@ || text == "connect"@ {
            Some(ClientCommand::Connect)
        } else if text == "DISCONNECT"@ || text == "disconnect"@ {
            Some(ClientCommand::Disconnect)
        } else if text == "SEND"@ || text == "send"@ {
            Some(ClientCommand::Send)
        } else if text == "SUBSCRIBE"@ || text == "subscribe"@ {
            Some(ClientCommand::Subscribe)
        } else if text == "UNSUBSCRIBE"@ || text == "unsubscribe"@ {
            Some(ClientCommand::Unsubscribe)
        } else if text == "ACK"@ || text == "ack"@ {
            Some(ClientCommand::Ack)
        } else if text == "NACK"@ || text == "nack"@ {
            Some(ClientCommand::Nack)
        } else if text == "BEGIN"@ || text == "begin"@ {
            Some(ClientCommand::Begin)
        } else if text == "COMMIT"@ || text == "commit"@ {
            Some(ClientCommand::Commit)
        } else if text == "ABORT"@ || text == "abort"@ {
            Some(ClientCommand::Abort)
        } else {
            None
        }),
{
    lemma_is_command(text, "STOMP"@, "stomp"@);
    lemma_is_command(text, "CONNECT"@, "connect"@);
    lemma_is_command(text, "DISCONNECT"@, "disconnect"@);
    lemma_is_command(text, "SEND"@, "send"@);
    lemma_is_command(text, "SUBSCRIBE"@, "subscribe"@);
    lemma_is_command(text, "UNSUBSCRIBE"@, "unsubscribe"@);
    lemma_is_command(text, "ACK"@, "ack"@);
    lemma_is_command(text, "NACK"@, "nack"@);
    lemma_is_command(text, "BEGIN"@, "begin"@);
    lemma_is_command(text, "COMMIT"@, "commit"@);
    lemma_is_command(text, "ABORT"@, "abort"@);
}

/// Which commands leave headers unescaped, by their text.
proof fn lemma_escaped_command(text: Seq<char>)
    ensures
        escaped_command(encode_utf8(text)) <==> !(text == "CONNECT"@ || text == "connect"@ || text
            == "CONNECTED"@ || text == "connected"@ || text == "STOMP"@ || text == "stomp"@),
{
    lemma_is_command(text, "CONNECT"@, "connect"@);
    lemma_is_command(text, "CONNECTED"@, "connected"@);
    lemma_is_command(text, "STOMP"@, "stomp"@);
}

/// The name of a command is read as that command, and CONNECT alone has headers
/// that are not escaped.
pub proof fn lemma_command_names(command: ClientCommand)
    ensures
        is_word(encode_utf8(command_name(command))),
        client_command(encode_utf8(command_name(command))) == Some(command),
        escaped_command(encode_utf8(command_name(command))) <==> command != ClientCommand::Connect,
{
    let text = command_name(command);
    reveal_strlit("STOMP");
    reveal_strlit("stomp");
    reveal_strlit("CONNECT");
    reveal_strlit("connect");
    reveal_strlit("CONNECTED");
    reveal_strlit("connected");
    reveal_strlit("DISCONNECT");
    reveal_strlit("disconnect");
    reveal_strlit("SEND");
    reveal_strlit("send");
    reveal_strlit("SUBSCRIBE");
    reveal_strlit("subscribe");
    reveal_strlit("UNSUBSCRIBE");
    reveal_strlit("unsubscribe");
    reveal_strlit("ACK");
    reveal_strlit("ack");
    reveal_strlit("NACK");
    reveal_strlit("nack");
    reveal_strlit("BEGIN");
    reveal_strlit("begin");
    reveal_strlit("COMMIT");
    reveal_strlit("commit");
    reveal_strlit("ABORT");
    reveal_strlit("abort");
    assert(is_name(text)) by {
        reveal(is_name);
    }
    lemma_name_is_plain(text);
    lemma_client_command(text);
    lemma_escaped_command(text);
    // Each of these texts is told from those before it by its length, or by its
    // first character
    assert("BEGIN"@[0] == 'B' && "ABORT"@[0] == 'A' && "STOMP"@[0] == 'S' && "stomp"@[0] == 's'
        && "begin"@[0] == 'b' && "abort"@[0] == 'a');
    assert("SEND"@[0] == 'S' && "NACK"@[0] == 'N' && "send"@[0] == 's' && "nack"@[0] == 'n');
}

/// The name of a server's command is read as that command, and CONNECTED alone
/// has headers that are not escaped.
pub proof fn lemma_server_command_names(command: ServerCommand)
    ensures
        is_word(encode_utf8(server_command_name(command))),
        server_command(encode_utf8(server_command_name(command))) == Some(command),
        escaped_command(encode_utf8(server_command_name(command))) <==> command
            != ServerCommand::Connected,
{
    let text = server_command_name(command);
    reveal_strlit("STOMP");
    reveal_strlit("stomp");
    reveal_strlit("CONNECT");
    reveal_strlit("connect");
    reveal_strlit("CONNECTED");
    reveal_strlit("connected");
    reveal_strlit("MESSAGE");
    reveal_strlit("message");
    reveal_strlit("RECEIPT");
    reveal_strlit("receipt");
    reveal_strlit("ERROR");
    reveal_strlit("error");
    assert(is_name(text)) by {
        reveal(is_name);
    }
    lemma_name_is_plain(text);
    lemma_escaped_command(text);
    lemma_is_command(text, "CONNECTED"@, "connected"@);
    lemma_is_command(text, "MESSAGE"@, "message"@);
    lemma_is_command(text, "RECEIPT"@, "receipt"@);
    lemma_is_command(text, "ERROR"@, "error"@);
    // Each of these texts is told from the others by its length, or by its
    // first character
    assert("STOMP"@[0] == 'S' && "stomp"@[0] == 's' && "ERROR"@[0] == 'E');
    assert("CONNECT"@[0] == 'C' && "connect"@[0] == 'c' && "MESSAGE"@[0] == 'M' && "message"@[0]
        == 'm' && "RECEIPT"@[0] == 'R');
}

} // verus!
