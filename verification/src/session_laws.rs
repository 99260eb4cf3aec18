//! The laws of a session: what its opening settles, what is due while it lasts,
//! and when it has ended.

use crate::client::{
    accept_reply, closing, disconnect_msg, last_colon, server_host, Closing, Connector,
};
use crate::error::Error;
use crate::grammar::{find, lemma_find, Stop};
use crate::heartbeat::{
    format_heartbeat, heartbeat_bytes, law_heartbeat_is_read_back, negotiate, parse_heartbeat,
    Heartbeat,
};
use crate::text::{decimal, parse_u32, to_decimal, NumberError};
use crate::{FromServer, Message, ToServer};
use vstd::prelude::*;
use vstd::utf8::*;

verus! {

/// Where the client asked for (`cx`, `cy`) and the server answers with version
/// 1.2 and "`sx`,`sy`", the connection is accepted. The client beats at the slower
/// of `cx` and `sy`, and the server at the slower of `sx` and `cy`, unless one of
/// the two is zero.
pub proof fn law_reply_settles_the_heartbeats(
    reply: &Option<Message<FromServer>>,
    cx: u32,
    cy: u32,
    sx: u32,
    sy: u32,
    automatic: bool,
    r: Result<Heartbeat, Error>,
)
    requires
        call_ensures(accept_reply, (reply, Some((cx, cy)), automatic), r),
        *reply matches Some(message) && message.content matches FromServer::Connected {
            version,
            heartbeat: Some(text),
            ..
        } && version@ == "1.2"@ && encode_utf8(text@) == decimal(sx as nat) + seq![44u8] + decimal(
            sy as nat,
        ),
    ensures
        r is Ok,
        r->Ok_0.automatic == automatic,
        r->Ok_0.outgoing == (if cx > 0 && sy > 0 {
            Some(
                if cx > sy {
                    cx
                } else {
                    sy
                },
            )
        } else {
            None
        }),
        r->Ok_0.incoming == (if sx > 0 && cy > 0 {
            Some(
                if sx > cy {
                    sx
                } else {
                    cy
                },
            )
        } else {
            None
        }),
{
    law_heartbeat_is_read_back((sx, sy));
    assert(heartbeat_bytes((sx, sy)) =~= decimal(sx as nat) + seq![44u8] + decimal(sy as nat));
}

/// However the server spells its heart-beats, what they are read as is settled
/// with what was asked for; and what cannot be read is refused with the same
/// error.
pub proof fn law_reply_is_read_and_settled(
    reply: &Option<Message<FromServer>>,
    asked: (u32, u32),
    automatic: bool,
    r: Result<Heartbeat, Error>,
    text: &str,
    answer: Result<(u32, u32), Error>,
    settled: (Option<u32>, Option<u32>),
)
    requires
        call_ensures(accept_reply, (reply, Some(asked), automatic), r),
        call_ensures(parse_heartbeat, (text,), answer),
        answer is Ok ==> call_ensures(negotiate, (asked, answer->Ok_0), settled),
        *reply matches Some(message) && message.content matches FromServer::Connected {
            version,
            heartbeat: Some(named),
            ..
        } && version@ == "1.2"@ && named@ == text@,
    ensures
        answer is Ok ==> r == Ok::<Heartbeat, Error>(
            Heartbeat { outgoing: settled.0, incoming: settled.1, automatic },
        ),
        answer matches Err(e) ==> (r matches Err(found) && found@ == e@),
{
}

/// Without a request, and where the server names no heart-beats, a CONNECTED for
/// version 1.2 is accepted and nobody beats.
pub proof fn law_no_heartbeats_without_both_sides(
    reply: &Option<Message<FromServer>>,
    requested: Option<(u32, u32)>,
    automatic: bool,
    r: Result<Heartbeat, Error>,
)
    requires
        call_ensures(accept_reply, (reply, requested, automatic), r),
        *reply matches Some(message) && message.content matches FromServer::Connected {
            version,
            heartbeat,
            ..
        } && version@ == "1.2"@ && (requested is None || heartbeat is None),
    ensures
        r == Ok::<Heartbeat, Error>(Heartbeat { outgoing: None, incoming: None, automatic }),
{
}

/// Any other reply is refused: another version by its name, and anything but a
/// CONNECTED, or no reply at all, as unexpected.
pub proof fn law_other_replies_are_refused(
    reply: &Option<Message<FromServer>>,
    requested: Option<(u32, u32)>,
    automatic: bool,
    r: Result<Heartbeat, Error>,
)
    requires
        call_ensures(accept_reply, (reply, requested, automatic), r),
    ensures
        match *reply {
            Some(Message { content: FromServer::Connected { version, .. }, .. }) => version@
                != "1.2"@ ==> (r matches Err(Error::WrongVersion(named)) && named@ == version@),
            _ => r matches Err(Error::UnexpectedReply(_)),
        },
{
}

/// Each direction has the slower interval of the two that were named for it, and
/// none if either side named zero.
pub proof fn law_each_direction_is_settled(
    cx: u32,
    cy: u32,
    sx: u32,
    sy: u32,
    r: (Option<u32>, Option<u32>),
)
    requires
        call_ensures(negotiate, ((cx, cy), (sx, sy)), r),
    ensures
        r.0 is Some <==> cx != 0 && sy != 0,
        r.0 matches Some(t) ==> t >= cx && t >= sy && (t == cx || t == sy),
        r.1 is Some <==> sx != 0 && cy != 0,
        r.1 matches Some(t) ==> t >= sx && t >= cy && (t == sx || t == cy),
{
}

/// A heart-beat value is two numbers, on either side of the first comma. Without
/// a comma it is refused as such; else the first of the two that is no number
/// decides.
pub proof fn law_heartbeat_is_two_numbers(
    text: &str,
    left: &[u8],
    right: &[u8],
    r: Result<(u32, u32), Error>,
    first: Result<u32, NumberError>,
    second: Result<u32, NumberError>,
)
    requires
        call_ensures(parse_heartbeat, (text,), r),
        call_ensures(parse_u32, (left,), first),
        call_ensures(parse_u32, (right,), second),
    ensures
        !encode_utf8(text@).contains(44) ==> r == Err::<(u32, u32), Error>(Error::BadHeartbeat),
        encode_utf8(text@) == left@ + seq![44u8] + right@ && !left@.contains(44) ==> r == (
        match (first, second) {
            (Ok(outgoing), Ok(incoming)) => Ok::<(u32, u32), Error>((outgoing, incoming)),
            (Err(e), _) => Err::<(u32, u32), Error>(Error::BadInterval(e)),
            (_, Err(e)) => Err::<(u32, u32), Error>(Error::BadInterval(e)),
        }),
{
    let s = encode_utf8(text@);
    let comma = find(s, 0, Stop::Comma);
    lemma_find(s, 0, Stop::Comma);
    if !s.contains(44) {
        assert(comma >= s.len());
    }
    if s == left@ + seq![44u8] + right@ && !left@.contains(44) {
        assert(s[left@.len() as int] == 44);
        if comma < left@.len() {
            assert(left@[comma] == s[comma]);
        }
        assert(comma == left@.len());
        assert(s.take(comma) =~= left@);
        assert(s.skip(comma + 1) =~= right@);
    }
}

/// A heart-beat value is written as two numbers with a comma between them.
pub proof fn law_heartbeat_is_written_as_two_numbers(
    outgoing: u32,
    incoming: u32,
    r: Vec<u8>,
    left: Vec<u8>,
    right: Vec<u8>,
)
    requires
        call_ensures(format_heartbeat, ((outgoing, incoming),), r),
        call_ensures(to_decimal, (outgoing as u64,), left),
        call_ensures(to_decimal, (incoming as u64,), right),
    ensures
        r@ == left@ + seq![44u8] + right@,
{
}

/// A beat is due once the connection was idle for the interval, and not before:
/// the time that has passed and the time left are the interval together. The
/// server is gone once it was quiet for twice its interval. None of this holds
/// where there is no interval, or where beats are left to the application.
pub proof fn law_beats_are_due_in_time(
    beats: &Heartbeat,
    passed: u64,
    beat: Option<u64>,
    silent: Option<u64>,
)
    requires
        call_ensures(Heartbeat::until_beat, (beats, passed), beat),
        call_ensures(Heartbeat::until_silent, (beats, passed), silent),
    ensures
        beat is Some <==> beats.automatic && beats.outgoing is Some,
        beat matches Some(left) ==> (left == 0 <==> passed >= beats.outgoing->0) && (left > 0
            ==> passed + left == beats.outgoing->0),
        silent is Some <==> beats.automatic && beats.incoming is Some,
        silent matches Some(left) ==> (left == 0 <==> passed >= 2 * beats.incoming->0) && (left > 0
            ==> passed + left == 2 * beats.incoming->0),
{
}

/// A shutdown has been acknowledged exactly if the receipt that it asked for
/// arrives, has failed exactly if the server reports an error or is gone, and
/// goes on otherwise.
pub proof fn law_shutdown_ends_with_its_receipt(
    reply: &Option<Message<FromServer>>,
    receipt: &str,
    r: Closing,
)
    requires
        call_ensures(closing, (reply, receipt), r),
    ensures
        r == Closing::Acknowledged <==> (*reply matches Some(m)
            && m.content matches FromServer::Receipt {
            receipt_id,
        } && receipt_id@ == receipt@),
        r == Closing::Failed <==> (*reply is None || (*reply matches Some(m)
            && m.content is Error)),
{
}

/// A shutdown starts with a DISCONNECT that asks for the receipt, and nothing
/// else.
pub proof fn law_shutdown_asks_for_its_receipt(receipt: String, m: Message<ToServer>)
    requires
        call_ensures(disconnect_msg, (receipt,), m),
    ensures
        m.content matches ToServer::Disconnect { receipt: Some(asked) } && asked@ == receipt@,
        m.extra_headers@.len() == 0,
{
    assert(m@.extra_headers.len() == m.extra_headers@.len());
}

proof fn lemma_colon_before_port(host: Seq<char>, port: Seq<char>)
    requires
        !port.contains(':'),
    ensures
        last_colon(host.push(':') + port) == host.len(),
    decreases port.len(),
{
    let s = host.push(':') + port;
    if port.len() == 0 {
        assert(s =~= host.push(':'));
    } else {
        assert(s.drop_last() =~= host.push(':') + port.drop_last());
        assert(port.contains(port.last()));
        assert forall|c: char| port.drop_last().contains(c) implies port.contains(c) by {
            let i = choose|i: int| 0 <= i < port.drop_last().len() && port.drop_last()[i] == c;
            assert(port[i] == c);
        }
        lemma_colon_before_port(host, port.drop_last());
    }
}

proof fn lemma_no_colon(s: Seq<char>)
    requires
        !s.contains(':'),
    ensures
        last_colon(s) == -1,
    decreases s.len(),
{
    if s.len() > 0 {
        assert(s.contains(s.last()));
        assert forall|c: char| s.drop_last().contains(c) implies s.contains(c) by {
            let i = choose|i: int| 0 <= i < s.drop_last().len() && s.drop_last()[i] == c;
            assert(s[i] == c);
        }
        lemma_no_colon(s.drop_last());
    }
}

/// The host of "host:port" is what stands in front of the last colon, without
/// the brackets of an IPv6 address; an address without a colon is all host.
pub proof fn law_host_is_in_front_of_the_port(
    address: &str,
    host: Seq<char>,
    port: Seq<char>,
    r: String,
)
    requires
        call_ensures(server_host, (address,), r),
        !port.contains(':'),
    ensures
        !(host.len() >= 2 && host[0] == '[' && host.last() == ']') ==> {
            &&& address@ == host && !host.contains(':') ==> r@ == host
            &&& address@ == host + seq![':'] + port ==> r@ == host
        },
        address@ == seq!['['] + host + seq![']', ':'] + port ==> r@ == host,
        address@ == seq!['['] + host + seq![']'] && !host.contains(':') ==> r@ == host,
{
    if address@ == host && !host.contains(':') {
        lemma_no_colon(host);
    }
    if address@ == host + seq![':'] + port {
        assert(address@ =~= host.push(':') + port);
        lemma_colon_before_port(host, port);
        assert(address@.take(host.len() as int) =~= host);
    }
    if address@ == seq!['['] + host + seq![']'] && !host.contains(':') {
        assert forall|c: char| address@.contains(c) && c == ':' implies host.contains(c) by {
            let i = choose|i: int| 0 <= i < address@.len() && address@[i] == c;
            assert(host[i - 1] == c);
        }
        lemma_no_colon(address@);
        assert(address@.subrange(1, address@.len() - 1) =~= host);
    }
    if address@ == seq!['['] + host + seq![']', ':'] + port {
        let inner = seq!['['] + host + seq![']'];
        assert(address@ =~= inner.push(':') + port);
        lemma_colon_before_port(inner, port);
        assert(address@.take(inner.len() as int) =~= inner);
        assert(inner.subrange(1, inner.len() - 1) =~= host);
    }
}

/// A certificate is verified against the name that was set, else against the
/// host of the configured address, else against the peer; without any name
/// there is an error.
pub proof fn law_certificate_name<S, V>(
    c: &Connector<S, V>,
    configured: Option<&str>,
    peer: &str,
    r: Result<String, Error>,
    host: String,
)
    requires
        call_ensures(Connector::<S, V>::tls_name, (c, configured, peer), r),
        configured matches Some(address) ==> call_ensures(server_host, (address,), host),
        configured is None ==> host@ == peer@,
    ensures
        c.tls_server_name matches Some(name) ==> (r matches Ok(found) && found@ == name@),
        c.tls_server_name is None && host@.len() > 0 ==> (r matches Ok(found) && found@ == host@),
        c.tls_server_name is None && host@.len() == 0 ==> r == Err::<String, Error>(
            Error::NoHostname,
        ),
{
}

} // verus!
