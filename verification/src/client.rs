//! Connections and subscriptions, and the codec between messages and bytes.

use crate::buffer::{advance, append, chunk, contents, has_room};
use crate::compose::{encoded_texts, message_frame};
use crate::convert::server_message;
use crate::error::{Error, ErrorView};
use crate::escape::LF;
use crate::frame::{pairs_view, wire};
use crate::grammar::{after_line_ending, frame_at, parse_frame, skip_line_ending, ParseError};
use crate::heartbeat::{heartbeat_value, negotiate, negotiated, parse_heartbeat, Heartbeat};
use crate::model::{opt_text, outcome, texts, FromServerView, MessageView, ToServerView};
use crate::show::{reply_view, show_reply, shown_reply};
use crate::text::text_is;
use crate::{AckMode, FromServer, Message, ToServer};
use bytes::BytesMut;
use vstd::prelude::*;
use vstd::slice::slice_to_vec;
use vstd::utf8::*;

verus! {

/// Largest frame this client will buffer, unless told otherwise
///
/// Matches the default ActiveMQ and Artemis accept, so a message the broker
/// took is a message this client can read.
pub const DEFAULT_MAX_FRAME_SIZE: usize = 104_857_600;

/// Codec for encoding/decoding STOMP protocol frames for client usage
///
/// This codec handles the conversion between STOMP protocol frames and Rust
/// types.
#[derive(Debug)]
pub struct ClientCodec {
    /// Refuse to keep buffering once an unfinished frame passes this size
    max_frame_size: usize,
}

/// Where the heart-beats that start at `p` end: line endings, as many as there
/// are.
pub open spec fn beats_end(s: Seq<u8>, p: int) -> int
    decreases s.len() - p,
{
    let next = skip_line_ending(s, p);
    if p < next <= s.len() {
        beats_end(s, next)
    } else {
        p
    }
}

/// What the bytes behind the heart-beats come to: the outcome, and how many of
/// them are used up.
pub open spec fn decoded_rest(s: Seq<u8>, max_frame_size: usize) -> (
    Result<Option<MessageView<FromServerView>>, ErrorView>,
    int,
) {
    match frame_at(s) {
        Ok((frame, end)) => (
            match server_message(frame) {
                Ok(message) => Ok(Some(message)),
                Err(e) => Err(e),
            },
            end,
        ),
        Err(ParseError::Incomplete) => (
            if s.len() > max_frame_size {
                Err(ErrorView::FrameTooLarge(max_frame_size))
            } else {
                Ok(None)
            },
            0,
        ),
        Err(ParseError::Invalid(part)) => (Err(ErrorView::ParseFailed(part)), 0),
    }
}

/// What received bytes come to: the outcome, and how many of them are used up.
/// Heart-beats in front of a frame are used up in any case.
pub open spec fn decoded(s: Seq<u8>, max_frame_size: usize) -> (
    Result<Option<MessageView<FromServerView>>, ErrorView>,
    int,
) {
    let start = beats_end(s, 0);
    let (result, used) = decoded_rest(s.skip(start), max_frame_size);
    (result, start + used)
}

/// The bytes of a message behind those that are there, unless no buffer could
/// hold them all.
pub open spec fn encoded_onto(held: Seq<u8>, item: MessageView<ToServerView>) -> Result<
    Seq<u8>,
    ErrorView,
> {
    let bytes = wire(message_frame(item));
    if has_room(held.len(), bytes.len()) {
        Ok(held + bytes)
    } else {
        Err(ErrorView::BufferFull)
    }
}

/// Where the heart-beats at the start of `s` end.
fn skip_beats(s: &[u8]) -> (r: usize)
    ensures
        r == beats_end(s@, 0),
        r <= s@.len(),
{
    let mut p: usize = 0;
    loop
        invariant
            p <= s@.len(),
            beats_end(s@, p as int) == beats_end(s@, 0),
        decreases s@.len() - p,
    {
        let next = after_line_ending(s, p);
        if next == p {
            return p;
        }
        p = next;
    }
}

impl Default for ClientCodec {
    fn default() -> (r: Self)
        ensures
            r.bound() == DEFAULT_MAX_FRAME_SIZE,
    {
        ClientCodec { max_frame_size: DEFAULT_MAX_FRAME_SIZE }
    }
}

impl ClientCodec {
    /// The size that no unfinished frame may pass.
    pub closed spec fn bound(&self) -> usize {
        self.max_frame_size
    }

    /// A codec bounded by [`DEFAULT_MAX_FRAME_SIZE`]
    pub fn new() -> (r: Self)
        ensures
            r.bound() == DEFAULT_MAX_FRAME_SIZE,
    {
        Self::default()
    }

    /// A codec that gives up on a frame once it grows past `max_frame_size`
    ///
    /// The bound is what stops a broken or hostile `content-length` from
    /// growing the read buffer until the process runs out of memory.
    pub fn with_max_frame_size(max_frame_size: usize) -> (r: Self)
        ensures
            r.bound() == max_frame_size,
    {
        ClientCodec { max_frame_size }
    }

    /// Decodes bytes from the server into STOMP messages
    ///
    /// Heart-beats at the start of the buffer are dropped. If a complete frame
    /// follows, it is taken from the buffer and its message is returned.
    /// If more data is needed, it returns None.
    /// If parsing fails, it returns an error.
    pub fn decode(&mut self, src: &mut BytesMut) -> (r: Result<
        Option<Message<FromServer>>,
        Error,
    >)
        ensures
            *final(self) == *old(self),
            match r {
                Ok(Some(message)) => Ok::<Option<MessageView<FromServerView>>, ErrorView>(
                    Some(message@),
                ),
                Ok(None) => Ok::<Option<MessageView<FromServerView>>, ErrorView>(None),
                Err(e) => Err::<Option<MessageView<FromServerView>>, ErrorView>(e@),
            } == decoded(contents(*old(src)), old(self).bound()).0,
            0 <= decoded(contents(*old(src)), old(self).bound()).1 <= contents(*old(src)).len(),
            contents(*final(src)) == contents(*old(src)).skip(
                decoded(contents(*old(src)), old(self).bound()).1,
            ),
            r matches Ok(None) ==> contents(*final(src)).len() <= old(self).bound(),
    {
        let ghost all = contents(*src);
        let beats = skip_beats(chunk(src));
        advance(src, beats);
        let ghost rest = contents(*src);
        let received = chunk(src);
        let mut input = received;

        // Attempt to parse a frame from the buffer
        let item = match parse_frame(&mut input) {
            Ok(frame) => Message::<FromServer>::from_frame(frame),
            Err(ParseError::Incomplete) => {
                assert(all.skip(beats as int) =~= rest);
                // More data is wanted. If the unfinished frame is already over
                // the bound, no amount of further reading makes it acceptable,
                // so stop before the buffer grows any further.
                if received.len() > self.max_frame_size {
                    return Err(Error::FrameTooLarge(self.max_frame_size));
                }
                return Ok(None);
            },
            Err(ParseError::Invalid(part)) => {
                return Err(Error::ParseFailed(part));
            },
        };

        // Advance the buffer past the consumed bytes
        let used: usize = received.len() - input.len();
        advance(src, used);
        assert(contents(*src) =~= all.skip(beats + used));
        match item {
            Ok(message) => Ok(Some(message)),
            Err(e) => Err(e),
        }
    }

    /// Encodes STOMP messages for sending to the server
    ///
    /// The bytes go behind what the buffer holds. Where that would be more than
    /// any buffer can hold, the buffer stays as it is.
    pub fn encode(&mut self, item: Message<ToServer>, dst: &mut BytesMut) -> (r: Result<(), Error>)
        ensures
            *final(self) == *old(self),
            match encoded_onto(contents(*old(dst)), item@) {
                Ok(bytes) => r is Ok && contents(*final(dst)) == bytes,
                Err(e) => {
                    &&& r matches Err(found) && found@ == e
                    &&& *final(dst) == *old(dst)
                },
            },
    {
        let frame = item.to_frame();
        let held = chunk(dst).len();
        let limit: usize = isize::MAX as usize;
        if held > limit || frame.size_within(limit - held).is_none() {
            return Err(Error::BufferFull);
        }
        frame.serialize(dst);
        Ok(())
    }

    /// Encodes a heart-beat for sending to the server
    ///
    /// A heart-beat is a line feed where a frame could start. A buffer that holds
    /// as much as any can stays as it is.
    pub fn encode_heartbeat(&mut self, dst: &mut BytesMut) -> (r: Result<(), Error>)
        ensures
            *final(self) == *old(self),
            if has_room(contents(*old(dst)).len(), 1) {
                &&& r is Ok
                &&& contents(*final(dst)) == contents(*old(dst)).push(LF)
            } else {
                &&& r matches Err(e) && e@ == ErrorView::BufferFull
                &&& *final(dst) == *old(dst)
            },
    {
        let held = chunk(dst).len();
        if held >= isize::MAX as usize {
            return Err(Error::BufferFull);
        }
        let beat: [u8; 1] = [LF];
        append(dst, beat.as_slice());
        assert(contents(*dst) =~= contents(*old(dst)).push(LF));
        Ok(())
    }
}

/// A required builder field that has not been set yet
pub struct Unset;

/// A builder for STOMP connections to a server
///
/// This struct provides a builder pattern for configuring the connection
/// parameters.
///
/// Heart-beating is off unless [`heartbeat`](Connector::heartbeat) asks for it.
pub struct Connector<S = Unset, V = Unset> {
    /// Address of the server
    pub server: S,
    /// Virtual host to connect to
    pub virtualhost: V,
    /// Username
    pub login: Option<String>,
    /// Password
    pub passcode: Option<String>,
    /// Extra headers for the CONNECT frame
    pub headers: Vec<(String, String)>,
    /// Whether to connect over TLS
    pub use_tls: bool,
    /// Host name to verify the TLS certificate against
    pub tls_server_name: Option<String>,
    /// Size that no unfinished frame from the server may pass
    pub max_frame_size: usize,
    /// Heart-beats to ask the server for: how often the client can beat, and how
    /// often the server should
    pub heartbeat: Option<(u32, u32)>,
    /// Whether beats are sent and watched for without the application's help
    pub auto_heartbeat: bool,
}

/// The host in an address of the form host:port: what stands in front of the last
/// colon, or all of it if there is none. An IPv6 address stands in brackets,
/// which are not part of the host.
pub open spec fn host_in(address: Seq<char>) -> Seq<char> {
    let colon = last_colon(address);
    let host = if colon < 0 {
        address
    } else {
        address.take(colon)
    };
    if host.len() >= 2 && host[0] == '[' && host.last() == ']' {
        host.subrange(1, host.len() - 1)
    } else {
        host
    }
}

/// Where the last colon stands, -1 if there is none.
pub open spec fn last_colon(s: Seq<char>) -> int
    decreases s.len(),
{
    if s.len() == 0 {
        -1
    } else if s.last() == ':' {
        s.len() - 1
    } else {
        last_colon(s.drop_last())
    }
}

proof fn lemma_last_colon(s: Seq<char>, n: int)
    requires
        0 <= n <= s.len(),
        forall|i: int| n <= i < s.len() ==> s[i] != ':',
        n == 0 || s[n - 1] == ':',
    ensures
        last_colon(s) == n - 1,
    decreases s.len(),
{
    if s.len() > n {
        assert(s.last() == s[s.len() - 1]);
        assert forall|i: int| n <= i < s.drop_last().len() implies s.drop_last()[i] != ':' by {
            assert(s.drop_last()[i] == s[i]);
        }
        lemma_last_colon(s.drop_last(), n);
    }
}

/// The host in an address such as `"localhost:61613"`
pub fn server_host(address: &str) -> (r: String)
    ensures
        r@ == host_in(address@),
{
    let len = address.unicode_len();
    let mut n: usize = len;
    while n > 0 && address.get_char(n - 1) != ':'
        invariant
            n <= len,
            len == address@.len(),
            forall|i: int| n <= i < len ==> address@[i] != ':',
        decreases n,
    {
        n -= 1;
    }
    proof {
        lemma_last_colon(address@, n as int);
    }
    let end: usize = if n == 0 {
        len
    } else {
        n - 1
    };
    let ghost host = address@.take(end as int);
    assert(address@.take(len as int) =~= address@);
    if end >= 2 && address.get_char(0) == '[' && address.get_char(end - 1) == ']' {
        assert(host.subrange(1, end - 1) =~= address@.subrange(1, end - 1));
        address.substring_char(1, end - 1).to_owned()
    } else {
        assert(host =~= address@.subrange(0, end as int));
        address.substring_char(0, end).to_owned()
    }
}

/// The CONNECT message for these parameters. Only version 1.2 is ever offered.
pub open spec fn connect_request(
    host: Seq<char>,
    login: Option<Seq<char>>,
    passcode: Option<Seq<char>>,
    headers: Seq<(Seq<char>, Seq<char>)>,
    heartbeat: Option<(u32, u32)>,
) -> MessageView<ToServerView> {
    MessageView {
        content: ToServerView::Connect {
            accept_version: "1.2"@,
            host,
            login,
            passcode,
            heartbeat,
        },
        extra_headers: encoded_texts(headers),
    }
}

/// Convert custom headers to the binary format expected by the protocol
fn header_bytes(headers: &Vec<(String, String)>) -> (r: Vec<(Vec<u8>, Vec<u8>)>)
    ensures
        pairs_view(r@) == encoded_texts(texts(headers@)),
{
    let ghost all = encoded_texts(texts(headers@));
    let mut res: Vec<(Vec<u8>, Vec<u8>)> = Vec::new();
    let mut i: usize = 0;
    assert(pairs_view(res@) =~= all.take(0));
    while i < headers.len()
        invariant
            i <= headers@.len(),
            all == encoded_texts(texts(headers@)),
            pairs_view(res@) == all.take(i as int),
        decreases headers@.len() - i,
    {
        let ghost before = res@;
        let header = &headers[i];
        res.push(
            (
                slice_to_vec(header.0.as_str().as_bytes()),
                slice_to_vec(header.1.as_str().as_bytes()),
            ),
        );
        assert(all[i as int] == (encode_utf8(header.0@), encode_utf8(header.1@)));
        assert(pairs_view(res@) =~= pairs_view(before).push(all[i as int]));
        assert(all.take(i + 1) =~= all.take(i as int).push(all[i as int]));
        i += 1;
    }
    assert(all.take(i as int) =~= all);
    res
}

impl Connector<Unset, Unset> {
    /// Start configuring a connection
    ///
    /// `server` and `virtualhost` are required; everything else has a default.
    /// Finish with [`msg`](Connector::msg) for the CONNECT frame.
    pub fn builder() -> (r: Connector<Unset, Unset>)
        ensures
            r.login is None,
            r.passcode is None,
            r.headers@.len() == 0,
            !r.use_tls,
            r.tls_server_name is None,
            r.max_frame_size == DEFAULT_MAX_FRAME_SIZE,
            r.heartbeat is None,
            r.auto_heartbeat,
    {
        Connector {
            server: Unset,
            virtualhost: Unset,
            login: None,
            passcode: None,
            headers: Vec::new(),
            use_tls: false,
            tls_server_name: None,
            max_frame_size: DEFAULT_MAX_FRAME_SIZE,
            heartbeat: None,
            auto_heartbeat: true,
        }
    }
}

impl<S, V> Connector<S, V> {
    /// Address of the STOMP server, for instance `"localhost:61613"`
    pub fn server<T>(self, server: T) -> (r: Connector<T, V>)
        ensures
            r == (Connector {
                server,
                virtualhost: self.virtualhost,
                login: self.login,
                passcode: self.passcode,
                headers: self.headers,
                use_tls: self.use_tls,
                tls_server_name: self.tls_server_name,
                max_frame_size: self.max_frame_size,
                heartbeat: self.heartbeat,
                auto_heartbeat: self.auto_heartbeat,
            }),
    {
        Connector {
            server,
            virtualhost: self.virtualhost,
            login: self.login,
            passcode: self.passcode,
            headers: self.headers,
            use_tls: self.use_tls,
            tls_server_name: self.tls_server_name,
            max_frame_size: self.max_frame_size,
            heartbeat: self.heartbeat,
            auto_heartbeat: self.auto_heartbeat,
        }
    }

    /// Virtual host to connect to, sent as the `host` header. When the server
    /// has no virtual hosts, use the same host name as `server`.
    pub fn virtualhost<T: Into<String> + Clone>(self, virtualhost: T) -> (r: Connector<S, T>)
        ensures
            r == (Connector {
                server: self.server,
                virtualhost,
                login: self.login,
                passcode: self.passcode,
                headers: self.headers,
                use_tls: self.use_tls,
                tls_server_name: self.tls_server_name,
                max_frame_size: self.max_frame_size,
                heartbeat: self.heartbeat,
                auto_heartbeat: self.auto_heartbeat,
            }),
    {
        Connector {
            server: self.server,
            virtualhost,
            login: self.login,
            passcode: self.passcode,
            headers: self.headers,
            use_tls: self.use_tls,
            tls_server_name: self.tls_server_name,
            max_frame_size: self.max_frame_size,
            heartbeat: self.heartbeat,
            auto_heartbeat: self.auto_heartbeat,
        }
    }

    /// Username, if the server requires authentication
    pub fn login(self, login: String) -> (r: Self)
        ensures
            r == (Connector { login: Some(login), ..self }),
    {
        Connector { login: Some(login), ..self }
    }

    /// Password, if the server requires authentication
    pub fn passcode(self, passcode: String) -> (r: Self)
        ensures
            r == (Connector { passcode: Some(passcode), ..self }),
    {
        Connector { passcode: Some(passcode), ..self }
    }

    /// Extra headers for the CONNECT frame, such as a broker specific client id
    pub fn headers(self, headers: Vec<(String, String)>) -> (r: Self)
        ensures
            r == (Connector { headers, ..self }),
    {
        Connector { headers, ..self }
    }

    /// Connect over TLS. Defaults to `false`.
    pub fn use_tls(self, use_tls: bool) -> (r: Self)
        ensures
            r == (Connector { use_tls, ..self }),
    {
        Connector { use_tls, ..self }
    }

    /// Give up on a frame from the server once it grows past this many bytes.
    /// Defaults to [`DEFAULT_MAX_FRAME_SIZE`].
    ///
    /// The bound is what stops a broken or hostile `content-length` from
    /// growing the read buffer until the process runs out of memory. Raise it
    /// only alongside the matching setting on the broker.
    pub fn max_frame_size(self, max_frame_size: usize) -> (r: Self)
        ensures
            r == (Connector { max_frame_size, ..self }),
    {
        Connector { max_frame_size, ..self }
    }

    /// Host name to verify the TLS certificate against. Defaults to the host
    /// from `server`, or to the address that the connection leads to where
    /// `server` names no host, see [`tls_name`](Connector::tls_name).
    pub fn tls_server_name(self, tls_server_name: String) -> (r: Self)
        ensures
            r == (Connector { tls_server_name: Some(tls_server_name), ..self }),
    {
        Connector { tls_server_name: Some(tls_server_name), ..self }
    }

    /// Ask the server for heart-beats, in milliseconds: `outgoing` is how often
    /// this client can beat, `incoming` how often it would like the server to.
    /// Zero declines that direction.
    ///
    /// Without a call of this there are no heart-beats.
    pub fn heartbeat(self, outgoing: u32, incoming: u32) -> (r: Self)
        ensures
            r == (Connector { heartbeat: Some((outgoing, incoming)), ..self }),
    {
        Connector { heartbeat: Some((outgoing, incoming)), ..self }
    }

    /// Whether the beats agreed on are sent, and those of the server watched
    /// for, without the application's help. Defaults to `true`.
    pub fn auto_heartbeat(self, auto_heartbeat: bool) -> (r: Self)
        ensures
            r == (Connector { auto_heartbeat, ..self }),
    {
        Connector { auto_heartbeat, ..self }
    }

    /// The host name to verify the server's certificate against
    ///
    /// It is the one that was set. Where none was, it is the host in
    /// `configured`, the address of the server if that is given as text, or else
    /// `peer`, the host that the connection leads to.
    pub fn tls_name(&self, configured: Option<&str>, peer: &str) -> (r: Result<String, Error>)
        ensures
            outcome(r) == (match opt_text(self.tls_server_name) {
                Some(name) => Ok::<Seq<char>, ErrorView>(name),
                None => {
                    let host = match configured {
                        Some(address) => host_in(address@),
                        None => peer@,
                    };
                    if host.len() == 0 {
                        Err::<Seq<char>, ErrorView>(ErrorView::NoHostname)
                    } else {
                        Ok::<Seq<char>, ErrorView>(host)
                    }
                },
            }),
    {
        if let Some(name) = &self.tls_server_name {
            return Ok(name.as_str().to_owned());
        }
        let host = match configured {
            Some(address) => server_host(address),
            None => peer.to_owned(),
        };
        if host.as_str().unicode_len() == 0 {
            Err(Error::NoHostname)
        } else {
            Ok(host)
        }
    }

    /// The codec for this connection
    pub fn codec(&self) -> (r: ClientCodec)
        ensures
            r.bound() == self.max_frame_size,
    {
        ClientCodec::with_max_frame_size(self.max_frame_size)
    }
}

impl<S, V: Into<String>> Connector<S, V> {
    /// Create a CONNECT message without actually connecting
    ///
    /// This method creates a STOMP CONNECT message using the configured
    /// parameters which can be used to establish a connection manually.
    pub fn msg(self) -> (r: Message<ToServer>)
        ensures
            exists|host: String| #[trigger]
                call_ensures(<V as Into<String>>::into, (self.virtualhost,), host) && r@
                    == connect_request(
                    host@,
                    opt_text(self.login),
                    opt_text(self.passcode),
                    texts(self.headers@),
                    self.heartbeat,
                ),
    {
        let extra_headers = header_bytes(&self.headers);
        let accept_version = "1.2".to_owned();
        let host: String = self.virtualhost.into();
        Message {
            content: ToServer::Connect {
                accept_version,
                host,
                login: self.login,
                passcode: self.passcode,
                heartbeat: self.heartbeat,
            },
            extra_headers,
        }
    }
}

/// What a reply says, if there is one.
pub open spec fn content_of(reply: Option<MessageView<FromServerView>>) -> Option<FromServerView> {
    match reply {
        Some(message) => Some(message.content),
        None => None,
    }
}

/// The heart-beats that hold after a CONNECT that asked for `requested` was
/// answered: the reply has to be a CONNECTED for version 1.2. A server that
/// names no heart-beats declines them, and where none were asked for there are
/// none.
pub open spec fn accepted(
    reply: Option<MessageView<FromServerView>>,
    requested: Option<(u32, u32)>,
) -> Result<(Option<u32>, Option<u32>), ErrorView> {
    match content_of(reply) {
        Some(FromServerView::Connected { version, heartbeat, .. }) => if version != "1.2"@ {
            Err(ErrorView::WrongVersion(version))
        } else {
            match (requested, heartbeat) {
                (Some(asked), Some(value)) => match heartbeat_value(encode_utf8(value)) {
                    Ok(answer) => Ok(negotiated(asked, answer)),
                    Err(e) => Err(e),
                },
                _ => Ok((None, None)),
            }
        },
        _ => Err(ErrorView::UnexpectedReply(shown_reply(reply))),
    }
}

/// Check the server's answer to a CONNECT frame that asked for the heart-beats
/// `requested`
///
/// `reply` is the first message from the server, `None` if there is none. The
/// handshake has failed if the server responds with anything but a CONNECTED
/// frame, if that frame names another version than 1.2, or if heart-beats were
/// requested and those that it names cannot be read. Otherwise the heart-beats
/// agreed on are returned; `automatic` says whether they are kept without the
/// application's help.
pub fn accept_reply(
    reply: &Option<Message<FromServer>>,
    requested: Option<(u32, u32)>,
    automatic: bool,
) -> (r: Result<Heartbeat, Error>)
    ensures
        match accepted(reply_view(*reply), requested) {
            Ok((outgoing, incoming)) => r == Ok::<Heartbeat, Error>(
                Heartbeat { outgoing, incoming, automatic },
            ),
            Err(e) => r matches Err(found) && found@ == e,
        },
{
    let message = match reply {
        Some(message) => message,
        None => {
            return Err(Error::UnexpectedReply(show_reply(reply)));
        },
    };
    match &message.content {
        FromServer::Connected { version, heartbeat, .. } => {
            // CONNECT only ever offers 1.2, so another version back means the
            // server ignored the negotiation. Running on regardless would mean
            // acknowledging and escaping by rules this client does not
            // implement, and the resulting misbehaviour is far harder to trace
            // than a refused connection.
            if !text_is(version.as_str(), "1.2") {
                return Err(Error::WrongVersion(version.as_str().to_owned()));
            }
            let (outgoing, incoming) = match (requested, heartbeat) {
                (Some(asked), Some(value)) => match parse_heartbeat(value.as_str()) {
                    Ok(answer) => negotiate(asked, answer),
                    Err(e) => {
                        return Err(e);
                    },
                },
                _ => (None, None),
            };
            Ok(Heartbeat { outgoing, incoming, automatic })
        },
        _ => Err(Error::UnexpectedReply(show_reply(reply))),
    }
}

/// Where a graceful shutdown stands
#[derive(Debug, Clone, Copy, PartialEq, Eq, Structural)]
pub enum Closing {
    /// The server has confirmed that it processed everything sent before
    Acknowledged,
    /// The server has reported an error, or closed the connection
    Failed,
    /// The confirmation is still to come
    Waiting,
}

/// Where a graceful shutdown stands after a message from the server, `None` if
/// the server closed the connection.
pub open spec fn closing_after(reply: Option<FromServerView>, receipt: Seq<char>) -> Closing {
    match reply {
        Some(FromServerView::Receipt { receipt_id }) => if receipt_id == receipt {
            Closing::Acknowledged
        } else {
            Closing::Waiting
        },
        Some(FromServerView::Error { .. }) => Closing::Failed,
        Some(_) => Closing::Waiting,
        None => Closing::Failed,
    }
}

/// The message that starts a graceful shutdown: a DISCONNECT that asks for a
/// receipt
pub fn disconnect_msg(receipt: String) -> (r: Message<ToServer>)
    ensures
        r@ == (MessageView {
            content: ToServerView::Disconnect { receipt: Some(receipt@) },
            extra_headers: Seq::empty(),
        }),
{
    let msg = Message {
        content: ToServer::Disconnect { receipt: Some(receipt) },
        extra_headers: Vec::new(),
    };
    assert(pairs_view(msg.extra_headers@) =~= Seq::empty());
    msg
}

/// Where the shutdown that asked for `receipt` stands after the next message
/// from the server
pub fn closing(reply: &Option<Message<FromServer>>, receipt: &str) -> (r: Closing)
    ensures
        r == closing_after(content_of(reply_view(*reply)), receipt@),
{
    match reply {
        None => Closing::Failed,
        Some(message) => match &message.content {
            FromServer::Receipt { receipt_id } => if text_is(receipt_id.as_str(), receipt) {
                Closing::Acknowledged
            } else {
                Closing::Waiting
            },
            FromServer::Error { .. } => Closing::Failed,
            _ => Closing::Waiting,
        },
    }
}

/// Builder to create a Subscribe message with optional custom headers
///
/// This struct provides a builder pattern for configuring subscription
/// parameters and creating a SUBSCRIBE message to send to a STOMP server.
pub struct Subscriber<S = Unset, I = Unset> {
    /// Queue or topic to subscribe to
    pub destination: S,
    /// Identifier for the subscription
    pub id: I,
    /// Acknowledgment mode
    pub ack: Option<AckMode>,
    /// Extra headers for the SUBSCRIBE frame
    pub headers: Vec<(String, String)>,
}

/// The SUBSCRIBE message for these parameters.
pub open spec fn subscribe_request(
    destination: Seq<char>,
    id: Seq<char>,
    ack: Option<AckMode>,
    headers: Seq<(Seq<char>, Seq<char>)>,
) -> MessageView<ToServerView> {
    MessageView {
        content: ToServerView::Subscribe { destination, id, ack },
        extra_headers: encoded_texts(headers),
    }
}

impl Subscriber<Unset, Unset> {
    /// Start configuring a subscription
    ///
    /// `destination` and `id` are required; the headers are optional.
    pub fn builder() -> (r: Subscriber<Unset, Unset>)
        ensures
            r.ack is None,
            r.headers@.len() == 0,
    {
        Subscriber { destination: Unset, id: Unset, ack: None, headers: Vec::new() }
    }
}

impl<S, I> Subscriber<S, I> {
    /// The queue or topic to subscribe to
    pub fn destination<T: Into<String>>(self, destination: T) -> (r: Subscriber<T, I>)
        ensures
            r == (Subscriber { destination, id: self.id, ack: self.ack, headers: self.headers }),
    {
        Subscriber { destination, id: self.id, ack: self.ack, headers: self.headers }
    }

    /// Identifier for this subscription, chosen by you. Incoming messages
    /// carry it, and [`ToServer::Unsubscribe`] refers back to it.
    pub fn id<T: Into<String>>(self, id: T) -> (r: Subscriber<S, T>)
        ensures
            r == (Subscriber {
                destination: self.destination,
                id,
                ack: self.ack,
                headers: self.headers,
            }),
    {
        Subscriber { destination: self.destination, id, ack: self.ack, headers: self.headers }
    }

    /// How messages on this subscription are acknowledged
    ///
    /// Leaving it unset means [`AckMode::Auto`], where the broker considers a
    /// message delivered the moment it sends it. The other modes require an
    /// [`ToServer::Ack`] per message, built from the `ack` field of the
    /// [`FromServer::Message`].
    pub fn ack(self, ack: AckMode) -> (r: Self)
        ensures
            r == (Subscriber { ack: Some(ack), ..self }),
    {
        Subscriber { ack: Some(ack), ..self }
    }

    /// Extra headers for the SUBSCRIBE frame, such as a broker specific
    /// subscription name
    pub fn headers(self, headers: Vec<(String, String)>) -> (r: Self)
        ensures
            r == (Subscriber { headers, ..self }),
    {
        Subscriber { headers, ..self }
    }
}

impl<S: Into<String>, I: Into<String>> Subscriber<S, I> {
    /// Creates a SUBSCRIBE message using the configured parameters
    ///
    /// This method returns a STOMP SUBSCRIBE message that can be sent to a
    /// server to create a subscription with the configured destination, ID,
    /// acknowledgment mode and headers.
    pub fn subscribe(self) -> (r: Message<ToServer>)
        ensures
            exists|destination: String, id: String| #[trigger]
                call_ensures(<S as Into<String>>::into, (self.destination,), destination)
                    && #[trigger] call_ensures(<I as Into<String>>::into, (self.id,), id) && r@
                    == subscribe_request(destination@, id@, self.ack, texts(self.headers@)),
    {
        // Add any custom headers
        let extra_headers = header_bytes(&self.headers);
        let destination: String = self.destination.into();
        let id: String = self.id.into();
        Message { content: ToServer::Subscribe { destination, id, ack: self.ack }, extra_headers }
    }
}

} // verus!
