//! Messages as mathematical values.
//!
//! A string is the sequence of its characters here, and bytes are a sequence of
//! bytes. The contracts of the library speak of these values.

use crate::{AckMode, FromServer, Message, ToServer};
use vstd::prelude::*;

verus! {

/// What a [`Message`] holds.
pub struct MessageView<T> {
    pub content: T,
    pub extra_headers: Seq<(Seq<u8>, Seq<u8>)>,
}

/// What a [`FromServer`] holds.
pub enum FromServerView {
    Connected {
        version: Seq<char>,
        session: Option<Seq<char>>,
        server: Option<Seq<char>>,
        heartbeat: Option<Seq<char>>,
    },
    Message {
        destination: Seq<char>,
        message_id: Seq<char>,
        subscription: Seq<char>,
        ack: Option<Seq<char>>,
        headers: Seq<(Seq<char>, Seq<char>)>,
        body: Option<Seq<u8>>,
    },
    Receipt { receipt_id: Seq<char> },
    Error { message: Option<Seq<char>>, body: Option<Seq<u8>> },
}

/// What a [`ToServer`] holds.
#[allow(inconsistent_fields)]
pub enum ToServerView {
    Connect {
        accept_version: Seq<char>,
        host: Seq<char>,
        login: Option<Seq<char>>,
        passcode: Option<Seq<char>>,
        heartbeat: Option<(u32, u32)>,
    },
    Send {
        destination: Seq<char>,
        transaction: Option<Seq<char>>,
        headers: Option<Seq<(Seq<char>, Seq<char>)>>,
        body: Option<Seq<u8>>,
    },
    Subscribe { destination: Seq<char>, id: Seq<char>, ack: Option<AckMode> },
    Unsubscribe { id: Seq<char> },
    Ack { id: Seq<char>, transaction: Option<Seq<char>> },
    Nack { id: Seq<char>, transaction: Option<Seq<char>> },
    Begin { transaction: Seq<char> },
    Commit { transaction: Seq<char> },
    Abort { transaction: Seq<char> },
    Disconnect { receipt: Option<Seq<char>> },
}

/// The characters of an optional string.
pub open spec fn opt_text(s: Option<String>) -> Option<Seq<char>> {
    match s {
        Some(s) => Some(s@),
        None => None,
    }
}

/// The bytes of an optional vector.
pub open spec fn opt_bytes(v: Option<Vec<u8>>) -> Option<Seq<u8>> {
    match v {
        Some(v) => Some(v@),
        None => None,
    }
}

/// The characters of pairs of strings.
pub open spec fn texts(hs: Seq<(String, String)>) -> Seq<(Seq<char>, Seq<char>)> {
    hs.map_values(|h: (String, String)| (h.0@, h.1@))
}

/// The characters of pairs of strings, if there are any.
pub open spec fn opt_texts(hs: Option<Vec<(String, String)>>) -> Option<
    Seq<(Seq<char>, Seq<char>)>,
> {
    match hs {
        Some(hs) => Some(texts(hs@)),
        None => None,
    }
}

/// A result by the views of what it holds.
pub open spec fn outcome<T: View, E: View>(r: Result<T, E>) -> Result<T::V, E::V> {
    match r {
        Ok(t) => Ok(t@),
        Err(e) => Err(e@),
    }
}

impl View for FromServer {
    type V = FromServerView;

    open spec fn view(&self) -> FromServerView {
        match *self {
            FromServer::Connected { version, session, server, heartbeat } =>
                FromServerView::Connected {
                version: version@,
                session: opt_text(session),
                server: opt_text(server),
                heartbeat: opt_text(heartbeat),
            },
            FromServer::Message { destination, message_id, subscription, ack, headers, body } =>
                FromServerView::Message {
                destination: destination@,
                message_id: message_id@,
                subscription: subscription@,
                ack: opt_text(ack),
                headers: texts(headers@),
                body: opt_bytes(body),
            },
            FromServer::Receipt { receipt_id } => FromServerView::Receipt {
                receipt_id: receipt_id@,
            },
            FromServer::Error { message, body } => FromServerView::Error {
                message: opt_text(message),
                body: opt_bytes(body),
            },
        }
    }
}

impl View for ToServer {
    type V = ToServerView;

    open spec fn view(&self) -> ToServerView {
        match *self {
            ToServer::Connect { accept_version, host, login, passcode, heartbeat } =>
                ToServerView::Connect {
                accept_version: accept_version@,
                host: host@,
                login: opt_text(login),
                passcode: opt_text(passcode),
                heartbeat,
            },
            ToServer::Send { destination, transaction, headers, body } => ToServerView::Send {
                destination: destination@,
                transaction: opt_text(transaction),
                headers: opt_texts(headers),
                body: opt_bytes(body),
            },
            ToServer::Subscribe { destination, id, ack } => ToServerView::Subscribe {
                destination: destination@,
                id: id@,
                ack,
            },
            ToServer::Unsubscribe { id } => ToServerView::Unsubscribe { id: id@ },
            ToServer::Ack { id, transaction } => ToServerView::Ack {
                id: id@,
                transaction: opt_text(transaction),
            },
            ToServer::Nack { id, transaction } => ToServerView::Nack {
                id: id@,
                transaction: opt_text(transaction),
            },
            ToServer::Begin { transaction } => ToServerView::Begin { transaction: transaction@ },
            ToServer::Commit { transaction } => ToServerView::Commit { transaction: transaction@ },
            ToServer::Abort { transaction } => ToServerView::Abort { transaction: transaction@ },
            ToServer::Disconnect { receipt } => ToServerView::Disconnect {
                receipt: opt_text(receipt),
            },
        }
    }
}

impl<T: View> View for Message<T> {
    type V = MessageView<T::V>;

    open spec fn view(&self) -> MessageView<T::V> {
        MessageView {
            content: self.content@,
            extra_headers: crate::frame::pairs_view(self.extra_headers@),
        }
    }
}

} // verus!
