//! What can go wrong, and how it is told.

use crate::grammar::Part;
use crate::text::{
    decimal_text, lossy, lossy_text, quoted, quoted_text, to_decimal_text, NumberError,
};
use vstd::prelude::*;

verus! {

/// Why a frame could not be read, written or accepted
#[derive(Debug, Clone)]
pub enum Error {
    /// A header that the frame needs is missing, or its value is not UTF-8
    MissingHeader(String),
    /// The name of a header is not UTF-8
    HeaderNameNotUtf8,
    /// The value of this header is not UTF-8
    HeaderValueNotUtf8(String),
    /// There is no such acknowledgment mode
    InvalidAckMode(String),
    /// There is no such command in this direction
    UnrecognizedFrame(Vec<u8>),
    /// A heart-beat value without a comma
    BadHeartbeat,
    /// A heart-beat interval that is not a number
    BadInterval(NumberError),
    /// An unfinished frame is larger than this many bytes
    FrameTooLarge(usize),
    /// The bytes are not a frame
    ParseFailed(Part),
    /// The frame would make the buffer larger than any buffer can be
    BufferFull,
    /// The answer to a CONNECT is not a CONNECTED, but this
    UnexpectedReply(String),
    /// The server chose this version of the protocol
    WrongVersion(String),
    /// There is no host name to verify a certificate against
    NoHostname,
}

/// What an [`Error`] holds.
pub enum ErrorView {
    MissingHeader(Seq<char>),
    HeaderNameNotUtf8,
    HeaderValueNotUtf8(Seq<char>),
    InvalidAckMode(Seq<char>),
    UnrecognizedFrame(Seq<u8>),
    BadHeartbeat,
    BadInterval(NumberError),
    FrameTooLarge(usize),
    ParseFailed(Part),
    BufferFull,
    UnexpectedReply(Seq<char>),
    WrongVersion(Seq<char>),
    NoHostname,
}

impl View for Error {
    type V = ErrorView;

    open spec fn view(&self) -> ErrorView {
        match *self {
            Error::MissingHeader(key) => ErrorView::MissingHeader(key@),
            Error::HeaderNameNotUtf8 => ErrorView::HeaderNameNotUtf8,
            Error::HeaderValueNotUtf8(key) => ErrorView::HeaderValueNotUtf8(key@),
            Error::InvalidAckMode(mode) => ErrorView::InvalidAckMode(mode@),
            Error::UnrecognizedFrame(command) => ErrorView::UnrecognizedFrame(command@),
            Error::BadHeartbeat => ErrorView::BadHeartbeat,
            Error::BadInterval(e) => ErrorView::BadInterval(e),
            Error::FrameTooLarge(limit) => ErrorView::FrameTooLarge(limit),
            Error::ParseFailed(part) => ErrorView::ParseFailed(part),
            Error::BufferFull => ErrorView::BufferFull,
            Error::UnexpectedReply(reply) => ErrorView::UnexpectedReply(reply@),
            Error::WrongVersion(version) => ErrorView::WrongVersion(version@),
            Error::NoHostname => ErrorView::NoHostname,
        }
    }
}

/// The name of a part of a frame.
pub open spec fn part_name(part: Part) -> Seq<char> {
    match part {
        Part::Header => "Header"@,
        Part::CommandOrHeaders => "Command/Headers"@,
        Part::Terminator => "NullTermination/LineEnding"@,
    }
}

/// Why a text is not a number, in words.
pub open spec fn number_error_text(e: NumberError) -> Seq<char> {
    match e {
        NumberError::Empty => "cannot parse integer from empty string"@,
        NumberError::InvalidDigit => "invalid digit found in string"@,
        NumberError::TooLarge => "number too large to fit in target type"@,
    }
}

/// An error in words.
pub open spec fn error_text(e: ErrorView) -> Seq<char> {
    match e {
        ErrorView::MissingHeader(key) => "Expected header '"@ + key + "' missing"@,
        ErrorView::HeaderNameNotUtf8 => "Header name is not valid UTF-8"@,
        ErrorView::HeaderValueNotUtf8(key) => "Value of header '"@ + key
            + "' is not valid UTF-8"@,
        ErrorView::InvalidAckMode(mode) => "Invalid ack mode: "@ + mode + ""@,
        ErrorView::UnrecognizedFrame(command) => "Frame not recognized: "@ + quoted_text(
            lossy_text(command),
        ) + ""@,
        ErrorView::BadHeartbeat => "Bad heartbeat"@,
        ErrorView::BadInterval(e) => number_error_text(e),
        ErrorView::FrameTooLarge(limit) => "Frame exceeds the maximum of "@ + decimal_text(
            limit as nat,
        ) + " bytes"@,
        ErrorView::ParseFailed(part) =>
            "Parse failed: Backtrack(ContextError { context: [Label(\""@ + part_name(part)
            + "\")], cause: None })"@,
        ErrorView::BufferFull => "The frame does not fit in the buffer"@,
        ErrorView::UnexpectedReply(reply) => "unexpected reply: "@ + reply + ""@,
        ErrorView::WrongVersion(version) => "server negotiated STOMP "@ + version
            + ", this client speaks 1.2"@,
        ErrorView::NoHostname => "Could not determine server hostname for TLS verification"@,
    }
}

/// `middle` between `before` and `after`.
fn around(before: &str, middle: &str, after: &str) -> (r: String)
    ensures
        r@ == before@ + middle@ + after@,
{
    let mut text = before.to_owned();
    text.append(middle);
    text.append(after);
    text
}

impl Error {
    /// This error in words
    pub fn message(&self) -> (r: String)
        ensures
            r@ == error_text(self@),
    {
        match self {
            Error::MissingHeader(key) => around("Expected header '", key.as_str(), "' missing"),
            Error::HeaderNameNotUtf8 => "Header name is not valid UTF-8".to_owned(),
            Error::HeaderValueNotUtf8(key) => around(
                "Value of header '",
                key.as_str(),
                "' is not valid UTF-8",
            ),
            Error::InvalidAckMode(mode) => around("Invalid ack mode: ", mode.as_str(), ""),
            Error::UnrecognizedFrame(command) => around(
                "Frame not recognized: ",
                quoted(lossy(command.as_slice()).as_str()).as_str(),
                "",
            ),
            Error::BadHeartbeat => "Bad heartbeat".to_owned(),
            Error::BadInterval(NumberError::Empty) =>
                "cannot parse integer from empty string".to_owned(),
            Error::BadInterval(NumberError::InvalidDigit) =>
                "invalid digit found in string".to_owned(),
            Error::BadInterval(NumberError::TooLarge) =>
                "number too large to fit in target type".to_owned(),
            Error::FrameTooLarge(limit) => around(
                "Frame exceeds the maximum of ",
                to_decimal_text(*limit as u64).as_str(),
                " bytes",
            ),
            Error::ParseFailed(part) => {
                let name = match part {
                    Part::Header => "Header",
                    Part::CommandOrHeaders => "Command/Headers",
                    Part::Terminator => "NullTermination/LineEnding",
                };
                around(
                    "Parse failed: Backtrack(ContextError { context: [Label(\"",
                    name,
                    "\")], cause: None })",
                )
            },
            Error::BufferFull => "The frame does not fit in the buffer".to_owned(),
            Error::UnexpectedReply(reply) => around("unexpected reply: ", reply.as_str(), ""),
            Error::WrongVersion(version) => around(
                "server negotiated STOMP ",
                version.as_str(),
                ", this client speaks 1.2",
            ),
            Error::NoHostname =>
                "Could not determine server hostname for TLS verification".to_owned(),
        }
    }
}

} // verus!
