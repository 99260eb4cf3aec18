//! The grammar of frames, and reading them.
//!
//! The bytes of a frame may still be on their way when it is read, so every
//! rule tells apart input that ends too early, which more bytes can complete,
//! and input that no further bytes can make right.

use crate::escape::{COLON, COMMA, CR, LF, NUL};
use crate::frame::{cow_bytes, headers_view, Frame, FrameView, Header};
use crate::text::{bytes_equal, number, parse_u32};
use std::borrow::Cow;
use vstd::prelude::*;
use vstd::slice::slice_subrange;
use vstd::utf8::*;

verus! {

/// The part of a frame that cannot be read
#[derive(Debug, Clone, Copy, PartialEq, Eq, Structural)]
pub enum Part {
    /// A single header
    Header,
    /// The command line, or the lines up to the empty one
    CommandOrHeaders,
    /// The null byte at the end
    Terminator,
}

/// Why there is no frame at the start of the input
#[derive(Debug, Clone, Copy, PartialEq, Eq, Structural)]
pub enum ParseError {
    /// The input ends before the frame does
    Incomplete,
    /// The input is not a frame, whatever follows
    Invalid(Part),
}

/// The bytes at which a run of other bytes ends
#[derive(Debug, Clone, Copy, PartialEq, Eq, Structural)]
pub enum Stop {
    /// Anything but an ASCII letter
    NotLetter,
    /// A colon, a carriage return or a line feed
    NameEnd,
    /// A carriage return or a line feed
    LineEnd,
    /// A null byte
    Null,
    /// A comma
    Comma,
}

/// Whether a run ends at the byte `b`.
pub open spec fn stops(stop: Stop, b: u8) -> bool {
    match stop {
        Stop::NotLetter => !(65 <= b <= 90 || 97 <= b <= 122),
        Stop::NameEnd => b == COLON || b == CR || b == LF,
        Stop::LineEnd => b == CR || b == LF,
        Stop::Null => b == NUL,
        Stop::Comma => b == COMMA,
    }
}

/// Where the run that starts at `p` ends, the length of `s` if nowhere.
pub open spec fn find(s: Seq<u8>, p: int, stop: Stop) -> int
    decreases s.len() - p,
{
    if p >= s.len() {
        s.len() as int
    } else if stops(stop, s[p]) {
        p
    } else {
        find(s, p + 1, stop)
    }
}

/// Where a line ending at `p` ends: a line feed, or a carriage return and a line
/// feed. What is no line ending is an error in `part`.
pub open spec fn line_ending(s: Seq<u8>, p: int, part: Part) -> Result<int, ParseError> {
    if p >= s.len() {
        Err(ParseError::Incomplete)
    } else if s[p] == LF {
        Ok(p + 1)
    } else if s[p] != CR {
        Err(ParseError::Invalid(part))
    } else if p + 1 >= s.len() {
        Err(ParseError::Incomplete)
    } else if s[p + 1] == LF {
        Ok(p + 2)
    } else {
        Err(ParseError::Invalid(part))
    }
}

/// The position behind a line ending at `p`, or `p` if there is no whole one.
pub open spec fn skip_line_ending(s: Seq<u8>, p: int) -> int {
    match line_ending(s, p, Part::Terminator) {
        Ok(end) => end,
        Err(_) => p,
    }
}

/// The header at `p` and the position behind it: a name that is not empty, a
/// colon, a value, and a line ending.
pub open spec fn header_at(s: Seq<u8>, p: int) -> Result<((Seq<u8>, Seq<u8>), int), ParseError> {
    let colon = find(s, p, Stop::NameEnd);
    let eol = find(s, colon + 1, Stop::LineEnd);
    if colon >= s.len() {
        Err(ParseError::Incomplete)
    } else if colon == p || s[colon] != COLON {
        Err(ParseError::Invalid(Part::Header))
    } else {
        match line_ending(s, eol, Part::Header) {
            Ok(end) => Ok(((s.subrange(p, colon), s.subrange(colon + 1, eol)), end)),
            Err(e) => Err(e),
        }
    }
}

/// The headers at `p`, as many as there are, and the position behind them.
pub open spec fn headers_at(s: Seq<u8>, p: int) -> Result<
    (Seq<(Seq<u8>, Seq<u8>)>, int),
    ParseError,
>
    decreases s.len() - p,
{
    match header_at(s, p) {
        Ok((header, end)) => if p < end <= s.len() {
            match headers_at(s, end) {
                Ok((rest, last)) => Ok((seq![header] + rest, last)),
                Err(e) => Err(e),
            }
        } else {
            Ok((Seq::empty(), p))
        },
        Err(ParseError::Incomplete) => Err(ParseError::Incomplete),
        Err(ParseError::Invalid(_)) => Ok((Seq::empty(), p)),
    }
}

/// The command, and the position behind its line. A line ending may come first;
/// a carriage return alone may still become one.
pub open spec fn command_at(s: Seq<u8>) -> Result<(Seq<u8>, int), ParseError> {
    let start = skip_line_ending(s, 0);
    let end = find(s, start, Stop::NotLetter);
    if line_ending(s, 0, Part::CommandOrHeaders) == Err::<int, ParseError>(
        ParseError::Incomplete,
    ) {
        Err(ParseError::Incomplete)
    } else if end >= s.len() {
        Err(ParseError::Incomplete)
    } else if end == start {
        Err(ParseError::Invalid(Part::CommandOrHeaders))
    } else {
        match line_ending(s, end, Part::CommandOrHeaders) {
            Ok(next) => Ok((s.subrange(start, end), next)),
            Err(e) => Err(e),
        }
    }
}

/// The command and the headers, and the position behind the empty line that
/// ends them.
pub open spec fn head_at(s: Seq<u8>) -> Result<
    ((Seq<u8>, Seq<(Seq<u8>, Seq<u8>)>), int),
    ParseError,
> {
    match command_at(s) {
        Err(e) => Err(e),
        Ok((command, p)) => match headers_at(s, p) {
            Err(e) => Err(e),
            Ok((headers, q)) => match line_ending(s, q, Part::CommandOrHeaders) {
                Err(e) => Err(e),
                Ok(end) => Ok(((command, headers), end)),
            },
        },
    }
}

/// The value of the first header with the name `key`.
pub open spec fn value_of(hs: Seq<(Seq<u8>, Seq<u8>)>, key: Seq<u8>) -> Option<Seq<u8>>
    decreases hs.len(),
{
    if hs.len() == 0 {
        None
    } else if hs[0].0 == key {
        Some(hs[0].1)
    } else {
        value_of(hs.skip(1), key)
    }
}

/// The length of the body, if the first content-length header holds a number.
pub open spec fn content_length(hs: Seq<(Seq<u8>, Seq<u8>)>) -> Option<u32> {
    match value_of(hs, encode_utf8("content-length"@)) {
        None => None,
        Some(v) => match number(v) {
            Ok(n) => Some(n),
            Err(_) => None,
        },
    }
}

/// `s`, or `None` if it is empty.
pub open spec fn none_if_empty(s: Seq<u8>) -> Option<Seq<u8>> {
    if s.len() == 0 {
        None
    } else {
        Some(s)
    }
}

/// The body at `p` and the position behind it: as many bytes as `length` says,
/// or those up to the first null byte.
pub open spec fn body_at(s: Seq<u8>, p: int, length: Option<u32>) -> Result<
    (Option<Seq<u8>>, int),
    ParseError,
> {
    match length {
        Some(n) => if p + n > s.len() {
            Err(ParseError::Incomplete)
        } else {
            Ok((Some(s.subrange(p, p + n)), p + n))
        },
        None => {
            let end = find(s, p, Stop::Null);
            if end >= s.len() {
                Err(ParseError::Incomplete)
            } else {
                Ok((none_if_empty(s.subrange(p, end)), end))
            }
        },
    }
}

/// The frame at the start of `s`, without the null byte that ends it, and the
/// position behind that null byte.
pub open spec fn unterminated_frame_at(s: Seq<u8>) -> Result<(FrameView, int), ParseError> {
    match head_at(s) {
        Err(e) => Err(e),
        Ok(((command, headers), p)) => match body_at(s, p, content_length(headers)) {
            Err(e) => Err(e),
            Ok((body, q)) => if q >= s.len() {
                Err(ParseError::Incomplete)
            } else if s[q] != NUL {
                Err(ParseError::Invalid(Part::Terminator))
            } else {
                Ok((FrameView { command, headers, body }, q + 1))
            },
        },
    }
}

/// The frame at the start of `s` and the position behind it. A line ending that
/// follows the null byte belongs to the frame.
pub open spec fn frame_at(s: Seq<u8>) -> Result<(FrameView, int), ParseError> {
    match unterminated_frame_at(s) {
        Err(e) => Err(e),
        Ok((frame, end)) => Ok((frame, skip_line_ending(s, end))),
    }
}

/// A run ends at the first byte that ends it.
pub proof fn lemma_find(s: Seq<u8>, p: int, stop: Stop)
    requires
        0 <= p <= s.len(),
    ensures
        p <= find(s, p, stop) <= s.len(),
        find(s, p, stop) < s.len() ==> stops(stop, s[find(s, p, stop)]),
        forall|i: int| p <= i < find(s, p, stop) ==> !stops(stop, #[trigger] s[i]),
    decreases s.len() - p,
{
    if p < s.len() && !stops(stop, s[p]) {
        lemma_find(s, p + 1, stop);
    }
}

/// A header lies in the input and is not empty.
pub proof fn lemma_header_bounds(s: Seq<u8>, p: int)
    requires
        0 <= p <= s.len(),
    ensures
        header_at(s, p) matches Ok((_, end)) ==> p < end <= s.len(),
{
    let colon = find(s, p, Stop::NameEnd);
    lemma_find(s, p, Stop::NameEnd);
    if colon < s.len() {
        lemma_find(s, colon + 1, Stop::LineEnd);
    }
}

/// Headers lie in the input.
pub proof fn lemma_headers_bounds(s: Seq<u8>, p: int)
    requires
        0 <= p <= s.len(),
    ensures
        headers_at(s, p) matches Ok((_, end)) ==> p <= end <= s.len(),
    decreases s.len() - p,
{
    if let Ok((_, end)) = header_at(s, p) {
        if p < end <= s.len() {
            lemma_headers_bounds(s, end);
        }
    }
}

/// A frame lies in the input and is not empty.
pub proof fn lemma_frame_bounds(s: Seq<u8>)
    ensures
        command_at(s) matches Ok((_, end)) ==> 0 < end <= s.len(),
        head_at(s) matches Ok((_, end)) ==> 0 < end <= s.len(),
        unterminated_frame_at(s) matches Ok((_, end)) ==> 0 < end <= s.len(),
        frame_at(s) matches Ok((_, end)) ==> 0 < end <= s.len(),
{
    lemma_find(s, skip_line_ending(s, 0), Stop::NotLetter);
    if let Ok((_, p)) = command_at(s) {
        lemma_headers_bounds(s, p);
    }
    if let Ok(((_, headers), p)) = head_at(s) {
        lemma_find(s, p, Stop::Null);
    }
}

/// Whether a run ends at the byte `b`.
fn is_stop(stop: Stop, b: u8) -> (r: bool)
    ensures
        r == stops(stop, b),
{
    match stop {
        Stop::NotLetter => !(65 <= b && b <= 90 || 97 <= b && b <= 122),
        Stop::NameEnd => b == COLON || b == CR || b == LF,
        Stop::LineEnd => b == CR || b == LF,
        Stop::Null => b == NUL,
        Stop::Comma => b == COMMA,
    }
}

/// Where the run that starts at `start` ends.
pub(crate) fn find_stop(s: &[u8], start: usize, stop: Stop) -> (r: usize)
    requires
        start <= s@.len(),
    ensures
        start <= r <= s@.len(),
        r == find(s@, start as int, stop),
{
    let mut p = start;
    while p < s.len() && !is_stop(stop, s[p])
        invariant
            start <= p <= s@.len(),
            find(s@, p as int, stop) == find(s@, start as int, stop),
        decreases s@.len() - p,
    {
        p += 1;
    }
    p
}

/// Where a line ending at `p` ends.
fn parse_line_ending(s: &[u8], p: usize, part: Part) -> (r: Result<usize, ParseError>)
    requires
        p <= s@.len(),
    ensures
        match line_ending(s@, p as int, part) {
            Ok(end) => r matches Ok(found) && found == end && p < end <= s@.len(),
            Err(e) => r matches Err(found) && found == e,
        },
{
    if p == s.len() {
        Err(ParseError::Incomplete)
    } else if s[p] == LF {
        Ok(p + 1)
    } else if s[p] != CR {
        Err(ParseError::Invalid(part))
    } else if p == s.len() - 1 {
        Err(ParseError::Incomplete)
    } else if s[p + 1] == LF {
        Ok(p + 2)
    } else {
        Err(ParseError::Invalid(part))
    }
}

/// The position behind a line ending at `p`, or `p` if there is no whole one.
pub(crate) fn after_line_ending(s: &[u8], p: usize) -> (r: usize)
    requires
        p <= s@.len(),
    ensures
        r == skip_line_ending(s@, p as int),
        p <= r <= s@.len(),
{
    match parse_line_ending(s, p, Part::Terminator) {
        Ok(end) => end,
        Err(_) => p,
    }
}

/// The header at `p`, and the position behind it.
fn header_from<'a>(s: &'a [u8], p: usize) -> (r: Result<(Header<'a>, usize), ParseError>)
    requires
        p <= s@.len(),
    ensures
        match header_at(s@, p as int) {
            Ok((header, end)) => {
                &&& r matches Ok(found)
                &&& found.0.0@ == header.0
                &&& found.0.1@ == header.1
                &&& found.1 == end
                &&& p < end <= s@.len()
            },
            Err(e) => r matches Err(found) && found == e,
        },
{
    proof {
        lemma_header_bounds(s@, p as int);
    }
    let colon = find_stop(s, p, Stop::NameEnd);
    if colon == s.len() {
        return Err(ParseError::Incomplete);
    }
    if colon == p || s[colon] != COLON {
        return Err(ParseError::Invalid(Part::Header));
    }
    let eol = find_stop(s, colon + 1, Stop::LineEnd);
    match parse_line_ending(s, eol, Part::Header) {
        Ok(end) => Ok(
            (
                (slice_subrange(s, p, colon), Cow::Borrowed(slice_subrange(s, colon + 1, eol))),
                end,
            ),
        ),
        Err(e) => Err(e),
    }
}

/// The headers at `start`, and the position behind them.
fn headers_from<'a>(s: &'a [u8], start: usize) -> (r: Result<(Vec<Header<'a>>, usize), ParseError>)
    requires
        start <= s@.len(),
    ensures
        match headers_at(s@, start as int) {
            Ok((headers, end)) => {
                &&& r matches Ok(found)
                &&& headers_view(found.0@) == headers
                &&& found.1 == end
                &&& start <= end <= s@.len()
            },
            Err(e) => r matches Err(found) && found == e,
        },
{
    let mut headers: Vec<Header<'a>> = Vec::new();
    let mut p = start;
    proof {
        lemma_headers_bounds(s@, start as int);
        if let Ok((rest, _)) = headers_at(s@, start as int) {
            assert(headers_view(headers@) + rest =~= rest);
        }
    }
    loop
        invariant
            start <= p <= s@.len(),
            match headers_at(s@, p as int) {
                Ok((rest, end)) => headers_at(s@, start as int) == Ok::<
                    (Seq<(Seq<u8>, Seq<u8>)>, int),
                    ParseError,
                >((headers_view(headers@) + rest, end)),
                Err(e) => headers_at(s@, start as int) == Err::<
                    (Seq<(Seq<u8>, Seq<u8>)>, int),
                    ParseError,
                >(e),
            },
        decreases s@.len() - p,
    {
        match header_from(s, p) {
            Ok((header, end)) => {
                let ghost before = headers@;
                headers.push(header);
                proof {
                    assert(headers_view(headers@) =~= headers_view(before).push(
                        (header.0@, header.1@),
                    ));
                    if let Ok((rest, _)) = headers_at(s@, end as int) {
                        assert(headers_view(before) + (seq![(header.0@, header.1@)] + rest)
                            =~= headers_view(headers@) + rest);
                    }
                }
                p = end;
            },
            Err(ParseError::Incomplete) => {
                return Err(ParseError::Incomplete);
            },
            Err(ParseError::Invalid(_)) => {
                assert(headers_view(headers@) + Seq::<(Seq<u8>, Seq<u8>)>::empty() =~= headers_view(
                    headers@,
                ));
                return Ok((headers, p));
            },
        }
    }
}

/// The command, and the position behind its line.
fn command_from<'a>(s: &'a [u8]) -> (r: Result<(&'a [u8], usize), ParseError>)
    ensures
        match command_at(s@) {
            Ok((command, end)) => {
                &&& r matches Ok(found)
                &&& found.0@ == command
                &&& found.1 == end
                &&& 0 < end <= s@.len()
            },
            Err(e) => r matches Err(found) && found == e,
        },
{
    if let Err(ParseError::Incomplete) = parse_line_ending(s, 0, Part::CommandOrHeaders) {
        return Err(ParseError::Incomplete);
    }
    let start = after_line_ending(s, 0);
    let end = find_stop(s, start, Stop::NotLetter);
    if end == s.len() {
        return Err(ParseError::Incomplete);
    }
    if end == start {
        return Err(ParseError::Invalid(Part::CommandOrHeaders));
    }
    match parse_line_ending(s, end, Part::CommandOrHeaders) {
        Ok(next) => Ok((slice_subrange(s, start, end), next)),
        Err(e) => Err(e),
    }
}

/// Extract the content-length value from headers if present
///
/// The first content-length header decides. `None` if there is none, or if its
/// value is not a number that fits a u32.
pub fn get_content_length(headers: &[Header<'_>]) -> (r: Option<u32>)
    ensures
        r == content_length(headers_view(headers@)),
{
    let ghost hs = headers_view(headers@);
    let ghost key = encode_utf8("content-length"@);
    let mut i: usize = 0;
    assert(hs.skip(0) =~= hs);
    while i < headers.len()
        invariant
            i <= headers@.len(),
            hs == headers_view(headers@),
            key == encode_utf8("content-length"@),
            value_of(hs.skip(i as int), key) == value_of(hs, key),
        decreases headers@.len() - i,
    {
        assert(hs.skip(i as int)[0] == (headers@[i as int].0@, headers@[i as int].1@));
        assert(hs.skip(i as int).skip(1) =~= hs.skip(i + 1));
        if bytes_equal(headers[i].0, "content-length".as_bytes()) {
            return match parse_u32(cow_bytes(&headers[i].1)) {
                Ok(n) => Some(n),
                Err(_) => None,
            };
        }
        i += 1;
    }
    None
}

/// Convert an empty slice to None, or Some(slice) if not empty
///
/// An empty body is no body.
pub fn is_empty_slice(s: &[u8]) -> (r: Option<&[u8]>)
    ensures
        crate::frame::body_view(r) == none_if_empty(s@),
{
    if s.is_empty() {
        None
    } else {
        Some(s)
    }
}

/// Parse a complete STOMP frame from a byte buffer
///
/// If the input starts with a complete frame, that frame is returned and
/// `input` is what follows it. A line ending in front of the command and one
/// behind the null byte belong to the frame.
/// If the input doesn't contain a complete frame, it returns Incomplete.
/// If the input contains invalid data, it returns an error.
/// Without a frame, `input` stays as it is.
pub fn parse_frame<'a>(input: &mut &'a [u8]) -> (r: Result<Frame<'a>, ParseError>)
    ensures
        match frame_at(old(input)@) {
            Ok((frame, end)) => {
                &&& r matches Ok(found)
                &&& found@ == frame
                &&& 0 < end <= old(input)@.len()
                &&& final(input)@ == old(input)@.skip(end)
            },
            Err(e) => {
                &&& r matches Err(found)
                &&& found == e
                &&& final(input)@ == old(input)@
            },
        },
{
    let s: &'a [u8] = *input;
    proof {
        lemma_frame_bounds(s@);
    }
    let (command, p) = match command_from(s) {
        Ok(found) => found,
        Err(e) => {
            return Err(e);
        },
    };
    let (headers, q) = match headers_from(s, p) {
        Ok(found) => found,
        Err(e) => {
            return Err(e);
        },
    };
    let start = match parse_line_ending(s, q, Part::CommandOrHeaders) {
        Ok(end) => end,
        Err(e) => {
            return Err(e);
        },
    };
    let (body, end) = match get_content_length(headers.as_slice()) {
        None => {
            let end = find_stop(s, start, Stop::Null);
            if end == s.len() {
                return Err(ParseError::Incomplete);
            }
            (is_empty_slice(slice_subrange(s, start, end)), end)
        },
        Some(length) => {
            if s.len() - start < length as usize {
                return Err(ParseError::Incomplete);
            }
            let end = start + length as usize;
            (Some(slice_subrange(s, start, end)), end)
        },
    };
    if end == s.len() {
        return Err(ParseError::Incomplete);
    }
    if s[end] != NUL {
        return Err(ParseError::Invalid(Part::Terminator));
    }
    let next = after_line_ending(s, end + 1);
    *input = slice_subrange(s, next, s.len());
    assert(input@ =~= s@.skip(next as int));
    Ok(Frame { command, headers, body })
}

/// Parse a single STOMP header from a byte buffer
///
/// A header has the format "key:value\n", with a key that is not empty.
/// It is returned as a (key, value) tuple, and `input` is what follows it.
/// Without a header, `input` stays as it is.
pub fn parse_header<'a>(input: &mut &'a [u8]) -> (r: Result<Header<'a>, ParseError>)
    ensures
        match header_at(old(input)@, 0) {
            Ok((header, end)) => {
                &&& r matches Ok(found)
                &&& found.0@ == header.0
                &&& found.1@ == header.1
                &&& 0 < end <= old(input)@.len()
                &&& final(input)@ == old(input)@.skip(end)
            },
            Err(e) => {
                &&& r matches Err(found)
                &&& found == e
                &&& final(input)@ == old(input)@
            },
        },
{
    let s: &'a [u8] = *input;
    match header_from(s, 0) {
        Ok((header, end)) => {
            *input = slice_subrange(s, end, s.len());
            assert(input@ =~= s@.skip(end as int));
            Ok(header)
        },
        Err(e) => Err(e),
    }
}

} // verus!
