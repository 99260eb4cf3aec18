//! Frames as they stand on the wire, and writing them.

use crate::buffer::{append, contents, extend, has_room};
use crate::escape::{
    escape, escape_byte, escaped_command, headers_are_escaped, lemma_escape_add, BACKSLASH, COLON,
    CR, LETTER_C, LETTER_N, LETTER_R, LF, NUL,
};
use crate::text::bytes_equal;
use bytes::BytesMut;
use std::borrow::Cow;
use vstd::prelude::*;

verus! {

/// A header key with an optional value
pub type HeaderTuple<'a> = (&'a [u8], Option<Cow<'a, [u8]>>);

/// A header key with a mandatory value
pub type Header<'a> = (&'a [u8], Cow<'a, [u8]>);

/// Low-level representation of a STOMP protocol frame
///
/// A Frame is a STOMP message as it appears on the wire. It consists of a
/// command, headers, and an optional body.
#[derive(Debug)]
pub struct Frame<'a> {
    /// The STOMP command (e.g., "CONNECT", "SEND", "MESSAGE")
    pub command: &'a [u8],
    /// Headers as key-value pairs
    pub headers: Vec<Header<'a>>,
    /// Optional message body
    pub body: Option<&'a [u8]>,
}

/// A frame as a mathematical value: its command, its headers in order, and its
/// body.
pub struct FrameView {
    pub command: Seq<u8>,
    pub headers: Seq<(Seq<u8>, Seq<u8>)>,
    pub body: Option<Seq<u8>>,
}

/// The name and the value of a header.
pub open spec fn header_view(h: Header<'_>) -> (Seq<u8>, Seq<u8>) {
    (h.0@, h.1@)
}

/// The names and values of headers, in order.
pub open spec fn headers_view(hs: Seq<Header<'_>>) -> Seq<(Seq<u8>, Seq<u8>)> {
    hs.map_values(|h: Header<'_>| header_view(h))
}

/// The bytes of an optional slice.
pub open spec fn body_view(body: Option<&[u8]>) -> Option<Seq<u8>> {
    match body {
        Some(b) => Some(b@),
        None => None,
    }
}

impl<'a> View for Frame<'a> {
    type V = FrameView;

    open spec fn view(&self) -> FrameView {
        FrameView {
            command: self.command@,
            headers: headers_view(self.headers@),
            body: body_view(self.body),
        }
    }
}

/// The bytes behind an optional `Cow`.
pub open spec fn cow_view(c: Option<Cow<'_, [u8]>>) -> Option<Seq<u8>> {
    match c {
        Some(v) => Some(v@),
        None => None,
    }
}

/// The name and the optional value of a header.
pub open spec fn tuple_view(h: HeaderTuple<'_>) -> (Seq<u8>, Option<Seq<u8>>) {
    (h.0@, cow_view(h.1))
}

/// Names and optional values, in order.
pub open spec fn tuples_view(hs: Seq<HeaderTuple<'_>>) -> Seq<(Seq<u8>, Option<Seq<u8>>)> {
    hs.map_values(|h: HeaderTuple<'_>| tuple_view(h))
}

/// The headers that have a value, in order.
pub open spec fn present(hs: Seq<(Seq<u8>, Option<Seq<u8>>)>) -> Seq<(Seq<u8>, Seq<u8>)>
    decreases hs.len(),
{
    if hs.len() == 0 {
        Seq::empty()
    } else {
        match hs.last().1 {
            Some(v) => present(hs.drop_last()).push((hs.last().0, v)),
            None => present(hs.drop_last()),
        }
    }
}

/// The bytes of a header's name or value on the wire.
pub open spec fn encoded(s: Seq<u8>, escaped: bool) -> Seq<u8> {
    if escaped {
        escape(s)
    } else {
        s
    }
}

/// The line that a header stands on.
pub open spec fn header_line(h: (Seq<u8>, Seq<u8>), escaped: bool) -> Seq<u8> {
    encoded(h.0, escaped) + seq![COLON] + encoded(h.1, escaped) + seq![LF]
}

/// The lines that the headers stand on.
pub open spec fn header_lines(hs: Seq<(Seq<u8>, Seq<u8>)>, escaped: bool) -> Seq<u8>
    decreases hs.len(),
{
    if hs.len() == 0 {
        Seq::empty()
    } else {
        header_lines(hs.drop_last(), escaped) + header_line(hs.last(), escaped)
    }
}

/// The bytes of a body, none if there is no body.
pub open spec fn body_bytes(body: Option<Seq<u8>>) -> Seq<u8> {
    match body {
        Some(b) => b,
        None => Seq::empty(),
    }
}

/// A frame on the wire: the command, a line for each header, an empty line, the
/// body, and a null byte.
pub open spec fn wire(f: FrameView) -> Seq<u8> {
    f.command + seq![LF] + header_lines(f.headers, escaped_command(f.command)) + seq![LF]
        + body_bytes(f.body) + seq![NUL]
}

/// Whether some header has the name `key`.
pub open spec fn has_header(hs: Seq<(Seq<u8>, Seq<u8>)>, key: Seq<u8>) -> bool {
    exists|i: int| 0 <= i < hs.len() && (#[trigger] hs[i]).0 == key
}

/// The names and values of headers that are held as vectors.
pub open spec fn pairs_view(hs: Seq<(Vec<u8>, Vec<u8>)>) -> Seq<(Seq<u8>, Seq<u8>)> {
    hs.map_values(|h: (Vec<u8>, Vec<u8>)| (h.0@, h.1@))
}

/// The headers of `extra` whose name no header of `hs` has, in order.
pub open spec fn not_in(extra: Seq<(Seq<u8>, Seq<u8>)>, hs: Seq<(Seq<u8>, Seq<u8>)>) -> Seq<
    (Seq<u8>, Seq<u8>),
>
    decreases extra.len(),
{
    if extra.len() == 0 {
        Seq::empty()
    } else if has_header(hs, extra.last().0) {
        not_in(extra.drop_last(), hs)
    } else {
        not_in(extra.drop_last(), hs).push(extra.last())
    }
}

/// The bytes behind a `Cow`.
pub(crate) fn cow_bytes<'a, 'b>(c: &'b Cow<'a, [u8]>) -> (r: &'b [u8])
    ensures
        r@ == c@,
{
    match c {
        Cow::Borrowed(b) => b,
        Cow::Owned(v) => v.as_slice(),
    }
}

/// A copy of a `Cow`: what is borrowed stays borrowed.
fn cow_clone<'a>(c: &Cow<'a, [u8]>) -> (r: Cow<'a, [u8]>)
    ensures
        r@ == c@,
{
    match c {
        Cow::Borrowed(b) => Cow::Borrowed(*b),
        Cow::Owned(v) => Cow::Owned(vstd::slice::slice_to_vec(v.as_slice())),
    }
}

/// Whether one of `headers` has the name `key`.
fn contains_key(headers: &Vec<Header<'_>>, count: usize, key: &[u8]) -> (r: bool)
    requires
        count <= headers@.len(),
    ensures
        r == has_header(headers_view(headers@.take(count as int)), key@),
{
    let ghost hs = headers_view(headers@.take(count as int));
    let mut i: usize = 0;
    while i < count
        invariant
            i <= count <= headers@.len(),
            hs == headers_view(headers@.take(count as int)),
            forall|j: int| 0 <= j < i ==> (#[trigger] hs[j]).0 != key@,
        decreases count - i,
    {
        assert(hs[i as int].0 == headers@[i as int].0@);
        if bytes_equal(headers[i].0, key) {
            return true;
        }
        i += 1;
    }
    false
}

/// Writes one byte, escaped where that is asked for.
fn write_escaped(b: u8, out: &mut Vec<u8>, escape: bool)
    ensures
        final(out)@ == old(out)@ + (if escape {
            escape_byte(b)
        } else {
            seq![b]
        }),
{
    let letter: u8 = if b == CR {
        LETTER_R
    } else if b == LF {
        LETTER_N
    } else if b == COLON {
        LETTER_C
    } else {
        BACKSLASH
    };
    if escape && (b == CR || b == LF || b == COLON || b == BACKSLASH) {
        out.push(BACKSLASH);
        out.push(letter);
        assert(out@ =~= old(out)@ + escape_byte(b));
    } else {
        out.push(b);
        assert(out@ =~= old(out)@ + seq![b]);
    }
}

proof fn lemma_encoded_next(part: Seq<u8>, i: int, escaped: bool)
    requires
        0 <= i < part.len(),
    ensures
        encoded(part.take(i + 1), escaped) == encoded(part.take(i), escaped) + (if escaped {
            escape_byte(part[i])
        } else {
            seq![part[i]]
        }),
        encoded(part.take(i + 1), escaped).len() <= encoded(part, escaped).len(),
{
    assert(part.take(i + 1).drop_last() =~= part.take(i));
    assert(part.take(i + 1) =~= part.take(i) + seq![part[i]]);
    assert(part.take(i + 1) + part.skip(i + 1) =~= part);
    lemma_escape_add(part.take(i + 1), part.skip(i + 1));
}

/// Writes a header's name or value.
fn write_part(part: &[u8], out: &mut Vec<u8>, escape: bool)
    ensures
        final(out)@ == old(out)@ + encoded(part@, escape),
{
    let mut i: usize = 0;
    assert(part@.take(0) =~= Seq::<u8>::empty());
    assert(out@ =~= old(out)@ + encoded(part@.take(0), escape));
    while i < part.len()
        invariant
            i <= part@.len(),
            out@ == old(out)@ + encoded(part@.take(i as int), escape),
        decreases part@.len() - i,
    {
        proof {
            lemma_encoded_next(part@, i as int, escape);
        }
        write_escaped(part[i], out, escape);
        assert(out@ =~= old(out)@ + encoded(part@.take(i + 1), escape));
        i += 1;
    }
    assert(part@.take(i as int) =~= part@);
}

/// What is left of `left` bytes after a header's name or value, `None` if there
/// are too few.
fn spend_part(part: &[u8], escape: bool, left: usize) -> (r: Option<usize>)
    ensures
        match r {
            Some(rest) => rest + encoded(part@, escape).len() == left,
            None => encoded(part@, escape).len() > left,
        },
{
    let mut rest = left;
    let mut i: usize = 0;
    assert(part@.take(0) =~= Seq::<u8>::empty());
    while i < part.len()
        invariant
            i <= part@.len(),
            rest + encoded(part@.take(i as int), escape).len() == left,
        decreases part@.len() - i,
    {
        proof {
            lemma_encoded_next(part@, i as int, escape);
        }
        let b = part[i];
        let cost: usize = if escape && (b == CR || b == LF || b == COLON || b == BACKSLASH) {
            2
        } else {
            1
        };
        if rest < cost {
            return None;
        }
        rest -= cost;
        i += 1;
    }
    assert(part@.take(i as int) =~= part@);
    Some(rest)
}

/// The lines of some headers and of those that follow them.
pub proof fn lemma_header_lines_add(
    a: Seq<(Seq<u8>, Seq<u8>)>,
    b: Seq<(Seq<u8>, Seq<u8>)>,
    escaped: bool,
)
    ensures
        header_lines(a + b, escaped) == header_lines(a, escaped) + header_lines(b, escaped),
    decreases b.len(),
{
    if b.len() == 0 {
        assert(a + b =~= a);
        assert(header_lines(a, escaped) + header_lines(b, escaped) =~= header_lines(a, escaped));
    } else {
        assert((a + b).drop_last() =~= a + b.drop_last());
        lemma_header_lines_add(a, b.drop_last(), escaped);
        assert(header_lines(a + b, escaped) =~= header_lines(a, escaped) + header_lines(
            b,
            escaped,
        ));
    }
}

proof fn lemma_header_lines_next(hs: Seq<(Seq<u8>, Seq<u8>)>, i: int, escaped: bool)
    requires
        0 <= i < hs.len(),
    ensures
        header_lines(hs.take(i + 1), escaped) == header_lines(hs.take(i), escaped) + header_line(
            hs[i],
            escaped,
        ),
        header_lines(hs.take(i + 1), escaped).len() <= header_lines(hs, escaped).len(),
{
    assert(hs.take(i + 1).drop_last() =~= hs.take(i));
    assert(hs.take(i + 1) + hs.skip(i + 1) =~= hs);
    lemma_header_lines_add(hs.take(i + 1), hs.skip(i + 1), escaped);
}

proof fn lemma_present_next(hs: Seq<(Seq<u8>, Option<Seq<u8>>)>, i: int)
    requires
        0 <= i < hs.len(),
    ensures
        present(hs.take(i + 1)) == match hs[i].1 {
            Some(v) => present(hs.take(i)).push((hs[i].0, v)),
            None => present(hs.take(i)),
        },
{
    assert(hs.take(i + 1).drop_last() =~= hs.take(i));
}

proof fn lemma_not_in_next(extra: Seq<(Seq<u8>, Seq<u8>)>, hs: Seq<(Seq<u8>, Seq<u8>)>, i: int)
    requires
        0 <= i < extra.len(),
    ensures
        not_in(extra.take(i + 1), hs) == if has_header(hs, extra[i].0) {
            not_in(extra.take(i), hs)
        } else {
            not_in(extra.take(i), hs).push(extra[i])
        },
{
    assert(extra.take(i + 1).drop_last() =~= extra.take(i));
}

impl<'a> Frame<'a> {
    /// Create a new Frame with the given command, headers, and body
    ///
    /// Headers without a value are left out.
    pub fn new(command: &'a [u8], headers: &[HeaderTuple<'a>], body: Option<&'a [u8]>) -> (r: Frame<
        'a,
    >)
        ensures
            r@ == (FrameView {
                command: command@,
                headers: present(tuples_view(headers@)),
                body: body_view(body),
            }),
    {
        let ghost hs = tuples_view(headers@);
        let mut kept: Vec<Header<'a>> = Vec::new();
        let mut i: usize = 0;
        assert(hs.take(0) =~= Seq::<(Seq<u8>, Option<Seq<u8>>)>::empty());
        assert(headers_view(kept@) =~= present(hs.take(0)));
        while i < headers.len()
            invariant
                i <= headers@.len(),
                hs == tuples_view(headers@),
                headers_view(kept@) == present(hs.take(i as int)),
            decreases headers@.len() - i,
        {
            proof {
                lemma_present_next(hs, i as int);
            }
            let ghost before = kept@;
            if let Some(v) = &headers[i].1 {
                kept.push((headers[i].0, cow_clone(v)));
                assert(headers_view(kept@) =~= headers_view(before).push(
                    (hs[i as int].0, hs[i as int].1->0),
                ));
            }
            i += 1;
        }
        assert(hs.take(i as int) =~= hs);
        Frame { command, headers: kept, body }
    }

    /// Serialize this frame into a byte buffer
    ///
    /// This method writes the frame in STOMP wire format behind what the buffer
    /// holds. The format is:
    /// - Command followed by newline
    /// - Headers (key:value) each followed by newline
    /// - Empty line (newline)
    /// - Body (if present)
    /// - Null byte terminator
    pub fn serialize(&self, buffer: &mut BytesMut)
        requires
            has_room(contents(*old(buffer)).len(), wire(self@).len()),
        ensures
            contents(*final(buffer)) == contents(*old(buffer)) + wire(self@),
    {
        let escape = headers_are_escaped(self.command);
        let ghost hs = self@.headers;

        // The whole frame is put together first, at just the size it needs
        let size: usize = match self.size_within(isize::MAX as usize) {
            Some(size) => size,
            None => 0,
        };
        let mut out: Vec<u8> = Vec::with_capacity(size);
        extend(&mut out, self.command);
        out.push(LF);
        let ghost start = self.command@ + seq![LF];
        assert(out@ =~= start);

        let mut i: usize = 0;
        assert(hs.take(0) =~= Seq::<(Seq<u8>, Seq<u8>)>::empty());
        assert(out@ =~= start + header_lines(hs.take(0), escape));
        while i < self.headers.len()
            invariant
                i <= self.headers@.len(),
                hs == self@.headers,
                out@ == start + header_lines(hs.take(i as int), escape),
            decreases self.headers@.len() - i,
        {
            proof {
                lemma_header_lines_next(hs, i as int, escape);
            }
            let ghost before = out@;
            let header = &self.headers[i];
            assert(hs[i as int] == (header.0@, header.1@));
            write_part(header.0, &mut out, escape);
            out.push(COLON);
            write_part(cow_bytes(&header.1), &mut out, escape);
            out.push(LF);
            assert(out@ =~= before + header_line(hs[i as int], escape));
            assert(out@ =~= start + header_lines(hs.take(i + 1), escape));
            i += 1;
        }
        assert(hs.take(i as int) =~= hs);

        out.push(LF);
        if let Some(body) = self.body {
            extend(&mut out, body);
        }
        out.push(NUL);
        assert(out@ =~= wire(self@));
        append(buffer, out.as_slice());
    }

    /// How many bytes this frame takes up on the wire, `None` if that is more
    /// than `limit`
    pub fn size_within(&self, limit: usize) -> (r: Option<usize>)
        ensures
            match r {
                Some(size) => size == wire(self@).len() && size <= limit,
                None => wire(self@).len() > limit,
            },
    {
        let escape = headers_are_escaped(self.command);
        let ghost hs = self@.headers;
        let body_len: usize = match self.body {
            Some(body) => body.len(),
            None => 0,
        };
        if limit < 3 || limit - 3 < self.command.len() || limit - 3 - self.command.len()
            < body_len {
            return None;
        }
        let start: usize = limit - 3 - self.command.len() - body_len;
        let mut left: usize = start;
        let mut i: usize = 0;
        assert(hs.take(0) =~= Seq::<(Seq<u8>, Seq<u8>)>::empty());
        while i < self.headers.len()
            invariant
                i <= self.headers@.len(),
                hs == self@.headers,
                escape == escaped_command(self.command@),
                start == limit - 3 - self.command@.len() - body_bytes(self@.body).len(),
                left + header_lines(hs.take(i as int), escape).len() == start,
            decreases self.headers@.len() - i,
        {
            proof {
                lemma_header_lines_next(hs, i as int, escape);
            }
            let header = &self.headers[i];
            assert(hs[i as int] == (header.0@, header.1@));
            match spend_part(header.0, escape, left) {
                None => {
                    return None;
                },
                Some(rest) => match spend_part(cow_bytes(&header.1), escape, rest) {
                    None => {
                        return None;
                    },
                    Some(rest) => {
                        if rest < 2 {
                            return None;
                        }
                        left = rest - 2;
                    },
                },
            }
            i += 1;
        }
        assert(hs.take(i as int) =~= hs);
        Some(limit - left)
    }

    /// Add extra headers to this frame if they don't already exist
    ///
    /// A header is added only if none of the headers that the frame had before
    /// the call has its key.
    pub fn add_extra_headers(&mut self, headers: &'a [(Vec<u8>, Vec<u8>)])
        ensures
            final(self)@ == (FrameView {
                headers: old(self)@.headers + not_in(pairs_view(headers@), old(self)@.headers),
                ..old(self)@
            }),
    {
        let count = self.headers.len();
        let ghost existing = self@.headers;
        let ghost had = self.headers@;
        let ghost extra = pairs_view(headers@);
        let mut i: usize = 0;
        assert(extra.take(0) =~= Seq::<(Seq<u8>, Seq<u8>)>::empty());
        assert(self@.headers =~= existing + not_in(extra.take(0), existing));
        while i < headers.len()
            invariant
                i <= headers@.len(),
                extra == pairs_view(headers@),
                count == had.len(),
                count <= self.headers@.len(),
                self.headers@.take(count as int) == had,
                headers_view(had) == existing,
                self.command == old(self).command,
                self.body == old(self).body,
                headers_view(self.headers@) == existing + not_in(extra.take(i as int), existing),
            decreases headers@.len() - i,
        {
            proof {
                lemma_not_in_next(extra, existing, i as int);
            }
            let key: &'a [u8] = headers[i].0.as_slice();
            assert(extra[i as int] == (headers@[i as int].0@, headers@[i as int].1@));
            if !contains_key(&self.headers, count, key) {
                let ghost before = self.headers@;
                self.headers.push((key, Cow::Borrowed(headers[i].1.as_slice())));
                assert(self.headers@.take(count as int) =~= before.take(count as int));
                assert(headers_view(self.headers@) =~= headers_view(before).push(extra[i as int]));
                assert(headers_view(self.headers@) =~= existing + not_in(
                    extra.take(i + 1),
                    existing,
                ));
            }
            i += 1;
        }
        assert(extra.take(i as int) =~= extra);
    }
}

} // verus!
