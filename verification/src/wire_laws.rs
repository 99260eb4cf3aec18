//! What is written is read back: the laws of frames on the wire.

use crate::escape::{
    escape, escaped_command, law_escape_leaves_no_delimiter, BACKSLASH, COLON, CR, LF, NUL,
};
use crate::frame::{
    body_bytes, encoded, header_line, header_lines, lemma_header_lines_add, wire, FrameView,
};
use crate::grammar::{
    command_at, content_length, find, frame_at, head_at, header_at, headers_at, lemma_find,
    line_ending, skip_line_ending, stops, unterminated_frame_at, ParseError, Part, Stop,
};
use vstd::prelude::*;

verus! {

/// Whether bytes can stand in a line: there is no carriage return and no line
/// feed.
pub open spec fn on_one_line(s: Seq<u8>) -> bool {
    forall|i: int| 0 <= i < s.len() ==> (#[trigger] s[i]) != CR && s[i] != LF
}

/// Whether there is no colon.
pub open spec fn without_colon(s: Seq<u8>) -> bool {
    forall|i: int| 0 <= i < s.len() ==> (#[trigger] s[i]) != COLON
}

/// Whether bytes are letters, and there are some.
pub open spec fn is_word(s: Seq<u8>) -> bool {
    s.len() > 0 && forall|i: int| 0 <= i < s.len() ==> !stops(Stop::NotLetter, #[trigger] s[i])
}

/// Whether a header can be told apart on the wire. Escaping makes that true of
/// every header with a name. Where headers are not escaped, the name has no
/// colon, and both parts are on one line.
pub open spec fn distinct_on_wire(h: (Seq<u8>, Seq<u8>), escaped: bool) -> bool {
    h.0.len() > 0 && (escaped || (on_one_line(h.0) && without_colon(h.0) && on_one_line(h.1)))
}

/// The headers as they stand on the wire.
pub open spec fn encoded_headers(hs: Seq<(Seq<u8>, Seq<u8>)>, escaped: bool) -> Seq<
    (Seq<u8>, Seq<u8>),
> {
    hs.map_values(|h: (Seq<u8>, Seq<u8>)| (encoded(h.0, escaped), encoded(h.1, escaped)))
}

/// Whether the end of a body can be told: its length is what the headers say, or
/// they say nothing and it has no null byte. A body of no bytes is no body.
pub open spec fn distinct_body(hs: Seq<(Seq<u8>, Seq<u8>)>, body: Option<Seq<u8>>) -> bool {
    match (content_length(hs), body) {
        (Some(n), Some(b)) => b.len() == n,
        (Some(_), None) => false,
        (None, Some(b)) => b.len() > 0 && !b.contains(NUL),
        (None, None) => true,
    }
}

/// Whether the parts of a frame can be told apart on the wire.
pub open spec fn readable(f: FrameView) -> bool {
    let escaped = escaped_command(f.command);
    &&& is_word(f.command)
    &&& forall|i: int|
        0 <= i < f.headers.len() ==> distinct_on_wire(#[trigger] f.headers[i], escaped)
    &&& distinct_body(encoded_headers(f.headers, escaped), f.body)
}

/// Escaping never shortens.
proof fn lemma_escape_len(s: Seq<u8>)
    ensures
        escape(s).len() >= s.len(),
    decreases s.len(),
{
    if s.len() > 0 {
        lemma_escape_len(s.drop_last());
    }
}

/// Bytes without special ones are escaped as themselves.
pub proof fn lemma_escape_plain(s: Seq<u8>)
    requires
        on_one_line(s),
        without_colon(s),
        !s.contains(BACKSLASH),
    ensures
        escape(s) == s,
    decreases s.len(),
{
    if s.len() > 0 {
        let init = s.drop_last();
        assert forall|i: int| 0 <= i < init.len() implies (#[trigger] init[i]) != CR && init[i]
            != LF && init[i] != COLON && init[i] != BACKSLASH by {
            assert(init[i] == s[i]);
        }
        lemma_escape_plain(init);
        assert(s.last() == s[s.len() - 1]);
        assert(escape(s) =~= s);
    }
}

/// A run ends at `end` if nothing before ends it.
pub proof fn lemma_find_is(s: Seq<u8>, p: int, stop: Stop, end: int)
    requires
        0 <= p <= end < s.len(),
        stops(stop, s[end]),
        forall|i: int| p <= i < end ==> !stops(stop, #[trigger] s[i]),
    ensures
        find(s, p, stop) == end,
{
    lemma_find(s, p, stop);
    let found = find(s, p, stop);
    if found < end {
        assert(stops(stop, s[found]));
    }
    if end < found {
        assert(!stops(stop, s[end]));
    }
}

/// The line of a header is read as that header.
proof fn lemma_header_line_is_read(
    before: Seq<u8>,
    h: (Seq<u8>, Seq<u8>),
    escaped: bool,
    after: Seq<u8>,
)
    requires
        distinct_on_wire(h, escaped),
    ensures
        header_at(before + header_line(h, escaped) + after, before.len() as int) == Ok::<
            ((Seq<u8>, Seq<u8>), int),
            ParseError,
        >(
            (
                (encoded(h.0, escaped), encoded(h.1, escaped)),
                (before.len() + header_line(h, escaped).len()) as int,
            ),
        ),
{
    let name = encoded(h.0, escaped);
    let value = encoded(h.1, escaped);
    let line = header_line(h, escaped);
    let s = before + line + after;
    let p = before.len() as int;
    let colon = p + name.len();
    let eol = colon + 1 + value.len();
    law_escape_leaves_no_delimiter(h.0);
    law_escape_leaves_no_delimiter(h.1);
    lemma_escape_len(h.0);
    assert forall|i: int| p <= i < colon implies !stops(Stop::NameEnd, #[trigger] s[i]) by {
        assert(s[i] == line[i - p]);
        assert(line[i - p] == name[i - p]);
    }
    assert(s[colon] == COLON) by {
        assert(s[colon] == line[colon - p]);
    }
    lemma_find_is(s, p, Stop::NameEnd, colon);
    assert forall|i: int| colon + 1 <= i < eol implies !stops(Stop::LineEnd, #[trigger] s[i]) by {
        assert(s[i] == line[i - p]);
        assert(line[i - p] == value[i - colon - 1]);
    }
    assert(s[eol] == LF) by {
        assert(s[eol] == line[eol - p]);
    }
    lemma_find_is(s, colon + 1, Stop::LineEnd, eol);
    assert(s.subrange(p, colon) =~= name);
    assert(s.subrange(colon + 1, eol) =~= value);
}

/// The lines of headers, up to the empty line that ends them, are read as those
/// headers.
#[verifier::rlimit(50)]
proof fn lemma_header_lines_are_read(
    before: Seq<u8>,
    hs: Seq<(Seq<u8>, Seq<u8>)>,
    escaped: bool,
    after: Seq<u8>,
)
    requires
        forall|i: int| 0 <= i < hs.len() ==> distinct_on_wire(#[trigger] hs[i], escaped),
        after.len() > 0,
        after[0] == LF,
    ensures
        headers_at(before + header_lines(hs, escaped) + after, before.len() as int) == Ok::<
            (Seq<(Seq<u8>, Seq<u8>)>, int),
            ParseError,
        >(
            (
                encoded_headers(hs, escaped),
                (before.len() + header_lines(hs, escaped).len()) as int,
            ),
        ),
    decreases hs.len(),
{
    let s = before + header_lines(hs, escaped) + after;
    let p = before.len() as int;
    if hs.len() == 0 {
        assert(s[p] == LF);
        lemma_find_is(s, p, Stop::NameEnd, p);
        assert(encoded_headers(hs, escaped) =~= Seq::<(Seq<u8>, Seq<u8>)>::empty());
    } else {
        let first = hs.take(1);
        let rest = hs.skip(1);
        let line = header_line(hs[0], escaped);
        assert(first + rest =~= hs);
        lemma_header_lines_add(first, rest, escaped);
        assert(first.drop_last() =~= Seq::<(Seq<u8>, Seq<u8>)>::empty());
        reveal_with_fuel(header_lines, 2);
        assert(header_lines(first, escaped) =~= line);
        let tail = header_lines(rest, escaped) + after;
        assert(s =~= before + line + tail);
        lemma_header_line_is_read(before, hs[0], escaped, tail);
        assert forall|i: int| 0 <= i < rest.len() implies distinct_on_wire(
            #[trigger] rest[i],
            escaped,
        ) by {
            assert(rest[i] == hs[i + 1]);
        }
        lemma_header_lines_are_read(before + line, rest, escaped, after);
        assert(s =~= (before + line) + header_lines(rest, escaped) + after);
        assert(encoded_headers(hs, escaped) =~= seq![
            (encoded(hs[0].0, escaped), encoded(hs[0].1, escaped)),
        ] + encoded_headers(rest, escaped));
    }
}

/// What is written is read back, whatever follows it: the bytes of a frame are
/// read as that frame, with its headers as they stand on the wire, and exactly
/// those bytes are used up, with a line ending behind them if there is one.
pub proof fn law_frame_is_read_back(f: FrameView, rest: Seq<u8>)
    requires
        readable(f),
    ensures
        unterminated_frame_at(wire(f) + rest) == Ok::<(FrameView, int), ParseError>(
            (
                FrameView {
                    headers: encoded_headers(f.headers, escaped_command(f.command)),
                    ..f
                },
                wire(f).len() as int,
            ),
        ),
        frame_at(wire(f) + rest) == Ok::<(FrameView, int), ParseError>(
            (
                FrameView {
                    headers: encoded_headers(f.headers, escaped_command(f.command)),
                    ..f
                },
                skip_line_ending(wire(f) + rest, wire(f).len() as int),
            ),
        ),
{
    let escaped = escaped_command(f.command);
    let lines = header_lines(f.headers, escaped);
    let body = body_bytes(f.body);
    let s = wire(f) + rest;
    let headers = encoded_headers(f.headers, escaped);

    // The command
    let n = f.command.len() as int;
    assert forall|i: int| 0 <= i < n implies s[i] == f.command[i] by {}
    assert(s[n] == LF);
    assert(!stops(Stop::NotLetter, f.command[0]));
    assert(skip_line_ending(s, 0) == 0);
    assert forall|i: int| 0 <= i < n implies !stops(Stop::NotLetter, #[trigger] s[i]) by {
        assert(s[i] == f.command[i]);
    }
    lemma_find_is(s, 0, Stop::NotLetter, n);
    assert(s.subrange(0, n) =~= f.command);
    assert(command_at(s) == Ok::<(Seq<u8>, int), ParseError>((f.command, n + 1)));

    // The headers
    let before = f.command + seq![LF];
    let after = seq![LF] + body + seq![NUL] + rest;
    assert(s =~= before + lines + after);
    lemma_header_lines_are_read(before, f.headers, escaped, after);
    let q: int = (before.len() + lines.len()) as int;
    assert(s[q] == LF);
    assert(line_ending(s, q, Part::CommandOrHeaders) == Ok::<int, ParseError>(q + 1));
    assert(head_at(s) == Ok::<((Seq<u8>, Seq<(Seq<u8>, Seq<u8>)>), int), ParseError>(
        ((f.command, headers), q + 1),
    ));

    // The body
    let start = q + 1;
    let end = start + body.len();
    assert(s.subrange(start, end) =~= body);
    assert(s[end] == NUL);
    assert forall|i: int| start <= i < end implies s[i] == #[trigger] body[i - start] by {}
    if content_length(headers) is None {
        assert forall|i: int| start <= i < end implies !stops(Stop::Null, #[trigger] s[i]) by {
            assert(s[i] == body[i - start]);
            assert(body.contains(body[i - start]));
        }
        lemma_find_is(s, start, Stop::Null, end);
    }
    assert(end + 1 == wire(f).len());
}

} // verus!
