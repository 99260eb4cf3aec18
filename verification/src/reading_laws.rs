//! The laws of reading: which bytes are a frame, which are the start of one, and
//! which are none.

use crate::buffer::contents;
use crate::client::{beats_end, ClientCodec};
use crate::error::Error;
use crate::frame::{headers_view, Frame, FrameView, Header};
use crate::grammar::{
    command_at, content_length, find, frame_at, get_content_length, head_at, header_at, headers_at,
    lemma_find, lemma_frame_bounds, line_ending, parse_frame, parse_header, skip_line_ending,
    stops, unterminated_frame_at, value_of, ParseError, Part, Stop,
};
use crate::received_laws::law_value_is_that_of_the_first_header;
use crate::stream_laws::{
    law_heartbeats_are_dropped, law_more_bytes_change_nothing, law_part_of_a_frame_is_unfinished,
    lemma_decoded_bounds,
};
use crate::text::{number, parse_u32, NumberError};
use crate::wire_laws::lemma_find_is;
use crate::{FromServer, Message};
use bytes::BytesMut;
use vstd::prelude::*;
use vstd::utf8::*;

verus! {

/// Lines of headers, each a name, a value and a line ending.
pub open spec fn lines_of(lines: Seq<(Seq<u8>, Seq<u8>, Seq<u8>)>) -> Seq<u8>
    decreases lines.len(),
{
    if lines.len() == 0 {
        Seq::empty()
    } else {
        lines[0].0 + seq![58u8] + lines[0].1 + lines[0].2 + lines_of(lines.skip(1))
    }
}

/// Whether a line holds a header: the name is not empty and has no colon, neither
/// part has a line ending, and a line feed ends it, with or without a carriage
/// return.
pub open spec fn is_header_line(line: (Seq<u8>, Seq<u8>, Seq<u8>)) -> bool {
    &&& line.0.len() > 0
    &&& forall|i: int|
        0 <= i < line.0.len() ==> (#[trigger] line.0[i]) != 58 && line.0[i] != 10 && line.0[i] != 13
    &&& forall|i: int| 0 <= i < line.1.len() ==> (#[trigger] line.1[i]) != 10 && line.1[i] != 13
    &&& line.2 == seq![10u8] || line.2 == seq![13u8, 10u8]
}

proof fn lemma_line_ends(before: Seq<u8>, end: Seq<u8>, after: Seq<u8>, part: Part)
    requires
        end == seq![10u8] || end == seq![13u8, 10u8],
    ensures
        line_ending(before + end + after, before.len() as int, part) == Ok::<int, ParseError>(
            (before.len() + end.len()) as int,
        ),
{
    let s = before + end + after;
    assert(s[before.len() as int] == end[0]);
    if end.len() == 2 {
        assert(s[before.len() as int + 1] == end[1]);
    }
}

proof fn lemma_line_is_read(before: Seq<u8>, line: (Seq<u8>, Seq<u8>, Seq<u8>), after: Seq<u8>)
    requires
        is_header_line(line),
    ensures
        header_at(
            before + (line.0 + seq![58u8] + line.1 + line.2) + after,
            before.len() as int,
        ) == Ok::<((Seq<u8>, Seq<u8>), int), ParseError>(
            (
                (line.0, line.1),
                (before.len() + line.0.len() + 1 + line.1.len() + line.2.len()) as int,
            ),
        ),
{
    let s = before + (line.0 + seq![58u8] + line.1 + line.2) + after;
    let p = before.len() as int;
    let colon = p + line.0.len();
    let eol = colon + 1 + line.1.len();
    assert forall|i: int| p <= i < colon implies !stops(Stop::NameEnd, #[trigger] s[i]) by {
        assert(s[i] == line.0[i - p]);
    }
    assert(s[colon] == 58);
    lemma_find_is(s, p, Stop::NameEnd, colon);
    assert forall|i: int| colon + 1 <= i < eol implies !stops(Stop::LineEnd, #[trigger] s[i]) by {
        assert(s[i] == line.1[i - colon - 1]);
    }
    assert(s[eol] == line.2[0]);
    lemma_find_is(s, colon + 1, Stop::LineEnd, eol);
    let head = before + line.0 + seq![58u8] + line.1;
    assert(s =~= head + line.2 + after);
    lemma_line_ends(head, line.2, after, Part::Header);
    assert(s.subrange(p, colon) =~= line.0);
    assert(s.subrange(colon + 1, eol) =~= line.1);
}

#[verifier::rlimit(50)]
proof fn lemma_lines_are_read(
    before: Seq<u8>,
    lines: Seq<(Seq<u8>, Seq<u8>, Seq<u8>)>,
    after: Seq<u8>,
)
    requires
        forall|i: int| 0 <= i < lines.len() ==> is_header_line(#[trigger] lines[i]),
        header_at(
            before + lines_of(lines) + after,
            (before.len() + lines_of(lines).len()) as int,
        ) matches Err(ParseError::Invalid(_)),
    ensures
        headers_at(before + lines_of(lines) + after, before.len() as int) == Ok::<
            (Seq<(Seq<u8>, Seq<u8>)>, int),
            ParseError,
        >(
            (
                lines.map_values(|line: (Seq<u8>, Seq<u8>, Seq<u8>)| (line.0, line.1)),
                (before.len() + lines_of(lines).len()) as int,
            ),
        ),
    decreases lines.len(),
{
    let s = before + lines_of(lines) + after;
    let p = before.len() as int;
    let pair = |line: (Seq<u8>, Seq<u8>, Seq<u8>)| (line.0, line.1);
    if lines.len() == 0 {
        assert(lines.map_values(pair) =~= Seq::empty());
    } else {
        let rest = lines.skip(1);
        let line = lines[0];
        let first = line.0 + seq![58u8] + line.1 + line.2;
        let tail = lines_of(rest) + after;
        assert(s =~= before + first + tail);
        lemma_line_is_read(before, line, tail);
        assert(forall|i: int| 0 <= i < rest.len() ==> #[trigger] rest[i] == lines[i + 1]);
        assert(s =~= (before + first) + lines_of(rest) + after);
        lemma_lines_are_read(before + first, rest, after);
        assert(lines.map_values(pair) =~= seq![pair(line)] + rest.map_values(pair));
    }
}

proof fn lemma_command_is_read(lead: Seq<u8>, command: Seq<u8>, first: Seq<u8>, after: Seq<u8>)
    requires
        lead.len() == 0 || lead == seq![10u8] || lead == seq![13u8, 10u8],
        command.len() > 0,
        forall|i: int|
            0 <= i < command.len() ==> 65 <= (#[trigger] command[i]) <= 90 || 97 <= command[i]
                <= 122,
        first == seq![10u8] || first == seq![13u8, 10u8],
    ensures
        command_at((lead + command + first) + after) == Ok::<(Seq<u8>, int), ParseError>(
            (command, (lead.len() + command.len() + first.len()) as int),
        ),
{
    let s = (lead + command + first) + after;
    let start = lead.len() as int;
    let end = start + command.len();
    assert forall|i: int| start <= i < end implies s[i] == command[i - start] by {}
    if lead.len() == 0 {
        assert(s[0] == command[0]);
    } else {
        assert(s =~= Seq::<u8>::empty() + lead + s.skip(start));
        lemma_line_ends(Seq::empty(), lead, s.skip(start), Part::Terminator);
        lemma_line_ends(Seq::empty(), lead, s.skip(start), Part::CommandOrHeaders);
    }
    assert(skip_line_ending(s, 0) == start);
    assert forall|i: int| start <= i < end implies !stops(Stop::NotLetter, #[trigger] s[i]) by {
        assert(s[i] == command[i - start]);
    }
    assert(s[end] == first[0]);
    lemma_find_is(s, start, Stop::NotLetter, end);
    assert(s.subrange(start, end) =~= command);
    assert(s =~= (lead + command) + first + after);
    lemma_line_ends(lead + command, first, after, Part::CommandOrHeaders);
}

proof fn lemma_head_is_read(
    top: Seq<u8>,
    command: Seq<u8>,
    lines: Seq<(Seq<u8>, Seq<u8>, Seq<u8>)>,
    last: Seq<u8>,
    after: Seq<u8>,
    s: Seq<u8>,
)
    requires
        s == top + lines_of(lines) + (last + after),
        command_at(s) == Ok::<(Seq<u8>, int), ParseError>((command, top.len() as int)),
        forall|i: int| 0 <= i < lines.len() ==> is_header_line(#[trigger] lines[i]),
        last == seq![10u8] || last == seq![13u8, 10u8],
    ensures
        head_at(s) == Ok::<((Seq<u8>, Seq<(Seq<u8>, Seq<u8>)>), int), ParseError>(
            (
                (
                    command,
                    lines.map_values(|line: (Seq<u8>, Seq<u8>, Seq<u8>)| (line.0, line.1)),
                ),
                (top.len() + lines_of(lines).len() + last.len()) as int,
            ),
        ),
{
    let q = (top.len() + lines_of(lines).len()) as int;
    assert(s[q] == last[0]);
    lemma_find_is(s, q, Stop::NameEnd, q);
    lemma_lines_are_read(top, lines, last + after);
    assert(s =~= (top + lines_of(lines)) + last + after);
    lemma_line_ends(top + lines_of(lines), last, after, Part::CommandOrHeaders);
}

proof fn lemma_body_is_read(
    head: Seq<u8>,
    command: Seq<u8>,
    headers: Seq<(Seq<u8>, Seq<u8>)>,
    body: Seq<u8>,
    trail: Seq<u8>,
    rest: Seq<u8>,
    s: Seq<u8>,
)
    requires
        s == head + body + seq![0u8] + trail + rest,
        head_at(s) == Ok::<((Seq<u8>, Seq<(Seq<u8>, Seq<u8>)>), int), ParseError>(
            ((command, headers), head.len() as int),
        ),
        match content_length(headers) {
            Some(n) => body.len() == n,
            None => !body.contains(0),
        },
        trail == seq![10u8] || trail == seq![13u8, 10u8] || (trail.len() == 0 && !(rest.len() >= 1
            && rest[0] == 10) && !(rest.len() >= 2 && rest[0] == 13 && rest[1] == 10)),
    ensures
        frame_at(s) == Ok::<(FrameView, int), ParseError>(
            (
                FrameView {
                    command,
                    headers,
                    body: if content_length(headers) is None && body.len() == 0 {
                        None
                    } else {
                        Some(body)
                    },
                },
                s.len() - rest.len(),
            ),
        ),
        s.skip(s.len() - rest.len()) == rest,
{
    let b = head.len() as int;
    let n = b + body.len();
    assert(s.subrange(b, n) =~= body);
    assert(s[n] == 0);
    if content_length(headers) is None {
        assert forall|i: int| b <= i < n implies !stops(Stop::Null, #[trigger] s[i]) by {
            assert(s[i] == body[i - b]);
            assert(body.contains(body[i - b]));
        }
        lemma_find_is(s, b, Stop::Null, n);
    }
    let whole = head + body + seq![0u8];
    assert(whole.len() == n + 1);
    if trail.len() > 0 {
        lemma_line_ends(whole, trail, rest, Part::Terminator);
    } else {
        assert(rest.len() >= 1 ==> s[n + 1] == rest[0]);
        assert(rest.len() >= 2 ==> s[n + 2] == rest[1]);
    }
    assert(s.skip(s.len() - rest.len()) =~= rest);
}

proof fn lemma_regrouped(
    top: Seq<u8>,
    lines: Seq<u8>,
    last: Seq<u8>,
    body: Seq<u8>,
    nul: Seq<u8>,
    trail: Seq<u8>,
    rest: Seq<u8>,
)
    ensures
        top + lines + last + body + nul + trail + rest == top + (lines + last + (body + nul + trail
            + rest)),
        top + lines + last + body + nul + trail + rest == top + lines + (last + (body + nul + trail
            + rest)),
{
    assert(top + lines + last + body + nul + trail + rest =~= top + (lines + last + (body + nul
        + trail + rest)));
    assert(top + lines + last + body + nul + trail + rest =~= top + lines + (last + (body + nul
        + trail + rest)));
}

/// What [`parse_frame`] returns for the frame that its input starts with.
proof fn lemma_frame_is_returned(
    s: Seq<u8>,
    f: FrameView,
    end: int,
    input: &mut &[u8],
    r: Result<Frame<'_>, ParseError>,
)
    requires
        frame_at(s) == Ok::<(FrameView, int), ParseError>((f, end)),
        call_ensures(parse_frame, (input,), r),
        (*input)@ == s,
    ensures
        r is Ok,
        r->Ok_0.command@ == f.command,
        r->Ok_0.headers@.map_values(|h: Header<'_>| (h.0@, h.1@)) == f.headers,
        r->Ok_0.body is None <==> f.body is None,
        r->Ok_0.body matches Some(found) ==> Some(found@) == f.body,
        (*final(input))@ == s.skip(end),
{
    assert(r is Ok);
    assert(r->Ok_0.headers@.map_values(|h: Header<'_>| (h.0@, h.1@)) =~= r->Ok_0@.headers);
}

/// A frame is what stands on the wire in this order: at most one line ending, a
/// command of letters, lines of headers, an empty line, the body and a null byte,
/// and at most one line ending again. A body is as long as the first
/// content-length says, if that is a number, and else has no null byte; then one
/// without bytes is none. Every line may end with or without a carriage return.
#[verifier::rlimit(50)]
pub proof fn law_frame_is_read_by_its_layout(
    lead: Seq<u8>,
    command: Seq<u8>,
    first: Seq<u8>,
    lines: Seq<(Seq<u8>, Seq<u8>, Seq<u8>)>,
    last: Seq<u8>,
    body: Seq<u8>,
    trail: Seq<u8>,
    rest: Seq<u8>,
    headers: Seq<(Seq<u8>, Seq<u8>)>,
    length: Option<u32>,
)
    requires
        lead.len() == 0 || lead == seq![10u8] || lead == seq![13u8, 10u8],
        command.len() > 0,
        forall|i: int|
            0 <= i < command.len() ==> 65 <= (#[trigger] command[i]) <= 90 || 97 <= command[i]
                <= 122,
        first == seq![10u8] || first == seq![13u8, 10u8],
        forall|i: int| 0 <= i < lines.len() ==> is_header_line(#[trigger] lines[i]),
        last == seq![10u8] || last == seq![13u8, 10u8],
        headers == lines.map_values(|line: (Seq<u8>, Seq<u8>, Seq<u8>)| (line.0, line.1)),
        length == (match value_of(headers, encode_utf8("content-length"@)) {
            Some(v) => match number(v) {
                Ok(n) => Some(n),
                Err(_) => None,
            },
            None => None,
        }),
        match length {
            Some(n) => body.len() == n,
            None => !body.contains(0),
        },
        trail == seq![10u8] || trail == seq![13u8, 10u8] || (trail.len() == 0 && !(rest.len() >= 1
            && rest[0] == 10) && !(rest.len() >= 2 && rest[0] == 13 && rest[1] == 10)),
    ensures
        forall|input: &mut &[u8], r: Result<Frame<'_>, ParseError>|
            #[trigger] call_ensures(parse_frame, (input,), r) && (*input)@ == lead + command + first
                + lines_of(lines) + last + body + seq![0u8] + trail + rest ==> {
                &&& r is Ok
                &&& r->Ok_0.command@ == command
                &&& r->Ok_0.headers@.map_values(|h: Header<'_>| (h.0@, h.1@)) == headers
                &&& r->Ok_0.body matches Some(found) ==> found@ == body
                &&& r->Ok_0.body is None <==> length is None && body.len() == 0
                &&& (*final(input))@ == rest
            },
{
    let s = lead + command + first + lines_of(lines) + last + body + seq![0u8] + trail + rest;
    let top = lead + command + first;
    let after = body + seq![0u8] + trail + rest;
    lemma_regrouped(top, lines_of(lines), last, body, seq![0u8], trail, rest);
    lemma_command_is_read(lead, command, first, lines_of(lines) + last + after);
    lemma_head_is_read(top, command, lines, last, after, s);
    let head = top + lines_of(lines) + last;
    assert(content_length(headers) == length);
    lemma_body_is_read(head, command, headers, body, trail, rest, s);
    assert forall|input: &mut &[u8], r: Result<Frame<'_>, ParseError>|
        #[trigger] call_ensures(parse_frame, (input,), r) && (*input)@ == s implies {
        &&& r is Ok
        &&& r->Ok_0.command@ == command
        &&& r->Ok_0.headers@.map_values(|h: Header<'_>| (h.0@, h.1@)) == headers
        &&& r->Ok_0.body matches Some(found) ==> found@ == body
        &&& r->Ok_0.body is None <==> length is None && body.len() == 0
        &&& (*final(input))@ == rest
    } by {
        let f = frame_at(s)->Ok_0;
        lemma_frame_is_returned(s, f.0, f.1, input, r);
    }
}

/// A header is read from its line, and what follows the line is left. Without a
/// colon, or without a name, a line is no header; one that has not ended yet may
/// still become one.
pub proof fn law_header_is_read_from_its_line(
    line: (Seq<u8>, Seq<u8>, Seq<u8>),
    name: Seq<u8>,
    rest: Seq<u8>,
)
    requires
        is_header_line(line),
        forall|i: int|
            0 <= i < name.len() ==> (#[trigger] name[i]) != 58 && name[i] != 10 && name[i] != 13,
    ensures
        forall|input: &mut &[u8], r: Result<Header<'_>, ParseError>|
            #[trigger] call_ensures(parse_header, (input,), r) ==> {
                &&& (*input)@ == line.0 + seq![58u8] + line.1 + line.2 + rest ==> r is Ok
                    && r->Ok_0.0@ == line.0 && r->Ok_0.1@ == line.1 && (*final(input))@ == rest
                &&& (*input)@ == name || (*input)@ == line.0 + seq![58u8] + line.1 || (*input)@
                    == line.0 + seq![58u8] + line.1 + seq![13u8] ==> r == Err::<
                    Header<'_>,
                    ParseError,
                >(ParseError::Incomplete)
                &&& (*input)@ == name + seq![10u8] + rest || (*input)@ == name + seq![13u8] + rest
                    || (*input)@ == seq![58u8] + rest ==> r == Err::<Header<'_>, ParseError>(
                    ParseError::Invalid(Part::Header),
                )
            },
{
    assert forall|input: &mut &[u8], r: Result<Header<'_>, ParseError>|
        #[trigger] call_ensures(parse_header, (input,), r) implies {
        &&& (*input)@ == line.0 + seq![58u8] + line.1 + line.2 + rest ==> r is Ok && r->Ok_0.0@
            == line.0 && r->Ok_0.1@ == line.1 && (*final(input))@ == rest
        &&& (*input)@ == name || (*input)@ == line.0 + seq![58u8] + line.1 || (*input)@ == line.0
            + seq![58u8] + line.1 + seq![13u8] ==> r == Err::<Header<'_>, ParseError>(
            ParseError::Incomplete,
        )
        &&& (*input)@ == name + seq![10u8] + rest || (*input)@ == name + seq![13u8] + rest
            || (*input)@ == seq![58u8] + rest ==> r == Err::<Header<'_>, ParseError>(
            ParseError::Invalid(Part::Header),
        )
    } by {
        let s = (*input)@;
        if s == line.0 + seq![58u8] + line.1 + line.2 + rest {
            let all = line.0 + seq![58u8] + line.1 + line.2;
            assert(s =~= Seq::<u8>::empty() + all + rest);
            lemma_line_is_read(Seq::empty(), line, rest);
            assert(s.skip(all.len() as int) =~= rest);
        }
        if s == name {
            lemma_find(s, 0, Stop::NameEnd);
            let colon = find(s, 0, Stop::NameEnd);
            assert(colon < s.len() ==> s[colon] == name[colon]);
        }
        if s == line.0 + seq![58u8] + line.1 || s == line.0 + seq![58u8] + line.1 + seq![13u8] {
            let colon = line.0.len() as int;
            let eol = colon + 1 + line.1.len();
            assert forall|i: int| 0 <= i < colon implies !stops(Stop::NameEnd, #[trigger] s[i]) by {
                assert(s[i] == line.0[i]);
            }
            assert(s[colon] == 58);
            lemma_find_is(s, 0, Stop::NameEnd, colon);
            assert forall|i: int| colon + 1 <= i < eol implies !stops(
                Stop::LineEnd,
                #[trigger] s[i],
            ) by {
                assert(s[i] == line.1[i - colon - 1]);
            }
            lemma_find(s, colon + 1, Stop::LineEnd);
            let found = find(s, colon + 1, Stop::LineEnd);
            assert(found >= eol) by {
                if found < eol {
                    assert(stops(Stop::LineEnd, s[found]));
                }
            }
            if s.len() > eol {
                assert(s[eol] == 13);
            }
        }
        if s == name + seq![10u8] + rest || s == name + seq![13u8] + rest {
            let n = name.len() as int;
            assert forall|i: int| 0 <= i < n implies !stops(Stop::NameEnd, #[trigger] s[i]) by {
                assert(s[i] == name[i]);
            }
            assert(s[n] == 10 || s[n] == 13);
            lemma_find_is(s, 0, Stop::NameEnd, n);
        }
        if s == seq![58u8] + rest {
            assert(s[0] == 58);
            lemma_find_is(s, 0, Stop::NameEnd, 0);
        }
    }
}

/// Bytes whose first is neither a letter nor part of a line ending are no frame.
/// Without any bytes nothing is decided, nor by a carriage return alone, which a
/// line feed may follow.
pub proof fn law_frame_starts_with_its_command(s: Seq<u8>)
    ensures
        forall|input: &mut &[u8], r: Result<Frame<'_>, ParseError>|
            #[trigger] call_ensures(parse_frame, (input,), r) && (*input)@ == s ==> {
                &&& s.len() == 0 || s == seq![13u8] || s == seq![10u8] || s == seq![13u8, 10u8]
                    ==> r == Err::<Frame<'_>, ParseError>(ParseError::Incomplete)
                &&& s.len() >= 1 && !(65 <= s[0] <= 90 || 97 <= s[0] <= 122) && s[0] != 10 && s[0]
                    != 13 ==> r == Err::<Frame<'_>, ParseError>(
                    ParseError::Invalid(Part::CommandOrHeaders),
                )
                &&& s.len() >= 2 && s[0] == 13 && s[1] != 10 ==> r == Err::<Frame<'_>, ParseError>(
                    ParseError::Invalid(Part::CommandOrHeaders),
                )
                &&& s.len() >= 2 && s[0] == 10 && !(65 <= s[1] <= 90 || 97 <= s[1] <= 122)
                    ==> r == Err::<Frame<'_>, ParseError>(
                    ParseError::Invalid(Part::CommandOrHeaders),
                )
                &&& r is Err ==> (*final(input))@ == s
            },
{
    if s.len() > 0 && !(65 <= s[0] <= 90 || 97 <= s[0] <= 122) {
        lemma_find_is(s, 0, Stop::NotLetter, 0);
    }
    if s.len() > 1 && s[0] == 10 && !(65 <= s[1] <= 90 || 97 <= s[1] <= 122) {
        lemma_find_is(s, 1, Stop::NotLetter, 1);
    }
    lemma_find(s, skip_line_ending(s, 0), Stop::NotLetter);
}

/// A command that no line ending follows, be it another byte or a carriage return
/// without its line feed, is no frame.
pub proof fn law_command_ends_its_line(
    lead: Seq<u8>,
    command: Seq<u8>,
    first: u8,
    next: u8,
    rest: Seq<u8>,
)
    requires
        lead.len() == 0 || lead == seq![10u8] || lead == seq![13u8, 10u8],
        command.len() > 0,
        forall|i: int|
            0 <= i < command.len() ==> 65 <= (#[trigger] command[i]) <= 90 || 97 <= command[i]
                <= 122,
        !(65 <= first <= 90 || 97 <= first <= 122),
        first != 10,
        first == 13 ==> next != 10,
    ensures
        forall|input: &mut &[u8], r: Result<Frame<'_>, ParseError>|
            #[trigger] call_ensures(parse_frame, (input,), r) && (*input)@ == lead + command + seq![
                first,
                next,
            ] + rest ==> r == Err::<Frame<'_>, ParseError>(
                ParseError::Invalid(Part::CommandOrHeaders),
            ) && (*final(input))@ == (*input)@,
{
    let s = lead + command + seq![first, next] + rest;
    let start = lead.len() as int;
    let end = start + command.len();
    assert forall|i: int| start <= i < end implies s[i] == command[i - start] by {}
    if lead.len() == 0 {
        assert(s[0] == command[0]);
    } else {
        assert(s =~= Seq::<u8>::empty() + lead + s.skip(start));
        lemma_line_ends(Seq::empty(), lead, s.skip(start), Part::Terminator);
        lemma_line_ends(Seq::empty(), lead, s.skip(start), Part::CommandOrHeaders);
    }
    assert(skip_line_ending(s, 0) == start);
    assert forall|i: int| start <= i < end implies !stops(Stop::NotLetter, #[trigger] s[i]) by {
        assert(s[i] == command[i - start]);
    }
    assert(s[end] == first && s[end + 1] == next);
    lemma_find_is(s, start, Stop::NotLetter, end);
}

/// Behind the command, a line that is neither empty nor a header, for want of a
/// colon or of a name in front of it, makes the bytes no frame.
pub proof fn law_every_line_is_a_header(
    lead: Seq<u8>,
    command: Seq<u8>,
    first: Seq<u8>,
    lines: Seq<(Seq<u8>, Seq<u8>, Seq<u8>)>,
    bad: Seq<u8>,
    stop: u8,
    rest: Seq<u8>,
)
    requires
        lead.len() == 0 || lead == seq![10u8] || lead == seq![13u8, 10u8],
        command.len() > 0,
        forall|i: int|
            0 <= i < command.len() ==> 65 <= (#[trigger] command[i]) <= 90 || 97 <= command[i]
                <= 122,
        first == seq![10u8] || first == seq![13u8, 10u8],
        forall|i: int| 0 <= i < lines.len() ==> is_header_line(#[trigger] lines[i]),
        forall|i: int|
            0 <= i < bad.len() ==> (#[trigger] bad[i]) != 58 && bad[i] != 10 && bad[i] != 13,
        (bad.len() > 0 && (stop == 10 || stop == 13)) || (bad.len() == 0 && stop == 58),
    ensures
        forall|input: &mut &[u8], r: Result<Frame<'_>, ParseError>|
            #[trigger] call_ensures(parse_frame, (input,), r) && (*input)@ == lead + command + first
                + lines_of(lines) + bad + seq![stop] + rest ==> r == Err::<Frame<'_>, ParseError>(
                ParseError::Invalid(Part::CommandOrHeaders),
            ) && (*final(input))@ == (*input)@,
{
    let top = lead + command + first;
    let s = top + lines_of(lines) + bad + seq![stop] + rest;
    let after = bad + seq![stop] + rest;
    assert(s =~= top + (lines_of(lines) + after));
    lemma_command_is_read(lead, command, first, lines_of(lines) + after);
    assert(s =~= top + lines_of(lines) + after);
    let q = (top.len() + lines_of(lines).len()) as int;
    let n = q + bad.len();
    assert forall|i: int| q <= i < n implies !stops(Stop::NameEnd, #[trigger] s[i]) by {
        assert(s[i] == bad[i - q]);
    }
    assert(s[n] == stop);
    lemma_find_is(s, q, Stop::NameEnd, n);
    lemma_lines_are_read(top, lines, after);
    assert(bad.len() > 0 ==> s[q] == bad[0]);
}

/// A body of a known length that no null byte follows makes the bytes no frame.
pub proof fn law_body_ends_with_a_null_byte(
    lead: Seq<u8>,
    command: Seq<u8>,
    first: Seq<u8>,
    lines: Seq<(Seq<u8>, Seq<u8>, Seq<u8>)>,
    last: Seq<u8>,
    body: Seq<u8>,
    next: u8,
    rest: Seq<u8>,
    length: Seq<u8>,
)
    requires
        lead.len() == 0 || lead == seq![10u8] || lead == seq![13u8, 10u8],
        command.len() > 0,
        forall|i: int|
            0 <= i < command.len() ==> 65 <= (#[trigger] command[i]) <= 90 || 97 <= command[i]
                <= 122,
        first == seq![10u8] || first == seq![13u8, 10u8],
        forall|i: int| 0 <= i < lines.len() ==> is_header_line(#[trigger] lines[i]),
        last == seq![10u8] || last == seq![13u8, 10u8],
        value_of(
            lines.map_values(|line: (Seq<u8>, Seq<u8>, Seq<u8>)| (line.0, line.1)),
            encode_utf8("content-length"@),
        ) == Some(length),
        number(length) matches Ok(n) && body.len() == n,
        next != 0,
    ensures
        forall|input: &mut &[u8], r: Result<Frame<'_>, ParseError>|
            #[trigger] call_ensures(parse_frame, (input,), r) && (*input)@ == lead + command + first
                + lines_of(lines) + last + body + seq![next] + rest ==> r == Err::<
                Frame<'_>,
                ParseError,
            >(ParseError::Invalid(Part::Terminator)) && (*final(input))@ == (*input)@,
{
    let top = lead + command + first;
    let s = top + lines_of(lines) + last + body + seq![next] + rest;
    let after = body + seq![next] + rest;
    assert(s =~= top + (lines_of(lines) + last + after));
    lemma_command_is_read(lead, command, first, lines_of(lines) + last + after);
    assert(s =~= top + lines_of(lines) + (last + after));
    lemma_head_is_read(top, command, lines, last, after, s);
    let b = (top.len() + lines_of(lines).len() + last.len()) as int;
    assert(s[b + body.len()] == next);
}

/// What has been decided stays decided: bytes that are a frame, or are none, are
/// so whatever follows them; and as long as nothing is decided, every part of
/// them is undecided too.
pub proof fn law_reading_is_decided_once(a: Seq<u8>, b: Seq<u8>)
    ensures
        forall|
            short: &mut &[u8],
            first: Result<Frame<'_>, ParseError>,
            long: &mut &[u8],
            second: Result<Frame<'_>, ParseError>,
        |
            #[trigger] call_ensures(parse_frame, (short,), first) && #[trigger] call_ensures(
                parse_frame,
                (long,),
                second,
            ) && (*short)@ == a && (*long)@ == a + b ==> {
                &&& first is Ok ==> second is Ok && second->Ok_0.command@ == first->Ok_0.command@
                    && second->Ok_0.headers@.map_values(|h: Header<'_>| (h.0@, h.1@))
                    == first->Ok_0.headers@.map_values(|h: Header<'_>| (h.0@, h.1@))
                    && second->Ok_0@.body == first->Ok_0@.body
                &&& first matches Err(ParseError::Invalid(part)) ==> second == Err::<
                    Frame<'_>,
                    ParseError,
                >(ParseError::Invalid(part))
                &&& second == Err::<Frame<'_>, ParseError>(ParseError::Incomplete) ==> first
                    == Err::<Frame<'_>, ParseError>(ParseError::Incomplete)
            },
{
    if !(unterminated_frame_at(a) matches Err(ParseError::Incomplete)) {
        law_more_bytes_change_nothing(a, b);
    }
    assert forall|
        short: &mut &[u8],
        first: Result<Frame<'_>, ParseError>,
        long: &mut &[u8],
        second: Result<Frame<'_>, ParseError>,
    |
        #[trigger] call_ensures(parse_frame, (short,), first) && #[trigger] call_ensures(
            parse_frame,
            (long,),
            second,
        ) && (*short)@ == a && (*long)@ == a + b implies {
        &&& first is Ok ==> second is Ok && second->Ok_0.command@ == first->Ok_0.command@
            && second->Ok_0.headers@.map_values(|h: Header<'_>| (h.0@, h.1@))
            == first->Ok_0.headers@.map_values(|h: Header<'_>| (h.0@, h.1@))
            && second->Ok_0@.body == first->Ok_0@.body
        &&& first matches Err(ParseError::Invalid(part)) ==> second == Err::<
            Frame<'_>,
            ParseError,
        >(ParseError::Invalid(part))
        &&& second == Err::<Frame<'_>, ParseError>(ParseError::Incomplete) ==> first == Err::<
            Frame<'_>,
            ParseError,
        >(ParseError::Incomplete)
    } by {
        if first is Ok {
            assert(second is Ok);
            assert(second->Ok_0.headers@.map_values(|h: Header<'_>| (h.0@, h.1@))
                =~= second->Ok_0@.headers);
            assert(first->Ok_0.headers@.map_values(|h: Header<'_>| (h.0@, h.1@))
                =~= first->Ok_0@.headers);
        }
    }
}

/// A frame that was not received to its null byte is unfinished.
pub proof fn law_part_of_a_frame_is_incomplete(s: Seq<u8>, k: int)
    requires
        s.len() > 0,
        s.last() == 0,
        0 <= k < s.len(),
    ensures
        forall|
            all: &mut &[u8],
            first: Result<Frame<'_>, ParseError>,
            part: &mut &[u8],
            second: Result<Frame<'_>, ParseError>,
        |
            #[trigger] call_ensures(parse_frame, (all,), first) && #[trigger] call_ensures(
                parse_frame,
                (part,),
                second,
            ) && (*all)@ == s && (*part)@ == s.take(k) && first is Ok && (*final(all))@.len() == 0
                ==> second == Err::<Frame<'_>, ParseError>(ParseError::Incomplete)
                && (*final(part))@ == s.take(k),
{
    if let Ok((_, end)) = unterminated_frame_at(s) {
        lemma_frame_bounds(s);
        if k < end {
            law_part_of_a_frame_is_unfinished(s, k);
        }
        assert(skip_line_ending(s, end) == s.len() ==> end == s.len());
    }
}

/// The length of a body is the number in the first header named content-length.
pub proof fn law_length_is_in_its_header(
    headers: &[Header<'_>],
    i: int,
    value: &[u8],
    found: Result<u32, NumberError>,
    r: Option<u32>,
)
    requires
        call_ensures(get_content_length, (headers,), r),
        call_ensures(parse_u32, (value,), found),
        0 <= i <= headers@.len(),
        forall|j: int|
            0 <= j < i ==> (#[trigger] headers@[j]).0@ != encode_utf8("content-length"@),
        i < headers@.len() ==> headers@[i].0@ == encode_utf8("content-length"@) && headers@[i].1@
            == value@,
    ensures
        i == headers@.len() ==> r is None,
        i < headers@.len() ==> r == (match found {
            Ok(n) => Some(n),
            Err(_) => None,
        }),
{
    let hs = headers_view(headers@);
    assert(hs.len() == headers@.len());
    assert(forall|j: int|
        0 <= j < hs.len() ==> #[trigger] hs[j] == (headers@[j].0@, headers@[j].1@));
    law_value_is_that_of_the_first_header(hs, encode_utf8("content-length"@), i);
}

/// Decoding reads the frame that the bytes start with, and gives the message that
/// the frame carries, or the error of one that carries none. Exactly what follows
/// the frame is left.
pub proof fn law_decoding_delivers_the_frame(
    s: Seq<u8>,
    rest: Seq<u8>,
    frame: Frame<'_>,
    item: Result<Message<FromServer>, Error>,
)
    requires
        s.len() >= 1 ==> s[0] != 10,
        s.len() >= 2 && s[0] == 13 ==> s[1] != 10,
        exists|input: &mut &[u8]|
            #[trigger] call_ensures(parse_frame, (input,), Ok::<Frame<'_>, ParseError>(frame))
                && (*input)@ == s && (*final(input))@ == rest,
        call_ensures(Frame::to_server_msg, (&frame,), item),
    ensures
        forall|
            codec: &mut ClientCodec,
            b: &mut BytesMut,
            r: Result<Option<Message<FromServer>>, Error>,
        |
            #[trigger] call_ensures(ClientCodec::decode, (codec, b), r) && contents(*b) == s ==> {
                &&& contents(*final(b)) == rest
                &&& item matches Ok(m) ==> (r matches Ok(Some(found)) && found@ == m@)
                &&& item matches Err(e) ==> (r matches Err(found) && found@ == e@)
            },
{
    assert(skip_line_ending(s, 0) == 0);
    assert(beats_end(s, 0) == 0);
    assert(s.skip(0) =~= s);
}

/// Bytes that are no frame are an error that names the part at fault. Those of an
/// unfinished frame are waited for as long as they are within the bound of the
/// codec, and refused once they are past it. Both stay in the buffer.
pub proof fn law_decoding_waits_within_its_bound(s: Seq<u8>, bound: usize, e: ParseError)
    requires
        s.len() >= 1 ==> s[0] != 10,
        s.len() >= 2 && s[0] == 13 ==> s[1] != 10,
        exists|input: &mut &[u8]|
            #[trigger] call_ensures(parse_frame, (input,), Err::<Frame<'_>, ParseError>(e))
                && (*input)@ == s,
    ensures
        forall|
            codec: &mut ClientCodec,
            b: &mut BytesMut,
            r: Result<Option<Message<FromServer>>, Error>,
        |
            #[trigger] call_ensures(ClientCodec::decode, (codec, b), r) && contents(*b) == s
                && call_ensures(ClientCodec::with_max_frame_size, (bound,), *codec) ==> {
                &&& contents(*final(b)) == s
                &&& *final(codec) == *codec
                &&& e matches ParseError::Invalid(part) ==> r == Err::<
                    Option<Message<FromServer>>,
                    Error,
                >(Error::ParseFailed(part))
                &&& e == ParseError::Incomplete && s.len() <= bound ==> r == Ok::<
                    Option<Message<FromServer>>,
                    Error,
                >(None)
                &&& e == ParseError::Incomplete && s.len() > bound ==> r == Err::<
                    Option<Message<FromServer>>,
                    Error,
                >(Error::FrameTooLarge(bound))
            },
{
    assert(skip_line_ending(s, 0) == 0);
    assert(beats_end(s, 0) == 0);
    assert(s.skip(0) =~= s);
}

/// A heart-beat in front of other bytes is used up, and changes nothing else.
pub proof fn law_decoding_drops_heartbeats(beat: Seq<u8>, s: Seq<u8>)
    requires
        beat == seq![10u8] || beat == seq![13u8, 10u8],
    ensures
        forall|
            codec: &mut ClientCodec,
            a: &mut BytesMut,
            first: Result<Option<Message<FromServer>>, Error>,
            b: &mut BytesMut,
            second: Result<Option<Message<FromServer>>, Error>,
        |
            #[trigger] call_ensures(ClientCodec::decode, (codec, a), first)
                && #[trigger] call_ensures(ClientCodec::decode, (codec, b), second) && contents(*a)
                == beat + s && contents(*b) == s ==> {
                &&& contents(*final(a)) == contents(*final(b))
                &&& second matches Ok(Some(m)) ==> (first matches Ok(Some(found)) && found@ == m@)
                &&& second matches Ok(None) ==> (first matches Ok(None))
                &&& second matches Err(e) ==> (first matches Err(found) && found@ == e@)
            },
{
    assert forall|
        codec: &mut ClientCodec,
        a: &mut BytesMut,
        first: Result<Option<Message<FromServer>>, Error>,
        b: &mut BytesMut,
        second: Result<Option<Message<FromServer>>, Error>,
    |
        #[trigger] call_ensures(ClientCodec::decode, (codec, a), first) && #[trigger] call_ensures(
            ClientCodec::decode,
            (codec, b),
            second,
        ) && contents(*a) == beat + s && contents(*b) == s implies {
        &&& contents(*final(a)) == contents(*final(b))
        &&& second matches Ok(Some(m)) ==> (first matches Ok(Some(found)) && found@ == m@)
        &&& second matches Ok(None) ==> (first matches Ok(None))
        &&& second matches Err(e) ==> (first matches Err(found) && found@ == e@)
    } by {
        let bound = codec.bound();
        law_heartbeats_are_dropped(beat, s, bound);
        lemma_decoded_bounds(s, bound);
        lemma_decoded_bounds(beat + s, bound);
    }
}

} // verus!
