//! Frames arrive in pieces: what is read does not depend on where the bytes are
//! cut.

use crate::client::{beats_end, decoded, decoded_rest};
use crate::error::ErrorView;
use crate::escape::{CR, LF};
use crate::grammar::{
    body_at, command_at, content_length, find, frame_at, head_at, header_at, headers_at,
    lemma_find, lemma_frame_bounds, lemma_header_bounds, lemma_headers_bounds, line_ending,
    skip_line_ending, unterminated_frame_at, ParseError, Part, Stop,
};
use crate::model::{FromServerView, MessageView};
use vstd::prelude::*;

verus! {

/// A run that ends in `s` ends at the same place when more bytes follow.
proof fn lemma_find_extends(s: Seq<u8>, t: Seq<u8>, p: int, stop: Stop)
    requires
        0 <= p <= s.len(),
    ensures
        find(s, p, stop) < s.len() ==> find(s + t, p, stop) == find(s, p, stop),
    decreases s.len() - p,
{
    if p < s.len() {
        assert((s + t)[p] == s[p]);
        lemma_find_extends(s, t, p + 1, stop);
    }
}

/// What is decided of a line ending stays decided when more bytes follow.
proof fn lemma_line_ending_extends(s: Seq<u8>, t: Seq<u8>, p: int, part: Part)
    requires
        0 <= p <= s.len(),
    ensures
        line_ending(s, p, part) != Err::<int, ParseError>(ParseError::Incomplete) ==> line_ending(
            s + t,
            p,
            part,
        ) == line_ending(s, p, part),
{
    if p < s.len() {
        assert((s + t)[p] == s[p]);
        if p + 1 < s.len() {
            assert((s + t)[p + 1] == s[p + 1]);
        }
    }
}

/// What is decided of a header stays decided when more bytes follow.
proof fn lemma_header_extends(s: Seq<u8>, t: Seq<u8>, p: int)
    requires
        0 <= p <= s.len(),
        header_at(s, p) != Err::<((Seq<u8>, Seq<u8>), int), ParseError>(ParseError::Incomplete),
    ensures
        header_at(s + t, p) == header_at(s, p),
{
    let colon = find(s, p, Stop::NameEnd);
    lemma_find(s, p, Stop::NameEnd);
    lemma_find_extends(s, t, p, Stop::NameEnd);
    assert((s + t)[colon] == s[colon]);
    let eol = find(s, colon + 1, Stop::LineEnd);
    lemma_find(s, colon + 1, Stop::LineEnd);
    lemma_find_extends(s, t, colon + 1, Stop::LineEnd);
    lemma_line_ending_extends(s, t, eol, Part::Header);
    assert((s + t).subrange(p, colon) =~= s.subrange(p, colon));
    if eol < s.len() {
        assert((s + t).subrange(colon + 1, eol) =~= s.subrange(colon + 1, eol));
    }
}

/// Headers that end in `s` are the same when more bytes follow.
proof fn lemma_headers_extend(s: Seq<u8>, t: Seq<u8>, p: int)
    requires
        0 <= p <= s.len(),
        !(headers_at(s, p) matches Err(ParseError::Incomplete)),
    ensures
        headers_at(s + t, p) == headers_at(s, p),
    decreases s.len() - p,
{
    lemma_header_extends(s, t, p);
    lemma_header_bounds(s, p);
    if let Ok((_, end)) = header_at(s, p) {
        lemma_headers_extend(s, t, end);
    }
}

/// What is decided of a command stays decided when more bytes follow.
proof fn lemma_command_extends(s: Seq<u8>, t: Seq<u8>)
    requires
        command_at(s) != Err::<(Seq<u8>, int), ParseError>(ParseError::Incomplete),
    ensures
        command_at(s + t) == command_at(s),
{
    lemma_line_ending_extends(s, t, 0, Part::Terminator);
    lemma_line_ending_extends(s, t, 0, Part::CommandOrHeaders);
    let start = skip_line_ending(s, 0);
    assert(skip_line_ending(s + t, 0) == start);
    let end = find(s, start, Stop::NotLetter);
    lemma_find(s, start, Stop::NotLetter);
    lemma_find_extends(s, t, start, Stop::NotLetter);
    lemma_line_ending_extends(s, t, end, Part::CommandOrHeaders);
    if end < s.len() {
        assert((s + t).subrange(start, end) =~= s.subrange(start, end));
    }
}

/// What is decided of a frame stays decided when more bytes follow: the bytes of
/// a frame give that frame whatever comes after them, and no bytes mend what is
/// not a frame.
pub proof fn law_more_bytes_change_nothing(s: Seq<u8>, t: Seq<u8>)
    requires
        !(unterminated_frame_at(s) matches Err(ParseError::Incomplete)),
    ensures
        unterminated_frame_at(s + t) == unterminated_frame_at(s),
{
    lemma_frame_bounds(s);
    lemma_command_extends(s, t);
    if let Ok((command, p)) = command_at(s) {
        lemma_headers_bounds(s, p);
        lemma_headers_extend(s, t, p);
        if let Ok((headers, q)) = headers_at(s, p) {
            lemma_line_ending_extends(s, t, q, Part::CommandOrHeaders);
        }
    }
    if let Ok(((command, headers), p)) = head_at(s) {
        assert(head_at(s + t) == head_at(s));
        let length = content_length(headers);
        lemma_find(s, p, Stop::Null);
        lemma_find_extends(s, t, p, Stop::Null);
        if let Ok((body, q)) = body_at(s, p, length) {
            match length {
                Some(n) => {
                    assert((s + t).subrange(p, p + n) =~= s.subrange(p, p + n));
                },
                None => {
                    assert((s + t).subrange(p, q) =~= s.subrange(p, q));
                },
            }
            assert(body_at(s + t, p, length) == body_at(s, p, length));
            if q < s.len() {
                assert((s + t)[q] == s[q]);
            }
        }
    }
}

/// Ordinary fragmentation is no error: every part of a frame that stops short of
/// its end is a frame still to be finished.
pub proof fn law_part_of_a_frame_is_unfinished(s: Seq<u8>, k: int)
    requires
        unterminated_frame_at(s) matches Ok((_, end)) && 0 <= k < end,
    ensures
        frame_at(s.take(k)) == Err::<(crate::frame::FrameView, int), ParseError>(
            ParseError::Incomplete,
        ),
{
    let part = s.take(k);
    lemma_frame_bounds(s);
    lemma_frame_bounds(part);
    assert(part + s.skip(k) =~= s);
    if !(unterminated_frame_at(part) matches Err(ParseError::Incomplete)) {
        law_more_bytes_change_nothing(part, s.skip(k));
    }
}

/// A line ending is the same whatever stands in front of it.
proof fn lemma_line_ending_shifts(s: Seq<u8>, u: int, p: int)
    requires
        0 <= u <= s.len(),
        0 <= p <= s.len() - u,
    ensures
        skip_line_ending(s.skip(u), p) + u == skip_line_ending(s, u + p),
        p <= skip_line_ending(s.skip(u), p) <= s.len() - u,
{
    let rest = s.skip(u);
    if p < rest.len() {
        assert(rest[p] == s[u + p]);
        if p + 1 < rest.len() {
            assert(rest[p + 1] == s[u + p + 1]);
        }
    }
}

/// Heart-beats end at the same place whatever stands in front of them.
proof fn lemma_beats_shift(s: Seq<u8>, u: int, p: int)
    requires
        0 <= u <= s.len(),
        0 <= p <= s.len() - u,
    ensures
        beats_end(s.skip(u), p) + u == beats_end(s, u + p),
        p <= beats_end(s.skip(u), p) <= s.len() - u,
    decreases s.len() - u - p,
{
    lemma_line_ending_shifts(s, u, p);
    let next = skip_line_ending(s.skip(u), p);
    if p < next {
        lemma_beats_shift(s, u, next);
    }
}

/// Heart-beats that end in `s` are skipped one by one when more bytes follow.
proof fn lemma_beats_extend(s: Seq<u8>, t: Seq<u8>, p: int)
    requires
        0 <= p <= s.len(),
    ensures
        p <= beats_end(s, p) <= s.len(),
        beats_end(s + t, p) == beats_end(s + t, beats_end(s, p)),
    decreases s.len() - p,
{
    lemma_line_ending_extends(s, t, p, Part::Terminator);
    let next = skip_line_ending(s, p);
    if p < next {
        lemma_beats_extend(s, t, next);
    }
}

/// Behind the heart-beats there are no more.
proof fn lemma_beats_are_skipped(s: Seq<u8>, p: int)
    requires
        0 <= p <= s.len(),
    ensures
        p <= beats_end(s, p) <= s.len(),
        skip_line_ending(s, beats_end(s, p)) == beats_end(s, p),
    decreases s.len() - p,
{
    let next = skip_line_ending(s, p);
    if p < next {
        lemma_beats_are_skipped(s, next);
    }
}

/// What follows the heart-beats at the start of `s`.
pub open spec fn without_beats(s: Seq<u8>) -> Seq<u8> {
    s.skip(beats_end(s, 0))
}

/// A heart-beat in front of other bytes is dropped, and changes nothing else.
pub proof fn law_heartbeats_are_dropped(beat: Seq<u8>, s: Seq<u8>, max_frame_size: usize)
    requires
        beat == seq![LF] || beat == seq![CR, LF],
    ensures
        decoded(beat + s, max_frame_size).0 == decoded(s, max_frame_size).0,
        decoded(beat + s, max_frame_size).1 == decoded(s, max_frame_size).1 + beat.len(),
        without_beats(beat + s) == without_beats(s),
{
    let all = beat + s;
    let n = beat.len() as int;
    assert(all[0] == beat[0]);
    assert(beat.len() == 2 ==> all[1] == beat[1]);
    assert(skip_line_ending(all, 0) == n);
    assert(all.skip(n) =~= s);
    lemma_beats_shift(all, n, 0);
    lemma_beats_are_skipped(s, 0);
    assert(all.skip(n + beats_end(s, 0)) =~= s.skip(beats_end(s, 0)));
}

/// An unfinished frame is waited for as long as it is within the bound, and
/// refused once it is past it.
pub proof fn law_unfinished_frame_is_bounded(s: Seq<u8>, k: int, max_frame_size: usize)
    requires
        skip_line_ending(s, 0) == 0,
        unterminated_frame_at(s) matches Ok((_, end)) && 0 <= k < end,
    ensures
        decoded(s.take(k), max_frame_size).0 == (if k <= max_frame_size {
            Ok::<Option<MessageView<FromServerView>>, ErrorView>(None)
        } else {
            Err::<Option<MessageView<FromServerView>>, ErrorView>(
                ErrorView::FrameTooLarge(max_frame_size),
            )
        }),
{
    let part = s.take(k);
    lemma_frame_bounds(s);
    lemma_find(s, 0, Stop::NotLetter);
    if k > 0 {
        assert(part[0] == s[0]);
        assert(find(s, 0, Stop::NotLetter) > 0);
        assert(!crate::grammar::stops(Stop::NotLetter, s[0]));
    }
    law_part_of_a_frame_is_unfinished(s, k);
    assert(skip_line_ending(part, 0) == 0);
    assert(part.skip(0) =~= part);
}

/// What a stream of bytes comes to when it is decoded to its end: the messages
/// in it, and then the bytes of an unfinished frame, or the error that ends the
/// stream.
pub open spec fn drained(s: Seq<u8>, max_frame_size: usize) -> (
    Seq<MessageView<FromServerView>>,
    Result<Seq<u8>, ErrorView>,
)
    decreases s.len(),
{
    let (result, used) = decoded(s, max_frame_size);
    match result {
        Err(e) => (Seq::empty(), Err(e)),
        Ok(None) => (Seq::empty(), Ok(s.skip(used))),
        Ok(Some(message)) => if 0 < used <= s.len() {
            let (rest, end) = drained(s.skip(used), max_frame_size);
            (seq![message] + rest, end)
        } else {
            (seq![message], Ok(s.skip(used)))
        },
    }
}

/// Every decoding step stays within the bytes, and a message takes up some.
pub proof fn lemma_decoded_bounds(s: Seq<u8>, max_frame_size: usize)
    ensures
        0 <= decoded(s, max_frame_size).1 <= s.len(),
        decoded(s, max_frame_size).0 matches Ok(Some(_)) ==> decoded(s, max_frame_size).1 > 0,
        s.skip(decoded(s, max_frame_size).1) == without_beats(s).skip(
            decoded_rest(without_beats(s), max_frame_size).1,
        ),
{
    lemma_beats_are_skipped(s, 0);
    lemma_frame_bounds(without_beats(s));
    assert(s.skip(decoded(s, max_frame_size).1) =~= without_beats(s).skip(
        decoded_rest(without_beats(s), max_frame_size).1,
    ));
}

/// Streams that differ only in the heart-beats at their start come to the same.
proof fn lemma_drained_ignores_beats(x: Seq<u8>, y: Seq<u8>, max_frame_size: usize)
    requires
        without_beats(x) == without_beats(y),
    ensures
        drained(x, max_frame_size) == drained(y, max_frame_size),
{
    lemma_decoded_bounds(x, max_frame_size);
    lemma_decoded_bounds(y, max_frame_size);
}

/// Cutting behind whole heart-beats.
proof fn lemma_cut_behind_beats(a: Seq<u8>, b: Seq<u8>)
    ensures
        without_beats(a + b) == without_beats(without_beats(a) + b),
{
    let u = beats_end(a, 0);
    let all = a + b;
    lemma_beats_extend(a, b, 0);
    lemma_beats_shift(all, u, 0);
    assert(all.skip(u) =~= without_beats(a) + b);
    assert(all.skip(beats_end(all, 0)) =~= all.skip(u).skip(beats_end(all.skip(u), 0)));
}

/// Bytes that do not start with a heart-beat, and cannot turn out to, do not
/// start with one when more bytes follow.
pub proof fn lemma_start_without_beats(s: Seq<u8>, t: Seq<u8>)
    requires
        skip_line_ending(s, 0) == 0,
        !(unterminated_frame_at(s) matches Err(ParseError::Incomplete)),
    ensures
        without_beats(s + t) == s + t,
{
    lemma_line_ending_extends(s, t, 0, Part::Terminator);
    assert(skip_line_ending(s + t, 0) == 0);
    assert((s + t).skip(0) =~= s + t);
}

/// What follows a frame, with and without the line ending behind it, differs in
/// heart-beats only.
proof fn lemma_line_ending_is_a_beat(s: Seq<u8>, e: int)
    requires
        0 <= e <= s.len(),
    ensures
        without_beats(s.skip(skip_line_ending(s, e))) == without_beats(s.skip(e)),
{
    lemma_line_ending_shifts(s, e, 0);
    let z = s.skip(e);
    let n = skip_line_ending(z, 0);
    assert(s.skip(skip_line_ending(s, e)) =~= z.skip(n));
    lemma_beats_shift(z, n, 0);
    lemma_beats_are_skipped(z, 0);
    assert(n > 0 ==> beats_end(z, 0) == beats_end(z, n));
    assert(z.skip(beats_end(z, 0)) =~= z.skip(n).skip(beats_end(z.skip(n), 0)));
}

/// A frame that is there is found where more bytes follow, and what follows it
/// then is what followed it before and the further bytes, but for heart-beats.
proof fn lemma_frame_stays(start: Seq<u8>, b: Seq<u8>)
    requires
        skip_line_ending(start, 0) == 0,
        frame_at(start) is Ok,
    ensures
        without_beats(start + b) == start + b,
        frame_at(start + b) matches Ok((frame, end)) && frame == frame_at(start)->Ok_0.0 && 0 < end
            <= (start + b).len() && without_beats((start + b).skip(end)) == without_beats(
            start.skip(frame_at(start)->Ok_0.1) + b,
        ),
{
    let whole = start + b;
    lemma_frame_bounds(start);
    lemma_frame_bounds(whole);
    lemma_start_without_beats(start, b);
    law_more_bytes_change_nothing(start, b);
    let e = unterminated_frame_at(start)->Ok_0.1;
    let e1 = skip_line_ending(start, e);
    lemma_line_ending_extends(start, b, e, Part::Terminator);
    assert(start.skip(e1) + b =~= whole.skip(e1));
    if e1 == e {
        lemma_line_ending_is_a_beat(whole, e);
    }
}

/// An error stays an error: bytes that are refused are refused for the same
/// reason when more bytes follow. What is refused for its size may still be
/// finished by them.
pub proof fn law_error_stays(a: Seq<u8>, b: Seq<u8>, max_frame_size: usize)
    requires
        decoded(a, max_frame_size).0 matches Err(e) && !(e is FrameTooLarge),
    ensures
        decoded(a + b, max_frame_size).0 == decoded(a, max_frame_size).0,
{
    let start = without_beats(a);
    let whole = start + b;
    lemma_cut_behind_beats(a, b);
    lemma_beats_are_skipped(a, 0);
    lemma_line_ending_shifts(a, beats_end(a, 0), 0);
    if frame_at(start) is Ok {
        lemma_frame_stays(start, b);
    } else {
        lemma_start_without_beats(start, b);
        law_more_bytes_change_nothing(start, b);
    }
}

/// The first message of a stream is the same when more bytes follow.
proof fn lemma_first_message_stays(a: Seq<u8>, b: Seq<u8>, max_frame_size: usize)
    requires
        decoded(a, max_frame_size).0 matches Ok(Some(_)),
    ensures
        drained(a + b, max_frame_size) == ({
            let (result, used) = decoded(a, max_frame_size);
            let (rest, end) = drained(a.skip(used) + b, max_frame_size);
            (seq![result->Ok_0->0] + rest, end)
        }),
{
    let start = without_beats(a);
    let whole = start + b;
    lemma_decoded_bounds(a, max_frame_size);
    lemma_cut_behind_beats(a, b);
    lemma_drained_ignores_beats(a + b, whole, max_frame_size);
    lemma_beats_are_skipped(a, 0);
    lemma_line_ending_shifts(a, beats_end(a, 0), 0);
    lemma_frame_stays(start, b);
    let end = frame_at(whole)->Ok_0.1;
    let rest = a.skip(decoded(a, max_frame_size).1);
    lemma_drained_ignores_beats(whole.skip(end), rest + b, max_frame_size);
    lemma_decoded_bounds(whole, max_frame_size);
}

/// It does not matter where a stream is cut, as long as its first part is decoded
/// to its end without an error: decoding then the second part behind what was
/// left of the first gives the same messages, and ends in the same way, as
/// decoding the whole at once.
pub proof fn law_cutting_a_stream_changes_nothing(a: Seq<u8>, b: Seq<u8>, max_frame_size: usize)
    requires
        drained(a, max_frame_size).1 is Ok,
    ensures
        ({
            let (first, left) = drained(a, max_frame_size);
            let (second, end) = drained(left->Ok_0 + b, max_frame_size);
            drained(a + b, max_frame_size) == (first + second, end)
        }),
    decreases a.len(),
{
    let (first, left) = drained(a, max_frame_size);
    let (second, end) = drained(left->Ok_0 + b, max_frame_size);
    let (result, used) = decoded(a, max_frame_size);
    lemma_decoded_bounds(a, max_frame_size);
    match result {
        Err(_) => {},
        Ok(None) => {
            lemma_cut_behind_beats(a, b);
            lemma_drained_ignores_beats(a + b, without_beats(a) + b, max_frame_size);
            assert(without_beats(a).skip(0) =~= without_beats(a));
            assert(first + second =~= second);
        },
        Ok(Some(message)) => {
            let rest = a.skip(used);
            lemma_first_message_stays(a, b, max_frame_size);
            law_cutting_a_stream_changes_nothing(rest, b, max_frame_size);
            let (later, _) = drained(rest, max_frame_size);
            assert(first + second =~= seq![message] + (later + second));
        },
    }
}

/// Nor does it matter behind an error: where the first part of a stream ends in
/// one, the whole gives the same messages and ends in the same error. An
/// unfinished frame that is refused for its size alone may still be finished by
/// the second part.
pub proof fn law_error_ends_a_stream(a: Seq<u8>, b: Seq<u8>, max_frame_size: usize)
    requires
        drained(a, max_frame_size).1 matches Err(e) && !(e is FrameTooLarge),
    ensures
        drained(a + b, max_frame_size) == drained(a, max_frame_size),
    decreases a.len(),
{
    let (result, used) = decoded(a, max_frame_size);
    lemma_decoded_bounds(a, max_frame_size);
    match result {
        Err(_) => {
            law_error_stays(a, b, max_frame_size);
        },
        Ok(None) => {},
        Ok(Some(_)) => {
            lemma_first_message_stays(a, b, max_frame_size);
            law_error_ends_a_stream(a.skip(used), b, max_frame_size);
        },
    }
}

/// Cutting never makes a good stream bad: where the whole is decoded to its end
/// without an error, so is every first part of it, unless a frame that the cut
/// leaves unfinished is past the bound.
pub proof fn law_part_of_a_good_stream_is_good(a: Seq<u8>, b: Seq<u8>, max_frame_size: usize)
    requires
        drained(a + b, max_frame_size).1 is Ok,
    ensures
        drained(a, max_frame_size).1 matches Err(e) ==> e is FrameTooLarge,
{
    if drained(a, max_frame_size).1 matches Err(e) && !(e is FrameTooLarge) {
        law_error_ends_a_stream(a, b, max_frame_size);
    }
}

} // verus!
