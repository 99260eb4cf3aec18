//! The laws of putting frames together.

use crate::buffer::contents;
use crate::compose::opt_str_to_bytes;
use crate::frame::{
    has_header, not_in, pairs_view, present, tuple_view, tuples_view, Frame, Header, HeaderTuple,
};
use crate::grammar::is_empty_slice;
use bytes::BytesMut;
use std::borrow::Cow;
use vstd::prelude::*;
use vstd::utf8::*;

verus! {

/// A new frame has the command, the body and, in order, the headers that have a
/// value: one more of them is one more header at the end, one without a value is
/// none.
pub proof fn law_new_frame_has_what_is_given<'a>(
    command: &'a [u8],
    headers: &[HeaderTuple<'a>],
    body: Option<&'a [u8]>,
    f: Frame<'a>,
    longer: &[HeaderTuple<'a>],
    g: Frame<'a>,
    header: HeaderTuple<'a>,
)
    requires
        call_ensures(Frame::new, (command, headers, body), f),
        call_ensures(Frame::new, (command, longer, body), g),
        longer@ == headers@.push(header),
    ensures
        f.command@ == command@,
        f.body is None == body is None,
        f.body matches Some(b) ==> b@ == body->0@,
        headers@.len() == 0 ==> f.headers@.len() == 0,
        g.headers@.map_values(|h: Header<'_>| (h.0@, h.1@)) == f.headers@.map_values(
            |h: Header<'_>| (h.0@, h.1@),
        ) + (match header.1 {
            Some(value) => seq![(header.0@, value@)],
            None => Seq::empty(),
        }),
{
    let some = tuples_view(headers@);
    let more = tuples_view(longer@);
    assert(more =~= some.push(tuple_view(header)));
    assert(more.drop_last() =~= some);
    assert(f@.headers == present(some));
    assert(g@.headers == present(more));
    assert(f@.headers.len() == f.headers@.len());
    assert(f.headers@.map_values(|h: Header<'_>| (h.0@, h.1@)) =~= f@.headers);
    assert(g.headers@.map_values(|h: Header<'_>| (h.0@, h.1@)) =~= g@.headers);
    assert(g@.headers =~= f@.headers + (match header.1 {
        Some(value) => seq![(header.0@, value@)],
        None => Seq::empty(),
    }));
}

/// Headers are added behind those of a frame, in order, but for names that the
/// frame had before: one more of them is one more header at the end, or none.
pub proof fn law_headers_are_added_once<'a>(
    frame: Frame<'a>,
    headers: &'a [(Vec<u8>, Vec<u8>)],
    longer: &'a [(Vec<u8>, Vec<u8>)],
    header: (Vec<u8>, Vec<u8>),
)
    requires
        longer@ == headers@.push(header),
    ensures
        forall|f: &mut Frame<'a>, g: &mut Frame<'a>|
            #[trigger] call_ensures(Frame::add_extra_headers, (f, headers), ())
                && #[trigger] call_ensures(Frame::add_extra_headers, (g, longer), ()) && *f == frame
                && *g == frame ==> {
                let taken = exists|i: int|
                    0 <= i < frame.headers@.len() && (#[trigger] frame.headers@[i]).0@ == header.0@;
                &&& final(f).command@ == frame.command@
                &&& final(f)@.body == frame@.body
                &&& headers@.len() == 0 ==> final(f).headers@.map_values(
                    |h: Header<'_>| (h.0@, h.1@),
                ) == frame.headers@.map_values(|h: Header<'_>| (h.0@, h.1@))
                &&& final(g).headers@.map_values(|h: Header<'_>| (h.0@, h.1@)) 
                    == final(f).headers@.map_values(|h: Header<'_>| (h.0@, h.1@)) + (if taken {
                    Seq::empty()
                } else {
                    seq![(header.0@, header.1@)]
                })
            },
{
    let own = frame@.headers;
    let few = pairs_view(headers@);
    let more = pairs_view(longer@);
    assert(more =~= few.push((header.0@, header.1@)));
    assert(more.drop_last() =~= few);
    let taken = exists|i: int|
        0 <= i < frame.headers@.len() && (#[trigger] frame.headers@[i]).0@ == header.0@;
    assert(own.len() == frame.headers@.len());
    assert(taken == has_header(own, header.0@)) by {
        if taken {
            let i = choose|i: int|
                0 <= i < frame.headers@.len() && (#[trigger] frame.headers@[i]).0@ == header.0@;
            assert(own[i].0 == header.0@);
        }
        if has_header(own, header.0@) {
            let i = choose|i: int| 0 <= i < own.len() && (#[trigger] own[i]).0 == header.0@;
            assert(frame.headers@[i].0@ == header.0@);
        }
    }
    assert(own + not_in(more, own) =~= own + not_in(few, own) + (if taken {
        Seq::empty()
    } else {
        seq![(header.0@, header.1@)]
    }));
    assert(headers@.len() == 0 ==> own + not_in(few, own) =~= own);
    assert(frame.headers@.map_values(|h: Header<'_>| (h.0@, h.1@)) =~= own);
    assert forall|f: &mut Frame<'a>, g: &mut Frame<'a>|
        #[trigger] call_ensures(Frame::add_extra_headers, (f, headers), ())
            && #[trigger] call_ensures(Frame::add_extra_headers, (g, longer), ()) && *f == frame
            && *g == frame implies {
        &&& final(f).command@ == frame.command@
        &&& final(f)@.body == frame@.body
        &&& headers@.len() == 0 ==> final(f).headers@.map_values(|h: Header<'_>| (h.0@, h.1@))
            == frame.headers@.map_values(|h: Header<'_>| (h.0@, h.1@))
        &&& final(g).headers@.map_values(|h: Header<'_>| (h.0@, h.1@)) 
                    == final(f).headers@.map_values(|h: Header<'_>| (h.0@, h.1@)) + (if taken {
            Seq::empty()
        } else {
            seq![(header.0@, header.1@)]
        })
    } by {
        assert(final(f).headers@.map_values(|h: Header<'_>| (h.0@, h.1@)) =~= final(f)@.headers);
        assert(final(g).headers@.map_values(|h: Header<'_>| (h.0@, h.1@)) =~= final(g)@.headers);
    }
}

/// The size of a frame is how many bytes it adds to a buffer.
pub proof fn law_size_is_what_is_written(f: &Frame<'_>, limit: usize, r: Option<usize>)
    requires
        call_ensures(Frame::size_within, (f, limit), r),
    ensures
        forall|b: &mut BytesMut| #[trigger]
            call_ensures(Frame::serialize, (f, b), ()) ==> {
                let written = contents(*final(b)).len() - contents(*b).len();
                &&& r is Some <==> written <= limit
                &&& r matches Some(size) ==> size == written
            },
{
}

/// An optional text becomes its bytes.
pub proof fn law_optional_text_becomes_bytes<'a>(s: &'a Option<String>, r: Option<Cow<'a, [u8]>>)
    requires
        call_ensures(opt_str_to_bytes, (s,), r),
    ensures
        r is Some == s is Some,
        r matches Some(bytes) ==> bytes@ == encode_utf8(s->0@),
{
}

/// A body without bytes is none.
pub proof fn law_empty_body_is_none<'a>(s: &'a [u8], r: Option<&'a [u8]>)
    requires
        call_ensures(is_empty_slice, (s,), r),
    ensures
        r is None <==> s@.len() == 0,
        r matches Some(body) ==> body@ == s@,
{
}

} // verus!
