//! Escaping of header names and values.
//!
//! A carriage return, a line feed, a colon and a backslash would be mistaken
//! for the structure of a frame, so on the wire a backslash and a letter stand
//! for each of them.

use crate::text::bytes_equal;
use vstd::prelude::*;
use vstd::utf8::*;

verus! {

pub const NUL: u8 = 0;

pub const LF: u8 = 10;

pub const CR: u8 = 13;

pub const COMMA: u8 = 44;

pub const COLON: u8 = 58;

pub const BACKSLASH: u8 = 92;

/// The letters that follow a backslash in an escape sequence
pub const LETTER_C: u8 = 99;

pub const LETTER_N: u8 = 110;

pub const LETTER_R: u8 = 114;

/// What stands on the wire for one byte of an escaped header.
pub open spec fn escape_byte(b: u8) -> Seq<u8> {
    if b == CR {
        seq![BACKSLASH, LETTER_R]
    } else if b == LF {
        seq![BACKSLASH, LETTER_N]
    } else if b == COLON {
        seq![BACKSLASH, LETTER_C]
    } else if b == BACKSLASH {
        seq![BACKSLASH, BACKSLASH]
    } else {
        seq![b]
    }
}

/// What stands on the wire for the bytes of an escaped header.
pub open spec fn escape(s: Seq<u8>) -> Seq<u8>
    decreases s.len(),
{
    if s.len() == 0 {
        Seq::empty()
    } else {
        escape(s.drop_last()) + escape_byte(s.last())
    }
}

/// What the two bytes backslash and `b` stand for in an escaped value.
///
/// A pair that is no escape sequence stands for itself.
pub open spec fn unescape_pair(b: u8) -> Seq<u8> {
    if b == LETTER_R {
        seq![CR]
    } else if b == LETTER_N {
        seq![LF]
    } else if b == LETTER_C {
        seq![COLON]
    } else if b == BACKSLASH {
        seq![BACKSLASH]
    } else {
        seq![BACKSLASH, b]
    }
}

/// What an escaped value stands for, read from the left.
///
/// A backslash at the very end stands for itself.
pub open spec fn unescape(s: Seq<u8>) -> Seq<u8>
    decreases s.len(),
{
    if s.len() == 0 {
        Seq::empty()
    } else if s[0] == BACKSLASH && s.len() >= 2 {
        unescape_pair(s[1]) + unescape(s.skip(2))
    } else {
        seq![s[0]] + unescape(s.skip(1))
    }
}

/// Whether `command` is `upper` or `lower`, the two spellings of a command.
pub open spec fn is_command(command: Seq<u8>, upper: Seq<char>, lower: Seq<char>) -> bool {
    command == encode_utf8(upper) || command == encode_utf8(lower)
}

/// Whether the headers of a frame with this command are escaped: those of a
/// CONNECT, a CONNECTED and a STOMP frame are not.
pub open spec fn escaped_command(command: Seq<u8>) -> bool {
    &&& !is_command(command, "CONNECT"@, "connect"@)
    &&& !is_command(command, "CONNECTED"@, "connected"@)
    &&& !is_command(command, "STOMP"@, "stomp"@)
}

/// Whether `command` is `upper` or `lower`.
pub fn command_is(command: &[u8], upper: &str, lower: &str) -> (r: bool)
    ensures
        r == is_command(command@, upper@, lower@),
{
    bytes_equal(command, upper.as_bytes()) || bytes_equal(command, lower.as_bytes())
}

/// Whether the headers of a frame with this command carry escape sequences
///
/// CONNECT and CONNECTED are the two exceptions of STOMP, kept unescaped for
/// the sake of STOMP 1.0. A STOMP frame counts as a CONNECT, since a server has
/// to handle the two alike.
pub fn headers_are_escaped(command: &[u8]) -> (r: bool)
    ensures
        r == escaped_command(command@),
{
    !(command_is(command, "CONNECT", "connect") || command_is(command, "CONNECTED", "connected")
        || command_is(command, "STOMP", "stomp"))
}

/// Unescape a header value
///
/// Converts escape sequences back to the characters they stand for:
/// - \r -> carriage return
/// - \n -> line feed
/// - \c -> colon
/// - \\ -> backslash
///
/// Any other pair that starts with a backslash is kept as it is.
pub fn unescape_header_value(value: &[u8]) -> (r: Vec<u8>)
    ensures
        r@ == unescape(value@),
{
    let mut result: Vec<u8> = Vec::with_capacity(value.len());
    let mut i: usize = 0;
    assert(value@.skip(0) =~= value@);
    while i < value.len()
        invariant
            i <= value@.len(),
            unescape(value@) == result@ + unescape(value@.skip(i as int)),
        decreases value@.len() - i,
    {
        let ghost rest = value@.skip(i as int);
        let ghost before = result@;
        if value[i] == BACKSLASH && i < value.len() - 1 {
            let next = value[i + 1];
            assert(rest.skip(2) =~= value@.skip(i + 2));
            if next == LETTER_R {
                result.push(CR);
            } else if next == LETTER_N {
                result.push(LF);
            } else if next == LETTER_C {
                result.push(COLON);
            } else if next == BACKSLASH {
                result.push(BACKSLASH);
            } else {
                result.push(value[i]);
                result.push(next);
            }
            assert(result@ =~= before + unescape_pair(next));
            assert(unescape(rest) == unescape_pair(next) + unescape(value@.skip(i + 2)));
            assert(before + unescape(rest) =~= result@ + unescape(value@.skip(i + 2)));
            i += 2;
        } else {
            assert(rest.skip(1) =~= value@.skip(i + 1));
            result.push(value[i]);
            assert(before + unescape(rest) =~= result@ + unescape(value@.skip(i + 1)));
            i += 1;
        }
    }
    assert(value@.skip(i as int) =~= Seq::<u8>::empty());
    assert(result@ + unescape(value@.skip(i as int)) =~= result@);
    result
}

/// Escaping works byte by byte from either end.
pub proof fn lemma_escape_add(a: Seq<u8>, b: Seq<u8>)
    ensures
        escape(a + b) == escape(a) + escape(b),
    decreases b.len(),
{
    if b.len() == 0 {
        assert(a + b =~= a);
        assert(escape(a) + escape(b) =~= escape(a));
    } else {
        assert((a + b).drop_last() =~= a + b.drop_last());
        lemma_escape_add(a, b.drop_last());
        assert(escape(a + b) =~= escape(a) + escape(b));
    }
}

proof fn lemma_escape_first(s: Seq<u8>)
    requires
        s.len() > 0,
    ensures
        escape(s) == escape_byte(s[0]) + escape(s.skip(1)),
{
    let one = seq![s[0]];
    assert(one + s.skip(1) =~= s);
    lemma_escape_add(one, s.skip(1));
    assert(one.drop_last() =~= Seq::<u8>::empty());
    assert(escape(one.drop_last()) =~= Seq::<u8>::empty());
    assert(escape(one) =~= escape_byte(s[0]));
}

/// Unescaping gives back what was escaped.
pub proof fn law_unescape_undoes_escape(s: Seq<u8>)
    ensures
        unescape(escape(s)) == s,
    decreases s.len(),
{
    if s.len() > 0 {
        let rest = escape(s.skip(1));
        let all = escape(s);
        lemma_escape_first(s);
        law_unescape_undoes_escape(s.skip(1));
        let head = escape_byte(s[0]);
        assert(all == head + rest);
        if head.len() == 2 {
            assert(all.skip(2) =~= rest);
            assert(unescape_pair(all[1]) =~= seq![s[0]]);
        } else {
            assert(all.skip(1) =~= rest);
        }
        assert(seq![s[0]] + s.skip(1) =~= s);
    } else {
        assert(escape(s) =~= s);
    }
}

/// No escaped header holds a byte that ends a name, a value or a line.
pub proof fn law_escape_leaves_no_delimiter(s: Seq<u8>)
    ensures
        forall|i: int|
            #![trigger escape(s)[i]]
            0 <= i < escape(s).len() ==> escape(s)[i] != CR && escape(s)[i] != LF && escape(s)[i]
                != COLON,
    decreases s.len(),
{
    if s.len() > 0 {
        let init = escape(s.drop_last());
        law_escape_leaves_no_delimiter(s.drop_last());
        assert forall|i: int| #![trigger escape(s)[i]] 0 <= i < escape(s).len() implies escape(s)[i]
            != CR && escape(s)[i] != LF && escape(s)[i] != COLON by {
            if i < init.len() {
                assert(escape(s)[i] == init[i]);
            } else {
                assert(escape(s)[i] == escape_byte(s.last())[i - init.len()]);
            }
        }
    }
}

/// Two different headers are never escaped to the same bytes.
pub proof fn law_escape_is_injective(a: Seq<u8>, b: Seq<u8>)
    requires
        escape(a) == escape(b),
    ensures
        a == b,
{
    law_unescape_undoes_escape(a);
    law_unescape_undoes_escape(b);
}

/// Bytes are escaped one by one: a carriage return, a line feed, a colon and a
/// backslash each by a backslash and a letter of its own, or a second backslash,
/// and every other byte as itself.
pub proof fn law_bytes_are_escaped_one_by_one(s: Seq<u8>, b: u8)
    ensures
        escape(Seq::empty()) == Seq::<u8>::empty(),
        escape(s.push(b)) == escape(s) + (if b == 13 {
            seq![92u8, 114u8]
        } else if b == 10 {
            seq![92u8, 110u8]
        } else if b == 58 {
            seq![92u8, 99u8]
        } else if b == 92 {
            seq![92u8, 92u8]
        } else {
            seq![b]
        }),
{
    assert(s.push(b).drop_last() =~= s);
}

/// Escape sequences are read from the left, each for itself: those of a carriage
/// return, a line feed, a colon and a backslash as that byte, any other pair that
/// starts with a backslash as it is, and so a backslash at the end.
pub proof fn law_escapes_are_read_one_by_one(
    value: &[u8],
    r: Vec<u8>,
    tail: &[u8],
    rest: Vec<u8>,
    b: u8,
)
    requires
        call_ensures(unescape_header_value, (value,), r),
        call_ensures(unescape_header_value, (tail,), rest),
    ensures
        value@.len() == 0 ==> r@.len() == 0,
        value@ == seq![92u8] ==> r@ == seq![92u8],
        value@ == seq![b] + tail@ && b != 92 ==> r@ == seq![b] + rest@,
        value@ == seq![92u8, b] + tail@ ==> r@ == (if b == 114 {
            seq![13u8]
        } else if b == 110 {
            seq![10u8]
        } else if b == 99 {
            seq![58u8]
        } else if b == 92 {
            seq![92u8]
        } else {
            seq![92u8, b]
        }) + rest@,
{
    if value@ == seq![92u8] {
        assert(value@.skip(1) =~= Seq::<u8>::empty());
        assert(unescape(value@.skip(1)) =~= Seq::<u8>::empty());
        assert(r@ =~= seq![92u8]);
    }
    if value@ == seq![b] + tail@ {
        assert(value@[0] == b);
        assert(value@.skip(1) =~= tail@);
    }
    if value@ == seq![92u8, b] + tail@ {
        assert(value@[0] == 92 && value@[1] == b);
        assert(value@.skip(2) =~= tail@);
    }
}

/// Headers are escaped in every frame but a CONNECT, a CONNECTED and a STOMP
/// frame.
pub proof fn law_handshakes_are_not_escaped(command: &[u8], r: bool)
    requires
        call_ensures(headers_are_escaped, (command,), r),
    ensures
        !r <==> command@ == encode_utf8("CONNECT"@) || command@ == encode_utf8("connect"@)
            || command@ == encode_utf8("CONNECTED"@) || command@ == encode_utf8("connected"@)
            || command@ == encode_utf8("STOMP"@) || command@ == encode_utf8("stomp"@),
{
}

} // verus!
