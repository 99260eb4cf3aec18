//! Heart-beats: what the two sides agree on, and when a beat is due.
//!
//! Each side says how often it can beat and how often it wants the other to.
//! A direction is active only if both want it, and then the slower of the two
//! intervals holds. All intervals are in milliseconds.

use crate::error::{Error, ErrorView};
use crate::escape::COMMA;
use crate::grammar::{find, find_stop, lemma_find, Stop};
use crate::model::outcome;
use crate::text::{
    decimal, law_decimal_is_read_back, lemma_decimal_digits, number, parse_u32, to_decimal,
};
use vstd::prelude::*;
use vstd::slice::slice_subrange;

verus! {

/// The two intervals that a heart-beat value holds: two numbers, with the first
/// comma between them.
pub open spec fn heartbeat_value(s: Seq<u8>) -> Result<(u32, u32), ErrorView> {
    let comma = find(s, 0, Stop::Comma);
    if comma >= s.len() {
        Err(ErrorView::BadHeartbeat)
    } else {
        match number(s.take(comma)) {
            Err(e) => Err(ErrorView::BadInterval(e)),
            Ok(left) => match number(s.skip(comma + 1)) {
                Err(e) => Err(ErrorView::BadInterval(e)),
                Ok(right) => Ok((left, right)),
            },
        }
    }
}

/// The heart-beat value for two intervals.
pub open spec fn heartbeat_bytes(intervals: (u32, u32)) -> Seq<u8> {
    decimal(intervals.0 as nat) + seq![COMMA] + decimal(intervals.1 as nat)
}

/// Parse a heartbeat header value into a (u32, u32) tuple
///
/// The value is in the format "cx,cy" where cx is the client's heartbeat
/// interval and cy is the server's heartbeat interval.
pub fn parse_heartbeat(hb: &str) -> (r: Result<(u32, u32), Error>)
    ensures
        outcome(r) == heartbeat_value(vstd::utf8::encode_utf8(hb@)),
{
    let s = hb.as_bytes();
    let comma = find_stop(s, 0, Stop::Comma);
    if comma == s.len() {
        return Err(Error::BadHeartbeat);
    }
    let left = slice_subrange(s, 0, comma);
    let right = slice_subrange(s, comma + 1, s.len());
    assert(left@ =~= s@.take(comma as int));
    assert(right@ =~= s@.skip(comma + 1));
    match parse_u32(left) {
        Err(e) => Err(Error::BadInterval(e)),
        Ok(left) => match parse_u32(right) {
            Err(e) => Err(Error::BadInterval(e)),
            Ok(right) => Ok((left, right)),
        },
    }
}

/// Writes a heart-beat value.
pub fn format_heartbeat(intervals: (u32, u32)) -> (r: Vec<u8>)
    ensures
        r@ == heartbeat_bytes(intervals),
{
    let mut bytes = to_decimal(intervals.0 as u64);
    let mut right = to_decimal(intervals.1 as u64);
    bytes.push(COMMA);
    bytes.append(&mut right);
    assert(bytes@ =~= heartbeat_bytes(intervals));
    bytes
}

/// A heart-beat value that was written is read back as the same intervals.
pub proof fn law_heartbeat_is_read_back(intervals: (u32, u32))
    ensures
        heartbeat_value(heartbeat_bytes(intervals)) == Ok::<(u32, u32), ErrorView>(intervals),
{
    let left = decimal(intervals.0 as nat);
    let right = decimal(intervals.1 as nat);
    let s = heartbeat_bytes(intervals);
    lemma_decimal_digits(intervals.0 as nat);
    lemma_find(s, 0, Stop::Comma);
    let comma = find(s, 0, Stop::Comma);
    assert(s[left.len() as int] == COMMA);
    assert(comma >= left.len()) by {
        if comma < left.len() {
            assert(s[comma] == left[comma]);
        }
    }
    assert(s.take(comma) =~= left);
    assert(s.skip(comma + 1) =~= right);
    law_decimal_is_read_back(intervals.0);
    law_decimal_is_read_back(intervals.1);
}

/// The interval of a direction in which one side offers a beat every `offered`
/// milliseconds and the other wants one every `wanted`.
pub open spec fn agreed(offered: u32, wanted: u32) -> Option<u32> {
    if offered == 0 || wanted == 0 {
        None
    } else if offered >= wanted {
        Some(offered)
    } else {
        Some(wanted)
    }
}

/// The intervals that hold after a client has asked for `requested` and the
/// server has answered `answer`: that of the client's beats, and that of the
/// server's.
pub open spec fn negotiated(requested: (u32, u32), answer: (u32, u32)) -> (
    Option<u32>,
    Option<u32>,
) {
    (agreed(requested.0, answer.1), agreed(answer.0, requested.1))
}

/// The interval of one direction, `None` if either side declines.
fn agree(offered: u32, wanted: u32) -> (r: Option<u32>)
    ensures
        r == agreed(offered, wanted),
{
    if offered == 0 || wanted == 0 {
        None
    } else if offered >= wanted {
        Some(offered)
    } else {
        Some(wanted)
    }
}

/// Settle the heart-beats of a connection
///
/// Both values are (what the side can send, what the side wants to receive).
/// The result is (interval of the client's beats, interval of the server's),
/// each the slower of what the two sides named, or `None` if a side named zero.
pub fn negotiate(requested: (u32, u32), answer: (u32, u32)) -> (r: (Option<u32>, Option<u32>))
    ensures
        r == negotiated(requested, answer),
{
    (agree(requested.0, answer.1), agree(answer.0, requested.1))
}

/// Neither side is ever held to more than it named: an agreed interval is no
/// shorter than what either side asked for, and is one of the two.
pub proof fn law_agreement_suits_both(offered: u32, wanted: u32)
    ensures
        agreed(offered, wanted) matches Some(interval) ==> {
            &&& interval >= offered
            &&& interval >= wanted
            &&& interval == offered || interval == wanted
            &&& interval > 0
        },
        agreed(offered, wanted) is None <==> offered == 0 || wanted == 0,
        agreed(offered, wanted) == agreed(wanted, offered),
{
}

/// The heart-beats of an open connection
#[derive(Debug, Clone, Copy)]
pub struct Heartbeat {
    /// Interval of the beats that the client owes, if any
    pub outgoing: Option<u32>,
    /// Interval of the beats that the server owes, if any
    pub incoming: Option<u32>,
    /// Whether beats are sent and watched for without the application's help
    pub automatic: bool,
}

impl Heartbeat {
    /// How long until a beat is due, given that nothing was sent for `idle`
    /// milliseconds; zero if it is due, `None` if none ever is
    pub fn until_beat(&self, idle: u64) -> (r: Option<u64>)
        ensures
            match self.outgoing {
                Some(interval) if self.automatic => r == Some(
                    (if idle >= interval {
                        0
                    } else {
                        interval - idle
                    }) as u64,
                ),
                _ => r is None,
            },
    {
        match self.outgoing {
            Some(interval) if self.automatic => Some(
                if idle >= interval as u64 {
                    0
                } else {
                    interval as u64 - idle
                },
            ),
            _ => None,
        }
    }

    /// How long until the server counts as gone, given that nothing was received
    /// for `quiet` milliseconds; zero if it does, `None` if it never will
    ///
    /// A beat may be held up on its way, so the server is given twice the
    /// interval.
    pub fn until_silent(&self, quiet: u64) -> (r: Option<u64>)
        ensures
            match self.incoming {
                Some(interval) if self.automatic => r == Some(
                    (if quiet >= 2 * interval {
                        0
                    } else {
                        2 * interval - quiet
                    }) as u64,
                ),
                _ => r is None,
            },
    {
        match self.incoming {
            Some(interval) if self.automatic => {
                let limit: u64 = 2 * interval as u64;
                Some(
                    if quiet >= limit {
                        0
                    } else {
                        limit - quiet
                    },
                )
            },
            _ => None,
        }
    }
}

} // verus!
