//! The grammar of frames, held against the same grammar written down with parser
//! combinators.

use async_stomp::error::Error;
use async_stomp::grammar::{parse_frame, parse_header, ParseError};
use winnow::ascii::{alpha1, line_ending, till_line_ending};
use winnow::combinator::{delimited, opt, repeat, separated_pair, terminated};
use winnow::error::{ContextError, ErrMode, StrContext};
use winnow::prelude::Parser;
use winnow::stream::Offset;
use winnow::token::{literal, take, take_till, take_until};
use winnow::{ModalResult, Partial};

type Pairs<'a> = Vec<(&'a [u8], &'a [u8])>;
type Found<'a> = (&'a [u8], Pairs<'a>, Option<&'a [u8]>);

fn header_rule<'a>(input: &mut Partial<&'a [u8]>) -> ModalResult<(&'a [u8], &'a [u8])> {
    separated_pair(
        take_till(1.., [':', '\r', '\n']),
        literal(":"),
        terminated(till_line_ending, line_ending),
    )
    .context(StrContext::Label("Header"))
    .parse_next(input)
}

fn length_of(headers: &[(&[u8], &[u8])]) -> Option<u32> {
    let (_, value) = headers.iter().find(|(key, _)| *key == b"content-length")?;
    std::str::from_utf8(value).ok()?.parse::<u32>().ok()
}

fn frame_rule<'a>(input: &mut Partial<&'a [u8]>) -> ModalResult<Found<'a>> {
    let (command, headers): (&'a [u8], Pairs<'a>) = (
        delimited(opt(line_ending), alpha1, line_ending),
        terminated(repeat(0.., header_rule), line_ending),
    )
        .context(StrContext::Label("Command/Headers"))
        .parse_next(input)?;
    let body: Option<&'a [u8]> = match length_of(&headers) {
        None => {
            let found: &'a [u8] = take_until(0.., "\x00").parse_next(input)?;
            if found.is_empty() {
                None
            } else {
                Some(found)
            }
        }
        Some(length) => Some(take(length).parse_next(input)?),
    };
    (literal("\x00"), opt(line_ending.complete_err()))
        .context(StrContext::Label("NullTermination/LineEnding"))
        .parse_next(input)?;
    Ok((command, headers, body))
}

/// Reads `data` both ways and compares what was found, and how much was used
fn compare(data: &[u8]) {
    let start = Partial::new(data);
    let mut rest = start;
    let expected: Result<Found<'_>, ErrMode<ContextError>> = frame_rule(&mut rest);
    let mut input = data;
    match (parse_frame(&mut input), expected) {
        (Ok(frame), Ok((command, headers, body))) => {
            assert_eq!(frame.command, command, "{data:?}");
            let found: Pairs<'_> = frame.headers.iter().map(|(k, v)| (*k, &**v)).collect();
            assert_eq!(found, headers, "{data:?}");
            assert_eq!(frame.body, body, "{data:?}");
            assert_eq!(data.len() - input.len(), rest.offset_from(&start), "{data:?}");
        }
        (Err(ParseError::Incomplete), Err(ErrMode::Incomplete(_))) => {
            assert_eq!(input, data);
        }
        (Err(ParseError::Invalid(part)), Err(e @ (ErrMode::Backtrack(_) | ErrMode::Cut(_)))) => {
            assert_eq!(input, data);
            assert_eq!(Error::ParseFailed(part).message(), format!("Parse failed: {e:?}"));
        }
        (found, expected) => panic!("{data:?}: {found:?} and {expected:?}"),
    }
}

/// Calls `check` with everything that starts with `data` and goes on with up to
/// `left` bytes of `alphabet`
fn for_all(data: &mut Vec<u8>, alphabet: &[u8], left: usize, check: fn(&[u8])) {
    check(data);
    if left > 0 {
        for b in alphabet {
            data.push(*b);
            for_all(data, alphabet, left - 1, check);
            data.pop();
        }
    }
}

#[test]
fn short_inputs_are_read_alike() {
    for_all(&mut Vec::new(), b"A1:\r\n\0", 6, compare);
}

#[test]
fn inputs_behind_a_command_are_read_alike() {
    for_all(&mut b"A\n".to_vec(), b"a:\r\n\0\\", 6, compare);
}

#[test]
fn inputs_behind_a_length_are_read_alike() {
    for_all(&mut b"A\ncontent-length:2\n".to_vec(), b"x:\r\n\0", 6, compare);
}

#[test]
fn lengths_are_read_alike() {
    for value in [
        "", "0", "3", "03", "+3", "-3", " 3", "3 ", "+", "4294967295", "4294967296", "99999999999",
        "3\u{e5}",
    ] {
        let data = format!("SEND\nx:1\ncontent-length:{value}\ncontent-length:1\n\nabc\0\n");
        for end in 0..=data.len() {
            compare(&data.as_bytes()[..end]);
        }
    }
}

#[test]
fn bytes_that_are_no_text_are_read_alike() {
    let data = b"SEND\n\xff\xfe:\x80\ncontent-length:\xff\n\n\xff\0\r\nSEND";
    for end in 0..=data.len() {
        compare(&data[..end]);
    }
}

fn compare_header(data: &[u8]) {
    let start = Partial::new(data);
    let mut rest = start;
    let mut input = data;
    match (parse_header(&mut input), header_rule(&mut rest)) {
        (Ok(header), Ok((name, value))) => {
            assert_eq!(header.0, name);
            assert_eq!(&*header.1, value);
            assert_eq!(data.len() - input.len(), rest.offset_from(&start));
        }
        (Err(ParseError::Incomplete), Err(ErrMode::Incomplete(_))) => {}
        (Err(ParseError::Invalid(part)), Err(e @ (ErrMode::Backtrack(_) | ErrMode::Cut(_)))) => {
            assert_eq!(Error::ParseFailed(part).message(), format!("Parse failed: {e:?}"));
        }
        (found, expected) => panic!("{data:?}: {found:?} and {expected:?}"),
    }
}

#[test]
fn headers_are_read_alike() {
    for_all(&mut Vec::new(), b"a1:\r\n\0", 6, compare_header);
}
