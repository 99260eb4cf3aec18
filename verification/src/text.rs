//! Bytes, decimal numbers and UTF-8 text.

use std::string::FromUtf8Error;
use vstd::prelude::*;
use vstd::utf8::*;

verus! {

/// The error of `String::from_utf8`; only its presence is looked at.
#[verifier::external_type_specification]
#[verifier::external_body]
pub struct ExFromUtf8Error(FromUtf8Error);

/// `String::from_utf8`: succeeds exactly on valid UTF-8, and the string then
/// holds the characters that the bytes encode.
pub assume_specification[ String::from_utf8 ](vec: Vec<u8>) -> (r: Result<String, FromUtf8Error>)
    ensures
        r is Ok <==> valid_utf8(vec@),
        r matches Ok(s) ==> s@ == decode_utf8(vec@),
;

/// `String::from` on a `&str`: a string with the same characters.
pub assume_specification<'a>[ <String as From<&'a str>>::from ](s: &str) -> (r: String)
    ensures
        r@ == s@,
;

/// `From` from a type to itself: the value as it is.
pub assume_specification<Value>[ <Value as From<Value>>::from ](t: Value) -> (r: Value)
    ensures
        r == t,
;

/// Whether two byte slices hold the same bytes.
pub fn bytes_equal(a: &[u8], b: &[u8]) -> (r: bool)
    ensures
        r == (a@ == b@),
{
    if a.len() != b.len() {
        return false;
    }
    let mut i: usize = 0;
    while i < a.len()
        invariant
            i <= a@.len(),
            a@.len() == b@.len(),
            forall|j: int| 0 <= j < i ==> a@[j] == b@[j],
        decreases a@.len() - i,
    {
        if a[i] != b[i] {
            return false;
        }
        i += 1;
    }
    assert(a@ =~= b@);
    true
}

/// The decimal digits of `n`, most significant first, without leading zeros.
pub open spec fn decimal(n: nat) -> Seq<u8>
    decreases n,
{
    if n < 10 {
        seq![(48 + n) as u8]
    } else {
        decimal(n / 10).push((48 + n % 10) as u8)
    }
}

/// Writes `n` in decimal.
pub fn to_decimal(n: u64) -> (r: Vec<u8>)
    ensures
        r@ == decimal(n as nat),
    decreases n,
{
    if n < 10 {
        let mut digits: Vec<u8> = Vec::new();
        digits.push(48 + n as u8);
        assert(digits@ =~= decimal(n as nat));
        digits
    } else {
        let mut digits = to_decimal(n / 10);
        digits.push(48 + (n % 10) as u8);
        digits
    }
}

/// The decimal digits of `n` as characters.
pub open spec fn decimal_text(n: nat) -> Seq<char> {
    decode_utf8(decimal(n))
}

/// Digits are text.
pub proof fn lemma_decimal_is_utf8(n: nat)
    ensures
        valid_utf8(decimal(n)),
{
    let chars = decimal(n).map_values(|b: u8| b as char);
    lemma_decimal_digits(n);
    assert forall|i: int| 0 <= i < chars.len() implies '\0' <= #[trigger] chars[i] <= '\u{7f}' by {
        assert(is_digit(decimal(n)[i]));
    }
    is_ascii_chars_encode_utf8(chars);
    assert forall|i: int| 0 <= i < chars.len() implies encode_utf8(chars)[i] == decimal(n)[i] by {
        assert(is_digit(decimal(n)[i]));
        assert(chars[i] as u8 == encode_utf8(chars)[i]);
    }
    assert(encode_utf8(chars) =~= decimal(n));
    encode_utf8_valid_utf8(chars);
}

/// Writes `n` in decimal, as text.
pub fn to_decimal_text(n: u64) -> (r: String)
    ensures
        r@ == decimal_text(n as nat),
{
    proof {
        lemma_decimal_is_utf8(n as nat);
    }
    match String::from_utf8(to_decimal(n)) {
        Ok(text) => text,
        Err(_) => String::new(),
    }
}

/// What `String::from_utf8_lossy` makes of bytes.
pub uninterp spec fn lossy_text(bytes: Seq<u8>) -> Seq<char>;

/// `String::from_utf8_lossy`: the bytes read as UTF-8, with a replacement
/// character for what is not valid. Only for valid bytes is it said which text
/// comes out.
#[verifier::external_body]
pub(crate) fn lossy(bytes: &[u8]) -> (r: String)
    ensures
        r@ == lossy_text(bytes@),
        valid_utf8(bytes@) ==> r@ == decode_utf8(bytes@),
{
    String::from_utf8_lossy(bytes).into_owned()
}

/// What formatting a text with `{:?}` makes of it.
pub uninterp spec fn quoted_text(s: Seq<char>) -> Seq<char>;

/// The `Debug` format of a `str`: the text in quotes, with escapes.
#[verifier::external_body]
pub(crate) fn quoted(s: &str) -> (r: String)
    ensures
        r@ == quoted_text(s@),
{
    format!("{:?}", s)
}

/// Whether two texts are the same.
pub fn text_is(a: &str, b: &str) -> (r: bool)
    ensures
        r == (a@ == b@),
{
    proof {
        encode_utf8_decode_utf8(a@);
        encode_utf8_decode_utf8(b@);
    }
    bytes_equal(a.as_bytes(), b.as_bytes())
}

/// Why a text is not a `u32`.
#[derive(Debug, Clone, Copy, PartialEq, Eq, Structural)]
pub enum NumberError {
    /// There is nothing to read.
    Empty,
    /// A character is not a decimal digit.
    InvalidDigit,
    /// The number is larger than `u32::MAX`.
    TooLarge,
}

pub open spec fn is_digit(b: u8) -> bool {
    48 <= b <= 57
}

/// What the digits of `s` amount to when they follow a number `acc`.
///
/// The first character that is not a digit, or that takes the number past
/// `u32::MAX`, decides the error.
pub open spec fn digits_value(s: Seq<u8>, acc: nat) -> Result<u32, NumberError>
    decreases s.len(),
{
    if s.len() == 0 {
        Ok(acc as u32)
    } else if !is_digit(s[0]) {
        Err(NumberError::InvalidDigit)
    } else if acc * 10 + (s[0] - 48) > u32::MAX {
        Err(NumberError::TooLarge)
    } else {
        digits_value(s.skip(1), (acc * 10 + (s[0] - 48)) as nat)
    }
}

/// The number that `s` spells: decimal digits, after at most one plus sign.
pub open spec fn number(s: Seq<u8>) -> Result<u32, NumberError> {
    if s.len() == 0 {
        Err(NumberError::Empty)
    } else if s[0] != 43 {
        digits_value(s, 0)
    } else if s.len() == 1 {
        Err(NumberError::InvalidDigit)
    } else {
        digits_value(s.skip(1), 0)
    }
}

/// Reads a `u32` in decimal.
pub fn parse_u32(s: &[u8]) -> (r: Result<u32, NumberError>)
    ensures
        r == number(s@),
{
    if s.len() == 0 {
        return Err(NumberError::Empty);
    }
    let mut i: usize = 0;
    if s[0] == 43 {
        if s.len() == 1 {
            return Err(NumberError::InvalidDigit);
        }
        i = 1;
    }
    let mut acc: u32 = 0;
    assert(s@.skip(0) =~= s@);
    while i < s.len()
        invariant
            i <= s@.len(),
            s@.len() > 0,
            number(s@) == digits_value(s@.skip(i as int), acc as nat),
        decreases s@.len() - i,
    {
        let d = s[i];
        assert(s@.skip(i as int).skip(1) =~= s@.skip(i + 1));
        if d < 48 || d > 57 {
            return Err(NumberError::InvalidDigit);
        }
        let next: u64 = acc as u64 * 10 + (d - 48) as u64;
        if next > u32::MAX as u64 {
            return Err(NumberError::TooLarge);
        }
        acc = next as u32;
        i += 1;
    }
    Ok(acc)
}

proof fn lemma_digits_value_push(s: Seq<u8>, d: u8, acc: nat)
    requires
        digits_value(s, acc) is Ok,
        acc <= u32::MAX,
        is_digit(d),
        digits_value(s, acc)->Ok_0 * 10 + (d - 48) <= u32::MAX,
    ensures
        digits_value(s.push(d), acc) == Ok::<u32, NumberError>(
            (digits_value(s, acc)->Ok_0 * 10 + (d - 48)) as u32,
        ),
    decreases s.len(),
{
    if s.len() == 0 {
        assert(s.push(d).skip(1) =~= Seq::<u8>::empty());
        let value = (acc * 10 + (d - 48)) as nat;
        assert(digits_value(s.push(d).skip(1), value) == Ok::<u32, NumberError>(value as u32));
    } else {
        assert(s.push(d).skip(1) =~= s.skip(1).push(d));
        lemma_digits_value_push(s.skip(1), d, (acc * 10 + (s[0] - 48)) as nat);
    }
}

/// The digits of a number are digits, and they amount to the number.
pub proof fn lemma_decimal_digits(n: nat)
    ensures
        decimal(n).len() > 0,
        forall|i: int| 0 <= i < decimal(n).len() ==> is_digit(#[trigger] decimal(n)[i]),
        n <= u32::MAX ==> digits_value(decimal(n), 0) == Ok::<u32, NumberError>(n as u32),
    decreases n,
{
    if n < 10 {
        assert(decimal(n).skip(1) =~= Seq::<u8>::empty());
        assert(digits_value(decimal(n).skip(1), n) == Ok::<u32, NumberError>(n as u32));
    } else {
        lemma_decimal_digits(n / 10);
        if n <= u32::MAX {
            lemma_digits_value_push(decimal(n / 10), (48 + n % 10) as u8, 0);
        }
    }
}

/// A number that was written in decimal is read back as itself.
pub proof fn law_decimal_is_read_back(n: u32)
    ensures
        number(decimal(n as nat)) == Ok::<u32, NumberError>(n),
{
    lemma_decimal_digits(n as nat);
    assert(is_digit(decimal(n as nat)[0]));
}

/// A number is written digit by digit: the last digit stands behind those of a
/// tenth of the number, and a number below ten is its one digit.
pub proof fn law_number_is_written_by_digits(n: u64, r: Vec<u8>, tenth: Vec<u8>)
    requires
        call_ensures(to_decimal, (n,), r),
        call_ensures(to_decimal, ((n / 10) as u64,), tenth),
    ensures
        n < 10 ==> r@ == seq![(48 + n) as u8],
        n >= 10 ==> r@ == tenth@.push((48 + n % 10) as u8),
{
}

proof fn lemma_digits_value_goes_on(s: Seq<u8>, d: u8, acc: nat)
    requires
        acc <= u32::MAX,
    ensures
        digits_value(s.push(d), acc) == (match digits_value(s, acc) {
            Err(e) => Err(e),
            Ok(n) => if !is_digit(d) {
                Err(NumberError::InvalidDigit)
            } else if n * 10 + (d - 48) > u32::MAX {
                Err(NumberError::TooLarge)
            } else {
                Ok((n * 10 + (d - 48)) as u32)
            },
        }),
    decreases s.len(),
{
    if s.len() == 0 {
        assert(s.push(d).skip(1) =~= Seq::<u8>::empty());
        if is_digit(d) && acc * 10 + (d - 48) <= u32::MAX {
            let value = (acc * 10 + (d - 48)) as nat;
            assert(digits_value(s.push(d).skip(1), value) == Ok::<u32, NumberError>(value as u32));
        }
    } else {
        assert(s.push(d).skip(1) =~= s.skip(1).push(d));
        if is_digit(s[0]) && acc * 10 + (s[0] - 48) <= u32::MAX {
            lemma_digits_value_goes_on(s.skip(1), d, (acc * 10 + (s[0] - 48)) as nat);
        }
    }
}

/// A number is read digit by digit: one more digit makes ten times the number
/// and the digit, unless that is past the largest `u32`; anything but a digit is
/// an error, and an error stays. A single plus sign may come first, but makes no
/// number by itself.
pub proof fn law_number_is_read_by_digits(
    start: &[u8],
    before: Result<u32, NumberError>,
    s: &[u8],
    last: u8,
    r: Result<u32, NumberError>,
)
    requires
        call_ensures(parse_u32, (start,), before),
        call_ensures(parse_u32, (s,), r),
        s@ == start@.push(last),
    ensures
        start@.len() == 0 ==> before == Err::<u32, NumberError>(NumberError::Empty),
        start@.len() == 0 || start@ == seq![43u8] ==> r == (if 48 <= last <= 57 {
            Ok((last - 48) as u32)
        } else {
            Err(NumberError::InvalidDigit)
        }),
        start@.len() > 0 && start@ != seq![43u8] ==> r == (match before {
            Err(e) => Err(e),
            Ok(n) => if !(48 <= last <= 57) {
                Err(NumberError::InvalidDigit)
            } else if n * 10 + (last - 48) > 4294967295 {
                Err(NumberError::TooLarge)
            } else {
                Ok((n * 10 + (last - 48)) as u32)
            },
        }),
{
    let all = start@;
    if all.len() == 0 {
        assert(s@.skip(1) =~= Seq::<u8>::empty());
        lemma_digits_value_goes_on(Seq::empty(), last, 0);
        assert(Seq::<u8>::empty().push(last) =~= s@);
    } else if all[0] == 43 {
        assert(s@.skip(1) =~= all.skip(1).push(last));
        lemma_digits_value_goes_on(all.skip(1), last, 0);
        if all.len() == 1 {
            assert(all =~= seq![43u8]);
            assert(all.skip(1) =~= Seq::<u8>::empty());
        }
    } else {
        lemma_digits_value_goes_on(all, last, 0);
    }
}

} // verus!
